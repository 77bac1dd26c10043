//! Durability and ageing of gossip state: a versioned binary snapshot of the
//! membership table and the rumor stores, and the periodic sweep that ages
//! members and drops expired rumors.

pub mod dat_file;
pub mod download;
pub mod endian;
pub mod error;
pub mod expire;
pub mod fact;
pub mod frame;
pub mod header;
pub mod member;
pub mod package;
pub mod reader;
pub mod round_trip;
pub mod rumor;
pub mod server;
pub mod text;
pub mod timing;
