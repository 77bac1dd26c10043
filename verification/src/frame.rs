//! Sections of length-prefixed frames.
//!
//! A section is a run of frames, back to back. A frame is the length of its
//! payload, as eight little-endian bytes, followed by the payload.

use crate::endian::{le_bytes, le_u64, lemma_le_round_trip, read_u64, write_u64};
use crate::error::DecodeFailure;
use crate::reader::ByteReader;
use vstd::prelude::*;

verus! {

/// The frame that carries `payload`.
pub open spec fn frame(payload: Seq<u8>) -> Seq<u8> {
    le_bytes(payload.len() as u64) + payload
}

/// The section that carries `payloads`, in order.
pub open spec fn frames(payloads: Seq<Seq<u8>>) -> Seq<u8>
    decreases payloads.len(),
{
    if payloads.len() == 0 {
        Seq::empty()
    } else {
        frame(payloads.first()) + frames(payloads.drop_first())
    }
}

/// The number of bytes of the section that carries `payloads`: eight for
/// each frame's length, and the payloads themselves.
pub open spec fn frames_len(payloads: Seq<Seq<u8>>) -> nat
    decreases payloads.len(),
{
    if payloads.len() == 0 {
        0
    } else {
        8 + payloads.first().len() + frames_len(payloads.drop_first())
    }
}

/// Whether the length of each payload can be written in eight bytes.
pub open spec fn framable(payloads: Seq<Seq<u8>>) -> bool {
    forall|i: int| 0 <= i < payloads.len() ==> (#[trigger] payloads[i]).len() <= u64::MAX
}

/// The payloads that the buffers hold.
pub open spec fn views(buffers: Seq<Vec<u8>>) -> Seq<Seq<u8>> {
    buffers.map_values(|buffer: Vec<u8>| buffer@)
}

/// What reading a section gives: the payloads of its frames, or the index of
/// the first frame that cannot be read and why.
pub enum Parsed {
    Frames(Seq<Seq<u8>>),
    Failure(nat, DecodeFailure),
}

impl Parsed {
    /// This outcome for the rest of a section, seen from a section that
    /// starts with the frames of `done`.
    pub open spec fn after(self, done: Seq<Seq<u8>>) -> Parsed {
        match self {
            Parsed::Frames(rest) => Parsed::Frames(done + rest),
            Parsed::Failure(i, why) => Parsed::Failure(done.len() + i, why),
        }
    }
}

/// Reads the section of `remaining` bytes that starts at `pos` in `bytes`.
/// Frames are taken one after another until their lengths and payloads add
/// up to `remaining` exactly. A frame that would end beyond the section, or
/// beyond the bytes, fails the whole section.
pub open spec fn parse_frames(bytes: Seq<u8>, pos: int, remaining: int) -> Parsed
    decreases remaining,
{
    if remaining <= 0 {
        Parsed::Frames(Seq::empty())
    } else if remaining < 8 {
        Parsed::Failure(0, DecodeFailure::FrameOverrunsSection)
    } else if pos + 8 > bytes.len() {
        Parsed::Failure(0, DecodeFailure::TruncatedLength)
    } else {
        let n = le_u64(bytes.subrange(pos, pos + 8)) as int;
        if 8 + n > remaining {
            Parsed::Failure(0, DecodeFailure::FrameOverrunsSection)
        } else if pos + 8 + n > bytes.len() {
            Parsed::Failure(0, DecodeFailure::TruncatedPayload)
        } else {
            parse_frames(bytes, pos + 8 + n, remaining - 8 - n).after(
                seq![bytes.subrange(pos + 8, pos + 8 + n)],
            )
        }
    }
}

/// A section is as long as its frames: eight bytes and the payload, each.
pub proof fn lemma_frames_len(payloads: Seq<Seq<u8>>)
    ensures
        frames(payloads).len() == frames_len(payloads),
    decreases payloads.len(),
{
    if payloads.len() > 0 {
        lemma_le_round_trip(payloads.first().len() as u64);
        lemma_frames_len(payloads.drop_first());
    }
}

/// Adding a payload to a section appends its frame.
pub proof fn lemma_frames_push(payloads: Seq<Seq<u8>>, payload: Seq<u8>)
    ensures
        frames(payloads.push(payload)) == frames(payloads) + frame(payload),
    decreases payloads.len(),
{
    if payloads.len() == 0 {
        assert(payloads.push(payload).drop_first() =~= Seq::<Seq<u8>>::empty());
        assert(frames(payloads.push(payload)) =~= frame(payload) + frames(Seq::empty()));
        assert(frames(payloads) + frame(payload) =~= frame(payload));
    } else {
        lemma_frames_push(payloads.drop_first(), payload);
        assert(payloads.push(payload).drop_first() =~= payloads.drop_first().push(payload));
        assert(payloads.push(payload).first() == payloads.first());
        assert(frames(payloads.push(payload)) =~= frames(payloads) + frame(payload));
    }
}

/// Reading a written section gives back its payloads, whatever stands before
/// and after the section.
pub proof fn lemma_parse_frames(before: Seq<u8>, payloads: Seq<Seq<u8>>, after: Seq<u8>)
    requires
        framable(payloads),
    ensures
        parse_frames(
            before + frames(payloads) + after,
            before.len() as int,
            frames(payloads).len() as int,
        ) == Parsed::Frames(payloads),
    decreases payloads.len(),
{
    let bytes = before + frames(payloads) + after;
    let pos = before.len() as int;
    if payloads.len() == 0 {
        assert(payloads =~= Seq::<Seq<u8>>::empty());
    } else {
        let first = payloads.first();
        let rest = payloads.drop_first();
        let n = first.len() as int;
        assert(first == payloads[0]);
        lemma_le_round_trip(first.len() as u64);
        assert(bytes.subrange(pos, pos + 8) =~= le_bytes(first.len() as u64));
        assert(bytes.subrange(pos + 8, pos + 8 + n) =~= first);
        assert(framable(rest)) by {
            assert forall|i: int| 0 <= i < rest.len() implies (#[trigger] rest[i]).len()
                <= u64::MAX by {
                assert(rest[i] == payloads[i + 1]);
            }
        }
        lemma_parse_frames(before + frame(first), rest, after);
        assert(before + frame(first) + frames(rest) + after =~= bytes);
        assert(frames(payloads).len() == 8 + n + frames(rest).len());
        assert(seq![first] + rest =~= payloads);
    }
}

/// Appends the frame of `payload` to `out` and returns the number of bytes
/// that the frame takes.
pub fn write_frame(out: &mut Vec<u8>, payload: &[u8]) -> (written: u64)
    ensures
        final(out)@ == old(out)@ + frame(payload@),
        written == 8 + payload@.len(),
        final(out)@.len() == old(out)@.len() + written,
{
    let mut len_buf = write_u64(payload.len() as u64);
    out.append(&mut len_buf);
    out.extend_from_slice(payload);
    assert(out@ =~= old(out)@ + frame(payload@));
    assert(8 + payload@.len() <= out.len());
    8 + payload.len() as u64
}

/// Reads from `reader` the section of `section_len` bytes that starts at
/// its position: the payloads of the frames, or the index of the first
/// frame that cannot be read and why. After a section that was read the
/// reader stands at the section's end.
pub fn read_frames(reader: &mut ByteReader, section_len: u64) -> (r: Result<
    Vec<Vec<u8>>,
    (u64, DecodeFailure),
>)
    ensures
        final(reader).bytes() == old(reader).bytes(),
        match parse_frames(
            old(reader).bytes(),
            old(reader).position() as int,
            section_len as int,
        ) {
            Parsed::Frames(payloads) => {
                &&& r matches Ok(read)
                &&& views(read@) == payloads
                &&& final(reader).position() == old(reader).position() + section_len
            },
            Parsed::Failure(index, why) => r == Err::<Vec<Vec<u8>>, (u64, DecodeFailure)>(
                (index as u64, why),
            ) && index <= u64::MAX,
        },
{
    let ghost bytes = reader.bytes();
    let ghost start = reader.position() as int;
    let mut read: Vec<Vec<u8>> = Vec::new();
    let mut remaining: u64 = section_len;
    while remaining > 0
        invariant
            bytes == old(reader).bytes(),
            start == old(reader).position(),
            reader.bytes() == bytes,
            remaining <= section_len,
            reader.position() == start + (section_len - remaining),
            8 * read.len() <= section_len - remaining,
            parse_frames(bytes, start, section_len as int) == parse_frames(
                bytes,
                reader.position() as int,
                remaining as int,
            ).after(views(read@)),
        decreases remaining,
    {
        let index: u64 = read.len() as u64;
        let ghost pos = reader.position() as int;
        let ghost done = views(read@);
        if remaining < 8 {
            return Err((index, DecodeFailure::FrameOverrunsSection));
        }
        let len_buf = match reader.read_exact(8) {
            Ok(buf) => buf,
            Err(_) => {
                return Err((index, DecodeFailure::TruncatedLength));
            },
        };
        assert(len_buf@.subrange(0, 8) =~= len_buf@);
        let n: u64 = read_u64(len_buf.as_slice());
        if n > remaining - 8 {
            return Err((index, DecodeFailure::FrameOverrunsSection));
        }
        if n > reader.len() as u64 {
            return Err((index, DecodeFailure::TruncatedPayload));
        }
        let payload = match reader.read_exact(n as usize) {
            Ok(buf) => buf,
            Err(_) => {
                return Err((index, DecodeFailure::TruncatedPayload));
            },
        };
        remaining = remaining - 8 - n;
        read.push(payload);
        proof {
            let rest = parse_frames(bytes, pos + 8 + n, remaining as int);
            assert(views(read@) =~= done + seq![payload@]);
            match rest {
                Parsed::Frames(more) => {
                    assert(done + (seq![payload@] + more) =~= views(read@) + more);
                },
                Parsed::Failure(i, why) => {},
            }
        }
    }
    assert(views(read@) + Seq::<Seq<u8>>::empty() =~= views(read@));
    Ok(read)
}

} // verus!
