//! Rumors and the store that holds the current rumors of one kind.

use crate::endian::{le_bytes, le_u64, lemma_le_round_trip, read_u64, write_u64};
use crate::error::DecodeFailure;
use crate::frame::{frame, write_frame};
use crate::text::{string_bytes, string_from_utf8};
use vstd::prelude::*;
use vstd::slice::{slice_subrange, slice_to_vec};
use vstd::utf8::{decode_utf8, encode_utf8, valid_utf8};

verus! {

/// A fact that a member has spread: who it comes from, the key under which
/// the store holds it, when it expires, if ever, and what it says. What it
/// says is the business of the gossip layer and opaque here.
#[derive(Debug)]
pub struct Rumor {
    /// The id of the member that the rumor comes from.
    pub member_id: String,
    /// The key of the rumor among the rumors of that member.
    pub key: String,
    /// The time, in milliseconds, from which on the rumor is expired.
    /// A rumor without it never expires.
    pub expiration: Option<u64>,
    /// What the rumor says.
    pub body: Vec<u8>,
}

/// What a `Rumor` holds.
pub struct RumorView {
    pub member_id: Seq<char>,
    pub key: Seq<char>,
    pub expiration: Option<u64>,
    pub body: Seq<u8>,
}

impl View for Rumor {
    type V = RumorView;

    open spec fn view(&self) -> RumorView {
        RumorView {
            member_id: self.member_id@,
            key: self.key@,
            expiration: self.expiration,
            body: self.body@,
        }
    }
}

impl RumorView {
    /// Whether the rumor is expired at time `now`: it carries an expiration
    /// time, and that time is `now` or earlier.
    pub open spec fn expired(self, now: u64) -> bool {
        self.expiration matches Some(at) && at <= now
    }

    /// Whether the lengths of the rumor's two texts can be written in eight
    /// bytes each.
    pub open spec fn encodable(self) -> bool {
        encode_utf8(self.member_id).len() <= u64::MAX && encode_utf8(self.key).len() <= u64::MAX
    }
}

/// The text that stands in `payload` at `at` as a frame of UTF-8 bytes,
/// together with the position behind it.
pub open spec fn take_text(payload: Seq<u8>, at: int) -> Option<(Seq<char>, int)> {
    if at + 8 > payload.len() {
        None
    } else {
        let n = le_u64(payload.subrange(at, at + 8)) as int;
        if at + 8 + n > payload.len() {
            None
        } else if !valid_utf8(payload.subrange(at + 8, at + 8 + n)) {
            None
        } else {
            Some((decode_utf8(payload.subrange(at + 8, at + 8 + n)), at + 8 + n))
        }
    }
}

/// The payload of a rumor: one byte that says whether it expires, eight
/// for the expiration time (0 where there is none), the member's id and
/// the key as frames of UTF-8 bytes, then the body.
pub open spec fn encode_rumor(r: RumorView) -> Seq<u8> {
    seq![
        if r.expiration is Some {
            1u8
        } else {
            0u8
        },
    ] + le_bytes(
        match r.expiration {
            Some(at) => at,
            None => 0,
        },
    ) + frame(encode_utf8(r.member_id)) + frame(encode_utf8(r.key)) + r.body
}

/// The rumor that a payload encodes, if any.
pub open spec fn decode_rumor(payload: Seq<u8>) -> Option<RumorView> {
    if payload.len() < 9 {
        None
    } else if payload[0] > 1 {
        None
    } else {
        match take_text(payload, 9) {
            None => None,
            Some((member_id, behind_id)) => match take_text(payload, behind_id) {
                None => None,
                Some((key, behind_key)) => Some(
                    RumorView {
                        member_id,
                        key,
                        expiration: if payload[0] == 1 {
                            Some(le_u64(payload.subrange(1, 9)))
                        } else {
                            None
                        },
                        body: payload.subrange(behind_key, payload.len() as int),
                    },
                ),
            },
        }
    }
}

/// A text that was written as a frame is taken back from where it stands.
pub proof fn lemma_take_text(before: Seq<u8>, text: Seq<char>, after: Seq<u8>)
    requires
        encode_utf8(text).len() <= u64::MAX,
    ensures
        take_text(before + frame(encode_utf8(text)) + after, before.len() as int) == Some(
            (text, (before.len() + 8 + encode_utf8(text).len()) as int),
        ),
{
    broadcast use vstd::utf8::encode_utf8_valid_utf8, vstd::utf8::encode_utf8_decode_utf8;

    let bytes = encode_utf8(text);
    let payload = before + frame(bytes) + after;
    let at = before.len() as int;
    lemma_le_round_trip(bytes.len() as u64);
    assert(payload.subrange(at, at + 8) =~= le_bytes(bytes.len() as u64));
    assert(payload.subrange(at + 8, at + 8 + bytes.len()) =~= bytes);
}

/// Decoding an encoded rumor gives the rumor.
pub proof fn lemma_rumor_round_trip(r: RumorView)
    requires
        r.encodable(),
    ensures
        decode_rumor(encode_rumor(r)) == Some(r),
{
    let at = match r.expiration {
        Some(at) => at,
        None => 0,
    };
    let flag = seq![
        if r.expiration is Some {
            1u8
        } else {
            0u8
        },
    ];
    let head = flag + le_bytes(at);
    let id = frame(encode_utf8(r.member_id));
    let key = frame(encode_utf8(r.key));
    let payload = encode_rumor(r);
    lemma_le_round_trip(at);
    lemma_le_round_trip(encode_utf8(r.member_id).len() as u64);
    lemma_le_round_trip(encode_utf8(r.key).len() as u64);
    assert(head.len() == 9);
    assert(payload.len() == 9 + id.len() + key.len() + r.body.len());
    assert(payload[0] == flag[0]);
    assert(payload.subrange(1, 9) =~= le_bytes(at));
    lemma_take_text(head, r.member_id, key + r.body);
    assert(head + id + (key + r.body) =~= payload);
    let behind_id = 9 + id.len() as int;
    assert(take_text(payload, 9) == Some((r.member_id, behind_id)));
    lemma_take_text(head + id, r.key, r.body);
    let behind_key = behind_id + key.len() as int;
    assert((head + id).len() == behind_id);
    assert(take_text(payload, behind_id) == Some((r.key, behind_key)));
    assert(payload.subrange(behind_key, payload.len() as int) =~= r.body);
}

/// Takes the text that stands in `payload` at `at` as a frame of UTF-8
/// bytes, and the position behind it.
fn take_text_at(payload: &[u8], at: usize) -> (r: Option<(String, usize)>)
    requires
        at <= payload@.len(),
    ensures
        match r {
            Some((text, behind)) => take_text(payload@, at as int) == Some((text@, behind as int))
                && behind <= payload@.len(),
            None => take_text(payload@, at as int) is None,
        },
{
    if payload.len() - at < 8 {
        return None;
    }
    let number = slice_subrange(payload, at, at + 8);
    assert(number@.subrange(0, 8) =~= number@);
    let n: u64 = read_u64(number);
    if n > (payload.len() - at - 8) as u64 {
        return None;
    }
    let behind: usize = at + 8 + n as usize;
    match string_from_utf8(slice_to_vec(slice_subrange(payload, at + 8, behind))) {
        Some(text) => Some((text, behind)),
        None => None,
    }
}

impl Rumor {
    /// The payload of this rumor.
    pub fn write_to_bytes(&self) -> (payload: Vec<u8>)
        ensures
            payload@ == encode_rumor(self@),
            self@.encodable(),
    {
        let mut payload: Vec<u8> = Vec::new();
        let mut at: Vec<u8>;
        match self.expiration {
            Some(time) => {
                payload.push(1);
                at = write_u64(time);
            },
            None => {
                payload.push(0);
                at = write_u64(0);
            },
        }
        payload.append(&mut at);
        let id = string_bytes(&self.member_id);
        write_frame(&mut payload, id.as_slice());
        let key = string_bytes(&self.key);
        write_frame(&mut payload, key.as_slice());
        let mut body = slice_to_vec(self.body.as_slice());
        payload.append(&mut body);
        assert(payload@ =~= encode_rumor(self@));
        payload
    }

    /// The rumor that `payload` encodes. A payload that encodes none is
    /// malformed.
    pub fn from_bytes(payload: &[u8]) -> (r: Result<Rumor, DecodeFailure>)
        ensures
            match r {
                Ok(rumor) => decode_rumor(payload@) == Some(rumor@),
                Err(why) => why == DecodeFailure::MalformedPayload && decode_rumor(payload@)
                    is None,
            },
    {
        if payload.len() < 9 {
            return Err(DecodeFailure::MalformedPayload);
        }
        let flag: u8 = payload[0];
        if flag > 1 {
            return Err(DecodeFailure::MalformedPayload);
        }
        let number = slice_subrange(payload, 1, 9);
        assert(number@.subrange(0, 8) =~= number@);
        let at: u64 = read_u64(number);
        let (member_id, behind_id) = match take_text_at(payload, 9) {
            Some(taken) => taken,
            None => {
                return Err(DecodeFailure::MalformedPayload);
            },
        };
        let (key, behind_key) = match take_text_at(payload, behind_id) {
            Some(taken) => taken,
            None => {
                return Err(DecodeFailure::MalformedPayload);
            },
        };
        let body = slice_to_vec(slice_subrange(payload, behind_key, payload.len()));
        let expiration = if flag == 1 {
            Some(at)
        } else {
            None
        };
        Ok(Rumor { member_id, key, expiration, body })
    }
}

/// What the rumors hold.
pub open spec fn rumor_views(rumors: Seq<Rumor>) -> Seq<RumorView> {
    rumors.map_values(|r: Rumor| r@)
}

/// Whether no two rumors share both the member they come from and the key.
pub open spec fn distinct_keys(rumors: Seq<RumorView>) -> bool {
    forall|i: int, j: int|
        0 <= i < j < rumors.len() ==> !((#[trigger] rumors[i]).member_id == (
        #[trigger] rumors[j]).member_id && rumors[i].key == rumors[j].key)
}

/// Whether a rumor of the member `member_id` under `key` is among `rumors`.
pub open spec fn has_rumor(rumors: Seq<RumorView>, member_id: Seq<char>, key: Seq<char>) -> bool {
    exists|i: int|
        0 <= i < rumors.len() && (#[trigger] rumors[i]).member_id == member_id && rumors[i].key
            == key
}

/// The index of a rumor of the member `member_id` under `key`, where there
/// is one.
pub open spec fn index_of_rumor(rumors: Seq<RumorView>, member_id: Seq<char>, key: Seq<char>)
    -> int {
    choose|i: int|
        0 <= i < rumors.len() && (#[trigger] rumors[i]).member_id == member_id && rumors[i].key
            == key
}

/// The rumors after `rumor` was put in: in the place of the rumor of the
/// same member under the same key, or at the end where there was none.
pub open spec fn put(rumors: Seq<RumorView>, rumor: RumorView) -> Seq<RumorView> {
    if has_rumor(rumors, rumor.member_id, rumor.key) {
        rumors.update(index_of_rumor(rumors, rumor.member_id, rumor.key), rumor)
    } else {
        rumors.push(rumor)
    }
}

/// Whether the texts of each rumor can be framed.
pub open spec fn all_encodable(rumors: Seq<RumorView>) -> bool {
    forall|i: int| 0 <= i < rumors.len() ==> (#[trigger] rumors[i]).encodable()
}

/// The rumors after each of `more` was put in, in order.
pub open spec fn put_all(rumors: Seq<RumorView>, more: Seq<RumorView>) -> Seq<RumorView>
    decreases more.len(),
{
    if more.len() == 0 {
        rumors
    } else {
        put(put_all(rumors, more.drop_last()), more.last())
    }
}

/// The rumors by the member they come from and their key.
pub open spec fn rumors_by_key(rumors: Seq<RumorView>) -> Map<(Seq<char>, Seq<char>), RumorView> {
    Map::new(
        |k: (Seq<char>, Seq<char>)| has_rumor(rumors, k.0, k.1),
        |k: (Seq<char>, Seq<char>)| rumors[index_of_rumor(rumors, k.0, k.1)],
    )
}

/// The rumors that are not expired at time `now`, in their order.
pub open spec fn unexpired(rumors: Seq<RumorView>, now: u64) -> Seq<RumorView>
    decreases rumors.len(),
{
    if rumors.len() == 0 {
        Seq::empty()
    } else if rumors.last().expired(now) {
        unexpired(rumors.drop_last(), now)
    } else {
        unexpired(rumors.drop_last(), now).push(rumors.last())
    }
}

/// Putting a rumor in keeps the keys distinct.
pub proof fn lemma_put_distinct(rumors: Seq<RumorView>, rumor: RumorView)
    requires
        distinct_keys(rumors),
    ensures
        distinct_keys(put(rumors, rumor)),
{
    let after = put(rumors, rumor);
    if has_rumor(rumors, rumor.member_id, rumor.key) {
        let at = index_of_rumor(rumors, rumor.member_id, rumor.key);
        assert forall|i: int, j: int| 0 <= i < j < after.len() implies !((
        #[trigger] after[i]).member_id == (#[trigger] after[j]).member_id && after[i].key
            == after[j].key) by {
            assert(!(rumors[i].member_id == rumors[j].member_id && rumors[i].key == rumors[j].key));
            assert(after[i].member_id == rumors[i].member_id && after[i].key == rumors[i].key);
            assert(after[j].member_id == rumors[j].member_id && after[j].key == rumors[j].key);
        }
    } else {
        assert forall|i: int, j: int| 0 <= i < j < after.len() implies !((
        #[trigger] after[i]).member_id == (#[trigger] after[j]).member_id && after[i].key
            == after[j].key) by {
            if j < rumors.len() {
                assert(!(rumors[i].member_id == rumors[j].member_id && rumors[i].key
                    == rumors[j].key));
            } else {
                assert(!(rumors[i].member_id == rumor.member_id && rumors[i].key == rumor.key));
            }
        }
    }
}

/// Every rumor that a purge leaves was there before and is not expired.
pub proof fn lemma_unexpired_from(rumors: Seq<RumorView>, now: u64, k: int)
    requires
        0 <= k < unexpired(rumors, now).len(),
    ensures
        !unexpired(rumors, now)[k].expired(now),
        exists|i: int| 0 <= i < rumors.len() && #[trigger] rumors[i] == unexpired(rumors, now)[k],
    decreases rumors.len(),
{
    if rumors.len() > 0 {
        let earlier = unexpired(rumors.drop_last(), now);
        if k < earlier.len() {
            lemma_unexpired_from(rumors.drop_last(), now, k);
            let i = choose|i: int|
                0 <= i < rumors.drop_last().len() && #[trigger] rumors.drop_last()[i] == earlier[k];
            assert(rumors[i] == unexpired(rumors, now)[k]);
        } else {
            assert(rumors[rumors.len() - 1] == unexpired(rumors, now)[k]);
        }
    }
}

/// A purge keeps the keys distinct.
pub proof fn lemma_unexpired_distinct(rumors: Seq<RumorView>, now: u64)
    requires
        distinct_keys(rumors),
    ensures
        distinct_keys(unexpired(rumors, now)),
    decreases rumors.len(),
{
    if rumors.len() > 0 {
        let front = rumors.drop_last();
        let earlier = unexpired(front, now);
        assert(distinct_keys(front)) by {
            assert forall|i: int, j: int| 0 <= i < j < front.len() implies !((
            #[trigger] front[i]).member_id == (#[trigger] front[j]).member_id && front[i].key
                == front[j].key) by {
                assert(front[i] == rumors[i] && front[j] == rumors[j]);
            }
        }
        lemma_unexpired_distinct(front, now);
        if !rumors.last().expired(now) {
            let after = unexpired(rumors, now);
            assert forall|i: int, j: int| 0 <= i < j < after.len() implies !((
            #[trigger] after[i]).member_id == (#[trigger] after[j]).member_id && after[i].key
                == after[j].key) by {
                if j < earlier.len() {
                    assert(after[i] == earlier[i] && after[j] == earlier[j]);
                } else {
                    lemma_unexpired_from(front, now, i);
                    let at = choose|at: int|
                        0 <= at < front.len() && #[trigger] front[at] == earlier[i];
                    assert(rumors[at] == after[i]);
                    assert(rumors[rumors.len() - 1] == after[j]);
                    assert(!(rumors[at].member_id == rumors[rumors.len() - 1].member_id
                        && rumors[at].key == rumors[rumors.len() - 1].key));
                }
            }
        }
    }
}

/// A second purge at the same time changes nothing.
pub proof fn lemma_purge_idempotent(rumors: Seq<RumorView>, now: u64)
    ensures
        unexpired(unexpired(rumors, now), now) == unexpired(rumors, now),
    decreases rumors.len(),
{
    if rumors.len() > 0 {
        lemma_purge_idempotent(rumors.drop_last(), now);
        if !rumors.last().expired(now) {
            let earlier = unexpired(rumors.drop_last(), now);
            assert(earlier.push(rumors.last()).drop_last() =~= earlier);
        }
    }
}

/// A purge at a time at which no rumor is expired changes nothing.
pub proof fn lemma_purge_before_any_expiration(rumors: Seq<RumorView>, now: u64)
    requires
        forall|i: int| 0 <= i < rumors.len() ==> !(#[trigger] rumors[i]).expired(now),
    ensures
        unexpired(rumors, now) == rumors,
    decreases rumors.len(),
{
    if rumors.len() > 0 {
        let front = rumors.drop_last();
        assert forall|i: int| 0 <= i < front.len() implies !(#[trigger] front[i]).expired(now) by {
            assert(front[i] == rumors[i]);
        }
        lemma_purge_before_any_expiration(front, now);
        assert(!rumors[rumors.len() - 1].expired(now));
        assert(front.push(rumors.last()) =~= rumors);
    }
}

/// The current rumors of one kind, at most one for each member and key.
pub struct RumorStore {
    list: Vec<Rumor>,
}

impl View for RumorStore {
    type V = Seq<RumorView>;

    closed spec fn view(&self) -> Seq<RumorView> {
        rumor_views(self.list@)
    }
}

impl RumorStore {
    #[verifier::type_invariant]
    spec fn one_rumor_for_each_key(self) -> bool {
        distinct_keys(rumor_views(self.list@))
    }

    /// A store without rumors.
    pub fn new() -> (store: Self)
        ensures
            store@ == Seq::<RumorView>::empty(),
    {
        let store = RumorStore { list: Vec::new() };
        assert(store@ =~= Seq::<RumorView>::empty());
        store
    }

    /// The number of rumors.
    pub fn len(&self) -> (n: usize)
        ensures
            n == self@.len(),
    {
        self.list.len()
    }

    /// The rumors, in the store's order.
    pub fn list(&self) -> (rumors: &Vec<Rumor>)
        ensures
            rumor_views(rumors@) == self@,
            distinct_keys(self@),
    {
        proof {
            use_type_invariant(self);
        }
        &self.list
    }

    /// The index of the rumor of `member_id` under `key`, if the store
    /// holds one.
    fn find(&self, member_id: &String, key: &String) -> (at: Option<usize>)
        ensures
            distinct_keys(self@),
            match at {
                Some(i) => {
                    &&& i < self@.len()
                    &&& self@[i as int].member_id == member_id@
                    &&& self@[i as int].key == key@
                    &&& has_rumor(self@, member_id@, key@)
                    &&& index_of_rumor(self@, member_id@, key@) == i
                },
                None => !has_rumor(self@, member_id@, key@),
            },
    {
        proof {
            use_type_invariant(self);
        }
        let mut i: usize = 0;
        while i < self.list.len()
            invariant
                i <= self.list.len(),
                self@ == rumor_views(self.list@),
                distinct_keys(self@),
                forall|k: int|
                    0 <= k < i ==> !((#[trigger] self@[k]).member_id == member_id@ && self@[k].key
                        == key@),
            decreases self.list.len() - i,
        {
            if self.list[i].member_id == *member_id && self.list[i].key == *key {
                assert(self@[i as int].member_id == member_id@ && self@[i as int].key == key@);
                assert(has_rumor(self@, member_id@, key@));
                assert(index_of_rumor(self@, member_id@, key@) == i) by {
                    let c = index_of_rumor(self@, member_id@, key@);
                    assert(self@[c].member_id == member_id@ && self@[c].key == key@);
                    if c < i {
                        assert(!(self@[c].member_id == self@[i as int].member_id && self@[c].key
                            == self@[i as int].key));
                    }
                    if c > i {
                        assert(!(self@[i as int].member_id == self@[c].member_id && self@[i as int].key
                            == self@[c].key));
                    }
                }
                return Some(i);
            }
            i += 1;
        }
        None
    }

    /// Whether the store holds a rumor of `member_id` under `key`.
    pub fn contains(&self, member_id: &str, key: &str) -> (found: bool)
        ensures
            found == has_rumor(self@, member_id@, key@),
    {
        let member_id = member_id.to_owned();
        let key = key.to_owned();
        self.find(&member_id, &key).is_some()
    }

    /// Puts `rumor` in: in the place of the rumor of the same member under
    /// the same key, or as a new rumor.
    pub fn insert(&mut self, rumor: Rumor)
        ensures
            final(self)@ == put(old(self)@, rumor@),
            distinct_keys(final(self)@),
    {
        let at = self.find(&rumor.member_id, &rumor.key);
        proof {
            lemma_put_distinct(self@, rumor@);
        }
        let mut list: Vec<Rumor> = Vec::new();
        std::mem::swap(&mut self.list, &mut list);
        match at {
            Some(i) => {
                list.set(i, rumor);
            },
            None => {
                list.push(rumor);
            },
        }
        assert(rumor_views(list@) =~= put(old(self)@, rumor@));
        self.list = list;
    }

    /// Drops every rumor that is expired at time `now`: one that carries an
    /// expiration time that is `now` or earlier. The others stay, in their
    /// order.
    pub fn purge_expired(&mut self, now: u64)
        ensures
            final(self)@ == unexpired(old(self)@, now),
            distinct_keys(final(self)@),
    {
        proof {
            use_type_invariant(&*self);
            lemma_unexpired_distinct(self@, now);
        }
        let mut all: Vec<Rumor> = Vec::new();
        std::mem::swap(&mut self.list, &mut all);
        let ghost before = all@;
        let mut kept: Vec<Rumor> = Vec::new();
        for rumor in it: all
            invariant
                it.seq() == before,
                rumor_views(kept@) == unexpired(rumor_views(before.take(it.index() as int)), now),
        {
            let ghost earlier = kept@;
            let ghost found = rumor@;
            assert(rumor == before[it.index() as int]);
            assert(rumor_views(before.take(it.index() + 1)).drop_last() =~= rumor_views(
                before.take(it.index() as int),
            ));
            assert(rumor_views(before.take(it.index() + 1)).last() == found);
            let expired = match rumor.expiration {
                Some(at) => at <= now,
                None => false,
            };
            if !expired {
                kept.push(rumor);
                assert(rumor_views(kept@) =~= rumor_views(earlier).push(found));
            }
        }
        assert(before.take(before.len() as int) =~= before);
        self.list = kept;
    }
}

} // verus!
