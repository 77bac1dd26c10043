//! Cutting a text at a separator.

use vstd::prelude::*;
use vstd::string::StrSliceExecFns;

verus! {

/// What the strings hold.
pub open spec fn texts(strings: Seq<String>) -> Seq<Seq<char>> {
    strings.map_values(|s: String| s@)
}

/// The pieces of `text` between the occurrences of `separator`, in order:
/// one piece more than there are separators, so a text without separator is
/// its own single piece, and the empty text has one empty piece.
pub open spec fn split_text(text: Seq<char>, separator: char) -> Seq<Seq<char>>
    decreases text.len(),
{
    if text.len() == 0 {
        seq![Seq::empty()]
    } else {
        let before = split_text(text.drop_last(), separator);
        if text.last() == separator {
            before.push(Seq::empty())
        } else {
            before.drop_last().push(before.last().push(text.last()))
        }
    }
}

/// A text has at least one piece.
pub proof fn lemma_split_nonempty(text: Seq<char>, separator: char)
    ensures
        split_text(text, separator).len() >= 1,
    decreases text.len(),
{
    if text.len() > 0 {
        lemma_split_nonempty(text.drop_last(), separator);
    }
}

/// The pieces of `value` between the occurrences of `separator`.
pub fn split(value: &str, separator: char) -> (parts: Vec<String>)
    ensures
        texts(parts@) == split_text(value@, separator),
{
    let n = value.unicode_len();
    let mut parts: Vec<String> = Vec::new();
    let mut start: usize = 0;
    let mut i: usize = 0;
    assert(value@.take(0) =~= Seq::<char>::empty());
    assert(texts(parts@).push(value@.subrange(0, 0)) =~= seq![Seq::<char>::empty()]);
    while i < n
        invariant
            n == value@.len(),
            start <= i <= n,
            texts(parts@).push(value@.subrange(start as int, i as int)) == split_text(
                value@.take(i as int),
                separator,
            ),
        decreases n - i,
    {
        let ghost done = texts(parts@);
        let ghost piece = value@.subrange(start as int, i as int);
        let c = value.get_char(i);
        proof {
            assert(value@.take(i + 1).drop_last() =~= value@.take(i as int));
            assert(value@.take(i + 1).last() == c);
            assert(done.push(piece).drop_last() =~= done);
            assert(done.push(piece).last() == piece);
        }
        if c == separator {
            parts.push(value.substring_char(start, i).to_owned());
            start = i + 1;
            assert(texts(parts@) =~= done.push(piece));
            assert(value@.subrange(start as int, i + 1) =~= Seq::<char>::empty());
        } else {
            assert(value@.subrange(start as int, i + 1) =~= piece.push(c));
        }
        i += 1;
    }
    let ghost done = texts(parts@);
    parts.push(value.substring_char(start, n).to_owned());
    assert(value@.take(n as int) =~= value@);
    assert(texts(parts@) =~= done.push(value@.subrange(start as int, n as int)));
    parts
}

} // verus!
