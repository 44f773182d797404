//! Cutting a text at a separator character, and putting the pieces back
//! together.

use crate::text::chars_of;
use vstd::prelude::*;
use vstd::string::StringExecFns;

verus! {

/// The number of characters of `s` that stand before its first `c`: the
/// length of `s` where `c` does not occur in it.
pub open spec fn offset_of(s: Seq<char>, c: char) -> nat
    decreases s.len(),
{
    if s.len() > 0 && s.first() != c {
        1 + offset_of(s.drop_first(), c)
    } else {
        0
    }
}

/// The pieces of `s` between the occurrences of `sep`. A text with `n`
/// separators has `n + 1` pieces, some of which may be empty.
pub open spec fn split(s: Seq<char>, sep: char) -> Seq<Seq<char>>
    decreases s.len(),
{
    let at = offset_of(s, sep) as int;
    if at < s.len() {
        seq![s.take(at)] + split(s.skip(at + 1), sep)
    } else {
        seq![s]
    }
}

/// The pieces in order, with one `sep` between each two neighbours.
pub open spec fn joined(parts: Seq<Seq<char>>, sep: char) -> Seq<char>
    decreases parts.len(),
{
    if parts.len() == 0 {
        Seq::empty()
    } else if parts.len() == 1 {
        parts[0]
    } else {
        joined(parts.drop_last(), sep).push(sep) + parts.last()
    }
}

/// `offset_of` stops at the first `c` and passes over nothing else.
pub proof fn lemma_offset_of(s: Seq<char>, c: char)
    ensures
        offset_of(s, c) <= s.len(),
        forall|i: int| 0 <= i < offset_of(s, c) ==> #[trigger] s[i] != c,
        offset_of(s, c) < s.len() ==> s[offset_of(s, c) as int] == c,
    decreases s.len(),
{
    if s.len() > 0 && s.first() != c {
        let rest = s.drop_first();
        lemma_offset_of(rest, c);
        assert forall|i: int| 0 <= i < offset_of(s, c) implies #[trigger] s[i] != c by {
            if i > 0 {
                assert(s[i] == rest[i - 1]);
            }
        }
        if offset_of(s, c) < s.len() {
            assert(s[offset_of(s, c) as int] == rest[offset_of(rest, c) as int]);
        }
    }
}

/// A position with no `c` before it that holds `c`, or is the end of `s`, is
/// `offset_of(s, c)`.
pub proof fn lemma_offset_of_is(s: Seq<char>, c: char, at: int)
    requires
        0 <= at <= s.len(),
        forall|i: int| 0 <= i < at ==> #[trigger] s[i] != c,
        at < s.len() ==> s[at] == c,
    ensures
        offset_of(s, c) == at,
{
    lemma_offset_of(s, c);
    let found = offset_of(s, c) as int;
    if found < at {
        assert(s[found] != c);
    }
    if at < found {
        assert(s[at] != c);
    }
}

/// Joining with a piece put in front: the piece, a separator, and the rest
/// joined.
proof fn lemma_joined_front(head: Seq<char>, rest: Seq<Seq<char>>, sep: char)
    requires
        rest.len() >= 1,
    ensures
        joined(seq![head] + rest, sep) == head.push(sep) + joined(rest, sep),
    decreases rest.len(),
{
    let all = seq![head] + rest;
    assert(all.last() == rest.last());
    assert(all.drop_last() =~= seq![head] + rest.drop_last());
    if rest.len() == 1 {
        assert(all.drop_last() =~= seq![head]);
        assert(joined(all.drop_last(), sep) == head);
        assert(joined(rest, sep) == rest.last());
    } else {
        lemma_joined_front(head, rest.drop_last(), sep);
        assert(joined(all, sep) =~= head.push(sep) + joined(rest, sep));
    }
}

/// Splitting always gives at least one piece, and no piece holds the
/// separator.
pub proof fn lemma_split_pieces(s: Seq<char>, sep: char)
    ensures
        split(s, sep).len() >= 1,
        forall|k: int, i: int|
            0 <= k < split(s, sep).len() && 0 <= i < split(s, sep)[k].len() ==> #[trigger] split(
                s,
                sep,
            )[k][i] != sep,
    decreases s.len(),
{
    lemma_offset_of(s, sep);
    let at = offset_of(s, sep) as int;
    if at < s.len() {
        let rest = s.skip(at + 1);
        lemma_split_pieces(rest, sep);
        assert forall|k: int, i: int|
            0 <= k < split(s, sep).len() && 0 <= i < split(s, sep)[k].len() implies #[trigger] split(
            s,
            sep,
        )[k][i] != sep by {
            if k == 0 {
                assert(split(s, sep)[0] == s.take(at));
                assert(s.take(at)[i] == s[i]);
            } else {
                assert(split(s, sep)[k] == split(rest, sep)[k - 1]);
            }
        }
    }
}

/// Joining the pieces of a text with the separator it was split at gives
/// the text back.
pub proof fn lemma_split_then_join(s: Seq<char>, sep: char)
    ensures
        joined(split(s, sep), sep) == s,
    decreases s.len(),
{
    lemma_offset_of(s, sep);
    let at = offset_of(s, sep) as int;
    if at < s.len() {
        let rest = s.skip(at + 1);
        lemma_split_then_join(rest, sep);
        lemma_split_pieces(rest, sep);
        lemma_joined_front(s.take(at), split(rest, sep), sep);
        assert(s.take(at).push(sep) + rest =~= s);
    }
}

/// Splitting what was joined gives the pieces back, where there is at least
/// one piece and none of them holds the separator.
pub proof fn lemma_join_then_split(parts: Seq<Seq<char>>, sep: char)
    requires
        parts.len() >= 1,
        forall|k: int, i: int|
            0 <= k < parts.len() && 0 <= i < parts[k].len() ==> #[trigger] parts[k][i] != sep,
    ensures
        split(joined(parts, sep), sep) == parts,
    decreases parts.len(),
{
    let head = parts.first();
    if parts.len() == 1 {
        lemma_offset_of_is(head, sep, head.len() as int);
        assert(parts =~= seq![head]);
    } else {
        let rest = parts.drop_first();
        assert(parts =~= seq![head] + rest);
        lemma_joined_front(head, rest, sep);
        let text = joined(parts, sep);
        assert forall|i: int| 0 <= i < head.len() implies #[trigger] text[i] != sep by {
            assert(text[i] == head[i]);
        }
        lemma_offset_of_is(text, sep, head.len() as int);
        assert(text.take(head.len() as int) =~= head);
        assert(text.skip(head.len() as int + 1) =~= joined(rest, sep));
        assert forall|k: int, i: int|
            0 <= k < rest.len() && 0 <= i < rest[k].len() implies #[trigger] rest[k][i] != sep by {
            assert(rest[k] == parts[k + 1]);
        }
        lemma_join_then_split(rest, sep);
    }
}

/// Finds the first `c` in `chars[from..to]`; returns `to` where there is
/// none.
pub(crate) fn find(chars: &Vec<char>, from: usize, to: usize, c: char) -> (at: usize)
    requires
        from <= to <= chars@.len(),
    ensures
        from <= at <= to,
        at - from == offset_of(chars@.subrange(from as int, to as int), c),
{
    let ghost s = chars@.subrange(from as int, to as int);
    let mut at: usize = from;
    while at < to && chars[at] != c
        invariant
            from <= at <= to <= chars@.len(),
            forall|i: int| from <= i < at ==> #[trigger] chars@[i] != c,
        decreases to - at,
    {
        at += 1;
    }
    proof {
        assert forall|i: int| 0 <= i < at - from implies #[trigger] s[i] != c by {
            assert(s[i] == chars@[i + from]);
        }
        if at < to {
            assert(s[at - from] == chars@[at as int]);
        }
        lemma_offset_of_is(s, c, at - from);
    }
    at
}

/// Joins `parts` into one string, with `sep` between each two neighbours.
pub fn join(parts: &Vec<String>, sep: char) -> (text: String)
    ensures
        text@ == joined(parts.deep_view(), sep),
{
    let ghost all = parts.deep_view();
    let mut text = String::new();
    let mut k: usize = 0;
    while k < parts.len()
        invariant
            k <= parts.len(),
            all == parts.deep_view(),
            text@ == joined(all.take(k as int), sep),
        decreases parts.len() - k,
    {
        if k > 0 {
            text.push(sep);
        }
        text.append(parts[k].as_str());
        proof {
            let before = all.take(k as int);
            let now = all.take(k + 1);
            assert(now.drop_last() =~= before);
            assert(now.last() == parts[k as int]@);
            if k == 0 {
                assert(text@ =~= now[0]);
            }
        }
        k += 1;
    }
    assert(all.take(parts.len() as int) =~= all);
    text
}

} // verus!
