//! Which characters count as whitespace, and trimming them off both ends of
//! a piece of text.

use crate::text::{chars_of, string_of};
use vstd::prelude::*;

verus! {

/// The characters with the Unicode property `White_Space`.
pub open spec fn is_whitespace(c: char) -> bool {
    let n = c as u32;
    ||| 0x09 <= n <= 0x0D
    ||| n == 0x20
    ||| n == 0x85
    ||| n == 0xA0
    ||| n == 0x1680
    ||| 0x2000 <= n <= 0x200A
    ||| n == 0x2028
    ||| n == 0x2029
    ||| n == 0x202F
    ||| n == 0x205F
    ||| n == 0x3000
}

/// The number of whitespace characters that `s` starts with.
pub open spec fn leading_whitespace(s: Seq<char>) -> nat
    decreases s.len(),
{
    if s.len() > 0 && is_whitespace(s.first()) {
        1 + leading_whitespace(s.drop_first())
    } else {
        0
    }
}

/// The number of whitespace characters that `s` ends with.
pub open spec fn trailing_whitespace(s: Seq<char>) -> nat
    decreases s.len(),
{
    if s.len() > 0 && is_whitespace(s.last()) {
        1 + trailing_whitespace(s.drop_last())
    } else {
        0
    }
}

/// `s` without the whitespace at its start and at its end. Text that is all
/// whitespace trims to the empty text.
pub open spec fn trimmed(s: Seq<char>) -> Seq<char> {
    let rest = s.skip(leading_whitespace(s) as int);
    rest.take(rest.len() - trailing_whitespace(rest))
}

/// `s[a..b]` is what trimming keeps of `s`: everything outside the window is
/// whitespace, and the window, unless it is empty, starts and ends with a
/// character that is not whitespace.
pub open spec fn is_trim_window(s: Seq<char>, a: int, b: int) -> bool {
    &&& 0 <= a <= b <= s.len()
    &&& forall|i: int| 0 <= i < a ==> is_whitespace(#[trigger] s[i])
    &&& forall|i: int| b <= i < s.len() ==> is_whitespace(#[trigger] s[i])
    &&& a < b ==> !is_whitespace(s[a]) && !is_whitespace(s[b - 1])
}

/// `s` neither starts nor ends with whitespace.
pub open spec fn is_trimmed(s: Seq<char>) -> bool {
    s.len() > 0 ==> !is_whitespace(s.first()) && !is_whitespace(s.last())
}

/// The leading whitespace of `s` is a run of whitespace that stops at the
/// end of `s` or before a character that is not whitespace.
proof fn lemma_leading_whitespace(s: Seq<char>)
    ensures
        leading_whitespace(s) <= s.len(),
        forall|i: int| 0 <= i < leading_whitespace(s) ==> is_whitespace(#[trigger] s[i]),
        leading_whitespace(s) < s.len() ==> !is_whitespace(s[leading_whitespace(s) as int]),
    decreases s.len(),
{
    if s.len() > 0 && is_whitespace(s.first()) {
        let rest = s.drop_first();
        lemma_leading_whitespace(rest);
        assert forall|i: int| 0 <= i < leading_whitespace(s) implies is_whitespace(
            #[trigger] s[i],
        ) by {
            if i > 0 {
                assert(s[i] == rest[i - 1]);
            }
        }
        if leading_whitespace(s) < s.len() {
            assert(s[leading_whitespace(s) as int] == rest[leading_whitespace(rest) as int]);
        }
    }
}

/// The trailing whitespace of `s` is a run of whitespace that stops at the
/// start of `s` or after a character that is not whitespace.
proof fn lemma_trailing_whitespace(s: Seq<char>)
    ensures
        trailing_whitespace(s) <= s.len(),
        forall|i: int|
            s.len() - trailing_whitespace(s) <= i < s.len() ==> is_whitespace(#[trigger] s[i]),
        trailing_whitespace(s) < s.len() ==> !is_whitespace(
            s[s.len() - trailing_whitespace(s) - 1],
        ),
    decreases s.len(),
{
    if s.len() > 0 && is_whitespace(s.last()) {
        let rest = s.drop_last();
        lemma_trailing_whitespace(rest);
        assert forall|i: int|
            s.len() - trailing_whitespace(s) <= i < s.len() implies is_whitespace(
            #[trigger] s[i],
        ) by {
            if i < s.len() - 1 {
                assert(s[i] == rest[i]);
            }
        }
        if trailing_whitespace(s) < s.len() {
            assert(s[s.len() - trailing_whitespace(s) - 1] == rest[rest.len()
                - trailing_whitespace(rest) - 1]);
        }
    }
}

/// There is one trim window, and it holds `trimmed(s)`.
pub proof fn lemma_trim_window_is_trimmed(s: Seq<char>, a: int, b: int)
    requires
        is_trim_window(s, a, b),
    ensures
        s.subrange(a, b) == trimmed(s),
{
    lemma_leading_whitespace(s);
    let lead = leading_whitespace(s) as int;
    let rest = s.skip(lead);
    lemma_trailing_whitespace(rest);
    let trail = trailing_whitespace(rest) as int;
    if a < b {
        if lead < a {
            assert(is_whitespace(s[lead]));
        }
        if a < lead {
            assert(is_whitespace(s[a]));
        }
        assert(rest[b - 1 - a] == s[b - 1]);
        if rest.len() - trail < b - a {
            assert(is_whitespace(rest[b - 1 - a]));
        }
        if rest.len() - trail > b - a {
            assert(rest[rest.len() - trail - 1] == s[a + rest.len() - trail - 1]);
            assert(is_whitespace(s[a + rest.len() - trail - 1]));
        }
        assert(rest.take(rest.len() - trail) =~= s.subrange(a, b));
    } else {
        if lead < s.len() {
            assert(is_whitespace(s[lead]));
        }
        assert(rest.take(rest.len() - trail) =~= s.subrange(a, b));
    }
}

/// Trimming takes away the whitespace that surrounds a text and nothing
/// else: what is left is a window of `s` with only whitespace outside it,
/// it neither starts nor ends with whitespace, and whitespace inside it
/// stays where it was.
pub proof fn lemma_trimmed_is_window(s: Seq<char>)
    ensures
        exists|a: int, b: int| is_trim_window(s, a, b) && trimmed(s) == s.subrange(a, b),
        is_trimmed(trimmed(s)),
{
    lemma_leading_whitespace(s);
    let a = leading_whitespace(s) as int;
    let rest = s.skip(a);
    lemma_trailing_whitespace(rest);
    let b = s.len() - trailing_whitespace(rest);
    assert(trimmed(s) =~= s.subrange(a, b));
    assert forall|i: int| b <= i < s.len() implies is_whitespace(#[trigger] s[i]) by {
        assert(s[i] == rest[i - a]);
    }
    if a < b {
        assert(rest[b - a - 1] == s[b - 1]);
        assert(trimmed(s).first() == s[a]);
        assert(trimmed(s).last() == s[b - 1]);
    }
    assert(is_trim_window(s, a, b));
}

/// Tells whether `c` is whitespace.
pub fn char_is_whitespace(c: char) -> (r: bool)
    ensures
        r == is_whitespace(c),
{
    let n: u32 = c as u32;
    (0x09 <= n && n <= 0x0D) || n == 0x20 || n == 0x85 || n == 0xA0 || n == 0x1680 || (0x2000 <= n
        && n <= 0x200A) || n == 0x2028 || n == 0x2029 || n == 0x202F || n == 0x205F || n == 0x3000
}

/// Finds within `chars[from..to]` the window that trimming keeps.
pub(crate) fn trim_bounds(chars: &Vec<char>, from: usize, to: usize) -> (window: (usize, usize))
    requires
        from <= to <= chars@.len(),
    ensures
        from <= window.0 <= window.1 <= to,
        chars@.subrange(window.0 as int, window.1 as int) == trimmed(
            chars@.subrange(from as int, to as int),
        ),
{
    let ghost s = chars@.subrange(from as int, to as int);
    let mut a: usize = from;
    while a < to && char_is_whitespace(chars[a])
        invariant
            from <= a <= to <= chars@.len(),
            forall|i: int| from <= i < a ==> is_whitespace(#[trigger] chars@[i]),
        decreases to - a,
    {
        a += 1;
    }
    let mut b: usize = to;
    while a < b && char_is_whitespace(chars[b - 1])
        invariant
            from <= a <= b <= to <= chars@.len(),
            forall|i: int| b <= i < to ==> is_whitespace(#[trigger] chars@[i]),
        decreases b - a,
    {
        b -= 1;
    }
    proof {
        assert forall|i: int| 0 <= i < a - from implies is_whitespace(#[trigger] s[i]) by {
            assert(s[i] == chars@[i + from]);
        }
        assert forall|i: int| b - from <= i < s.len() implies is_whitespace(#[trigger] s[i]) by {
            assert(s[i] == chars@[i + from]);
        }
        if a < b {
            assert(s[a - from] == chars@[a as int]);
            assert(s[b - from - 1] == chars@[b - 1]);
        }
        lemma_trim_window_is_trimmed(s, a - from, b - from);
        assert(s.subrange(a - from, b - from) =~= chars@.subrange(a as int, b as int));
    }
    (a, b)
}

/// Returns `s` without the whitespace at its start and at its end.
pub fn trim(s: &str) -> (t: String)
    ensures
        t@ == trimmed(s@),
{
    let chars = chars_of(s);
    let (a, b) = trim_bounds(&chars, 0, chars.len());
    assert(chars@.subrange(0, chars@.len() as int) =~= chars@);
    string_of(&chars, a, b)
}

} // verus!
