//! Character-sequence helpers shared by the command parser: locating the
//! first space, comparing segments against keywords, and trimming whitespace.

use vstd::prelude::*;
use vstd::string::StrSliceExecFns;

verus! {

/// Whether `c` has the Unicode `White_Space` property, as
/// `char::is_whitespace` decides it; it depends on the character alone.
pub uninterp spec fn is_whitespace(c: char) -> bool;

/// Relies on char::is_whitespace: a pure classification of the character.
#[verifier::external_body]
pub(crate) fn char_is_whitespace(c: char) -> (r: bool)
    ensures
        r == is_whitespace(c),
{
    c.is_whitespace()
}

/// Index of the first space in `s`, or `s.len()` when `s` has none.
pub open spec fn first_space(s: Seq<char>) -> nat
    decreases s.len(),
{
    if s.len() == 0 {
        0
    } else if s[0] == ' ' {
        0
    } else {
        (1 + first_space(s.skip(1))) as nat
    }
}

/// The characterization pins the value down: an index with no space before it
/// that either holds a space or is the whole length is `first_space`.
pub proof fn lemma_first_space_at(s: Seq<char>, i: int)
    requires
        0 <= i <= s.len(),
        forall|j: int| 0 <= j < i ==> s[j] != ' ',
        i < s.len() ==> s[i] == ' ',
    ensures
        first_space(s) == i,
    decreases s.len(),
{
    if s.len() == 0 {
    } else if s[0] == ' ' {
        assert(i == 0);
    } else {
        assert(i >= 1);
        assert forall|j: int| 0 <= j < i - 1 implies s.skip(1)[j] != ' ' by {
            assert(s.skip(1)[j] == s[j + 1]);
        }
        assert(i - 1 < s.skip(1).len() ==> s.skip(1)[i - 1] == s[i]);
        lemma_first_space_at(s.skip(1), i - 1);
    }
}

/// Prepending space-free text shifts the first space by that text's length.
pub proof fn lemma_first_space_append(p: Seq<char>, t: Seq<char>)
    requires
        forall|j: int| 0 <= j < p.len() ==> p[j] != ' ',
    ensures
        first_space(p + t) == p.len() + first_space(t),
    decreases p.len(),
{
    if p.len() == 0 {
        assert(p + t =~= t);
    } else {
        assert((p + t)[0] == p[0]);
        assert((p + t).skip(1) =~= p.skip(1) + t);
        lemma_first_space_append(p.skip(1), t);
    }
}

/// `s` without its leading whitespace.
pub open spec fn trim_start(s: Seq<char>) -> Seq<char>
    decreases s.len(),
{
    if s.len() > 0 && is_whitespace(s[0]) {
        trim_start(s.skip(1))
    } else {
        s
    }
}

/// `s` without its trailing whitespace.
pub open spec fn trim_end(s: Seq<char>) -> Seq<char>
    decreases s.len(),
{
    if s.len() > 0 && is_whitespace(s.last()) {
        trim_end(s.drop_last())
    } else {
        s
    }
}

/// `s` without leading and trailing whitespace, as `str::trim` computes it.
pub open spec fn trim(s: Seq<char>) -> Seq<char> {
    trim_end(trim_start(s))
}

pub proof fn lemma_trim_start_skip(s: Seq<char>, a: int)
    requires
        0 <= a <= s.len(),
        forall|j: int| 0 <= j < a ==> is_whitespace(s[j]),
        a < s.len() ==> !is_whitespace(s[a]),
    ensures
        trim_start(s) == s.skip(a),
    decreases a,
{
    if a == 0 {
        assert(s.skip(0) =~= s);
    } else {
        assert(is_whitespace(s[0]));
        assert forall|j: int| 0 <= j < a - 1 implies is_whitespace(s.skip(1)[j]) by {
            assert(s.skip(1)[j] == s[j + 1]);
        }
        assert(a - 1 < s.skip(1).len() ==> s.skip(1)[a - 1] == s[a]);
        lemma_trim_start_skip(s.skip(1), a - 1);
        assert(s.skip(1).skip(a - 1) =~= s.skip(a));
    }
}

pub proof fn lemma_trim_end_take(s: Seq<char>, b: int)
    requires
        0 <= b <= s.len(),
        forall|j: int| b <= j < s.len() ==> is_whitespace(s[j]),
        b > 0 ==> !is_whitespace(s[b - 1]),
    ensures
        trim_end(s) == s.take(b),
    decreases s.len(),
{
    if b == s.len() {
        assert(s.take(b) =~= s);
    } else {
        assert(is_whitespace(s.last()));
        assert forall|j: int| b <= j < s.drop_last().len() implies is_whitespace(s.drop_last()[j]) by {
            assert(s.drop_last()[j] == s[j]);
        }
        lemma_trim_end_take(s.drop_last(), b);
        assert(s.drop_last().take(b) =~= s.take(b));
    }
}

/// Index of the first space in `s` at or after `from`, or `s`'s length.
pub fn find_space_from(s: &str, from: usize) -> (r: usize)
    requires
        from <= s@.len(),
    ensures
        from <= r <= s@.len(),
        r - from == first_space(s@.skip(from as int)),
        r < s@.len() ==> s@[r as int] == ' ',
        forall|j: int| from <= j < r ==> s@[j] != ' ',
{
    let n = s.unicode_len();
    let mut i = from;
    while i < n && s.get_char(i) != ' '
        invariant
            from <= i <= n,
            n == s@.len(),
            forall|j: int| from <= j < i ==> s@[j] != ' ',
        decreases n - i,
    {
        i += 1;
    }
    proof {
        assert forall|j: int| 0 <= j < i - from implies s@.skip(from as int)[j] != ' ' by {
            assert(s@.skip(from as int)[j] == s@[j + from]);
        }
        assert(i - from < s@.skip(from as int).len() ==> s@.skip(from as int)[i - from] == s@[i as int]);
        lemma_first_space_at(s@.skip(from as int), i - from);
    }
    i
}

/// Whether the characters of `s` from `from` to `to` spell out `pat`.
pub fn substr_eq(s: &str, from: usize, to: usize, pat: &str) -> (r: bool)
    requires
        from <= to <= s@.len(),
    ensures
        r == (s@.subrange(from as int, to as int) == pat@),
{
    let m = pat.unicode_len();
    if to - from != m {
        proof {
            assert(s@.subrange(from as int, to as int).len() != pat@.len());
        }
        return false;
    }
    let mut j: usize = 0;
    while j < m
        invariant
            j <= m,
            m == pat@.len(),
            from + m == to <= s@.len(),
            forall|k: int| 0 <= k < j ==> s@[from + k] == pat@[k],
        decreases m - j,
    {
        if s.get_char(from + j) != pat.get_char(j) {
            proof {
                assert(s@.subrange(from as int, to as int)[j as int] != pat@[j as int]);
            }
            return false;
        }
        j += 1;
    }
    proof {
        assert(s@.subrange(from as int, to as int) =~= pat@);
    }
    true
}

/// Whether `a` and `b` hold the same characters.
pub fn str_eq(a: &str, b: &str) -> (r: bool)
    ensures
        r == (a@ == b@),
{
    let n = a.unicode_len();
    let r = substr_eq(a, 0, n, b);
    proof {
        assert(a@.subrange(0, n as int) =~= a@);
    }
    r
}

/// A copy of `s` with leading and trailing whitespace removed.
pub fn trim_str(s: &str) -> (r: String)
    ensures
        r@ == trim(s@),
{
    let n = s.unicode_len();
    let mut a: usize = 0;
    while a < n && char_is_whitespace(s.get_char(a))
        invariant
            a <= n,
            n == s@.len(),
            forall|j: int| 0 <= j < a ==> is_whitespace(s@[j]),
        decreases n - a,
    {
        a += 1;
    }
    let mut b: usize = n;
    while b > a && char_is_whitespace(s.get_char(b - 1))
        invariant
            a <= b <= n,
            n == s@.len(),
            forall|j: int| b <= j < n ==> is_whitespace(s@[j]),
        decreases b,
    {
        b -= 1;
    }
    proof {
        lemma_trim_start_skip(s@, a as int);
        let t = s@.skip(a as int);
        assert forall|j: int| b - a <= j < t.len() implies is_whitespace(t[j]) by {
            assert(t[j] == s@[j + a]);
        }
        assert(b - a > 0 ==> t[b - a - 1] == s@[b - 1]);
        lemma_trim_end_take(t, b - a);
        assert(t.take(b - a) =~= s@.subrange(a as int, b as int));
    }
    let t = s.substring_char(a, b);
    t.to_owned()
}

} // verus!
