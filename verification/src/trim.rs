//! Trimming of header keys: leading and trailing ASCII space and tab
//! characters are removed, and nothing else.

use vstd::prelude::*;

verus! {

/// The characters removed from the ends of a header key: ASCII space and tab.
pub open spec fn is_trim_char(c: char) -> bool {
    c == ' ' || c == '\t'
}

/// `s` with its leading run of spaces and tabs removed.
pub open spec fn trim_start(s: Seq<char>) -> Seq<char>
    decreases s.len(),
{
    if s.len() > 0 && is_trim_char(s[0]) {
        trim_start(s.drop_first())
    } else {
        s
    }
}

/// `s` with its trailing run of spaces and tabs removed.
pub open spec fn trim_end(s: Seq<char>) -> Seq<char>
    decreases s.len(),
{
    if s.len() > 0 && is_trim_char(s[s.len() - 1]) {
        trim_end(s.drop_last())
    } else {
        s
    }
}

/// `s` with leading and trailing spaces and tabs removed.
pub open spec fn trimmed(s: Seq<char>) -> Seq<char> {
    trim_end(trim_start(s))
}

/// The result of `trim_start` is empty or starts with a non-trim character.
proof fn lemma_trim_start_head(s: Seq<char>)
    ensures
        trim_start(s).len() == 0 || !is_trim_char(trim_start(s)[0]),
    decreases s.len(),
{
    if s.len() > 0 && is_trim_char(s[0]) {
        lemma_trim_start_head(s.drop_first());
    }
}

/// The result of `trim_end` is empty or ends with a non-trim character.
proof fn lemma_trim_end_last(s: Seq<char>)
    ensures
        trim_end(s).len() == 0 || !is_trim_char(trim_end(s)[trim_end(s).len() - 1]),
    decreases s.len(),
{
    if s.len() > 0 && is_trim_char(s[s.len() - 1]) {
        lemma_trim_end_last(s.drop_last());
    }
}

/// The result of `trim_end` is a prefix of its argument.
proof fn lemma_trim_end_prefix(s: Seq<char>)
    ensures
        trim_end(s).len() <= s.len(),
        forall|i: int| 0 <= i < trim_end(s).len() ==> trim_end(s)[i] == s[i],
    decreases s.len(),
{
    if s.len() > 0 && is_trim_char(s[s.len() - 1]) {
        lemma_trim_end_prefix(s.drop_last());
        assert(forall|i: int| 0 <= i < s.drop_last().len() ==> s.drop_last()[i] == s[i]);
    }
}

/// Trimming is idempotent: trimming an already-trimmed key produces the same
/// key.
pub proof fn lemma_trim_idempotent(s: Seq<char>)
    ensures
        trimmed(trimmed(s)) == trimmed(s),
{
    let t = trim_start(s);
    let u = trim_end(t);
    lemma_trim_start_head(s);
    lemma_trim_end_prefix(t);
    assert(trim_start(u) == u);
    lemma_trim_end_last(t);
    assert(trim_end(u) == u);
}

/// Characters up to `a` are trim characters and `a` is the end or a non-trim
/// character, so `trim_start` drops exactly the first `a` characters.
proof fn lemma_trim_start_at(s: Seq<char>, a: int)
    requires
        0 <= a <= s.len(),
        forall|i: int| 0 <= i < a ==> is_trim_char(s[i]),
        a == s.len() || !is_trim_char(s[a]),
    ensures
        trim_start(s) == s.subrange(a, s.len() as int),
    decreases a,
{
    if a == 0 {
        assert(s.subrange(0, s.len() as int) =~= s);
    } else {
        lemma_trim_start_at(s.drop_first(), a - 1);
        assert(s.drop_first().subrange(a - 1, s.drop_first().len() as int) =~= s.subrange(
            a,
            s.len() as int,
        ));
    }
}

/// Characters from `b` on are trim characters and `b` is the start or is
/// preceded by a non-trim character, so `trim_end` keeps exactly the first
/// `b` characters.
proof fn lemma_trim_end_at(s: Seq<char>, b: int)
    requires
        0 <= b <= s.len(),
        forall|i: int| b <= i < s.len() ==> is_trim_char(s[i]),
        b == 0 || !is_trim_char(s[b - 1]),
    ensures
        trim_end(s) == s.subrange(0, b),
    decreases s.len(),
{
    if b == s.len() {
        assert(s.subrange(0, b) =~= s);
    } else {
        lemma_trim_end_at(s.drop_last(), b);
        assert(s.drop_last().subrange(0, b) =~= s.subrange(0, b));
    }
}

/// The first `a` characters and the characters from `b` on are spaces and
/// tabs, while positions `a` and `b - 1` (when inside the range) are not, so
/// the trimmed key is exactly the middle part.
pub proof fn lemma_trimmed_bounds(s: Seq<char>, a: int, b: int)
    requires
        0 <= a <= b <= s.len(),
        forall|i: int| 0 <= i < a ==> is_trim_char(s[i]),
        forall|i: int| b <= i < s.len() ==> is_trim_char(s[i]),
        a == b || (!is_trim_char(s[a]) && !is_trim_char(s[b - 1])),
    ensures
        trimmed(s) == s.subrange(a, b),
{
    if a == b {
        lemma_trim_start_at(s, s.len() as int);
        let t = s.subrange(s.len() as int, s.len() as int);
        lemma_trim_end_at(t, 0);
        assert(trimmed(s) =~= s.subrange(a, b));
    } else {
        lemma_trim_start_at(s, a);
        let t = s.subrange(a, s.len() as int);
        lemma_trim_end_at(t, b - a);
        assert(t.subrange(0, b - a) =~= s.subrange(a, b));
    }
}

/// Trim leading and trailing ASCII spaces and tabs from `s`.
pub fn trim_key(s: &str) -> (r: String)
    ensures
        r@ == trimmed(s@),
{
    let len = s.unicode_len();
    let mut a: usize = 0;
    while a < len
        invariant
            a <= len,
            len == s@.len(),
            forall|i: int| 0 <= i < a ==> is_trim_char(s@[i]),
        ensures
            a <= len,
            forall|i: int| 0 <= i < a ==> is_trim_char(s@[i]),
            a == len || !is_trim_char(s@[a as int]),
        decreases len - a,
    {
        let c = s.get_char(a);
        if !(c == ' ' || c == '\t') {
            break;
        }
        a = a + 1;
    }
    let mut b: usize = len;
    while b > a
        invariant
            a <= b <= len,
            len == s@.len(),
            forall|i: int| b <= i < len ==> is_trim_char(s@[i]),
        ensures
            a <= b <= len,
            forall|i: int| b <= i < len ==> is_trim_char(s@[i]),
            b == a || !is_trim_char(s@[b - 1]),
        decreases b,
    {
        let c = s.get_char(b - 1);
        if !(c == ' ' || c == '\t') {
            break;
        }
        b = b - 1;
    }
    proof {
        lemma_trimmed_bounds(s@, a as int, b as int);
    }
    let r = s.substring_char(a, b);
    r.to_owned()
}

} // verus!
