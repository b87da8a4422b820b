//! Searching sequences of characters, and the character-level helpers the other modules share.
use vstd::prelude::*;
use vstd::string::*;

verus! {

/// `pat` starts at position `i` of `s`.
pub open spec fn occurs_at(s: Seq<char>, pat: Seq<char>, i: int) -> bool {
    0 <= i && i + pat.len() <= s.len() && s.subrange(i, i + pat.len()) == pat
}

/// The first position at or after `i` where `pat` starts in `s`, or `s.len()` if there is none.
pub open spec fn find_from(s: Seq<char>, pat: Seq<char>, i: int) -> int
    decreases s.len() - i,
{
    if 0 <= i < s.len() {
        if occurs_at(s, pat, i) {
            i
        } else {
            find_from(s, pat, i + 1)
        }
    } else {
        s.len() as int
    }
}

/// `find_from` stays within `[i, s.len()]`, returns a real occurrence when below `s.len()`,
/// and skips no occurrence.
pub proof fn lemma_find_from_bounds(s: Seq<char>, pat: Seq<char>, i: int)
    requires
        0 <= i <= s.len(),
        pat.len() > 0,
    ensures
        i <= find_from(s, pat, i) <= s.len(),
        find_from(s, pat, i) < s.len() ==> occurs_at(s, pat, find_from(s, pat, i)),
        forall|m: int| i <= m < find_from(s, pat, i) ==> !occurs_at(s, pat, m),
    decreases s.len() - i,
{
    if i < s.len() && !occurs_at(s, pat, i) {
        lemma_find_from_bounds(s, pat, i + 1);
    }
}

/// Whether `pat` occurs at position `i` of `s`.
pub(crate) fn occurs_at_exec(s: &Vec<char>, pat: &Vec<char>, i: usize) -> (r: bool)
    ensures
        r == occurs_at(s@, pat@, i as int),
{
    if pat.len() > s.len() || i > s.len() - pat.len() {
        return false;
    }
    let mut j: usize = 0;
    while j < pat.len()
        invariant
            j <= pat.len(),
            i + pat.len() <= s.len(),
            forall|m: int| 0 <= m < j ==> s@[i + m] == pat@[m],
        decreases pat.len() - j,
    {
        if s[i + j] != pat[j] {
            assert(s@.subrange(i as int, i + pat.len())[j as int] != pat@[j as int]);
            return false;
        }
        j = j + 1;
    }
    assert(s@.subrange(i as int, i + pat.len()) =~= pat@);
    true
}

/// The first position at or after `i` where `pat` starts in `s`, or `s.len()` if there is none.
pub(crate) fn find_from_exec(s: &Vec<char>, pat: &Vec<char>, i: usize) -> (r: usize)
    requires
        i <= s.len(),
    ensures
        r == find_from(s@, pat@, i as int),
{
    let mut k: usize = i;
    while k < s.len()
        invariant
            i <= k <= s.len(),
            find_from(s@, pat@, i as int) == find_from(s@, pat@, k as int),
        decreases s.len() - k,
    {
        if occurs_at_exec(s, pat, k) {
            return k;
        }
        k = k + 1;
    }
    k
}

/// Unicode white space, the characters that `str::trim` removes.
pub open spec fn is_whitespace(c: char) -> bool {
    let u = c as u32;
    (9 <= u <= 13) || u == 32 || u == 0x85 || u == 0xa0 || u == 0x1680 || (0x2000 <= u <= 0x200a)
        || u == 0x2028 || u == 0x2029 || u == 0x202f || u == 0x205f || u == 0x3000
}

/// Whether `c` is Unicode white space, as `char::is_whitespace` tells.
pub(crate) fn is_whitespace_char(c: char) -> (r: bool)
    ensures
        r == is_whitespace(c),
{
    let u = c as u32;
    (9 <= u && u <= 13) || u == 32 || u == 0x85 || u == 0xa0 || u == 0x1680 || (0x2000 <= u && u
        <= 0x200a) || u == 0x2028 || u == 0x2029 || u == 0x202f || u == 0x205f || u == 0x3000
}

pub(crate) fn copy_range(s: &Vec<char>, start: usize, end: usize) -> (r: Vec<char>)
    requires
        start <= end <= s.len(),
    ensures
        r@ == s@.subrange(start as int, end as int),
{
    let mut r: Vec<char> = Vec::new();
    let mut i: usize = start;
    while i < end
        invariant
            start <= i <= end <= s.len(),
            r@ == s@.subrange(start as int, i as int),
        decreases end - i,
    {
        r.push(s[i]);
        i = i + 1;
        assert(r@ =~= s@.subrange(start as int, i as int));
    }
    r
}

pub(crate) fn chars_of(text: &str) -> (r: Vec<char>)
    ensures
        r@ == text@,
{
    let n = text.unicode_len();
    let mut r: Vec<char> = Vec::new();
    let mut i: usize = 0;
    while i < n
        invariant
            i <= n,
            n == text@.len(),
            r@ == text@.subrange(0, i as int),
        decreases n - i,
    {
        r.push(text.get_char(i));
        i = i + 1;
        assert(r@ =~= text@.subrange(0, i as int));
    }
    assert(r@ =~= text@);
    r
}

pub(crate) proof fn lemma_occurs_single(s: Seq<char>, c: char, m: int)
    ensures
        occurs_at(s, seq![c], m) <==> (0 <= m < s.len() && s[m] == c),
{
    if 0 <= m < s.len() {
        if s[m] == c {
            assert(s.subrange(m, m + 1) =~= seq![c]);
        } else {
            assert(s.subrange(m, m + 1)[0] != seq![c][0]);
        }
    }
}

pub(crate) proof fn lemma_find_from_shift(p: Seq<char>, s: Seq<char>, pat: Seq<char>, i: int)
    requires
        0 <= i,
        pat.len() > 0,
    ensures
        find_from(p + s, pat, p.len() + i) == p.len() + find_from(s, pat, i),
    decreases s.len() - i,
{
    if i < s.len() {
        if i + pat.len() <= s.len() {
            assert((p + s).subrange(p.len() + i, p.len() + i + pat.len()) =~= s.subrange(
                i,
                i + pat.len(),
            ));
        }
        lemma_find_from_shift(p, s, pat, i + 1);
    }
}

/// Whether `s` holds exactly the characters of `lit`.
pub(crate) fn same_text(s: &str, lit: &str) -> (r: bool)
    ensures
        r == (s@ == lit@),
{
    let n = s.unicode_len();
    if n != lit.unicode_len() {
        return false;
    }
    let mut i: usize = 0;
    while i < n
        invariant
            i <= n == s@.len() == lit@.len(),
            forall|m: int| 0 <= m < i ==> s@[m] == lit@[m],
        decreases n - i,
    {
        if s.get_char(i) != lit.get_char(i) {
            return false;
        }
        i = i + 1;
    }
    assert(s@ =~= lit@);
    true
}

} // verus!
