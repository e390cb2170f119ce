//! Character-level helpers on strings, with their mathematical meaning.
use vstd::prelude::*;
use vstd::std_specs::iter::IteratorSpec;

verus! {

/// The code of `c` after ASCII lower-casing: `A`..`Z` move to `a`..`z`, all
/// other characters stay as they are.
pub open spec fn lower_code(c: char) -> u32 {
    if 65 <= (c as u32) && (c as u32) <= 90 {
        (c as u32 + 32) as u32
    } else {
        c as u32
    }
}

/// `p` occurs in `s` at position `i`.
pub open spec fn occurs_at(s: Seq<char>, p: Seq<char>, i: int) -> bool {
    0 <= i && i + p.len() <= s.len() && s.subrange(i, i + p.len()) == p
}

/// `p` occurs at position `i` of `s` once `s` is ASCII lower-cased.
pub open spec fn occurs_at_lower(s: Seq<char>, p: Seq<char>, i: int) -> bool {
    &&& 0 <= i
    &&& i + p.len() <= s.len()
    &&& forall|j: int| 0 <= j < p.len() ==> lower_code(#[trigger] s[i + j]) == p[j] as u32
}

/// The ASCII lower-cased `s` contains `p`.
pub open spec fn contains_lower(s: Seq<char>, p: Seq<char>) -> bool {
    exists|i: int| occurs_at_lower(s, p, i)
}

/// The first position at or after `i` where `p` occurs in `s`.
pub open spec fn find_from(s: Seq<char>, p: Seq<char>, i: int) -> Option<int>
    decreases s.len() + 1 - i,
{
    if i < 0 || i + p.len() > s.len() {
        None
    } else if s.subrange(i, i + p.len()) == p {
        Some(i)
    } else {
        find_from(s, p, i + 1)
    }
}

/// The first position where `p` occurs in `s`.
pub open spec fn find(s: Seq<char>, p: Seq<char>) -> Option<int> {
    find_from(s, p, 0)
}

pub proof fn lemma_find_from_sound(s: Seq<char>, p: Seq<char>, i: int)
    requires
        0 <= i,
    ensures
        find_from(s, p, i) matches Some(k) ==> i <= k && occurs_at(s, p, k) && forall|m: int|
            i <= m < k ==> !occurs_at(s, p, m),
        find_from(s, p, i) is None ==> forall|m: int| i <= m ==> !occurs_at(s, p, m),
    decreases s.len() + 1 - i,
{
    if i < 0 || i + p.len() > s.len() {
    } else if s.subrange(i, i + p.len()) == p {
    } else {
        lemma_find_from_sound(s, p, i + 1);
    }
}

/// The characters of `s`, one by one.
pub fn chars_of(s: &str) -> (r: Vec<char>)
    ensures
        r@ == s@,
{
    let mut it = s.chars();
    let mut r: Vec<char> = Vec::new();
    loop
        invariant
            it.obeys_prophetic_iter_laws(),
            r@.len() <= s@.len(),
            r@ == s@.take(r@.len() as int),
            it.remaining() == s@.skip(r@.len() as int),
        ensures
            r@ == s@,
        decreases s@.len() - r@.len(),
    {
        match it.next() {
            Some(c) => {
                r.push(c);
                assert(r@ =~= s@.take(r@.len() as int));
            },
            None => {
                assert(s@.take(r@.len() as int) =~= s@);
                break;
            },
        }
    }
    r
}

/// Relies on `String::push`: appends one character.
#[verifier::external_body]
fn push_char(s: &mut String, c: char)
    ensures
        final(s)@ == old(s)@.push(c),
{
    s.push(c)
}

/// The string made of the characters of `v`.
pub fn string_of(v: &[char]) -> (r: String)
    ensures
        r@ == v@,
{
    let mut r = String::new();
    let mut i: usize = 0;
    while i < v.len()
        invariant
            i <= v@.len(),
            r@ == v@.subrange(0, i as int),
        decreases v@.len() - i,
    {
        push_char(&mut r, v[i]);
        i = i + 1;
    }
    r
}

/// Whether `p` occurs at position `i` of `s`.
pub fn matches_at(s: &[char], p: &[char], i: usize) -> (r: bool)
    ensures
        r == occurs_at(s@, p@, i as int),
{
    if p.len() > s.len() || i > s.len() - p.len() {
        return false;
    }
    let mut j: usize = 0;
    while j < p.len()
        invariant
            i + p@.len() <= s@.len(),
            s@.len() <= usize::MAX,
            j <= p@.len(),
            forall|m: int| 0 <= m < j ==> s@[i + m] == p@[m],
        decreases p@.len() - j,
    {
        if s[i + j] != p[j] {
            assert(s@.subrange(i as int, i + p@.len())[j as int] != p@[j as int]);
            return false;
        }
        j = j + 1;
    }
    assert(s@.subrange(i as int, i + p@.len()) =~= p@);
    true
}

/// The first position where `p` occurs in `s`, if any.
pub fn find_in(s: &[char], p: &[char]) -> (r: Option<usize>)
    ensures
        r matches Some(k) ==> find(s@, p@) == Some(k as int),
        r is None ==> find(s@, p@) is None,
{
    find_in_from(s, p, 0)
}

/// The first position at or after `start` where `p` occurs in `s`, if any.
pub fn find_in_from(s: &[char], p: &[char], start: usize) -> (r: Option<usize>)
    ensures
        r matches Some(k) ==> find_from(s@, p@, start as int) == Some(k as int),
        r is None ==> find_from(s@, p@, start as int) is None,
{
    if p.len() > s.len() || start > s.len() - p.len() {
        return None;
    }
    let last = s.len() - p.len();
    let mut i: usize = start;
    while i <= last
        invariant
            last + p@.len() == s@.len(),
            start <= i,
            find_from(s@, p@, start as int) == find_from(s@, p@, i as int),
        decreases last + 1 - i,
    {
        if matches_at(s, p, i) {
            return Some(i);
        }
        assert(find_from(s@, p@, i as int) == find_from(s@, p@, i + 1));
        if i == last {
            assert(find_from(s@, p@, i + 1) is None);
            return None;
        }
        i = i + 1;
    }
    None
}

/// `s` begins with `p`.
pub open spec fn starts_with(s: Seq<char>, p: Seq<char>) -> bool {
    p.len() <= s.len() && s.take(p.len() as int) == p
}

/// Whether `s` begins with `p`.
pub fn begins_with(s: &[char], p: &[char]) -> (r: bool)
    ensures
        r == starts_with(s@, p@),
{
    let r = matches_at(s, p, 0);
    assert(p@.len() <= s@.len() ==> s@.subrange(0, p@.len() as int) == s@.take(p@.len() as int));
    r
}

/// `s` with its first occurrence of `p` replaced by `q`.
pub open spec fn replace_first(s: Seq<char>, p: Seq<char>, q: Seq<char>) -> Seq<char> {
    match find(s, p) {
        Some(i) => s.take(i) + q + s.skip(i + p.len()),
        None => s,
    }
}

/// `s` with its first occurrence of `p` replaced by `q`.
pub fn replace_first_in(s: &Vec<char>, p: &[char], q: &[char]) -> (r: Vec<char>)
    ensures
        r@ == replace_first(s@, p@, q@),
{
    match find_in(s, p) {
        Some(i) => {
            proof {
                lemma_find_from_sound(s@, p@, 0);
            }
            let mut r: Vec<char> = Vec::new();
            let mut j: usize = 0;
            while j < i
                invariant
                    j <= i,
                    i + p@.len() <= s@.len(),
                    r@ == s@.take(j as int),
                decreases i - j,
            {
                r.push(s[j]);
                j = j + 1;
                assert(r@ =~= s@.take(j as int));
            }
            let mut k: usize = 0;
            while k < q.len()
                invariant
                    i + p@.len() <= s@.len(),
                    k <= q@.len(),
                    r@ == s@.take(i as int) + q@.take(k as int),
                decreases q@.len() - k,
            {
                r.push(q[k]);
                k = k + 1;
                assert(r@ =~= s@.take(i as int) + q@.take(k as int));
            }
            let n = s.len();
            assert(i + p@.len() <= n);
            let mut m: usize = i + p.len();
            assert(q@.take(k as int) =~= q@);
            while m < s.len()
                invariant
                    i + p@.len() <= m <= s@.len(),
                    r@ == s@.take(i as int) + q@ + s@.subrange(i + p@.len(), m as int),
                decreases s@.len() - m,
            {
                r.push(s[m]);
                m = m + 1;
                assert(r@ =~= s@.take(i as int) + q@ + s@.subrange(i + p@.len(), m as int));
            }
            assert(s@.subrange(i + p@.len(), m as int) =~= s@.skip(i + p@.len()));
            r
        },
        None => {
            let mut r: Vec<char> = Vec::new();
            let mut j: usize = 0;
            while j < s.len()
                invariant
                    j <= s@.len(),
                    r@ == s@.take(j as int),
                decreases s@.len() - j,
            {
                r.push(s[j]);
                j = j + 1;
                assert(r@ =~= s@.take(j as int));
            }
            assert(s@.take(j as int) =~= s@);
            r
        },
    }
}

/// Whether `p` occurs at position `i` of the ASCII lower-cased `s`; `p` is
/// compared as it is.
fn matches_at_lower(s: &[char], p: &[char], i: usize) -> (r: bool)
    ensures
        r == occurs_at_lower(s@, p@, i as int),
{
    if p.len() > s.len() || i > s.len() - p.len() {
        return false;
    }
    let mut j: usize = 0;
    while j < p.len()
        invariant
            i + p@.len() <= s@.len(),
            s@.len() <= usize::MAX,
            j <= p@.len(),
            forall|m: int| 0 <= m < j ==> lower_code(#[trigger] s@[i + m]) == p@[m] as u32,
        decreases p@.len() - j,
    {
        let c = s[i + j] as u32;
        let lc: u32 = if 65 <= c && c <= 90 { c + 32 } else { c };
        if lc != p[j] as u32 {
            assert(lower_code(s@[i + j as int]) != p@[j as int] as u32);
            return false;
        }
        j = j + 1;
    }
    true
}

/// Whether the ASCII lower-cased `s` contains `p`.
pub fn contains_lowercase(s: &[char], p: &[char]) -> (r: bool)
    ensures
        r == contains_lower(s@, p@),
{
    if p.len() > s.len() {
        return false;
    }
    let last = s.len() - p.len();
    let mut i: usize = 0;
    while i <= last
        invariant
            last + p@.len() == s@.len(),
            forall|m: int| 0 <= m < i ==> !occurs_at_lower(s@, p@, m),
        decreases last + 1 - i,
    {
        if matches_at_lower(s, p, i) {
            return true;
        }
        if i == last {
            return false;
        }
        i = i + 1;
    }
    false
}

} // verus!
