use vstd::prelude::*;
use vstd::string::*;

verus! {

/// `p` stands in `s` starting at position `i`.
pub open spec fn occurs_at<A>(s: Seq<A>, p: Seq<A>, i: int) -> bool {
    0 <= i && i + p.len() <= s.len() && s.subrange(i, i + p.len()) == p
}

/// `p` stands somewhere in `s`.
pub open spec fn occurs<A>(s: Seq<A>, p: Seq<A>) -> bool {
    exists|i: int| occurs_at(s, p, i)
}

/// `i` is the leftmost position at which `p` stands in `s`.
pub open spec fn is_first_occurrence<A>(s: Seq<A>, p: Seq<A>, i: int) -> bool {
    occurs_at(s, p, i) && forall|j: int| 0 <= j < i ==> !occurs_at(s, p, j)
}

/// The leftmost position of `p` in `s` (meaningful where `occurs(s, p)`).
pub open spec fn first_occurrence<A>(s: Seq<A>, p: Seq<A>) -> int {
    choose|i: int| is_first_occurrence(s, p, i)
}

pub proof fn lemma_first_occurrence<A>(s: Seq<A>, p: Seq<A>, i: int)
    requires
        is_first_occurrence(s, p, i),
    ensures
        first_occurrence(s, p) == i,
        occurs(s, p),
{
    let k = first_occurrence(s, p);
    assert(is_first_occurrence(s, p, k));
    if k < i {
        assert(!occurs_at(s, p, k));
    } else if i < k {
        assert(!occurs_at(s, p, i));
    }
}

/// Where `p` stands in `s` at all, `first_occurrence` is its leftmost place.
pub proof fn lemma_first_occurrence_exists<A>(s: Seq<A>, p: Seq<A>, w: int)
    requires
        occurs_at(s, p, w),
    ensures
        is_first_occurrence(s, p, first_occurrence(s, p)),
    decreases w,
{
    if forall|j: int| 0 <= j < w ==> !occurs_at(s, p, j) {
        assert(is_first_occurrence(s, p, w));
    } else {
        let j = choose|j: int| 0 <= j < w && occurs_at(s, p, j);
        lemma_first_occurrence_exists(s, p, j);
    }
}

/// The characters of `s`, one by one.
pub fn chars_of(s: &str) -> (r: Vec<char>)
    ensures
        r@ == s@,
{
    let n = s.unicode_len();
    let mut r: Vec<char> = Vec::new();
    let mut i: usize = 0;
    while i < n
        invariant
            n == s@.len(),
            i <= n,
            r@ == s@.subrange(0, i as int),
        decreases n - i,
    {
        r.push(s.get_char(i));
        i += 1;
        assert(r@ =~= s@.subrange(0, i as int));
    }
    assert(r@ =~= s@);
    r
}

/// Whether the characters `s[i..i + p.len()]` are those of `p`.
pub fn chars_match_at(s: &Vec<char>, p: &Vec<char>, i: usize) -> (r: bool)
    requires
        i + p@.len() <= s@.len(),
    ensures
        r == occurs_at(s@, p@, i as int),
{
    let n = p.len();
    let sl = s.len();
    let mut k: usize = 0;
    while k < n
        invariant
            n == p@.len(),
            sl == s@.len(),
            i + n <= s@.len(),
            k <= n,
            forall|m: int| 0 <= m < k ==> s@[i + m] == p@[m],
        decreases n - k,
    {
        if s[i + k] != p[k] {
            assert(s@.subrange(i as int, i + n)[k as int] != p@[k as int]);
            return false;
        }
        k += 1;
    }
    assert(s@.subrange(i as int, i + n) =~= p@);
    true
}

/// The leftmost position of `p` in `s`, if it stands there at all.
pub fn find_chars(s: &Vec<char>, p: &Vec<char>) -> (r: Option<usize>)
    ensures
        match r {
            Some(i) => is_first_occurrence(s@, p@, i as int),
            None => !occurs(s@, p@),
        },
{
    if p.len() > s.len() {
        return None;
    }
    let last = s.len() - p.len();
    let mut i: usize = 0;
    while i <= last
        invariant
            last == s@.len() - p@.len(),
            forall|j: int| 0 <= j < i ==> !occurs_at(s@, p@, j),
        decreases last + 1 - i,
    {
        if chars_match_at(s, p, i) {
            return Some(i);
        }
        if i == last {
            assert forall|j: int| !occurs_at(s@, p@, j) by {
                if occurs_at(s@, p@, j) {
                    assert(j <= last);
                }
            }
            return None;
        }
        i += 1;
    }
    assert forall|j: int| !occurs_at(s@, p@, j) by {
        if 0 <= j < i {
        } else if occurs_at(s@, p@, j) {
            assert(j <= last);
        }
    }
    None
}

/// Whether the bytes `s[i..i + p.len()]` are those of `p`.
pub fn bytes_match_at(s: &Vec<u8>, p: &Vec<u8>, i: usize) -> (r: bool)
    requires
        i + p@.len() <= s@.len(),
    ensures
        r == occurs_at(s@, p@, i as int),
{
    let n = p.len();
    let sl = s.len();
    let mut k: usize = 0;
    while k < n
        invariant
            n == p@.len(),
            sl == s@.len(),
            i + n <= s@.len(),
            k <= n,
            forall|m: int| 0 <= m < k ==> s@[i + m] == p@[m],
        decreases n - k,
    {
        if s[i + k] != p[k] {
            assert(s@.subrange(i as int, i + n)[k as int] != p@[k as int]);
            return false;
        }
        k += 1;
    }
    assert(s@.subrange(i as int, i + n) =~= p@);
    true
}

/// The leftmost position of `p` in `s`, if it stands there at all.
pub fn find_bytes(s: &Vec<u8>, p: &Vec<u8>) -> (r: Option<usize>)
    ensures
        match r {
            Some(i) => is_first_occurrence(s@, p@, i as int),
            None => !occurs(s@, p@),
        },
{
    if p.len() > s.len() {
        return None;
    }
    let last = s.len() - p.len();
    let mut i: usize = 0;
    while i <= last
        invariant
            last == s@.len() - p@.len(),
            forall|j: int| 0 <= j < i ==> !occurs_at(s@, p@, j),
        decreases last + 1 - i,
    {
        if bytes_match_at(s, p, i) {
            return Some(i);
        }
        if i == last {
            assert forall|j: int| !occurs_at(s@, p@, j) by {
                if occurs_at(s@, p@, j) {
                    assert(j <= last);
                }
            }
            return None;
        }
        i += 1;
    }
    assert forall|j: int| !occurs_at(s@, p@, j) by {
        if 0 <= j < i {
        } else if occurs_at(s@, p@, j) {
            assert(j <= last);
        }
    }
    None
}

} // verus!
