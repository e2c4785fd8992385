//! Small verified operations on text and ordered sets.
use vstd::prelude::*;

verus! {

pub open spec fn has_prefix(s: Seq<char>, p: Seq<char>) -> bool {
    s.len() >= p.len() && s.subrange(0, p.len() as int) == p
}

/// Whether `s` begins with `p`.
pub fn starts_with(s: &str, p: &str) -> (r: bool)
    ensures
        r == has_prefix(s@, p@),
{
    let n = s.unicode_len();
    let m = p.unicode_len();
    if n < m {
        return false;
    }
    let mut i: usize = 0;
    while i < m
        invariant
            n == s@.len(),
            m == p@.len(),
            m <= n,
            i <= m,
            forall|k: int| 0 <= k < i ==> s@[k] == p@[k],
        decreases m - i,
    {
        if s.get_char(i) != p.get_char(i) {
            assert(s@.subrange(0, m as int)[i as int] != p@[i as int]);
            return false;
        }
        i = i + 1;
    }
    assert(s@.subrange(0, m as int) =~= p@);
    true
}

pub open spec fn contains_text(v: Seq<String>, s: Seq<char>) -> bool {
    exists|i: int| 0 <= i < v.len() && (#[trigger] v[i])@ == s
}

/// Appends `s` unless an equal text is already present.
pub fn push_unique_text(v: &mut Vec<String>, s: &String)
    ensures
        contains_text(old(v)@, s@) ==> final(v)@ == old(v)@,
        !contains_text(old(v)@, s@) ==> final(v)@ == old(v)@.push(*s),
        contains_text(final(v)@, s@),
{
    let mut i: usize = 0;
    while i < v.len()
        invariant
            i <= v@.len(),
            v@ == old(v)@,
            forall|k: int| 0 <= k < i ==> (#[trigger] v@[k])@ != s@,
        decreases v@.len() - i,
    {
        if v[i] == *s {
            return;
        }
        i = i + 1;
    }
    v.push(s.clone());
    assert(v@[v@.len() - 1]@ == s@);
}

pub open spec fn strictly_sorted_u16(s: Seq<u16>) -> bool {
    forall|i: int, j: int| 0 <= i < j < s.len() ==> s[i] < s[j]
}

pub open spec fn strictly_sorted_u8(s: Seq<u8>) -> bool {
    forall|i: int, j: int| 0 <= i < j < s.len() ==> s[i] < s[j]
}

/// Inserts `x` into an ascending set kept as a vector.
pub fn insert_sorted_u16(v: &mut Vec<u16>, x: u16)
    requires
        strictly_sorted_u16(old(v)@),
    ensures
        strictly_sorted_u16(final(v)@),
        final(v)@.to_set() == old(v)@.to_set().insert(x),
{
    let mut pos: usize = 0;
    while pos < v.len() && v[pos] < x
        invariant
            pos <= v@.len(),
            forall|k: int| 0 <= k < pos ==> v@[k] < x,
        decreases v@.len() - pos,
    {
        pos = pos + 1;
    }
    let ghost before = v@;
    if pos < v.len() && v[pos] == x {
        assert(before.to_set() =~= before.to_set().insert(x)) by {
            assert(before.to_set().contains(before[pos as int]));
        }
        return;
    }
    v.insert(pos, x);
    assert(v@.to_set() =~= before.to_set().insert(x)) by {
        assert forall|y: u16| v@.to_set().contains(y) <==> before.to_set().insert(x).contains(y) by {
            if v@.to_set().contains(y) {
                let k = choose|k: int| 0 <= k < v@.len() && v@[k] == y;
                if k < pos {
                    assert(before[k] == y);
                } else if k > pos {
                    assert(before[k - 1] == y);
                }
            }
            if before.to_set().contains(y) {
                let k = choose|k: int| 0 <= k < before.len() && before[k] == y;
                if k < pos {
                    assert(v@[k] == y);
                } else {
                    assert(v@[k + 1] == y);
                }
            }
            if y == x {
                assert(v@[pos as int] == x);
            }
        }
    }
    assert forall|i: int, j: int| 0 <= i < j < v@.len() implies v@[i] < v@[j] by {
        if j < pos {
        } else if i < pos && j == pos {
        } else if i < pos && j > pos {
            assert(v@[j] == before[j - 1]);
        } else if i == pos {
            assert(v@[j] == before[j - 1]);
            assert(before[pos as int] > x);
            assert(before[pos as int] <= before[j - 1]);
        } else {
            assert(v@[i] == before[i - 1]);
            assert(v@[j] == before[j - 1]);
        }
    }
}

/// Inserts `x` into an ascending set kept as a vector.
pub fn insert_sorted_u8(v: &mut Vec<u8>, x: u8)
    requires
        strictly_sorted_u8(old(v)@),
    ensures
        strictly_sorted_u8(final(v)@),
        final(v)@.to_set() == old(v)@.to_set().insert(x),
{
    let mut pos: usize = 0;
    while pos < v.len() && v[pos] < x
        invariant
            pos <= v@.len(),
            forall|k: int| 0 <= k < pos ==> v@[k] < x,
        decreases v@.len() - pos,
    {
        pos = pos + 1;
    }
    let ghost before = v@;
    if pos < v.len() && v[pos] == x {
        assert(before.to_set() =~= before.to_set().insert(x)) by {
            assert(before.to_set().contains(before[pos as int]));
        }
        return;
    }
    v.insert(pos, x);
    assert(v@.to_set() =~= before.to_set().insert(x)) by {
        assert forall|y: u8| v@.to_set().contains(y) <==> before.to_set().insert(x).contains(y) by {
            if v@.to_set().contains(y) {
                let k = choose|k: int| 0 <= k < v@.len() && v@[k] == y;
                if k < pos {
                    assert(before[k] == y);
                } else if k > pos {
                    assert(before[k - 1] == y);
                }
            }
            if before.to_set().contains(y) {
                let k = choose|k: int| 0 <= k < before.len() && before[k] == y;
                if k < pos {
                    assert(v@[k] == y);
                } else {
                    assert(v@[k + 1] == y);
                }
            }
            if y == x {
                assert(v@[pos as int] == x);
            }
        }
    }
    assert forall|i: int, j: int| 0 <= i < j < v@.len() implies v@[i] < v@[j] by {
        if j < pos {
        } else if i < pos && j == pos {
        } else if i < pos && j > pos {
            assert(v@[j] == before[j - 1]);
        } else if i == pos {
            assert(v@[j] == before[j - 1]);
            assert(before[pos as int] > x);
            assert(before[pos as int] <= before[j - 1]);
        } else {
            assert(v@[i] == before[i - 1]);
            assert(v@[j] == before[j - 1]);
        }
    }
}

} // verus!
