//! Ordered name sets: sequences of names without repetition, kept in order of
//! first insertion, with the operations the analyses need.
use vstd::prelude::*;

verus! {

/// The characters of each name in a vector of names.
pub open spec fn names(v: Seq<String>) -> Seq<Seq<char>> {
    v.map_values(|s: String| s@)
}

/// `a` followed by the elements of `b` that are not already present, in order
/// (each new element is added once).
pub open spec fn union(a: Seq<Seq<char>>, b: Seq<Seq<char>>) -> Seq<Seq<char>>
    decreases b.len(),
{
    if b.len() == 0 {
        a
    } else {
        let u = union(a, b.drop_last());
        if u.contains(b.last()) {
            u
        } else {
            u.push(b.last())
        }
    }
}

/// `a` without every occurrence of `x`.
pub open spec fn remove(a: Seq<Seq<char>>, x: Seq<char>) -> Seq<Seq<char>>
    decreases a.len(),
{
    if a.len() == 0 {
        a
    } else {
        let r = remove(a.drop_last(), x);
        if a.last() == x {
            r
        } else {
            r.push(a.last())
        }
    }
}

/// `a` without every element that occurs in `bs`.
pub open spec fn remove_all(a: Seq<Seq<char>>, bs: Seq<Seq<char>>) -> Seq<Seq<char>>
    decreases a.len(),
{
    if a.len() == 0 {
        a
    } else {
        let r = remove_all(a.drop_last(), bs);
        if bs.contains(a.last()) {
            r
        } else {
            r.push(a.last())
        }
    }
}

pub proof fn lemma_union_contains(a: Seq<Seq<char>>, b: Seq<Seq<char>>, z: Seq<char>)
    ensures
        union(a, b).contains(z) <==> (a.contains(z) || b.contains(z)),
    decreases b.len(),
{
    if b.len() > 0 {
        lemma_union_contains(a, b.drop_last(), z);
        let u = union(a, b.drop_last());
        if b.drop_last().contains(z) {
            let i = choose|i: int| 0 <= i < b.drop_last().len() && b.drop_last()[i] == z;
            assert(b[i] == z);
        }
        if b.contains(z) && !b.drop_last().contains(z) {
            let i = choose|i: int| 0 <= i < b.len() && b[i] == z;
            if i < b.len() - 1 {
                assert(b.drop_last()[i] == z);
            }
            assert(z == b.last());
        }
        if !u.contains(b.last()) {
            assert(u.push(b.last())[u.len() as int] == b.last());
            if u.contains(z) {
                let i = choose|i: int| 0 <= i < u.len() && u[i] == z;
                assert(u.push(b.last())[i] == z);
            }
            if u.push(b.last()).contains(z) {
                let i = choose|i: int| 0 <= i < u.len() + 1 && u.push(b.last())[i] == z;
                if i < u.len() {
                    assert(u[i] == z);
                }
            }
        }
    }
}

pub proof fn lemma_union_no_dup(a: Seq<Seq<char>>, b: Seq<Seq<char>>)
    requires
        a.no_duplicates(),
    ensures
        union(a, b).no_duplicates(),
    decreases b.len(),
{
    if b.len() > 0 {
        lemma_union_no_dup(a, b.drop_last());
    }
}

pub proof fn lemma_union_append(a: Seq<Seq<char>>, b: Seq<Seq<char>>, c: Seq<Seq<char>>)
    ensures
        union(a, b + c) == union(union(a, b), c),
    decreases c.len(),
{
    if c.len() == 0 {
        assert(b + c =~= b);
    } else {
        lemma_union_append(a, b, c.drop_last());
        assert((b + c).drop_last() =~= b + c.drop_last());
        assert((b + c).last() == c.last());
    }
}

pub proof fn lemma_union_assoc(a: Seq<Seq<char>>, b: Seq<Seq<char>>, c: Seq<Seq<char>>)
    ensures
        union(union(a, b), c) == union(a, union(b, c)),
    decreases c.len(),
{
    if c.len() > 0 {
        lemma_union_assoc(a, b, c.drop_last());
        let z = c.last();
        let v = union(b, c.drop_last());
        lemma_union_contains(a, v, z);
        if !v.contains(z) {
            assert(v.push(z).drop_last() =~= v);
        }
    }
}

pub proof fn lemma_union_empty_left(b: Seq<Seq<char>>)
    requires
        b.no_duplicates(),
    ensures
        union(Seq::empty(), b) == b,
    decreases b.len(),
{
    if b.len() > 0 {
        lemma_union_empty_left(b.drop_last());
        lemma_union_contains(Seq::empty(), b.drop_last(), b.last());
        assert(!b.drop_last().contains(b.last())) by {
            if b.drop_last().contains(b.last()) {
                let i = choose|i: int| 0 <= i < b.drop_last().len() && b.drop_last()[i] == b.last();
                assert(b[i] == b[b.len() - 1]);
            }
        }
        assert(b.drop_last().push(b.last()) =~= b);
    }
}

pub proof fn lemma_remove_contains(a: Seq<Seq<char>>, x: Seq<char>, z: Seq<char>)
    ensures
        remove(a, x).contains(z) <==> (a.contains(z) && z != x),
    decreases a.len(),
{
    if a.len() > 0 {
        lemma_remove_contains(a.drop_last(), x, z);
        let r = remove(a.drop_last(), x);
        if a.drop_last().contains(z) {
            let i = choose|i: int| 0 <= i < a.drop_last().len() && a.drop_last()[i] == z;
            assert(a[i] == z);
        }
        if a.contains(z) && !a.drop_last().contains(z) {
            let i = choose|i: int| 0 <= i < a.len() && a[i] == z;
            if i < a.len() - 1 {
                assert(a.drop_last()[i] == z);
            }
        }
        if a.last() != x {
            assert(r.push(a.last())[r.len() as int] == a.last());
            if r.contains(z) {
                let i = choose|i: int| 0 <= i < r.len() && r[i] == z;
                assert(r.push(a.last())[i] == z);
            }
            if r.push(a.last()).contains(z) {
                let i = choose|i: int| 0 <= i < r.len() + 1 && r.push(a.last())[i] == z;
                if i < r.len() {
                    assert(r[i] == z);
                }
            }
        }
    }
}

pub proof fn lemma_remove_no_dup(a: Seq<Seq<char>>, x: Seq<char>)
    requires
        a.no_duplicates(),
    ensures
        remove(a, x).no_duplicates(),
    decreases a.len(),
{
    if a.len() > 0 {
        lemma_remove_no_dup(a.drop_last(), x);
        lemma_remove_contains(a.drop_last(), x, a.last());
        assert(!a.drop_last().contains(a.last())) by {
            if a.drop_last().contains(a.last()) {
                let i = choose|i: int| 0 <= i < a.drop_last().len() && a.drop_last()[i] == a.last();
                assert(a[i] == a[a.len() - 1]);
            }
        }
    }
}

pub proof fn lemma_remove_all_contains(a: Seq<Seq<char>>, bs: Seq<Seq<char>>, z: Seq<char>)
    ensures
        remove_all(a, bs).contains(z) <==> (a.contains(z) && !bs.contains(z)),
    decreases a.len(),
{
    if a.len() > 0 {
        lemma_remove_all_contains(a.drop_last(), bs, z);
        let r = remove_all(a.drop_last(), bs);
        if a.drop_last().contains(z) {
            let i = choose|i: int| 0 <= i < a.drop_last().len() && a.drop_last()[i] == z;
            assert(a[i] == z);
        }
        if a.contains(z) && !a.drop_last().contains(z) {
            let i = choose|i: int| 0 <= i < a.len() && a[i] == z;
            if i < a.len() - 1 {
                assert(a.drop_last()[i] == z);
            }
        }
        if !bs.contains(a.last()) {
            assert(r.push(a.last())[r.len() as int] == a.last());
            if r.contains(z) {
                let i = choose|i: int| 0 <= i < r.len() && r[i] == z;
                assert(r.push(a.last())[i] == z);
            }
            if r.push(a.last()).contains(z) {
                let i = choose|i: int| 0 <= i < r.len() + 1 && r.push(a.last())[i] == z;
                if i < r.len() {
                    assert(r[i] == z);
                }
            }
        }
    }
}

pub proof fn lemma_remove_all_no_dup(a: Seq<Seq<char>>, bs: Seq<Seq<char>>)
    requires
        a.no_duplicates(),
    ensures
        remove_all(a, bs).no_duplicates(),
    decreases a.len(),
{
    if a.len() > 0 {
        lemma_remove_all_no_dup(a.drop_last(), bs);
        lemma_remove_all_contains(a.drop_last(), bs, a.last());
        assert(!a.drop_last().contains(a.last())) by {
            if a.drop_last().contains(a.last()) {
                let i = choose|i: int| 0 <= i < a.drop_last().len() && a.drop_last()[i] == a.last();
                assert(a[i] == a[a.len() - 1]);
            }
        }
    }
}

/// Whether `x` occurs in `v`.
pub fn contains_name(v: &Vec<String>, x: &String) -> (r: bool)
    ensures
        r == names(v@).contains(x@),
{
    let mut i: usize = 0;
    while i < v.len()
        invariant
            0 <= i <= v.len(),
            forall|j: int| 0 <= j < i ==> v@[j]@ != x@,
        decreases v.len() - i,
    {
        if v[i] == *x {
            assert(names(v@)[i as int] == x@);
            return true;
        }
        i += 1;
    }
    assert(!names(v@).contains(x@)) by {
        if names(v@).contains(x@) {
            let j = choose|j: int| 0 <= j < names(v@).len() && names(v@)[j] == x@;
            assert(v@[j]@ == x@);
        }
    }
    false
}

/// Appends to `out` each name of `b` not already present.
pub fn extend_union(out: &mut Vec<String>, b: &Vec<String>)
    ensures
        names(final(out)@) == union(names(old(out)@), names(b@)),
{
    let ghost start = names(out@);
    let mut i: usize = 0;
    while i < b.len()
        invariant
            0 <= i <= b.len(),
            names(out@) == union(start, names(b@).take(i as int)),
        decreases b.len() - i,
    {
        assert(names(b@).take(i + 1).drop_last() =~= names(b@).take(i as int));
        assert(names(b@).take(i + 1).last() == b@[i as int]@);
        if !contains_name(out, &b[i]) {
            let s = b[i].clone();
            out.push(s);
            assert(names(out@) =~= union(start, names(b@).take(i as int)).push(b@[i as int]@));
        }
        i += 1;
    }
    assert(names(b@).take(b.len() as int) =~= names(b@));
}

/// Appends `x` to `out` unless it is already present.
pub fn insert_name(out: &mut Vec<String>, x: String)
    ensures
        names(final(out)@) == union(names(old(out)@), seq![x@]),
{
    assert(seq![x@].drop_last() =~= Seq::<Seq<char>>::empty());
    assert(union(names(out@), seq![x@].drop_last()) == names(out@));
    if !contains_name(out, &x) {
        out.push(x);
        assert(names(out@) =~= names(old(out)@).push(x@));
    }
}

/// `v` without `x`.
pub fn remove_name(v: &Vec<String>, x: &String) -> (r: Vec<String>)
    ensures
        names(r@) == remove(names(v@), x@),
{
    let mut r: Vec<String> = Vec::new();
    let mut i: usize = 0;
    while i < v.len()
        invariant
            0 <= i <= v.len(),
            names(r@) == remove(names(v@).take(i as int), x@),
        decreases v.len() - i,
    {
        assert(names(v@).take(i + 1).drop_last() =~= names(v@).take(i as int));
        assert(names(v@).take(i + 1).last() == v@[i as int]@);
        if v[i] != *x {
            r.push(v[i].clone());
            assert(names(r@) =~= remove(names(v@).take(i as int), x@).push(v@[i as int]@));
        }
        i += 1;
    }
    assert(names(v@).take(v.len() as int) =~= names(v@));
    r
}

/// `v` without every name in `bs`.
pub fn remove_names(v: &Vec<String>, bs: &Vec<String>) -> (r: Vec<String>)
    ensures
        names(r@) == remove_all(names(v@), names(bs@)),
{
    let mut r: Vec<String> = Vec::new();
    let mut i: usize = 0;
    while i < v.len()
        invariant
            0 <= i <= v.len(),
            names(r@) == remove_all(names(v@).take(i as int), names(bs@)),
        decreases v.len() - i,
    {
        assert(names(v@).take(i + 1).drop_last() =~= names(v@).take(i as int));
        assert(names(v@).take(i + 1).last() == v@[i as int]@);
        if !contains_name(bs, &v[i]) {
            r.push(v[i].clone());
            assert(names(r@) =~= remove_all(names(v@).take(i as int), names(bs@)).push(
                v@[i as int]@,
            ));
        }
        i += 1;
    }
    assert(names(v@).take(v.len() as int) =~= names(v@));
    r
}


/// The elements of `a` that also occur in `b`, in the order of `a`.
pub open spec fn intersect(a: Seq<Seq<char>>, b: Seq<Seq<char>>) -> Seq<Seq<char>>
    decreases a.len(),
{
    if a.len() == 0 {
        a
    } else {
        let r = intersect(a.drop_last(), b);
        if b.contains(a.last()) {
            r.push(a.last())
        } else {
            r
        }
    }
}

pub proof fn lemma_intersect_contains(a: Seq<Seq<char>>, b: Seq<Seq<char>>, z: Seq<char>)
    ensures
        intersect(a, b).contains(z) <==> (a.contains(z) && b.contains(z)),
    decreases a.len(),
{
    if a.len() > 0 {
        lemma_intersect_contains(a.drop_last(), b, z);
        let r = intersect(a.drop_last(), b);
        if intersect(a, b).contains(z) {
            let i = choose|i: int| 0 <= i < intersect(a, b).len() && intersect(a, b)[i] == z;
            if i < r.len() {
                assert(r[i] == z);
            }
        }
        if a.contains(z) && b.contains(z) {
            let i = choose|i: int| 0 <= i < a.len() && a[i] == z;
            if i < a.len() - 1 {
                assert(a.drop_last()[i] == z);
            } else {
                assert(intersect(a, b).last() == z);
            }
        }
        if r.contains(z) {
            let i = choose|i: int| 0 <= i < r.len() && r[i] == z;
            assert(intersect(a, b)[i] == z);
        }
        if a.drop_last().contains(z) {
            let i = choose|i: int| 0 <= i < a.drop_last().len() && a.drop_last()[i] == z;
            assert(a[i] == z);
        }
    }
}

pub proof fn lemma_intersect_no_dup(a: Seq<Seq<char>>, b: Seq<Seq<char>>)
    requires
        a.no_duplicates(),
    ensures
        intersect(a, b).no_duplicates(),
    decreases a.len(),
{
    if a.len() > 0 {
        lemma_intersect_no_dup(a.drop_last(), b);
        lemma_intersect_contains(a.drop_last(), b, a.last());
        assert(!a.drop_last().contains(a.last())) by {
            if a.drop_last().contains(a.last()) {
                let i = choose|i: int| 0 <= i < a.drop_last().len() && a.drop_last()[i] == a.last();
                assert(a[i] == a[a.len() - 1]);
            }
        }
    }
}

/// The names of `a` that also occur in `b`, in the order of `a`.
pub fn intersect_names(a: &Vec<String>, b: &Vec<String>) -> (r: Vec<String>)
    ensures
        names(r@) == intersect(names(a@), names(b@)),
{
    let mut r: Vec<String> = Vec::new();
    let mut i: usize = 0;
    while i < a.len()
        invariant
            0 <= i <= a.len(),
            names(r@) == intersect(names(a@).take(i as int), names(b@)),
        decreases a.len() - i,
    {
        assert(names(a@).take(i + 1).drop_last() =~= names(a@).take(i as int));
        assert(names(a@).take(i + 1).last() == a@[i as int]@);
        if contains_name(b, &a[i]) {
            r.push(a[i].clone());
            assert(names(r@) =~= intersect(names(a@).take(i as int), names(b@)).push(
                a@[i as int]@,
            ));
        }
        i += 1;
    }
    assert(names(a@).take(a.len() as int) =~= names(a@));
    r
}

/// A copy of a vector of names.
pub fn copy_names(v: &Vec<String>) -> (r: Vec<String>)
    ensures
        names(r@) == names(v@),
{
    let mut r: Vec<String> = Vec::new();
    let mut i: usize = 0;
    while i < v.len()
        invariant
            0 <= i <= v.len(),
            names(r@) == names(v@).take(i as int),
            r@.len() == i,
        decreases v.len() - i,
    {
        let ghost r0 = r@;
        let s = v[i].clone();
        r.push(s);
        assert(r@ == r0.push(s));
        assert(names(r@).len() == i + 1);
        assert forall|j: int| 0 <= j < i + 1 implies names(r@)[j] == names(v@).take(i + 1)[j] by {
            if j < i {
                assert(names(r@)[j] == r@[j]@);
                assert(r@[j] == r0[j]);
                assert(names(r0)[j] == r0[j]@);
            }
        }
        assert(names(r@) =~= names(v@).take(i + 1));
        i += 1;
    }
    assert(names(v@).take(v.len() as int) =~= names(v@));
    r
}

} // verus!
