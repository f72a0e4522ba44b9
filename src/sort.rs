use vstd::prelude::*;
use vstd::multiset::Multiset;

verus! {

#[derive(Debug, Clone, Copy, PartialEq, Eq, Structural)]
pub enum SortOrder {
    Asc,
    Desc,
}

/// One key of a sort specification: order by `field`, in direction `order`.
#[derive(Debug, Clone, Copy, PartialEq, Eq)]
pub struct SortSpec<F> {
    pub field: F,
    pub order: SortOrder,
}

impl<F> SortSpec<F> {
    pub fn new(field: F, order: SortOrder) -> (r: Self)
        ensures
            r.field == field,
            r.order == order,
    {
        SortSpec { field, order }
    }
}

/// A row type that can be ordered by each of its sortable fields `F`.
pub trait Sortable<F: Copy>: Sized {
    /// -1, 0 or 1 as `a` comes before, level with, or after `b` by field `f`.
    spec fn key_cmp(a: Self, b: Self, f: F) -> int;

    /// The comparison is a total preorder.
    proof fn lemma_key_cmp(a: Self, b: Self, c: Self, f: F)
        ensures
            -1 <= Self::key_cmp(a, b, f) <= 1,
            Self::key_cmp(a, b, f) == -Self::key_cmp(b, a, f),
            Self::key_cmp(a, b, f) <= 0 && Self::key_cmp(b, c, f) <= 0 ==> Self::key_cmp(a, c, f) <= 0,
            Self::key_cmp(a, b, f) < 0 && Self::key_cmp(b, c, f) <= 0 ==> Self::key_cmp(a, c, f) < 0,
            Self::key_cmp(a, b, f) <= 0 && Self::key_cmp(b, c, f) < 0 ==> Self::key_cmp(a, c, f) < 0,
    ;

    fn compare(&self, other: &Self, f: F) -> (r: i8)
        ensures
            r as int == Self::key_cmp(*self, *other, f),
    ;

    fn duplicate(&self) -> (r: Self)
        ensures
            r == *self,
    ;
}

pub open spec fn dir_cmp<F: Copy, T: Sortable<F>>(a: T, b: T, k: SortSpec<F>) -> int {
    match k.order {
        SortOrder::Asc => T::key_cmp(a, b, k.field),
        SortOrder::Desc => -T::key_cmp(a, b, k.field),
    }
}

/// `a` comes strictly before `b` under the keys `ks`, the first key deciding
/// and each later key breaking the ties of those before it.
pub open spec fn before<F: Copy, T: Sortable<F>>(a: T, b: T, ks: Seq<SortSpec<F>>) -> bool
    decreases ks.len(),
{
    if ks.len() == 0 {
        false
    } else {
        let c = dir_cmp(a, b, ks[0]);
        c < 0 || (c == 0 && before(a, b, ks.drop_first()))
    }
}

/// The keys of an optional sort specification; none where it is absent.
pub open spec fn keys_of<F>(sort: Option<Vec<SortSpec<F>>>) -> Seq<SortSpec<F>> {
    match sort {
        Some(v) => v@,
        None => Seq::empty(),
    }
}

/// No row is strictly before one that precedes it.
pub open spec fn is_sorted<F: Copy, T: Sortable<F>>(s: Seq<T>, ks: Seq<SortSpec<F>>) -> bool {
    forall|i: int, j: int| 0 <= i < j < s.len() ==> !before(#[trigger] s[j], #[trigger] s[i], ks)
}

/// Where a stable insertion puts `x` into `t`: after every row that `x` is not
/// strictly before.
pub open spec fn insert_point<F: Copy, T: Sortable<F>>(t: Seq<T>, x: T, ks: Seq<SortSpec<F>>) -> int {
    choose|p: int| is_insert_point(t, x, ks, p)
}

pub open spec fn is_insert_point<F: Copy, T: Sortable<F>>(t: Seq<T>, x: T, ks: Seq<SortSpec<F>>, p: int) -> bool {
    &&& 0 <= p <= t.len()
    &&& forall|q: int| 0 <= q < p ==> !before(x, #[trigger] t[q], ks)
    &&& p < t.len() ==> before(x, t[p], ks)
}

/// `s` ordered by `ks`, rows level on every key keeping their order in `s`.
pub open spec fn sorted_by<F: Copy, T: Sortable<F>>(s: Seq<T>, ks: Seq<SortSpec<F>>) -> Seq<T>
    decreases s.len(),
{
    if s.len() == 0 {
        s
    } else {
        let t = sorted_by(s.drop_last(), ks);
        t.insert(insert_point(t, s.last(), ks), s.last())
    }
}

proof fn lemma_dir_cmp<F: Copy, T: Sortable<F>>(a: T, b: T, c: T, k: SortSpec<F>)
    ensures
        dir_cmp(a, b, k) == -dir_cmp(b, a, k),
        dir_cmp(a, b, k) <= 0 && dir_cmp(b, c, k) <= 0 ==> dir_cmp(a, c, k) <= 0,
        dir_cmp(a, b, k) < 0 && dir_cmp(b, c, k) <= 0 ==> dir_cmp(a, c, k) < 0,
        dir_cmp(a, b, k) <= 0 && dir_cmp(b, c, k) < 0 ==> dir_cmp(a, c, k) < 0,
{
    T::lemma_key_cmp(a, b, c, k.field);
    T::lemma_key_cmp(c, b, a, k.field);
    T::lemma_key_cmp(a, c, b, k.field);
    T::lemma_key_cmp(b, a, c, k.field);
    T::lemma_key_cmp(c, a, b, k.field);
    T::lemma_key_cmp(b, c, a, k.field);
}

proof fn lemma_before_irreflexive<F: Copy, T: Sortable<F>>(a: T, ks: Seq<SortSpec<F>>)
    ensures
        !before(a, a, ks),
    decreases ks.len(),
{
    if ks.len() > 0 {
        lemma_dir_cmp(a, a, a, ks[0]);
        lemma_before_irreflexive(a, ks.drop_first());
    }
}

proof fn lemma_before_transitive<F: Copy, T: Sortable<F>>(a: T, b: T, c: T, ks: Seq<SortSpec<F>>)
    requires
        before(a, b, ks),
        before(b, c, ks),
    ensures
        before(a, c, ks),
    decreases ks.len(),
{
    lemma_dir_cmp(a, b, c, ks[0]);
    lemma_dir_cmp(c, b, a, ks[0]);
    if dir_cmp(a, b, ks[0]) == 0 && dir_cmp(b, c, ks[0]) == 0 {
        lemma_before_transitive(a, b, c, ks.drop_first());
    }
}

proof fn lemma_before_asymmetric<F: Copy, T: Sortable<F>>(a: T, b: T, ks: Seq<SortSpec<F>>)
    requires
        before(a, b, ks),
    ensures
        !before(b, a, ks),
{
    if before(b, a, ks) {
        lemma_before_transitive(a, b, a, ks);
        lemma_before_irreflexive(a, ks);
    }
}

proof fn lemma_insert_point<F: Copy, T: Sortable<F>>(t: Seq<T>, x: T, ks: Seq<SortSpec<F>>, p: int)
    requires
        is_insert_point(t, x, ks, p),
    ensures
        insert_point(t, x, ks) == p,
{
    let c = insert_point(t, x, ks);
    assert(is_insert_point(t, x, ks, c));
    if c < p {
        assert(!before(x, t[c], ks));
    } else if p < c {
        assert(!before(x, t[p], ks));
    }
}

proof fn lemma_find_point<F: Copy, T: Sortable<F>>(t: Seq<T>, x: T, ks: Seq<SortSpec<F>>, p: int) -> (r: int)
    requires
        0 <= p <= t.len(),
        forall|q: int| 0 <= q < p ==> !before(x, #[trigger] t[q], ks),
    ensures
        is_insert_point(t, x, ks, r),
    decreases t.len() - p,
{
    if p < t.len() && !before(x, t[p], ks) {
        lemma_find_point(t, x, ks, p + 1)
    } else {
        p
    }
}

/// `sorted_by` orders its rows by the keys and keeps every row, and with no key
/// it keeps the given order.
pub proof fn lemma_sorted_by<F: Copy, T: Sortable<F>>(s: Seq<T>, ks: Seq<SortSpec<F>>)
    ensures
        is_sorted(sorted_by(s, ks), ks),
        sorted_by(s, ks).to_multiset() == s.to_multiset(),
        ks.len() == 0 ==> sorted_by(s, ks) == s,
    decreases s.len(),
{
    if s.len() > 0 {
        let t = sorted_by(s.drop_last(), ks);
        let x = s.last();
        lemma_sorted_by(s.drop_last(), ks);
        let p = lemma_find_point(t, x, ks, 0);
        lemma_insert_point(t, x, ks, p);
        let r = t.insert(p, x);
        assert forall|i: int, j: int| 0 <= i < j < r.len() implies !before(#[trigger] r[j], #[trigger] r[i], ks) by {
            if j < p {
                assert(r[i] == t[i] && r[j] == t[j]);
            } else if j == p {
                assert(r[i] == t[i]);
            } else if i == p {
                assert(r[j] == t[j - 1]);
                assert(before(x, t[p], ks));
                if j - 1 > p {
                    assert(!before(t[j - 1], t[p], ks));
                    if before(t[j - 1], x, ks) {
                        lemma_before_transitive(t[j - 1], x, t[p], ks);
                    }
                } else {
                    lemma_before_asymmetric(x, t[p], ks);
                }
            } else if i < p {
                assert(r[i] == t[i] && r[j] == t[j - 1]);
            } else {
                assert(r[i] == t[i - 1] && r[j] == t[j - 1]);
            }
        }
        assert(t.subrange(0, p) + seq![x] + t.subrange(p, t.len() as int) =~= r);
        assert(t.subrange(0, p) + t.subrange(p, t.len() as int) =~= t);
        vstd::seq_lib::lemma_multiset_commutative(t.subrange(0, p), t.subrange(p, t.len() as int));
        vstd::seq_lib::lemma_multiset_commutative(t.subrange(0, p) + seq![x], t.subrange(p, t.len() as int));
        vstd::seq_lib::lemma_multiset_commutative(t.subrange(0, p), seq![x]);
        vstd::seq_lib::lemma_multiset_commutative(s.drop_last(), seq![x]);
        assert(s.drop_last() + seq![x] =~= s);
        assert(seq![x].to_multiset() =~= Multiset::singleton(x)) by {
            broadcast use vstd::seq_lib::group_to_multiset_ensures;
            assert(seq![x] =~= Seq::<T>::empty().push(x));
        }
        if ks.len() == 0 {
            assert(p == t.len());
            assert(r =~= s);
        }
    }
}

/// The first position `p` of `t` with `x` strictly before `t[p]`, else `t.len()`.
fn locate<F: Copy, T: Sortable<F>>(t: &Vec<T>, x: &T, ks: &Vec<SortSpec<F>>) -> (r: usize)
    ensures
        is_insert_point(t@, *x, ks@, r as int),
{
    let mut p: usize = 0;
    while p < t.len()
        invariant
            p <= t@.len(),
            forall|q: int| 0 <= q < p ==> !before(*x, #[trigger] t@[q], ks@),
        decreases t@.len() - p,
    {
        if precedes(x, &t[p], ks) {
            return p;
        }
        p = p + 1;
    }
    p
}

/// Whether `a` comes strictly before `b` under the keys `ks`.
pub fn precedes<F: Copy, T: Sortable<F>>(a: &T, b: &T, ks: &Vec<SortSpec<F>>) -> (r: bool)
    ensures
        r == before(*a, *b, ks@),
{
    let mut j: usize = 0;
    assert(ks@.subrange(0, ks@.len() as int) =~= ks@);
    while j < ks.len()
        invariant
            j <= ks@.len(),
            before(*a, *b, ks@) == before(*a, *b, ks@.subrange(j as int, ks@.len() as int)),
        decreases ks@.len() - j,
    {
        let k = ks[j];
        proof {
            T::lemma_key_cmp(*a, *b, *a, k.field);
            assert(ks@.subrange(j as int, ks@.len() as int).drop_first() =~= ks@.subrange(j + 1, ks@.len() as int));
        }
        let c = a.compare(b, k.field);
        let d: i8 = match k.order {
            SortOrder::Asc => c,
            SortOrder::Desc => -c,
        };
        if d < 0 {
            return true;
        }
        if d > 0 {
            return false;
        }
        j = j + 1;
    }
    false
}

/// The rows of `s` in the order `sorted_by` gives.
pub fn sort_rows<F: Copy, T: Sortable<F>>(s: &Vec<T>, ks: &Vec<SortSpec<F>>) -> (r: Vec<T>)
    ensures
        r@ == sorted_by(s@, ks@),
{
    let mut out: Vec<T> = Vec::new();
    let mut i: usize = 0;
    while i < s.len()
        invariant
            i <= s@.len(),
            out@ == sorted_by(s@.subrange(0, i as int), ks@),
        decreases s@.len() - i,
    {
        let x = s[i].duplicate();
        let p = locate(&out, &x, ks);
        proof {
            let pre = s@.subrange(0, i + 1);
            assert(pre.drop_last() =~= s@.subrange(0, i as int));
            lemma_insert_point(out@, x, ks@, p as int);
        }
        out.insert(p, x);
        i = i + 1;
    }
    assert(s@.subrange(0, s@.len() as int) =~= s@);
    out
}

} // verus!
