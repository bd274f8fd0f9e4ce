//! Facts about a sequence of sections laid end to end, and about counting
//! occupied and empty slots.
use vstd::prelude::*;

verus! {

/// The sections of `s` laid end to end.
pub open spec fn flat<A>(s: Seq<Seq<A>>) -> Seq<A>
    decreases s.len(),
{
    if s.len() == 0 {
        Seq::empty()
    } else {
        flat(s.drop_last()) + s.last()
    }
}

/// Where section `k` starts in `flat(s)`.
pub open spec fn offset<A>(s: Seq<Seq<A>>, k: int) -> int {
    flat(s.take(k)).len() as int
}

pub proof fn lemma_flat_concat<A>(a: Seq<Seq<A>>, b: Seq<Seq<A>>)
    ensures
        flat(a + b) == flat(a) + flat(b),
    decreases b.len(),
{
    if b.len() == 0 {
        assert(a + b =~= a);
        assert(flat(b) =~= Seq::<A>::empty());
        assert(flat(a) + flat(b) =~= flat(a));
    } else {
        lemma_flat_concat(a, b.drop_last());
        assert((a + b).drop_last() =~= a + b.drop_last());
        assert((a + b).last() == b.last());
        assert(flat(a) + flat(b) =~= flat(a) + flat(b.drop_last()) + b.last());
    }
}

pub proof fn lemma_flat_single<A>(x: Seq<A>)
    ensures
        flat(seq![x]) == x,
{
    assert(seq![x].drop_last() =~= Seq::<Seq<A>>::empty());
    assert(flat(Seq::<Seq<A>>::empty()) + x =~= x);
}

/// `flat(s)` is the sections before `k`, then section `k`, then the rest.
pub proof fn lemma_flat_split<A>(s: Seq<Seq<A>>, k: int)
    requires
        0 <= k < s.len(),
    ensures
        flat(s) == flat(s.take(k)) + s[k] + flat(s.skip(k + 1)),
{
    assert(s =~= s.take(k) + seq![s[k]] + s.skip(k + 1));
    lemma_flat_concat(s.take(k) + seq![s[k]], s.skip(k + 1));
    lemma_flat_concat(s.take(k), seq![s[k]]);
    lemma_flat_single(s[k]);
}

pub proof fn lemma_flat_take_succ<A>(s: Seq<Seq<A>>, k: int)
    requires
        0 <= k < s.len(),
    ensures
        flat(s.take(k + 1)) == flat(s.take(k)) + s[k],
{
    assert(s.take(k + 1).drop_last() =~= s.take(k));
}

pub proof fn lemma_flat_len_take<A>(s: Seq<Seq<A>>, k: int)
    requires
        0 <= k <= s.len(),
    ensures
        offset(s, k) <= flat(s).len(),
{
    assert(s =~= s.take(k) + s.skip(k));
    lemma_flat_concat(s.take(k), s.skip(k));
}

/// Element `j` of section `k` sits at `offset(s, k) + j` in `flat(s)`.
pub proof fn lemma_flat_index<A>(s: Seq<Seq<A>>, k: int, j: int)
    requires
        0 <= k < s.len(),
        0 <= j < s[k].len(),
    ensures
        0 <= offset(s, k) + j < flat(s).len(),
        flat(s)[offset(s, k) + j] == s[k][j],
{
    lemma_flat_split(s, k);
}

/// Offsets only depend on section lengths.
pub proof fn lemma_flat_len_same<A>(s: Seq<Seq<A>>, t: Seq<Seq<A>>)
    requires
        s.len() == t.len(),
        forall|i: int| 0 <= i < s.len() ==> #[trigger] s[i].len() == t[i].len(),
    ensures
        flat(s).len() == flat(t).len(),
    decreases s.len(),
{
    if s.len() > 0 {
        lemma_flat_len_same(s.drop_last(), t.drop_last());
    }
}

pub proof fn lemma_offset_same<A>(s: Seq<Seq<A>>, t: Seq<Seq<A>>, k: int)
    requires
        s.len() == t.len(),
        0 <= k <= s.len(),
        forall|i: int| 0 <= i < s.len() ==> #[trigger] s[i].len() == t[i].len(),
    ensures
        offset(s, k) == offset(t, k),
{
    lemma_flat_len_same(s.take(k), t.take(k));
}

/// Writing element `j` of section `k` writes position `offset(s, k) + j` of the flat sequence.
pub proof fn lemma_flat_update<A>(s: Seq<Seq<A>>, k: int, j: int, v: A)
    requires
        0 <= k < s.len(),
        0 <= j < s[k].len(),
    ensures
        flat(s.update(k, s[k].update(j, v))) == flat(s).update(offset(s, k) + j, v),
        offset(s.update(k, s[k].update(j, v)), k) == offset(s, k),
{
    let t = s.update(k, s[k].update(j, v));
    lemma_flat_split(s, k);
    lemma_flat_split(t, k);
    assert(t.take(k) =~= s.take(k));
    assert(t.skip(k + 1) =~= s.skip(k + 1));
    assert(flat(t) =~= flat(s).update(offset(s, k) + j, v));
}

/// Replacing a whole section.
pub proof fn lemma_flat_replace<A>(s: Seq<Seq<A>>, k: int, x: Seq<A>)
    requires
        0 <= k < s.len(),
    ensures
        flat(s.update(k, x)) == flat(s.take(k)) + x + flat(s.skip(k + 1)),
{
    let t = s.update(k, x);
    lemma_flat_split(t, k);
    assert(t.take(k) =~= s.take(k));
    assert(t.skip(k + 1) =~= s.skip(k + 1));
}

/// Every position of `flat(s)` belongs to exactly one section.
pub proof fn lemma_flat_locate<A>(s: Seq<Seq<A>>, p: int) -> (kj: (int, int))
    requires
        0 <= p < flat(s).len(),
    ensures
        0 <= kj.0 < s.len(),
        0 <= kj.1 < s[kj.0].len(),
        p == offset(s, kj.0) + kj.1,
    decreases s.len(),
{
    let n = s.len() - 1;
    if p < flat(s.drop_last()).len() {
        let r = lemma_flat_locate(s.drop_last(), p);
        assert(s.drop_last().take(r.0) =~= s.take(r.0));
        r
    } else {
        assert(s.take(n) =~= s.drop_last());
        (n, p - flat(s.drop_last()).len())
    }
}

/// Offsets grow with the section index.
pub proof fn lemma_offset_mono<A>(s: Seq<Seq<A>>, k1: int, k2: int)
    requires
        0 <= k1 <= k2 <= s.len(),
    ensures
        offset(s, k1) + (if k1 < k2 { s[k1].len() as int } else { 0 }) <= offset(s, k2),
    decreases k2 - k1,
{
    if k1 < k2 {
        lemma_flat_take_succ(s, k1);
        lemma_offset_mono(s, k1 + 1, k2);
    }
}

/// Sections of bounded length give a bounded flat sequence.
pub proof fn lemma_flat_len_le<A>(s: Seq<Seq<A>>, m: int)
    requires
        0 <= m,
        forall|k: int| 0 <= k < s.len() ==> #[trigger] s[k].len() <= m,
    ensures
        flat(s).len() <= s.len() * m,
    decreases s.len(),
{
    if s.len() > 0 {
        lemma_flat_len_le(s.drop_last(), m);
        assert(s.drop_last().len() * m + m == s.len() * m) by (nonlinear_arith)
            requires s.drop_last().len() + 1 == s.len();
    }
}

// ----- counting -----

pub open spec fn count_some<T>(s: Seq<Option<T>>) -> nat
    decreases s.len(),
{
    if s.len() == 0 {
        0
    } else {
        count_some(s.drop_last()) + if s.last() is Some { 1nat } else { 0nat }
    }
}

pub open spec fn count_none<T>(s: Seq<Option<T>>) -> nat
    decreases s.len(),
{
    if s.len() == 0 {
        0
    } else {
        count_none(s.drop_last()) + if s.last() is None { 1nat } else { 0nat }
    }
}

pub proof fn lemma_count_total<T>(s: Seq<Option<T>>)
    ensures
        count_some(s) + count_none(s) == s.len(),
    decreases s.len(),
{
    if s.len() > 0 {
        lemma_count_total(s.drop_last());
    }
}

pub proof fn lemma_count_concat<T>(a: Seq<Option<T>>, b: Seq<Option<T>>)
    ensures
        count_some(a + b) == count_some(a) + count_some(b),
        count_none(a + b) == count_none(a) + count_none(b),
    decreases b.len(),
{
    if b.len() == 0 {
        assert(a + b =~= a);
    } else {
        lemma_count_concat(a, b.drop_last());
        assert((a + b).drop_last() =~= a + b.drop_last());
    }
}

pub proof fn lemma_count_update<T>(s: Seq<Option<T>>, p: int, v: Option<T>)
    requires
        0 <= p < s.len(),
    ensures
        count_some(s.update(p, v)) == count_some(s) - (if s[p] is Some { 1int } else { 0int }) + (
        if v is Some { 1int } else { 0int }),
        count_none(s.update(p, v)) == count_none(s) - (if s[p] is None { 1int } else { 0int }) + (
        if v is None { 1int } else { 0int }),
{
    let t = s.update(p, v);
    assert(s =~= s.take(p) + seq![s[p]] + s.skip(p + 1));
    assert(t =~= s.take(p) + seq![v] + s.skip(p + 1));
    lemma_count_concat(s.take(p) + seq![s[p]], s.skip(p + 1));
    lemma_count_concat(s.take(p), seq![s[p]]);
    lemma_count_concat(s.take(p) + seq![v], s.skip(p + 1));
    lemma_count_concat(s.take(p), seq![v]);
    assert(seq![s[p]].drop_last() =~= Seq::<Option<T>>::empty());
    assert(seq![v].drop_last() =~= Seq::<Option<T>>::empty());
}

pub proof fn lemma_count_push<T>(s: Seq<Option<T>>, v: Option<T>)
    ensures
        count_some(s.push(v)) == count_some(s) + (if v is Some { 1nat } else { 0nat }),
        count_none(s.push(v)) == count_none(s) + (if v is None { 1nat } else { 0nat }),
{
    assert(s.push(v).drop_last() =~= s);
}

pub proof fn lemma_count_none_all<T>(s: Seq<Option<T>>)
    requires
        forall|i: int| 0 <= i < s.len() ==> #[trigger] s[i] is None,
    ensures
        count_none(s) == s.len(),
        count_some(s) == 0,
    decreases s.len(),
{
    if s.len() > 0 {
        lemma_count_none_all(s.drop_last());
    }
}

/// A positive count of empty slots means an empty slot exists.
pub proof fn lemma_count_none_pos<T>(s: Seq<Option<T>>) -> (p: int)
    requires
        count_none(s) > 0,
    ensures
        0 <= p < s.len(),
        s[p] is None,
    decreases s.len(),
{
    if s.last() is None {
        s.len() - 1
    } else {
        lemma_count_none_pos(s.drop_last())
    }
}

} // verus!
