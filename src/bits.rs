use vstd::prelude::*;

verus! {

/// The word with only bit `p` set.
pub open spec fn bit(p: u8) -> u32 {
    1u32 << (p as u32)
}

/// The word whose bit `ps[i]` is set for every `i` with `on[i]`, and nothing else.
pub open spec fn bits_of(ps: Seq<u8>, on: Seq<bool>) -> u32
    decreases ps.len(),
{
    if ps.len() == 0 {
        0
    } else {
        let rest = bits_of(ps.drop_last(), on.drop_last());
        if on[ps.len() - 1] {
            rest | bit(ps.last())
        } else {
            rest
        }
    }
}

/// `n` switched-on levels.
pub open spec fn all_on(n: nat) -> Seq<bool> {
    Seq::new(n, |i: int| true)
}

/// The word with the bits at all of `ps` set.
pub open spec fn mask_of(ps: Seq<u8>) -> u32 {
    bits_of(ps, all_on(ps.len()))
}

/// Whether bit `p` of `w` is set.
pub open spec fn is_set(w: u32, p: u8) -> bool {
    w & bit(p) != 0
}

/// Every entry is below 32.
pub open spec fn all_below_32(ps: Seq<u8>) -> bool {
    forall|i: int| 0 <= i < ps.len() ==> #[trigger] ps[i] < 32
}

/// No two entries are equal.
pub open spec fn all_distinct(ps: Seq<u8>) -> bool {
    forall|i: int, j: int|
        0 <= i < ps.len() && 0 <= j < ps.len() && i != j ==> #[trigger] ps[i] != #[trigger] ps[j]
}

proof fn lemma_single_bits(p: u8, q: u8)
    requires
        p < 32,
        q < 32,
    ensures
        p != q ==> bit(p) & bit(q) == 0,
        bit(p) & bit(p) != 0,
{
    let (p32, q32) = (p as u32, q as u32);
    assert(p32 != q32 ==> (1u32 << p32) & (1u32 << q32) == 0) by (bit_vector)
        requires
            p32 < 32,
            q32 < 32,
    ;
    assert((1u32 << p32) & (1u32 << p32) != 0) by (bit_vector)
        requires
            p32 < 32,
    ;
}

proof fn lemma_or_and(x: u32, y: u32, m: u32)
    ensures
        ((x | y) & m != 0) <==> (x & m != 0 || y & m != 0),
        (m & (x | y) == 0) <==> (m & x == 0 && m & y == 0),
        x & m == m & x,
        0u32 & m == 0,
{
    assert(((x | y) & m != 0) <==> (x & m != 0 || y & m != 0)) by (bit_vector);
    assert((m & (x | y) == 0) <==> (m & x == 0 && m & y == 0)) by (bit_vector);
    assert(x & m == m & x) by (bit_vector);
    assert(0u32 & m == 0) by (bit_vector);
}

/// A bit that none of `ps` names is clear in `bits_of(ps, on)`.
pub proof fn lemma_bits_avoid(ps: Seq<u8>, on: Seq<bool>, q: u8)
    requires
        ps.len() == on.len(),
        all_below_32(ps),
        q < 32,
        forall|i: int| 0 <= i < ps.len() ==> #[trigger] ps[i] != q,
    ensures
        bits_of(ps, on) & bit(q) == 0,
    decreases ps.len(),
{
    if ps.len() > 0 {
        let n = ps.len() - 1;
        lemma_bits_avoid(ps.drop_last(), on.drop_last(), q);
        lemma_single_bits(ps[n], q);
        lemma_or_and(bits_of(ps.drop_last(), on.drop_last()), bit(ps[n]), bit(q));
    } else {
        lemma_or_and(0, 0, bit(q));
    }
}

/// Over distinct positions, bit `ps[k]` of `bits_of(ps, on)` is set exactly when `on[k]`.
pub proof fn lemma_bits_of_line(ps: Seq<u8>, on: Seq<bool>, k: int)
    requires
        ps.len() == on.len(),
        all_below_32(ps),
        all_distinct(ps),
        0 <= k < ps.len(),
    ensures
        is_set(bits_of(ps, on), ps[k]) == on[k],
    decreases ps.len(),
{
    let n = ps.len() - 1;
    let (rps, ron) = (ps.drop_last(), on.drop_last());
    let rest = bits_of(rps, ron);
    lemma_single_bits(ps[n], ps[k]);
    lemma_or_and(rest, bit(ps[n]), bit(ps[k]));
    if k == n {
        assert forall|i: int| 0 <= i < rps.len() implies #[trigger] rps[i] != ps[k] by {
            assert(ps[i] != ps[n]);
        }
        lemma_bits_avoid(rps, ron, ps[k]);
    } else {
        assert(ps[n] != ps[k]);
        lemma_bits_of_line(rps, ron, k);
    }
}

/// Words built over two position lists with no position in common share no bit.
pub proof fn lemma_bits_disjoint(xs: Seq<u8>, xon: Seq<bool>, ys: Seq<u8>, yon: Seq<bool>)
    requires
        xs.len() == xon.len(),
        ys.len() == yon.len(),
        all_below_32(xs),
        all_below_32(ys),
        forall|i: int, j: int|
            0 <= i < xs.len() && 0 <= j < ys.len() ==> #[trigger] xs[i] != #[trigger] ys[j],
    ensures
        bits_of(xs, xon) & bits_of(ys, yon) == 0,
    decreases ys.len(),
{
    let x = bits_of(xs, xon);
    if ys.len() == 0 {
        lemma_or_and(x, 0, 0);
        assert(x & 0 == 0) by (bit_vector);
    } else {
        let n = ys.len() - 1;
        lemma_bits_disjoint(xs, xon, ys.drop_last(), yon.drop_last());
        assert forall|i: int| 0 <= i < xs.len() implies #[trigger] xs[i] != ys[n] by {
            assert(xs[i] != ys[n]);
        }
        lemma_bits_avoid(xs, xon, ys[n]);
        lemma_or_and(bits_of(ys.drop_last(), yon.drop_last()), bit(ys[n]), x);
        lemma_or_and(x, bit(ys[n]), x);
    }
}

} // verus!
