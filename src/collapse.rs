use crate::tiles::{kind_weight, weight, Catalog};
use vstd::prelude::*;
use vstd::set_lib::{lemma_int_range, set_int_range};

verus! {

/// The sum of a list of weights.
pub open spec fn total(ws: Seq<u64>) -> nat
    decreases ws.len(),
{
    if ws.len() == 0 {
        0
    } else {
        ws[0] as nat + total(ws.drop_first())
    }
}

/// The position that draw `r` selects: walking the list, the first
/// position whose running sum of weights exceeds `r`.
pub open spec fn chosen(ws: Seq<u64>, r: int) -> int
    decreases ws.len(),
{
    if ws.len() == 0 {
        0
    } else if r < ws[0] {
        0
    } else {
        1 + chosen(ws.drop_first(), r - ws[0])
    }
}

/// The sum of the weights before position `i`.
pub open spec fn prefix(ws: Seq<u64>, i: int) -> nat {
    total(ws.subrange(0, i))
}

/// The weights of the candidates of domain `d` by their kinds.
pub open spec fn kind_weights(cat: &Catalog, d: Seq<usize>) -> Seq<u64> {
    d.map_values(|t: usize| kind_weight(cat.tiles@[t as int].kind))
}

/// The weights a collapse of `d` draws with: those of the kinds, or one
/// for every candidate when all of those are zero.
pub open spec fn draw_weights(cat: &Catalog, d: Seq<usize>) -> Seq<u64> {
    if total(kind_weights(cat, d)) == 0 {
        d.map_values(|t: usize| 1u64)
    } else {
        kind_weights(cat, d)
    }
}

pub proof fn lemma_total_push(ws: Seq<u64>, w: u64)
    ensures
        total(ws.push(w)) == total(ws) + w,
    decreases ws.len(),
{
    if ws.len() > 0 {
        assert(ws.push(w).drop_first() =~= ws.drop_first().push(w));
        lemma_total_push(ws.drop_first(), w);
    } else {
        assert(ws.push(w).drop_first() =~= Seq::<u64>::empty());
        assert(total(Seq::<u64>::empty()) == 0);
    }
}

proof fn lemma_total_ones(d: Seq<usize>)
    ensures
        total(d.map_values(|t: usize| 1u64)) == d.len(),
    decreases d.len(),
{
    if d.len() > 0 {
        assert(d.map_values(|t: usize| 1u64).drop_first() =~= d.drop_first().map_values(|t: usize| 1u64));
        lemma_total_ones(d.drop_first());
    }
}

proof fn lemma_prefix_step(ws: Seq<u64>, i: int)
    requires
        0 <= i < ws.len(),
    ensures
        prefix(ws, i + 1) == prefix(ws, i) + ws[i],
{
    assert(ws.subrange(0, i + 1) =~= ws.subrange(0, i).push(ws[i]));
    lemma_total_push(ws.subrange(0, i), ws[i]);
}

proof fn lemma_prefix_front(ws: Seq<u64>, i: int)
    requires
        0 < i <= ws.len(),
    ensures
        prefix(ws, i) == ws[0] + prefix(ws.drop_first(), i - 1),
{
    assert(ws.subrange(0, i).drop_first() =~= ws.drop_first().subrange(0, i - 1));
}

proof fn lemma_prefix_le_total(ws: Seq<u64>, i: int)
    requires
        0 <= i <= ws.len(),
    ensures
        prefix(ws, i) <= total(ws),
    decreases ws.len(),
{
    if i == 0 {
    } else {
        lemma_prefix_front(ws, i);
        lemma_prefix_le_total(ws.drop_first(), i - 1);
    }
}

/// Draw `r` selects position `i` exactly when it lies in the interval of
/// `i`'s weight, which starts at the sum of the weights before `i`.
pub proof fn lemma_chosen_interval(ws: Seq<u64>, i: int, r: int)
    requires
        0 <= i < ws.len(),
        0 <= r < total(ws),
    ensures
        chosen(ws, r) == i <==> prefix(ws, i) <= r < prefix(ws, i) + ws[i],
    decreases ws.len(),
{
    if r < ws[0] {
        if i > 0 {
            lemma_prefix_front(ws, i);
        }
    } else {
        lemma_chosen_nonneg(ws.drop_first(), r - ws[0]);
        if i > 0 {
            lemma_prefix_front(ws, i);
            lemma_chosen_interval(ws.drop_first(), i - 1, r - ws[0]);
        }
    }
}

proof fn lemma_chosen_nonneg(ws: Seq<u64>, r: int)
    ensures
        chosen(ws, r) >= 0,
    decreases ws.len(),
{
    if ws.len() > 0 && r >= ws[0] {
        lemma_chosen_nonneg(ws.drop_first(), r - ws[0]);
    }
}

/// A draw below the total selects a position of positive weight.
pub proof fn lemma_chosen_in_range(ws: Seq<u64>, r: int)
    requires
        0 <= r < total(ws),
    ensures
        0 <= chosen(ws, r) < ws.len(),
        ws[chosen(ws, r)] > 0,
    decreases ws.len(),
{
    if r >= ws[0] {
        lemma_chosen_in_range(ws.drop_first(), r - ws[0]);
    }
}

/// Of the draws below the total, exactly `ws[i]` select position `i`: a
/// uniform draw picks each candidate with probability proportional to its
/// weight, and never one of weight zero.
pub proof fn lemma_weight_fidelity(ws: Seq<u64>, i: int)
    requires
        0 <= i < ws.len(),
    ensures
        Set::new(|r: int| 0 <= r < total(ws) && chosen(ws, r) == i).finite(),
        Set::new(|r: int| 0 <= r < total(ws) && chosen(ws, r) == i).len() == ws[i],
{
    let lo = prefix(ws, i) as int;
    let hi = lo + ws[i];
    lemma_prefix_step(ws, i);
    lemma_prefix_le_total(ws, i + 1);
    assert forall|r: int| #[trigger]
        set_int_range(lo, hi).contains(r) == (0 <= r < total(ws) && chosen(ws, r) == i) by {
        if 0 <= r < total(ws) {
            lemma_chosen_interval(ws, i, r);
        }
    }
    assert(Set::new(|r: int| 0 <= r < total(ws) && chosen(ws, r) == i) =~= set_int_range(lo, hi));
    lemma_int_range(lo, hi);
}

/// The sum of `ws`.
pub fn total_weight(ws: &Vec<u64>) -> (r: u128)
    ensures
        r == total(ws@),
{
    let mut acc: u128 = 0;
    let mut i: usize = 0;
    while i < ws.len()
        invariant
            i <= ws@.len(),
            acc == prefix(ws@, i as int),
            acc <= i * 0xFFFF_FFFF_FFFF_FFFFu128,
        decreases ws@.len() - i,
    {
        proof {
            lemma_prefix_step(ws@, i as int);
            assert(acc + ws@[i as int] <= (i + 1) * 0xFFFF_FFFF_FFFF_FFFFu128) by (nonlinear_arith)
                requires
                    acc <= i * 0xFFFF_FFFF_FFFF_FFFFu128,
                    ws@[i as int] <= 0xFFFF_FFFF_FFFF_FFFFu64,
            ;
            assert((i + 1) * 0xFFFF_FFFF_FFFF_FFFFu128 <= 0x1_0000_0000_0000_0000 * 0xFFFF_FFFF_FFFF_FFFFu128)
                by (nonlinear_arith)
                requires
                    i < 0x1_0000_0000_0000_0000int,
            ;
        }
        acc = acc + ws[i] as u128;
        i = i + 1;
    }
    assert(ws@.subrange(0, ws@.len() as int) =~= ws@);
    acc
}

/// The position that draw `r` selects from weights `ws`.
pub fn pick_weighted(ws: &Vec<u64>, r: u128) -> (i: usize)
    requires
        r < total(ws@),
    ensures
        i == chosen(ws@, r as int),
        i < ws@.len(),
        ws@[i as int] > 0,
{
    proof {
        lemma_chosen_in_range(ws@, r as int);
        assert(ws@.subrange(0, ws@.len() as int) =~= ws@);
    }
    let mut acc: u128 = 0;
    let mut i: usize = 0;
    while i < ws.len()
        invariant
            i <= ws@.len(),
            acc <= r,
            r - acc < total(ws@.subrange(i as int, ws@.len() as int)),
            chosen(ws@, r as int) == i + chosen(ws@.subrange(i as int, ws@.len() as int), r - acc),
        decreases ws@.len() - i,
    {
        let ghost rest = ws@.subrange(i as int, ws@.len() as int);
        assert(rest.drop_first() =~= ws@.subrange(i + 1, ws@.len() as int));
        if r - acc < ws[i] as u128 {
            return i;
        }
        acc = acc + ws[i] as u128;
        i = i + 1;
    }
    i
}

/// The weights a collapse of domain `d` draws with.
pub fn domain_weights(cat: &Catalog, d: &Vec<usize>) -> (r: Vec<u64>)
    requires
        forall|k: int| 0 <= k < d@.len() ==> d@[k] < cat.tiles@.len(),
    ensures
        r@ == draw_weights(cat, d@),
{
    let mut ws: Vec<u64> = Vec::new();
    let mut i: usize = 0;
    while i < d.len()
        invariant
            i <= d@.len(),
            forall|k: int| 0 <= k < d@.len() ==> d@[k] < cat.tiles@.len(),
            ws@ =~= kind_weights(cat, d@.subrange(0, i as int)),
        decreases d@.len() - i,
    {
        ws.push(weight(cat.tiles[d[i]].kind));
        i = i + 1;
        assert(ws@ =~= kind_weights(cat, d@.subrange(0, i as int)));
    }
    assert(d@.subrange(0, d@.len() as int) =~= d@);
    if total_weight(&ws) == 0 {
        let mut ones: Vec<u64> = Vec::new();
        let mut j: usize = 0;
        while j < d.len()
            invariant
                j <= d@.len(),
                ones@ =~= d@.subrange(0, j as int).map_values(|t: usize| 1u64),
            decreases d@.len() - j,
        {
            ones.push(1);
            j = j + 1;
            assert(ones@ =~= d@.subrange(0, j as int).map_values(|t: usize| 1u64));
        }
        ones
    } else {
        ws
    }
}

/// The number of distinct draws a collapse of `d` chooses among; positive
/// for a non-empty domain.
pub fn draw_bound(cat: &Catalog, d: &Vec<usize>) -> (r: u128)
    requires
        forall|k: int| 0 <= k < d@.len() ==> d@[k] < cat.tiles@.len(),
    ensures
        r == total(draw_weights(cat, d@)),
        d@.len() > 0 ==> r > 0,
{
    proof {
        lemma_total_ones(d@);
    }
    total_weight(&domain_weights(cat, d))
}

/// Pins domain `d` to the one candidate that draw `r` selects.
pub fn collapse_with(cat: &Catalog, d: &mut Vec<usize>, r: u128)
    requires
        forall|k: int| 0 <= k < old(d)@.len() ==> old(d)@[k] < cat.tiles@.len(),
        r < total(draw_weights(cat, old(d)@)),
    ensures
        final(d)@ == seq![old(d)@[chosen(draw_weights(cat, old(d)@), r as int)]],
        0 <= chosen(draw_weights(cat, old(d)@), r as int) < old(d)@.len(),
        draw_weights(cat, old(d)@)[chosen(draw_weights(cat, old(d)@), r as int)] > 0,
{
    let ws = domain_weights(cat, d);
    let i = pick_weighted(&ws, r);
    let t = d[i];
    *d = vec![t];
}

} // verus!
