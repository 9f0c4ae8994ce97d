//! Vectors: scalar products, lengths, similarities, the best one, and weighted averages.

use crate::arith::{follows_32, Arith32, Model32};
use crate::float::F32;
use crate::order::{
    law_ranking_is_a_permutation, law_ranking_is_stable, lemma_rank_order_is_total, rank_order,
    ranking, with_positions, Ranked,
};
use crate::vector::{
    argmax, best, blend, blended, contender, cosine_similarities, dot, dot_product, falling_key,
    falling_keys, first_best, l2_normalize, l2_normalize_rows, lemma_best_is_found,
    lemma_row_bounds, lemma_row_of_normalized, normalized, positive_parts, products, row,
    rows_normalized, select, similarities, strongest, total, weighted_topk_average, weights,
    Selection,
};
use vstd::prelude::*;

verus! {

/// The scalar product with a vector without components is the negative zero that sums start from.
pub proof fn law_scalar_product_starts_at_zero<A: Arith32>(
    arith: &A,
    m: Model32,
    a: &[F32],
    b: &[F32],
    r: F32,
)
    requires
        follows_32(arith, m),
        a@.len() == 0 || b@.len() == 0,
        call_ensures(dot_product::<A>, (a, b, arith), r),
    ensures
        r == (F32 { bits: 0x8000_0000 }),
{
    assert(r == dot(m, a@, b@));
}

/// One more component on both sides adds the product of the two, sign and all.
pub proof fn law_scalar_product_grows_by_the_signed_product<A: Arith32>(
    arith: &A,
    m: Model32,
    a: &[F32],
    b: &[F32],
    r: F32,
    x: F32,
    y: F32,
    longer_a: &[F32],
    longer_b: &[F32],
    s: F32,
)
    requires
        follows_32(arith, m),
        a@.len() == b@.len(),
        longer_a@ == a@.push(x),
        longer_b@ == b@.push(y),
        call_ensures(dot_product::<A>, (a, b, arith), r),
        call_ensures(dot_product::<A>, (longer_a, longer_b, arith), s),
    ensures
        s == (m.sum)(r, (m.product)(x, y)),
{
    assert(r == dot(m, a@, b@));
    assert(s == dot(m, longer_a@, longer_b@));
    assert(products(m, longer_a@, longer_b@).drop_last() =~= products(m, a@, b@));
}

/// The longer of two vectors counts as far as the shorter one reaches, on either side.
pub proof fn law_scalar_product_ends_with_the_shorter_vector<A: Arith32>(
    arith: &A,
    m: Model32,
    a: &[F32],
    b: &[F32],
    longer: &[F32],
    right: F32,
    right_longer: F32,
    left: F32,
    left_longer: F32,
)
    requires
        follows_32(arith, m),
        a@.len() == b@.len(),
        b@.is_prefix_of(longer@),
        call_ensures(dot_product::<A>, (a, b, arith), right),
        call_ensures(dot_product::<A>, (a, longer, arith), right_longer),
        call_ensures(dot_product::<A>, (b, a, arith), left),
        call_ensures(dot_product::<A>, (longer, a, arith), left_longer),
    ensures
        right == right_longer,
        left == left_longer,
{
    assert(right == dot(m, a@, b@));
    assert(right_longer == dot(m, a@, longer@));
    assert(left == dot(m, b@, a@));
    assert(left_longer == dot(m, longer@, a@));
    assert(products(m, a@, longer@) =~= products(m, a@, b@));
    assert(products(m, longer@, a@) =~= products(m, b@, a@));
}

/// Two values are opposite: numbers at mirrored places, or both no number.
pub open spec fn opposite(x: F32, y: F32) -> bool {
    ||| x.is_not_a_number() && y.is_not_a_number()
    ||| !x.is_not_a_number() && !y.is_not_a_number() && x.place() == -y.place()
}

/// The arithmetic is odd: opposite operands give opposite sums and products.
pub open spec fn is_odd(m: Model32) -> bool {
    &&& forall|a: F32, b: F32, c: F32, d: F32|
        opposite(a, c) && opposite(b, d) ==> opposite(
            #[trigger] (m.sum)(a, b),
            #[trigger] (m.sum)(c, d),
        )
    &&& forall|a: F32, b: F32, c: F32|
        opposite(b, c) ==> opposite(#[trigger] (m.product)(a, b), #[trigger] (m.product)(a, c))
}

proof fn lemma_opposite_totals(m: Model32, s: Seq<F32>, t: Seq<F32>)
    requires
        is_odd(m),
        s.len() == t.len(),
        forall|j: int| 0 <= j < s.len() ==> opposite(#[trigger] s[j], t[j]),
    ensures
        opposite(total(m, s), total(m, t)),
    decreases s.len(),
{
    if s.len() > 0 {
        let s1 = s.drop_last();
        let t1 = t.drop_last();
        assert forall|j: int| 0 <= j < s1.len() implies opposite(#[trigger] s1[j], t1[j]) by {
            assert(s1[j] == s[j]);
        }
        lemma_opposite_totals(m, s1, t1);
        assert(opposite(s[s.len() - 1], t[s.len() - 1]));
    }
}

/// Similarity has a sign: in an odd arithmetic the opposite query has the opposite similarity to
/// every row.
pub proof fn law_opposite_queries_have_opposite_similarities<A: Arith32>(
    arith: &A,
    m: Model32,
    rows: &[F32],
    query: &[F32],
    mirrored: &[F32],
    n: usize,
    d: usize,
    sims: Vec<F32>,
    mirrored_sims: Vec<F32>,
    i: int,
)
    requires
        follows_32(arith, m),
        is_odd(m),
        query@.len() == mirrored@.len(),
        forall|j: int| 0 <= j < query@.len() ==> opposite(#[trigger] query@[j], mirrored@[j]),
        call_ensures(cosine_similarities::<A>, (rows, query, n, d, arith), sims),
        call_ensures(cosine_similarities::<A>, (rows, mirrored, n, d, arith), mirrored_sims),
        0 <= i < n,
    ensures
        opposite(sims@[i], mirrored_sims@[i]),
{
    assert(sims@ == similarities(m, rows@, query@, n as nat, d as int));
    assert(mirrored_sims@ == similarities(m, rows@, mirrored@, n as nat, d as int));
    let r = row(rows@, i, d as int);
    let s = products(m, r, query@);
    let t = products(m, r, mirrored@);
    assert forall|j: int| 0 <= j < s.len() implies opposite(#[trigger] s[j], t[j]) by {
        assert(opposite(query@[j], mirrored@[j]));
        assert(s[j] == (m.product)(r[j], query@[j]));
        assert(t[j] == (m.product)(r[j], mirrored@[j]));
    }
    lemma_opposite_totals(m, s, t);
}

/// A similarity is the scalar product of a row with the query, for each of the rows in turn.
pub proof fn law_similarities_are_scalar_products<A: Arith32>(
    arith: &A,
    m: Model32,
    rows: &[F32],
    query: &[F32],
    n: usize,
    d: usize,
    sims: Vec<F32>,
    i: int,
    one_row: &[F32],
    r: F32,
)
    requires
        follows_32(arith, m),
        0 <= i < n,
        n * d <= rows@.len(),
        one_row@ == rows@.subrange(i * d, i * d + d),
        call_ensures(cosine_similarities::<A>, (rows, query, n, d, arith), sims),
        call_ensures(dot_product::<A>, (one_row, query, arith), r),
    ensures
        sims@.len() == n,
        sims@[i] == r,
{
    lemma_row_bounds(i, n as int, d as int);
    assert(sims@ == similarities(m, rows@, query@, n as nat, d as int));
    assert(r == dot(m, one_row@, query@));
}

/// A divided vector has each component divided by one and the same length: the square root of the
/// scalar product of the vector with itself, kept off zero by `1e-12`.
pub proof fn law_vectors_are_divided_by_their_length<A: Arith32>(
    arith: &A,
    m: Model32,
    v: &[F32],
    out: Vec<F32>,
    square: F32,
    i: int,
)
    requires
        follows_32(arith, m),
        call_ensures(l2_normalize::<A>, (v, arith), out),
        call_ensures(dot_product::<A>, (v, v, arith), square),
        0 <= i < v@.len(),
    ensures
        out@.len() == v@.len(),
        out@[i] == (m.quotient)(v@[i], (m.sum)((m.root)(square), F32 { bits: 0x2b8c_bccc })),
{
    assert(out@ == normalized(m, v@));
    assert(square == dot(m, v@, v@));
}

/// Rows are divided one by one: what stands at a row of the result is that row divided alone.
pub proof fn law_rows_are_divided_alone<A: Arith32>(
    arith: &A,
    m: Model32,
    rows: &[F32],
    n: usize,
    d: usize,
    out: Vec<F32>,
    i: int,
    one_row: &[F32],
    alone: Vec<F32>,
)
    requires
        follows_32(arith, m),
        0 <= i < n,
        n * d <= rows@.len(),
        one_row@ == rows@.subrange(i * d, i * d + d),
        call_ensures(l2_normalize_rows::<A>, (rows, n, d, arith), out),
        call_ensures(l2_normalize::<A>, (one_row, arith), alone),
    ensures
        out@.len() == n * d,
        out@.subrange(i * d, i * d + d) == alone@,
{
    lemma_row_bounds(i, n as int, d as int);
    assert(out@ == rows_normalized(m, rows@, n as nat, d as int));
    assert(alone@ == normalized(m, one_row@));
    lemma_row_of_normalized(m, rows@, n as nat, d as nat, i);
}

/// The best similarity is the largest number in the list and the first of equals; where nothing is
/// above negative infinity it is zero, at place 0.
pub proof fn law_best_similarity_is_the_first_largest(sims: &[F32], r: (usize, F32), j: int)
    requires
        call_ensures(argmax, (sims,), r),
        0 <= j < sims@.len(),
    ensures
        ({
            let lowest = F32 { bits: 0xff80_0000 };
            let some = exists|i: int| 0 <= i < sims@.len() && lowest.below(#[trigger] sims@[i]);
            &&& some ==> r.0 < sims@.len() && r.1 == sims@[r.0 as int] && !r.1.is_not_a_number()
            &&& some ==> !r.1.below(sims@[j])
            &&& some && j < r.0 ==> !sims@[j].same_number(r.1)
            &&& !some ==> r == (0usize, F32 { bits: 0 })
        }),
{
    lemma_best_is_found(sims@);
    let lowest = F32 { bits: 0xff80_0000 };
    if exists|i: int| 0 <= i < sims@.len() && lowest.below(#[trigger] sims@[i]) {
        let i = choose|i: int| 0 <= i < sims@.len() && lowest.below(#[trigger] sims@[i]);
        assert(contender(sims@[i]));
        assert(first_best(sims@, best(sims@).0));
        if lowest.below(sims@[j]) {
            assert(contender(sims@[j]));
        }
    } else {
        assert forall|i: int| !first_best(sims@, i) by {
            if first_best(sims@, i) {
                assert(lowest.below(sims@[i]));
            }
        }
    }
}

/// The best similarity of nothing is zero, at place 0.
pub proof fn law_best_similarity_of_nothing(sims: &[F32], r: (usize, F32))
    requires
        call_ensures(argmax, (sims,), r),
        sims@.len() == 0,
    ensures
        r == (0usize, F32 { bits: 0 }),
{
}

/// A selection is a miss exactly when the best similarity is below the threshold; otherwise it is
/// the best row alone where one row comes to be used, and as many rows as are asked for and there
/// where it is another number.
pub proof fn law_selection_gates_and_counts(
    sims: &[F32],
    k: usize,
    tau: F32,
    b: (usize, F32),
    r: Selection,
)
    requires
        call_ensures(argmax, (sims,), b),
        call_ensures(select, (sims, k, tau), r),
    ensures
        b.1.below(tau) ==> r == (Selection::Miss { best_sim: b.1 }),
        !b.1.below(tau) && sims@.len() > 0 && (k <= 1 || sims@.len() == 1) ==> r == (
        Selection::Single { row: b.0, best_sim: b.1 }),
        !b.1.below(tau) && 1 < k < sims@.len() ==> r == (Selection::Blend {
            count: k,
            best_sim: b.1,
        }),
        !b.1.below(tau) && 1 < sims@.len() <= k ==> r == (Selection::Blend {
            count: sims@.len() as usize,
            best_sim: b.1,
        }),
        !b.1.below(tau) && sims@.len() == 0 ==> r == (Selection::Blend {
            count: 0,
            best_sim: b.1,
        }),
{
}

/// How a weighted average comes about: the rows that are used, strongest first, what each of them
/// weighs before and after scaling, and the running sums.
pub struct Ledger {
    pub top: Seq<int>,
    pub parts: Seq<F32>,
    pub part_sums: Seq<F32>,
    pub shares: Seq<F32>,
    pub sums: Seq<Seq<F32>>,
}

/// Row `i` goes before row `j`: it is more similar, or as similar and earlier; a similarity that is
/// no number goes last.
pub open spec fn goes_before(sims: Seq<F32>, i: int, j: int) -> bool {
    if sims[i].is_not_a_number() || sims[j].is_not_a_number() {
        sims[j].is_not_a_number() && (!sims[i].is_not_a_number() || i < j)
    } else {
        sims[j].place() < sims[i].place() || (sims[i].place() == sims[j].place() && i < j)
    }
}

/// The ledger accounts for the average of the `k` most similar rows.
pub open spec fn accounts_for(
    m: Model32,
    sims: Seq<F32>,
    outputs: Seq<F32>,
    k: usize,
    d: nat,
    out: Seq<F32>,
    l: Ledger,
) -> bool {
    let used = if k < sims.len() {
        k as int
    } else {
        sims.len() as int
    };
    let whole = l.part_sums[used];
    &&& l.top.len() == used
    &&& forall|t: int| 0 <= t < used ==> 0 <= #[trigger] l.top[t] < sims.len()
    &&& forall|t: int, u: int|
        0 <= t < u < used ==> goes_before(sims, #[trigger] l.top[t], #[trigger] l.top[u])
    &&& forall|t: int, i: int|
        #![trigger l.top[t], sims[i]]
        0 <= t < used && 0 <= i < sims.len() && !l.top.contains(i) ==> goes_before(
            sims,
            l.top[t],
            i,
        )
    &&& l.parts.len() == used
    &&& forall|t: int|
        0 <= t < used ==> #[trigger] l.parts[t] == (if (F32 { bits: 0 }).below(sims[l.top[t]]) {
            sims[l.top[t]]
        } else {
            F32 { bits: 0 }
        })
    &&& l.part_sums.len() == used + 1
    &&& l.part_sums[0] == (F32 { bits: 0x8000_0000 })
    &&& forall|t: int|
        0 <= t < used ==> l.part_sums[t + 1] == (m.sum)(l.part_sums[t], #[trigger] l.parts[t])
    &&& l.shares.len() == used
    &&& forall|t: int|
        0 <= t < used ==> #[trigger] l.shares[t] == (if (F32 { bits: 0x2b8c_bccc }).below(whole) {
            (m.quotient)(l.parts[t], whole)
        } else {
            (m.quotient)(F32 { bits: 0x3f80_0000 }, (m.from_count)(k))
        })
    &&& l.sums.len() == d
    &&& forall|j: int|
        0 <= j < d ==> {
            &&& (#[trigger] l.sums[j]).len() == used + 1
            &&& l.sums[j][0] == (F32 { bits: 0 })
            &&& l.sums[j][used] == out[j]
        }
    &&& forall|j: int, t: int|
        #![trigger l.sums[j], l.top[t]]
        0 <= j < d && 0 <= t < used ==> l.sums[j][t + 1] == (m.sum)(
            l.sums[j][t],
            (m.product)(outputs[l.top[t] * d + j], l.shares[t]),
        )
    &&& out.len() == d
}

/// The ledger of an average.
pub open spec fn ledger_of(
    m: Model32,
    sims: Seq<F32>,
    outputs: Seq<F32>,
    k: usize,
    d: nat,
) -> Ledger {
    let top = strongest(sims, k as int);
    let parts = positive_parts(sims, top);
    let w = weights(m, sims, top, k);
    Ledger {
        top: top.map_values(|t: Ranked| t.1 as int),
        parts,
        part_sums: Seq::new(top.len() + 1, |t: int| total(m, parts.take(t))),
        shares: w,
        sums: Seq::new(
            d,
            |j: int|
                Seq::new(
                    top.len() + 1,
                    |t: int| blend(m, outputs, top, w, d as int, j, t as nat),
                ),
        ),
    }
}

/// An average is made of exactly the most similar rows, as many as are asked for and there: each
/// weighs its positive similarity in proportion, or one part in `k` where these sum to nothing,
/// and each component is the sum of the rows' components times their shares.
pub proof fn law_average_is_of_the_most_similar_rows<A: Arith32>(
    arith: &A,
    m: Model32,
    sims: &[F32],
    outputs: &[F32],
    k: usize,
    d: usize,
    out: Vec<F32>,
)
    requires
        follows_32(arith, m),
        call_ensures(weighted_topk_average::<A>, (sims, outputs, k, d, arith), out),
    ensures
        exists|l: Ledger| accounts_for(m, sims@, outputs@, k, d as nat, out@, l),
{
    assert(sims.len() == sims@.len());
    let keys = falling_keys(sims@);
    law_ranking_is_a_permutation(keys);
    let order = ranking(keys);
    let top = strongest(sims@, k as int);
    let used = top.len() as int;
    let parts = positive_parts(sims@, top);
    let w = weights(m, sims@, top, k);
    let l = ledger_of(m, sims@, outputs@, k, d as nat);
    assert(out@ == blended(m, sims@, outputs@, k, d as nat));
    assert forall|t: int| 0 <= t < used implies 0 <= #[trigger] l.top[t] < sims@.len() by {
        assert(top[t] == order[t]);
    }
    assert forall|t: int, u: int| 0 <= t < u < sims@.len() implies goes_before(
        sims@,
        (#[trigger] order[t]).1 as int,
        (#[trigger] order[u]).1 as int,
    ) by {
        law_ranking_is_stable(keys, t, u);
        assert(order[t].0 == falling_key(sims@[order[t].1 as int]));
        assert(order[u].0 == falling_key(sims@[order[u].1 as int]));
    }
    assert forall|t: int, u: int| 0 <= t < u < used implies goes_before(
        sims@,
        #[trigger] l.top[t],
        #[trigger] l.top[u],
    ) by {
        assert(top[t] == order[t] && top[u] == order[u]);
    }
    assert forall|t: int, i: int|
        #![trigger l.top[t], sims@[i]]
        0 <= t < used && 0 <= i < sims@.len() && !l.top.contains(i) implies goes_before(
        sims@,
        l.top[t],
        i,
    ) by {
        lemma_every_row_is_ranked(keys, i);
        let u = choose|u: int| 0 <= u < keys.len() && (#[trigger] order[u]).1 == i;
        if u < used {
            assert(l.top[u] == i);
        }
        assert(top[t] == order[t]);
    }
    assert forall|t: int| 0 <= t < used implies l.part_sums[t + 1] == (m.sum)(
        l.part_sums[t],
        #[trigger] l.parts[t],
    ) by {
        assert(parts.take(t + 1).drop_last() =~= parts.take(t));
    }
    assert(parts.take(used) =~= parts);
    assert(parts.take(0) =~= Seq::empty());
    assert forall|j: int, t: int|
        #![trigger l.sums[j], l.top[t]]
        0 <= j < d && 0 <= t < used implies l.sums[j][t + 1] == (m.sum)(
        l.sums[j][t],
        (m.product)(outputs@[l.top[t] * d + j], l.shares[t]),
    ) by {
        assert(l.sums[j][t + 1] == blend(m, outputs@, top, w, d as int, j, (t + 1) as nat));
    }
    assert(accounts_for(m, sims@, outputs@, k, d as nat, out@, l));
}

/// Every position stands somewhere in a ranking.
proof fn lemma_every_row_is_ranked(keys: Seq<i64>, i: int)
    requires
        keys.len() <= usize::MAX,
        0 <= i < keys.len(),
    ensures
        exists|u: int| 0 <= u < keys.len() && (#[trigger] ranking(keys)[u]).1 == i,
{
    broadcast use vstd::seq_lib::group_to_multiset_ensures;

    let pairs = with_positions(keys);
    lemma_rank_order_is_total();
    pairs.lemma_sort_by_ensures(rank_order());
    law_ranking_is_a_permutation(keys);
    assert(pairs[i] == (keys[i], i as usize));
    assert(pairs.contains(pairs[i]));
    assert(pairs.to_multiset().count(pairs[i]) > 0);
    assert(ranking(keys).to_multiset().count(pairs[i]) > 0);
    let u = choose|u: int| 0 <= u < ranking(keys).len() && ranking(keys)[u] == pairs[i];
    assert(ranking(keys)[u].1 == i);
}

/// Two lists of outputs agree on a row.
pub open spec fn agree_on_row(a: Seq<F32>, b: Seq<F32>, i: int, d: nat) -> bool {
    forall|c: int| #![trigger a[i * d + c]] 0 <= c < d ==> a[i * d + c] == b[i * d + c]
}

proof fn lemma_blends_agree(
    m: Model32,
    a: Seq<F32>,
    b: Seq<F32>,
    top: Seq<Ranked>,
    w: Seq<F32>,
    d: nat,
    j: int,
    count: nat,
)
    requires
        0 <= j < d,
        count <= top.len(),
        forall|t: int|
            0 <= t < top.len() ==> agree_on_row(a, b, (#[trigger] top[t]).1 as int, d),
    ensures
        blend(m, a, top, w, d as int, j, count) == blend(m, b, top, w, d as int, j, count),
    decreases count,
{
    if count > 0 {
        lemma_blends_agree(m, a, b, top, w, d, j, (count - 1) as nat);
        let i = top[count - 1].1 as int;
        assert(agree_on_row(a, b, i, d));
        assert(a[i * d + j] == b[i * d + j]);
    }
}

/// Averages agree where the outputs agree on the rows that are used.
pub proof fn lemma_averages_agree(
    m: Model32,
    sims: Seq<F32>,
    a: Seq<F32>,
    b: Seq<F32>,
    k: usize,
    d: nat,
)
    requires
        sims.len() <= usize::MAX,
        forall|rank: int|
            0 <= rank < k && rank < sims.len() ==> agree_on_row(
                a,
                b,
                (#[trigger] ranking(falling_keys(sims))[rank]).1 as int,
                d,
            ),
    ensures
        blended(m, sims, a, k, d) == blended(m, sims, b, k, d),
{
    let order = ranking(falling_keys(sims));
    law_ranking_is_a_permutation(falling_keys(sims));
    let top = strongest(sims, k as int);
    let w = weights(m, sims, top, k);
    assert forall|t: int| 0 <= t < top.len() implies agree_on_row(
        a,
        b,
        (#[trigger] top[t]).1 as int,
        d,
    ) by {
        assert(top[t] == order[t]);
    }
    assert forall|j: int| 0 <= j < d implies blended(m, sims, a, k, d)[j] == blended(
        m,
        sims,
        b,
        k,
        d,
    )[j] by {
        lemma_blends_agree(m, a, b, top, w, d, j, top.len());
    }
    assert(blended(m, sims, a, k, d) =~= blended(m, sims, b, k, d));
}

/// Rows that are left out have no influence: where two lists of outputs agree on every row that
/// fewer than `k` rows go before, they average to the same.
pub proof fn law_rows_left_out_have_no_influence<A: Arith32>(
    arith: &A,
    m: Model32,
    sims: &[F32],
    a: &[F32],
    b: &[F32],
    k: usize,
    d: usize,
    out: Vec<F32>,
    other: Vec<F32>,
)
    requires
        follows_32(arith, m),
        forall|rank: int|
            0 <= rank < k && rank < sims@.len() ==> agree_on_row(
                a@,
                b@,
                (#[trigger] ranking(falling_keys(sims@))[rank]).1 as int,
                d as nat,
            ),
        call_ensures(weighted_topk_average::<A>, (sims, a, k, d, arith), out),
        call_ensures(weighted_topk_average::<A>, (sims, b, k, d, arith), other),
    ensures
        out@ == other@,
{
    assert(sims.len() == sims@.len());
    assert(out@ == blended(m, sims@, a@, k, d as nat));
    assert(other@ == blended(m, sims@, b@, k, d as nat));
    lemma_averages_agree(m, sims@, a@, b@, k, d as nat);
}

} // verus!
