//! The vector mathematics of a nearest-neighbour lookup.

use crate::arith::{
    computes_functions_32, follows_32, law_functions_follow_a_model_32, Arith32, Model32,
};
use crate::float::{
    negative_infinity_32, negative_zero_32, one_32, zero_32, F32, NEGATIVE_INFINITY_BITS_32,
    NEGATIVE_ZERO_BITS_32, ONE_BITS_32,
};
use crate::order::{law_ranking_is_a_permutation, law_ranking_is_stable, rank, ranking, Ranked};
use vstd::prelude::*;

verus! {

/// Encoding of the single-precision `1e-12`, which keeps a norm or a weight sum from being a
/// zero divisor.
pub const NORM_EPS_BITS: u32 = 0x2b8c_bccc;

pub open spec fn norm_eps() -> F32 {
    F32 { bits: NORM_EPS_BITS }
}

/// The sum of a list, from the left.
pub open spec fn total(m: Model32, s: Seq<F32>) -> F32
    decreases s.len(),
{
    if s.len() == 0 {
        negative_zero_32()
    } else {
        (m.sum)(total(m, s.drop_last()), s.last())
    }
}

/// The products of two lists, place by place, as far as both reach.
pub open spec fn products(m: Model32, a: Seq<F32>, b: Seq<F32>) -> Seq<F32> {
    Seq::new(
        if a.len() <= b.len() {
            a.len()
        } else {
            b.len()
        },
        |j: int| (m.product)(a[j], b[j]),
    )
}

/// The scalar product of two vectors.
pub open spec fn dot(m: Model32, a: Seq<F32>, b: Seq<F32>) -> F32 {
    total(m, products(m, a, b))
}

/// The length of a vector, kept off zero.
pub open spec fn norm(m: Model32, v: Seq<F32>) -> F32 {
    (m.sum)((m.root)(dot(m, v, v)), norm_eps())
}

/// A vector divided by its length.
pub open spec fn normalized(m: Model32, v: Seq<F32>) -> Seq<F32> {
    v.map_values(|x: F32| (m.quotient)(x, norm(m, v)))
}

/// Row `i` of a row-major matrix with rows of width `d`.
pub open spec fn row(matrix: Seq<F32>, i: int, d: int) -> Seq<F32> {
    matrix.subrange(i * d, (i + 1) * d)
}

/// The first `n` rows, each divided by its own length.
pub open spec fn rows_normalized(m: Model32, rows: Seq<F32>, n: nat, d: int) -> Seq<F32>
    decreases n,
{
    if n == 0 {
        Seq::empty()
    } else {
        rows_normalized(m, rows, (n - 1) as nat, d) + normalized(m, row(rows, n - 1, d))
    }
}

/// The scalar products of the first `n` rows with a query.
pub open spec fn similarities(
    m: Model32,
    rows: Seq<F32>,
    query: Seq<F32>,
    n: nat,
    d: int,
) -> Seq<F32> {
    Seq::new(n, |i: int| dot(m, row(rows, i, d), query))
}

/// A row of a buffer lies within it.
pub proof fn lemma_row_bounds(i: int, n: int, d: int)
    requires
        0 <= i < n,
        0 <= d,
    ensures
        0 <= i * d <= (i + 1) * d <= n * d,
        (i + 1) * d == i * d + d,
{
    assert(0 <= i * d <= (i + 1) * d <= n * d && (i + 1) * d == i * d + d) by (nonlinear_arith)
        requires
            0 <= i < n,
            0 <= d,
    ;
}

/// Row `i` of rows divided by their lengths is row `i` divided by its length.
pub proof fn lemma_row_of_normalized(m: Model32, rows: Seq<F32>, n: nat, d: nat, i: int)
    requires
        0 <= i < n,
        n * d <= rows.len(),
    ensures
        rows_normalized(m, rows, n, d as int).len() == n * d,
        row(rows_normalized(m, rows, n, d as int), i, d as int) == normalized(
            m,
            row(rows, i, d as int),
        ),
    decreases n,
{
    let shorter = rows_normalized(m, rows, (n - 1) as nat, d as int);
    let last = normalized(m, row(rows, n - 1, d as int));
    lemma_row_bounds(n - 1, n as int, d as int);
    lemma_row_bounds(i, n as int, d as int);
    assert(last.len() == d);
    if n > 1 {
        lemma_row_of_normalized(
            m,
            rows,
            (n - 1) as nat,
            d,
            if i < n - 1 {
                i
            } else {
                0
            },
        );
    } else {
        assert(0 * d == 0) by (nonlinear_arith);
    }
    assert(shorter.len() == (n - 1) * d);
    if i < n - 1 {
        lemma_row_bounds(i, n - 1, d as int);
        assert(row(shorter + last, i, d as int) =~= row(shorter, i, d as int));
    } else {
        assert(row(shorter + last, i, d as int) =~= last);
    }
}

/// Sums a list from the left.
fn sum_all<A: Arith32>(s: &Vec<F32>, arith: &A) -> (r: F32)
    ensures
        forall|m: Model32| #[trigger] follows_32(arith, m) ==> r == total(m, s@),
{
    let mut acc = F32 { bits: NEGATIVE_ZERO_BITS_32 };
    let mut i: usize = 0;
    while i < s.len()
        invariant
            0 <= i <= s.len(),
            forall|m: Model32| #[trigger]
                follows_32(arith, m) ==> acc == total(m, s@.take(i as int)),
        decreases s.len() - i,
    {
        assert(s@.take(i + 1).drop_last() =~= s@.take(i as int));
        acc = arith.sum(acc, s[i]);
        i = i + 1;
    }
    assert(s@.take(s.len() as int) =~= s@);
    acc
}

/// In every model of the arithmetic `r` is the scalar product of the vectors.
pub open spec fn multiplies<A: Arith32>(arith: &A, a: Seq<F32>, b: Seq<F32>, r: F32) -> bool {
    forall|m: Model32| #[trigger] follows_32(arith, m) ==> r == dot(m, a, b)
}

/// The scalar product of two vectors, as far as both reach.
pub fn dot_product<A: Arith32>(a: &[F32], b: &[F32], arith: &A) -> (r: F32)
    ensures
        multiplies(arith, a@, b@, r),
{
    let n: usize = if a.len() <= b.len() {
        a.len()
    } else {
        b.len()
    };
    let mut acc = F32 { bits: NEGATIVE_ZERO_BITS_32 };
    let mut i: usize = 0;
    while i < n
        invariant
            0 <= i <= n,
            n == (if a.len() <= b.len() {
                a.len()
            } else {
                b.len()
            }),
            forall|m: Model32| #[trigger]
                follows_32(arith, m) ==> acc == total(m, products(m, a@, b@).take(i as int)),
        decreases n - i,
    {
        let p = arith.product(a[i], b[i]);
        proof {
            assert forall|m: Model32| #[trigger] follows_32(arith, m) implies products(
                m,
                a@,
                b@,
            ).take(i + 1).drop_last() == products(m, a@, b@).take(i as int) && products(
                m,
                a@,
                b@,
            ).take(i + 1).last() == p by {
                assert(products(m, a@, b@).take(i + 1).drop_last() =~= products(m, a@, b@).take(
                    i as int,
                ));
            }
        }
        acc = arith.sum(acc, p);
        i = i + 1;
    }
    proof {
        assert forall|m: Model32| #[trigger] follows_32(arith, m) implies acc == dot(m, a@, b@) by {
            assert(products(m, a@, b@).take(n as int) =~= products(m, a@, b@));
        }
    }
    acc
}

/// In every model of the arithmetic `out` is `v` divided by its length.
pub open spec fn divides<A: Arith32>(arith: &A, v: Seq<F32>, out: Seq<F32>) -> bool {
    forall|m: Model32| #[trigger] follows_32(arith, m) ==> out == normalized(m, v)
}

/// In every model of the arithmetic `out` is the first `n` rows, each divided by its own length.
pub open spec fn divides_rows<A: Arith32>(
    arith: &A,
    rows: Seq<F32>,
    n: nat,
    d: int,
    out: Seq<F32>,
) -> bool {
    forall|m: Model32| #[trigger] follows_32(arith, m) ==> out == rows_normalized(m, rows, n, d)
}

/// Divides a vector by its length.
pub fn l2_normalize<A: Arith32>(v: &[F32], arith: &A) -> (out: Vec<F32>)
    ensures
        out.len() == v.len(),
        divides(arith, v@, out@),
{
    let length = arith.sum(arith.root(dot_product(v, v, arith)), F32 { bits: NORM_EPS_BITS });
    let mut out: Vec<F32> = Vec::new();
    let mut i: usize = 0;
    while i < v.len()
        invariant
            0 <= i <= v.len(),
            out.len() == i,
            forall|m: Model32| #[trigger] follows_32(arith, m) ==> length == norm(m, v@),
            forall|m: Model32| #[trigger]
                follows_32(arith, m) ==> out@ == normalized(m, v@).take(i as int),
        decreases v.len() - i,
    {
        let ghost before = out@;
        out.push(arith.quotient(v[i], length));
        proof {
            assert forall|m: Model32| #[trigger] follows_32(arith, m) implies out@ == normalized(
                m,
                v@,
            ).take(i + 1) by {
                assert(before == normalized(m, v@).take(i as int));
                assert(out@ =~= normalized(m, v@).take(i + 1));
            }
        }
        i = i + 1;
    }
    proof {
        assert forall|m: Model32| #[trigger] follows_32(arith, m) implies out@ == normalized(
            m,
            v@,
        ) by {
            assert(normalized(m, v@).take(v.len() as int) =~= normalized(m, v@));
        }
    }
    out
}

/// Divides each of `n` consecutive vectors of width `d` by its own length.
pub fn l2_normalize_rows<A: Arith32>(rows: &[F32], n: usize, d: usize, arith: &A) -> (out: Vec<F32>)
    requires
        n * d <= rows.len(),
    ensures
        out.len() == n * d,
        divides_rows(arith, rows@, n as nat, d as int, out@),
{
    let mut out: Vec<F32> = Vec::new();
    let mut i: usize = 0;
    let mut start: usize = 0;
    assert(0 * d == 0) by (nonlinear_arith);
    while i < n
        invariant
            0 <= i <= n,
            start == i * d,
            n * d <= rows.len(),
            out.len() == i * d,
            forall|m: Model32| #[trigger]
                follows_32(arith, m) ==> out@ == rows_normalized(m, rows@, i as nat, d as int),
        decreases n - i,
    {
        proof {
            lemma_row_bounds(i as int, n as int, d as int);
        }
        let end: usize = start + d;
        let mut part = l2_normalize(vstd::slice::slice_subrange(rows, start, end), arith);
        assert(rows@.subrange(start as int, end as int) == row(rows@, i as int, d as int));
        let ghost before = out@;
        let ghost added = part@;
        out.append(&mut part);
        proof {
            assert(out@ =~= before + added);
            assert forall|m: Model32| #[trigger] follows_32(arith, m) implies out@
                == rows_normalized(m, rows@, (i + 1) as nat, d as int) by {
                assert(before == rows_normalized(m, rows@, i as nat, d as int));
                assert(added == normalized(m, row(rows@, i as int, d as int)));
            }
        }
        start = end;
        i = i + 1;
    }
    out
}

/// In every model of the arithmetic `sims` are the scalar products of the rows with the query.
pub open spec fn compares<A: Arith32>(
    arith: &A,
    rows: Seq<F32>,
    query: Seq<F32>,
    n: nat,
    d: int,
    sims: Seq<F32>,
) -> bool {
    forall|m: Model32| #[trigger]
        follows_32(arith, m) ==> sims == similarities(m, rows, query, n, d)
}

/// The similarities of `n` rows of width `d` with a query; all are of length one.
pub fn cosine_similarities<A: Arith32>(
    rows_normed: &[F32],
    q_normed: &[F32],
    n: usize,
    d: usize,
    arith: &A,
) -> (sims: Vec<F32>)
    requires
        n * d <= rows_normed.len(),
    ensures
        sims.len() == n,
        compares(arith, rows_normed@, q_normed@, n as nat, d as int, sims@),
{
    let mut sims: Vec<F32> = Vec::new();
    let mut i: usize = 0;
    let mut start: usize = 0;
    assert(0 * d == 0) by (nonlinear_arith);
    while i < n
        invariant
            0 <= i <= n,
            start == i * d,
            n * d <= rows_normed.len(),
            sims.len() == i,
            forall|m: Model32, j: int|
                follows_32(arith, m) && 0 <= j < i ==> sims@[j] == #[trigger] dot(
                    m,
                    row(rows_normed@, j, d as int),
                    q_normed@,
                ),
        decreases n - i,
    {
        proof {
            lemma_row_bounds(i as int, n as int, d as int);
        }
        let end: usize = start + d;
        let s = dot_product(vstd::slice::slice_subrange(rows_normed, start, end), q_normed, arith);
        assert(rows_normed@.subrange(start as int, end as int) == row(
            rows_normed@,
            i as int,
            d as int,
        ));
        sims.push(s);
        start = end;
        i = i + 1;
    }
    proof {
        assert forall|m: Model32| #[trigger] follows_32(arith, m) implies sims@ == similarities(
            m,
            rows_normed@,
            q_normed@,
            n as nat,
            d as int,
        ) by {
            assert(sims@ =~= similarities(m, rows_normed@, q_normed@, n as nat, d as int));
        }
    }
    sims
}

/// A similarity that can be the best one: a number above negative infinity.
pub open spec fn contender(x: F32) -> bool {
    negative_infinity_32().below(x)
}

/// Place `i` holds the largest contender, and no earlier place holds an equal one.
pub open spec fn first_best(sims: Seq<F32>, i: int) -> bool {
    &&& 0 <= i < sims.len()
    &&& contender(sims[i])
    &&& forall|j: int|
        0 <= j < sims.len() && contender(#[trigger] sims[j]) ==> sims[j].place() <= sims[i].place()
            && (j < i ==> sims[j].place() < sims[i].place())
}

/// The place of the best similarity and its value; place 0 and zero where there is no contender.
pub open spec fn best(sims: Seq<F32>) -> (int, F32) {
    if exists|i: int| first_best(sims, i) {
        let i = choose|i: int| first_best(sims, i);
        (i, sims[i])
    } else {
        (0, zero_32())
    }
}

/// At most one place is the first best.
proof fn lemma_first_best_is_unique(sims: Seq<F32>, i: int, j: int)
    requires
        first_best(sims, i),
        first_best(sims, j),
    ensures
        i == j,
{
    assert(contender(sims[i]) && contender(sims[j]));
}

/// Where there is a contender the best similarity is the first largest one, and in any case its
/// place is in the list, or 0.
pub proof fn lemma_best_is_found(sims: Seq<F32>)
    ensures
        (exists|i: int| 0 <= i < sims.len() && contender(#[trigger] sims[i])) ==> first_best(
            sims,
            best(sims).0,
        ) && best(sims).1 == sims[best(sims).0],
        best(sims).0 == 0 || 0 <= best(sims).0 < sims.len(),
    decreases sims.len(),
{
    if exists|i: int| 0 <= i < sims.len() && contender(#[trigger] sims[i]) {
        let shorter = sims.drop_last();
        lemma_best_is_found(shorter);
        let last = sims.len() - 1;
        if exists|i: int| 0 <= i < shorter.len() && contender(#[trigger] shorter[i]) {
            let before = best(shorter).0;
            assert(first_best(shorter, before));
            if contender(sims[last]) && sims[last].place() > sims[before].place() {
                assert forall|j: int|
                    0 <= j < sims.len() && contender(#[trigger] sims[j]) implies sims[j].place()
                    <= sims[last].place() && (j < last ==> sims[j].place() < sims[last].place()) by {
                    if j < last {
                        assert(contender(shorter[j]));
                    }
                }
                assert(first_best(sims, last));
            } else {
                assert forall|j: int|
                    0 <= j < sims.len() && contender(#[trigger] sims[j]) implies sims[j].place()
                    <= sims[before].place() && (j < before ==> sims[j].place()
                    < sims[before].place()) by {
                    if j < last {
                        assert(contender(shorter[j]));
                    }
                }
                assert(first_best(sims, before));
            }
        } else {
            assert forall|j: int| 0 <= j < last implies !contender(#[trigger] sims[j]) by {
                assert(shorter[j] == sims[j]);
            }
            assert(first_best(sims, last));
        }
    }
}

/// The place and value of the best similarity.
pub fn argmax(sims: &[F32]) -> (r: (usize, F32))
    ensures
        r.0 == best(sims@).0,
        r.1 == best(sims@).1,
        sims.len() > 0 ==> r.0 < sims.len(),
        sims.len() == 0 ==> r == (0usize, zero_32()),
        !r.1.is_not_a_number(),
{
    let mut best_idx: usize = 0;
    let mut best_sim = F32 { bits: NEGATIVE_INFINITY_BITS_32 };
    let mut i: usize = 0;
    while i < sims.len()
        invariant
            0 <= i <= sims.len(),
            best_idx <= i,
            contender(best_sim) ==> best_idx < i && best_sim == sims@[best_idx as int],
            !contender(best_sim) ==> best_idx == 0 && best_sim == negative_infinity_32(),
            forall|j: int|
                0 <= j < i && contender(#[trigger] sims@[j]) ==> contender(best_sim)
                    && sims@[j].place() <= best_sim.place() && (j < best_idx ==> sims@[j].place()
                    < best_sim.place()),
        decreases sims.len() - i,
    {
        if best_sim.is_below(sims[i]) {
            best_sim = sims[i];
            best_idx = i;
        }
        i = i + 1;
    }
    if best_sim == (F32 { bits: NEGATIVE_INFINITY_BITS_32 }) {
        assert(!contender(best_sim));
        assert forall|j: int| !first_best(sims@, j) by {}
        (0, F32 { bits: 0 })
    } else {
        proof {
            assert(first_best(sims@, best_idx as int));
            let chosen = choose|j: int| first_best(sims@, j);
            lemma_first_best_is_unique(sims@, chosen, best_idx as int);
        }
        (best_idx, best_sim)
    }
}

/// What a lookup answers with.
#[derive(Clone, Copy, Debug)]
pub enum Selection {
    /// No row is similar enough.
    Miss { best_sim: F32 },
    /// The output of one row.
    Single { row: usize, best_sim: F32 },
    /// The weighted average of the outputs of the `count` most similar rows.
    Blend { count: usize, best_sim: F32 },
}

impl Selection {
    /// The best similarity, which every selection reports.
    pub open spec fn similarity(self) -> F32 {
        match self {
            Selection::Miss { best_sim } => best_sim,
            Selection::Single { best_sim, .. } => best_sim,
            Selection::Blend { best_sim, .. } => best_sim,
        }
    }
}

/// How many rows an answer is made of, when `k` are asked for and `n` are there.
pub open spec fn rows_used(k: int, n: int) -> int {
    let wanted = if k < 1 {
        1
    } else {
        k
    };
    if wanted < n {
        wanted
    } else {
        n
    }
}

/// The answer to a query with these similarities: a miss where the best one is below `tau`, else
/// its row alone or an average.
pub open spec fn selected(sims: Seq<F32>, k: int, tau: F32) -> Selection {
    let (i, best_sim) = best(sims);
    let count = rows_used(k, sims.len() as int);
    if best_sim.below(tau) {
        Selection::Miss { best_sim }
    } else if count == 1 {
        Selection::Single { row: i as usize, best_sim }
    } else {
        Selection::Blend { count: count as usize, best_sim }
    }
}

/// Gates on `tau` and picks the rows that the answer is made of.
pub fn select(sims: &[F32], k: usize, tau: F32) -> (r: Selection)
    ensures
        r == selected(sims@, k as int, tau),
        r matches Selection::Single { row, .. } ==> row < sims.len(),
        r matches Selection::Blend { count, .. } ==> count <= sims.len(),
        !r.similarity().is_not_a_number(),
        r is Miss <==> r.similarity().below(tau),
        r is Single <==> !r.similarity().below(tau) && rows_used(k as int, sims.len() as int) == 1,
{
    let (row, best_sim) = argmax(sims);
    if best_sim.is_below(tau) {
        return Selection::Miss { best_sim };
    }
    let wanted: usize = if k < 1 {
        1
    } else {
        k
    };
    let count: usize = if wanted < sims.len() {
        wanted
    } else {
        sims.len()
    };
    if count == 1 {
        Selection::Single { row, best_sim }
    } else {
        Selection::Blend { count, best_sim }
    }
}

/// A key that is smaller for a larger similarity, and largest for a not-a-number.
pub open spec fn falling_key(x: F32) -> i64 {
    if x.is_not_a_number() {
        i64::MAX
    } else {
        (-x.place()) as i64
    }
}

pub open spec fn falling_keys(sims: Seq<F32>) -> Seq<i64> {
    sims.map_values(|x: F32| falling_key(x))
}

/// The `k` most similar rows, by falling similarity and among equals by position.
pub open spec fn strongest(sims: Seq<F32>, k: int) -> Seq<Ranked> {
    ranking(falling_keys(sims)).take(
        if k < sims.len() {
            k
        } else {
            sims.len() as int
        },
    )
}

/// The similarities of the chosen rows with everything not above zero cut off.
pub open spec fn positive_parts(sims: Seq<F32>, top: Seq<Ranked>) -> Seq<F32> {
    top.map_values(|t: Ranked| sims[t.1 as int].clipped())
}

/// The weights of the chosen rows: their positive similarities in proportion, or one part in `k`
/// each where the similarities sum to nothing.
pub open spec fn weights(m: Model32, sims: Seq<F32>, top: Seq<Ranked>, k: usize) -> Seq<F32> {
    let parts = positive_parts(sims, top);
    let whole = total(m, parts);
    if norm_eps().below(whole) {
        parts.map_values(|w: F32| (m.quotient)(w, whole))
    } else {
        parts.map_values(|w: F32| (m.quotient)(one_32(), (m.from_count)(k)))
    }
}

/// Component `j` of the weighted sum of the first `count` chosen rows.
pub open spec fn blend(
    m: Model32,
    outputs: Seq<F32>,
    top: Seq<Ranked>,
    w: Seq<F32>,
    d: int,
    j: int,
    count: nat,
) -> F32
    decreases count,
{
    if count == 0 {
        zero_32()
    } else {
        (m.sum)(
            blend(m, outputs, top, w, d, j, (count - 1) as nat),
            (m.product)(outputs[top[count - 1].1 * d + j], w[count - 1]),
        )
    }
}

/// The average of the outputs of the `k` most similar rows, by their weights.
pub open spec fn blended(
    m: Model32,
    sims: Seq<F32>,
    outputs: Seq<F32>,
    k: usize,
    d: nat,
) -> Seq<F32> {
    let top = strongest(sims, k as int);
    let w = weights(m, sims, top, k);
    Seq::new(d, |j: int| blend(m, outputs, top, w, d as int, j, top.len()))
}

/// The most similar rows, strongest first.
fn strongest_rows(sims: &[F32], k: usize) -> (top: Vec<Ranked>)
    ensures
        top@ == strongest(sims@, k as int),
        forall|r: int| 0 <= r < top.len() ==> (#[trigger] top@[r]).1 < sims.len(),
{
    let mut keys: Vec<i64> = Vec::new();
    let mut i: usize = 0;
    while i < sims.len()
        invariant
            0 <= i <= sims.len(),
            keys.len() == i,
            forall|j: int| 0 <= j < i ==> #[trigger] keys@[j] == falling_key(sims@[j]),
        decreases sims.len() - i,
    {
        let key: i64 = if sims[i].is_nan() {
            i64::MAX
        } else {
            -sims[i].line_place()
        };
        keys.push(key);
        i = i + 1;
    }
    assert(keys@ =~= falling_keys(sims@));
    proof {
        law_ranking_is_a_permutation(keys@);
    }
    let mut top = rank(&keys);
    if k < top.len() {
        top.truncate(k);
    }
    assert(top@ =~= strongest(sims@, k as int));
    top
}

/// The weights of the chosen rows.
fn row_weights<A: Arith32>(sims: &[F32], top: &Vec<Ranked>, k: usize, arith: &A) -> (w: Vec<F32>)
    requires
        forall|r: int| 0 <= r < top.len() ==> (#[trigger] top@[r]).1 < sims.len(),
    ensures
        w.len() == top.len(),
        forall|m: Model32| #[trigger] follows_32(arith, m) ==> w@ == weights(m, sims@, top@, k),
{
    let mut parts: Vec<F32> = Vec::new();
    let mut i: usize = 0;
    while i < top.len()
        invariant
            0 <= i <= top.len(),
            parts.len() == i,
            forall|r: int| 0 <= r < top.len() ==> (#[trigger] top@[r]).1 < sims.len(),
            forall|r: int|
                0 <= r < i ==> #[trigger] parts@[r] == sims@[top@[r].1 as int].clipped(),
        decreases top.len() - i,
    {
        parts.push(sims[top[i].1].clip());
        i = i + 1;
    }
    assert(parts@ =~= positive_parts(sims@, top@));
    let whole = sum_all(&parts, arith);
    let mut w: Vec<F32> = Vec::new();
    if (F32 { bits: NORM_EPS_BITS }).is_below(whole) {
        let mut r: usize = 0;
        while r < parts.len()
            invariant
                0 <= r <= parts.len(),
                w.len() == r,
                forall|m: Model32, j: int|
                    #![trigger follows_32(arith, m), w@[j]]
                    follows_32(arith, m) && 0 <= j < r ==> w@[j] == (m.quotient)(parts@[j], whole),
            decreases parts.len() - r,
        {
            w.push(arith.quotient(parts[r], whole));
            r = r + 1;
        }
    } else {
        let uniform = arith.quotient(F32 { bits: ONE_BITS_32 }, arith.from_count(k));
        let mut r: usize = 0;
        while r < parts.len()
            invariant
                0 <= r <= parts.len(),
                w.len() == r,
                forall|j: int| 0 <= j < r ==> #[trigger] w@[j] == uniform,
            decreases parts.len() - r,
        {
            w.push(uniform);
            r = r + 1;
        }
    }
    proof {
        assert forall|m: Model32| #[trigger] follows_32(arith, m) implies w@ == weights(
            m,
            sims@,
            top@,
            k,
        ) by {
            assert(whole == total(m, parts@));
            assert(w@ =~= weights(m, sims@, top@, k));
        }
    }
    w
}

/// In every model of the arithmetic `out` is the weighted average of the `k` most similar rows.
pub open spec fn averages<A: Arith32>(
    arith: &A,
    sims: Seq<F32>,
    outputs: Seq<F32>,
    k: usize,
    d: nat,
    out: Seq<F32>,
) -> bool {
    forall|m: Model32| #[trigger]
        follows_32(arith, m) ==> out == blended(m, sims, outputs, k, d)
}

/// Averages the outputs of the `k` most similar rows, weighted by their positive similarities.
///
/// Where a similarity is not a number its row ranks last.
pub fn weighted_topk_average<A: Arith32>(
    sims: &[F32],
    outputs: &[F32],
    k: usize,
    d: usize,
    arith: &A,
) -> (out: Vec<F32>)
    requires
        forall|r: int|
            0 <= r < strongest(sims@, k as int).len() ==> ((#[trigger] strongest(
                sims@,
                k as int,
            )[r]).1 + 1) * d <= outputs.len(),
    ensures
        out.len() == d,
        averages(arith, sims@, outputs@, k, d as nat, out@),
{
    let top = strongest_rows(sims, k);
    let w = row_weights(sims, &top, k, arith);
    let mut acc: Vec<F32> = Vec::new();
    let mut j: usize = 0;
    while j < d
        invariant
            0 <= j <= d,
            acc.len() == j,
            forall|i: int| 0 <= i < j ==> #[trigger] acc@[i] == zero_32(),
        decreases d - j,
    {
        acc.push(F32 { bits: 0 });
        j = j + 1;
    }
    let mut r: usize = 0;
    while r < top.len()
        invariant
            0 <= r <= top.len(),
            w.len() == top.len(),
            acc.len() == d,
            forall|i: int|
                0 <= i < top.len() ==> ((#[trigger] top@[i]).1 + 1) * d <= outputs.len(),
            forall|m: Model32, i: int|
                #![trigger follows_32(arith, m), acc@[i]]
                follows_32(arith, m) && 0 <= i < d ==> acc@[i] == blend(
                    m,
                    outputs@,
                    top@,
                    w@,
                    d as int,
                    i,
                    r as nat,
                ),
        decreases top.len() - r,
    {
        let idx: usize = top[r].1;
        proof {
            assert((top@[r as int].1 + 1) * d <= outputs.len());
            lemma_row_bounds(idx as int, idx + 1, d as int);
        }
        let start: usize = idx * d;
        let mut c: usize = 0;
        while c < d
            invariant
                0 <= c <= d,
                r < top.len(),
                w.len() == top.len(),
                acc.len() == d,
                idx == top@[r as int].1,
                start == idx * d,
                start + d <= outputs.len(),
                forall|m: Model32, i: int|
                    #![trigger follows_32(arith, m), acc@[i]]
                    follows_32(arith, m) && 0 <= i < d ==> acc@[i] == blend(
                        m,
                        outputs@,
                        top@,
                        w@,
                        d as int,
                        i,
                        (if i < c {
                            r + 1
                        } else {
                            r as int
                        }) as nat,
                    ),
            decreases d - c,
        {
            let term = arith.product(outputs[start + c], w[r]);
            let next = arith.sum(acc[c], term);
            acc.set(c, next);
            c = c + 1;
        }
        r = r + 1;
    }
    proof {
        assert forall|m: Model32| #[trigger] follows_32(arith, m) implies acc@ == blended(
            m,
            sims@,
            outputs@,
            k,
            d as nat,
        ) by {
            assert(w@ == weights(m, sims@, top@, k));
            assert(acc@ =~= blended(m, sims@, outputs@, k, d as nat));
        }
    }
    acc
}

/// The chosen rows are the most similar ones: no row that is left out is more similar than a row
/// that is chosen, and of equally similar rows the earlier one is chosen first.
pub proof fn law_strongest_rows_are_chosen(sims: Seq<F32>, k: int, chosen: int, left_out: int)
    requires
        sims.len() <= usize::MAX,
        0 <= chosen < k <= left_out < sims.len(),
    ensures
        ({
            let order = ranking(falling_keys(sims));
            let a = order[chosen].1 as int;
            let b = order[left_out].1 as int;
            &&& strongest(sims, k)[chosen] == order[chosen]
            &&& 0 <= a < sims.len() && 0 <= b < sims.len() && a != b
            &&& !sims[a].below(sims[b])
            &&& sims[a].same_number(sims[b]) ==> a < b
        }),
{
    let keys = falling_keys(sims);
    law_ranking_is_a_permutation(keys);
    law_ranking_is_stable(keys, chosen, left_out);
    let order = ranking(keys);
    assert(order[chosen].0 == falling_key(sims[order[chosen].1 as int]));
    assert(order[left_out].0 == falling_key(sims[order[left_out].1 as int]));
}

/// Where no chosen similarity is above zero every chosen row weighs one part in `k`, in any
/// arithmetic whose sum of zeros is not above the guard.
pub proof fn law_no_positive_similarity_weighs_evenly(
    m: Model32,
    sims: Seq<F32>,
    top: Seq<Ranked>,
    k: usize,
)
    requires
        forall|r: int| 0 <= r < top.len() ==> !zero_32().below(sims[(#[trigger] top[r]).1 as int]),
        !norm_eps().below(total(m, Seq::new(top.len(), |r: int| zero_32()))),
    ensures
        weights(m, sims, top, k).len() == top.len(),
        forall|r: int|
            0 <= r < top.len() ==> #[trigger] weights(m, sims, top, k)[r] == (m.quotient)(
                one_32(),
                (m.from_count)(k),
            ),
{
    assert(positive_parts(sims, top) =~= Seq::new(top.len(), |r: int| zero_32()));
}

/// Rows are divided one by one: row `i` of the result is row `i` divided by its own length, so no
/// row depends on another.
pub proof fn law_rows_are_normalized_one_by_one(m: Model32, rows: Seq<F32>, n: nat, d: nat)
    requires
        rows.len() == n * d,
    ensures
        rows_normalized(m, rows, n, d as int).len() == n * d,
        forall|i: int|
            0 <= i < n ==> #[trigger] row(rows_normalized(m, rows, n, d as int), i, d as int)
                == normalized(m, row(rows, i, d as int)),
{
    assert forall|i: int| 0 <= i < n implies #[trigger] row(
        rows_normalized(m, rows, n, d as int),
        i,
        d as int,
    ) == normalized(m, row(rows, i, d as int)) by {
        lemma_row_of_normalized(m, rows, n, d, i);
    }
    if n > 0 {
        lemma_row_of_normalized(m, rows, n, d, 0);
    } else {
        assert(0 * d == 0) by (nonlinear_arith);
    }
}

/// Two buffers of the same rows are the same.
pub proof fn lemma_rows_make_the_buffer(a: Seq<F32>, b: Seq<F32>, n: nat, d: nat)
    requires
        d > 0,
        a.len() == n * d,
        b.len() == n * d,
        forall|i: int| 0 <= i < n ==> #[trigger] row(a, i, d as int) == row(b, i, d as int),
    ensures
        a == b,
{
    assert forall|k: int| 0 <= k < a.len() implies a[k] == b[k] by {
        let i = k / d as int;
        let j = k % d as int;
        assert(0 <= i < n && 0 <= j < d && k == i * d + j) by (nonlinear_arith)
            requires
                0 <= k < n * d,
                d > 0,
                i == k / d as int,
                j == k % d as int,
        ;
        lemma_row_bounds(i, n as int, d as int);
        assert(row(a, i, d as int)[j] == a[k]);
        assert(row(b, i, d as int)[j] == b[k]);
        assert(row(a, i, d as int) == row(b, i, d as int));
    }
    assert(a =~= b);
}

/// Dividing rows together is dividing each of them alone: in an arithmetic of functions row `i` of
/// what [`l2_normalize_rows`] returns is what [`l2_normalize`] returns for row `i`.
pub proof fn law_rows_are_divided_like_vectors<A: Arith32>(
    arith: &A,
    rows: Seq<F32>,
    n: nat,
    d: nat,
    together: Seq<F32>,
    i: int,
    alone: Seq<F32>,
)
    requires
        computes_functions_32(arith),
        rows.len() == n * d,
        0 <= i < n,
        divides_rows(arith, rows, n, d as int, together),
        divides(arith, row(rows, i, d as int), alone),
    ensures
        row(together, i, d as int) == alone,
{
    law_functions_follow_a_model_32(arith);
    let m = choose|m: Model32| follows_32(arith, m);
    assert(together == rows_normalized(m, rows, n, d as int));
    lemma_row_of_normalized(m, rows, n, d, i);
}

} // verus!
