//! The cache and its service: what is taken in, what a lookup answers, and what goes over the wire.

use crate::arith::{follows_32, Arith32, Model32};
use crate::cache::{cache_answer, check_shape, CacheError, LayerModel, ShardCache, ShardLookup};
use crate::float::F32;
use crate::laws::vectors::{agree_on_row, lemma_averages_agree};
use crate::order::ranking;
use crate::service::{answer_decoded, answer_query, effective_tau, ShardQuery, ShardResult};
use crate::text::numeral;
use crate::vector::{
    argmax, blended, cosine_similarities, falling_keys, l2_normalize, lemma_best_is_found,
    lemma_row_bounds, lemma_row_of_normalized, normalized, rows_normalized, similarities,
    weighted_topk_average,
};
use crate::wire::{decode_f32_le, encode_f32_le, encoded, invalid_argument_status};
use tonic::Status;
use vstd::prelude::*;

verus! {

/// The bytes of a number are its encoding in base 256, lowest digit first.
pub open spec fn in_base_256(bytes: Seq<u8>, at: int) -> int {
    bytes[at] + 256 * bytes[at + 1] + 65536 * bytes[at + 2] + 16777216 * bytes[at + 3]
}

/// Numbers are written as four bytes each, the lowest first.
pub proof fn law_numbers_are_written_lowest_byte_first(values: &[F32], out: Vec<u8>, i: int)
    requires
        call_ensures(encode_f32_le, (values,), out),
        0 <= i < values@.len(),
    ensures
        out@.len() == 4 * values@.len(),
        in_base_256(out@, 4 * i) == values@[i].bits,
{
    assert(out@ == encoded(values@));
    let word = values@[i].bits;
    assert((4 * i) / 4 == i && (4 * i + 1) / 4 == i && (4 * i + 2) / 4 == i && (4 * i + 3) / 4
        == i);
    assert((4 * i) % 4 == 0 && (4 * i + 1) % 4 == 1 && (4 * i + 2) % 4 == 2 && (4 * i + 3) % 4
        == 3);
    assert(out@[4 * i] == word % 0x100);
    assert(out@[4 * i + 1] == word / 0x100 % 0x100);
    assert(out@[4 * i + 2] == word / 0x1_0000 % 0x100);
    assert(out@[4 * i + 3] == word / 0x100_0000);
}

/// Bytes are read in fours, the lowest first, and refused exactly when they are not whole fours.
pub proof fn law_numbers_are_read_lowest_byte_first(
    bytes: &[u8],
    r: Result<Vec<F32>, Status>,
)
    requires
        call_ensures(decode_f32_le, (bytes,), r),
    ensures
        r is Ok <==> bytes@.len() % 4 == 0,
        r matches Ok(values) ==> bytes@.len() == 4 * values@.len(),
        r matches Ok(values) ==> forall|i: int|
            0 <= i < values@.len() ==> (#[trigger] values@[i]).bits == in_base_256(bytes@, 4 * i),
        r matches Err(status) ==> status == invalid_argument_status(
            "f32 payload length must be a multiple of 4, got "@ + numeral(bytes@.len()),
        ),
{
}

/// A layer is taken in exactly when its rows have a width and both buffers hold exactly the rows
/// it counts; otherwise the first thing that is wrong is told, with the length that was found and
/// the one that was wanted.
pub proof fn law_shapes_are_checked(
    inputs: usize,
    outputs: usize,
    n: usize,
    d: usize,
    r: Result<(), CacheError>,
)
    requires
        call_ensures(check_shape, (inputs, outputs, n, d), r),
        inputs < usize::MAX,
    ensures
        r is Ok <==> d > 0 && inputs == n * d && outputs == n * d,
        d == 0 ==> r == Err::<(), CacheError>(CacheError::ZeroDim),
        d > 0 && n * d <= usize::MAX && inputs != n * d ==> r == Err::<(), CacheError>(
            CacheError::InputShape { got: inputs, want: (n * d) as usize },
        ),
        d > 0 && n * d > usize::MAX ==> r == Err::<(), CacheError>(
            CacheError::InputShape { got: inputs, want: usize::MAX },
        ),
        d > 0 && inputs == n * d && outputs != n * d ==> r == Err::<(), CacheError>(
            CacheError::OutputShape { got: outputs, want: (n * d) as usize },
        ),
{
}

/// Seeding stores both buffers as they are under the layer, keeps every other layer and the
/// threshold, and does nothing where the shape is refused.
pub proof fn law_seeding_stores_the_buffers(
    cache: &mut ShardCache,
    layer_id: u32,
    inputs: Vec<F32>,
    outputs: Vec<F32>,
    n: usize,
    d: usize,
    r: Result<(), CacheError>,
    shape: Result<(), CacheError>,
    id: u32,
)
    requires
        call_ensures(ShardCache::seed_from_normed, (cache, layer_id, inputs, outputs, n, d), r),
        call_ensures(
            check_shape,
            (inputs@.len() as usize, outputs@.len() as usize, n, d),
            shape,
        ),
    ensures
        r == shape,
        final(cache).spec_tau() == old(cache).spec_tau(),
        r is Err ==> *final(cache) == *old(cache),
        r is Ok ==> final(cache)@.contains_key(layer_id),
        r is Ok ==> final(cache)@[layer_id].inputs == inputs@,
        r is Ok ==> final(cache)@[layer_id].outputs == outputs@,
        r is Ok ==> final(cache)@[layer_id].n == n && final(cache)@[layer_id].d == d,
        id != layer_id ==> (final(cache)@.contains_key(id) <==> old(cache)@.contains_key(id)),
        id != layer_id && old(cache)@.contains_key(id) ==> final(cache)@[id] == old(cache)@[id],
{
}

/// Inserting stores each input row divided by its length and the outputs as they are, keeps every
/// other layer and the threshold, and does nothing where the shape is refused.
pub proof fn law_inserting_stores_divided_rows<A: Arith32>(
    arith: &A,
    m: Model32,
    cache: &mut ShardCache,
    layer_id: u32,
    inputs: &[F32],
    outputs: Vec<F32>,
    n: usize,
    d: usize,
    r: Result<(), CacheError>,
    shape: Result<(), CacheError>,
    id: u32,
    i: int,
    one_row: &[F32],
    alone: Vec<F32>,
)
    requires
        follows_32(arith, m),
        inputs@.len() < usize::MAX,
        call_ensures(
            ShardCache::insert_layer::<A>,
            (cache, layer_id, inputs, outputs, n, d, arith),
            r,
        ),
        call_ensures(
            check_shape,
            (inputs@.len() as usize, outputs@.len() as usize, n, d),
            shape,
        ),
        0 <= i < n,
        one_row@ == inputs@.subrange(i * d, i * d + d),
        call_ensures(l2_normalize::<A>, (one_row, arith), alone),
    ensures
        r == shape,
        final(cache).spec_tau() == old(cache).spec_tau(),
        r is Err ==> *final(cache) == *old(cache),
        r is Ok ==> final(cache)@.contains_key(layer_id),
        r is Ok ==> final(cache)@[layer_id].inputs.len() == inputs@.len(),
        r is Ok ==> final(cache)@[layer_id].inputs.subrange(i * d, i * d + d) == alone@,
        r is Ok ==> final(cache)@[layer_id].outputs == outputs@,
        r is Ok ==> final(cache)@[layer_id].n == n && final(cache)@[layer_id].d == d,
        id != layer_id ==> (final(cache)@.contains_key(id) <==> old(cache)@.contains_key(id)),
        id != layer_id && old(cache)@.contains_key(id) ==> final(cache)@[id] == old(cache)@[id],
{
    law_shapes_are_checked(
        inputs@.len() as usize,
        outputs@.len() as usize,
        n,
        d,
        shape,
    );
    if r is Ok {
        lemma_row_bounds(i, n as int, d as int);
        assert(final(cache)@[layer_id].inputs == rows_normalized(
            m,
            inputs@,
            n as nat,
            d as int,
        ));
        assert(alone@ == normalized(m, one_row@));
        lemma_row_of_normalized(m, inputs@, n as nat, d as nat, i);
    }
}

/// A new cache holds nothing and keeps its threshold; the one made by default has threshold zero.
pub proof fn law_new_caches_are_empty(tau: F32, cache: ShardCache, plain: ShardCache, id: u32)
    requires
        call_ensures(ShardCache::new, (tau,), cache),
        call_ensures(ShardCache::default, (), plain),
    ensures
        !cache@.contains_key(id),
        !plain@.contains_key(id),
        cache.spec_tau() == tau,
        plain.spec_tau() == (F32 { bits: 0 }),
{
}

/// The accessors agree: the threshold is the one kept, a layer has a size exactly when it is there
/// and it is the number of its rows, and a cache is empty exactly when it has no layer.
pub proof fn law_accessors_agree(
    cache: &ShardCache,
    tau: F32,
    count: usize,
    empty: bool,
    id: u32,
    size: Option<usize>,
)
    requires
        call_ensures(ShardCache::tau, (cache,), tau),
        call_ensures(ShardCache::len, (cache,), count),
        call_ensures(ShardCache::is_empty, (cache,), empty),
        call_ensures(ShardCache::layer_size, (cache, id), size),
    ensures
        tau == cache.spec_tau(),
        count == cache@.dom().len(),
        empty <==> count == 0,
        size is Some <==> cache@.contains_key(id),
        size matches Some(n) ==> n == cache@[id].n,
        size is Some ==> !empty && count > 0,
{
    broadcast use vstd::set::group_set_axioms;

    if empty {
        assert(cache@.dom() =~= Set::empty());
    }
    if count == 0 {
        assert(cache@.dom() =~= Set::empty());
        assert(cache@ =~= Map::empty());
    }
}

/// A lookup of a layer that is not there, or with a query of another width, is a miss with
/// similarity zero.
pub proof fn law_unanswerable_lookups_miss<A: Arith32>(
    arith: &A,
    cache: &ShardCache,
    layer_id: u32,
    query: &[F32],
    k: usize,
    tau: F32,
    r: ShardLookup,
)
    requires
        call_ensures(ShardCache::knn_lookup::<A>, (cache, layer_id, query, k, tau, arith), r),
        cache@.contains_key(layer_id) ==> cache@[layer_id].d != query@.len(),
    ensures
        r.mlp_out is None,
        r.best_sim == (F32 { bits: 0 }),
{
}

/// A lookup divides the query by its length, compares it with every stored row, and reports the
/// best similarity.  Below the threshold it misses; otherwise it answers with the stored output of
/// the best row where one row comes to be used, and with the weighted average of as many rows as
/// are asked for and there where it is another number.
pub proof fn law_lookups_compare_gate_and_answer<A: Arith32>(
    arith: &A,
    m: Model32,
    cache: &ShardCache,
    layer_id: u32,
    query: &[F32],
    k: usize,
    tau: F32,
    r: ShardLookup,
    inputs: &[F32],
    outputs: &[F32],
    n: usize,
    d: usize,
    divided: Vec<F32>,
    divided_slice: &[F32],
    sims: Vec<F32>,
    sims_slice: &[F32],
    b: (usize, F32),
    used: usize,
    average: Vec<F32>,
)
    requires
        follows_32(arith, m),
        cache@.contains_key(layer_id),
        cache@[layer_id] == (LayerModel {
            inputs: inputs@,
            outputs: outputs@,
            n: n as nat,
            d: d as nat,
        }),
        d == query@.len(),
        divided_slice@ == divided@,
        sims_slice@ == sims@,
        used == (if k < 1 && n > 0 {
            1
        } else if k < n {
            k as int
        } else {
            n as int
        }),
        call_ensures(ShardCache::knn_lookup::<A>, (cache, layer_id, query, k, tau, arith), r),
        call_ensures(l2_normalize::<A>, (query, arith), divided),
        call_ensures(cosine_similarities::<A>, (inputs, divided_slice, n, d, arith), sims),
        call_ensures(argmax, (sims_slice,), b),
        call_ensures(
            weighted_topk_average::<A>,
            (sims_slice, outputs, used, d, arith),
            average,
        ),
    ensures
        r.best_sim == b.1,
        r.mlp_out is None <==> b.1.below(tau),
        r.mlp_out matches Some(out) ==> {
            &&& used == 1 ==> out@ == outputs@.subrange(b.0 * d, b.0 * d + d)
            &&& used != 1 ==> out@ == average@
        },
{
    assert(divided@ == normalized(m, query@));
    assert(sims@ == similarities(m, inputs@, divided@, n as nat, d as int));
    assert(average@ == blended(m, sims@, outputs@, used, d as nat));
    assert(r@ == cache_answer(m, cache@, layer_id, query@, k, tau));
    lemma_best_is_found(sims@);
    if n > 0 {
        lemma_row_bounds(b.0 as int, n as int, d as int);
    }
    if r.mlp_out is Some {
        assert(r@.mlp_out == Some(r.mlp_out->0@));
    }
}

/// A lookup for several rows depends on the outputs of exactly the rows that it uses: two caches
/// whose layers hold the same inputs, and outputs that agree on the `k` most similar rows, give the
/// same answer, whatever the outputs of the other rows are.
pub proof fn law_lookups_use_only_the_most_similar_rows<A: Arith32>(
    arith: &A,
    m: Model32,
    cache: &ShardCache,
    other: &ShardCache,
    layer_id: u32,
    query: &[F32],
    k: usize,
    tau: F32,
    inputs: &[F32],
    n: usize,
    d: usize,
    divided: Vec<F32>,
    divided_slice: &[F32],
    sims: Vec<F32>,
    r: ShardLookup,
    s: ShardLookup,
)
    requires
        follows_32(arith, m),
        k > 1 && n > 1,
        d == query@.len(),
        cache@.contains_key(layer_id) && other@.contains_key(layer_id),
        cache@[layer_id].inputs == inputs@ && other@[layer_id].inputs == inputs@,
        cache@[layer_id].n == n && other@[layer_id].n == n,
        cache@[layer_id].d == d && other@[layer_id].d == d,
        divided_slice@ == divided@,
        call_ensures(l2_normalize::<A>, (query, arith), divided),
        call_ensures(cosine_similarities::<A>, (inputs, divided_slice, n, d, arith), sims),
        forall|rank: int|
            0 <= rank < k && rank < n ==> agree_on_row(
                cache@[layer_id].outputs,
                other@[layer_id].outputs,
                (#[trigger] ranking(falling_keys(sims@))[rank]).1 as int,
                d as nat,
            ),
        call_ensures(ShardCache::knn_lookup::<A>, (cache, layer_id, query, k, tau, arith), r),
        call_ensures(ShardCache::knn_lookup::<A>, (other, layer_id, query, k, tau, arith), s),
    ensures
        r@ == s@,
{
    let a = cache@[layer_id].outputs;
    let b = other@[layer_id].outputs;
    assert(divided@ == normalized(m, query@));
    assert(sims@ == similarities(m, inputs@, divided@, n as nat, d as int));
    assert(r@ == cache_answer(m, cache@, layer_id, query@, k, tau));
    assert(s@ == cache_answer(m, other@, layer_id, query@, k, tau));
    let used: usize = if k < n {
        k
    } else {
        n
    };
    lemma_averages_agree(m, sims@, a, b, used, d as nat);
}

/// The threshold of a request counts where it is above zero, else the cache's own.
pub proof fn law_thresholds_above_zero_count(cache_tau: F32, tau_override: F32, r: F32)
    requires
        call_ensures(effective_tau, (cache_tau, tau_override), r),
    ensures
        (F32 { bits: 0 }).below(tau_override) ==> r == tau_override,
        !(F32 { bits: 0 }).below(tau_override) ==> r == cache_tau,
{
}

/// A request is answered with the lookup of its vector under its threshold: the reply tells
/// whether the lookup hit, its best similarity, and its output as it is encoded.
pub proof fn law_replies_carry_lookups<A: Arith32>(
    arith: &A,
    m: Model32,
    cache: &ShardCache,
    layer_id: u32,
    vector: &[F32],
    k: u32,
    tau_override: F32,
    tau: F32,
    lookup: ShardLookup,
    payload: &[F32],
    bytes: Vec<u8>,
    r: ShardResult,
)
    requires
        follows_32(arith, m),
        call_ensures(effective_tau, (cache.spec_tau(), tau_override), tau),
        call_ensures(
            ShardCache::knn_lookup::<A>,
            (cache, layer_id, vector, k as usize, tau, arith),
            lookup,
        ),
        lookup.mlp_out matches Some(out) ==> payload@ == out@,
        call_ensures(encode_f32_le, (payload,), bytes),
        call_ensures(
            answer_decoded::<A>,
            (cache, layer_id, vector, k, tau_override, arith),
            r,
        ),
    ensures
        r.hit <==> lookup.mlp_out is Some,
        r.best_sim == lookup.best_sim,
        r.hit ==> r.mlp_out@ == bytes@,
        !r.hit ==> r.mlp_out@.len() == 0,
{
    assert(lookup@ == cache_answer(m, cache@, layer_id, vector@, k as usize, tau));
    if lookup.mlp_out is Some {
        assert(lookup@.mlp_out == Some(lookup.mlp_out->0@));
    }
    assert(r@.hit == r.hit && r@.mlp_out == r.mlp_out@ && r@.best_sim == r.best_sim);
}

/// A request is refused exactly when its bytes are, with the same status, and answered with its
/// decoded vector otherwise.
pub proof fn law_requests_are_decoded_then_answered<A: Arith32>(
    arith: &A,
    m: Model32,
    cache: &ShardCache,
    query: &ShardQuery,
    bytes: &[u8],
    read: Result<Vec<F32>, Status>,
    vector: &[F32],
    answered: ShardResult,
    r: Result<ShardResult, Status>,
)
    requires
        follows_32(arith, m),
        bytes@ == query.query_vec@,
        call_ensures(decode_f32_le, (bytes,), read),
        read matches Ok(values) ==> vector@ == values@,
        call_ensures(
            answer_decoded::<A>,
            (cache, query.layer_id, vector, query.k, query.tau_override, arith),
            answered,
        ),
        call_ensures(answer_query::<A>, (cache, query, arith), r),
    ensures
        read is Ok <==> r is Ok,
        read matches Err(status) ==> r == Err::<ShardResult, Status>(status),
        r matches Ok(result) ==> {
            &&& result.hit == answered.hit
            &&& result.best_sim == answered.best_sim
            &&& result.mlp_out@ == answered.mlp_out@
        },
{
    if r is Ok {
        let result = r->Ok_0;
        assert(result@.hit == result.hit && result@.mlp_out == result.mlp_out@ && result@.best_sim
            == result.best_sim);
        assert(answered@.hit == answered.hit && answered@.mlp_out == answered.mlp_out@
            && answered@.best_sim == answered.best_sim);
        assert(result@ == answered@);
    }
}

/// The errors of the cache say which buffer is wrong, the length that was found and the one that
/// was wanted.
pub proof fn law_cache_errors_name_both_lengths(error: &CacheError, r: String)
    requires
        call_ensures(CacheError::message, (error,), r),
    ensures
        *error matches CacheError::InputShape { got, want } ==> r@ == "shard cache: inputs len "@
            + numeral(got as nat) + " != n_entries × d = "@ + numeral(want as nat),
        *error matches CacheError::OutputShape { got, want } ==> r@ == "shard cache: outputs len "@
            + numeral(got as nat) + " != n_entries × d = "@ + numeral(want as nat),
        *error is ZeroDim ==> r@ == "shard cache: d must be > 0"@,
{
}

} // verus!
