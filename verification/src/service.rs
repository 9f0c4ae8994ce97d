//! The answer to a remote lookup, from the bytes of the request to the bytes of the reply.

use crate::arith::{
    computes_functions_32, follows_32, law_functions_follow_a_model_32, Arith32, Model32,
};
use crate::cache::{
    answerable, cache_answer, is_stored_output, looks_up, LayerModel, LookupModel, ShardCache,
};
use crate::float::{zero_32, F32};
use crate::vector::rows_used;
use crate::wire::{
    decode_f32_le, decoded, encode_f32_le, encoded, invalid_argument_status,
    law_decode_undoes_encode, payload_length_message,
};
use tonic::Status;
use vstd::prelude::*;

verus! {

/// A lookup request.
#[derive(Clone, Debug, PartialEq)]
pub struct ShardQuery {
    pub layer_id: u32,
    pub k: u32,
    /// The query vector as little-endian bytes.
    pub query_vec: Vec<u8>,
    /// A threshold for this request; anything that is not above zero leaves the cache's own.
    pub tau_override: F32,
}

/// The reply to a lookup request.
#[derive(Clone, Debug, PartialEq)]
pub struct ShardResult {
    pub hit: bool,
    /// The output as little-endian bytes, empty on a miss.
    pub mlp_out: Vec<u8>,
    pub best_sim: F32,
}

/// What a reply says.
#[verifier::ext_equal]
pub struct ReplyModel {
    pub hit: bool,
    pub mlp_out: Seq<u8>,
    pub best_sim: F32,
}

impl View for ShardResult {
    type V = ReplyModel;

    open spec fn view(&self) -> ReplyModel {
        ReplyModel { hit: self.hit, mlp_out: self.mlp_out@, best_sim: self.best_sim }
    }
}

/// The threshold of a request: its own if that is above zero, else the cache's.
pub open spec fn threshold(cache_tau: F32, tau_override: F32) -> F32 {
    if zero_32().below(tau_override) {
        tau_override
    } else {
        cache_tau
    }
}

/// The reply that carries the outcome of a lookup.
pub open spec fn reply(lookup: LookupModel) -> ReplyModel {
    match lookup.mlp_out {
        Some(out) => ReplyModel { hit: true, mlp_out: encoded(out), best_sim: lookup.best_sim },
        None => ReplyModel { hit: false, mlp_out: Seq::empty(), best_sim: lookup.best_sim },
    }
}

/// A payload carries a stored output: some row of the layer's outputs, encoded.
pub open spec fn carries_stored_output(layer: LayerModel, payload: Seq<u8>) -> bool {
    exists|out: Seq<F32>| is_stored_output(layer, out) && payload == #[trigger] encoded(out)
}

/// In every model of the arithmetic `said` is the reply that carries the lookup of the request.
pub open spec fn replies<A: Arith32>(
    arith: &A,
    layers: Map<u32, LayerModel>,
    cache_tau: F32,
    layer_id: u32,
    vector: Seq<F32>,
    k: u32,
    tau_override: F32,
    said: ReplyModel,
) -> bool {
    forall|m: Model32| #[trigger]
        follows_32(arith, m) ==> said == reply(
            cache_answer(
                m,
                layers,
                layer_id,
                vector,
                k as usize,
                threshold(cache_tau, tau_override),
            ),
        )
}

/// Picks the threshold of a request.
pub fn effective_tau(cache_tau: F32, tau_override: F32) -> (r: F32)
    ensures
        r == threshold(cache_tau, tau_override),
{
    if (F32 { bits: 0 }).is_below(tau_override) {
        tau_override
    } else {
        cache_tau
    }
}

/// Answers a request whose vector is already decoded.
pub fn answer_decoded<A: Arith32>(
    cache: &ShardCache,
    layer_id: u32,
    vector: &[F32],
    k: u32,
    tau_override: F32,
    arith: &A,
) -> (result: ShardResult)
    requires
        cache.wf(),
    ensures
        !result.hit ==> result.mlp_out.len() == 0,
        result.hit ==> result.mlp_out.len() == 4 * vector.len(),
        !result.best_sim.is_not_a_number(),
        result.hit && rows_used(k as int, cache@[layer_id].n as int) == 1 ==> carries_stored_output(
            cache@[layer_id],
            result.mlp_out@,
        ),
        !answerable(cache@, layer_id, vector@) ==> !result.hit && result.best_sim == zero_32(),
        answerable(cache@, layer_id, vector@) ==> (result.hit <==> !result.best_sim.below(
            threshold(cache.spec_tau(), tau_override),
        )),
        replies(
            arith,
            cache@,
            cache.spec_tau(),
            layer_id,
            vector@,
            k,
            tau_override,
            result@,
        ),
{
    let tau = effective_tau(cache.tau(), tau_override);
    let lookup = cache.knn_lookup(layer_id, vector, k as usize, tau, arith);
    let ghost said = lookup@;
    match lookup.mlp_out {
        Some(out) => {
            let mlp_out = encode_f32_le(out.as_slice());
            let result = ShardResult { hit: true, mlp_out, best_sim: lookup.best_sim };
            assert(result@ =~= reply(said));
            result
        },
        None => {
            let result = ShardResult {
                hit: false,
                mlp_out: Vec::new(),
                best_sim: lookup.best_sim,
            };
            assert(result@ =~= reply(said));
            result
        },
    }
}

/// Answers a request from the cache.
///
/// A payload that does not hold whole numbers is refused as an invalid argument; every other
/// request is answered, with a miss where the cache has nothing to offer.
pub fn answer_query<A: Arith32>(cache: &ShardCache, query: &ShardQuery, arith: &A) -> (r: Result<
    ShardResult,
    Status,
>)
    requires
        cache.wf(),
    ensures
        r is Ok <==> query.query_vec@.len() % 4 == 0,
        r matches Err(status) ==> status == invalid_argument_status(
            payload_length_message(query.query_vec@.len()),
        ),
        r matches Ok(result) ==> {
            &&& !result.hit ==> result.mlp_out.len() == 0
            &&& result.hit ==> result.mlp_out.len() == query.query_vec.len()
            &&& !result.best_sim.is_not_a_number()
            &&& result.hit && rows_used(query.k as int, cache@[query.layer_id].n as int) == 1
                ==> carries_stored_output(cache@[query.layer_id], result.mlp_out@)
            &&& !answerable(cache@, query.layer_id, decoded(query.query_vec@)) ==> !result.hit
                && result.best_sim == zero_32()
            &&& answerable(cache@, query.layer_id, decoded(query.query_vec@)) ==> (result.hit
                <==> !result.best_sim.below(threshold(cache.spec_tau(), query.tau_override)))
        },
        r matches Ok(result) ==> replies(
            arith,
            cache@,
            cache.spec_tau(),
            query.layer_id,
            decoded(query.query_vec@),
            query.k,
            query.tau_override,
            result@,
        ),
{
    match decode_f32_le(query.query_vec.as_slice()) {
        Err(status) => Err(status),
        Ok(vector) => Ok(
            answer_decoded(
                cache,
                query.layer_id,
                vector.as_slice(),
                query.k,
                query.tau_override,
                arith,
            ),
        ),
    }
}

/// A client that decodes the payload of a hit has the output of the lookup, bit for bit, and a
/// reply is a hit exactly when the lookup found an output.
pub proof fn law_reply_carries_the_lookup(lookup: LookupModel)
    ensures
        reply(lookup).hit <==> lookup.mlp_out is Some,
        lookup.mlp_out matches Some(out) ==> decoded(reply(lookup).mlp_out) == out,
        reply(lookup).best_sim == lookup.best_sim,
{
    if let Some(out) = lookup.mlp_out {
        law_decode_undoes_encode(out);
    }
}

/// A request is answered as if the cache had been made with the threshold that the request
/// names, and a request that names none above zero is answered by the cache's own.
pub proof fn law_override_stands_for_the_threshold(
    m: Model32,
    layers: Map<u32, LayerModel>,
    layer_id: u32,
    query: Seq<F32>,
    k: usize,
    cache_tau: F32,
    tau_override: F32,
)
    ensures
        zero_32().below(tau_override) ==> cache_answer(
            m,
            layers,
            layer_id,
            query,
            k,
            threshold(cache_tau, tau_override),
        ) == cache_answer(m, layers, layer_id, query, k, threshold(tau_override, zero_32())),
        !zero_32().below(tau_override) ==> threshold(cache_tau, tau_override) == cache_tau,
{
}

/// A request is answered with the lookup of its vector under its threshold: in an arithmetic of
/// functions the reply carries what such a lookup returns, a hit with its output encoded, a miss
/// with nothing, and the best similarity in any case.
pub proof fn law_requests_are_answered_by_lookups<A: Arith32>(
    arith: &A,
    layers: Map<u32, LayerModel>,
    cache_tau: F32,
    layer_id: u32,
    vector: Seq<F32>,
    k: u32,
    tau_override: F32,
    said: ReplyModel,
    lookup: LookupModel,
)
    requires
        computes_functions_32(arith),
        replies(arith, layers, cache_tau, layer_id, vector, k, tau_override, said),
        looks_up(
            arith,
            layers,
            layer_id,
            vector,
            k as usize,
            threshold(cache_tau, tau_override),
            lookup,
        ),
    ensures
        said == reply(lookup),
        said.hit <==> lookup.mlp_out is Some,
        said.best_sim == lookup.best_sim,
        lookup.mlp_out matches Some(out) ==> said.mlp_out == encoded(out),
        lookup.mlp_out is None ==> said.mlp_out == Seq::<u8>::empty(),
{
    law_functions_follow_a_model_32(arith);
    let m = choose|m: Model32| follows_32(arith, m);
    let tau = threshold(cache_tau, tau_override);
    assert(lookup == cache_answer(m, layers, layer_id, vector, k as usize, tau));
    assert(said == reply(cache_answer(m, layers, layer_id, vector, k as usize, tau)));
}

} // verus!
