//! The shard cache: precompiled outputs by layer, found by the similarity of their inputs.

use crate::arith::{
    computes_functions_32, follows_32, law_functions_follow_a_model_32, Arith32, Model32,
};
use crate::float::{zero_32, F32};
use crate::order::law_ranking_is_a_permutation;
use crate::text::{append_numeral, numeral};
use crate::vector::{
    best, blended, compares, contender, cosine_similarities, divides, divides_rows, dot,
    falling_keys, first_best, l2_normalize, l2_normalize_rows, law_rows_are_normalized_one_by_one,
    lemma_best_is_found, lemma_row_bounds, lemma_row_of_normalized, lemma_rows_make_the_buffer,
    norm, normalized, products, row, rows_normalized, rows_used, select, selected, similarities,
    strongest, total, weighted_topk_average, Selection,
};
use std::collections::HashMap;
use vstd::prelude::*;
use vstd::string::*;

verus! {

broadcast use vstd::std_specs::hash::group_hash_axioms;

/// One layer of the cache: `n_entries` inputs of width `d`, each divided by its length, and as
/// many outputs, both row by row.
#[derive(Clone, Debug, PartialEq)]
pub struct LayerEntry {
    pub inputs_normed: Vec<F32>,
    pub outputs: Vec<F32>,
    pub n_entries: usize,
    pub d: usize,
}

/// What a layer holds.
#[verifier::ext_equal]
pub struct LayerModel {
    pub inputs: Seq<F32>,
    pub outputs: Seq<F32>,
    pub n: nat,
    pub d: nat,
}

impl View for LayerEntry {
    type V = LayerModel;

    open spec fn view(&self) -> LayerModel {
        LayerModel {
            inputs: self.inputs_normed@,
            outputs: self.outputs@,
            n: self.n_entries as nat,
            d: self.d as nat,
        }
    }
}

impl LayerModel {
    /// The buffers hold exactly the rows that the layer counts, and rows are not empty.
    pub open spec fn well_shaped(self) -> bool {
        &&& self.d > 0
        &&& self.inputs.len() == self.n * self.d
        &&& self.outputs.len() == self.n * self.d
    }
}

/// The outcome of a lookup: no output on a miss, and the best similarity in any case.
#[derive(Clone, Debug, PartialEq)]
pub struct ShardLookup {
    pub mlp_out: Option<Vec<F32>>,
    pub best_sim: F32,
}

/// What a lookup says.
#[verifier::ext_equal]
pub struct LookupModel {
    pub mlp_out: Option<Seq<F32>>,
    pub best_sim: F32,
}

impl View for ShardLookup {
    type V = LookupModel;

    open spec fn view(&self) -> LookupModel {
        LookupModel {
            mlp_out: match self.mlp_out {
                Some(v) => Some(v@),
                None => None,
            },
            best_sim: self.best_sim,
        }
    }
}

/// Why a layer was not taken into the cache.
#[derive(Clone, Debug, PartialEq)]
pub enum CacheError {
    /// The inputs are not `n_entries` rows of width `d`.
    InputShape { got: usize, want: usize },
    /// The outputs are not `n_entries` rows of width `d`.
    OutputShape { got: usize, want: usize },
    /// Rows without width.
    ZeroDim,
}

impl CacheError {
    /// The error in words.
    pub open spec fn text(self) -> Seq<char> {
        match self {
            CacheError::InputShape { got, want } => "shard cache: inputs len "@ + numeral(
                got as nat,
            ) + " != n_entries × d = "@ + numeral(want as nat),
            CacheError::OutputShape { got, want } => "shard cache: outputs len "@ + numeral(
                got as nat,
            ) + " != n_entries × d = "@ + numeral(want as nat),
            CacheError::ZeroDim => "shard cache: d must be > 0"@,
        }
    }

    /// The error in words.
    pub fn message(&self) -> (r: String)
        ensures
            r@ == self.text(),
    {
        match self {
            CacheError::InputShape { got, want } => {
                let mut out: String = "shard cache: inputs len ".to_owned();
                append_numeral(&mut out, *got);
                out.append(" != n_entries × d = ");
                append_numeral(&mut out, *want);
                out
            },
            CacheError::OutputShape { got, want } => {
                let mut out: String = "shard cache: outputs len ".to_owned();
                append_numeral(&mut out, *got);
                out.append(" != n_entries × d = ");
                append_numeral(&mut out, *want);
                out
            },
            CacheError::ZeroDim => "shard cache: d must be > 0".to_owned(),
        }
    }
}

/// The length that a buffer of `n` rows of width `d` must have, as far as a count can say it.
pub open spec fn wanted_len(n: usize, d: usize) -> usize {
    if n * d > usize::MAX {
        usize::MAX
    } else {
        (n * d) as usize
    }
}

/// The first thing that is wrong with the shape of a layer.
pub open spec fn shape_error(
    inputs_len: usize,
    outputs_len: usize,
    n: usize,
    d: usize,
) -> Option<CacheError> {
    let want = wanted_len(n, d);
    if d == 0 {
        Some(CacheError::ZeroDim)
    } else if inputs_len != want {
        Some(CacheError::InputShape { got: inputs_len, want })
    } else if outputs_len != want {
        Some(CacheError::OutputShape { got: outputs_len, want })
    } else {
        None
    }
}

/// Checks the shape of a layer: the width first, then the inputs, then the outputs.
pub fn check_shape(inputs_len: usize, outputs_len: usize, n: usize, d: usize) -> (r: Result<
    (),
    CacheError,
>)
    ensures
        match shape_error(inputs_len, outputs_len, n, d) {
            Some(e) => r == Err::<(), CacheError>(e),
            None => r == Ok::<(), CacheError>(()),
        },
{
    if d == 0 {
        return Err(CacheError::ZeroDim);
    }
    let want: usize = match n.checked_mul(d) {
        Some(product) => product,
        None => usize::MAX,
    };
    if inputs_len != want {
        return Err(CacheError::InputShape { got: inputs_len, want });
    }
    if outputs_len != want {
        return Err(CacheError::OutputShape { got: outputs_len, want });
    }
    Ok(())
}

/// The answer that a layer gives to a query of its own width.
pub open spec fn layer_answer(
    m: Model32,
    layer: LayerModel,
    query: Seq<F32>,
    k: usize,
    tau: F32,
) -> LookupModel {
    let sims = similarities(m, layer.inputs, normalized(m, query), layer.n, layer.d as int);
    match selected(sims, k as int, tau) {
        Selection::Miss { best_sim } => LookupModel { mlp_out: None, best_sim },
        Selection::Single { row: i, best_sim } => LookupModel {
            mlp_out: Some(row(layer.outputs, i as int, layer.d as int)),
            best_sim,
        },
        Selection::Blend { count, best_sim } => LookupModel {
            mlp_out: Some(blended(m, sims, layer.outputs, count, layer.d)),
            best_sim,
        },
    }
}

/// Whether a query can be answered at all: its layer is there and is as wide as the query.
pub open spec fn answerable(
    layers: Map<u32, LayerModel>,
    layer_id: u32,
    query: Seq<F32>,
) -> bool {
    layers.contains_key(layer_id) && layers[layer_id].d == query.len()
}

/// An output is a stored one: some row of the layer's outputs, unchanged.
pub open spec fn is_stored_output(layer: LayerModel, out: Seq<F32>) -> bool {
    exists|i: int| 0 <= i < layer.n && out == #[trigger] row(layer.outputs, i, layer.d as int)
}

/// The answer that a cache gives to a query.
pub open spec fn cache_answer(
    m: Model32,
    layers: Map<u32, LayerModel>,
    layer_id: u32,
    query: Seq<F32>,
    k: usize,
    tau: F32,
) -> LookupModel {
    if answerable(layers, layer_id, query) {
        layer_answer(m, layers[layer_id], query, k, tau)
    } else {
        LookupModel { mlp_out: None, best_sim: zero_32() }
    }
}

/// In every model of the arithmetic `said` is the answer of these layers to the query.
pub open spec fn looks_up<A: Arith32>(
    arith: &A,
    layers: Map<u32, LayerModel>,
    layer_id: u32,
    query: Seq<F32>,
    k: usize,
    tau: F32,
    said: LookupModel,
) -> bool {
    forall|m: Model32| #[trigger]
        follows_32(arith, m) ==> said == cache_answer(m, layers, layer_id, query, k, tau)
}

/// The layers of a cache after a layer with these buffers was taken in.
pub open spec fn with_layer(
    layers: Map<u32, LayerModel>,
    layer_id: u32,
    inputs: Seq<F32>,
    outputs: Seq<F32>,
    n: nat,
    d: nat,
) -> Map<u32, LayerModel> {
    layers.insert(layer_id, LayerModel { inputs, outputs, n, d })
}

/// The cache: at most one entry for each layer, and the similarity below which a lookup misses.
#[derive(Debug)]
pub struct ShardCache {
    layers: HashMap<u32, LayerEntry>,
    tau: F32,
}

impl View for ShardCache {
    type V = Map<u32, LayerModel>;

    closed spec fn view(&self) -> Map<u32, LayerModel> {
        self.layers@.map_values(|e: LayerEntry| e@)
    }
}

impl Default for ShardCache {
    fn default() -> (r: ShardCache)
        ensures
            r.wf(),
            r@ == Map::<u32, LayerModel>::empty(),
            r.spec_tau() == zero_32(),
    {
        ShardCache::new(F32 { bits: 0 })
    }
}

impl ShardCache {
    /// Every entry has the shape that it counts.
    pub open spec fn wf(&self) -> bool {
        forall|id: u32| #[trigger] self@.contains_key(id) ==> self@[id].well_shaped()
    }

    pub closed spec fn spec_tau(&self) -> F32 {
        self.tau
    }

    /// An empty cache with this threshold.
    pub fn new(tau: F32) -> (r: ShardCache)
        ensures
            r.wf(),
            r@ == Map::<u32, LayerModel>::empty(),
            r.spec_tau() == tau,
    {
        let r = ShardCache { layers: HashMap::new(), tau };
        assert(r@ =~= Map::<u32, LayerModel>::empty());
        r
    }

    pub fn tau(&self) -> (r: F32)
        ensures
            r == self.spec_tau(),
    {
        self.tau
    }

    /// The number of layers.
    pub fn len(&self) -> (r: usize)
        ensures
            r == self@.dom().len(),
            self@.dom().finite(),
    {
        assert(self@.dom() =~= self.layers@.dom());
        self.layers.len()
    }

    pub fn is_empty(&self) -> (r: bool)
        ensures
            r == (self@ == Map::<u32, LayerModel>::empty()),
    {
        proof {
            assert(self@.dom() =~= self.layers@.dom());
            if self.layers@.is_empty() {
                assert(self@ =~= Map::<u32, LayerModel>::empty());
            }
            if self@ == Map::<u32, LayerModel>::empty() {
                assert(self.layers@ =~= Map::<u32, LayerEntry>::empty());
            }
        }
        self.layers.is_empty()
    }

    /// The number of entries of a layer, if it is there.
    pub fn layer_size(&self, layer_id: u32) -> (r: Option<usize>)
        ensures
            r is Some <==> self@.contains_key(layer_id),
            r matches Some(n) ==> n == self@[layer_id].n,
    {
        match self.layers.get(&layer_id) {
            Some(e) => Some(e.n_entries),
            None => None,
        }
    }

    /// Takes in a layer, dividing each input by its length; an entry for the same layer is
    /// replaced.
    ///
    /// No buffer of numbers is as long as a count can say, so the length that is wanted where the
    /// product overflows is never met.
    pub fn insert_layer<A: Arith32>(
        &mut self,
        layer_id: u32,
        inputs: &[F32],
        outputs: Vec<F32>,
        n_entries: usize,
        d: usize,
        arith: &A,
    ) -> (r: Result<(), CacheError>)
        requires
            old(self).wf(),
            inputs.len() < usize::MAX,
        ensures
            match shape_error(inputs@.len() as usize, outputs@.len() as usize, n_entries, d) {
                Some(e) => r == Err::<(), CacheError>(e),
                None => r == Ok::<(), CacheError>(()),
            },
            final(self).wf(),
            final(self).spec_tau() == old(self).spec_tau(),
            r is Err ==> *final(self) == *old(self),
            r is Ok ==> final(self)@ == with_layer(
                old(self)@,
                layer_id,
                final(self)@[layer_id].inputs,
                outputs@,
                n_entries as nat,
                d as nat,
            ),
            r is Ok ==> divides_rows(
                arith,
                inputs@,
                n_entries as nat,
                d as int,
                final(self)@[layer_id].inputs,
            ),
    {
        match check_shape(inputs.len(), outputs.len(), n_entries, d) {
            Err(e) => Err(e),
            Ok(()) => {
                let inputs_normed = l2_normalize_rows(inputs, n_entries, d, arith);
                let entry = LayerEntry { inputs_normed, outputs, n_entries, d };
                let ghost model = entry@;
                self.layers.insert(layer_id, entry);
                assert(self@ =~= old(self)@.insert(layer_id, model));
                Ok(())
            },
        }
    }

    /// Takes in a layer whose inputs are already divided by their lengths.
    pub fn seed_from_normed(
        &mut self,
        layer_id: u32,
        inputs_normed: Vec<F32>,
        outputs: Vec<F32>,
        n_entries: usize,
        d: usize,
    ) -> (r: Result<(), CacheError>)
        requires
            old(self).wf(),
            inputs_normed.len() < usize::MAX,
        ensures
            match shape_error(inputs_normed@.len() as usize, outputs@.len() as usize, n_entries, d) {
                Some(e) => r == Err::<(), CacheError>(e),
                None => r == Ok::<(), CacheError>(()),
            },
            final(self).wf(),
            final(self).spec_tau() == old(self).spec_tau(),
            r is Err ==> *final(self) == *old(self),
            r is Ok ==> final(self)@ == with_layer(
                old(self)@,
                layer_id,
                inputs_normed@,
                outputs@,
                n_entries as nat,
                d as nat,
            ),
    {
        match check_shape(inputs_normed.len(), outputs.len(), n_entries, d) {
            Err(e) => Err(e),
            Ok(()) => {
                let entry = LayerEntry { inputs_normed, outputs, n_entries, d };
                let ghost model = entry@;
                self.layers.insert(layer_id, entry);
                assert(self@ =~= old(self)@.insert(layer_id, model));
                Ok(())
            },
        }
    }

    /// Looks a query up: divides it by its length, compares it with every input of the layer,
    /// gates on `tau`, and answers with the best output or with an average of the best `k`.
    ///
    /// A layer that is not there, and a query of another width, are misses.
    pub fn knn_lookup<A: Arith32>(
        &self,
        layer_id: u32,
        query: &[F32],
        k: usize,
        tau: F32,
        arith: &A,
    ) -> (r: ShardLookup)
        requires
            self.wf(),
        ensures
            !answerable(self@, layer_id, query@) ==> r.mlp_out is None && r.best_sim == zero_32(),
            answerable(self@, layer_id, query@) ==> (r.mlp_out is Some <==> !r.best_sim.below(tau)),
            !r.best_sim.is_not_a_number(),
            r.mlp_out matches Some(out) ==> out.len() == query.len(),
            rows_used(k as int, self@[layer_id].n as int) == 1 ==> (r.mlp_out matches Some(out)
                ==> is_stored_output(self@[layer_id], out@)),
            looks_up(arith, self@, layer_id, query@, k, tau, r@),
    {
        match self.layers.get(&layer_id) {
            None => ShardLookup { mlp_out: None, best_sim: F32 { bits: 0 } },
            Some(layer) => {
                assert(self@.contains_key(layer_id));
                assert(self@[layer_id] == layer@ && layer@.well_shaped());
                assert(layer.outputs.len() == layer.n_entries * layer.d);
                if query.len() != layer.d {
                    return ShardLookup { mlp_out: None, best_sim: F32 { bits: 0 } };
                }
                let q_normed = l2_normalize(query, arith);
                let sims = cosine_similarities(
                    layer.inputs_normed.as_slice(),
                    q_normed.as_slice(),
                    layer.n_entries,
                    layer.d,
                    arith,
                );
                match select(sims.as_slice(), k, tau) {
                    Selection::Miss { best_sim } => ShardLookup { mlp_out: None, best_sim },
                    Selection::Single { row: i, best_sim } => {
                        proof {
                            lemma_row_bounds(i as int, layer.n_entries as int, layer.d as int);
                        }
                        let start: usize = i * layer.d;
                        let out = copied_range(layer.outputs.as_slice(), start, start + layer.d);
                        assert(out@ == row(layer@.outputs, i as int, layer.d as int));
                        ShardLookup { mlp_out: Some(out), best_sim }
                    },
                    Selection::Blend { count, best_sim } => {
                        proof {
                            assert forall|r: int|
                                0 <= r < strongest(sims@, count as int).len() implies ((
                            #[trigger] strongest(sims@, count as int)[r]).1 + 1) * layer.d
                                <= layer.outputs.len() by {
                                law_ranking_is_a_permutation(falling_keys(sims@));
                                let i = strongest(sims@, count as int)[r].1;
                                assert(i < sims.len());
                                lemma_row_bounds(
                                    i as int,
                                    layer.n_entries as int,
                                    layer.d as int,
                                );
                            }
                        }
                        let out = weighted_topk_average(
                            sims.as_slice(),
                            layer.outputs.as_slice(),
                            count,
                            layer.d,
                            arith,
                        );
                        ShardLookup { mlp_out: Some(out), best_sim }
                    },
                }
            },
        }
    }
}

/// A copy of part of a buffer.
fn copied_range(values: &[F32], start: usize, end: usize) -> (out: Vec<F32>)
    requires
        start <= end <= values.len(),
    ensures
        out@ == values@.subrange(start as int, end as int),
{
    let mut out: Vec<F32> = Vec::new();
    let mut i: usize = start;
    while i < end
        invariant
            start <= i <= end <= values.len(),
            out@ == values@.subrange(start as int, i as int),
        decreases end - i,
    {
        out.push(values[i]);
        i = i + 1;
        assert(out@ =~= values@.subrange(start as int, i as int));
    }
    out
}

/// The threshold decides between hit and miss and nothing else: the best similarity is reported
/// alike under any two thresholds, a lookup misses under one exactly when the best similarity of
/// an answerable query is below it, and two hits give the same output.
pub proof fn law_threshold_only_gates(
    m: Model32,
    layers: Map<u32, LayerModel>,
    layer_id: u32,
    query: Seq<F32>,
    k: usize,
    tau: F32,
    other_tau: F32,
)
    ensures
        ({
            let a = cache_answer(m, layers, layer_id, query, k, tau);
            let b = cache_answer(m, layers, layer_id, query, k, other_tau);
            &&& a.best_sim == b.best_sim
            &&& a.mlp_out is Some <==> answerable(layers, layer_id, query) && !a.best_sim.below(tau)
            &&& a.mlp_out is Some && b.mlp_out is Some ==> a.mlp_out == b.mlp_out
        }),
{
}

/// Lowering the threshold never turns a hit into a miss, nor changes what it gives.
pub proof fn law_lower_threshold_keeps_hits(
    m: Model32,
    layers: Map<u32, LayerModel>,
    layer_id: u32,
    query: Seq<F32>,
    k: usize,
    tau: F32,
    lower: F32,
)
    requires
        !tau.is_not_a_number(),
        !lower.is_not_a_number(),
        lower.place() <= tau.place(),
        cache_answer(m, layers, layer_id, query, k, tau).mlp_out is Some,
    ensures
        cache_answer(m, layers, layer_id, query, k, lower) == cache_answer(
            m,
            layers,
            layer_id,
            query,
            k,
            tau,
        ),
{
}

/// The best similarity of a layer is reported for every query of its width: no similarity that
/// is a number is above it, except where none is above negative infinity and zero is reported.
pub proof fn law_best_similarity_is_a_bound(
    m: Model32,
    layer: LayerModel,
    query: Seq<F32>,
    k: usize,
    tau: F32,
    i: int,
)
    requires
        0 <= i < layer.n,
    ensures
        ({
            let sims = similarities(m, layer.inputs, normalized(m, query), layer.n, layer.d as int);
            let said = layer_answer(m, layer, query, k, tau).best_sim;
            &&& said == best(sims).1
            &&& contender(sims[i]) ==> !said.below(sims[i])
        }),
{
    let sims = similarities(m, layer.inputs, normalized(m, query), layer.n, layer.d as int);
    lemma_best_is_found(sims);
}

/// Asking for no rows is asking for one, and asking for more rows than a layer has is asking for
/// all of them.
pub proof fn law_row_count_is_clamped(
    m: Model32,
    layers: Map<u32, LayerModel>,
    layer_id: u32,
    query: Seq<F32>,
    k: usize,
    tau: F32,
)
    requires
        layers.contains_key(layer_id) ==> layers[layer_id].n <= usize::MAX,
    ensures
        cache_answer(m, layers, layer_id, query, 0, tau) == cache_answer(
            m,
            layers,
            layer_id,
            query,
            1,
            tau,
        ),
        k >= layers[layer_id].n ==> cache_answer(m, layers, layer_id, query, k, tau)
            == cache_answer(m, layers, layer_id, query, layers[layer_id].n as usize, tau),
{
}

/// The best similarity depends on the layer and the query alone: it is reported alike for every
/// number of rows and every threshold.
pub proof fn law_best_similarity_is_of_the_query(
    m: Model32,
    layers: Map<u32, LayerModel>,
    layer_id: u32,
    query: Seq<F32>,
    k: usize,
    tau: F32,
    other_k: usize,
    other_tau: F32,
)
    ensures
        cache_answer(m, layers, layer_id, query, k, tau).best_sim == cache_answer(
            m,
            layers,
            layer_id,
            query,
            other_k,
            other_tau,
        ).best_sim,
{
}

/// A hit for a single row is the stored output of the most similar row, unchanged.
pub proof fn law_single_hit_is_the_best_output(
    m: Model32,
    layer: LayerModel,
    query: Seq<F32>,
    tau: F32,
)
    requires
        layer.well_shaped(),
        0 < layer.n <= usize::MAX,
        layer_answer(m, layer, query, 1, tau).mlp_out is Some,
    ensures
        ({
            let sims = similarities(m, layer.inputs, normalized(m, query), layer.n, layer.d as int);
            let i = best(sims).0;
            &&& 0 <= i < layer.n
            &&& layer_answer(m, layer, query, 1, tau).mlp_out == Some(
                row(layer.outputs, i, layer.d as int),
            )
        }),
{
    let sims = similarities(m, layer.inputs, normalized(m, query), layer.n, layer.d as int);
    lemma_best_is_found(sims);
}

/// Taking in a layer leaves the answers of all other layers as they were.
pub proof fn law_other_layers_are_untouched(
    m: Model32,
    layers: Map<u32, LayerModel>,
    inserted: u32,
    layer: LayerModel,
    layer_id: u32,
    query: Seq<F32>,
    k: usize,
    tau: F32,
)
    requires
        layer_id != inserted,
    ensures
        cache_answer(m, layers.insert(inserted, layer), layer_id, query, k, tau) == cache_answer(
            m,
            layers,
            layer_id,
            query,
            k,
            tau,
        ),
{
}

/// A layer that was taken in is the one that answers: what stood there before has no say.
pub proof fn law_last_insert_answers(
    m: Model32,
    layers: Map<u32, LayerModel>,
    layer_id: u32,
    layer: LayerModel,
    query: Seq<F32>,
    k: usize,
    tau: F32,
)
    requires
        layer.d == query.len(),
    ensures
        cache_answer(m, layers.insert(layer_id, layer), layer_id, query, k, tau) == layer_answer(
            m,
            layer,
            query,
            k,
            tau,
        ),
{
}

/// Taking in a layer replaces what stood there and nothing else: the layer is as it was given,
/// every other layer is as it was, and the number of layers grows by one exactly when the layer
/// is new.
pub proof fn law_insert_replaces_one_layer(
    layers: Map<u32, LayerModel>,
    layer_id: u32,
    inputs: Seq<F32>,
    outputs: Seq<F32>,
    n: nat,
    d: nat,
)
    requires
        layers.dom().finite(),
    ensures
        ({
            let after = with_layer(layers, layer_id, inputs, outputs, n, d);
            &&& after.contains_key(layer_id)
            &&& after[layer_id] == (LayerModel { inputs, outputs, n, d })
            &&& forall|id: u32|
                id != layer_id ==> (#[trigger] after.contains_key(id) <==> layers.contains_key(id))
            &&& forall|id: u32|
                id != layer_id && layers.contains_key(id) ==> #[trigger] after[id] == layers[id]
            &&& after.dom().finite()
            &&& after.dom().len() == layers.dom().len() + (if layers.contains_key(layer_id) {
                0int
            } else {
                1
            })
        }),
{
    let after = with_layer(layers, layer_id, inputs, outputs, n, d);
    assert(after.dom() =~= layers.dom().insert(layer_id));
}

/// Taking in raw inputs is seeding with each of them divided by its length: a buffer whose rows
/// are the divided rows is what is stored, and the outputs are stored as given.
pub proof fn law_insert_is_seeding_with_divided_rows(
    m: Model32,
    layers: Map<u32, LayerModel>,
    layer_id: u32,
    inputs: Seq<F32>,
    divided: Seq<F32>,
    outputs: Seq<F32>,
    n: nat,
    d: nat,
)
    requires
        d > 0,
        inputs.len() == n * d,
        divided.len() == n * d,
        forall|i: int|
            0 <= i < n ==> #[trigger] row(divided, i, d as int) == normalized(
                m,
                row(inputs, i, d as int),
            ),
    ensures
        with_layer(
            layers,
            layer_id,
            rows_normalized(m, inputs, n, d as int),
            outputs,
            n,
            d,
        ) == with_layer(layers, layer_id, divided, outputs, n, d),
{
    law_rows_are_normalized_one_by_one(m, inputs, n, d);
    let stored = rows_normalized(m, inputs, n, d as int);
    assert forall|i: int| 0 <= i < n implies #[trigger] row(divided, i, d as int) == row(
        stored,
        i,
        d as int,
    ) by {}
    lemma_rows_make_the_buffer(divided, stored, n, d);
}

/// Seeded rows are compared as they were given: the best similarity that a lookup reports is the
/// best of the scalar products of the seeded rows with the divided query.
pub proof fn law_seeded_rows_are_compared_as_given(
    m: Model32,
    layers: Map<u32, LayerModel>,
    layer_id: u32,
    inputs: Seq<F32>,
    outputs: Seq<F32>,
    n: nat,
    query: Seq<F32>,
    k: usize,
    tau: F32,
)
    ensures
        cache_answer(
            m,
            with_layer(layers, layer_id, inputs, outputs, n, query.len()),
            layer_id,
            query,
            k,
            tau,
        ).best_sim == best(
            similarities(m, inputs, normalized(m, query), n, query.len() as int),
        ).1,
{
}

/// A query hits exactly when some row is similar enough: in a layer that has a contender at all,
/// an answer is found if and only if one of them is not below the threshold.
pub proof fn law_hit_means_a_similar_row(
    m: Model32,
    layer: LayerModel,
    query: Seq<F32>,
    k: usize,
    tau: F32,
)
    requires
        ({
            let sims = similarities(m, layer.inputs, normalized(m, query), layer.n, layer.d as int);
            exists|i: int| 0 <= i < layer.n && contender(#[trigger] sims[i])
        }),
    ensures
        ({
            let sims = similarities(m, layer.inputs, normalized(m, query), layer.n, layer.d as int);
            layer_answer(m, layer, query, k, tau).mlp_out is Some <==> exists|i: int|
                0 <= i < layer.n && contender(#[trigger] sims[i]) && !sims[i].below(tau)
        }),
{
    let sims = similarities(m, layer.inputs, normalized(m, query), layer.n, layer.d as int);
    lemma_best_is_found(sims);
    let found = best(sims).0;
    assert(first_best(sims, found));
    assert(contender(sims[found]));
}

/// A stored input finds its layer again: a query with an input that was taken in is compared with
/// that input like with itself, so the best similarity is not below the scalar product of the
/// divided query with itself, and the query hits under every threshold that this product reaches.
pub proof fn law_stored_input_is_found(
    m: Model32,
    rows: Seq<F32>,
    layer: LayerModel,
    i: int,
    k: usize,
    tau: F32,
)
    requires
        layer.well_shaped(),
        rows.len() == layer.n * layer.d,
        layer.inputs == rows_normalized(m, rows, layer.n, layer.d as int),
        0 <= i < layer.n,
    ensures
        ({
            let query = row(rows, i, layer.d as int);
            let itself = dot(m, normalized(m, query), normalized(m, query));
            let said = layer_answer(m, layer, query, k, tau);
            &&& query.len() == layer.d
            &&& contender(itself) ==> !said.best_sim.below(itself)
            &&& contender(itself) && !itself.below(tau) ==> said.mlp_out is Some
        }),
{
    let query = row(rows, i, layer.d as int);
    lemma_row_bounds(i, layer.n as int, layer.d as int);
    lemma_row_of_normalized(m, rows, layer.n, layer.d, i);
    let sims = similarities(m, layer.inputs, normalized(m, query), layer.n, layer.d as int);
    assert(sims[i] == dot(m, normalized(m, query), normalized(m, query)));
    lemma_best_is_found(sims);
}

/// A value that is zero or no number at all.
pub open spec fn naught(x: F32) -> bool {
    x.same_number(zero_32()) || x.is_not_a_number()
}

/// The arithmetic makes nothing of naughts: the sum of two, anything times one, and one divided by
/// anything are naughts again.
pub open spec fn keeps_naught(m: Model32) -> bool {
    &&& forall|a: F32, b: F32| naught(a) && naught(b) ==> naught(#[trigger] (m.sum)(a, b))
    &&& forall|a: F32, b: F32| naught(b) ==> naught(#[trigger] (m.product)(a, b))
    &&& forall|a: F32, b: F32| naught(a) ==> naught(#[trigger] (m.quotient)(a, b))
}

proof fn lemma_sum_of_naughts(m: Model32, s: Seq<F32>)
    requires
        keeps_naught(m),
        forall|j: int| 0 <= j < s.len() ==> naught(#[trigger] s[j]),
    ensures
        naught(total(m, s)),
    decreases s.len(),
{
    if s.len() > 0 {
        let shorter = s.drop_last();
        assert forall|j: int| 0 <= j < shorter.len() implies naught(#[trigger] shorter[j]) by {
            assert(shorter[j] == s[j]);
        }
        lemma_sum_of_naughts(m, shorter);
    }
}

/// A query without length is similar to nothing: whatever a layer holds, its best similarity is
/// zero and it misses under every threshold above zero, in any arithmetic that makes nothing of
/// naughts.
pub proof fn law_zero_query_misses(
    m: Model32,
    layer: LayerModel,
    query: Seq<F32>,
    k: usize,
    tau: F32,
)
    requires
        keeps_naught(m),
        layer.well_shaped(),
        layer.d == query.len(),
        forall|j: int| 0 <= j < query.len() ==> (#[trigger] query[j]).same_number(zero_32()),
        zero_32().below(tau),
    ensures
        layer_answer(m, layer, query, k, tau).mlp_out is None,
        layer_answer(m, layer, query, k, tau).best_sim.same_number(zero_32()),
{
    let q = normalized(m, query);
    let d = layer.d as int;
    let sims = similarities(m, layer.inputs, q, layer.n, d);
    assert forall|i: int| 0 <= i < sims.len() implies naught(#[trigger] sims[i]) by {
        let r = row(layer.inputs, i, d);
        let terms = products(m, r, q);
        lemma_row_bounds(i, layer.n as int, d);
        assert forall|j: int| 0 <= j < terms.len() implies naught(#[trigger] terms[j]) by {
            assert(naught(query[j]));
            assert(q[j] == (m.quotient)(query[j], norm(m, query)));
            assert(terms[j] == (m.product)(r[j], q[j]));
        }
        lemma_sum_of_naughts(m, terms);
        assert(sims[i] == total(m, terms));
    }
    lemma_best_is_found(sims);
    let found = best(sims).0;
    if exists|i: int| 0 <= i < sims.len() && contender(#[trigger] sims[i]) {
        assert(naught(sims[found]));
    } else {
        assert forall|i: int| !first_best(sims, i) by {
            if first_best(sims, i) {
                assert(contender(sims[i]));
            }
        }
    }
}

/// An answer is as wide as the rows of its layer.
pub proof fn law_answers_have_the_width_of_the_layer(
    m: Model32,
    layer: LayerModel,
    query: Seq<F32>,
    k: usize,
    tau: F32,
)
    requires
        layer.well_shaped(),
        layer.n <= usize::MAX,
    ensures
        layer_answer(m, layer, query, k, tau).mlp_out matches Some(out) ==> out.len() == layer.d,
{
    let sims = similarities(m, layer.inputs, normalized(m, query), layer.n, layer.d as int);
    lemma_best_is_found(sims);
    if layer.n > 0 {
        lemma_row_bounds(best(sims).0, layer.n as int, layer.d as int);
    }
}

/// Two lookups of one query compare: in an arithmetic of functions they report the same best
/// similarity whatever they ask for, give the same answer where they come to use as many rows
/// under one threshold, and a hit stays the same hit under a lower threshold.
pub proof fn law_two_lookups_of_a_query<A: Arith32>(
    arith: &A,
    layers: Map<u32, LayerModel>,
    layer_id: u32,
    query: Seq<F32>,
    k: usize,
    tau: F32,
    said: LookupModel,
    other_k: usize,
    other_tau: F32,
    other_said: LookupModel,
)
    requires
        computes_functions_32(arith),
        looks_up(arith, layers, layer_id, query, k, tau, said),
        looks_up(arith, layers, layer_id, query, other_k, other_tau, other_said),
    ensures
        said.best_sim == other_said.best_sim,
        tau == other_tau && rows_used(k as int, layers[layer_id].n as int) == rows_used(
            other_k as int,
            layers[layer_id].n as int,
        ) ==> said == other_said,
        tau == other_tau && k == 0 && other_k == 1 ==> said == other_said,
        tau == other_tau && k >= layers[layer_id].n && other_k >= layers[layer_id].n ==> said
            == other_said,
        k == other_k && !tau.is_not_a_number() && !other_tau.is_not_a_number() && other_tau.place()
            <= tau.place() && said.mlp_out is Some ==> said == other_said,
{
    law_functions_follow_a_model_32(arith);
    let m = choose|m: Model32| follows_32(arith, m);
    assert(said == cache_answer(m, layers, layer_id, query, k, tau));
    assert(other_said == cache_answer(m, layers, layer_id, query, other_k, other_tau));
}

/// Lookups depend on the layer that they ask alone: in an arithmetic of functions two caches that
/// hold the same layer under an identifier, or both none, give the same answer for it.  So a layer
/// that is taken in elsewhere, or refused, changes no answer.
pub proof fn law_same_layers_answer_alike<A: Arith32>(
    arith: &A,
    layers: Map<u32, LayerModel>,
    other: Map<u32, LayerModel>,
    layer_id: u32,
    query: Seq<F32>,
    k: usize,
    tau: F32,
    said: LookupModel,
    other_said: LookupModel,
)
    requires
        computes_functions_32(arith),
        layers.contains_key(layer_id) <==> other.contains_key(layer_id),
        layers.contains_key(layer_id) ==> layers[layer_id] == other[layer_id],
        looks_up(arith, layers, layer_id, query, k, tau, said),
        looks_up(arith, other, layer_id, query, k, tau, other_said),
    ensures
        said == other_said,
{
    law_functions_follow_a_model_32(arith);
    let m = choose|m: Model32| follows_32(arith, m);
    assert(said == cache_answer(m, layers, layer_id, query, k, tau));
    assert(other_said == cache_answer(m, other, layer_id, query, k, tau));
}

/// Taking in raw inputs and seeding with the vectors that [`l2_normalize`] returns for them leave
/// the same layers behind, in an arithmetic of functions.
pub proof fn law_inserting_and_seeding_leave_the_same_layers<A: Arith32>(
    arith: &A,
    layers: Map<u32, LayerModel>,
    layer_id: u32,
    inputs: Seq<F32>,
    stored: Seq<F32>,
    seeded: Seq<F32>,
    outputs: Seq<F32>,
    n: nat,
    d: nat,
)
    requires
        computes_functions_32(arith),
        d > 0,
        inputs.len() == n * d,
        seeded.len() == n * d,
        divides_rows(arith, inputs, n, d as int, stored),
        forall|i: int|
            0 <= i < n ==> divides(
                arith,
                row(inputs, i, d as int),
                #[trigger] row(seeded, i, d as int),
            ),
    ensures
        with_layer(layers, layer_id, stored, outputs, n, d) == with_layer(
            layers,
            layer_id,
            seeded,
            outputs,
            n,
            d,
        ),
{
    law_functions_follow_a_model_32(arith);
    let m = choose|m: Model32| follows_32(arith, m);
    assert(stored == rows_normalized(m, inputs, n, d as int));
    assert forall|i: int| 0 <= i < n implies #[trigger] row(seeded, i, d as int) == normalized(
        m,
        row(inputs, i, d as int),
    ) by {}
    law_insert_is_seeding_with_divided_rows(
        m,
        layers,
        layer_id,
        inputs,
        seeded,
        outputs,
        n,
        d,
    );
}

/// A lookup in a seeded layer reports the largest of the scalar products that
/// [`cosine_similarities`] returns for the rows as they were given and the query that
/// [`l2_normalize`] divided, in an arithmetic of functions.
pub proof fn law_seeded_lookup_reports_the_best_similarity<A: Arith32>(
    arith: &A,
    layers: Map<u32, LayerModel>,
    layer_id: u32,
    inputs: Seq<F32>,
    outputs: Seq<F32>,
    n: nat,
    query: Seq<F32>,
    k: usize,
    tau: F32,
    divided: Seq<F32>,
    sims: Seq<F32>,
    said: LookupModel,
)
    requires
        computes_functions_32(arith),
        divides(arith, query, divided),
        compares(arith, inputs, divided, n, query.len() as int, sims),
        looks_up(
            arith,
            with_layer(layers, layer_id, inputs, outputs, n, query.len()),
            layer_id,
            query,
            k,
            tau,
            said,
        ),
    ensures
        said.best_sim == best(sims).1,
{
    law_functions_follow_a_model_32(arith);
    let m = choose|m: Model32| follows_32(arith, m);
    assert(divided == normalized(m, query));
    assert(sims == similarities(m, inputs, divided, n, query.len() as int));
    assert(said == cache_answer(
        m,
        with_layer(layers, layer_id, inputs, outputs, n, query.len()),
        layer_id,
        query,
        k,
        tau,
    ));
}

} // verus!
