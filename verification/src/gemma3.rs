//! The Gemma 3 architecture: what sets its layers apart from a standard decoder.

use crate::arith::{follows_32, Arith32, Model32};
use crate::float::{one_32, one_64, zero_32, F32, F64, ONE_BITS_32, ONE_BITS_64};
use crate::text::{ascii_lower, same_text_ignoring_ascii_case};
use vstd::prelude::*;
use vstd::string::*;

verus! {

/// Every sixth layer (indices 5, 11, 17, ...) attends to everything, the others to a sliding
/// window.
pub const GEMMA3_SLIDING_WINDOW_PATTERN: usize = 6;

/// A scaling of the rotary position embedding.
pub struct RopeScaling {
    pub scaling_type: String,
    pub factor: F64,
}

/// What the architecture reads of a model's configuration.
pub struct ModelConfig {
    pub hidden_size: usize,
    pub rope_base: F64,
    pub rope_local_base: Option<F64>,
    pub rope_scaling: Option<RopeScaling>,
}

/// The activation of the feed-forward block.
#[derive(Clone, Copy, Debug, PartialEq, Eq, Structural)]
pub enum Activation {
    GeluTanh,
}

/// The Gemma 3 architecture over a configuration.
pub struct Gemma3Arch {
    config: ModelConfig,
}

/// Whether a layer attends to a sliding window only.
pub open spec fn slides(layer: int) -> bool {
    (layer + 1) % 6 != 0
}

/// The scaling is the linear one, in whatever ASCII case its name is written.
pub open spec fn is_linear(scaling: RopeScaling) -> bool {
    scaling.scaling_type@.map_values(|c: char| ascii_lower(c)) == "linear"@.map_values(
        |c: char| ascii_lower(c),
    )
}

/// The divisor of the positions on a layer: the factor of a linear scaling on the layers that
/// attend to everything, else one.
pub open spec fn position_divisor(scaling: Option<RopeScaling>, layer: int) -> F64 {
    match scaling {
        Some(s) => if is_linear(s) && !slides(layer) {
            s.factor
        } else {
            one_64()
        },
        None => one_64(),
    }
}

/// In every model of the arithmetic `r` is the square root of the hidden size.
pub open spec fn scales_embedding<A: Arith32>(arith: &A, hidden_size: usize, r: F32) -> bool {
    forall|m: Model32| #[trigger]
        follows_32(arith, m) ==> r == (m.root)((m.from_count)(hidden_size))
}

impl Gemma3Arch {
    pub closed spec fn spec_config(self) -> ModelConfig {
        self.config
    }

    pub fn from_config(config: ModelConfig) -> (r: Self)
        ensures
            r.spec_config() == config,
    {
        Self { config }
    }

    pub fn family(&self) -> (r: &str)
        ensures
            r@ == "gemma3"@,
    {
        "gemma3"
    }

    pub fn config(&self) -> (r: &ModelConfig)
        ensures
            *r == self.spec_config(),
    {
        &self.config
    }

    /// The key of the query-norm weights of the layer whose keys start with `layer_prefix`.
    pub fn attn_q_norm_key(&self, layer_prefix: &str) -> (r: Option<String>)
        ensures
            r is Some,
            r->0@ == layer_prefix@ + "self_attn.q_norm.weight"@,
    {
        let mut key: String = layer_prefix.to_owned();
        key.append("self_attn.q_norm.weight");
        Some(key)
    }

    /// The key of the key-norm weights of the layer whose keys start with `layer_prefix`.
    pub fn attn_k_norm_key(&self, layer_prefix: &str) -> (r: Option<String>)
        ensures
            r is Some,
            r->0@ == layer_prefix@ + "self_attn.k_norm.weight"@,
    {
        let mut key: String = layer_prefix.to_owned();
        key.append("self_attn.k_norm.weight");
        Some(key)
    }

    /// What is added to a saved layer-norm weight: nothing, because the weights are saved with
    /// their offset already in them.
    pub fn norm_weight_offset(&self) -> (r: F32)
        ensures
            r == zero_32(),
    {
        F32 { bits: 0 }
    }

    /// What is added to the learned weight of a query or key norm.
    pub fn qk_norm_weight_offset(&self) -> (r: F32)
        ensures
            r == one_32(),
    {
        F32 { bits: ONE_BITS_32 }
    }

    pub fn activation(&self) -> (r: Activation)
        ensures
            r == Activation::GeluTanh,
    {
        Activation::GeluTanh
    }

    /// The factor on the embedding: the square root of the hidden size.
    pub fn embed_scale<A: Arith32>(&self, arith: &A) -> (r: F32)
        ensures
            scales_embedding(arith, self.spec_config().hidden_size, r),
    {
        arith.root(arith.from_count(self.config.hidden_size))
    }

    pub fn has_post_norms(&self) -> (r: bool)
        ensures
            r,
    {
        true
    }

    /// Full attention on every sixth layer, a sliding window on the rest.
    pub fn is_sliding_window_layer(&self, layer: usize) -> (r: bool)
        requires
            layer < usize::MAX,
        ensures
            r == slides(layer as int),
    {
        (layer + 1) % GEMMA3_SLIDING_WINDOW_PATTERN != 0
    }

    /// The base of the rotary embedding: sliding layers use the local base, or `default_base`
    /// where the configuration gives none, and the others the global one.
    pub fn rope_base_for_layer(&self, layer: usize, default_base: F64) -> (r: F64)
        requires
            layer < usize::MAX,
        ensures
            r == (if !slides(layer as int) {
                self.spec_config().rope_base
            } else {
                match self.spec_config().rope_local_base {
                    Some(base) => base,
                    None => default_base,
                }
            }),
    {
        if self.is_sliding_window_layer(layer) {
            match self.config.rope_local_base {
                Some(base) => base,
                None => default_base,
            }
        } else {
            self.config.rope_base
        }
    }

    /// The divisor of the positions: a linear scaling applies to the layers with full attention
    /// only, and sliding layers keep the standard embedding.
    pub fn rope_position_divisor_for_layer(&self, layer: usize) -> (r: F64)
        requires
            layer < usize::MAX,
        ensures
            r == position_divisor(self.spec_config().rope_scaling, layer as int),
    {
        let one = F64 { bits: ONE_BITS_64 };
        match &self.config.rope_scaling {
            Some(scaling) => {
                if !same_text_ignoring_ascii_case(scaling.scaling_type.as_str(), "linear") {
                    return one;
                }
                if self.is_sliding_window_layer(layer) {
                    one
                } else {
                    scaling.factor
                }
            },
            None => one,
        }
    }
}

/// Among any six consecutive layers exactly one has full attention.
pub proof fn law_one_full_layer_in_six(first: int)
    requires
        first >= 0,
    ensures
        exists|i: int|
            first <= i < first + 6 && !(#[trigger] slides(i)) && forall|j: int|
                first <= j < first + 6 && j != i ==> #[trigger] slides(j),
{
    let i: int = first + (5 - first % 6);
    assert(!slides(i));
    assert forall|j: int| first <= j < first + 6 && j != i implies #[trigger] slides(j) by {}
}

/// Scaling never touches a sliding layer, whatever the configuration says.
pub proof fn law_sliding_layers_are_never_scaled(scaling: Option<RopeScaling>, layer: int)
    requires
        slides(layer),
    ensures
        position_divisor(scaling, layer) == one_64(),
{
}

} // verus!
