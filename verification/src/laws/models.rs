//! The Gemma 3 architecture.

use crate::arith::{follows_32, Arith32, Model32};
use crate::float::{F32, F64};
use crate::gemma3::{Activation, Gemma3Arch, ModelConfig};
use crate::laws::texts::same_letter;
use crate::text::ascii_lower;
use vstd::prelude::*;

verus! {

/// The architecture is made from a configuration and gives it back.
pub proof fn law_configuration_is_kept(config: ModelConfig, arch: Gemma3Arch, back: &ModelConfig)
    requires
        call_ensures(Gemma3Arch::from_config, (config,), arch),
        call_ensures(Gemma3Arch::config, (&arch,), back),
    ensures
        *back == config,
        arch.spec_config() == config,
{
}

/// Layers 5, 11, 17 and so on attend to everything, and all others to a sliding window.
pub proof fn law_full_layers_come_every_six(arch: &Gemma3Arch, layer: usize, r: bool, n: int)
    requires
        layer < usize::MAX,
        call_ensures(Gemma3Arch::is_sliding_window_layer, (arch, layer), r),
    ensures
        layer == 6 * n + 5 ==> !r,
        6 * n + 5 < layer < 6 * n + 11 ==> r,
        layer < 5 ==> r,
{
}

/// Sliding layers have the local rotary base, or the default one where none is configured; the
/// others have the global one.
pub proof fn law_rotary_bases(
    arch: &Gemma3Arch,
    layer: usize,
    default_base: F64,
    slides: bool,
    r: F64,
)
    requires
        layer < usize::MAX,
        call_ensures(Gemma3Arch::is_sliding_window_layer, (arch, layer), slides),
        call_ensures(Gemma3Arch::rope_base_for_layer, (arch, layer, default_base), r),
    ensures
        !slides ==> r == arch.spec_config().rope_base,
        slides ==> (arch.spec_config().rope_local_base matches Some(base) ==> r == base),
        slides && arch.spec_config().rope_local_base is None ==> r == default_base,
{
}

/// Positions are divided by the factor of a scaling exactly when it is called linear, in whatever
/// ASCII case, and the layer attends to everything; otherwise by one.
pub proof fn law_positions_are_scaled_on_full_layers(
    arch: &Gemma3Arch,
    layer: usize,
    slides: bool,
    r: F64,
)
    requires
        layer < usize::MAX,
        call_ensures(Gemma3Arch::is_sliding_window_layer, (arch, layer), slides),
        call_ensures(Gemma3Arch::rope_position_divisor_for_layer, (arch, layer), r),
    ensures
        slides || arch.spec_config().rope_scaling is None ==> r == (F64 {
            bits: 0x3ff0_0000_0000_0000,
        }),
        arch.spec_config().rope_scaling matches Some(scaling) ==> {
            let name = scaling.scaling_type@;
            let linear = seq!['l', 'i', 'n', 'e', 'a', 'r'];
            let is_linear = name.len() == 6 && forall|i: int|
                0 <= i < 6 ==> same_letter(#[trigger] name[i], linear[i]);
            &&& !slides && is_linear ==> r == scaling.factor
            &&& !is_linear ==> r == (F64 { bits: 0x3ff0_0000_0000_0000 })
        },
{
    reveal_strlit("linear");
    if let Some(scaling) = arch.spec_config().rope_scaling {
        let name = scaling.scaling_type@;
        let linear = seq!['l', 'i', 'n', 'e', 'a', 'r'];
        assert("linear"@ =~= linear);
        let lower = |c: char| ascii_lower(c);
        let x = name.map_values(lower);
        let y = linear.map_values(lower);
        if name.len() == 6 && forall|i: int|
            0 <= i < 6 ==> same_letter(#[trigger] name[i], linear[i]) {
            assert forall|i: int| 0 <= i < 6 implies x[i] == y[i] by {
                assert(same_letter(name[i], linear[i]));
            }
            assert(x =~= y);
        } else if x == y {
            assert(x.len() == y.len());
            assert forall|i: int| 0 <= i < 6 implies same_letter(#[trigger] name[i], linear[i]) by {
                assert(x[i] == y[i]);
                assert(x[i] == ascii_lower(name[i]) && y[i] == ascii_lower(linear[i]));
            }
        }
    }
}

/// The embedding is scaled by the square root of the hidden size.
pub proof fn law_embedding_is_scaled_by_the_root<A: Arith32>(
    arith: &A,
    m: Model32,
    arch: &Gemma3Arch,
    r: F32,
)
    requires
        follows_32(arith, m),
        call_ensures(Gemma3Arch::embed_scale::<A>, (arch, arith), r),
    ensures
        r == (m.root)((m.from_count)(arch.spec_config().hidden_size)),
{
}

/// The constants of the architecture: its family, its activation, its norms and their offsets.
pub proof fn law_constants(
    arch: &Gemma3Arch,
    family: &str,
    activation: Activation,
    post_norms: bool,
    norm_offset: F32,
    qk_offset: F32,
)
    requires
        call_ensures(Gemma3Arch::family, (arch,), family),
        call_ensures(Gemma3Arch::activation, (arch,), activation),
        call_ensures(Gemma3Arch::has_post_norms, (arch,), post_norms),
        call_ensures(Gemma3Arch::norm_weight_offset, (arch,), norm_offset),
        call_ensures(Gemma3Arch::qk_norm_weight_offset, (arch,), qk_offset),
    ensures
        family@ == seq!['g', 'e', 'm', 'm', 'a', '3'],
        activation is GeluTanh,
        post_norms,
        norm_offset.bits == 0,
        qk_offset.bits == 0x3f80_0000,
{
    reveal_strlit("gemma3");
    assert("gemma3"@ =~= seq!['g', 'e', 'm', 'm', 'a', '3']);
}

/// The keys of the query and key norms stand under the prefix of their layer and tell each other
/// apart.
pub proof fn law_norm_keys(
    arch: &Gemma3Arch,
    prefix: &str,
    q: Option<String>,
    k: Option<String>,
)
    requires
        call_ensures(Gemma3Arch::attn_q_norm_key, (arch, prefix), q),
        call_ensures(Gemma3Arch::attn_k_norm_key, (arch, prefix), k),
    ensures
        q is Some && k is Some,
        prefix@.is_prefix_of(q->0@) && prefix@.is_prefix_of(k->0@),
        q->0@.skip(prefix@.len() as int) == "self_attn.q_norm.weight"@,
        k->0@.skip(prefix@.len() as int) == "self_attn.k_norm.weight"@,
        q->0@ != k->0@,
{
    reveal_strlit("self_attn.q_norm.weight");
    reveal_strlit("self_attn.k_norm.weight");
    assert(q->0@.skip(prefix@.len() as int) =~= "self_attn.q_norm.weight"@);
    assert(k->0@.skip(prefix@.len() as int) =~= "self_attn.k_norm.weight"@);
    assert("self_attn.q_norm.weight"@[10] != "self_attn.k_norm.weight"@[10]);
}

} // verus!
