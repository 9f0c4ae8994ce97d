use larql::arith::Arith32;
use larql::float::{F32, F64};
use larql::gemma3::{Activation, Gemma3Arch, ModelConfig, RopeScaling};
use larql::order::rank;
use larql::text::{
    append_numeral, contains_text, find_from, is_white_space, same_text,
    same_text_ignoring_ascii_case, trim,
};

struct Native;

fn f(x: F32) -> f32 {
    f32::from_bits(x.to_bits())
}

fn n(x: f32) -> F32 {
    F32::from_bits(x.to_bits())
}

fn list(values: &[f32]) -> Vec<F32> {
    values.iter().map(|x| n(*x)).collect()
}

impl Arith32 for Native {
    fn sum(&self, a: F32, b: F32) -> F32 {
        n(f(a) + f(b))
    }

    fn product(&self, a: F32, b: F32) -> F32 {
        n(f(a) * f(b))
    }

    fn quotient(&self, a: F32, b: F32) -> F32 {
        n(f(a) / f(b))
    }

    fn root(&self, a: F32) -> F32 {
        n(f(a).sqrt())
    }

    fn from_count(&self, count: usize) -> F32 {
        n(count as f32)
    }
}

fn d(x: f64) -> F64 {
    F64::from_bits(x.to_bits())
}

fn arch(local: Option<f64>, scaling: Option<(&str, f64)>) -> Gemma3Arch {
    Gemma3Arch::from_config(ModelConfig {
        hidden_size: 2304,
        rope_base: d(1_000_000.0),
        rope_local_base: local.map(d),
        rope_scaling: scaling.map(|(kind, factor)| RopeScaling {
            scaling_type: kind.to_string(),
            factor: d(factor),
        }),
    })
}

#[test]
fn gemma3_describes_itself() {
    let a = arch(None, None);
    assert_eq!(a.family(), "gemma3");
    assert_eq!(a.config().hidden_size, 2304);
    assert_eq!(a.norm_weight_offset(), n(0.0));
    assert_eq!(a.qk_norm_weight_offset(), n(1.0));
    assert_eq!(a.activation(), Activation::GeluTanh);
    assert!(a.has_post_norms());
    assert_eq!(a.embed_scale(&Native), n(48.0));
    assert_eq!(
        a.attn_q_norm_key("layers.3."),
        Some("layers.3.self_attn.q_norm.weight".to_string())
    );
    assert_eq!(
        a.attn_k_norm_key("layers.3."),
        Some("layers.3.self_attn.k_norm.weight".to_string())
    );
}

#[test]
fn every_sixth_layer_has_full_attention() {
    let a = arch(None, None);
    let full: Vec<usize> = (0..30).filter(|l| !a.is_sliding_window_layer(*l)).collect();
    assert_eq!(full, vec![5, 11, 17, 23, 29]);
}

#[test]
fn rope_base_depends_on_the_layer() {
    let a = arch(Some(12_000.0), None);
    assert_eq!(a.rope_base_for_layer(0, d(10_000.0)), d(12_000.0));
    assert_eq!(a.rope_base_for_layer(5, d(10_000.0)), d(1_000_000.0));
    let a = arch(None, None);
    assert_eq!(a.rope_base_for_layer(0, d(10_000.0)), d(10_000.0));
}

#[test]
fn linear_scaling_reaches_full_layers_only() {
    let a = arch(None, Some(("LiNear", 8.0)));
    assert_eq!(a.rope_position_divisor_for_layer(5), d(8.0));
    assert_eq!(a.rope_position_divisor_for_layer(4), d(1.0));
    let a = arch(None, Some(("yarn", 8.0)));
    assert_eq!(a.rope_position_divisor_for_layer(5), d(1.0));
    let a = arch(None, None);
    assert_eq!(a.rope_position_divisor_for_layer(5), d(1.0));
}

#[test]
fn numbers_compare_like_the_platform_compares_them() {
    let values = [
        0.0f32, -0.0, 1.0, -1.0, 1.5, f32::MAX, f32::MIN, f32::MIN_POSITIVE, 1e-45, -1e-45,
        f32::INFINITY, f32::NEG_INFINITY, f32::NAN, -f32::NAN,
    ];
    for a in values {
        assert_eq!(n(a).is_nan(), a.is_nan());
        assert_eq!(n(a).clip().to_bits(), if a > 0.0 { a.to_bits() } else { 0 });
        for b in values {
            assert_eq!(n(a) == n(b), a == b);
            assert_eq!(n(a).partial_cmp(&n(b)), a.partial_cmp(&b));
            assert_eq!(n(a).is_below(n(b)), a < b);
            let (x, y) = (a as f64, b as f64);
            assert_eq!(d(x) == d(y), x == y);
            assert_eq!(d(x).partial_cmp(&d(y)), x.partial_cmp(&y));
            assert_eq!(d(x).is_below(d(y)), x < y);
        }
    }
    assert_eq!(list(&[2.0])[0].to_bits(), 0x4000_0000);
    assert!((f(n(0.25)) - 0.25).abs() < 1e-9);
}

#[test]
fn ranking_is_ascending_and_stable() {
    let keys = vec![3i64, -1, 3, 0, -1];
    assert_eq!(rank(&keys), vec![(-1, 1), (-1, 4), (0, 3), (3, 0), (3, 2)]);
    assert!(rank(&vec![]).is_empty());
}

#[test]
fn white_space_is_that_of_the_standard_library() {
    for code in 0u32..=0x10ffff {
        if let Some(c) = char::from_u32(code) {
            assert_eq!(is_white_space(c), c.is_whitespace());
        }
    }
}

#[test]
fn trimming_is_that_of_the_standard_library() {
    for s in ["", " ", "  a b\t", "\u{3000}x\u{a0}", "none", "\n\r", "é "] {
        assert_eq!(trim(s), s.trim());
    }
}

#[test]
fn searching_finds_first_places() {
    assert_eq!(find_from("a=b=c", '=', 0), 1);
    assert_eq!(find_from("a=b=c", '=', 2), 3);
    assert_eq!(find_from("a=b=c", '=', 4), 5);
    assert_eq!(find_from("", '=', 0), 0);
    assert!(contains_text("cpu,metal", "metal"));
    assert!(contains_text("x", ""));
    assert!(!contains_text("meta", "metal"));
    assert!(!contains_text("met al", "metal"));
    assert!(same_text("añb", "añb"));
    assert!(!same_text("añb", "anb"));
    assert!(same_text_ignoring_ascii_case("LINEAR", "linear"));
    assert!(!same_text_ignoring_ascii_case("linea", "linear"));
    assert!(!same_text_ignoring_ascii_case("É", "é"));
    assert!(!same_text_ignoring_ascii_case("[", "{"));
}

#[test]
fn numerals_have_no_leading_zeros() {
    for count in [0usize, 7, 10, 99, 100, 1030, usize::MAX] {
        let mut out = String::from("n=");
        append_numeral(&mut out, count);
        assert_eq!(out, format!("n={}", count));
    }
}
