use larql::arith::Arith32;
use larql::cache::{check_shape, CacheError, LayerEntry, ShardCache, ShardLookup};
use larql::float::F32;
use larql::service::{answer_query, effective_tau, ShardQuery, ShardResult};
use larql::vector::{
    argmax, cosine_similarities, dot_product, l2_normalize, l2_normalize_rows, select,
    weighted_topk_average, Selection,
};
use larql::wire::{decode_f32_le, encode_f32_le};

struct Native;

fn f(x: F32) -> f32 {
    f32::from_bits(x.to_bits())
}

fn n(x: f32) -> F32 {
    F32::from_bits(x.to_bits())
}

fn list(values: &[f32]) -> Vec<F32> {
    values.iter().map(|x| n(*x)).collect()
}

impl Arith32 for Native {
    fn sum(&self, a: F32, b: F32) -> F32 {
        n(f(a) + f(b))
    }

    fn product(&self, a: F32, b: F32) -> F32 {
        n(f(a) * f(b))
    }

    fn quotient(&self, a: F32, b: F32) -> F32 {
        n(f(a) / f(b))
    }

    fn root(&self, a: F32) -> F32 {
        n(f(a).sqrt())
    }

    fn from_count(&self, count: usize) -> F32 {
        n(count as f32)
    }
}

// Wire form

#[test]
fn encode_decode_f32_le_round_trips() {
    let values = list(&[1.0, -2.5, 0.0, 3.1415927]);
    let bytes = encode_f32_le(&values);
    assert_eq!(bytes.len(), values.len() * 4);
    let back = decode_f32_le(&bytes).unwrap();
    assert_eq!(back, values);
}

#[test]
fn decode_f32_le_rejects_odd_byte_lengths() {
    let err = decode_f32_le(&[0u8; 7]).unwrap_err();
    assert_eq!(err.code(), tonic::Code::InvalidArgument);
}

#[test]
fn refused_payload_names_its_length() {
    let err = decode_f32_le(&[0u8; 7]).unwrap_err();
    assert_eq!(err.message(), "f32 payload length must be a multiple of 4, got 7");
    assert!(err.details().is_empty());
    let err = decode_f32_le(&[0u8; 1030]).unwrap_err();
    assert_eq!(err.message(), "f32 payload length must be a multiple of 4, got 1030");
}

#[test]
fn bytes_are_those_of_the_platform_encoding() {
    for x in [0.0f32, -0.0, 1.0, -2.5, f32::MAX, f32::MIN_POSITIVE, f32::INFINITY, f32::NAN] {
        assert_eq!(encode_f32_le(&[n(x)]), x.to_le_bytes().to_vec());
        let back = decode_f32_le(&x.to_le_bytes()).unwrap();
        assert_eq!(back[0].to_bits(), x.to_bits());
    }
    assert_eq!(encode_f32_le(&list(&[1.0, -2.5])), vec![0, 0, 128, 63, 0, 0, 32, 192]);
    assert!(encode_f32_le(&[]).is_empty());
    assert!(decode_f32_le(&[]).unwrap().is_empty());
}

#[test]
fn encoding_gives_back_decoded_bytes() {
    let bytes: Vec<u8> = (0u8..=255).collect();
    assert_eq!(encode_f32_le(&decode_f32_le(&bytes).unwrap()), bytes);
}

// Vector mathematics

#[test]
fn l2_normalize_unit_vector_is_idempotent() {
    let v = list(&[1.0f32, 0.0, 0.0]);
    let r = l2_normalize(&v, &Native);
    assert!((f(r[0]) - 1.0).abs() < 1e-6);
    assert_eq!(r[1], n(0.0));
}

#[test]
fn l2_normalize_zero_vector_returns_zero() {
    let v = list(&[0.0f32; 4]);
    let r = l2_normalize(&v, &Native);
    assert!(r.iter().all(|x| *x == n(0.0)));
}

#[test]
fn l2_normalize_is_exactly_the_quotient_by_the_guarded_length() {
    let r = l2_normalize(&list(&[3.0, 4.0, 12.0]), &Native);
    let length = (9.0f32 + 16.0 + 144.0).sqrt() + 1e-12;
    assert_eq!(r, list(&[3.0 / length, 4.0 / length, 12.0 / length]));
}

#[test]
fn l2_normalize_rows_normalizes_each_row_independently() {
    let rows = list(&[1.0, 0.0, 0.0, 3.0, 4.0, 0.0]);
    let r = l2_normalize_rows(&rows, 2, 3, &Native);
    assert!((f(r[0]) - 1.0).abs() < 1e-6);
    assert!((f(r[3]) - 0.6).abs() < 1e-6);
    assert!((f(r[4]) - 0.8).abs() < 1e-6);
    assert_eq!(r[5], n(0.0));
    assert_eq!(r.len(), 6);
}

#[test]
fn cosine_similarities_match_dot_product_for_normed_inputs() {
    let rows = list(&[1.0, 0.0, 0.0, 0.0, 0.0, 1.0]);
    let q = list(&[1.0, 0.0, 0.0]);
    let sims = cosine_similarities(&rows, &q, 2, 3, &Native);
    assert!((f(sims[0]) - 1.0).abs() < 1e-6);
    assert!(f(sims[1]).abs() < 1e-6);
}

#[test]
fn dot_product_stops_at_the_shorter_vector() {
    let a = list(&[1.0, 2.0, 3.0]);
    assert_eq!(dot_product(&a, &list(&[4.0, 5.0]), &Native), n(14.0));
    assert_eq!(dot_product(&list(&[2.0]), &a, &Native), n(2.0));
}

#[test]
fn argmax_handles_empty_input() {
    assert_eq!(argmax(&[]), (0, n(0.0)));
    assert_eq!(argmax(&list(&[0.5, -0.2, 0.9, 0.1])), (2, n(0.9)));
}

#[test]
fn argmax_takes_the_first_of_equals_and_ignores_what_is_no_number() {
    assert_eq!(argmax(&list(&[0.5, 0.9, 0.9])), (1, n(0.9)));
    assert_eq!(argmax(&list(&[0.0, -0.0])).0, 0);
    assert_eq!(argmax(&list(&[-0.0, 0.0])).0, 0);
    assert_eq!(argmax(&list(&[f32::NAN, -3.0, f32::NAN])), (1, n(-3.0)));
    assert_eq!(argmax(&list(&[f32::NAN])), (0, n(0.0)));
    assert_eq!(argmax(&list(&[f32::NEG_INFINITY, f32::NEG_INFINITY])), (0, n(0.0)));
    assert_eq!(argmax(&list(&[f32::NEG_INFINITY, f32::MIN])), (1, n(f32::MIN)));
}

#[test]
fn weighted_topk_average_falls_back_to_uniform_when_all_negative() {
    let sims = list(&[-0.5, -0.3, -0.1]);
    let outputs = list(&[1.0, 0.0, 2.0, 0.0, 3.0, 0.0]);
    let avg = weighted_topk_average(&sims, &outputs, 3, 2, &Native);
    assert!((f(avg[0]) - 2.0).abs() < 1e-6);
    assert!((f(avg[1]) - 0.0).abs() < 1e-6);
}

#[test]
fn weighted_topk_average_uses_positive_cosine_weights() {
    let sims = list(&[0.9, 0.1, -0.5]);
    let outputs = list(&[10.0, 20.0, 100.0]);
    let avg = weighted_topk_average(&sims, &outputs, 3, 1, &Native);
    let expected = 10.0 * 0.9 + 20.0 * 0.1 + 100.0 * 0.0;
    assert!((f(avg[0]) - expected).abs() < 1e-5);
}

#[test]
fn weighted_topk_average_takes_the_strongest_rows_only() {
    let sims = list(&[0.25, 0.75, 0.5, f32::NAN]);
    let outputs = list(&[8.0, 16.0, 32.0, 64.0]);
    assert_eq!(weighted_topk_average(&sims, &outputs, 1, 1, &Native), list(&[16.0]));
    let w = 0.75f32 + 0.5;
    let expected = 16.0 * (0.75 / w) + 32.0 * (0.5 / w);
    assert_eq!(weighted_topk_average(&sims, &outputs, 2, 1, &Native), list(&[expected]));
    assert!(weighted_topk_average(&sims, &outputs, 2, 0, &Native).is_empty());
    assert_eq!(weighted_topk_average(&[], &[], 0, 3, &Native), list(&[0.0, 0.0, 0.0]));
}

#[test]
fn uniform_share_counts_the_rows_that_were_asked_for() {
    let sims = list(&[-1.0, -1.0]);
    let outputs = list(&[4.0, 4.0]);
    assert_eq!(weighted_topk_average(&sims, &outputs, 4, 1, &Native), list(&[2.0]));
}

#[test]
fn weighted_topk_average_agrees_with_a_stable_sort() {
    let mut seed: u32 = 7;
    for count in 0usize..40 {
        let mut sims: Vec<f32> = Vec::new();
        let mut outputs: Vec<f32> = Vec::new();
        for _ in 0..count {
            seed = seed.wrapping_mul(1664525).wrapping_add(1013904223);
            sims.push(((seed >> 24) % 9) as f32 / 8.0 - 0.5);
            outputs.push((seed >> 16) as f32 / 64.0);
        }
        for k in 1..=count + 1 {
            let mut order: Vec<(usize, f32)> = sims.iter().copied().enumerate().collect();
            order.sort_by(|a, b| b.1.partial_cmp(&a.1).unwrap());
            order.truncate(k);
            let raw: Vec<f32> = order.iter().map(|(_, s)| s.max(0.0)).collect();
            let whole: f32 = raw.iter().sum();
            let mut acc = 0.0f32;
            for ((i, _), w) in order.iter().zip(raw.iter()) {
                let share = if whole > 1e-12 { w / whole } else { 1.0 / k as f32 };
                acc += outputs[*i] * share;
            }
            let got = weighted_topk_average(&list(&sims), &list(&outputs), k, 1, &Native);
            assert_eq!(got, list(&[acc]));
        }
    }
}

#[test]
fn selection_gates_and_clamps() {
    let sims = list(&[0.5, 0.75]);
    assert!(matches!(
        select(&sims, 1, n(0.8)),
        Selection::Miss { best_sim } if best_sim == n(0.75)
    ));
    assert!(matches!(
        select(&sims, 0, n(0.75)),
        Selection::Single { row: 1, best_sim } if best_sim == n(0.75)
    ));
    assert!(matches!(select(&sims, 9, n(0.5)), Selection::Blend { count: 2, .. }));
    assert!(matches!(select(&sims, 1, n(f32::NAN)), Selection::Single { row: 1, .. }));
    assert!(matches!(select(&[], 3, n(0.5)), Selection::Miss { .. }));
    assert!(matches!(select(&[], 3, n(0.0)), Selection::Blend { count: 0, .. }));
}

// Cache and lookup

fn cache_with_two_entries(d: usize, tau: f32) -> ShardCache {
    let inputs_normed = list(&[1.0, 0.0, 0.0, 0.0, 0.0, 1.0, 0.0, 0.0]);
    let outputs = list(&[10.0, 20.0, 30.0, 40.0, -1.0, -2.0, -3.0, -4.0]);
    let mut cache = ShardCache::new(n(tau));
    cache.seed_from_normed(26, inputs_normed, outputs, 2, d).unwrap();
    cache
}

fn lookup(cache: &ShardCache, layer: u32, query: &[f32], k: usize, tau: f32) -> ShardLookup {
    cache.knn_lookup(layer, &list(query), k, n(tau), &Native)
}

#[test]
fn knn_lookup_hit_returns_argmax_output_when_k_is_one() {
    let cache = cache_with_two_entries(4, 0.97);
    let out = lookup(&cache, 26, &[1.0, 0.0, 0.0, 0.0], 1, 0.97);
    let mlp = out.mlp_out.expect("hit");
    assert_eq!(mlp, list(&[10.0, 20.0, 30.0, 40.0]));
    assert!((f(out.best_sim) - 1.0).abs() < 1e-6);
}

#[test]
fn knn_lookup_miss_when_below_tau() {
    let cache = cache_with_two_entries(4, 0.97);
    let out = lookup(&cache, 26, &[0.0, 0.0, 1.0, 0.0], 1, 0.97);
    assert!(out.mlp_out.is_none());
    assert!(f(out.best_sim) < 0.97);
}

#[test]
fn knn_lookup_unknown_layer_is_a_miss() {
    let cache = cache_with_two_entries(4, 0.97);
    let out = lookup(&cache, 99, &[1.0, 0.0, 0.0, 0.0], 1, 0.97);
    assert!(out.mlp_out.is_none());
    assert_eq!(out.best_sim, n(0.0));
}

#[test]
fn knn_lookup_dim_mismatch_is_a_miss() {
    let cache = cache_with_two_entries(4, 0.97);
    let out = lookup(&cache, 26, &[1.0, 0.0, 0.0], 1, 0.97);
    assert!(out.mlp_out.is_none());
}

#[test]
fn knn_lookup_k_greater_than_one_averages_top_k() {
    let mut cache = ShardCache::new(n(0.5));
    cache
        .seed_from_normed(
            0,
            list(&[1.0, 0.0, 0.0, 1.0]),
            list(&[10.0, 0.0, 0.0, 10.0]),
            2,
            2,
        )
        .unwrap();
    let q = [1.0 / 2f32.sqrt(), 1.0 / 2f32.sqrt()];
    let out = lookup(&cache, 0, &q, 2, 0.5);
    let mlp = out.mlp_out.expect("hit");
    assert!((f(mlp[0]) - 5.0).abs() < 1e-5);
    assert!((f(mlp[1]) - 5.0).abs() < 1e-5);
}

#[test]
fn tau_override_can_force_hit_or_miss() {
    let cache = cache_with_two_entries(4, 0.5);
    let q = [1.0, 1.0, 0.0, 0.0];
    assert!(lookup(&cache, 26, &q, 1, 0.5).mlp_out.is_some());
    assert!(lookup(&cache, 26, &q, 1, 0.99).mlp_out.is_none());
}

#[test]
fn threshold_changes_neither_similarity_nor_output() {
    let cache = cache_with_two_entries(4, 0.5);
    let q = [1.0, 1.0, 0.0, 0.0];
    let low = lookup(&cache, 26, &q, 1, 0.1);
    let high = lookup(&cache, 26, &q, 1, 0.7);
    let none = lookup(&cache, 26, &q, 1, 0.99);
    assert_eq!(low, high);
    assert_eq!(low.best_sim, none.best_sim);
    assert_eq!(lookup(&cache, 26, &q, 0, 0.1), low);
    assert_eq!(lookup(&cache, 26, &q, 2, 0.1), lookup(&cache, 26, &q, 50, 0.1));
}

#[test]
fn query_without_length_misses_above_threshold_zero() {
    let cache = cache_with_two_entries(4, 0.97);
    for zeros in [[0.0, 0.0, 0.0, 0.0], [-0.0, 0.0, -0.0, 0.0]] {
        for tau in [1e-45, 0.1, 0.97] {
            let out = lookup(&cache, 26, &zeros, 1, tau);
            assert_eq!(out.mlp_out, None);
            assert_eq!(out.best_sim, n(0.0));
        }
        assert!(lookup(&cache, 26, &zeros, 1, 0.0).mlp_out.is_some());
    }
}

#[test]
fn query_without_length_misses_whatever_is_stored() {
    let mut cache = ShardCache::new(n(0.5));
    let rows = list(&[f32::INFINITY, 1.0, 2.0, f32::NAN, f32::NEG_INFINITY, f32::INFINITY]);
    let outputs = list(&[1.0; 6]);
    cache.seed_from_normed(0, rows, outputs, 3, 2).unwrap();
    let out = lookup(&cache, 0, &[0.0, 0.0], 2, 0.5);
    assert_eq!((out.mlp_out, out.best_sim), (None, n(0.0)));
}

#[test]
fn best_similarity_is_always_a_number() {
    let cache = cache_with_two_entries(4, 0.5);
    for bad in [f32::NAN, f32::INFINITY, f32::NEG_INFINITY] {
        let out = lookup(&cache, 26, &[bad, 1.0, 0.0, 0.0], 1, 0.5);
        assert_eq!((out.mlp_out, out.best_sim), (None, n(0.0)));
        let reply = ask(&cache, &query(26, 1, &[bad, 1.0, 0.0, 0.0], 0.0));
        assert!(!reply.hit && !reply.best_sim.is_nan());
    }
}

#[test]
fn inserting_is_seeding_with_divided_rows() {
    let rows = list(&[3.0, 4.0, -1.0, 7.0]);
    let outputs = list(&[1.0, 2.0, 3.0, 4.0]);
    let mut divided = l2_normalize(&rows[..2], &Native);
    divided.extend(l2_normalize(&rows[2..], &Native));
    let mut a = ShardCache::new(n(0.5));
    let mut b = ShardCache::new(n(0.5));
    a.insert_layer(5, &rows, outputs.clone(), 2, 2, &Native).unwrap();
    b.seed_from_normed(5, divided, outputs, 2, 2).unwrap();
    for q in [[1.0, 0.0], [0.3, -2.0], [3.0, 4.0]] {
        for k in 0..4 {
            assert_eq!(lookup(&a, 5, &q, k, 0.1), lookup(&b, 5, &q, k, 0.1));
            assert_eq!(lookup(&a, 5, &q, k, 0.9).best_sim, lookup(&a, 5, &q, 1, 0.1).best_sim);
        }
    }
    assert_eq!((a.len(), a.layer_size(5)), (b.len(), b.layer_size(5)));
}

#[test]
fn stored_inputs_find_their_outputs() {
    let rows = [3.0, 4.0, -1.0, 7.0, 0.5, -0.25];
    let outputs = list(&[1.0, 2.0, 3.0, 4.0, 5.0, 6.0]);
    let mut cache = ShardCache::new(n(0.97));
    cache.insert_layer(1, &list(&rows), outputs.clone(), 3, 2, &Native).unwrap();
    for i in 0..3 {
        let out = lookup(&cache, 1, &rows[2 * i..2 * i + 2], 1, 0.97);
        assert_eq!(out.mlp_out, Some(outputs[2 * i..2 * i + 2].to_vec()));
        assert!((f(out.best_sim) - 1.0).abs() < 1e-6);
    }
}

#[test]
fn hits_need_one_similar_row() {
    let cache = cache_with_two_entries(4, 0.5);
    let q = [3.0, 4.0, 0.0, 0.0];
    let best = lookup(&cache, 26, &q, 1, 0.0).best_sim;
    assert!((f(best) - 0.8).abs() < 1e-6);
    assert!(lookup(&cache, 26, &q, 1, f(best)).mlp_out.is_some());
    let above = f32::from_bits(best.to_bits() + 1);
    assert!(lookup(&cache, 26, &q, 1, above).mlp_out.is_none());
    assert_eq!(lookup(&cache, 26, &q, 2, 0.1).mlp_out.unwrap().len(), 4);
}

#[test]
fn empty_layer_answers_zeros_without_a_threshold() {
    let mut cache = ShardCache::new(n(0.0));
    cache.seed_from_normed(3, vec![], vec![], 0, 2).unwrap();
    assert_eq!(lookup(&cache, 3, &[1.0, 0.0], 1, 0.0).mlp_out, Some(list(&[0.0, 0.0])));
    assert_eq!(lookup(&cache, 3, &[1.0, 0.0], 1, 0.5).mlp_out, None);
    assert_eq!(cache.layer_size(3), Some(0));
}

#[test]
fn insert_layer_validates_shape() {
    let mut cache = ShardCache::new(n(0.97));
    let err = cache
        .insert_layer(0, &list(&[1.0, 0.0]), list(&[1.0, 0.0, 0.0]), 1, 2, &Native)
        .unwrap_err();
    assert!(matches!(err, CacheError::OutputShape { .. }));

    let err = cache
        .insert_layer(0, &list(&[1.0, 0.0, 0.0]), list(&[1.0, 0.0]), 1, 2, &Native)
        .unwrap_err();
    assert!(matches!(err, CacheError::InputShape { .. }));

    let err = cache.insert_layer(0, &[], vec![], 0, 0, &Native).unwrap_err();
    assert!(matches!(err, CacheError::ZeroDim));
}

#[test]
fn refused_layers_leave_the_cache_alone() {
    let mut cache = cache_with_two_entries(4, 0.97);
    assert_eq!(
        cache.seed_from_normed(26, list(&[1.0]), list(&[1.0]), 1, 4),
        Err(CacheError::InputShape { got: 1, want: 4 })
    );
    assert_eq!(
        cache.seed_from_normed(26, list(&[1.0]), vec![], 1, 1),
        Err(CacheError::OutputShape { got: 0, want: 1 })
    );
    assert_eq!(cache.seed_from_normed(26, vec![], vec![], 1, 0), Err(CacheError::ZeroDim));
    assert_eq!(cache.layer_size(26), Some(2));
    assert_eq!(cache.len(), 1);
}

#[test]
fn shape_check_saturates() {
    assert_eq!(
        check_shape(5, 5, usize::MAX, 2),
        Err(CacheError::InputShape { got: 5, want: usize::MAX })
    );
    assert_eq!(check_shape(6, 6, 2, 3), Ok(()));
}

#[test]
fn insert_layer_normalizes_unit_inputs() {
    let mut cache = ShardCache::new(n(0.97));
    cache
        .insert_layer(7, &list(&[3.0, 4.0]), list(&[1.0, 1.0]), 1, 2, &Native)
        .unwrap();
    let out = lookup(&cache, 7, &[6.0, 8.0], 1, 0.97);
    assert!(out.mlp_out.is_some());
    assert!((f(out.best_sim) - 1.0).abs() < 1e-5);
}

#[test]
fn later_insert_replaces_a_layer_and_no_other() {
    let mut cache = cache_with_two_entries(4, 0.97);
    let before = lookup(&cache, 26, &[1.0, 0.0, 0.0, 0.0], 1, 0.97);
    cache.insert_layer(7, &list(&[3.0]), list(&[1.0]), 1, 1, &Native).unwrap();
    assert_eq!(lookup(&cache, 26, &[1.0, 0.0, 0.0, 0.0], 1, 0.97), before);
    cache.insert_layer(7, &list(&[3.0]), list(&[5.0]), 1, 1, &Native).unwrap();
    assert_eq!(lookup(&cache, 7, &[2.0], 1, 0.97).mlp_out, Some(list(&[5.0])));
    assert_eq!(cache.len(), 2);
}

#[test]
fn accessors_report_cache_shape() {
    let mut cache = ShardCache::new(n(0.5));
    assert!(cache.is_empty());
    cache
        .insert_layer(0, &list(&[1.0, 0.0]), list(&[1.0, 1.0]), 1, 2, &Native)
        .unwrap();
    assert!(!cache.is_empty());
    assert_eq!(cache.len(), 1);
    assert_eq!(cache.layer_size(0), Some(1));
    assert_eq!(cache.layer_size(99), None);
    assert!((f(cache.tau()) - 0.5).abs() < 1e-6);
}

#[test]
fn default_cache_is_empty_with_threshold_zero() {
    let cache = ShardCache::default();
    assert!(cache.is_empty());
    assert_eq!(cache.tau(), n(0.0));
}

#[test]
fn cache_error_display_includes_lengths() {
    let e = CacheError::InputShape { got: 3, want: 4 };
    let s = e.message();
    assert!(s.contains("3") && s.contains("4"));
    let e = CacheError::OutputShape { got: 2, want: 6 };
    let s = e.message();
    assert!(s.contains("2") && s.contains("6"));
    let s = CacheError::ZeroDim.message();
    assert!(s.contains("d must"));
}

#[test]
fn cache_errors_read_in_full() {
    assert_eq!(
        CacheError::InputShape { got: 30, want: 412 }.message(),
        "shard cache: inputs len 30 != n_entries × d = 412"
    );
    assert_eq!(
        CacheError::OutputShape { got: 0, want: 6 }.message(),
        "shard cache: outputs len 0 != n_entries × d = 6"
    );
    assert_eq!(CacheError::ZeroDim.message(), "shard cache: d must be > 0");
}

#[test]
fn entries_compare_by_number() {
    let a = LayerEntry { inputs_normed: list(&[0.0]), outputs: vec![], n_entries: 1, d: 1 };
    let b = LayerEntry { inputs_normed: list(&[-0.0]), outputs: vec![], n_entries: 1, d: 1 };
    assert_eq!(a, b);
    assert_eq!(a.clone(), a);
}

// Requests

fn query(layer_id: u32, k: u32, vector: &[f32], tau_override: f32) -> ShardQuery {
    ShardQuery {
        layer_id,
        k,
        query_vec: encode_f32_le(&list(vector)),
        tau_override: n(tau_override),
    }
}

fn ask(cache: &ShardCache, q: &ShardQuery) -> ShardResult {
    answer_query(cache, q, &Native).unwrap()
}

#[test]
fn grpc_query_returns_hit_on_matching_vector() {
    let cache = cache_with_two_entries(4, 0.97);
    let resp = ask(&cache, &query(26, 1, &[1.0, 0.0, 0.0, 0.0], 0.0));
    assert!(resp.hit);
    let mlp = decode_f32_le(&resp.mlp_out).unwrap();
    assert_eq!(mlp, list(&[10.0, 20.0, 30.0, 40.0]));
    assert!((f(resp.best_sim) - 1.0).abs() < 1e-6);
}

#[test]
fn grpc_query_returns_miss_when_below_tau() {
    let cache = cache_with_two_entries(4, 0.97);
    let resp = ask(&cache, &query(26, 1, &[0.0, 0.0, 1.0, 0.0], 0.0));
    assert!(!resp.hit);
    assert!(resp.mlp_out.is_empty());
    assert!(f(resp.best_sim) < 0.97);
}

#[test]
fn grpc_tau_override_takes_precedence() {
    let cache = cache_with_two_entries(4, 0.5);
    let resp = ask(&cache, &query(26, 1, &[1.0, 1.0, 0.0, 0.0], 0.99));
    assert!(!resp.hit);
}

#[test]
fn grpc_rejects_malformed_query_bytes() {
    let cache = ShardCache::new(n(0.97));
    let q = ShardQuery { layer_id: 0, k: 1, query_vec: vec![0u8; 7], tau_override: n(0.0) };
    let err = answer_query(&cache, &q, &Native).unwrap_err();
    assert_eq!(err.code(), tonic::Code::InvalidArgument);
}

#[test]
fn shard_query_round_trip_hit() {
    let cache = cache_with_two_entries(4, 0.97);
    let resp = ask(&cache, &query(26, 1, &[1.0, 0.0, 0.0, 0.0], 0.0));
    assert!(resp.hit, "exact match should hit");
    assert!((f(resp.best_sim) - 1.0).abs() < 1e-6);
    let mlp = decode_f32_le(&resp.mlp_out).unwrap();
    assert_eq!(mlp, list(&[10.0, 20.0, 30.0, 40.0]));
}

#[test]
fn shard_query_round_trip_miss_below_tau() {
    let cache = cache_with_two_entries(4, 0.97);
    let resp = ask(&cache, &query(26, 1, &[0.0, 0.0, 1.0, 0.0], 0.0));
    assert!(!resp.hit);
    assert!(resp.mlp_out.is_empty());
    assert!(f(resp.best_sim) < 0.97);
}

#[test]
fn shard_query_round_trip_unknown_layer() {
    let cache = cache_with_two_entries(4, 0.97);
    let resp = ask(&cache, &query(99, 1, &[1.0, 0.0, 0.0, 0.0], 0.0));
    assert!(!resp.hit);
}

#[test]
fn only_an_override_above_zero_counts() {
    assert_eq!(effective_tau(n(0.5), n(0.9)), n(0.9));
    assert_eq!(effective_tau(n(0.5), n(0.0)), n(0.5));
    assert_eq!(effective_tau(n(0.5), n(-0.0)), n(0.5));
    assert_eq!(effective_tau(n(0.5), n(-1.0)), n(0.5));
    assert_eq!(effective_tau(n(0.5), n(f32::NAN)), n(0.5));
}
