use deepseek_v2_lite::attention::{
    attend_head, attention_host, attention_inputs_fit, compute_attention_host,
};
use deepseek_v2_lite::config::Config;
use deepseek_v2_lite::error::HostError;
use deepseek_v2_lite::host_ops::{
    append_kv_and_build_queries, apply_rope, check_cache_position, check_hidden_len,
    normalize_compressed_kv, rms_norm_host, DecodeCache, LayerCache,
};

fn config(heads: usize) -> Config {
    Config {
        hidden_size: 4,
        num_hidden_layers: 3,
        moe_layers: vec![false, true, true],
        num_attention_heads: heads,
        qk_nope_head_dim: 1,
        qk_rope_head_dim: 2,
        v_head_dim: 1,
        kv_lora_rank: 2,
        n_routed_experts: 4,
        num_experts_per_token: 2,
        eos_token_id: 9,
        tie_word_embeddings: false,
        plain_rope_context: 16,
    }
}

/// Marks a pair with its position.
fn mark(a: i64, b: i64, pair: usize, pos: usize) -> (i64, i64) {
    (a + 1000 * pos as i64, b + 100 * pair as i64)
}

fn dot(x: &[i64], y: &[i64]) -> i64 {
    x.iter().zip(y).map(|(a, b)| a * b).sum()
}

fn as_is(scores: &[i64]) -> Vec<i64> {
    scores.to_vec()
}

fn mul_add(sum: i64, share: i64, value: i64) -> i64 {
    sum + share * value
}

fn softmax(scores: &[f32]) -> Vec<f32> {
    let max = scores.iter().copied().fold(f32::NEG_INFINITY, f32::max);
    let exp: Vec<f32> = scores.iter().map(|score| (score - max).exp()).collect();
    let sum: f32 = exp.iter().sum();
    exp.iter().map(|value| value / sum).collect()
}

#[test]
fn sizes_follow_from_the_heads() {
    let config = config(2);

    assert_eq!(config.query_head_dim(), 3);
    assert_eq!(config.q_proj_rows(), 6);
    assert_eq!(config.kv_a_proj_rows(), 4);
    assert_eq!(config.kv_b_proj_rows(), 4);
    assert_eq!(config.o_proj_cols(), 2);
    assert_eq!(config.supported_plain_rope_context(), 16);
    assert!(!config.is_moe_layer(0));
    assert!(config.is_moe_layer(2));
    assert!(!config.is_moe_layer(3));
    assert!(config.is_wf());
}

#[test]
fn sizes_that_cannot_be_counted_are_noticed() {
    let mut config = config(2);
    config.num_attention_heads = usize::MAX / 2;
    assert!(!config.is_wf());
    config.num_attention_heads = 2;
    config.kv_lora_rank = usize::MAX;
    assert!(!config.is_wf());
}

#[test]
fn pairs_are_rotated_across_the_halves() {
    assert_eq!(apply_rope(&[1, 2, 3, 4], 5, 0, &mark), vec![5001, 5002, 3, 104]);
}

#[test]
fn entry_without_partner_becomes_zero() {
    assert_eq!(apply_rope(&[1, 2, 3], 1, 0, &mark), vec![1001, 2, 0]);
    assert_eq!(apply_rope(&[7], 1, 0, &mark), vec![0]);
}

#[test]
fn queries_and_cache_are_built_head_by_head() {
    let config = config(2);
    let q = [1, 2, 3, 4, 5, 6, 7, 8, 9, 10, 11, 12];
    let kv_a = [20, 21, 22, 23, 24, 25, 26, 27];
    let kv_b = [30, 31, 32, 33, 34, 35, 36, 37];
    let mut queries = vec![0i64; 14];
    let mut cache = LayerCache::new();

    append_kv_and_build_queries(&config, &q, &kv_a, &kv_b, 3, 2, &mut queries, &mut cache, 0, mark);

    assert_eq!(
        queries,
        vec![1, 3002, 3, 4, 3005, 6, 7, 4008, 9, 10, 4011, 12, 0, 0]
    );
    assert_eq!(
        cache.keys(),
        [30, 3022, 23, 32, 3022, 23, 34, 4026, 27, 36, 4026, 27].as_slice()
    );
    assert_eq!(cache.values(), [31, 33, 35, 37].as_slice());
    assert_eq!(cache.len(&config), 2);
}

#[test]
fn tokens_one_by_one_fill_the_cache_as_at_once() {
    let config = config(2);
    let q: Vec<i64> = (1..13).collect();
    let kv_a: Vec<i64> = (20..28).collect();
    let kv_b: Vec<i64> = (30..38).collect();
    let mut once = LayerCache::new();
    let mut steps = LayerCache::new();
    let mut queries = vec![0i64; 12];

    append_kv_and_build_queries(&config, &q, &kv_a, &kv_b, 0, 2, &mut queries, &mut once, 0, mark);
    append_kv_and_build_queries(
        &config, &q[..6], &kv_a[..4], &kv_b[..4], 0, 1, &mut queries, &mut steps, 0, mark,
    );
    append_kv_and_build_queries(
        &config, &q[6..], &kv_a[4..], &kv_b[4..], 1, 1, &mut queries, &mut steps, 0, mark,
    );

    assert_eq!(once.keys(), steps.keys());
    assert_eq!(once.values(), steps.values());
}

#[test]
fn empty_cache_has_no_tokens() {
    let config = config(2);
    let cache = DecodeCache::<f32>::new(&config);

    assert_eq!(cache.layers.len(), 3);
    assert_eq!(cache.layers[2].len(&config), 0);
    assert!(cache.layers[0].keys().is_empty());
}

#[test]
fn layer_count_is_checked() {
    let cache = DecodeCache::<f32>::new(&config(1));

    assert_eq!(cache.check_layers(3), Ok(()));
    let error = cache.check_layers(4).unwrap_err();
    assert_eq!(error, HostError::LayerCount);
    assert_eq!(error.message(), "decode cache layer count mismatch");
}

#[test]
fn model_without_key_entries_counts_no_tokens() {
    let mut config = config(1);
    config.num_attention_heads = 0;

    assert_eq!(LayerCache::<f32>::new().len(&config), 0);
}

#[test]
fn position_must_continue_the_cache() {
    let config = config(1);
    let cache = LayerCache::<f32>::new();

    assert_eq!(check_cache_position(&config, &cache, 0), Ok(()));
    let error = check_cache_position(&config, &cache, 5).unwrap_err();
    assert_eq!(error, HostError::CachePosition { cache_len: 0, start_pos: 5 });
    assert_eq!(
        error.message(),
        "attention cache position mismatch: cache_len=0, start_pos=5"
    );
}

#[test]
fn hidden_length_is_checked() {
    assert_eq!(check_hidden_len(12, 4, 3), Ok(()));
    let error = check_hidden_len(10, 4, 3).unwrap_err();
    assert_eq!(error, HostError::HiddenLen { got: 10, expected: 12 });
    assert_eq!(error.message(), "hidden host data len mismatch: got 10, expected 12");
}

#[test]
fn row_is_scaled_by_factor_and_weight() {
    let sum = |row: &[i64]| row.iter().sum::<i64>();
    let scale = |value: i64, factor: i64, weight: i64| value * factor * weight;

    let mut out = vec![0, 0];
    rms_norm_host(&[1, 2], &[10, 100], &mut out, &sum, &scale);
    assert_eq!(out, vec![30, 600]);

    let mut out = vec![7, 8, 9];
    rms_norm_host(&[1, 2], &[10, 100], &mut out, &sum, &scale);
    assert_eq!(out, vec![30, 600, 9]);
    rms_norm_host(&[2, 2, 2], &[10], &mut out, &sum, &scale);
    assert_eq!(out, vec![120, 600, 9]);
    rms_norm_host(&[1, 2], &[10, 100], &mut out[..1], &sum, &scale);
    assert_eq!(out, vec![30, 600, 9]);
}

#[test]
fn compressed_state_of_each_token_is_normalized() {
    let sum = |row: &[i64]| row.iter().sum::<i64>();
    let scale = |value: i64, factor: i64, weight: i64| value * factor * weight;
    let kv_a = [1, 2, 90, 91, 3, 4, 92, 93];

    let out = normalize_compressed_kv(&config(2), &kv_a, &[1, 10], 2, 0, sum, scale);

    assert_eq!(out, vec![3, 60, 21, 280]);
    let short = normalize_compressed_kv(&config(2), &kv_a, &[1], 2, -1, sum, scale);
    assert_eq!(short, vec![3, -1, 21, -1]);
}

#[test]
fn head_attends_to_the_first_tokens_of_its_own_head() {
    let config = config(2);
    let mut cache = LayerCache::new();
    let mut queries = vec![0i64; 12];
    let kv_b = [1, 10, 2, 20, 3, 30, 4, 40];
    append_kv_and_build_queries(
        &config,
        &[0; 12],
        &[0; 8],
        &kv_b,
        0,
        2,
        &mut queries,
        &mut cache,
        0,
        |a: i64, b: i64, _: usize, _: usize| (a, b),
    );

    let one = attend_head(&config, &[1, 0, 0], &cache, 1, 1, 0, &dot, &as_is, &mul_add);
    let two = attend_head(&config, &[1, 0, 0], &cache, 1, 2, 0, &dot, &as_is, &mul_add);

    assert_eq!(one, vec![2 * 20]);
    assert_eq!(two, vec![2 * 20 + 4 * 40]);
}

#[test]
fn attention_sees_each_token_and_those_before_it() {
    let config = config(1);
    let mut cache = LayerCache::new();
    let keep = |a: i64, b: i64, _: usize, _: usize| (a, b);
    let q = [1, 0, 0, 2, 0, 0];
    let kv_b = [3, 10, 5, 100];
    let mut queries = vec![0i64; 6];
    append_kv_and_build_queries(&config, &q, &[0; 8], &kv_b, 0, 2, &mut queries, &mut cache, 0, keep);

    let out = compute_attention_host(&config, &queries, &cache, 0, 2, 0, dot, as_is, mul_add);

    assert_eq!(out, vec![30, 6 * 10 + 10 * 100]);
}

#[test]
fn later_tokens_change_nothing_before_them() {
    let config = config(1);
    let keep = |a: i64, b: i64, _: usize, _: usize| (a, b);
    let q = [1, 2, 3, 4, 5, 6];
    let kv_a = [0, 0, 1, 2, 0, 0, 3, 4];
    let kv_b = [3, 10, 5, 100];
    let mut long = LayerCache::new();
    let mut short = LayerCache::new();

    let both = attention_host(
        &config, &q, &kv_a, &kv_b, 0, 2, &mut long, 0, keep, dot, as_is, mul_add,
    );
    let first = attention_host(
        &config, &q[..3], &kv_a[..4], &kv_b[..2], 0, 1, &mut short, 0, keep, dot, as_is, mul_add,
    );
    let second = attention_host(
        &config, &q[3..], &kv_a[4..], &kv_b[2..], 1, 1, &mut short, 0, keep, dot, as_is, mul_add,
    );

    assert_eq!(both, [first, second].concat());
    assert_eq!(long.keys(), short.keys());
    assert_eq!(check_cache_position(&config, &long, 2), Ok(()));
}

#[test]
fn float_attention_weighs_values_by_softmax() {
    let config = config(1);
    let mut cache = LayerCache::new();
    let out = attention_host(
        &config,
        &[1.0f32, 0.0, 0.0, 1.0, 0.0, 0.0],
        &[0.0; 8],
        &[0.0, 8.0, 0.0, 4.0],
        0,
        2,
        &mut cache,
        0.0,
        |a: f32, b: f32, _: usize, _: usize| (a, b),
        |x: &[f32], y: &[f32]| x.iter().zip(y).map(|(a, b)| a * b).sum(),
        softmax,
        |sum: f32, share: f32, value: f32| sum + share * value,
    );

    assert_eq!(out, vec![8.0, 6.0]);
}

#[test]
fn no_tokens_give_no_attention() {
    let config = config(2);
    let cache = LayerCache::<i64>::new();

    let out = compute_attention_host(&config, &[], &cache, 7, 0, 0, dot, as_is, mul_add);

    assert!(out.is_empty());
}

#[test]
fn attention_takes_inputs_that_cover_its_tokens() {
    let config = config(2);
    let empty: LayerCache<i64> = LayerCache::new();
    let (q, kv_a, kv_b) = ([0i64; 12], [0i64; 8], [0i64; 8]);

    assert!(attention_inputs_fit(&config, &empty, &q, &kv_a, &kv_b, 0, 2));
    assert!(attention_inputs_fit(&config, &empty, &q, &kv_a, &kv_b, 0, 1));
    assert!(!attention_inputs_fit(&config, &empty, &q, &kv_a, &kv_b, 0, 3));
    assert!(!attention_inputs_fit(&config, &empty, &q, &kv_a, &kv_b, 1, 1));
    assert!(!attention_inputs_fit(&config, &empty, &q[..11], &kv_a, &kv_b, 0, 2));
    assert!(!attention_inputs_fit(&config, &empty, &q, &kv_a[..7], &kv_b, 0, 2));
    assert!(!attention_inputs_fit(&config, &empty, &q, &kv_a, &kv_b[..7], 0, 2));
    assert!(!attention_inputs_fit(&config, &empty, &q, &kv_a, &kv_b, 0, usize::MAX));
}

#[test]
fn attention_in_two_steps_is_attention_in_one() {
    let config = config(2);
    let q: Vec<i64> = (1..=18).collect();
    let kv_a: Vec<i64> = (20..32).collect();
    let kv_b: Vec<i64> = (40..52).collect();
    let mut at_once = LayerCache::new();
    let mut in_steps = LayerCache::new();

    let whole = attention_host(
        &config, &q, &kv_a, &kv_b, 0, 3, &mut at_once, 0, mark, dot, as_is, mul_add,
    );
    let mut parts = attention_host(
        &config, &q[..12], &kv_a[..8], &kv_b[..8], 0, 2, &mut in_steps, 0, mark, dot, as_is,
        mul_add,
    );
    parts.extend(attention_host(
        &config, &q[12..], &kv_a[8..], &kv_b[8..], 2, 1, &mut in_steps, 0, mark, dot, as_is,
        mul_add,
    ));

    assert_eq!(parts, whole);
    assert_eq!(whole.len(), 6);
    assert_eq!(in_steps.keys(), at_once.keys());
    assert_eq!(in_steps.values(), at_once.values());
    assert_eq!(in_steps.len(&config), 3);
}
