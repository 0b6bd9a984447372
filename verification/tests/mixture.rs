use deepseek_v2_lite::config::Config;
use deepseek_v2_lite::ep::ExpertParallelLayout;
use deepseek_v2_lite::mixture::{accumulate, mix_experts, moe_host};
use deepseek_v2_lite::route::{Dispatch, RouteCounts};

fn config(experts: usize, per_token: usize) -> Config {
    Config {
        hidden_size: 2,
        num_hidden_layers: 1,
        moe_layers: vec![true],
        num_attention_heads: 1,
        qk_nope_head_dim: 1,
        qk_rope_head_dim: 2,
        v_head_dim: 1,
        kv_lora_rank: 1,
        n_routed_experts: experts,
        num_experts_per_token: per_token,
        eos_token_id: 9,
        tie_word_embeddings: false,
        plain_rope_context: 16,
    }
}

fn as_is(logits: &[u32]) -> Vec<u32> {
    logits.to_vec()
}

fn itself(share: u32) -> u32 {
    share
}

fn mul_add(sum: i64, weight: u32, value: i64) -> i64 {
    sum + weight as i64 * value
}

fn visit(token: usize, global_expert: usize, weight: u32) -> Dispatch<u32> {
    Dispatch { token, offset: 2 * token, global_expert, weight }
}

/// Expert `e` adds `e` to each entry; expert 3 is broken.
fn shift(global_expert: usize, input: &[i64]) -> Result<Vec<i64>, usize> {
    if global_expert == 3 {
        return Err(global_expert);
    }
    Ok(input.iter().map(|value| value + global_expert as i64).collect())
}

#[test]
fn weighted_output_is_added_to_its_token() {
    let mut accum = vec![1, 2, 3, 4, 5, 6, 7, 8, 9];

    accumulate(&mut accum, 3, 3, 10, &[1, 0, 2], &|sum: i64, weight: i64, value: i64| {
        sum + weight * value
    });

    assert_eq!(accum, vec![1, 2, 3, 14, 5, 26, 7, 8, 9]);
}

#[test]
fn short_output_leaves_the_rest() {
    let mut accum = vec![1, 2, 3];

    accumulate(&mut accum, 0, 3, 2, &[5], &|sum: i64, weight: i64, value: i64| {
        sum + weight * value
    });

    assert_eq!(accum, vec![11, 2, 3]);
}

#[test]
fn every_visit_is_mixed_in() {
    let visits = [visit(0, 1, 10), visit(0, 0, 1), visit(2, 2, 3)];
    let mut accum = vec![100, 200, 300, 400, 500, 600];

    let result = mix_experts(&config(4, 2), &visits, &[1, 2, 3, 4, 5, 6], &mut accum, shift, mul_add);

    assert_eq!(result, Ok(()));
    assert_eq!(accum, vec![100 + 20 + 1, 200 + 30 + 2, 300, 400, 500 + 21, 600 + 24]);
}

#[test]
fn mixing_in_two_steps_is_mixing_in_one() {
    let visits = [visit(0, 1, 10), visit(1, 2, 4), visit(0, 0, 1)];
    let input = [1, 2, 3, 4];
    let mut whole = vec![0, 0, 0, 0];
    let mut parts = whole.clone();

    assert!(mix_experts(&config(4, 2), &visits, &input, &mut whole, shift, mul_add).is_ok());
    assert!(mix_experts(&config(4, 2), &visits[..1], &input, &mut parts, shift, mul_add).is_ok());
    assert!(mix_experts(&config(4, 2), &visits[1..], &input, &mut parts, shift, mul_add).is_ok());

    assert_eq!(parts, whole);
    assert_eq!(whole, vec![21, 32, 20, 24]);
}

#[test]
fn failing_expert_ends_the_mixing() {
    let visits = [visit(0, 1, 1), visit(0, 3, 1), visit(1, 2, 1)];
    let mut accum = vec![0, 0, 0, 0];

    let result = mix_experts(&config(4, 2), &visits, &[1, 2, 3, 4], &mut accum, shift, mul_add);

    assert_eq!(result, Err(3));
    assert_eq!(accum, vec![2, 3, 0, 0]);
}

#[test]
fn layer_routes_mixes_and_counts() {
    let layout = ExpertParallelLayout { rank: 0, ep_size: 2, owners: vec![0, 1, 0, 1] };
    let logits = [5, 7, 0, 0, 1, 1, 2, 0];
    let mut accum = vec![0, 0, 1000, 1000];

    let result = moe_host(
        &config(4, 2),
        &layout,
        &logits,
        &[1, 2, 3, 4],
        &mut accum,
        2,
        as_is,
        itself,
        shift,
        mul_add,
    );

    assert_eq!(result, Ok(RouteCounts { local: 3, remote: 1 }));
    assert_eq!(accum, vec![7 * 2 + 5, 7 * 3 + 5 * 2, 1000 + 2 * 5 + 3, 1000 + 2 * 6 + 4]);
}

#[test]
fn layer_hands_on_the_error_of_an_expert() {
    let layout = ExpertParallelLayout { rank: 0, ep_size: 2, owners: vec![0, 1, 0, 1] };
    let mut accum = vec![0, 0];

    let result = moe_host(
        &config(4, 2),
        &layout,
        &[1, 2, 3, 4],
        &[1, 2],
        &mut accum,
        1,
        as_is,
        itself,
        shift,
        mul_add,
    );

    assert_eq!(result, Err(3));
    assert_eq!(accum, vec![0, 0]);
}

#[test]
fn layer_without_routes_keeps_its_states() {
    let layout = ExpertParallelLayout { rank: 0, ep_size: 2, owners: vec![0, 1] };
    let mut accum = vec![8, 9];

    let result = moe_host(
        &config(2, 0),
        &layout,
        &[1, 2],
        &[1, 2],
        &mut accum,
        1,
        as_is,
        itself,
        shift,
        mul_add,
    );

    assert_eq!(result, Ok(RouteCounts { local: 0, remote: 0 }));
    assert_eq!(accum, vec![8, 9]);
}

#[test]
fn token_is_mixed_as_if_it_were_alone() {
    let layout = ExpertParallelLayout { rank: 0, ep_size: 2, owners: vec![0, 1, 0, 1] };
    let logits = [5, 7, 0, 0, 1, 1, 2, 0, 0, 9, 3, 0];
    let input = [1, 2, 3, 4, 5, 6];
    let before = [10, 20, 30, 40, 50, 60];
    let mut together = before.to_vec();

    let result = moe_host(
        &config(4, 2), &layout, &logits, &input, &mut together, 3, as_is, itself, shift, mul_add,
    );
    assert!(result.is_ok());

    for token in 0..3 {
        let mut alone = before[2 * token..2 * token + 2].to_vec();
        let result = moe_host(
            &config(4, 2),
            &layout,
            &logits[4 * token..4 * token + 4],
            &input[2 * token..2 * token + 2],
            &mut alone,
            1,
            as_is,
            itself,
            shift,
            mul_add,
        );
        assert!(result.is_ok());
        assert_eq!(alone, together[2 * token..2 * token + 2]);
    }
}
