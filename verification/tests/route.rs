use deepseek_v2_lite::config::Config;
use deepseek_v2_lite::ep::ExpertParallelLayout;
use deepseek_v2_lite::route::{
    dispatches, route_counts, topk_routes, topk_softmax_routes, Dispatch, RouteCounts,
};

fn config(experts: usize, per_token: usize) -> Config {
    Config {
        hidden_size: 3,
        num_hidden_layers: 1,
        moe_layers: vec![true],
        num_attention_heads: 1,
        qk_nope_head_dim: 1,
        qk_rope_head_dim: 2,
        v_head_dim: 1,
        kv_lora_rank: 1,
        n_routed_experts: experts,
        num_experts_per_token: per_token,
        eos_token_id: 9,
        tie_word_embeddings: false,
        plain_rope_context: 16,
    }
}

fn as_is(logits: &[u32]) -> Vec<u32> {
    logits.to_vec()
}

fn itself(share: u32) -> u32 {
    share
}

fn softmax(scores: &[f32]) -> Vec<f32> {
    let max = scores.iter().copied().fold(f32::NEG_INFINITY, f32::max);
    let exp: Vec<f32> = scores.iter().map(|score| (score - max).exp()).collect();
    let sum: f32 = exp.iter().sum();
    exp.iter().map(|value| value / sum).collect()
}

fn float_rank(share: f32) -> u32 {
    if share.is_nan() {
        0
    } else {
        share.to_bits()
    }
}

#[test]
fn best_experts_come_first() {
    let logits = [3, 9, 1, 7, 8, 2, 2, 5];

    let routes = topk_softmax_routes(&config(4, 2), &logits, 2, as_is, itself);

    assert_eq!(routes, vec![vec![(1, 9), (3, 7)], vec![(0, 8), (3, 5)]]);
}

#[test]
fn weights_follow_their_experts() {
    let routes = topk_routes(&[3, 9, 1, 7], &["a", "b", "c", "d"], 3);

    assert_eq!(routes, vec![(1, "b"), (3, "d"), (0, "a")]);
}

#[test]
fn equal_experts_keep_their_order() {
    let routes = topk_routes(&[5, 5, 9, 5], &[0, 1, 2, 3], 3);

    assert_eq!(routes, vec![(2, 2), (0, 0), (1, 1)]);
}

#[test]
fn fewer_experts_than_asked_for_are_all_visited() {
    let routes = topk_softmax_routes(&config(2, 6), &[1, 4], 1, as_is, itself);

    assert_eq!(routes, vec![vec![(1, 4), (0, 1)]]);
}

#[test]
fn no_tokens_have_no_routes() {
    assert!(topk_softmax_routes(&config(4, 2), &[], 0, as_is, itself).is_empty());
    let none = topk_softmax_routes(&config(4, 0), &[1, 2, 3, 4], 1, as_is, itself);
    assert_eq!(none, vec![vec![]]);
}

#[test]
fn float_logits_are_routed_by_their_softmax() {
    let logits = [1.0f32, 3.0, -40.0, 1.0];

    let routes = topk_softmax_routes(&config(4, 4), &logits, 1, softmax, float_rank);

    let experts: Vec<usize> = routes[0].iter().map(|route| route.0).collect();
    assert_eq!(experts, vec![1, 0, 3, 2]);
    assert_eq!(routes[0][1].1, routes[0][2].1);
    let total: f32 = routes[0].iter().map(|route| route.1).sum();
    assert!((total - 1.0).abs() < 1e-6);
}

#[test]
fn undefined_shares_give_the_first_experts() {
    let logits = [1.0f32, f32::INFINITY, 2.0];

    let routes = topk_softmax_routes(&config(3, 2), &logits, 1, softmax, float_rank);

    assert_eq!(routes[0][0].0, 0);
    assert_eq!(routes[0][1].0, 1);
    assert!(routes[0][0].1.is_nan() && routes[0][1].1.is_nan());
}

#[test]
fn visits_are_listed_token_by_token() {
    let routes = vec![vec![(1, 40), (0, 10)], vec![], vec![(3, 5)]];

    let list = dispatches(&config(4, 2), &routes);

    assert_eq!(
        list,
        vec![
            Dispatch { token: 0, offset: 0, global_expert: 1, weight: 40 },
            Dispatch { token: 0, offset: 0, global_expert: 0, weight: 10 },
            Dispatch { token: 2, offset: 6, global_expert: 3, weight: 5 },
        ]
    );
}

#[test]
fn visits_are_counted_by_owner() {
    let layout = ExpertParallelLayout { rank: 0, ep_size: 2, owners: vec![0, 1, 1, 0] };
    let routes = vec![vec![(1, 1), (0, 1)], vec![(3, 1), (2, 1)]];

    let list = dispatches(&config(4, 2), &routes);
    let counts = route_counts(&layout, &list);

    assert_eq!(counts, RouteCounts { local: 2, remote: 2 });
    assert_eq!(counts.local + counts.remote, list.len());
}

#[test]
fn every_route_of_a_layer_is_counted() {
    let config = config(4, 3);
    let layout = ExpertParallelLayout { rank: 0, ep_size: 2, owners: vec![1, 0, 1, 1] };
    let ranks = [4, 3, 2, 1, 1, 2, 3, 4];

    let routes = topk_softmax_routes(&config, &ranks, 2, as_is, itself);
    let counts = route_counts(&layout, &dispatches(&config, &routes));

    assert_eq!(counts, RouteCounts { local: 2, remote: 4 });
}

#[test]
fn unplaced_experts_are_not_counted() {
    let layout = ExpertParallelLayout { rank: 0, ep_size: 2, owners: vec![0] };
    let list = dispatches(&config(4, 2), &[vec![(0, 1), (3, 1)]]);

    assert_eq!(route_counts(&layout, &list), RouteCounts { local: 1, remote: 0 });
}

#[test]
fn routes_descend_by_share() {
    let logits = [0.5f32, 2.0, 0.5, 1.0, 2.0];

    let routes = topk_softmax_routes(&config(5, 4), &logits, 1, softmax, float_rank);

    let experts: Vec<usize> = routes[0].iter().map(|route| route.0).collect();
    assert_eq!(experts, vec![1, 4, 3, 0]);
    assert!(routes[0].windows(2).all(|pair| pair[0].1 >= pair[1].1));
}
