use deepseek_v2_lite::config::Config;
use deepseek_v2_lite::ep::ExpertParallelLayout;
use deepseek_v2_lite::error::{ModelError, RankError};
use deepseek_v2_lite::loading::{
    load_dense_mlp, load_driver_rank, load_expert_rank, load_layer, load_moe_mlp,
    load_owned_experts, Tensors,
};
use deepseek_v2_lite::model::{select_expert, MlpWeights};
use std::cell::RefCell;

fn config() -> Config {
    Config {
        hidden_size: 4,
        num_hidden_layers: 2,
        moe_layers: vec![false, true],
        num_attention_heads: 2,
        qk_nope_head_dim: 1,
        qk_rope_head_dim: 2,
        v_head_dim: 1,
        kv_lora_rank: 2,
        n_routed_experts: 4,
        num_experts_per_token: 2,
        eos_token_id: 9,
        tie_word_embeddings: false,
        plain_rope_context: 16,
    }
}

fn layout(rank: usize) -> ExpertParallelLayout {
    ExpertParallelLayout { rank, ep_size: 2, owners: vec![0, 1, 1, 0] }
}

fn matrix(device: &u8, name: &str) -> Result<String, String> {
    Ok(format!("{device}:{name}"))
}

fn vector(_: &u8, name: &str) -> Result<String, String> {
    Ok(name.to_string())
}

fn to_host(_: &u8, vector: &String) -> Result<Vec<usize>, String> {
    Ok(vec![vector.len()])
}

fn stack(_: &u8, upper: &String, lower: &String) -> Result<String, String> {
    Ok(format!("{upper}/{lower}"))
}

fn failure<T>(result: Result<T, RankError<String>>) -> RankError<String> {
    match result {
        Ok(_) => panic!("unexpected success"),
        Err(error) => error,
    }
}

#[test]
fn dense_block_is_stacked() {
    let tensors = Tensors { matrix, vector: (), to_host: (), stack };

    let dense = match load_dense_mlp(&tensors, &7, "p") {
        Ok(dense) => dense,
        Err(error) => panic!("unexpected error: {error}"),
    };

    assert_eq!(dense.gate_up_proj, "7:p.gate_proj.weight/7:p.up_proj.weight");
    assert_eq!(dense.down_proj, "7:p.down_proj.weight");
}

#[test]
fn dense_block_fails_with_its_first_failure() {
    let read = RefCell::new(Vec::new());
    let partly = |_: &u8, name: &str| {
        read.borrow_mut().push(name.to_string());
        if name.contains("up_proj") {
            Err(name.to_string())
        } else {
            Ok(name.to_string())
        }
    };
    let tensors = Tensors { matrix: partly, vector: (), to_host: (), stack };

    let result = load_dense_mlp(&tensors, &0, "p");

    assert!(matches!(result, Err(error) if error == "p.up_proj.weight"));
    assert_eq!(*read.borrow(), vec!["p.gate_proj.weight", "p.up_proj.weight"]);
}

#[test]
fn stacking_can_fail() {
    let torn = |_: &u8, upper: &String, _: &String| -> Result<String, String> {
        Err(format!("cannot stack {upper}"))
    };
    let tensors = Tensors { matrix, vector: (), to_host: (), stack: torn };

    let result = load_dense_mlp(&tensors, &0, "p");

    assert!(matches!(result, Err(error) if error == "cannot stack 0:p.gate_proj.weight"));
}

#[test]
fn owned_experts_are_loaded_in_place() {
    let tensors = Tensors { matrix, vector: (), to_host: (), stack };

    let experts = match load_owned_experts(&tensors, &1, &config(), &layout(1), "m") {
        Ok(experts) => experts,
        Err(error) => panic!("unexpected error: {error:?}"),
    };

    let numbers: Vec<usize> = experts.iter().map(|expert| expert.global_expert).collect();
    assert_eq!(numbers, vec![1, 2]);
    assert_eq!(experts[1].dense.down_proj, "1:m.experts.2.down_proj.weight");
}

#[test]
fn uneven_experts_are_refused_once_loaded() {
    let tensors = Tensors { matrix, vector: (), to_host: (), stack };
    let uneven = ExpertParallelLayout { rank: 1, ep_size: 2, owners: vec![0, 1, 1, 1] };

    let error = failure(load_owned_experts(&tensors, &1, &config(), &uneven, "m"));

    assert_eq!(
        error,
        RankError::Model(ModelError::ExpertCount { rank: 1, loaded: 3, expected: 2 })
    );
}

#[test]
fn failing_expert_comes_before_the_count() {
    let broken = |_: &u8, name: &str| {
        if name.starts_with("m.experts.3") {
            Err("gone".to_string())
        } else {
            Ok(name.to_string())
        }
    };
    let tensors = Tensors { matrix: broken, vector: (), to_host: (), stack };
    let uneven = ExpertParallelLayout { rank: 1, ep_size: 2, owners: vec![0, 1, 1, 1] };

    let error = failure(load_owned_experts(&tensors, &1, &config(), &uneven, "m"));

    assert_eq!(error, RankError::Tensor("gone".to_string()));
}

#[test]
fn mixture_is_loaded_with_its_shared_experts() {
    let tensors = Tensors { matrix, vector: (), to_host: (), stack };

    let moe = match load_moe_mlp(&tensors, &0, &config(), &layout(0), "m") {
        Ok(moe) => moe,
        Err(error) => panic!("unexpected error: {error:?}"),
    };

    assert_eq!(moe.gate, "0:m.gate.weight");
    assert_eq!(moe.shared.down_proj, "0:m.shared_experts.down_proj.weight");
    let numbers: Vec<usize> = moe.experts.iter().map(|expert| expert.global_expert).collect();
    assert_eq!(numbers, vec![0, 3]);
}

#[test]
fn layer_is_loaded_by_its_number() {
    let tensors = Tensors { matrix, vector, to_host, stack };

    let layer = match load_layer(&tensors, &0, &config(), &layout(0), 0) {
        Ok(layer) => layer,
        Err(error) => panic!("unexpected error: {error:?}"),
    };

    assert_eq!(layer.input_layernorm, "model.layers.0.input_layernorm.weight");
    assert_eq!(layer.post_attention_layernorm, "model.layers.0.post_attention_layernorm.weight");
    assert_eq!(layer.attention.q_proj, "0:model.layers.0.self_attn.q_proj.weight");
    assert_eq!(layer.attention.kv_a_proj, "0:model.layers.0.self_attn.kv_a_proj_with_mqa.weight");
    assert_eq!(layer.attention.kv_b_proj, "0:model.layers.0.self_attn.kv_b_proj.weight");
    assert_eq!(layer.attention.o_proj, "0:model.layers.0.self_attn.o_proj.weight");
    let norm = "model.layers.0.self_attn.kv_a_layernorm.weight";
    assert_eq!(layer.attention.kv_a_norm_host, vec![norm.len()]);
    assert!(matches!(
        layer.mlp,
        MlpWeights::Dense(dense) if dense.down_proj == "0:model.layers.0.mlp.down_proj.weight"
    ));
}

#[test]
fn tensors_are_read_in_order() {
    let read = RefCell::new(Vec::new());
    let note_matrix = |_: &u8, name: &str| -> Result<String, String> {
        read.borrow_mut().push(name.to_string());
        Ok(name.to_string())
    };
    let note_vector = |_: &u8, name: &str| -> Result<String, String> {
        read.borrow_mut().push(name.to_string());
        Ok(name.to_string())
    };
    let mut small = config();
    small.num_hidden_layers = 1;
    let tensors = Tensors { matrix: note_matrix, vector: note_vector, to_host, stack };

    assert!(load_driver_rank(&tensors, 0, &small, layout(0)).is_ok());

    assert_eq!(
        *read.borrow(),
        vec![
            "model.embed_tokens.weight",
            "lm_head.weight",
            "model.norm.weight",
            "model.layers.0.input_layernorm.weight",
            "model.layers.0.post_attention_layernorm.weight",
            "model.layers.0.self_attn.kv_a_layernorm.weight",
            "model.layers.0.self_attn.q_proj.weight",
            "model.layers.0.self_attn.kv_a_proj_with_mqa.weight",
            "model.layers.0.self_attn.kv_b_proj.weight",
            "model.layers.0.self_attn.o_proj.weight",
            "model.layers.0.mlp.gate_proj.weight",
            "model.layers.0.mlp.up_proj.weight",
            "model.layers.0.mlp.down_proj.weight",
        ]
    );
}

#[test]
fn tied_embeddings_stop_the_loading() {
    let read = RefCell::new(Vec::new());
    let note = |_: &u8, name: &str| -> Result<String, String> {
        read.borrow_mut().push(name.to_string());
        Ok(name.to_string())
    };
    let mut tied = config();
    tied.tie_word_embeddings = true;
    let tensors = Tensors { matrix: note, vector, to_host, stack };

    let error = failure(load_driver_rank(&tensors, 0, &tied, layout(0)));

    assert_eq!(error, RankError::Model(ModelError::TiedEmbeddings));
    assert_eq!(*read.borrow(), vec!["model.embed_tokens.weight"]);
}

#[test]
fn failing_vector_and_copy_are_reported() {
    let lost = |_: &u8, name: &str| -> Result<String, String> { Err(name.to_string()) };
    let tensors = Tensors { matrix, vector: lost, to_host, stack };
    let error = failure(load_driver_rank(&tensors, 0, &config(), layout(0)));
    assert_eq!(error, RankError::Tensor("model.norm.weight".to_string()));

    let stuck = |_: &u8, _: &String| -> Result<Vec<usize>, String> { Err("stuck".to_string()) };
    let tensors = Tensors { matrix, vector, to_host: stuck, stack };
    let error = failure(load_layer(&tensors, &0, &config(), &layout(0), 1));
    assert_eq!(error, RankError::Tensor("stuck".to_string()));
}

#[test]
fn loaded_ranks_serve_every_route() {
    let tensors = Tensors { matrix, vector, to_host, stack };
    let rank0 = match load_driver_rank(&tensors, 5, &config(), layout(0)) {
        Ok(model) => model,
        Err(error) => panic!("unexpected error: {error:?}"),
    };
    let tensors = Tensors { matrix, vector: (), to_host: (), stack };
    let rank1 = match load_expert_rank(&tensors, 6, &config(), layout(1)) {
        Ok(model) => model,
        Err(error) => panic!("unexpected error: {error:?}"),
    };

    assert_eq!(rank0.ctx, 5);
    assert_eq!(rank0.embed_tokens, "5:model.embed_tokens.weight");
    assert_eq!(rank0.lm_head, "5:lm_head.weight");
    assert_eq!(rank0.norm, "model.norm.weight");
    assert_eq!(rank1.ctx, 6);
    assert!(rank1.layers[0].is_none());
    for global_expert in 0..4 {
        let (expert, remote) = match select_expert(&rank0, &rank1, 1, global_expert) {
            Ok(found) => found,
            Err(error) => panic!("unexpected error: {error:?}"),
        };
        let device = if remote { 6 } else { 5 };
        assert_eq!(remote, global_expert == 1 || global_expert == 2);
        assert_eq!(
            expert.dense.down_proj,
            format!("{device}:model.layers.1.mlp.experts.{global_expert}.down_proj.weight")
        );
    }
}

#[test]
fn expert_rank_fails_with_its_first_expert() {
    let lost = |_: &u8, name: &str| -> Result<String, String> { Err(name.to_string()) };
    let tensors = Tensors { matrix: lost, vector: (), to_host: (), stack };

    let error = failure(load_expert_rank(&tensors, 6, &config(), layout(1)));

    assert_eq!(
        error,
        RankError::Tensor("model.layers.1.mlp.experts.1.gate_proj.weight".to_string())
    );
}
