use deepseek_v2_lite::config::Config;
use deepseek_v2_lite::ep::ExpertParallelLayout;
use deepseek_v2_lite::error::ModelError;
use deepseek_v2_lite::model::{
    check_owned_experts, check_untied, dense_mlp_names, driver_rank_names, expert_rank_names,
    moe_mlp_names, owned_expert_names, routed_expert_from_slice, select_expert, AttentionWeights,
    DenseMlp, DriverRankModel, ExpertMlp, ExpertRankModel, LayerWeights, MlpNames, MlpWeights,
    MoeMlp,
};

fn config() -> Config {
    Config {
        hidden_size: 4,
        num_hidden_layers: 2,
        moe_layers: vec![false, true],
        num_attention_heads: 2,
        qk_nope_head_dim: 1,
        qk_rope_head_dim: 2,
        v_head_dim: 1,
        kv_lora_rank: 2,
        n_routed_experts: 4,
        num_experts_per_token: 2,
        eos_token_id: 9,
        tie_word_embeddings: false,
        plain_rope_context: 16,
    }
}

fn layout(rank: usize) -> ExpertParallelLayout {
    ExpertParallelLayout { rank, ep_size: 2, owners: vec![0, 1, 1, 0] }
}

fn expert(global_expert: usize) -> ExpertMlp<String> {
    ExpertMlp {
        global_expert,
        dense: DenseMlp {
            gate_up_proj: format!("gate_up {global_expert}"),
            down_proj: format!("down {global_expert}"),
        },
    }
}

fn attention() -> AttentionWeights<String, u32> {
    AttentionWeights {
        q_proj: "q".to_string(),
        kv_a_proj: "kv_a".to_string(),
        kv_a_norm_host: vec![1, 1],
        kv_b_proj: "kv_b".to_string(),
        o_proj: "o".to_string(),
    }
}

fn driver() -> DriverRankModel<u8, String, String, u32> {
    let dense = LayerWeights {
        input_layernorm: "in 0".to_string(),
        post_attention_layernorm: "post 0".to_string(),
        attention: attention(),
        mlp: MlpWeights::Dense(expert(0).dense),
    };
    let moe = LayerWeights {
        input_layernorm: "in 1".to_string(),
        post_attention_layernorm: "post 1".to_string(),
        attention: attention(),
        mlp: MlpWeights::Moe(MoeMlp {
            gate: "router".to_string(),
            shared: expert(0).dense,
            experts: vec![expert(0), expert(3)],
        }),
    };
    DriverRankModel {
        ctx: 0,
        layout: layout(0),
        embed_tokens: "embed".to_string(),
        lm_head: "head".to_string(),
        norm: "norm".to_string(),
        layers: vec![dense, moe],
    }
}

fn other() -> ExpertRankModel<u8, String> {
    ExpertRankModel { ctx: 1, layout: layout(1), layers: vec![None, Some(vec![expert(1), expert(2)])] }
}

fn error_of<T>(result: Result<T, ModelError>) -> ModelError {
    match result {
        Ok(_) => panic!("expected an error"),
        Err(error) => error,
    }
}

#[test]
fn local_numbers_follow_the_owned_order() {
    assert_eq!(layout(0).owned_experts(), vec![0, 3]);
    assert_eq!(layout(1).owned_experts(), vec![1, 2]);
    assert_eq!(layout(0).local_expert(3), Ok(1));
    assert_eq!(layout(1).local_expert(1), Ok(0));
    assert_eq!(layout(0).owner_rank(2), Ok(1));
}

#[test]
fn unknown_and_foreign_experts_are_refused() {
    let unknown = error_of(layout(0).owner_rank(4));
    assert_eq!(unknown, ModelError::UnknownExpert { global_expert: 4 });
    assert_eq!(unknown.message(), "routed expert 4 out of range");
    assert_eq!(
        layout(0).local_expert(7),
        Err(ModelError::UnknownExpert { global_expert: 7 })
    );

    let foreign = error_of(layout(0).local_expert(2));
    assert_eq!(foreign, ModelError::ForeignExpert { rank: 0, global_expert: 2 });
    assert_eq!(foreign.message(), "routed expert 2 is not owned by rank 0");
}

#[test]
fn owned_expert_is_found() {
    let experts = vec![expert(0), expert(3)];

    let found = routed_expert_from_slice(&layout(0), &experts, 3).ok().unwrap();

    assert_eq!(found.global_expert, 3);
    assert_eq!(found.dense.down_proj, "down 3");
}

#[test]
fn missing_expert_is_reported() {
    let experts = vec![expert(0)];

    let error = error_of(routed_expert_from_slice(&layout(0), &experts, 3));

    assert_eq!(
        error,
        ModelError::ExpertMissing { rank: 0, local_expert: 1, global_expert: 3 }
    );
    assert_eq!(error.message(), "rank 0 local expert 1 missing for global expert 3");
}

#[test]
fn misplaced_expert_is_reported() {
    let experts = vec![expert(0), expert(2)];

    let error = error_of(routed_expert_from_slice(&layout(0), &experts, 3));

    assert_eq!(
        error,
        ModelError::ExpertMismatch { rank: 0, local_expert: 1, expected: 3, got: 2 }
    );
    assert_eq!(error.message(), "rank 0 local expert 1 expected global 3, got 2");
}

#[test]
fn driver_rank_knows_its_layers() {
    let driver = driver();

    assert_eq!(driver.routed_expert(1, 3).ok().unwrap().global_expert, 3);
    let dense = error_of(driver.routed_expert(0, 3));
    assert_eq!(dense, ModelError::NotMoeLayer { layer_idx: 0 });
    assert_eq!(dense.message(), "layer 0 is not a MoE layer");
    let outside = error_of(driver.routed_expert(2, 3));
    assert_eq!(outside, ModelError::LayerOutOfRange { layer_idx: 2 });
    assert_eq!(outside.message(), "layer 2 out of range");
}

#[test]
fn expert_rank_knows_its_layers() {
    let rank = other();

    assert_eq!(rank.routed_expert(1, 2).ok().unwrap().global_expert, 2);
    assert_eq!(error_of(rank.routed_expert(0, 2)), ModelError::NotMoeLayer { layer_idx: 0 });
    assert_eq!(error_of(rank.routed_expert(9, 2)), ModelError::LayerOutOfRange { layer_idx: 9 });
    assert_eq!(
        error_of(rank.routed_expert(1, 3)),
        ModelError::ForeignExpert { rank: 1, global_expert: 3 }
    );
}

#[test]
fn every_route_is_served_by_its_owner() {
    let rank0 = driver();
    let rank1 = other();

    for global_expert in 0..4 {
        let (found, remote) = select_expert(&rank0, &rank1, 1, global_expert).ok().unwrap();
        assert_eq!(found.global_expert, global_expert);
        assert_eq!(remote, rank0.layout.owners[global_expert] != 0);
    }
    assert_eq!(
        error_of(select_expert(&rank0, &rank1, 1, 4)),
        ModelError::UnknownExpert { global_expert: 4 }
    );
    assert_eq!(
        error_of(select_expert(&rank0, &rank1, 0, 1)),
        ModelError::NotMoeLayer { layer_idx: 0 }
    );
}

#[test]
fn third_rank_is_not_supported() {
    let mut rank0 = driver();
    rank0.layout.owners = vec![0, 1, 2, 0];

    let error = error_of(select_expert(&rank0, &other(), 1, 2));

    assert_eq!(error, ModelError::UnsupportedRank { global_expert: 2, rank: 2 });
    assert_eq!(error.message(), "routed expert 2 maps to unsupported EP rank 2");
}

#[test]
fn tied_embeddings_are_refused() {
    let mut config = config();
    assert_eq!(check_untied(&config), Ok(()));

    config.tie_word_embeddings = true;

    let error = error_of(check_untied(&config));
    assert_eq!(error, ModelError::TiedEmbeddings);
    assert_eq!(error.message(), "DeepSeek-V2-Lite first gate expects untied lm_head");
}

#[test]
fn uneven_share_is_refused() {
    assert_eq!(check_owned_experts(&config(), &layout(1), 2), Ok(()));

    let error = error_of(check_owned_experts(&config(), &layout(1), 3));

    assert_eq!(error, ModelError::ExpertCount { rank: 1, loaded: 3, expected: 2 });
    assert_eq!(error.message(), "rank 1 loaded 3 routed experts, expected 2");
}

#[test]
fn dense_names_stand_under_their_prefix() {
    let names = dense_mlp_names("model.layers.0.mlp");

    assert_eq!(names.gate_proj, "model.layers.0.mlp.gate_proj.weight");
    assert_eq!(names.up_proj, "model.layers.0.mlp.up_proj.weight");
    assert_eq!(names.down_proj, "model.layers.0.mlp.down_proj.weight");
}

#[test]
fn mixture_names_list_the_owned_experts() {
    let names = moe_mlp_names(&layout(1), "p");

    assert_eq!(names.gate, "p.gate.weight");
    assert_eq!(names.shared.up_proj, "p.shared_experts.up_proj.weight");
    assert_eq!(names.experts.len(), 2);
    assert_eq!(names.experts[0].global_expert, 1);
    assert_eq!(names.experts[0].dense.gate_proj, "p.experts.1.gate_proj.weight");
    assert_eq!(names.experts[1].global_expert, 2);
    assert_eq!(names.experts[1].dense.down_proj, "p.experts.2.down_proj.weight");
}

#[test]
fn driver_rank_loads_everything_but_foreign_experts() {
    let names = driver_rank_names(&config(), &layout(0));

    assert_eq!(names.embed_tokens, "model.embed_tokens.weight");
    assert_eq!(names.lm_head, "lm_head.weight");
    assert_eq!(names.norm, "model.norm.weight");
    assert_eq!(names.layers.len(), 2);
    let first = &names.layers[0];
    assert_eq!(first.input_layernorm, "model.layers.0.input_layernorm.weight");
    assert_eq!(
        first.post_attention_layernorm,
        "model.layers.0.post_attention_layernorm.weight"
    );
    assert_eq!(first.attention.kv_a_norm, "model.layers.0.self_attn.kv_a_layernorm.weight");
    assert_eq!(first.attention.q_proj, "model.layers.0.self_attn.q_proj.weight");
    assert_eq!(
        first.attention.kv_a_proj,
        "model.layers.0.self_attn.kv_a_proj_with_mqa.weight"
    );
    assert_eq!(first.attention.kv_b_proj, "model.layers.0.self_attn.kv_b_proj.weight");
    assert_eq!(first.attention.o_proj, "model.layers.0.self_attn.o_proj.weight");
    assert!(matches!(&first.mlp, MlpNames::Dense(dense)
        if dense.down_proj == "model.layers.0.mlp.down_proj.weight"));
    assert!(matches!(&names.layers[1].mlp, MlpNames::Moe(moe)
        if moe.gate == "model.layers.1.mlp.gate.weight"
            && moe.experts.len() == 2
            && moe.experts[1].dense.up_proj == "model.layers.1.mlp.experts.3.up_proj.weight"));
}

#[test]
fn expert_rank_loads_its_experts_alone() {
    let layers = expert_rank_names(&config(), &layout(1));

    assert_eq!(layers.len(), 2);
    assert!(layers[0].is_none());
    let experts = layers[1].as_ref().unwrap();
    assert_eq!(experts.len(), 2);
    assert_eq!(experts[0].dense.gate_proj, "model.layers.1.mlp.experts.1.gate_proj.weight");
}

#[test]
fn experts_loaded_by_name_are_found() {
    let names = owned_expert_names(&layout(1), "p");
    let experts: Vec<ExpertMlp<String>> = names.iter().map(|name| expert(name.global_expert)).collect();

    for global_expert in [1, 2] {
        let found = routed_expert_from_slice(&layout(1), &experts, global_expert).ok().unwrap();
        assert_eq!(found.global_expert, global_expert);
    }
    assert!(routed_expert_from_slice(&layout(1), &experts, 0).is_err());
}

#[test]
fn names_of_different_experts_differ() {
    let layout = ExpertParallelLayout { rank: 0, ep_size: 1, owners: vec![0; 12] };
    let names = owned_expert_names(&layout, "model.layers.1.mlp");

    assert_eq!(names[1].dense.up_proj, "model.layers.1.mlp.experts.1.up_proj.weight");
    assert_eq!(names[11].dense.up_proj, "model.layers.1.mlp.experts.11.up_proj.weight");
}
