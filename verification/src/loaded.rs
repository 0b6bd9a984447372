//! What is in a rank that was loaded: every weight comes from the tensor that
//! bears its name, and loading fails only where a tensor does or the weights do
//! not fit together.
use vstd::prelude::*;

#[allow(unused_imports)]
use crate::config::Config;
#[allow(unused_imports)]
use crate::ep::{law_owned_are_the_placed, law_placement_of_an_expert, ExpertParallelLayout};
#[allow(unused_imports)]
use crate::error::{ModelError, RankError};
#[allow(unused_imports)]
use crate::loading::{
    attention_finished, attention_outcome, dense_finished, dense_outcome, driver_finished,
    driver_head, driver_outcome, expert_layers_read, expert_rank_outcome, experts_outcome,
    experts_read, fails_with, gives_up, layer_finished, layer_outcome, layers_read, moe_outcome,
    norms_named, projections_outcome, reads, Tensors,
};
#[allow(unused_imports)]
use crate::model::{
    expert_prefix, law_driver_answers_from_the_layer, law_even_share,
    law_expert_rank_answers_from_the_layer, layer_prefix, mlp_prefix, share_loaded,
    AttentionWeights, DenseMlp, DriverRankModel, ExpertMlp, ExpertRankModel, LayerWeights,
    MlpWeights, MoeMlp,
};
#[allow(unused_imports)]
use crate::text::decimal;

verus! {

/// A loaded feed-forward block is the gating matrix stacked on the up matrix,
/// and the down matrix, each read under its own name.
pub proof fn law_dense_is_loaded<
    C,
    M,
    E,
    FM: Fn(&C, &str) -> Result<M, E>,
    FV,
    FH,
    FS: Fn(&C, &M, &M) -> Result<M, E>,
>(
    tensors: Tensors<FM, FV, FH, FS>,
    ctx: C,
    prefix: Seq<char>,
    dense: DenseMlp<M>,
) -> (parts: (M, M))
    requires
        dense_outcome(tensors, ctx, prefix, Ok::<DenseMlp<M>, E>(dense)),
    ensures
        exists|s: &str|
            s@ == prefix + ".gate_proj.weight"@ && #[trigger] call_ensures(
                tensors.matrix,
                (&ctx, s),
                Ok::<M, E>(parts.0),
            ),
        exists|s: &str|
            s@ == prefix + ".up_proj.weight"@ && #[trigger] call_ensures(
                tensors.matrix,
                (&ctx, s),
                Ok::<M, E>(parts.1),
            ),
        call_ensures(
            tensors.stack,
            (&ctx, &parts.0, &parts.1),
            Ok::<M, E>(dense.gate_up_proj),
        ),
        exists|s: &str|
            s@ == prefix + ".down_proj.weight"@ && #[trigger] call_ensures(
                tensors.matrix,
                (&ctx, s),
                Ok::<M, E>(dense.down_proj),
            ),
{
    let result = Ok::<DenseMlp<M>, E>(dense);
    let gate = choose|gate: Result<M, E>|
        {
            &&& #[trigger] reads(tensors.matrix, ctx, prefix + ".gate_proj.weight"@, gate)
            &&& gate is Ok
            &&& exists|up: Result<M, E>|
                {
                    &&& #[trigger] reads(tensors.matrix, ctx, prefix + ".up_proj.weight"@, up)
                    &&& up is Ok
                    &&& dense_finished(tensors, ctx, prefix, gate->Ok_0, up->Ok_0, result)
                }
        };
    let up = choose|up: Result<M, E>|
        {
            &&& #[trigger] reads(tensors.matrix, ctx, prefix + ".up_proj.weight"@, up)
            &&& up is Ok
            &&& dense_finished(tensors, ctx, prefix, gate->Ok_0, up->Ok_0, result)
        };
    assert(reads(
        tensors.matrix,
        ctx,
        prefix + ".gate_proj.weight"@,
        Ok::<M, E>(gate->Ok_0),
    ));
    assert(reads(
        tensors.matrix,
        ctx,
        prefix + ".up_proj.weight"@,
        Ok::<M, E>(up->Ok_0),
    ));
    assert(reads(
        tensors.matrix,
        ctx,
        prefix + ".down_proj.weight"@,
        Ok::<M, E>(dense.down_proj),
    ));
    (gate->Ok_0, up->Ok_0)
}

/// Loading a feed-forward block fails only with the failure of a tensor.
pub proof fn law_dense_failure<
    C,
    M,
    E,
    FM: Fn(&C, &str) -> Result<M, E>,
    FV,
    FH,
    FS: Fn(&C, &M, &M) -> Result<M, E>,
>(
    tensors: Tensors<FM, FV, FH, FS>,
    ctx: C,
    bad: spec_fn(E) -> bool,
    prefix: Seq<char>,
    result: Result<DenseMlp<M>, E>,
)
    requires
        forall|s: &str, error: E|
            #[trigger] call_ensures(tensors.matrix, (&ctx, s), Err::<M, E>(error)) ==> bad(error),
        forall|a: &M, b: &M, error: E|
            #[trigger] call_ensures(tensors.stack, (&ctx, a, b), Err::<M, E>(error)) ==> bad(
                error,
            ),
        dense_outcome(tensors, ctx, prefix, result),
    ensures
        result matches Err(error) ==> bad(error),
{
}

/// The experts that were loaded of a layer: an even share, those that the
/// placement gives the rank, in ascending order, each with the weights under
/// its own number.
pub proof fn law_experts_are_loaded<
    C,
    M,
    E,
    FM: Fn(&C, &str) -> Result<M, E>,
    FV,
    FH,
    FS: Fn(&C, &M, &M) -> Result<M, E>,
>(
    tensors: Tensors<FM, FV, FH, FS>,
    ctx: C,
    config: &Config,
    layout: &ExpertParallelLayout,
    prefix: Seq<char>,
    experts: Vec<ExpertMlp<M>>,
    i: int,
)
    requires
        layout.ep_size > 0,
        experts_outcome(
            tensors,
            ctx,
            config,
            layout,
            prefix,
            Ok::<Vec<ExpertMlp<M>>, RankError<E>>(experts),
        ),
        0 <= i < experts@.len(),
    ensures
        experts@.len() == config.n_routed_experts as int / layout.ep_size as int,
        experts@.len() == layout.owned().len(),
        experts@[i].global_expert == layout.owned()[i],
        experts@[i].global_expert < layout.owners@.len(),
        layout.owners@[experts@[i].global_expert as int] == layout.rank,
        forall|j: int|
            0 <= j < i ==> (#[trigger] experts@[j]).global_expert < experts@[i].global_expert,
        dense_outcome(
            tensors,
            ctx,
            prefix + ".experts."@ + decimal(experts@[i].global_expert as nat),
            Ok::<DenseMlp<M>, E>(experts@[i].dense),
        ),
{
    assert(experts@.len() == experts.len());
    law_even_share(config, layout, experts@.len() as usize);
    law_owned_are_the_placed(layout, layout.owned()[i]);
    assert(experts@[i].global_expert == layout.owned()[i]);
    assert forall|j: int| 0 <= j < i implies (#[trigger] experts@[j]).global_expert
        < experts@[i].global_expert by {
        assert(experts@[j].global_expert == layout.owned()[j]);
    }
}

/// Loading the experts of a layer fails only with the failure of a tensor, or
/// where they are not an even share.
pub proof fn law_experts_failure<
    C,
    M,
    E,
    FM: Fn(&C, &str) -> Result<M, E>,
    FV,
    FH,
    FS: Fn(&C, &M, &M) -> Result<M, E>,
>(
    tensors: Tensors<FM, FV, FH, FS>,
    ctx: C,
    bad: spec_fn(E) -> bool,
    config: &Config,
    layout: &ExpertParallelLayout,
    prefix: Seq<char>,
    result: Result<Vec<ExpertMlp<M>>, RankError<E>>,
)
    requires
        layout.ep_size > 0,
        forall|s: &str, error: E|
            #[trigger] call_ensures(tensors.matrix, (&ctx, s), Err::<M, E>(error)) ==> bad(error),
        forall|a: &M, b: &M, error: E|
            #[trigger] call_ensures(tensors.stack, (&ctx, a, b), Err::<M, E>(error)) ==> bad(
                error,
            ),
        experts_outcome(tensors, ctx, config, layout, prefix, result),
    ensures
        result matches Err(RankError::Tensor(error)) ==> bad(error),
        result matches Err(RankError::Model(_)) ==> layout.owned().len()
            != config.n_routed_experts as int / layout.ep_size as int,
{
    match result {
        Err(RankError::Tensor(error)) => {
            let done = choose|done: Seq<ExpertMlp<M>>|
                {
                    &&& #[trigger] experts_read(tensors, ctx, layout, prefix, done)
                    &&& done.len() < layout.owned().len()
                    &&& dense_outcome(
                        tensors,
                        ctx,
                        expert_prefix(prefix, layout.owned()[done.len() as int] as nat),
                        Err::<DenseMlp<M>, E>(error),
                    )
                };
            law_dense_failure(
                tensors,
                ctx,
                bad,
                expert_prefix(prefix, layout.owned()[done.len() as int] as nat),
                Err::<DenseMlp<M>, E>(error),
            );
        },
        Err(RankError::Model(_)) => {
            assert(layout.owners@.len() == layout.owners.len());
            crate::ep::lemma_owned_below(layout.owners@, layout.rank, layout.owners@.len());
            law_even_share(config, layout, layout.owned().len() as usize);
        },
        Ok(_) => {},
    }
}

/// A loaded mixture is its router, its shared experts and the rank's experts,
/// each read under its own name.
pub proof fn law_mixture_is_loaded<
    C,
    M,
    E,
    FM: Fn(&C, &str) -> Result<M, E>,
    FV,
    FH,
    FS: Fn(&C, &M, &M) -> Result<M, E>,
>(
    tensors: Tensors<FM, FV, FH, FS>,
    ctx: C,
    config: &Config,
    layout: &ExpertParallelLayout,
    prefix: Seq<char>,
    moe: MoeMlp<M>,
)
    requires
        moe_outcome(tensors, ctx, config, layout, prefix, Ok::<MoeMlp<M>, RankError<E>>(moe)),
    ensures
        exists|s: &str|
            s@ == prefix + ".gate.weight"@ && #[trigger] call_ensures(
                tensors.matrix,
                (&ctx, s),
                Ok::<M, E>(moe.gate),
            ),
        dense_outcome(
            tensors,
            ctx,
            prefix + ".shared_experts"@,
            Ok::<DenseMlp<M>, E>(moe.shared),
        ),
        experts_outcome(
            tensors,
            ctx,
            config,
            layout,
            prefix,
            Ok::<Vec<ExpertMlp<M>>, RankError<E>>(moe.experts),
        ),
{
    assert(reads(
        tensors.matrix,
        ctx,
        prefix + ".gate.weight"@,
        Ok::<M, E>(moe.gate),
    ));
}

/// Loading a mixture fails only with the failure of a tensor, or where the
/// experts are not an even share.
pub proof fn law_mixture_failure<
    C,
    M,
    E,
    FM: Fn(&C, &str) -> Result<M, E>,
    FV,
    FH,
    FS: Fn(&C, &M, &M) -> Result<M, E>,
>(
    tensors: Tensors<FM, FV, FH, FS>,
    ctx: C,
    bad: spec_fn(E) -> bool,
    config: &Config,
    layout: &ExpertParallelLayout,
    prefix: Seq<char>,
    result: Result<MoeMlp<M>, RankError<E>>,
)
    requires
        layout.ep_size > 0,
        forall|s: &str, error: E|
            #[trigger] call_ensures(tensors.matrix, (&ctx, s), Err::<M, E>(error)) ==> bad(error),
        forall|a: &M, b: &M, error: E|
            #[trigger] call_ensures(tensors.stack, (&ctx, a, b), Err::<M, E>(error)) ==> bad(
                error,
            ),
        moe_outcome(tensors, ctx, config, layout, prefix, result),
    ensures
        result matches Err(RankError::Tensor(error)) ==> bad(error),
        result matches Err(RankError::Model(_)) ==> layout.owned().len()
            != config.n_routed_experts as int / layout.ep_size as int,
{
    assert forall|experts: Result<Vec<ExpertMlp<M>>, RankError<E>>| #[trigger]
        experts_outcome(tensors, ctx, config, layout, prefix, experts) implies {
        &&& experts matches Err(RankError::Tensor(error)) ==> bad(error)
        &&& experts matches Err(RankError::Model(_)) ==> layout.owned().len()
            != config.n_routed_experts as int / layout.ep_size as int
    } by {
        law_experts_failure(tensors, ctx, bad, config, layout, prefix, experts);
    }
    assert forall|shared: Result<DenseMlp<M>, E>| #[trigger]
        dense_outcome(tensors, ctx, prefix + ".shared_experts"@, shared) implies (
    shared matches Err(error) ==> bad(error)) by {
        law_dense_failure(tensors, ctx, bad, prefix + ".shared_experts"@, shared);
    }
}

/// The loaded attention part of a layer: each projection is read under its own
/// name, and the normalisation weights are the host copy of their vector.
pub proof fn law_attention_is_loaded<
    C,
    M,
    V,
    H,
    E,
    FM: Fn(&C, &str) -> Result<M, E>,
    FV: Fn(&C, &str) -> Result<V, E>,
    FH: Fn(&C, &V) -> Result<Vec<H>, E>,
    FS: Fn(&C, &M, &M) -> Result<M, E>,
>(
    tensors: Tensors<FM, FV, FH, FS>,
    ctx: C,
    prefix: Seq<char>,
    attention: AttentionWeights<M, H>,
) -> (norm: V)
    requires
        attention_outcome(tensors, ctx, prefix, Ok::<AttentionWeights<M, H>, E>(attention)),
    ensures
        exists|s: &str|
            s@ == prefix + ".kv_a_layernorm.weight"@ && #[trigger] call_ensures(
                tensors.vector,
                (&ctx, s),
                Ok::<V, E>(norm),
            ),
        call_ensures(
            tensors.to_host,
            (&ctx, &norm),
            Ok::<Vec<H>, E>(attention.kv_a_norm_host),
        ),
        exists|s: &str|
            s@ == prefix + ".q_proj.weight"@ && #[trigger] call_ensures(
                tensors.matrix,
                (&ctx, s),
                Ok::<M, E>(attention.q_proj),
            ),
        exists|s: &str|
            s@ == prefix + ".kv_a_proj_with_mqa.weight"@ && #[trigger] call_ensures(
                tensors.matrix,
                (&ctx, s),
                Ok::<M, E>(attention.kv_a_proj),
            ),
        exists|s: &str|
            s@ == prefix + ".kv_b_proj.weight"@ && #[trigger] call_ensures(
                tensors.matrix,
                (&ctx, s),
                Ok::<M, E>(attention.kv_b_proj),
            ),
        exists|s: &str|
            s@ == prefix + ".o_proj.weight"@ && #[trigger] call_ensures(
                tensors.matrix,
                (&ctx, s),
                Ok::<M, E>(attention.o_proj),
            ),
{
    let result = Ok::<AttentionWeights<M, H>, E>(attention);
    let norm = choose|norm: Result<V, E>|
        {
            &&& #[trigger] reads(tensors.vector, ctx, prefix + ".kv_a_layernorm.weight"@, norm)
            &&& norm is Ok
            &&& exists|host: Result<Vec<H>, E>|
                {
                    &&& #[trigger] call_ensures(tensors.to_host, (&ctx, &norm->Ok_0), host)
                    &&& host is Ok
                    &&& projections_outcome(tensors, ctx, prefix, host->Ok_0, result)
                }
        };
    assert(reads(
        tensors.vector,
        ctx,
        prefix + ".kv_a_layernorm.weight"@,
        Ok::<V, E>(norm->Ok_0),
    ));
    assert(reads(
        tensors.matrix,
        ctx,
        prefix + ".q_proj.weight"@,
        Ok::<M, E>(attention.q_proj),
    ));
    assert(reads(
        tensors.matrix,
        ctx,
        prefix + ".kv_a_proj_with_mqa.weight"@,
        Ok::<M, E>(attention.kv_a_proj),
    ));
    assert(reads(
        tensors.matrix,
        ctx,
        prefix + ".kv_b_proj.weight"@,
        Ok::<M, E>(attention.kv_b_proj),
    ));
    assert(reads(
        tensors.matrix,
        ctx,
        prefix + ".o_proj.weight"@,
        Ok::<M, E>(attention.o_proj),
    ));
    norm->Ok_0
}

/// Loading the attention part of a layer fails only with the failure of a
/// tensor.
pub proof fn law_attention_failure<
    C,
    M,
    V,
    H,
    E,
    FM: Fn(&C, &str) -> Result<M, E>,
    FV: Fn(&C, &str) -> Result<V, E>,
    FH: Fn(&C, &V) -> Result<Vec<H>, E>,
    FS: Fn(&C, &M, &M) -> Result<M, E>,
>(
    tensors: Tensors<FM, FV, FH, FS>,
    ctx: C,
    bad: spec_fn(E) -> bool,
    prefix: Seq<char>,
    result: Result<AttentionWeights<M, H>, E>,
)
    requires
        forall|s: &str, error: E|
            #[trigger] call_ensures(tensors.matrix, (&ctx, s), Err::<M, E>(error)) ==> bad(error),
        forall|a: &M, b: &M, error: E|
            #[trigger] call_ensures(tensors.stack, (&ctx, a, b), Err::<M, E>(error)) ==> bad(
                error,
            ),
        forall|s: &str, error: E|
            #[trigger] call_ensures(tensors.vector, (&ctx, s), Err::<V, E>(error)) ==> bad(error),
        forall|v: &V, error: E|
            #[trigger] call_ensures(tensors.to_host, (&ctx, v), Err::<Vec<H>, E>(error)) ==> bad(
                error,
            ),
        attention_outcome(tensors, ctx, prefix, result),
    ensures
        result matches Err(error) ==> bad(error),
{
}

/// A loaded layer of the driver rank, whatever kind of layer it is: both
/// normalisations are read under their own names, the attention part and the
/// feed-forward part come from the layer's own prefix, and the feed-forward
/// part is a mixture exactly where the model has one.
pub proof fn law_layer_is_loaded<
    C,
    M,
    V,
    H,
    E,
    FM: Fn(&C, &str) -> Result<M, E>,
    FV: Fn(&C, &str) -> Result<V, E>,
    FH: Fn(&C, &V) -> Result<Vec<H>, E>,
    FS: Fn(&C, &M, &M) -> Result<M, E>,
>(
    tensors: Tensors<FM, FV, FH, FS>,
    ctx: C,
    config: &Config,
    layout: &ExpertParallelLayout,
    layer: nat,
    weights: LayerWeights<M, V, H>,
)
    requires
        layer_outcome(
            tensors,
            ctx,
            config,
            layout,
            layer,
            Ok::<LayerWeights<M, V, H>, RankError<E>>(weights),
        ),
    ensures
        exists|s: &str|
            s@ == "model.layers."@ + decimal(layer) + ".input_layernorm.weight"@
                && #[trigger] call_ensures(
                tensors.vector,
                (&ctx, s),
                Ok::<V, E>(weights.input_layernorm),
            ),
        exists|s: &str|
            s@ == "model.layers."@ + decimal(layer) + ".post_attention_layernorm.weight"@
                && #[trigger] call_ensures(
                tensors.vector,
                (&ctx, s),
                Ok::<V, E>(weights.post_attention_layernorm),
            ),
        attention_outcome(
            tensors,
            ctx,
            "model.layers."@ + decimal(layer) + ".self_attn"@,
            Ok::<AttentionWeights<M, H>, E>(weights.attention),
        ),
        weights.mlp is Moe <==> (layer < config.moe_layers@.len()
            && config.moe_layers@[layer as int]),
        weights.mlp matches MlpWeights::Moe(moe) ==> moe_outcome(
            tensors,
            ctx,
            config,
            layout,
            "model.layers."@ + decimal(layer) + ".mlp"@,
            Ok::<MoeMlp<M>, RankError<E>>(moe),
        ),
        weights.mlp matches MlpWeights::Dense(dense) ==> dense_outcome(
            tensors,
            ctx,
            "model.layers."@ + decimal(layer) + ".mlp"@,
            Ok::<DenseMlp<M>, E>(dense),
        ),
{
    assert(reads(
        tensors.vector,
        ctx,
        "model.layers."@ + decimal(layer) + ".input_layernorm.weight"@,
        Ok::<V, E>(weights.input_layernorm),
    ));
    assert(reads(
        tensors.vector,
        ctx,
        "model.layers."@ + decimal(layer) + ".post_attention_layernorm.weight"@,
        Ok::<V, E>(weights.post_attention_layernorm),
    ));
}

/// Loading a layer fails only with the failure of a tensor, or where its
/// experts are not an even share.
pub proof fn law_layer_failure<
    C,
    M,
    V,
    H,
    E,
    FM: Fn(&C, &str) -> Result<M, E>,
    FV: Fn(&C, &str) -> Result<V, E>,
    FH: Fn(&C, &V) -> Result<Vec<H>, E>,
    FS: Fn(&C, &M, &M) -> Result<M, E>,
>(
    tensors: Tensors<FM, FV, FH, FS>,
    ctx: C,
    bad: spec_fn(E) -> bool,
    config: &Config,
    layout: &ExpertParallelLayout,
    layer: nat,
    result: Result<LayerWeights<M, V, H>, RankError<E>>,
)
    requires
        layout.ep_size > 0,
        forall|s: &str, error: E|
            #[trigger] call_ensures(tensors.matrix, (&ctx, s), Err::<M, E>(error)) ==> bad(error),
        forall|a: &M, b: &M, error: E|
            #[trigger] call_ensures(tensors.stack, (&ctx, a, b), Err::<M, E>(error)) ==> bad(
                error,
            ),
        forall|s: &str, error: E|
            #[trigger] call_ensures(tensors.vector, (&ctx, s), Err::<V, E>(error)) ==> bad(error),
        forall|v: &V, error: E|
            #[trigger] call_ensures(tensors.to_host, (&ctx, v), Err::<Vec<H>, E>(error)) ==> bad(
                error,
            ),
        layer_outcome(tensors, ctx, config, layout, layer, result),
    ensures
        result matches Err(RankError::Tensor(error)) ==> bad(error),
        result matches Err(RankError::Model(_)) ==> layout.owned().len()
            != config.n_routed_experts as int / layout.ep_size as int,
{
    let prefix = layer_prefix(layer) + ".self_attn"@;
    assert forall|attention: Result<AttentionWeights<M, H>, E>| #[trigger]
        attention_outcome(tensors, ctx, prefix, attention) implies (
    attention matches Err(error) ==> bad(error)) by {
        law_attention_failure(tensors, ctx, bad, prefix, attention);
    }
    assert forall|moe: Result<MoeMlp<M>, RankError<E>>| #[trigger]
        moe_outcome(tensors, ctx, config, layout, mlp_prefix(layer), moe) implies {
        &&& moe matches Err(RankError::Tensor(error)) ==> bad(error)
        &&& moe matches Err(RankError::Model(_)) ==> layout.owned().len()
            != config.n_routed_experts as int / layout.ep_size as int
    } by {
        law_mixture_failure(tensors, ctx, bad, config, layout, mlp_prefix(layer), moe);
    }
    assert forall|dense: Result<DenseMlp<M>, E>| #[trigger]
        dense_outcome(tensors, ctx, mlp_prefix(layer), dense) implies (
    dense matches Err(error) ==> bad(error)) by {
        law_dense_failure(tensors, ctx, bad, mlp_prefix(layer), dense);
    }
}

/// The loaded driver rank: it keeps its device and placement, the embedding,
/// the output projection and the final normalisation are read under their own
/// names, and it has every layer of the model, each as loading it gives it.
pub proof fn law_driver_is_loaded<
    C,
    M,
    V,
    H,
    E,
    FM: Fn(&C, &str) -> Result<M, E>,
    FV: Fn(&C, &str) -> Result<V, E>,
    FH: Fn(&C, &V) -> Result<Vec<H>, E>,
    FS: Fn(&C, &M, &M) -> Result<M, E>,
>(
    tensors: Tensors<FM, FV, FH, FS>,
    ctx: C,
    config: &Config,
    layout: ExpertParallelLayout,
    model: DriverRankModel<C, M, V, H>,
)
    requires
        driver_outcome(
            tensors,
            ctx,
            config,
            layout,
            Ok::<DriverRankModel<C, M, V, H>, RankError<E>>(model),
        ),
    ensures
        model.ctx == ctx,
        model.layout == layout,
        !config.tie_word_embeddings,
        exists|s: &str|
            s@ == "model.embed_tokens.weight"@ && #[trigger] call_ensures(
                tensors.matrix,
                (&ctx, s),
                Ok::<M, E>(model.embed_tokens),
            ),
        exists|s: &str|
            s@ == "lm_head.weight"@ && #[trigger] call_ensures(
                tensors.matrix,
                (&ctx, s),
                Ok::<M, E>(model.lm_head),
            ),
        exists|s: &str|
            s@ == "model.norm.weight"@ && #[trigger] call_ensures(
                tensors.vector,
                (&ctx, s),
                Ok::<V, E>(model.norm),
            ),
        model.layers@.len() == config.num_hidden_layers,
        forall|i: int|
            0 <= i < model.layers@.len() ==> layer_outcome(
                tensors,
                ctx,
                config,
                &layout,
                i as nat,
                Ok::<LayerWeights<M, V, H>, RankError<E>>(#[trigger] model.layers@[i]),
            ),
{
    assert(reads(
        tensors.matrix,
        ctx,
        "model.embed_tokens.weight"@,
        Ok::<M, E>(model.embed_tokens),
    ));
    assert(reads(
        tensors.matrix,
        ctx,
        "lm_head.weight"@,
        Ok::<M, E>(model.lm_head),
    ));
    assert(reads(
        tensors.vector,
        ctx,
        "model.norm.weight"@,
        Ok::<V, E>(model.norm),
    ));
}

/// Both normalisations of every layer of a loaded driver rank are read under
/// their own names.
pub proof fn law_driver_norms_are_loaded<
    C,
    M,
    V,
    H,
    E,
    FM: Fn(&C, &str) -> Result<M, E>,
    FV: Fn(&C, &str) -> Result<V, E>,
    FH: Fn(&C, &V) -> Result<Vec<H>, E>,
    FS: Fn(&C, &M, &M) -> Result<M, E>,
>(
    tensors: Tensors<FM, FV, FH, FS>,
    ctx: C,
    config: &Config,
    layout: ExpertParallelLayout,
    model: DriverRankModel<C, M, V, H>,
    i: nat,
)
    requires
        driver_outcome(
            tensors,
            ctx,
            config,
            layout,
            Ok::<DriverRankModel<C, M, V, H>, RankError<E>>(model),
        ),
        i < config.num_hidden_layers,
    ensures
        exists|s: &str|
            s@ == "model.layers."@ + decimal(i) + ".input_layernorm.weight"@
                && #[trigger] call_ensures(
                tensors.vector,
                (&ctx, s),
                Ok::<V, E>(model.layers@[i as int].input_layernorm),
            ),
        exists|s: &str|
            s@ == "model.layers."@ + decimal(i) + ".post_attention_layernorm.weight"@
                && #[trigger] call_ensures(
                tensors.vector,
                (&ctx, s),
                Ok::<V, E>(model.layers@[i as int].post_attention_layernorm),
            ),
{
    law_driver_is_loaded(tensors, ctx, config, layout, model);
    law_layer_is_loaded(tensors, ctx, config, &layout, i, model.layers@[i as int]);
}

/// Loading the driver rank fails only with the failure of a tensor, where the
/// embeddings are tied, or where the experts are not an even share.
pub proof fn law_driver_failure<
    C,
    M,
    V,
    H,
    E,
    FM: Fn(&C, &str) -> Result<M, E>,
    FV: Fn(&C, &str) -> Result<V, E>,
    FH: Fn(&C, &V) -> Result<Vec<H>, E>,
    FS: Fn(&C, &M, &M) -> Result<M, E>,
>(
    tensors: Tensors<FM, FV, FH, FS>,
    ctx: C,
    bad: spec_fn(E) -> bool,
    config: &Config,
    layout: ExpertParallelLayout,
    result: Result<DriverRankModel<C, M, V, H>, RankError<E>>,
)
    requires
        layout.ep_size > 0,
        forall|s: &str, error: E|
            #[trigger] call_ensures(tensors.matrix, (&ctx, s), Err::<M, E>(error)) ==> bad(error),
        forall|a: &M, b: &M, error: E|
            #[trigger] call_ensures(tensors.stack, (&ctx, a, b), Err::<M, E>(error)) ==> bad(
                error,
            ),
        forall|s: &str, error: E|
            #[trigger] call_ensures(tensors.vector, (&ctx, s), Err::<V, E>(error)) ==> bad(error),
        forall|v: &V, error: E|
            #[trigger] call_ensures(tensors.to_host, (&ctx, v), Err::<Vec<H>, E>(error)) ==> bad(
                error,
            ),
        driver_outcome(tensors, ctx, config, layout, result),
    ensures
        result matches Err(RankError::Tensor(error)) ==> bad(error),
        result matches Err(RankError::Model(_)) ==> config.tie_word_embeddings
            || layout.owned().len() != config.n_routed_experts as int / layout.ep_size as int,
        config.tie_word_embeddings ==> result is Err,
{
    assert forall|layer: nat, weights: Result<LayerWeights<M, V, H>, RankError<E>>| #[trigger]
        layer_outcome(tensors, ctx, config, &layout, layer, weights) implies {
        &&& weights matches Err(RankError::Tensor(error)) ==> bad(error)
        &&& weights matches Err(RankError::Model(_)) ==> layout.owned().len()
            != config.n_routed_experts as int / layout.ep_size as int
    } by {
        law_layer_failure(tensors, ctx, bad, config, &layout, layer, weights);
    }
}

/// The loaded expert rank: it keeps its device and placement, and for every
/// layer it has the experts that it owns where the model has a mixture, and
/// nothing elsewhere.
pub proof fn law_expert_rank_is_loaded<
    C,
    M,
    E,
    FM: Fn(&C, &str) -> Result<M, E>,
    FV,
    FH,
    FS: Fn(&C, &M, &M) -> Result<M, E>,
>(
    tensors: Tensors<FM, FV, FH, FS>,
    ctx: C,
    config: &Config,
    layout: ExpertParallelLayout,
    model: ExpertRankModel<C, M>,
    i: nat,
)
    requires
        expert_rank_outcome(
            tensors,
            ctx,
            config,
            layout,
            Ok::<ExpertRankModel<C, M>, RankError<E>>(model),
        ),
        i < config.num_hidden_layers,
    ensures
        model.ctx == ctx,
        model.layout == layout,
        model.layers@.len() == config.num_hidden_layers,
        model.layers@[i as int] is Some <==> (i < config.moe_layers@.len()
            && config.moe_layers@[i as int]),
        model.layers@[i as int] matches Some(experts) ==> experts_outcome(
            tensors,
            ctx,
            config,
            &layout,
            "model.layers."@ + decimal(i) + ".mlp"@,
            Ok::<Vec<ExpertMlp<M>>, RankError<E>>(experts),
        ),
{
    let held = model.layers@[i as int];
    assert(match held {
        Some(experts) => config.moe_at(i as int),
        None => !config.moe_at(i as int),
    });
}

/// Loading an expert rank fails only with the failure of a tensor, or where the
/// experts are not an even share.
pub proof fn law_expert_rank_failure<
    C,
    M,
    E,
    FM: Fn(&C, &str) -> Result<M, E>,
    FV,
    FH,
    FS: Fn(&C, &M, &M) -> Result<M, E>,
>(
    tensors: Tensors<FM, FV, FH, FS>,
    ctx: C,
    bad: spec_fn(E) -> bool,
    config: &Config,
    layout: ExpertParallelLayout,
    result: Result<ExpertRankModel<C, M>, RankError<E>>,
)
    requires
        layout.ep_size > 0,
        forall|s: &str, error: E|
            #[trigger] call_ensures(tensors.matrix, (&ctx, s), Err::<M, E>(error)) ==> bad(error),
        forall|a: &M, b: &M, error: E|
            #[trigger] call_ensures(tensors.stack, (&ctx, a, b), Err::<M, E>(error)) ==> bad(
                error,
            ),
        expert_rank_outcome(tensors, ctx, config, layout, result),
    ensures
        result matches Err(RankError::Tensor(error)) ==> bad(error),
        result matches Err(RankError::Model(_)) ==> layout.owned().len()
            != config.n_routed_experts as int / layout.ep_size as int,
{
    assert forall|
        prefix: Seq<char>,
        experts: Result<Vec<ExpertMlp<M>>, RankError<E>>,
    | #[trigger] experts_outcome(tensors, ctx, config, &layout, prefix, experts) implies {
        &&& experts matches Err(RankError::Tensor(error)) ==> bad(error)
        &&& experts matches Err(RankError::Model(_)) ==> layout.owned().len()
            != config.n_routed_experts as int / layout.ep_size as int
    } by {
        law_experts_failure(tensors, ctx, bad, config, &layout, prefix, experts);
    }
}

/// The expert that a loaded driver rank answers with carries the weights that
/// were loaded for this expert under the prefix of the asked layer.
pub proof fn law_driver_answers_with_the_layers_weights<
    C,
    M,
    V,
    H,
    E,
    FM: Fn(&C, &str) -> Result<M, E>,
    FV: Fn(&C, &str) -> Result<V, E>,
    FH: Fn(&C, &V) -> Result<Vec<H>, E>,
    FS: Fn(&C, &M, &M) -> Result<M, E>,
>(
    tensors: Tensors<FM, FV, FH, FS>,
    ctx: C,
    config: &Config,
    layout: ExpertParallelLayout,
    model: DriverRankModel<C, M, V, H>,
    layer_idx: usize,
    global_expert: usize,
    expert: ExpertMlp<M>,
)
    requires
        layout.ep_size > 0,
        driver_outcome(
            tensors,
            ctx,
            config,
            layout,
            Ok::<DriverRankModel<C, M, V, H>, RankError<E>>(model),
        ),
        model.routed(layer_idx, global_expert) == Ok::<ExpertMlp<M>, ModelError>(expert),
    ensures
        dense_outcome(
            tensors,
            ctx,
            "model.layers."@ + decimal(layer_idx as nat) + ".mlp"@ + ".experts."@ + decimal(
                global_expert as nat,
            ),
            Ok::<DenseMlp<M>, E>(expert.dense),
        ),
{
    law_driver_is_loaded(tensors, ctx, config, layout, model);
    law_driver_answers_from_the_layer(&model, layer_idx, global_expert);
    let l = layer_idx as int;
    law_layer_is_loaded(tensors, ctx, config, &layout, layer_idx as nat, model.layers@[l]);
    match model.layers@[l].mlp {
        MlpWeights::Moe(moe) => {
            let prefix = "model.layers."@ + decimal(layer_idx as nat) + ".mlp"@;
            law_mixture_is_loaded(tensors, ctx, config, &layout, prefix, moe);
            let i = choose|i: int| 0 <= i < moe.experts@.len() && moe.experts@[i] == expert;
            law_experts_are_loaded(tensors, ctx, config, &layout, prefix, moe.experts, i);
        },
        MlpWeights::Dense(_) => {},
    }
}

/// The expert that a loaded expert rank answers with carries the weights that
/// were loaded for this expert under the prefix of the asked layer.
pub proof fn law_expert_rank_answers_with_the_layers_weights<
    C,
    M,
    E,
    FM: Fn(&C, &str) -> Result<M, E>,
    FV,
    FH,
    FS: Fn(&C, &M, &M) -> Result<M, E>,
>(
    tensors: Tensors<FM, FV, FH, FS>,
    ctx: C,
    config: &Config,
    layout: ExpertParallelLayout,
    model: ExpertRankModel<C, M>,
    layer_idx: usize,
    global_expert: usize,
    expert: ExpertMlp<M>,
)
    requires
        layout.ep_size > 0,
        expert_rank_outcome(
            tensors,
            ctx,
            config,
            layout,
            Ok::<ExpertRankModel<C, M>, RankError<E>>(model),
        ),
        model.routed(layer_idx, global_expert) == Ok::<ExpertMlp<M>, ModelError>(expert),
    ensures
        dense_outcome(
            tensors,
            ctx,
            "model.layers."@ + decimal(layer_idx as nat) + ".mlp"@ + ".experts."@ + decimal(
                global_expert as nat,
            ),
            Ok::<DenseMlp<M>, E>(expert.dense),
        ),
{
    law_expert_rank_answers_from_the_layer(&model, layer_idx, global_expert);
    law_expert_rank_is_loaded(tensors, ctx, config, layout, model, layer_idx as nat);
    match model.layers@[layer_idx as int] {
        Some(experts) => {
            let prefix = "model.layers."@ + decimal(layer_idx as nat) + ".mlp"@;
            let i = choose|i: int| 0 <= i < experts@.len() && experts@[i] == expert;
            law_experts_are_loaded(tensors, ctx, config, &layout, prefix, experts, i);
        },
        None => {},
    }
}

} // verus!
