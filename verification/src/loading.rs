//! Loads the weights of each rank.
//!
//! What is done with single tensors is a parameter: a `Tensors` value reads
//! them by name, stacks two matrices and copies a vector to the host. What is
//! proved here holds whatever these operations give.
use vstd::prelude::*;

use crate::config::Config;
use crate::ep::ExpertParallelLayout;
use crate::error::{ModelError, RankError};
#[allow(unused_imports)]
use crate::model::{
    expert_prefix, in_place, layer_in_place, layer_prefix, loaded_as_named, mlp_prefix, owned_named,
    share_loaded,
};
#[allow(unused_imports)]
use crate::text::decimal;
use crate::model::{
    check_owned_experts, check_untied, dense_mlp_names, layer_names, layer_prefix_text, name,
    moe_mlp_names, owned_expert_names, AttentionNames, AttentionWeights, DenseMlp, DenseMlpNames,
    DriverRankModel, ExpertMlp, ExpertNames, ExpertRankModel, LayerNames, LayerWeights, MlpNames,
    MlpWeights, MoeMlp, MoeNames,
};

verus! {

/// What can be done with tensors on a device.
pub struct Tensors<FM, FV, FH, FS> {
    /// Reads a matrix.
    pub matrix: FM,
    /// Reads a vector.
    pub vector: FV,
    /// Copies a vector to the host.
    pub to_host: FH,
    /// Stacks a matrix on another one.
    pub stack: FS,
}

/// Reading a tensor under `name` can give `read`.
pub open spec fn reads<C, X, E, F: Fn(&C, &str) -> Result<X, E>>(
    load: F,
    ctx: C,
    name: Seq<char>,
    read: Result<X, E>,
) -> bool {
    exists|s: &str| s@ == name && #[trigger] call_ensures(load, (&ctx, s), read)
}

/// The result is the failure `error`.
pub open spec fn gives_up<X, E>(result: Result<X, E>, error: E) -> bool {
    result == Err::<X, E>(error)
}

/// The result is a failure, because a tensor failed with `error`.
pub open spec fn fails_with<X, E>(result: Result<X, RankError<E>>, error: E) -> bool {
    result == Err::<X, RankError<E>>(RankError::Tensor(error))
}

/// What loading the gated feed-forward block under `prefix` can give: the first
/// two matrices read and stacked, and the third, or the first failure.
pub open spec fn dense_outcome<
    C,
    M,
    E,
    FM: Fn(&C, &str) -> Result<M, E>,
    FV,
    FH,
    FS: Fn(&C, &M, &M) -> Result<M, E>,
>(
    tensors: Tensors<FM, FV, FH, FS>,
    ctx: C,
    prefix: Seq<char>,
    result: Result<DenseMlp<M>, E>,
) -> bool {
    exists|gate: Result<M, E>|
        {
            &&& #[trigger] reads(tensors.matrix, ctx, prefix + ".gate_proj.weight"@, gate)
            &&& match gate {
                Err(error) => gives_up(result, error),
                Ok(gate) => exists|up: Result<M, E>|
                    {
                        &&& #[trigger] reads(tensors.matrix, ctx, prefix + ".up_proj.weight"@, up)
                        &&& match up {
                            Err(error) => gives_up(result, error),
                            Ok(up) => dense_finished(tensors, ctx, prefix, gate, up, result),
                        }
                    },
            }
        }
}

/// What can come of the two matrices that were read first.
pub open spec fn dense_finished<
    C,
    M,
    E,
    FM: Fn(&C, &str) -> Result<M, E>,
    FV,
    FH,
    FS: Fn(&C, &M, &M) -> Result<M, E>,
>(
    tensors: Tensors<FM, FV, FH, FS>,
    ctx: C,
    prefix: Seq<char>,
    gate: M,
    up: M,
    result: Result<DenseMlp<M>, E>,
) -> bool {
    exists|stacked: Result<M, E>|
        {
            &&& #[trigger] call_ensures(tensors.stack, (&ctx, &gate, &up), stacked)
            &&& match stacked {
                Err(error) => gives_up(result, error),
                Ok(gate_up_proj) => exists|down: Result<M, E>|
                    {
                        &&& #[trigger] reads(
                            tensors.matrix,
                            ctx,
                            prefix + ".down_proj.weight"@,
                            down,
                        )
                        &&& match down {
                            Err(error) => gives_up(result, error),
                            Ok(down_proj) => result == Ok::<DenseMlp<M>, E>(
                                DenseMlp { gate_up_proj, down_proj },
                            ),
                        }
                    },
            }
        }
}

/// The operations take every name and every matrix.
pub open spec fn takes_matrices<
    C,
    M,
    E,
    FM: Fn(&C, &str) -> Result<M, E>,
    FV,
    FH,
    FS: Fn(&C, &M, &M) -> Result<M, E>,
>(tensors: Tensors<FM, FV, FH, FS>, ctx: C) -> bool {
    &&& forall|s: &str| #[trigger] call_requires(tensors.matrix, (&ctx, s))
    &&& forall|a: &M, b: &M| #[trigger] call_requires(tensors.stack, (&ctx, a, b))
}

/// Loads the gated feed-forward block with these names.
fn load_named_mlp<
    C,
    M,
    E,
    FM: Fn(&C, &str) -> Result<M, E>,
    FV,
    FH,
    FS: Fn(&C, &M, &M) -> Result<M, E>,
>(
    tensors: &Tensors<FM, FV, FH, FS>,
    ctx: &C,
    names: &DenseMlpNames,
    Ghost(prefix): Ghost<Seq<char>>,
) -> (result: Result<DenseMlp<M>, E>)
    requires
        takes_matrices(*tensors, *ctx),
        names.under(prefix),
    ensures
        dense_outcome(*tensors, *ctx, prefix, result),
{
    let gate: Result<M, E> = (tensors.matrix)(ctx, names.gate_proj.as_str());
    assert(reads(tensors.matrix, *ctx, prefix + ".gate_proj.weight"@, gate));
    let gate: M = match gate {
        Ok(gate) => gate,
        Err(error) => {
            return Err(error);
        },
    };
    let up: Result<M, E> = (tensors.matrix)(ctx, names.up_proj.as_str());
    assert(reads(tensors.matrix, *ctx, prefix + ".up_proj.weight"@, up));
    let up: M = match up {
        Ok(up) => up,
        Err(error) => {
            return Err(error);
        },
    };
    let stacked: Result<M, E> = (tensors.stack)(ctx, &gate, &up);
    let gate_up_proj: M = match stacked {
        Ok(stacked) => stacked,
        Err(error) => {
            return Err(error);
        },
    };
    let down: Result<M, E> = (tensors.matrix)(ctx, names.down_proj.as_str());
    assert(reads(tensors.matrix, *ctx, prefix + ".down_proj.weight"@, down));
    match down {
        Ok(down_proj) => Ok(DenseMlp { gate_up_proj, down_proj }),
        Err(error) => Err(error),
    }
}

/// Loads the gated feed-forward block under `prefix`.
pub fn load_dense_mlp<
    C,
    M,
    E,
    FM: Fn(&C, &str) -> Result<M, E>,
    FV,
    FH,
    FS: Fn(&C, &M, &M) -> Result<M, E>,
>(tensors: &Tensors<FM, FV, FH, FS>, ctx: &C, prefix: &str) -> (result: Result<DenseMlp<M>, E>)
    requires
        takes_matrices(*tensors, *ctx),
    ensures
        dense_outcome(*tensors, *ctx, prefix@, result),
{
    let names: DenseMlpNames = dense_mlp_names(prefix);
    load_named_mlp(tensors, ctx, &names, Ghost(prefix@))
}

/// `experts` are the first of the experts that the rank owns, in the order of
/// their local numbers, each with the weights that loading it can give.
pub open spec fn experts_read<
    C,
    M,
    E,
    FM: Fn(&C, &str) -> Result<M, E>,
    FV,
    FH,
    FS: Fn(&C, &M, &M) -> Result<M, E>,
>(
    tensors: Tensors<FM, FV, FH, FS>,
    ctx: C,
    layout: &ExpertParallelLayout,
    prefix: Seq<char>,
    experts: Seq<ExpertMlp<M>>,
) -> bool {
    &&& experts.len() <= layout.owned().len()
    &&& forall|i: int|
        0 <= i < experts.len() ==> {
            &&& (#[trigger] experts[i]).global_expert == layout.owned()[i]
            &&& dense_outcome(
                tensors,
                ctx,
                expert_prefix(prefix, layout.owned()[i] as nat),
                Ok::<DenseMlp<M>, E>(experts[i].dense),
            )
        }
}

/// What loading the experts that the rank owns in the mixture under `prefix`
/// can give: all of them, if they are its even share; else the failure of the
/// first that cannot be loaded, or a refusal once all are there.
pub open spec fn experts_outcome<
    C,
    M,
    E,
    FM: Fn(&C, &str) -> Result<M, E>,
    FV,
    FH,
    FS: Fn(&C, &M, &M) -> Result<M, E>,
>(
    tensors: Tensors<FM, FV, FH, FS>,
    ctx: C,
    config: &Config,
    layout: &ExpertParallelLayout,
    prefix: Seq<char>,
    result: Result<Vec<ExpertMlp<M>>, RankError<E>>,
) -> bool {
    match result {
        Ok(experts) => {
            &&& experts_read(tensors, ctx, layout, prefix, experts@)
            &&& experts@.len() == layout.owned().len()
            &&& share_loaded(config, layout, experts@.len() as usize) is Ok
        },
        Err(RankError::Tensor(error)) => exists|done: Seq<ExpertMlp<M>>|
            {
                &&& #[trigger] experts_read(tensors, ctx, layout, prefix, done)
                &&& done.len() < layout.owned().len()
                &&& dense_outcome(
                    tensors,
                    ctx,
                    expert_prefix(prefix, layout.owned()[done.len() as int] as nat),
                    Err::<DenseMlp<M>, E>(error),
                )
            },
        Err(RankError::Model(error)) => exists|done: Seq<ExpertMlp<M>>|
            {
                &&& #[trigger] experts_read(tensors, ctx, layout, prefix, done)
                &&& done.len() == layout.owned().len()
                &&& share_loaded(config, layout, done.len() as usize) == Err::<(), ModelError>(
                    error,
                )
            },
    }
}

/// Loads the named experts, which are those that the rank owns.
fn load_named_experts<
    C,
    M,
    E,
    FM: Fn(&C, &str) -> Result<M, E>,
    FV,
    FH,
    FS: Fn(&C, &M, &M) -> Result<M, E>,
>(
    tensors: &Tensors<FM, FV, FH, FS>,
    ctx: &C,
    config: &Config,
    layout: &ExpertParallelLayout,
    names: &Vec<ExpertNames>,
    Ghost(prefix): Ghost<Seq<char>>,
) -> (result: Result<Vec<ExpertMlp<M>>, RankError<E>>)
    requires
        takes_matrices(*tensors, *ctx),
        layout.ep_size > 0,
        owned_named(layout, prefix, names@),
    ensures
        experts_outcome(*tensors, *ctx, config, layout, prefix, result),
        result matches Ok(experts) ==> loaded_as_named(names@, experts@),
{
    let n: usize = names.len();
    let mut experts: Vec<ExpertMlp<M>> = Vec::new();
    while experts.len() < n
        invariant
            n == names@.len(),
            takes_matrices(*tensors, *ctx),
            owned_named(layout, prefix, names@),
            experts@.len() <= n,
            experts_read(*tensors, *ctx, layout, prefix, experts@),
        decreases n - experts@.len(),
    {
        let i: usize = experts.len();
        let ghost under = expert_prefix(prefix, layout.owned()[i as int] as nat);
        assert(names@[i as int].dense.under(under));
        match load_named_mlp(tensors, ctx, &names[i].dense, Ghost(under)) {
            Ok(dense) => {
                experts.push(ExpertMlp { global_expert: names[i].global_expert, dense });
            },
            Err(error) => {
                return Err(RankError::Tensor(error));
            },
        }
    }
    match check_owned_experts(config, layout, experts.len()) {
        Ok(()) => Ok(experts),
        Err(error) => Err(RankError::Model(error)),
    }
}

/// Loads the experts that the rank owns in the mixture under `prefix`.
pub fn load_owned_experts<
    C,
    M,
    E,
    FM: Fn(&C, &str) -> Result<M, E>,
    FV,
    FH,
    FS: Fn(&C, &M, &M) -> Result<M, E>,
>(
    tensors: &Tensors<FM, FV, FH, FS>,
    ctx: &C,
    config: &Config,
    layout: &ExpertParallelLayout,
    prefix: &str,
) -> (result: Result<Vec<ExpertMlp<M>>, RankError<E>>)
    requires
        takes_matrices(*tensors, *ctx),
        layout.ep_size > 0,
    ensures
        experts_outcome(*tensors, *ctx, config, layout, prefix@, result),
        result matches Ok(experts) ==> in_place(layout, experts@),
{
    let names: Vec<ExpertNames> = owned_expert_names(layout, prefix);
    load_named_experts(tensors, ctx, config, layout, &names, Ghost(prefix@))
}

/// What loading the mixture of experts under `prefix` can give: the router,
/// then the shared experts, then those that the rank owns, or the first
/// failure among them.
pub open spec fn moe_outcome<
    C,
    M,
    E,
    FM: Fn(&C, &str) -> Result<M, E>,
    FV,
    FH,
    FS: Fn(&C, &M, &M) -> Result<M, E>,
>(
    tensors: Tensors<FM, FV, FH, FS>,
    ctx: C,
    config: &Config,
    layout: &ExpertParallelLayout,
    prefix: Seq<char>,
    result: Result<MoeMlp<M>, RankError<E>>,
) -> bool {
    exists|gate: Result<M, E>|
        {
            &&& #[trigger] reads(tensors.matrix, ctx, prefix + ".gate.weight"@, gate)
            &&& match gate {
                Err(error) => fails_with(result, error),
                Ok(gate) => exists|shared: Result<DenseMlp<M>, E>|
                    {
                        &&& #[trigger] dense_outcome(
                            tensors,
                            ctx,
                            prefix + ".shared_experts"@,
                            shared,
                        )
                        &&& match shared {
                            Err(error) => fails_with(result, error),
                            Ok(shared) => exists|experts: Result<Vec<ExpertMlp<M>>, RankError<E>>|
                                {
                                    &&& #[trigger] experts_outcome(
                                        tensors,
                                        ctx,
                                        config,
                                        layout,
                                        prefix,
                                        experts,
                                    )
                                    &&& match experts {
                                        Err(error) => gives_up(result, error),
                                        Ok(experts) => result == Ok::<MoeMlp<M>, RankError<E>>(
                                            MoeMlp { gate, shared, experts },
                                        ),
                                    }
                                },
                        }
                    },
            }
        }
}

/// Loads the mixture of experts with these names.
fn load_named_moe<
    C,
    M,
    E,
    FM: Fn(&C, &str) -> Result<M, E>,
    FV,
    FH,
    FS: Fn(&C, &M, &M) -> Result<M, E>,
>(
    tensors: &Tensors<FM, FV, FH, FS>,
    ctx: &C,
    config: &Config,
    layout: &ExpertParallelLayout,
    names: &MoeNames,
    Ghost(prefix): Ghost<Seq<char>>,
) -> (result: Result<MoeMlp<M>, RankError<E>>)
    requires
        takes_matrices(*tensors, *ctx),
        layout.ep_size > 0,
        names.under(layout, prefix),
    ensures
        moe_outcome(*tensors, *ctx, config, layout, prefix, result),
        result matches Ok(moe) ==> in_place(layout, moe.experts@),
{
    let gate: Result<M, E> = (tensors.matrix)(ctx, names.gate.as_str());
    assert(reads(tensors.matrix, *ctx, prefix + ".gate.weight"@, gate));
    let gate: M = match gate {
        Ok(gate) => gate,
        Err(error) => {
            return Err(RankError::Tensor(error));
        },
    };
    let shared: Result<DenseMlp<M>, E> = load_named_mlp(
        tensors,
        ctx,
        &names.shared,
        Ghost(prefix + ".shared_experts"@),
    );
    let shared: DenseMlp<M> = match shared {
        Ok(shared) => shared,
        Err(error) => {
            return Err(RankError::Tensor(error));
        },
    };
    let experts: Result<Vec<ExpertMlp<M>>, RankError<E>> = load_named_experts(
        tensors,
        ctx,
        config,
        layout,
        &names.experts,
        Ghost(prefix),
    );
    match experts {
        Ok(experts) => Ok(MoeMlp { gate, shared, experts }),
        Err(error) => Err(error),
    }
}

/// Loads the mixture of experts under `prefix`.
pub fn load_moe_mlp<
    C,
    M,
    E,
    FM: Fn(&C, &str) -> Result<M, E>,
    FV,
    FH,
    FS: Fn(&C, &M, &M) -> Result<M, E>,
>(
    tensors: &Tensors<FM, FV, FH, FS>,
    ctx: &C,
    config: &Config,
    layout: &ExpertParallelLayout,
    prefix: &str,
) -> (result: Result<MoeMlp<M>, RankError<E>>)
    requires
        takes_matrices(*tensors, *ctx),
        layout.ep_size > 0,
    ensures
        moe_outcome(*tensors, *ctx, config, layout, prefix@, result),
        result matches Ok(moe) ==> in_place(layout, moe.experts@),
{
    let names: MoeNames = moe_mlp_names(layout, prefix);
    load_named_moe(tensors, ctx, config, layout, &names, Ghost(prefix@))
}

/// The operations take every name, every matrix and every vector.
pub open spec fn takes_tensors<
    C,
    M,
    V,
    H,
    E,
    FM: Fn(&C, &str) -> Result<M, E>,
    FV: Fn(&C, &str) -> Result<V, E>,
    FH: Fn(&C, &V) -> Result<Vec<H>, E>,
    FS: Fn(&C, &M, &M) -> Result<M, E>,
>(tensors: Tensors<FM, FV, FH, FS>, ctx: C) -> bool {
    &&& takes_matrices(tensors, ctx)
    &&& forall|s: &str| #[trigger] call_requires(tensors.vector, (&ctx, s))
    &&& forall|v: &V| #[trigger] call_requires(tensors.to_host, (&ctx, v))
}

/// What loading the projections of the attention part under `prefix` can give.
pub open spec fn projections_outcome<
    C,
    M,
    V,
    H,
    E,
    FM: Fn(&C, &str) -> Result<M, E>,
    FV: Fn(&C, &str) -> Result<V, E>,
    FH: Fn(&C, &V) -> Result<Vec<H>, E>,
    FS: Fn(&C, &M, &M) -> Result<M, E>,
>(
    tensors: Tensors<FM, FV, FH, FS>,
    ctx: C,
    prefix: Seq<char>,
    kv_a_norm_host: Vec<H>,
    result: Result<AttentionWeights<M, H>, E>,
) -> bool {
    exists|q_proj: Result<M, E>|
        {
            &&& #[trigger] reads(tensors.matrix, ctx, prefix + ".q_proj.weight"@, q_proj)
            &&& match q_proj {
                Err(error) => gives_up(result, error),
                Ok(q_proj) => exists|kv_a_proj: Result<M, E>|
                    {
                        &&& #[trigger] reads(
                            tensors.matrix,
                            ctx,
                            prefix + ".kv_a_proj_with_mqa.weight"@,
                            kv_a_proj,
                        )
                        &&& match kv_a_proj {
                            Err(error) => gives_up(result, error),
                            Ok(kv_a_proj) => attention_finished(
                                tensors,
                                ctx,
                                prefix,
                                q_proj,
                                kv_a_proj,
                                kv_a_norm_host,
                                result,
                            ),
                        }
                    },
            }
        }
}

/// What can come of the attention part's normalisation and first projections.
pub open spec fn attention_finished<
    C,
    M,
    V,
    H,
    E,
    FM: Fn(&C, &str) -> Result<M, E>,
    FV: Fn(&C, &str) -> Result<V, E>,
    FH: Fn(&C, &V) -> Result<Vec<H>, E>,
    FS: Fn(&C, &M, &M) -> Result<M, E>,
>(
    tensors: Tensors<FM, FV, FH, FS>,
    ctx: C,
    prefix: Seq<char>,
    q_proj: M,
    kv_a_proj: M,
    kv_a_norm_host: Vec<H>,
    result: Result<AttentionWeights<M, H>, E>,
) -> bool {
    exists|kv_b_proj: Result<M, E>|
        {
            &&& #[trigger] reads(tensors.matrix, ctx, prefix + ".kv_b_proj.weight"@, kv_b_proj)
            &&& match kv_b_proj {
                Err(error) => gives_up(result, error),
                Ok(kv_b_proj) => exists|o_proj: Result<M, E>|
                    {
                        &&& #[trigger] reads(
                            tensors.matrix,
                            ctx,
                            prefix + ".o_proj.weight"@,
                            o_proj,
                        )
                        &&& match o_proj {
                            Err(error) => gives_up(result, error),
                            Ok(o_proj) => result == Ok::<AttentionWeights<M, H>, E>(
                                AttentionWeights {
                                    q_proj,
                                    kv_a_proj,
                                    kv_a_norm_host,
                                    kv_b_proj,
                                    o_proj,
                                },
                            ),
                        }
                    },
            }
        }
}

/// What loading the attention part under `prefix` can give: the normalisation
/// weights, which go to the host, then the projections, or the first failure
/// among them.
pub open spec fn attention_outcome<
    C,
    M,
    V,
    H,
    E,
    FM: Fn(&C, &str) -> Result<M, E>,
    FV: Fn(&C, &str) -> Result<V, E>,
    FH: Fn(&C, &V) -> Result<Vec<H>, E>,
    FS: Fn(&C, &M, &M) -> Result<M, E>,
>(
    tensors: Tensors<FM, FV, FH, FS>,
    ctx: C,
    prefix: Seq<char>,
    result: Result<AttentionWeights<M, H>, E>,
) -> bool {
    exists|norm: Result<V, E>|
        {
            &&& #[trigger] reads(tensors.vector, ctx, prefix + ".kv_a_layernorm.weight"@, norm)
            &&& match norm {
                Err(error) => gives_up(result, error),
                Ok(norm) => exists|host: Result<Vec<H>, E>|
                    {
                        &&& #[trigger] call_ensures(tensors.to_host, (&ctx, &norm), host)
                        &&& match host {
                            Err(error) => gives_up(result, error),
                            Ok(host) => projections_outcome(
                                tensors,
                                ctx,
                                prefix,
                                host,
                                result,
                            ),
                        }
                    },
            }
        }
}

/// Loads the attention part of a layer.
fn load_attention<
    C,
    M,
    V,
    H,
    E,
    FM: Fn(&C, &str) -> Result<M, E>,
    FV: Fn(&C, &str) -> Result<V, E>,
    FH: Fn(&C, &V) -> Result<Vec<H>, E>,
    FS: Fn(&C, &M, &M) -> Result<M, E>,
>(
    tensors: &Tensors<FM, FV, FH, FS>,
    ctx: &C,
    names: &AttentionNames,
    Ghost(layer): Ghost<nat>,
) -> (result: Result<AttentionWeights<M, H>, E>)
    requires
        takes_tensors(*tensors, *ctx),
        names.of_layer(layer),
    ensures
        attention_outcome(*tensors, *ctx, layer_prefix(layer) + ".self_attn"@, result),
{
    let ghost prefix = layer_prefix(layer) + ".self_attn"@;
    let norm: Result<V, E> = (tensors.vector)(ctx, names.kv_a_norm.as_str());
    assert(reads(tensors.vector, *ctx, prefix + ".kv_a_layernorm.weight"@, norm));
    let norm: V = match norm {
        Ok(norm) => norm,
        Err(error) => {
            return Err(error);
        },
    };
    let host: Result<Vec<H>, E> = (tensors.to_host)(ctx, &norm);
    let kv_a_norm_host: Vec<H> = match host {
        Ok(host) => host,
        Err(error) => {
            return Err(error);
        },
    };
    let q_proj: Result<M, E> = (tensors.matrix)(ctx, names.q_proj.as_str());
    assert(reads(tensors.matrix, *ctx, prefix + ".q_proj.weight"@, q_proj));
    let q_proj: M = match q_proj {
        Ok(q_proj) => q_proj,
        Err(error) => {
            return Err(error);
        },
    };
    let kv_a_proj: Result<M, E> = (tensors.matrix)(ctx, names.kv_a_proj.as_str());
    assert(reads(tensors.matrix, *ctx, prefix + ".kv_a_proj_with_mqa.weight"@, kv_a_proj));
    let kv_a_proj: M = match kv_a_proj {
        Ok(kv_a_proj) => kv_a_proj,
        Err(error) => {
            return Err(error);
        },
    };
    let kv_b_proj: Result<M, E> = (tensors.matrix)(ctx, names.kv_b_proj.as_str());
    assert(reads(tensors.matrix, *ctx, prefix + ".kv_b_proj.weight"@, kv_b_proj));
    let kv_b_proj: M = match kv_b_proj {
        Ok(kv_b_proj) => kv_b_proj,
        Err(error) => {
            return Err(error);
        },
    };
    let o_proj: Result<M, E> = (tensors.matrix)(ctx, names.o_proj.as_str());
    assert(reads(tensors.matrix, *ctx, prefix + ".o_proj.weight"@, o_proj));
    let o_proj: M = match o_proj {
        Ok(o_proj) => o_proj,
        Err(error) => {
            return Err(error);
        },
    };
    Ok(AttentionWeights { q_proj, kv_a_proj, kv_a_norm_host, kv_b_proj, o_proj })
}

/// What can come of a layer whose normalisations and attention are there.
pub open spec fn layer_finished<
    C,
    M,
    V,
    H,
    E,
    FM: Fn(&C, &str) -> Result<M, E>,
    FV: Fn(&C, &str) -> Result<V, E>,
    FH: Fn(&C, &V) -> Result<Vec<H>, E>,
    FS: Fn(&C, &M, &M) -> Result<M, E>,
>(
    tensors: Tensors<FM, FV, FH, FS>,
    ctx: C,
    config: &Config,
    layout: &ExpertParallelLayout,
    layer: nat,
    input_layernorm: V,
    post_attention_layernorm: V,
    attention: AttentionWeights<M, H>,
    result: Result<LayerWeights<M, V, H>, RankError<E>>,
) -> bool {
    if config.moe_at(layer as int) {
        exists|moe: Result<MoeMlp<M>, RankError<E>>|
            {
                &&& #[trigger] moe_outcome(tensors, ctx, config, layout, mlp_prefix(layer), moe)
                &&& match moe {
                    Err(error) => gives_up(result, error),
                    Ok(moe) => result == Ok::<LayerWeights<M, V, H>, RankError<E>>(
                        LayerWeights {
                            input_layernorm,
                            post_attention_layernorm,
                            attention,
                            mlp: MlpWeights::Moe(moe),
                        },
                    ),
                }
            }
    } else {
        exists|dense: Result<DenseMlp<M>, E>|
            {
                &&& #[trigger] dense_outcome(tensors, ctx, mlp_prefix(layer), dense)
                &&& match dense {
                    Err(error) => fails_with(result, error),
                    Ok(dense) => result == Ok::<LayerWeights<M, V, H>, RankError<E>>(
                        LayerWeights {
                            input_layernorm,
                            post_attention_layernorm,
                            attention,
                            mlp: MlpWeights::Dense(dense),
                        },
                    ),
                }
            }
    }
}

/// What loading layer `layer` of the driver rank can give: its normalisations,
/// its attention and its feed-forward part, or the first failure among them.
pub open spec fn layer_outcome<
    C,
    M,
    V,
    H,
    E,
    FM: Fn(&C, &str) -> Result<M, E>,
    FV: Fn(&C, &str) -> Result<V, E>,
    FH: Fn(&C, &V) -> Result<Vec<H>, E>,
    FS: Fn(&C, &M, &M) -> Result<M, E>,
>(
    tensors: Tensors<FM, FV, FH, FS>,
    ctx: C,
    config: &Config,
    layout: &ExpertParallelLayout,
    layer: nat,
    result: Result<LayerWeights<M, V, H>, RankError<E>>,
) -> bool {
    exists|input_layernorm: Result<V, E>|
        {
            &&& #[trigger] reads(
                tensors.vector,
                ctx,
                layer_prefix(layer) + ".input_layernorm.weight"@,
                input_layernorm,
            )
            &&& match input_layernorm {
                Err(error) => fails_with(result, error),
                Ok(input_layernorm) => exists|post_attention_layernorm: Result<V, E>|
                    {
                        &&& #[trigger] reads(
                            tensors.vector,
                            ctx,
                            layer_prefix(layer) + ".post_attention_layernorm.weight"@,
                            post_attention_layernorm,
                        )
                        &&& match post_attention_layernorm {
                            Err(error) => fails_with(result, error),
                            Ok(post_attention_layernorm) => exists|attention: Result<AttentionWeights<M, H>, E>|
                                {
                                    &&& #[trigger] attention_outcome(
                                        tensors,
                                        ctx,
                                        layer_prefix(layer) + ".self_attn"@,
                                        attention,
                                    )
                                    &&& match attention {
                                        Err(error) => fails_with(result, error),
                                        Ok(attention) => layer_finished(
                                            tensors,
                                            ctx,
                                            config,
                                            layout,
                                            layer,
                                            input_layernorm,
                                            post_attention_layernorm,
                                            attention,
                                            result,
                                        ),
                                    }
                                },
                        }
                    },
            }
        }
}

/// The two normalisations of a layer are what reading each under its own name
/// can give, whatever kind of layer it is.
pub open spec fn norms_named<C, M, V, H, E, FM, FV: Fn(&C, &str) -> Result<V, E>, FH, FS>(
    tensors: Tensors<FM, FV, FH, FS>,
    ctx: C,
    layer: nat,
    weights: LayerWeights<M, V, H>,
) -> bool {
    &&& reads(
        tensors.vector,
        ctx,
        "model.layers."@ + decimal(layer) + ".input_layernorm.weight"@,
        Ok::<V, E>(weights.input_layernorm),
    )
    &&& reads(
        tensors.vector,
        ctx,
        "model.layers."@ + decimal(layer) + ".post_attention_layernorm.weight"@,
        Ok::<V, E>(weights.post_attention_layernorm),
    )
}

/// Loads one layer of the driver rank.
pub fn load_layer<
    C,
    M,
    V,
    H,
    E,
    FM: Fn(&C, &str) -> Result<M, E>,
    FV: Fn(&C, &str) -> Result<V, E>,
    FH: Fn(&C, &V) -> Result<Vec<H>, E>,
    FS: Fn(&C, &M, &M) -> Result<M, E>,
>(
    tensors: &Tensors<FM, FV, FH, FS>,
    ctx: &C,
    config: &Config,
    layout: &ExpertParallelLayout,
    layer_idx: usize,
) -> (result: Result<LayerWeights<M, V, H>, RankError<E>>)
    requires
        takes_tensors(*tensors, *ctx),
        layout.ep_size > 0,
    ensures
        layer_outcome(*tensors, *ctx, config, layout, layer_idx as nat, result),
        result matches Ok(weights) ==> layer_in_place(config, layout, layer_idx as int, weights),
        result matches Ok(weights) ==> norms_named(*tensors, *ctx, layer_idx as nat, weights),
{
    let names: LayerNames = layer_names(config, layout, layer_idx);
    let ghost layer = layer_idx as nat;
    let input_layernorm: Result<V, E> = (tensors.vector)(ctx, names.input_layernorm.as_str());
    assert(reads(
        tensors.vector,
        *ctx,
        layer_prefix(layer) + ".input_layernorm.weight"@,
        input_layernorm,
    ));
    let input_layernorm: V = match input_layernorm {
        Ok(input_layernorm) => input_layernorm,
        Err(error) => {
            return Err(RankError::Tensor(error));
        },
    };
    let post_attention_layernorm: Result<V, E> = (tensors.vector)(
        ctx,
        names.post_attention_layernorm.as_str(),
    );
    assert(reads(
        tensors.vector,
        *ctx,
        layer_prefix(layer) + ".post_attention_layernorm.weight"@,
        post_attention_layernorm,
    ));
    let post_attention_layernorm: V = match post_attention_layernorm {
        Ok(post_attention_layernorm) => post_attention_layernorm,
        Err(error) => {
            return Err(RankError::Tensor(error));
        },
    };
    let attention: Result<AttentionWeights<M, H>, E> = load_attention(
        tensors,
        ctx,
        &names.attention,
        Ghost(layer),
    );
    let attention: AttentionWeights<M, H> = match attention {
        Ok(attention) => attention,
        Err(error) => {
            return Err(RankError::Tensor(error));
        },
    };
    let mlp: MlpWeights<M> = match &names.mlp {
        MlpNames::Moe(names) => {
            let moe: Result<MoeMlp<M>, RankError<E>> = load_named_moe(
                tensors,
                ctx,
                config,
                layout,
                names,
                Ghost(mlp_prefix(layer)),
            );
            match moe {
                Ok(moe) => MlpWeights::Moe(moe),
                Err(error) => {
                    return Err(error);
                },
            }
        },
        MlpNames::Dense(names) => {
            let dense: Result<DenseMlp<M>, E> = load_named_mlp(
                tensors,
                ctx,
                names,
                Ghost(mlp_prefix(layer)),
            );
            match dense {
                Ok(dense) => MlpWeights::Dense(dense),
                Err(error) => {
                    return Err(RankError::Tensor(error));
                },
            }
        },
    };
    Ok(LayerWeights { input_layernorm, post_attention_layernorm, attention, mlp })
}

/// `layers` are the first layers of the driver rank, each as loading it can
/// give it.
pub open spec fn layers_read<
    C,
    M,
    V,
    H,
    E,
    FM: Fn(&C, &str) -> Result<M, E>,
    FV: Fn(&C, &str) -> Result<V, E>,
    FH: Fn(&C, &V) -> Result<Vec<H>, E>,
    FS: Fn(&C, &M, &M) -> Result<M, E>,
>(
    tensors: Tensors<FM, FV, FH, FS>,
    ctx: C,
    config: &Config,
    layout: &ExpertParallelLayout,
    layers: Seq<LayerWeights<M, V, H>>,
) -> bool {
    &&& layers.len() <= config.num_hidden_layers
    &&& forall|i: int|
        0 <= i < layers.len() ==> layer_outcome(
            tensors,
            ctx,
            config,
            layout,
            i as nat,
            Ok::<LayerWeights<M, V, H>, RankError<E>>(#[trigger] layers[i]),
        )
}

/// What can come of the driver rank's tensors outside the layers: the rank
/// with all its layers, or the failure of the first that cannot be loaded.
pub open spec fn driver_finished<
    C,
    M,
    V,
    H,
    E,
    FM: Fn(&C, &str) -> Result<M, E>,
    FV: Fn(&C, &str) -> Result<V, E>,
    FH: Fn(&C, &V) -> Result<Vec<H>, E>,
    FS: Fn(&C, &M, &M) -> Result<M, E>,
>(
    tensors: Tensors<FM, FV, FH, FS>,
    ctx: C,
    config: &Config,
    layout: ExpertParallelLayout,
    embed_tokens: M,
    lm_head: M,
    norm: V,
    result: Result<DriverRankModel<C, M, V, H>, RankError<E>>,
) -> bool {
    match result {
        Ok(model) => {
            &&& layers_read(tensors, ctx, config, &layout, model.layers@)
            &&& model.layers@.len() == config.num_hidden_layers
            &&& model == (DriverRankModel {
                ctx,
                layout,
                embed_tokens,
                lm_head,
                norm,
                layers: model.layers,
            })
        },
        Err(error) => exists|done: Seq<LayerWeights<M, V, H>>|
            {
                &&& #[trigger] layers_read(tensors, ctx, config, &layout, done)
                &&& done.len() < config.num_hidden_layers
                &&& layer_outcome(
                    tensors,
                    ctx,
                    config,
                    &layout,
                    done.len(),
                    Err::<LayerWeights<M, V, H>, RankError<E>>(error),
                )
            },
    }
}

/// What loading the driver rank can give: the embedding, the output projection
/// unless it is tied to the embedding, the final normalisation and the layers,
/// or the first failure among them.
pub open spec fn driver_outcome<
    C,
    M,
    V,
    H,
    E,
    FM: Fn(&C, &str) -> Result<M, E>,
    FV: Fn(&C, &str) -> Result<V, E>,
    FH: Fn(&C, &V) -> Result<Vec<H>, E>,
    FS: Fn(&C, &M, &M) -> Result<M, E>,
>(
    tensors: Tensors<FM, FV, FH, FS>,
    ctx: C,
    config: &Config,
    layout: ExpertParallelLayout,
    result: Result<DriverRankModel<C, M, V, H>, RankError<E>>,
) -> bool {
    exists|embed_tokens: Result<M, E>|
        {
            &&& #[trigger] reads(tensors.matrix, ctx, "model.embed_tokens.weight"@, embed_tokens)
            &&& match embed_tokens {
                Err(error) => fails_with(result, error),
                Ok(embed_tokens) => if config.tie_word_embeddings {
                    result == Err::<DriverRankModel<C, M, V, H>, RankError<E>>(
                        RankError::Model(ModelError::TiedEmbeddings),
                    )
                } else {
                    driver_head(tensors, ctx, config, layout, embed_tokens, result)
                },
            }
        }
}

/// What can come of the driver rank's embedding.
pub open spec fn driver_head<
    C,
    M,
    V,
    H,
    E,
    FM: Fn(&C, &str) -> Result<M, E>,
    FV: Fn(&C, &str) -> Result<V, E>,
    FH: Fn(&C, &V) -> Result<Vec<H>, E>,
    FS: Fn(&C, &M, &M) -> Result<M, E>,
>(
    tensors: Tensors<FM, FV, FH, FS>,
    ctx: C,
    config: &Config,
    layout: ExpertParallelLayout,
    embed_tokens: M,
    result: Result<DriverRankModel<C, M, V, H>, RankError<E>>,
) -> bool {
    exists|lm_head: Result<M, E>|
        {
            &&& #[trigger] reads(tensors.matrix, ctx, "lm_head.weight"@, lm_head)
            &&& match lm_head {
                Err(error) => fails_with(result, error),
                Ok(lm_head) => exists|norm: Result<V, E>|
                    {
                        &&& #[trigger] reads(tensors.vector, ctx, "model.norm.weight"@, norm)
                        &&& match norm {
                            Err(error) => fails_with(result, error),
                            Ok(norm) => driver_finished(
                                tensors,
                                ctx,
                                config,
                                layout,
                                embed_tokens,
                                lm_head,
                                norm,
                                result,
                            ),
                        }
                    },
            }
        }
}

/// Loads the driver rank.
pub fn load_driver_rank<
    C,
    M,
    V,
    H,
    E,
    FM: Fn(&C, &str) -> Result<M, E>,
    FV: Fn(&C, &str) -> Result<V, E>,
    FH: Fn(&C, &V) -> Result<Vec<H>, E>,
    FS: Fn(&C, &M, &M) -> Result<M, E>,
>(
    tensors: &Tensors<FM, FV, FH, FS>,
    ctx: C,
    config: &Config,
    layout: ExpertParallelLayout,
) -> (result: Result<DriverRankModel<C, M, V, H>, RankError<E>>)
    requires
        takes_tensors(*tensors, ctx),
        layout.ep_size > 0,
    ensures
        driver_outcome(*tensors, ctx, config, layout, result),
        result matches Ok(model) ==> layout.rank == 0 ==> model.loaded(config),
        result matches Ok(model) ==> forall|i: int|
            0 <= i < model.layers@.len() ==> norms_named(
                *tensors,
                ctx,
                i as nat,
                #[trigger] model.layers@[i],
            ),
{
    let embed_tokens: Result<M, E> = (tensors.matrix)(&ctx, "model.embed_tokens.weight");
    assert(reads(tensors.matrix, ctx, "model.embed_tokens.weight"@, embed_tokens));
    let embed_tokens: M = match embed_tokens {
        Ok(embed_tokens) => embed_tokens,
        Err(error) => {
            return Err(RankError::Tensor(error));
        },
    };
    match check_untied(config) {
        Ok(()) => {},
        Err(error) => {
            return Err(RankError::Model(error));
        },
    }
    let lm_head: Result<M, E> = (tensors.matrix)(&ctx, "lm_head.weight");
    assert(reads(tensors.matrix, ctx, "lm_head.weight"@, lm_head));
    let lm_head: M = match lm_head {
        Ok(lm_head) => lm_head,
        Err(error) => {
            return Err(RankError::Tensor(error));
        },
    };
    let norm: Result<V, E> = (tensors.vector)(&ctx, "model.norm.weight");
    assert(reads(tensors.vector, ctx, "model.norm.weight"@, norm));
    let norm: V = match norm {
        Ok(norm) => norm,
        Err(error) => {
            return Err(RankError::Tensor(error));
        },
    };
    let n: usize = config.num_hidden_layers;
    let mut layers: Vec<LayerWeights<M, V, H>> = Vec::new();
    while layers.len() < n
        invariant
            n == config.num_hidden_layers,
            takes_tensors(*tensors, ctx),
            layout.ep_size > 0,
            layers@.len() <= n,
            layers_read(*tensors, ctx, config, &layout, layers@),
            forall|i: int|
                0 <= i < layers@.len() ==> layer_in_place(
                    config,
                    &layout,
                    i,
                    #[trigger] layers@[i],
                ),
            forall|i: int|
                0 <= i < layers@.len() ==> norms_named(
                    *tensors,
                    ctx,
                    i as nat,
                    #[trigger] layers@[i],
                ),
            !config.tie_word_embeddings,
            reads(
                tensors.matrix,
                ctx,
                "model.embed_tokens.weight"@,
                Ok::<M, E>(embed_tokens),
            ),
            reads(tensors.matrix, ctx, "lm_head.weight"@, Ok::<M, E>(lm_head)),
            reads(tensors.vector, ctx, "model.norm.weight"@, Ok::<V, E>(norm)),
        decreases n - layers@.len(),
    {
        match load_layer(tensors, &ctx, config, &layout, layers.len()) {
            Ok(layer) => {
                layers.push(layer);
            },
            Err(error) => {
                let failed: Result<DriverRankModel<C, M, V, H>, RankError<E>> = Err(error);
                proof {
                    assert(layers_read(*tensors, ctx, config, &layout, layers@));
                    assert(driver_finished(
                        *tensors,
                        ctx,
                        config,
                        layout,
                        embed_tokens,
                        lm_head,
                        norm,
                        failed,
                    ));
                    assert(driver_head(*tensors, ctx, config, layout, embed_tokens, failed));
                }
                return failed;
            },
        }
    }
    let ghost device = ctx;
    let model = DriverRankModel { ctx, layout, embed_tokens, lm_head, norm, layers };
    let result: Result<DriverRankModel<C, M, V, H>, RankError<E>> = Ok(model);
    proof {
        assert(driver_finished(
            *tensors,
            device,
            config,
            layout,
            embed_tokens,
            lm_head,
            norm,
            result,
        ));
        assert(driver_head(*tensors, device, config, layout, embed_tokens, result));
    }
    result
}

/// `layers` are the first layers of an expert rank: the experts that it owns
/// where the model has a mixture, and nothing elsewhere.
pub open spec fn expert_layers_read<
    C,
    M,
    E,
    FM: Fn(&C, &str) -> Result<M, E>,
    FV,
    FH,
    FS: Fn(&C, &M, &M) -> Result<M, E>,
>(
    tensors: Tensors<FM, FV, FH, FS>,
    ctx: C,
    config: &Config,
    layout: &ExpertParallelLayout,
    layers: Seq<Option<Vec<ExpertMlp<M>>>>,
) -> bool {
    &&& layers.len() <= config.num_hidden_layers
    &&& forall|i: int|
        0 <= i < layers.len() ==> match #[trigger] layers[i] {
            Some(experts) => config.moe_at(i) && experts_outcome(
                tensors,
                ctx,
                config,
                layout,
                mlp_prefix(i as nat),
                Ok::<Vec<ExpertMlp<M>>, RankError<E>>(experts),
            ),
            None => !config.moe_at(i),
        }
}

/// What loading an expert rank can give: the rank with all its layers, or the
/// failure of the first mixture that cannot be loaded.
pub open spec fn expert_rank_outcome<
    C,
    M,
    E,
    FM: Fn(&C, &str) -> Result<M, E>,
    FV,
    FH,
    FS: Fn(&C, &M, &M) -> Result<M, E>,
>(
    tensors: Tensors<FM, FV, FH, FS>,
    ctx: C,
    config: &Config,
    layout: ExpertParallelLayout,
    result: Result<ExpertRankModel<C, M>, RankError<E>>,
) -> bool {
    match result {
        Ok(model) => {
            &&& expert_layers_read(tensors, ctx, config, &layout, model.layers@)
            &&& model.layers@.len() == config.num_hidden_layers
            &&& model == (ExpertRankModel { ctx, layout, layers: model.layers })
        },
        Err(error) => exists|done: Seq<Option<Vec<ExpertMlp<M>>>>|
            {
                &&& #[trigger] expert_layers_read(tensors, ctx, config, &layout, done)
                &&& done.len() < config.num_hidden_layers
                &&& config.moe_at(done.len() as int)
                &&& experts_outcome(
                    tensors,
                    ctx,
                    config,
                    &layout,
                    mlp_prefix(done.len()),
                    Err::<Vec<ExpertMlp<M>>, RankError<E>>(error),
                )
            },
    }
}

/// Loads an expert rank.
pub fn load_expert_rank<
    C,
    M,
    E,
    FM: Fn(&C, &str) -> Result<M, E>,
    FV,
    FH,
    FS: Fn(&C, &M, &M) -> Result<M, E>,
>(
    tensors: &Tensors<FM, FV, FH, FS>,
    ctx: C,
    config: &Config,
    layout: ExpertParallelLayout,
) -> (result: Result<ExpertRankModel<C, M>, RankError<E>>)
    requires
        takes_matrices(*tensors, ctx),
        layout.ep_size > 0,
    ensures
        expert_rank_outcome(*tensors, ctx, config, layout, result),
        result matches Ok(model) ==> layout.rank == 1 ==> model.loaded(config),
{
    let n: usize = config.num_hidden_layers;
    let mut layers: Vec<Option<Vec<ExpertMlp<M>>>> = Vec::new();
    while layers.len() < n
        invariant
            n == config.num_hidden_layers,
            takes_matrices(*tensors, ctx),
            layout.ep_size > 0,
            layers@.len() <= n,
            expert_layers_read(*tensors, ctx, config, &layout, layers@),
            forall|i: int|
                0 <= i < layers@.len() ==> (#[trigger] layers@[i] matches Some(experts)
                    ==> in_place(&layout, experts@)),
        decreases n - layers@.len(),
    {
        let layer_idx: usize = layers.len();
        if config.is_moe_layer(layer_idx) {
            let prefix: String = layer_prefix_text(layer_idx);
            let mlp: String = name(prefix.as_str(), ".mlp");
            match load_owned_experts(tensors, &ctx, config, &layout, mlp.as_str()) {
                Ok(experts) => {
                    layers.push(Some(experts));
                },
                Err(error) => {
                    return Err(error);
                },
            }
        } else {
            layers.push(None);
        }
    }
    Ok(ExpertRankModel { ctx, layout, layers })
}

} // verus!
