//! The weights of each rank: which tensors it loads, and how a routed expert
//! is found among them.
//!
//! Tensors live on a device, so their types are parameters: `M` stands for a
//! matrix, `V` for a vector, `H` for an entry of a host copy and `C` for the
//! context of a device.
use vstd::prelude::*;

use crate::config::Config;
use crate::ep::ExpertParallelLayout;
#[allow(unused_imports)]
use crate::ep::{law_local_number_is_place, law_placement_of_an_expert};
use crate::error::ModelError;
use crate::text::push_decimal;
#[allow(unused_imports)]
use crate::text::{decimal, lemma_decimal_digits, lemma_decimal_injective};

verus! {

/// The weights of one gated feed-forward block.
pub struct DenseMlp<M> {
    /// The gating projection stacked on the up projection.
    pub gate_up_proj: M,
    /// The down projection.
    pub down_proj: M,
}

/// One routed expert.
pub struct ExpertMlp<M> {
    /// Its number among the experts of all ranks.
    pub global_expert: usize,
    /// Its weights.
    pub dense: DenseMlp<M>,
}

/// The weights of a mixture of experts, as far as one rank holds them.
pub struct MoeMlp<M> {
    /// The router.
    pub gate: M,
    /// The experts that every token visits.
    pub shared: DenseMlp<M>,
    /// The routed experts that the rank owns.
    pub experts: Vec<ExpertMlp<M>>,
}

/// The feed-forward part of a layer.
pub enum MlpWeights<M> {
    /// One block for every token.
    Dense(DenseMlp<M>),
    /// A mixture of experts.
    Moe(MoeMlp<M>),
}

/// The attention part of a layer.
pub struct AttentionWeights<M, H> {
    /// Query projection.
    pub q_proj: M,
    /// Projection to the compressed key-value state.
    pub kv_a_proj: M,
    /// Normalisation weights of the compressed state.
    pub kv_a_norm_host: Vec<H>,
    /// Expansion of the compressed state.
    pub kv_b_proj: M,
    /// Output projection.
    pub o_proj: M,
}

/// One layer of the driver rank.
pub struct LayerWeights<M, V, H> {
    /// Normalisation before attention.
    pub input_layernorm: V,
    /// Normalisation before the feed-forward part.
    pub post_attention_layernorm: V,
    /// Attention.
    pub attention: AttentionWeights<M, H>,
    /// Feed-forward part.
    pub mlp: MlpWeights<M>,
}

/// What the driver rank holds: everything but the experts of the other rank.
pub struct DriverRankModel<C, M, V, H> {
    /// Its device.
    pub ctx: C,
    /// The placement of the experts.
    pub layout: ExpertParallelLayout,
    /// Token embedding.
    pub embed_tokens: M,
    /// Output projection.
    pub lm_head: M,
    /// Final normalisation.
    pub norm: V,
    /// Its layers.
    pub layers: Vec<LayerWeights<M, V, H>>,
}

/// What an expert rank holds: the routed experts that it owns.
pub struct ExpertRankModel<C, M> {
    /// Its device.
    pub ctx: C,
    /// The placement of the experts.
    pub layout: ExpertParallelLayout,
    /// The owned experts of each layer that has routed experts.
    pub layers: Vec<Option<Vec<ExpertMlp<M>>>>,
}

/// The result of a look-up that hands out a reference, with the value in place
/// of the reference.
pub open spec fn found<T>(result: Result<&T, ModelError>) -> Result<T, ModelError> {
    match result {
        Ok(value) => Ok(*value),
        Err(error) => Err(error),
    }
}

/// The expert that a rank answers with for `global_expert`.
pub open spec fn routed<M>(
    layout: &ExpertParallelLayout,
    experts: Seq<ExpertMlp<M>>,
    global_expert: usize,
) -> Result<ExpertMlp<M>, ModelError> {
    match layout.local_of(global_expert) {
        Err(error) => Err(error),
        Ok(local_expert) => if local_expert >= experts.len() {
            Err(ModelError::ExpertMissing { rank: layout.rank, local_expert, global_expert })
        } else if experts[local_expert as int].global_expert != global_expert {
            Err(
                ModelError::ExpertMismatch {
                    rank: layout.rank,
                    local_expert,
                    expected: global_expert,
                    got: experts[local_expert as int].global_expert,
                },
            )
        } else {
            Ok(experts[local_expert as int])
        },
    }
}

/// Finds an owned expert by its global number.
pub fn routed_expert_from_slice<'a, M>(
    layout: &ExpertParallelLayout,
    experts: &'a [ExpertMlp<M>],
    global_expert: usize,
) -> (result: Result<&'a ExpertMlp<M>, ModelError>)
    ensures
        found(result) == routed(layout, experts@, global_expert),
{
    let local_expert: usize = match layout.local_expert(global_expert) {
        Ok(local) => local,
        Err(error) => {
            return Err(error);
        },
    };
    if local_expert >= experts.len() {
        return Err(ModelError::ExpertMissing { rank: layout.rank, local_expert, global_expert });
    }
    let expert: &'a ExpertMlp<M> = &experts[local_expert];
    if expert.global_expert != global_expert {
        return Err(
            ModelError::ExpertMismatch {
                rank: layout.rank,
                local_expert,
                expected: global_expert,
                got: expert.global_expert,
            },
        );
    }
    Ok(expert)
}

impl<C, M, V, H> DriverRankModel<C, M, V, H> {
    /// The expert that the driver rank answers with.
    pub open spec fn routed(&self, layer_idx: usize, global_expert: usize) -> Result<
        ExpertMlp<M>,
        ModelError,
    > {
        if layer_idx >= self.layers@.len() {
            Err(ModelError::LayerOutOfRange { layer_idx })
        } else {
            match self.layers@[layer_idx as int].mlp {
                MlpWeights::Dense(_) => Err(ModelError::NotMoeLayer { layer_idx }),
                MlpWeights::Moe(moe) => routed(&self.layout, moe.experts@, global_expert),
            }
        }
    }

    /// Finds a routed expert of a layer.
    pub fn routed_expert(&self, layer_idx: usize, global_expert: usize) -> (result: Result<
        &ExpertMlp<M>,
        ModelError,
    >)
        ensures
            found(result) == self.routed(layer_idx, global_expert),
    {
        if layer_idx >= self.layers.len() {
            return Err(ModelError::LayerOutOfRange { layer_idx });
        }
        match &self.layers[layer_idx].mlp {
            MlpWeights::Dense(_) => Err(ModelError::NotMoeLayer { layer_idx }),
            MlpWeights::Moe(moe) => routed_expert_from_slice(
                &self.layout,
                moe.experts.as_slice(),
                global_expert,
            ),
        }
    }
}

impl<C, M> ExpertRankModel<C, M> {
    /// The expert that the expert rank answers with.
    pub open spec fn routed(&self, layer_idx: usize, global_expert: usize) -> Result<
        ExpertMlp<M>,
        ModelError,
    > {
        if layer_idx >= self.layers@.len() {
            Err(ModelError::LayerOutOfRange { layer_idx })
        } else {
            match self.layers@[layer_idx as int] {
                None => Err(ModelError::NotMoeLayer { layer_idx }),
                Some(experts) => routed(&self.layout, experts@, global_expert),
            }
        }
    }

    /// Finds a routed expert of a layer.
    pub fn routed_expert(&self, layer_idx: usize, global_expert: usize) -> (result: Result<
        &ExpertMlp<M>,
        ModelError,
    >)
        ensures
            found(result) == self.routed(layer_idx, global_expert),
    {
        if layer_idx >= self.layers.len() {
            return Err(ModelError::LayerOutOfRange { layer_idx });
        }
        match &self.layers[layer_idx] {
            None => Err(ModelError::NotMoeLayer { layer_idx }),
            Some(experts) => routed_expert_from_slice(
                &self.layout,
                experts.as_slice(),
                global_expert,
            ),
        }
    }
}

/// The expert that serves a route, and whether it is on the other rank. The
/// driver rank's placement says which rank is asked.
pub open spec fn served<C, M, V, H>(
    rank0: &DriverRankModel<C, M, V, H>,
    rank1: &ExpertRankModel<C, M>,
    layer_idx: usize,
    global_expert: usize,
) -> Result<(ExpertMlp<M>, bool), ModelError> {
    match rank0.layout.owner_of(global_expert) {
        Err(error) => Err(error),
        Ok(owner) => if owner == 0 {
            match rank0.routed(layer_idx, global_expert) {
                Ok(expert) => Ok((expert, false)),
                Err(error) => Err(error),
            }
        } else if owner == 1 {
            match rank1.routed(layer_idx, global_expert) {
                Ok(expert) => Ok((expert, true)),
                Err(error) => Err(error),
            }
        } else {
            Err(ModelError::UnsupportedRank { global_expert, rank: owner })
        },
    }
}

/// Picks the expert that serves a route: on the driver rank where it owns the
/// expert (`false`), on the other rank where that one does (`true`).
pub fn select_expert<'a, C, M, V, H>(
    rank0: &'a DriverRankModel<C, M, V, H>,
    rank1: &'a ExpertRankModel<C, M>,
    layer_idx: usize,
    global_expert: usize,
) -> (result: Result<(&'a ExpertMlp<M>, bool), ModelError>)
    ensures
        match result {
            Ok((expert, remote)) => served(rank0, rank1, layer_idx, global_expert) == Ok::<
                (ExpertMlp<M>, bool),
                ModelError,
            >((*expert, remote)),
            Err(error) => served(rank0, rank1, layer_idx, global_expert) == Err::<
                (ExpertMlp<M>, bool),
                ModelError,
            >(error),
        },
{
    let owner: usize = match rank0.layout.owner_rank(global_expert) {
        Ok(owner) => owner,
        Err(error) => {
            return Err(error);
        },
    };
    if owner == 0 {
        match rank0.routed_expert(layer_idx, global_expert) {
            Ok(expert) => Ok((expert, false)),
            Err(error) => Err(error),
        }
    } else if owner == 1 {
        match rank1.routed_expert(layer_idx, global_expert) {
            Ok(expert) => Ok((expert, true)),
            Err(error) => Err(error),
        }
    } else {
        Err(ModelError::UnsupportedRank { global_expert, rank: owner })
    }
}

/// Refuses a model whose output projection is the embedding.
pub fn check_untied(config: &Config) -> (result: Result<(), ModelError>)
    ensures
        result == (if config.tie_word_embeddings {
            Err::<(), ModelError>(ModelError::TiedEmbeddings)
        } else {
            Ok::<(), ModelError>(())
        }),
{
    if config.tie_word_embeddings {
        return Err(ModelError::TiedEmbeddings);
    }
    Ok(())
}

/// Whether a rank that loaded `loaded` experts of a layer has its even share.
pub open spec fn share_loaded(
    config: &Config,
    layout: &ExpertParallelLayout,
    loaded: usize,
) -> Result<(), ModelError> {
    let expected = config.n_routed_experts / layout.ep_size;
    if loaded == expected {
        Ok(())
    } else {
        Err(ModelError::ExpertCount { rank: layout.rank, loaded, expected })
    }
}

/// Refuses a rank that did not load an even share of a layer's experts.
pub fn check_owned_experts(
    config: &Config,
    layout: &ExpertParallelLayout,
    loaded: usize,
) -> (result: Result<(), ModelError>)
    requires
        layout.ep_size > 0,
    ensures
        result == share_loaded(config, layout, loaded),
{
    let expected: usize = config.n_routed_experts / layout.ep_size;
    if loaded == expected {
        Ok(())
    } else {
        Err(ModelError::ExpertCount { rank: layout.rank, loaded, expected })
    }
}

/// The names of the tensors of one gated feed-forward block.
pub struct DenseMlpNames {
    /// Gating projection.
    pub gate_proj: String,
    /// Up projection.
    pub up_proj: String,
    /// Down projection.
    pub down_proj: String,
}

/// The names of the tensors of one routed expert.
pub struct ExpertNames {
    /// Its number among the experts of all ranks.
    pub global_expert: usize,
    /// Its tensors.
    pub dense: DenseMlpNames,
}

/// The names of the tensors of a mixture of experts that one rank loads.
pub struct MoeNames {
    /// The router.
    pub gate: String,
    /// The experts that every token visits.
    pub shared: DenseMlpNames,
    /// The routed experts that the rank owns.
    pub experts: Vec<ExpertNames>,
}

/// The names of the tensors of the feed-forward part of a layer.
pub enum MlpNames {
    /// One block for every token.
    Dense(DenseMlpNames),
    /// A mixture of experts.
    Moe(MoeNames),
}

/// The names of the tensors of the attention part of a layer.
pub struct AttentionNames {
    /// Normalisation of the compressed key-value state.
    pub kv_a_norm: String,
    /// Query projection.
    pub q_proj: String,
    /// Projection to the compressed key-value state.
    pub kv_a_proj: String,
    /// Expansion of the compressed state.
    pub kv_b_proj: String,
    /// Output projection.
    pub o_proj: String,
}

/// The names of the tensors of one layer of the driver rank.
pub struct LayerNames {
    /// Normalisation before attention.
    pub input_layernorm: String,
    /// Normalisation before the feed-forward part.
    pub post_attention_layernorm: String,
    /// Attention.
    pub attention: AttentionNames,
    /// Feed-forward part.
    pub mlp: MlpNames,
}

/// The names of the tensors that the driver rank loads.
pub struct DriverRankNames {
    /// Token embedding.
    pub embed_tokens: String,
    /// Output projection.
    pub lm_head: String,
    /// Final normalisation.
    pub norm: String,
    /// The layers.
    pub layers: Vec<LayerNames>,
}

/// The prefix of the names of layer `layer`.
pub open spec fn layer_prefix(layer: nat) -> Seq<char> {
    "model.layers."@ + decimal(layer)
}

/// The prefix of the names of the feed-forward part of layer `layer`.
pub open spec fn mlp_prefix(layer: nat) -> Seq<char> {
    layer_prefix(layer) + ".mlp"@
}

/// The prefix of the names of routed expert `global_expert` of a mixture.
pub open spec fn expert_prefix(prefix: Seq<char>, global_expert: nat) -> Seq<char> {
    prefix + ".experts."@ + decimal(global_expert)
}

impl DenseMlpNames {
    /// These are the names under `prefix`.
    pub open spec fn under(&self, prefix: Seq<char>) -> bool {
        &&& self.gate_proj@ == prefix + ".gate_proj.weight"@
        &&& self.up_proj@ == prefix + ".up_proj.weight"@
        &&& self.down_proj@ == prefix + ".down_proj.weight"@
    }
}

/// `names` names the experts that the rank owns, in the order of their local
/// numbers.
pub open spec fn owned_named(
    layout: &ExpertParallelLayout,
    prefix: Seq<char>,
    names: Seq<ExpertNames>,
) -> bool {
    &&& names.len() == layout.owned().len()
    &&& forall|i: int|
        0 <= i < names.len() ==> (#[trigger] names[i]).global_expert == layout.owned()[i]
            && names[i].dense.under(expert_prefix(prefix, layout.owned()[i] as nat))
}

impl MoeNames {
    /// These are the names under `prefix` that a rank loads.
    pub open spec fn under(&self, layout: &ExpertParallelLayout, prefix: Seq<char>) -> bool {
        &&& self.gate@ == prefix + ".gate.weight"@
        &&& self.shared.under(prefix + ".shared_experts"@)
        &&& owned_named(layout, prefix, self.experts@)
    }
}

impl AttentionNames {
    /// These are the names of layer `layer`.
    pub open spec fn of_layer(&self, layer: nat) -> bool {
        let prefix = layer_prefix(layer) + ".self_attn"@;
        &&& self.kv_a_norm@ == prefix + ".kv_a_layernorm.weight"@
        &&& self.q_proj@ == prefix + ".q_proj.weight"@
        &&& self.kv_a_proj@ == prefix + ".kv_a_proj_with_mqa.weight"@
        &&& self.kv_b_proj@ == prefix + ".kv_b_proj.weight"@
        &&& self.o_proj@ == prefix + ".o_proj.weight"@
    }
}

impl LayerNames {
    /// These are the names of layer `layer`.
    pub open spec fn of_layer(
        &self,
        config: &Config,
        layout: &ExpertParallelLayout,
        layer: nat,
    ) -> bool {
        &&& self.input_layernorm@ == layer_prefix(layer) + ".input_layernorm.weight"@
        &&& self.post_attention_layernorm@ == layer_prefix(layer)
            + ".post_attention_layernorm.weight"@
        &&& self.attention.of_layer(layer)
        &&& match self.mlp {
            MlpNames::Moe(moe) => config.moe_at(layer as int) && moe.under(
                layout,
                mlp_prefix(layer),
            ),
            MlpNames::Dense(dense) => !config.moe_at(layer as int) && dense.under(
                mlp_prefix(layer),
            ),
        }
    }
}

/// `prefix` followed by `suffix`.
pub(crate) fn name(prefix: &str, suffix: &str) -> (text: String)
    ensures
        text@ == prefix@ + suffix@,
{
    let mut text: String = prefix.to_owned();
    text.append(suffix);
    text
}

/// The prefix of the names of a layer.
pub(crate) fn layer_prefix_text(layer_idx: usize) -> (text: String)
    ensures
        text@ == layer_prefix(layer_idx as nat),
{
    let mut text: String = "model.layers.".to_owned();
    push_decimal(&mut text, layer_idx);
    text
}

/// The names of a gated feed-forward block under `prefix`.
pub fn dense_mlp_names(prefix: &str) -> (names: DenseMlpNames)
    ensures
        names.under(prefix@),
{
    DenseMlpNames {
        gate_proj: name(prefix, ".gate_proj.weight"),
        up_proj: name(prefix, ".up_proj.weight"),
        down_proj: name(prefix, ".down_proj.weight"),
    }
}

/// The names of the routed experts that a rank owns in the mixture under
/// `prefix`.
pub fn owned_expert_names(layout: &ExpertParallelLayout, prefix: &str) -> (names: Vec<ExpertNames>)
    ensures
        owned_named(layout, prefix@, names@),
{
    let owned: Vec<usize> = layout.owned_experts();
    let mut names: Vec<ExpertNames> = Vec::new();
    let mut i: usize = 0;
    while i < owned.len()
        invariant
            owned@ == layout.owned(),
            i <= owned@.len(),
            names@.len() == i,
            forall|j: int|
                0 <= j < i ==> (#[trigger] names@[j]).global_expert == owned@[j]
                    && names@[j].dense.under(expert_prefix(prefix@, owned@[j] as nat)),
        decreases owned@.len() - i,
    {
        let global_expert: usize = owned[i];
        let mut under: String = name(prefix, ".experts.");
        push_decimal(&mut under, global_expert);
        names.push(ExpertNames { global_expert, dense: dense_mlp_names(under.as_str()) });
        i += 1;
    }
    names
}

/// The names of the mixture of experts under `prefix`.
pub fn moe_mlp_names(layout: &ExpertParallelLayout, prefix: &str) -> (names: MoeNames)
    ensures
        names.under(layout, prefix@),
{
    let shared: String = name(prefix, ".shared_experts");
    MoeNames {
        gate: name(prefix, ".gate.weight"),
        shared: dense_mlp_names(shared.as_str()),
        experts: owned_expert_names(layout, prefix),
    }
}

/// The names of one layer of the driver rank.
pub(crate) fn layer_names(
    config: &Config,
    layout: &ExpertParallelLayout,
    layer_idx: usize,
) -> (names: LayerNames)
    ensures
        names.of_layer(config, layout, layer_idx as nat),
{
    let prefix: String = layer_prefix_text(layer_idx);
    let attn: String = name(prefix.as_str(), ".self_attn");
    let mlp: String = name(prefix.as_str(), ".mlp");
    let attention = AttentionNames {
        kv_a_norm: name(attn.as_str(), ".kv_a_layernorm.weight"),
        q_proj: name(attn.as_str(), ".q_proj.weight"),
        kv_a_proj: name(attn.as_str(), ".kv_a_proj_with_mqa.weight"),
        kv_b_proj: name(attn.as_str(), ".kv_b_proj.weight"),
        o_proj: name(attn.as_str(), ".o_proj.weight"),
    };
    LayerNames {
        input_layernorm: name(prefix.as_str(), ".input_layernorm.weight"),
        post_attention_layernorm: name(prefix.as_str(), ".post_attention_layernorm.weight"),
        attention,
        mlp: if config.is_moe_layer(layer_idx) {
            MlpNames::Moe(moe_mlp_names(layout, mlp.as_str()))
        } else {
            MlpNames::Dense(dense_mlp_names(mlp.as_str()))
        },
    }
}

/// The names of all tensors that the driver rank loads, in the order in which
/// it loads them.
pub fn driver_rank_names(config: &Config, layout: &ExpertParallelLayout) -> (names: DriverRankNames)
    ensures
        names.embed_tokens@ == "model.embed_tokens.weight"@,
        names.lm_head@ == "lm_head.weight"@,
        names.norm@ == "model.norm.weight"@,
        names.layers@.len() == config.num_hidden_layers,
        forall|i: int|
            0 <= i < names.layers@.len() ==> (#[trigger] names.layers@[i]).of_layer(
                config,
                layout,
                i as nat,
            ),
{
    let mut layers: Vec<LayerNames> = Vec::new();
    let mut layer_idx: usize = 0;
    while layer_idx < config.num_hidden_layers
        invariant
            layer_idx <= config.num_hidden_layers,
            layers@.len() == layer_idx,
            forall|i: int|
                0 <= i < layer_idx ==> (#[trigger] layers@[i]).of_layer(config, layout, i as nat),
        decreases config.num_hidden_layers - layer_idx,
    {
        layers.push(layer_names(config, layout, layer_idx));
        layer_idx += 1;
    }
    DriverRankNames {
        embed_tokens: "model.embed_tokens.weight".to_owned(),
        lm_head: "lm_head.weight".to_owned(),
        norm: "model.norm.weight".to_owned(),
        layers,
    }
}

/// The names of all tensors that an expert rank loads: for each layer with
/// routed experts, those of the experts that the rank owns.
pub fn expert_rank_names(config: &Config, layout: &ExpertParallelLayout) -> (layers: Vec<
    Option<Vec<ExpertNames>>,
>)
    ensures
        layers@.len() == config.num_hidden_layers,
        forall|i: int|
            0 <= i < layers@.len() ==> match #[trigger] layers@[i] {
                Some(names) => config.moe_at(i) && owned_named(
                    layout,
                    mlp_prefix(i as nat),
                    names@,
                ),
                None => !config.moe_at(i),
            },
{
    let mut layers: Vec<Option<Vec<ExpertNames>>> = Vec::new();
    let mut layer_idx: usize = 0;
    while layer_idx < config.num_hidden_layers
        invariant
            layer_idx <= config.num_hidden_layers,
            layers@.len() == layer_idx,
            forall|i: int|
                0 <= i < layer_idx ==> match #[trigger] layers@[i] {
                    Some(names) => config.moe_at(i) && owned_named(
                        layout,
                        mlp_prefix(i as nat),
                        names@,
                    ),
                    None => !config.moe_at(i),
                },
        decreases config.num_hidden_layers - layer_idx,
    {
        if config.is_moe_layer(layer_idx) {
            let prefix: String = layer_prefix_text(layer_idx);
            let mlp: String = name(prefix.as_str(), ".mlp");
            layers.push(Some(owned_expert_names(layout, mlp.as_str())));
        } else {
            layers.push(None);
        }
        layer_idx += 1;
    }
    layers
}

/// `experts` holds, in order, the experts that the names of a rank list.
pub open spec fn loaded_as_named<M>(names: Seq<ExpertNames>, experts: Seq<ExpertMlp<M>>) -> bool {
    &&& experts.len() == names.len()
    &&& forall|i: int|
        0 <= i < names.len() ==> (#[trigger] experts[i]).global_expert == names[i].global_expert
}

/// `experts` holds the experts that the rank owns, in the order of their local
/// numbers.
pub open spec fn in_place<M>(layout: &ExpertParallelLayout, experts: Seq<ExpertMlp<M>>) -> bool {
    &&& experts.len() == layout.owned().len()
    &&& forall|i: int|
        0 <= i < experts.len() ==> (#[trigger] experts[i]).global_expert == layout.owned()[i]
}

/// A layer has a mixture with its experts in place exactly where the model has
/// a mixture.
pub open spec fn layer_in_place<M, V, H>(
    config: &Config,
    layout: &ExpertParallelLayout,
    layer: int,
    weights: LayerWeights<M, V, H>,
) -> bool {
    match weights.mlp {
        MlpWeights::Moe(moe) => config.moe_at(layer) && in_place(layout, moe.experts@),
        MlpWeights::Dense(_) => !config.moe_at(layer),
    }
}

/// A rank that loads what its names list has its experts in place.
pub proof fn law_named_experts_are_in_place<M>(
    layout: &ExpertParallelLayout,
    prefix: Seq<char>,
    names: Seq<ExpertNames>,
    experts: Seq<ExpertMlp<M>>,
)
    requires
        owned_named(layout, prefix, names),
        loaded_as_named(names, experts),
    ensures
        in_place(layout, experts),
{
}

/// A rank with its experts in place finds each expert that it owns, and refuses
/// every other.
pub proof fn law_owned_experts_are_found<M>(
    layout: &ExpertParallelLayout,
    experts: Seq<ExpertMlp<M>>,
    global_expert: usize,
)
    requires
        in_place(layout, experts),
    ensures
        routed(layout, experts, global_expert) is Ok <==> layout.owner_of(global_expert) == Ok::<
            usize,
            ModelError,
        >(layout.rank),
        routed(layout, experts, global_expert) is Ok ==> routed(
            layout,
            experts,
            global_expert,
        )->Ok_0.global_expert == global_expert,
{
    if layout.owner_of(global_expert) == Ok::<usize, ModelError>(layout.rank) {
        law_local_number_is_place(layout, global_expert);
        let local = layout.local_of(global_expert)->Ok_0 as int;
        assert(experts[local].global_expert == layout.owned()[local]);
    }
}

impl<C, M, V, H> DriverRankModel<C, M, V, H> {
    /// The rank has the layers of the model, each mixture layer with its
    /// experts in place.
    pub open spec fn loaded(&self, config: &Config) -> bool {
        &&& self.layout.rank == 0
        &&& self.layers@.len() == config.num_hidden_layers
        &&& forall|i: int|
            0 <= i < self.layers@.len() ==> layer_in_place(
                config,
                &self.layout,
                i,
                #[trigger] self.layers@[i],
            )
    }
}

impl<C, M> ExpertRankModel<C, M> {
    /// The rank has the layers of the model, each mixture layer with its
    /// experts in place.
    pub open spec fn loaded(&self, config: &Config) -> bool {
        &&& self.layout.rank == 1
        &&& self.layers@.len() == config.num_hidden_layers
        &&& forall|i: int|
            0 <= i < self.layers@.len() ==> match #[trigger] self.layers@[i] {
                Some(experts) => config.moe_at(i) && in_place(&self.layout, experts@),
                None => !config.moe_at(i),
            }
    }
}

/// Two loaded ranks of one placement serve every expert of every mixture layer
/// that one of them owns: the owner answers, with that expert, and the answer
/// is remote where the owner is not the driver rank.
pub proof fn law_every_route_is_served<C, M, V, H>(
    config: &Config,
    rank0: &DriverRankModel<C, M, V, H>,
    rank1: &ExpertRankModel<C, M>,
    layer_idx: usize,
    global_expert: usize,
)
    requires
        rank0.loaded(config),
        rank1.loaded(config),
        rank0.layout.owners@ == rank1.layout.owners@,
        layer_idx < config.num_hidden_layers,
        config.moe_at(layer_idx as int),
        global_expert < rank0.layout.owners@.len(),
        rank0.layout.owners@[global_expert as int] < 2,
    ensures
        served(rank0, rank1, layer_idx, global_expert) is Ok,
        served(rank0, rank1, layer_idx, global_expert)->Ok_0.0.global_expert == global_expert,
        served(rank0, rank1, layer_idx, global_expert)->Ok_0.1
            == (rank0.layout.owners@[global_expert as int] != 0),
        rank0.layout.owners@[global_expert as int] == 0 ==> (
        rank0.layers@[layer_idx as int].mlp matches MlpWeights::Moe(moe) && moe.experts@.contains(
            served(rank0, rank1, layer_idx, global_expert)->Ok_0.0,
        )),
        rank0.layout.owners@[global_expert as int] == 1 ==> (
        rank1.layers@[layer_idx as int] matches Some(experts) && experts@.contains(
            served(rank0, rank1, layer_idx, global_expert)->Ok_0.0,
        )),
{
    let i = layer_idx as int;
    match rank0.layers@[i].mlp {
        MlpWeights::Moe(moe) => {
            law_owned_experts_are_found(&rank0.layout, moe.experts@, global_expert);
        },
        MlpWeights::Dense(_) => {},
    }
    match rank1.layers@[i] {
        Some(experts) => {
            law_owned_experts_are_found(&rank1.layout, experts@, global_expert);
        },
        None => {},
    }
    law_driver_answers_from_the_layer(rank0, layer_idx, global_expert);
    law_expert_rank_answers_from_the_layer(rank1, layer_idx, global_expert);
}

/// The expert that the driver rank answers with for a layer is held in that
/// layer, at the local number of the asked expert, and is the asked expert; and
/// what it refuses with otherwise.
pub proof fn law_driver_answers_from_the_layer<C, M, V, H>(
    rank: &DriverRankModel<C, M, V, H>,
    layer_idx: usize,
    global_expert: usize,
)
    ensures
        rank.routed(layer_idx, global_expert) matches Ok(expert) ==> {
            let local = rank.layout.owners@.take(global_expert as int).filter(
                |owner: usize| owner == rank.layout.rank,
            ).len() as int;
            &&& layer_idx < rank.layers@.len()
            &&& global_expert < rank.layout.owners@.len()
            &&& rank.layout.owners@[global_expert as int] == rank.layout.rank
            &&& expert.global_expert == global_expert
            &&& rank.layers@[layer_idx as int].mlp matches MlpWeights::Moe(moe) && local
                < moe.experts@.len() && moe.experts@[local] == expert && moe.experts@.contains(
                expert,
            )
        },
        layer_idx >= rank.layers@.len() ==> rank.routed(layer_idx, global_expert) == Err::<
            ExpertMlp<M>,
            ModelError,
        >(ModelError::LayerOutOfRange { layer_idx }),
        layer_idx < rank.layers@.len() && rank.layers@[layer_idx as int].mlp is Dense
            ==> rank.routed(layer_idx, global_expert) == Err::<ExpertMlp<M>, ModelError>(
            ModelError::NotMoeLayer { layer_idx },
        ),
{
    law_placement_of_an_expert(&rank.layout, global_expert);
}

/// What the driver rank answers with for a layer does not depend on any other
/// layer.
pub proof fn law_driver_answers_ignore_other_layers<C, M, V, H>(
    left: &DriverRankModel<C, M, V, H>,
    right: &DriverRankModel<C, M, V, H>,
    layer_idx: usize,
    global_expert: usize,
)
    requires
        left.layout == right.layout,
        layer_idx < left.layers@.len(),
        layer_idx < right.layers@.len(),
        left.layers@[layer_idx as int].mlp == right.layers@[layer_idx as int].mlp,
    ensures
        left.routed(layer_idx, global_expert) == right.routed(layer_idx, global_expert),
{
}

/// The expert that an expert rank answers with for a layer is held in that
/// layer, at the local number of the asked expert, and is the asked expert; and
/// what it refuses with otherwise.
pub proof fn law_expert_rank_answers_from_the_layer<C, M>(
    rank: &ExpertRankModel<C, M>,
    layer_idx: usize,
    global_expert: usize,
)
    ensures
        rank.routed(layer_idx, global_expert) matches Ok(expert) ==> {
            let local = rank.layout.owners@.take(global_expert as int).filter(
                |owner: usize| owner == rank.layout.rank,
            ).len() as int;
            &&& layer_idx < rank.layers@.len()
            &&& global_expert < rank.layout.owners@.len()
            &&& rank.layout.owners@[global_expert as int] == rank.layout.rank
            &&& expert.global_expert == global_expert
            &&& rank.layers@[layer_idx as int] matches Some(experts) && local < experts@.len()
                && experts@[local] == expert && experts@.contains(expert)
        },
        layer_idx >= rank.layers@.len() ==> rank.routed(layer_idx, global_expert) == Err::<
            ExpertMlp<M>,
            ModelError,
        >(ModelError::LayerOutOfRange { layer_idx }),
        layer_idx < rank.layers@.len() && rank.layers@[layer_idx as int] is None ==> rank.routed(
            layer_idx,
            global_expert,
        ) == Err::<ExpertMlp<M>, ModelError>(ModelError::NotMoeLayer { layer_idx }),
{
    law_placement_of_an_expert(&rank.layout, global_expert);
}

/// What an expert rank answers with for a layer does not depend on any other
/// layer.
pub proof fn law_expert_rank_answers_ignore_other_layers<C, M>(
    left: &ExpertRankModel<C, M>,
    right: &ExpertRankModel<C, M>,
    layer_idx: usize,
    global_expert: usize,
)
    requires
        left.layout == right.layout,
        layer_idx < left.layers@.len(),
        layer_idx < right.layers@.len(),
        left.layers@[layer_idx as int] == right.layers@[layer_idx as int],
    ensures
        left.routed(layer_idx, global_expert) == right.routed(layer_idx, global_expert),
{
}

/// A look-up hands out a reference to what it found, and its error as it is.
pub proof fn law_found<T>(value: &T, error: ModelError)
    ensures
        found(Ok::<&T, ModelError>(value)) == Ok::<T, ModelError>(*value),
        found(Err::<&T, ModelError>(error)) == Err::<T, ModelError>(error),
{
}

/// How an expert is found among those that a rank holds of a layer: at its
/// local number, where it must be; and what is missing or misplaced is named.
pub proof fn law_expert_is_found_in_place<M>(
    layout: &ExpertParallelLayout,
    experts: Seq<ExpertMlp<M>>,
    global_expert: usize,
)
    requires
        global_expert < layout.owners@.len(),
        layout.owners@[global_expert as int] == layout.rank,
    ensures
        ({
            let local = layout.owners@.take(global_expert as int).filter(
                |owner: usize| owner == layout.rank,
            ).len() as int;
            let result = routed(layout, experts, global_expert);
            &&& local >= experts.len() ==> result == Err::<ExpertMlp<M>, ModelError>(
                ModelError::ExpertMissing {
                    rank: layout.rank,
                    local_expert: local as usize,
                    global_expert,
                },
            )
            &&& local < experts.len() && experts[local].global_expert == global_expert ==> result
                == Ok::<ExpertMlp<M>, ModelError>(experts[local])
            &&& local < experts.len() && experts[local].global_expert != global_expert ==> result
                == Err::<ExpertMlp<M>, ModelError>(
                ModelError::ExpertMismatch {
                    rank: layout.rank,
                    local_expert: local as usize,
                    expected: global_expert,
                    got: experts[local].global_expert,
                },
            )
        }),
{
    law_placement_of_an_expert(layout, global_expert);
}

/// Which rank serves a route: rank 0 answers for what the placement gives it,
/// without being remote, rank 1 for what it gives rank 1, as remote; a third
/// rank is not served, nor is an expert that is not placed.
pub proof fn law_owner_serves<C, M, V, H>(
    rank0: &DriverRankModel<C, M, V, H>,
    rank1: &ExpertRankModel<C, M>,
    layer_idx: usize,
    global_expert: usize,
)
    ensures
        ({
            let owners = rank0.layout.owners@;
            let result = served(rank0, rank1, layer_idx, global_expert);
            &&& global_expert >= owners.len() ==> result == Err::<(ExpertMlp<M>, bool), ModelError>(
                ModelError::UnknownExpert { global_expert },
            )
            &&& global_expert < owners.len() && owners[global_expert as int] == 0 ==> (
            match rank0.routed(layer_idx, global_expert) {
                Ok(expert) => result == Ok::<(ExpertMlp<M>, bool), ModelError>((expert, false)),
                Err(error) => result == Err::<(ExpertMlp<M>, bool), ModelError>(error),
            })
            &&& global_expert < owners.len() && owners[global_expert as int] == 1 ==> (
            match rank1.routed(layer_idx, global_expert) {
                Ok(expert) => result == Ok::<(ExpertMlp<M>, bool), ModelError>((expert, true)),
                Err(error) => result == Err::<(ExpertMlp<M>, bool), ModelError>(error),
            })
            &&& global_expert < owners.len() && owners[global_expert as int] > 1 ==> result == Err::<
                (ExpertMlp<M>, bool),
                ModelError,
            >(ModelError::UnsupportedRank { global_expert, rank: owners[global_expert as int] })
        }),
{
}

/// The names of the tensors of a layer of the driver rank.
pub proof fn law_layer_names(
    config: &Config,
    layout: &ExpertParallelLayout,
    layer: nat,
    names: LayerNames,
)
    requires
        names.of_layer(config, layout, layer),
    ensures
        ({
            let prefix = "model.layers."@ + decimal(layer);
            let attention = prefix + ".self_attn"@;
            &&& names.input_layernorm@ == prefix + ".input_layernorm.weight"@
            &&& names.post_attention_layernorm@ == prefix + ".post_attention_layernorm.weight"@
            &&& names.attention.kv_a_norm@ == attention + ".kv_a_layernorm.weight"@
            &&& names.attention.q_proj@ == attention + ".q_proj.weight"@
            &&& names.attention.kv_a_proj@ == attention + ".kv_a_proj_with_mqa.weight"@
            &&& names.attention.kv_b_proj@ == attention + ".kv_b_proj.weight"@
            &&& names.attention.o_proj@ == attention + ".o_proj.weight"@
            &&& names.mlp is Moe <==> (layer < config.moe_layers@.len()
                && config.moe_layers@[layer as int])
            &&& names.mlp matches MlpNames::Moe(moe) ==> moe.under(layout, prefix + ".mlp"@)
            &&& names.mlp matches MlpNames::Dense(dense) ==> dense.under(prefix + ".mlp"@)
        }),
{
}

/// The names of the tensors of a feed-forward block and of a mixture.
pub proof fn law_mlp_names(
    layout: &ExpertParallelLayout,
    prefix: Seq<char>,
    dense: DenseMlpNames,
    moe: MoeNames,
    i: int,
)
    requires
        dense.under(prefix),
        moe.under(layout, prefix),
        0 <= i < moe.experts@.len(),
    ensures
        dense.gate_proj@ == prefix + ".gate_proj.weight"@,
        dense.up_proj@ == prefix + ".up_proj.weight"@,
        dense.down_proj@ == prefix + ".down_proj.weight"@,
        moe.gate@ == prefix + ".gate.weight"@,
        moe.shared.under(prefix + ".shared_experts"@),
        moe.experts@.len() == layout.owned().len(),
        moe.experts@[i].global_expert == layout.owned()[i],
        moe.experts@[i].dense.under(
            prefix + ".experts."@ + decimal(moe.experts@[i].global_expert as nat),
        ),
{
}

/// A rank has its even share of a layer's experts, or is refused with what it
/// has and what it should have.
pub proof fn law_even_share(config: &Config, layout: &ExpertParallelLayout, loaded: usize)
    requires
        layout.ep_size > 0,
    ensures
        share_loaded(config, layout, loaded) is Ok <==> loaded == config.n_routed_experts as int
            / layout.ep_size as int,
        share_loaded(config, layout, loaded) matches Err(error) ==> error == (
        ModelError::ExpertCount {
            rank: layout.rank,
            loaded,
            expected: (config.n_routed_experts as int / layout.ep_size as int) as usize,
        }),
{
}

/// Different experts, or experts of different layers, have different names.
pub proof fn law_expert_names_are_distinct(layer: nat, expert: nat, layer2: nat, expert2: nat)
    requires
        expert_prefix(mlp_prefix(layer), expert) == expert_prefix(mlp_prefix(layer2), expert2),
    ensures
        layer == layer2,
        expert == expert2,
{
    let head = "model.layers."@;
    let mid = ".mlp"@ + ".experts."@;
    reveal_strlit("model.layers.");
    reveal_strlit(".mlp");
    reveal_strlit(".experts.");
    let left = expert_prefix(mlp_prefix(layer), expert);
    let right = expert_prefix(mlp_prefix(layer2), expert2);
    assert(left =~= head + decimal(layer) + mid + decimal(expert));
    assert(right =~= head + decimal(layer2) + mid + decimal(expert2));
    let tail = left.skip(head.len() as int);
    assert(tail =~= decimal(layer) + (mid + decimal(expert)));
    assert(tail =~= decimal(layer2) + (mid + decimal(expert2)));
    lemma_decimal_digits(layer);
    lemma_decimal_digits(layer2);
    let n = decimal(layer).len() as int;
    let m = decimal(layer2).len() as int;
    assert(mid[0] == '.');
    assert(tail[n] == '.');
    assert(tail[m] == '.');
    if n < m {
        assert(tail[n] == decimal(layer2)[n]);
    } else if m < n {
        assert(tail[m] == decimal(layer)[m]);
    }
    assert(decimal(layer) =~= tail.take(n));
    assert(decimal(layer2) =~= tail.take(n));
    lemma_decimal_injective(layer, layer2);
    let rest = tail.skip(n + mid.len());
    assert(decimal(expert) =~= rest);
    assert(decimal(expert2) =~= rest);
    lemma_decimal_injective(expert, expert2);
}

} // verus!
