//! The integer hyperparameters of the model and the sizes that follow from them.
use vstd::prelude::*;

verus! {

/// What the host-side logic reads of a model's configuration.
#[derive(Debug)]
pub struct Config {
    /// Width of a hidden state.
    pub hidden_size: usize,
    /// Number of transformer layers.
    pub num_hidden_layers: usize,
    /// For each layer, whether its feed-forward part is a mixture of experts.
    pub moe_layers: Vec<bool>,
    /// Number of attention heads.
    pub num_attention_heads: usize,
    /// Entries of a query or key head that carry no position.
    pub qk_nope_head_dim: usize,
    /// Entries of a query or key head that are rotated by position.
    pub qk_rope_head_dim: usize,
    /// Entries of a value head.
    pub v_head_dim: usize,
    /// Width of the compressed key-value state.
    pub kv_lora_rank: usize,
    /// Number of routed experts of a mixture layer.
    pub n_routed_experts: usize,
    /// Number of routed experts that one token visits.
    pub num_experts_per_token: usize,
    /// The token that ends a generation.
    pub eos_token_id: u32,
    /// Whether the output projection shares the embedding matrix.
    pub tie_word_embeddings: bool,
    /// The longest context that unscaled rotary positions cover.
    pub plain_rope_context: usize,
}

impl Config {
    /// Entries of one query or key head.
    pub open spec fn q_dim(&self) -> nat {
        (self.qk_nope_head_dim + self.qk_rope_head_dim) as nat
    }

    /// Entries of one head in the expanded key-value state.
    pub open spec fn kv_dim(&self) -> nat {
        (self.qk_nope_head_dim + self.v_head_dim) as nat
    }

    /// Entries of one token in the compressed key-value projection.
    pub open spec fn kv_a_dim(&self) -> nat {
        (self.kv_lora_rank + self.qk_rope_head_dim) as nat
    }

    /// Number of attention heads.
    pub open spec fn heads(&self) -> nat {
        self.num_attention_heads as nat
    }

    /// Whether the feed-forward part of layer `layer` is a mixture of experts.
    pub open spec fn moe_at(&self, layer: int) -> bool {
        0 <= layer < self.moe_layers@.len() && self.moe_layers@[layer]
    }

    /// The rows of every attention projection can be counted in a `usize`.
    pub open spec fn wf(&self) -> bool {
        &&& self.q_dim() <= usize::MAX
        &&& self.kv_dim() <= usize::MAX
        &&& self.kv_a_dim() <= usize::MAX
        &&& self.heads() * self.q_dim() <= usize::MAX
        &&& self.heads() * self.kv_dim() <= usize::MAX
        &&& self.heads() * self.v_head_dim <= usize::MAX
    }

    /// Whether the rows of every attention projection can be counted.
    pub fn is_wf(&self) -> (yes: bool)
        ensures
            yes == self.wf(),
    {
        let q_dim: usize = match self.qk_nope_head_dim.checked_add(self.qk_rope_head_dim) {
            Some(n) => n,
            None => {
                return false;
            },
        };
        let kv_dim: usize = match self.qk_nope_head_dim.checked_add(self.v_head_dim) {
            Some(n) => n,
            None => {
                return false;
            },
        };
        self.kv_lora_rank.checked_add(self.qk_rope_head_dim).is_some()
            && self.num_attention_heads.checked_mul(q_dim).is_some()
            && self.num_attention_heads.checked_mul(kv_dim).is_some()
            && self.num_attention_heads.checked_mul(self.v_head_dim).is_some()
    }

    /// Entries of one query or key head: the unrotated ones, then the rotated ones.
    pub fn query_head_dim(&self) -> (n: usize)
        requires
            self.q_dim() <= usize::MAX,
        ensures
            n == self.q_dim(),
    {
        self.qk_nope_head_dim + self.qk_rope_head_dim
    }

    /// Entries of one token in the query projection.
    pub fn q_proj_rows(&self) -> (n: usize)
        requires
            self.q_dim() <= usize::MAX,
            self.heads() * self.q_dim() <= usize::MAX,
        ensures
            n == self.heads() * self.q_dim(),
    {
        self.num_attention_heads * self.query_head_dim()
    }

    /// Entries of one token in the compressed key-value projection: the
    /// compressed state, then the one key part that all heads rotate.
    pub fn kv_a_proj_rows(&self) -> (n: usize)
        requires
            self.kv_a_dim() <= usize::MAX,
        ensures
            n == self.kv_a_dim(),
    {
        self.kv_lora_rank + self.qk_rope_head_dim
    }

    /// Entries of one token in the expanded key-value projection.
    pub fn kv_b_proj_rows(&self) -> (n: usize)
        requires
            self.kv_dim() <= usize::MAX,
            self.heads() * self.kv_dim() <= usize::MAX,
        ensures
            n == self.heads() * self.kv_dim(),
    {
        self.num_attention_heads * (self.qk_nope_head_dim + self.v_head_dim)
    }

    /// Entries of one token in the attention output.
    pub fn o_proj_cols(&self) -> (n: usize)
        requires
            self.heads() * self.v_head_dim <= usize::MAX,
        ensures
            n == self.heads() * self.v_head_dim,
    {
        self.num_attention_heads * self.v_head_dim
    }

    /// Whether the feed-forward part of layer `layer_idx` is a mixture of experts.
    pub fn is_moe_layer(&self, layer_idx: usize) -> (yes: bool)
        ensures
            yes == self.moe_at(layer_idx as int),
    {
        layer_idx < self.moe_layers.len() && self.moe_layers[layer_idx]
    }

    /// The longest context that unscaled rotary positions cover.
    pub fn supported_plain_rope_context(&self) -> (n: usize)
        ensures
            n == self.plain_rope_context,
    {
        self.plain_rope_context
    }
}

} // verus!
