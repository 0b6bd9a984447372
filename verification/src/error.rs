//! What can be refused, and the text that says so.
use vstd::prelude::*;

use crate::text::push_decimal;
#[allow(unused_imports)]
use crate::text::decimal;

verus! {

/// Why a generator cannot be loaded as asked.
#[derive(Debug, PartialEq, Eq)]
pub enum LoadError {
    /// Captured device graphs are not supported.
    CudaGraphEnabled,
    /// The number of devices is not two.
    DeviceCount { got: usize },
    /// Both ranks were given the same device.
    DuplicateDevices { ordinal: usize },
    /// The expert-parallel backend is not known.
    UnsupportedBackend { backend: String },
}

/// Why a generation cannot start.
#[derive(Debug, PartialEq, Eq)]
pub enum GenerateError {
    /// There is no prompt.
    EmptyPrompt,
    /// No token was asked for.
    ZeroMaxNewTokens,
    /// Prompt and new tokens exceed what unscaled rotary positions cover.
    ContextTooLong { supported: usize, prompt_tokens: usize, max_new_tokens: usize, total: usize },
}

/// Why model weights do not fit together or an expert cannot be found.
#[derive(Debug, PartialEq, Eq)]
pub enum ModelError {
    /// The output projection is shared with the embedding.
    TiedEmbeddings,
    /// There is no such layer.
    LayerOutOfRange { layer_idx: usize },
    /// The layer has no routed experts.
    NotMoeLayer { layer_idx: usize },
    /// No rank owns such an expert.
    UnknownExpert { global_expert: usize },
    /// Another rank owns the expert.
    ForeignExpert { rank: usize, global_expert: usize },
    /// The owned expert was not loaded.
    ExpertMissing { rank: usize, local_expert: usize, global_expert: usize },
    /// Another expert was loaded in its place.
    ExpertMismatch { rank: usize, local_expert: usize, expected: usize, got: usize },
    /// The rank loaded the wrong number of experts.
    ExpertCount { rank: usize, loaded: usize, expected: usize },
    /// The owner of the expert is neither of the two ranks.
    UnsupportedRank { global_expert: usize, rank: usize },
}

/// Why host data does not fit the step that is to use it.
#[derive(Debug, PartialEq, Eq)]
pub enum HostError {
    /// The cache does not have one entry per layer.
    LayerCount,
    /// The cache does not end where the new tokens start.
    CachePosition { cache_len: usize, start_pos: usize },
    /// A host buffer does not have the length of the hidden states it stands for.
    HiddenLen { got: usize, expected: usize },
}

/// Why a rank could not be loaded.
#[derive(Debug, PartialEq, Eq)]
pub enum RankError<E> {
    /// A tensor could not be read or moved.
    Tensor(E),
    /// The weights do not fit together.
    Model(ModelError),
}

/// Why hidden states could not be put on a device.
#[derive(Debug, PartialEq, Eq)]
pub enum TransferError<E> {
    /// The device failed.
    Device(E),
    /// The host data does not fit.
    Host(HostError),
}

impl LoadError {
    /// The text of the error.
    pub open spec fn text(&self) -> Seq<char> {
        match self {
            LoadError::CudaGraphEnabled =>
                "DeepSeek-V2-Lite EP=2 first gate requires cuda_graph disabled"@,
            LoadError::DeviceCount { got } =>
                "DeepSeek-V2-Lite first EP gate supports exactly 2 CUDA devices for ep_size=2, got "@
                + decimal(*got as nat),
            LoadError::DuplicateDevices { ordinal } =>
                "DeepSeek-V2-Lite EP=2 requires two distinct CUDA device ordinals, got ["@ + decimal(
                *ordinal as nat,
            ) + ", "@ + decimal(*ordinal as nat) + "]"@,
            LoadError::UnsupportedBackend { backend } => "DeepSeek-V2-Lite EP=2 backend '"@
                + backend@
                + "' is not supported by the first gate; supported backend: host-staged"@,
        }
    }

    /// The text of the error.
    pub fn message(&self) -> (text: String)
        ensures
            text@ == self.text(),
    {
        match self {
            LoadError::CudaGraphEnabled =>
                "DeepSeek-V2-Lite EP=2 first gate requires cuda_graph disabled".to_owned(),
            LoadError::DeviceCount { got } => {
                let mut out: String =
                    "DeepSeek-V2-Lite first EP gate supports exactly 2 CUDA devices for ep_size=2, got ".to_owned();
                push_decimal(&mut out, *got);
                out
            },
            LoadError::DuplicateDevices { ordinal } => {
                let mut out: String =
                    "DeepSeek-V2-Lite EP=2 requires two distinct CUDA device ordinals, got [".to_owned();
                push_decimal(&mut out, *ordinal);
                out.append(", ");
                push_decimal(&mut out, *ordinal);
                out.append("]");
                out
            },
            LoadError::UnsupportedBackend { backend } => {
                let mut out: String = "DeepSeek-V2-Lite EP=2 backend '".to_owned();
                out.append(backend.as_str());
                out.append("' is not supported by the first gate; supported backend: host-staged");
                out
            },
        }
    }
}

impl GenerateError {
    /// The text of the error.
    pub open spec fn text(&self) -> Seq<char> {
        match self {
            GenerateError::EmptyPrompt => "prompt_tokens must not be empty"@,
            GenerateError::ZeroMaxNewTokens => "max_new_tokens must be positive"@,
            GenerateError::ContextTooLong { supported, prompt_tokens, max_new_tokens, total } =>
                "DeepSeek-V2-Lite EP=2 first gate supports plain RoPE context <= "@ + decimal(
                *supported as nat,
            ) + " tokens; requested prompt_tokens="@ + decimal(*prompt_tokens as nat)
                + " max_new_tokens="@ + decimal(*max_new_tokens as nat) + " total="@ + decimal(
                *total as nat,
            ) + ". YaRN rope_scaling long context is not implemented yet."@,
        }
    }

    /// The text of the error.
    pub fn message(&self) -> (text: String)
        ensures
            text@ == self.text(),
    {
        match self {
            GenerateError::EmptyPrompt => "prompt_tokens must not be empty".to_owned(),
            GenerateError::ZeroMaxNewTokens => "max_new_tokens must be positive".to_owned(),
            GenerateError::ContextTooLong { supported, prompt_tokens, max_new_tokens, total } => {
                let mut out: String =
                    "DeepSeek-V2-Lite EP=2 first gate supports plain RoPE context <= ".to_owned();
                push_decimal(&mut out, *supported);
                out.append(" tokens; requested prompt_tokens=");
                push_decimal(&mut out, *prompt_tokens);
                out.append(" max_new_tokens=");
                push_decimal(&mut out, *max_new_tokens);
                out.append(" total=");
                push_decimal(&mut out, *total);
                out.append(". YaRN rope_scaling long context is not implemented yet.");
                out
            },
        }
    }
}

impl ModelError {
    /// The text of the error.
    pub open spec fn text(&self) -> Seq<char> {
        match self {
            ModelError::TiedEmbeddings => "DeepSeek-V2-Lite first gate expects untied lm_head"@,
            ModelError::LayerOutOfRange { layer_idx } => "layer "@ + decimal(*layer_idx as nat)
                + " out of range"@,
            ModelError::NotMoeLayer { layer_idx } => "layer "@ + decimal(*layer_idx as nat)
                + " is not a MoE layer"@,
            ModelError::UnknownExpert { global_expert } => "routed expert "@ + decimal(
                *global_expert as nat,
            ) + " out of range"@,
            ModelError::ForeignExpert { rank, global_expert } => "routed expert "@ + decimal(
                *global_expert as nat,
            ) + " is not owned by rank "@ + decimal(*rank as nat),
            ModelError::ExpertMissing { rank, local_expert, global_expert } => "rank "@ + decimal(
                *rank as nat,
            ) + " local expert "@ + decimal(*local_expert as nat) + " missing for global expert "@
                + decimal(*global_expert as nat),
            ModelError::ExpertMismatch { rank, local_expert, expected, got } => "rank "@ + decimal(
                *rank as nat,
            ) + " local expert "@ + decimal(*local_expert as nat) + " expected global "@ + decimal(
                *expected as nat,
            ) + ", got "@ + decimal(*got as nat),
            ModelError::ExpertCount { rank, loaded, expected } => "rank "@ + decimal(*rank as nat)
                + " loaded "@ + decimal(*loaded as nat) + " routed experts, expected "@ + decimal(
                *expected as nat,
            ),
            ModelError::UnsupportedRank { global_expert, rank } => "routed expert "@ + decimal(
                *global_expert as nat,
            ) + " maps to unsupported EP rank "@ + decimal(*rank as nat),
        }
    }

    /// The text of the error.
    pub fn message(&self) -> (text: String)
        ensures
            text@ == self.text(),
    {
        match self {
            ModelError::TiedEmbeddings =>
                "DeepSeek-V2-Lite first gate expects untied lm_head".to_owned(),
            ModelError::LayerOutOfRange { layer_idx } => {
                let mut out: String = "layer ".to_owned();
                push_decimal(&mut out, *layer_idx);
                out.append(" out of range");
                out
            },
            ModelError::NotMoeLayer { layer_idx } => {
                let mut out: String = "layer ".to_owned();
                push_decimal(&mut out, *layer_idx);
                out.append(" is not a MoE layer");
                out
            },
            ModelError::UnknownExpert { global_expert } => {
                let mut out: String = "routed expert ".to_owned();
                push_decimal(&mut out, *global_expert);
                out.append(" out of range");
                out
            },
            ModelError::ForeignExpert { rank, global_expert } => {
                let mut out: String = "routed expert ".to_owned();
                push_decimal(&mut out, *global_expert);
                out.append(" is not owned by rank ");
                push_decimal(&mut out, *rank);
                out
            },
            ModelError::ExpertMissing { rank, local_expert, global_expert } => {
                let mut out: String = "rank ".to_owned();
                push_decimal(&mut out, *rank);
                out.append(" local expert ");
                push_decimal(&mut out, *local_expert);
                out.append(" missing for global expert ");
                push_decimal(&mut out, *global_expert);
                out
            },
            ModelError::ExpertMismatch { rank, local_expert, expected, got } => {
                let mut out: String = "rank ".to_owned();
                push_decimal(&mut out, *rank);
                out.append(" local expert ");
                push_decimal(&mut out, *local_expert);
                out.append(" expected global ");
                push_decimal(&mut out, *expected);
                out.append(", got ");
                push_decimal(&mut out, *got);
                out
            },
            ModelError::ExpertCount { rank, loaded, expected } => {
                let mut out: String = "rank ".to_owned();
                push_decimal(&mut out, *rank);
                out.append(" loaded ");
                push_decimal(&mut out, *loaded);
                out.append(" routed experts, expected ");
                push_decimal(&mut out, *expected);
                out
            },
            ModelError::UnsupportedRank { global_expert, rank } => {
                let mut out: String = "routed expert ".to_owned();
                push_decimal(&mut out, *global_expert);
                out.append(" maps to unsupported EP rank ");
                push_decimal(&mut out, *rank);
                out
            },
        }
    }
}

impl HostError {
    /// The text of the error.
    pub open spec fn text(&self) -> Seq<char> {
        match self {
            HostError::LayerCount => "decode cache layer count mismatch"@,
            HostError::CachePosition { cache_len, start_pos } =>
                "attention cache position mismatch: cache_len="@ + decimal(*cache_len as nat)
                + ", start_pos="@ + decimal(*start_pos as nat),
            HostError::HiddenLen { got, expected } => "hidden host data len mismatch: got "@
                + decimal(*got as nat) + ", expected "@ + decimal(*expected as nat),
        }
    }

    /// The text of the error.
    pub fn message(&self) -> (text: String)
        ensures
            text@ == self.text(),
    {
        match self {
            HostError::LayerCount => "decode cache layer count mismatch".to_owned(),
            HostError::CachePosition { cache_len, start_pos } => {
                let mut out: String = "attention cache position mismatch: cache_len=".to_owned();
                push_decimal(&mut out, *cache_len);
                out.append(", start_pos=");
                push_decimal(&mut out, *start_pos);
                out
            },
            HostError::HiddenLen { got, expected } => {
                let mut out: String = "hidden host data len mismatch: got ".to_owned();
                push_decimal(&mut out, *got);
                out.append(", expected ");
                push_decimal(&mut out, *expected);
                out
            },
        }
    }
}

/// What a caller is told when a generator cannot be loaded as asked.
pub proof fn law_load_error_texts(got: usize, ordinal: usize, backend: String)
    ensures
        LoadError::CudaGraphEnabled.text()
            == "DeepSeek-V2-Lite EP=2 first gate requires cuda_graph disabled"@,
        (LoadError::DeviceCount { got }).text()
            == "DeepSeek-V2-Lite first EP gate supports exactly 2 CUDA devices for ep_size=2, got "@
            + decimal(got as nat),
        (LoadError::DuplicateDevices { ordinal }).text()
            == "DeepSeek-V2-Lite EP=2 requires two distinct CUDA device ordinals, got ["@
            + decimal(ordinal as nat) + ", "@ + decimal(ordinal as nat) + "]"@,
        (LoadError::UnsupportedBackend { backend }).text() == "DeepSeek-V2-Lite EP=2 backend '"@
            + backend@
            + "' is not supported by the first gate; supported backend: host-staged"@,
{
}

/// What a caller is told when a generation cannot start.
pub proof fn law_generate_error_texts(
    supported: usize,
    prompt_tokens: usize,
    max_new_tokens: usize,
    total: usize,
)
    ensures
        GenerateError::EmptyPrompt.text() == "prompt_tokens must not be empty"@,
        GenerateError::ZeroMaxNewTokens.text() == "max_new_tokens must be positive"@,
        (GenerateError::ContextTooLong { supported, prompt_tokens, max_new_tokens, total }).text()
            == "DeepSeek-V2-Lite EP=2 first gate supports plain RoPE context <= "@ + decimal(
            supported as nat,
        ) + " tokens; requested prompt_tokens="@ + decimal(prompt_tokens as nat)
            + " max_new_tokens="@ + decimal(max_new_tokens as nat) + " total="@ + decimal(
            total as nat,
        ) + ". YaRN rope_scaling long context is not implemented yet."@,
{
}

/// What a caller is told when weights do not fit together or an expert cannot
/// be found.
pub proof fn law_model_error_texts(a: usize, b: usize, c: usize, d: usize)
    ensures
        ModelError::TiedEmbeddings.text() == "DeepSeek-V2-Lite first gate expects untied lm_head"@,
        (ModelError::LayerOutOfRange { layer_idx: a }).text() == "layer "@ + decimal(a as nat)
            + " out of range"@,
        (ModelError::NotMoeLayer { layer_idx: a }).text() == "layer "@ + decimal(a as nat)
            + " is not a MoE layer"@,
        (ModelError::ExpertMissing { rank: a, local_expert: b, global_expert: c }).text()
            == "rank "@ + decimal(a as nat) + " local expert "@ + decimal(b as nat)
            + " missing for global expert "@ + decimal(c as nat),
        (ModelError::ExpertMismatch { rank: a, local_expert: b, expected: c, got: d }).text()
            == "rank "@ + decimal(a as nat) + " local expert "@ + decimal(b as nat)
            + " expected global "@ + decimal(c as nat) + ", got "@ + decimal(d as nat),
        (ModelError::ExpertCount { rank: a, loaded: b, expected: c }).text() == "rank "@ + decimal(
            a as nat,
        ) + " loaded "@ + decimal(b as nat) + " routed experts, expected "@ + decimal(c as nat),
        (ModelError::UnsupportedRank { global_expert: a, rank: b }).text() == "routed expert "@
            + decimal(a as nat) + " maps to unsupported EP rank "@ + decimal(b as nat),
{
}

/// What a caller is told when host data does not fit.
pub proof fn law_host_error_texts(a: usize, b: usize)
    ensures
        HostError::LayerCount.text() == "decode cache layer count mismatch"@,
        (HostError::CachePosition { cache_len: a, start_pos: b }).text()
            == "attention cache position mismatch: cache_len="@ + decimal(a as nat)
            + ", start_pos="@ + decimal(b as nat),
        (HostError::HiddenLen { got: a, expected: b }).text()
            == "hidden host data len mismatch: got "@ + decimal(a as nat) + ", expected "@
            + decimal(b as nat),
{
}

} // verus!
