//! Greedy generation: what is checked before it starts, which step comes next,
//! and what it reports.
use vstd::prelude::*;

use crate::config::Config;
use crate::digest::token_sha256;
#[allow(unused_imports)]
use crate::digest::{lower_hex, sha256, tokens_as_bytes, FINGERPRINT_TOKENS_END};
use crate::engine::{EngineLoadOptions, FinishReason};
use crate::error::{GenerateError, LoadError};
#[allow(unused_imports)]
use crate::host_ops::{
    continues, law_append_extends_cache, law_cache_counts_tokens, CacheView,
};
#[allow(unused_imports)]
use crate::route::routes_per_token;
use crate::route::RouteCounts;

verus! {

/// The only expert-parallel backend.
pub const HOST_STAGED_BACKEND: &'static str = "host-staged";

/// What a generation reports about itself.
#[derive(Clone, Debug, Default)]
pub struct GenerationStats {
    /// Where the model was loaded from.
    pub model_path: std::path::PathBuf,
    /// The devices, one per rank.
    pub device_ordinals: Vec<usize>,
    /// Number of ranks.
    pub ep_size: usize,
    /// Length of the prompt.
    pub prompt_tokens: usize,
    /// Number of tokens generated.
    pub generated_tokens: usize,
    /// Expert visits that stayed on the driver rank.
    pub host_dispatch_local_routes: usize,
    /// Expert visits that went to the other rank.
    pub host_dispatch_remote_routes: usize,
    /// Fingerprint of the generated tokens.
    pub output_token_sha256: String,
}

/// What a generation gives.
#[derive(Clone, Debug)]
pub struct GenerationResult {
    /// The generated tokens.
    pub tokens: Vec<u32>,
    /// Why it ended.
    pub finish_reason: FinishReason,
    /// What it reports about itself.
    pub stats: GenerationStats,
}

/// What is found of the devices and the backend that a generator is to use.
pub open spec fn devices_checked(
    device_ordinals: Seq<usize>,
    backend: Option<String>,
    result: Result<(), LoadError>,
) -> bool {
    if device_ordinals.len() != 2 {
        result matches Err(LoadError::DeviceCount { got }) && got == device_ordinals.len()
    } else if device_ordinals[0] == device_ordinals[1] {
        result matches Err(LoadError::DuplicateDevices { ordinal }) && ordinal == device_ordinals[0]
    } else {
        match backend {
            None => result is Ok,
            Some(name) => if name@ == HOST_STAGED_BACKEND@ {
                result is Ok
            } else {
                result matches Err(LoadError::UnsupportedBackend { backend: refused }) && refused@
                    == name@
            },
        }
    }
}

/// Accepts two distinct devices and the host-staged backend, which is also the
/// one that is used where none is named.
pub fn validate_backend_and_devices(
    device_ordinals: &[usize],
    backend: Option<String>,
) -> (result: Result<(), LoadError>)
    ensures
        devices_checked(device_ordinals@, backend, result),
{
    if device_ordinals.len() != 2 {
        return Err(LoadError::DeviceCount { got: device_ordinals.len() });
    }
    if device_ordinals[0] == device_ordinals[1] {
        return Err(LoadError::DuplicateDevices { ordinal: device_ordinals[0] });
    }
    let backend: String = match backend {
        Some(name) => name,
        None => HOST_STAGED_BACKEND.to_owned(),
    };
    if backend != HOST_STAGED_BACKEND.to_owned() {
        return Err(LoadError::UnsupportedBackend { backend });
    }
    Ok(())
}

/// Accepts load options that a generator supports: no captured graphs, and
/// devices and backend as `validate_backend_and_devices` has them.
pub fn validate_load(options: &EngineLoadOptions, backend: Option<String>) -> (result: Result<
    (),
    LoadError,
>)
    ensures
        if options.enable_cuda_graph {
            result matches Err(LoadError::CudaGraphEnabled)
        } else {
            devices_checked(options.device_ordinals@, backend, result)
        },
{
    if options.enable_cuda_graph {
        return Err(LoadError::CudaGraphEnabled);
    }
    validate_backend_and_devices(options.device_ordinals.as_slice(), backend)
}

impl GenerationStats {
    /// The report with the expert visits of one more layer.
    pub open spec fn with_routes(self, counts: RouteCounts) -> GenerationStats {
        GenerationStats {
            host_dispatch_local_routes: (self.host_dispatch_local_routes + counts.local) as usize,
            host_dispatch_remote_routes: (self.host_dispatch_remote_routes
                + counts.remote) as usize,
            ..self
        }
    }

    /// The report with the expert visits of all layers of one more pass.
    pub open spec fn with_pass(self, layers: Seq<RouteCounts>) -> GenerationStats
        decreases layers.len(),
    {
        if layers.len() == 0 {
            self
        } else {
            self.with_pass(layers.drop_last()).with_routes(layers.last())
        }
    }

    /// The report with the expert visits of more passes.
    pub open spec fn with_passes(self, passes: Seq<Seq<RouteCounts>>) -> GenerationStats
        decreases passes.len(),
    {
        if passes.len() == 0 {
            self
        } else {
            self.with_passes(passes.drop_last()).with_pass(passes.last())
        }
    }

    /// All expert visits, wherever they went.
    pub open spec fn routes(self) -> nat {
        (self.host_dispatch_local_routes + self.host_dispatch_remote_routes) as nat
    }

    /// Adds the expert visits of one layer.
    pub fn record_routes(&mut self, counts: RouteCounts)
        requires
            old(self).host_dispatch_local_routes + counts.local <= usize::MAX,
            old(self).host_dispatch_remote_routes + counts.remote <= usize::MAX,
        ensures
            *final(self) == old(self).with_routes(counts),
    {
        self.host_dispatch_local_routes = self.host_dispatch_local_routes + counts.local;
        self.host_dispatch_remote_routes = self.host_dispatch_remote_routes + counts.remote;
    }
}

/// Adds a token to the generated ones, unless it is a stop token that counts:
/// then it is dropped and the generation stops.
pub fn append_generated_token(
    generated: &mut Vec<u32>,
    token: u32,
    eos_token_id: u32,
    ignore_eos: bool,
) -> (finish: Option<FinishReason>)
    ensures
        !ignore_eos && token == eos_token_id ==> {
            &&& finish == Some(FinishReason::Stop)
            &&& final(generated)@ == old(generated)@
        },
        ignore_eos || token != eos_token_id ==> {
            &&& finish is None
            &&& final(generated)@ == old(generated)@.push(token)
        },
{
    if !ignore_eos && token == eos_token_id {
        return Some(FinishReason::Stop);
    }
    generated.push(token);
    None
}

/// How far a greedy generation has come.
#[verifier::ext_equal]
pub struct Progress {
    /// Length of the prompt.
    pub prompt_tokens: nat,
    /// The most tokens to generate.
    pub max_new_tokens: nat,
    /// The stop token.
    pub eos_token_id: u32,
    /// Whether the stop token is treated like any other.
    pub ignore_eos: bool,
    /// The tokens generated so far.
    pub generated: Seq<u32>,
    /// Why it ended, once it has.
    pub finished: Option<FinishReason>,
}

/// What a generation needs next.
#[derive(Clone, Copy, Debug, Eq, PartialEq, Structural)]
pub enum Step {
    /// The token that follows the prompt, whose first token stands at
    /// `position`.
    Prefill { tokens: usize, position: usize },
    /// The token that follows `token`, which stands at `position`.
    Decode { token: u32, position: usize },
    /// Nothing: it has ended.
    Finish,
}

impl Progress {
    /// Whether a token ends the generation.
    pub open spec fn stops_at(self, token: u32) -> bool {
        !self.ignore_eos && token == self.eos_token_id
    }

    /// The progress after the model has given `token`.
    pub open spec fn accepted(self, token: u32) -> Progress {
        if self.stops_at(token) {
            Progress { finished: Some(FinishReason::Stop), ..self }
        } else {
            let generated = self.generated.push(token);
            Progress {
                generated,
                finished: if generated.len() >= self.max_new_tokens {
                    Some(FinishReason::Length)
                } else {
                    None
                },
                ..self
            }
        }
    }

    /// The progress after the model has given the first `n` tokens of
    /// `stream`; a generation that has ended takes no more.
    pub open spec fn fed(self, stream: Seq<u32>, n: nat) -> Progress
        decreases n,
    {
        if n == 0 {
            self
        } else {
            let before = self.fed(stream, (n - 1) as nat);
            if before.finished is Some {
                before
            } else {
                before.accepted(stream[n - 1])
            }
        }
    }

    /// Number of tokens that pass `k` through the model reads: the prompt at
    /// first, and the token generated last from then on.
    pub open spec fn pass_tokens(self, k: int) -> nat {
        if k == 0 {
            self.prompt_tokens
        } else {
            1
        }
    }

    /// Number of tokens that the model has read: the prompt and the generated
    /// tokens, but for the last one, which was not read unless a stop token
    /// came after it.
    pub open spec fn tokens_read(self) -> int {
        if self.finished == Some(FinishReason::Stop) {
            (self.prompt_tokens + self.generated.len()) as int
        } else {
            self.prompt_tokens + self.generated.len() - 1
        }
    }

    /// A generation that has not begun.
    pub open spec fn fresh(self) -> bool {
        &&& self.generated.len() == 0
        &&& self.finished is None
        &&& self.max_new_tokens > 0
    }

    /// Position of the first token that pass `k` through the model reads: the
    /// prompt starts at 0, and each later pass reads one token behind it.
    pub open spec fn pass_start(self, k: int) -> int {
        if k == 0 {
            0
        } else {
            self.prompt_tokens + k - 1
        }
    }

    /// Number of tokens that the passes before pass `k` have read.
    pub open spec fn read_before(self, k: nat) -> nat
        decreases k,
    {
        if k == 0 {
            0
        } else {
            self.read_before((k - 1) as nat) + self.pass_tokens(k - 1)
        }
    }

    /// The step that comes next: the whole prompt at first, then the last
    /// generated token each time.
    pub open spec fn next_step(self) -> Step {
        if self.finished is Some {
            Step::Finish
        } else if self.generated.len() == 0 {
            Step::Prefill { tokens: self.prompt_tokens as usize, position: 0 }
        } else {
            Step::Decode {
                token: self.generated.last(),
                position: (self.prompt_tokens + self.generated.len() - 1) as usize,
            }
        }
    }
}

/// A greedy generation under way.
pub struct GreedyGeneration {
    max_new_tokens: usize,
    eos_token_id: u32,
    ignore_eos: bool,
    generated: Vec<u32>,
    finished: Option<FinishReason>,
    stats: GenerationStats,
}

impl View for GreedyGeneration {
    type V = Progress;

    closed spec fn view(&self) -> Progress {
        Progress {
            prompt_tokens: self.stats.prompt_tokens as nat,
            max_new_tokens: self.max_new_tokens as nat,
            eos_token_id: self.eos_token_id,
            ignore_eos: self.ignore_eos,
            generated: self.generated@,
            finished: self.finished,
        }
    }
}

/// What is found of a request to generate.
pub open spec fn request_checked(
    config: &Config,
    prompt_tokens: nat,
    max_new_tokens: usize,
) -> Option<GenerateError> {
    if prompt_tokens == 0 {
        Some(GenerateError::EmptyPrompt)
    } else if max_new_tokens == 0 {
        Some(GenerateError::ZeroMaxNewTokens)
    } else if prompt_tokens + max_new_tokens > config.plain_rope_context {
        Some(
            GenerateError::ContextTooLong {
                supported: config.plain_rope_context,
                prompt_tokens: prompt_tokens as usize,
                max_new_tokens,
                total: (prompt_tokens + max_new_tokens) as usize,
            },
        )
    } else {
        None
    }
}

impl GreedyGeneration {
    /// What the generation reports about itself so far.
    pub closed spec fn reported(&self) -> GenerationStats {
        self.stats
    }

    /// The positions of a generation can be counted, and one that goes on has
    /// tokens left to generate.
    pub open spec fn wf(&self) -> bool {
        &&& self@.prompt_tokens > 0
        &&& self@.prompt_tokens == self.reported().prompt_tokens
        &&& self@.prompt_tokens + self@.max_new_tokens <= usize::MAX
        &&& self@.generated.len() <= self@.max_new_tokens
        &&& self@.finished is None ==> self@.generated.len() < self@.max_new_tokens
    }

    /// Checks a request and begins its generation. The first token that it
    /// needs is the one that follows the prompt.
    pub fn start(
        config: &Config,
        model_path: std::path::PathBuf,
        device_ordinals: Vec<usize>,
        prompt_tokens: &[u32],
        max_new_tokens: usize,
        ignore_eos: bool,
    ) -> (result: Result<Self, GenerateError>)
        requires
            prompt_tokens@.len() + max_new_tokens <= usize::MAX,
        ensures
            match result {
                Err(error) => request_checked(config, prompt_tokens@.len(), max_new_tokens) == Some(
                    error,
                ),
                Ok(generation) => {
                    &&& request_checked(config, prompt_tokens@.len(), max_new_tokens) is None
                    &&& generation.wf()
                    &&& generation@ == (Progress {
                        prompt_tokens: prompt_tokens@.len(),
                        max_new_tokens: max_new_tokens as nat,
                        eos_token_id: config.eos_token_id,
                        ignore_eos,
                        generated: Seq::empty(),
                        finished: None,
                    })
                    &&& generation.reported().model_path == model_path
                    &&& generation.reported().device_ordinals == device_ordinals
                    &&& generation.reported().ep_size == 2
                    &&& generation.reported().prompt_tokens == prompt_tokens@.len()
                    &&& generation.reported().generated_tokens == 0
                    &&& generation.reported().host_dispatch_local_routes == 0
                    &&& generation.reported().host_dispatch_remote_routes == 0
                    &&& generation.reported().output_token_sha256@ == Seq::<char>::empty()
                },
            },
    {
        if prompt_tokens.len() == 0 {
            return Err(GenerateError::EmptyPrompt);
        }
        if max_new_tokens == 0 {
            return Err(GenerateError::ZeroMaxNewTokens);
        }
        let total: usize = prompt_tokens.len() + max_new_tokens;
        let supported: usize = config.supported_plain_rope_context();
        if total > supported {
            return Err(
                GenerateError::ContextTooLong {
                    supported,
                    prompt_tokens: prompt_tokens.len(),
                    max_new_tokens,
                    total,
                },
            );
        }
        Ok(
            GreedyGeneration {
                max_new_tokens,
                eos_token_id: config.eos_token_id,
                ignore_eos,
                generated: Vec::new(),
                finished: None,
                stats: GenerationStats {
                    model_path,
                    device_ordinals,
                    ep_size: 2,
                    prompt_tokens: prompt_tokens.len(),
                    generated_tokens: 0,
                    host_dispatch_local_routes: 0,
                    host_dispatch_remote_routes: 0,
                    output_token_sha256: String::new(),
                },
            },
        )
    }

    /// What is needed next.
    pub fn next_step(&self) -> (step: Step)
        requires
            self.wf(),
        ensures
            step == self@.next_step(),
    {
        if self.finished.is_some() {
            return Step::Finish;
        }
        let done: usize = self.generated.len();
        if done == 0 {
            return Step::Prefill { tokens: self.stats.prompt_tokens, position: 0 };
        }
        Step::Decode {
            token: self.generated[done - 1],
            position: self.stats.prompt_tokens + done - 1,
        }
    }

    /// Takes the token that the model gave and says what is needed next.
    pub fn accept(&mut self, token: u32) -> (step: Step)
        requires
            old(self).wf(),
            old(self)@.finished is None,
        ensures
            final(self).wf(),
            final(self)@ == old(self)@.accepted(token),
            final(self).reported() == old(self).reported(),
            step == final(self)@.next_step(),
            !old(self)@.ignore_eos && token == old(self)@.eos_token_id ==> {
                &&& final(self)@.generated == old(self)@.generated
                &&& final(self)@.finished == Some(FinishReason::Stop)
                &&& step == Step::Finish
            },
            old(self)@.ignore_eos || token != old(self)@.eos_token_id ==> {
                let count = old(self)@.generated.len() + 1;
                &&& final(self)@.generated == old(self)@.generated.push(token)
                &&& count == old(self)@.max_new_tokens ==> {
                    &&& final(self)@.finished == Some(FinishReason::Length)
                    &&& step == Step::Finish
                }
                &&& count < old(self)@.max_new_tokens ==> {
                    &&& final(self)@.finished is None
                    &&& step == (Step::Decode {
                        token,
                        position: (old(self)@.prompt_tokens + count - 1) as usize,
                    })
                }
            },
    {
        match append_generated_token(
            &mut self.generated,
            token,
            self.eos_token_id,
            self.ignore_eos,
        ) {
            Some(reason) => {
                self.finished = Some(reason);
            },
            None => {
                if self.generated.len() == self.max_new_tokens {
                    self.finished = Some(FinishReason::Length);
                }
            },
        }
        assert(self@ =~= old(self)@.accepted(token));
        self.next_step()
    }

    /// The tokens generated so far.
    pub fn generated(&self) -> (tokens: &[u32])
        ensures
            tokens@ == self@.generated,
    {
        self.generated.as_slice()
    }

    /// What the generation reports about itself so far.
    pub fn stats(&self) -> (stats: &GenerationStats)
        ensures
            *stats == self.reported(),
    {
        &self.stats
    }

    /// Adds the expert visits of one layer to the report.
    pub fn record_routes(&mut self, counts: RouteCounts)
        requires
            old(self).reported().host_dispatch_local_routes + counts.local <= usize::MAX,
            old(self).reported().host_dispatch_remote_routes + counts.remote <= usize::MAX,
        ensures
            final(self)@ == old(self)@,
            old(self).wf() ==> final(self).wf(),
            final(self).reported() == old(self).reported().with_routes(counts),
    {
        self.stats.record_routes(counts);
        assert(self@ =~= old(self)@);
    }

    /// What a generation that has ended gives.
    pub fn into_result(self) -> (result: GenerationResult)
        requires
            self@.finished is Some,
            self@.generated.len() < FINGERPRINT_TOKENS_END,
        ensures
            result.tokens@ == self@.generated,
            Some(result.finish_reason) == self@.finished,
            result.stats.generated_tokens == self@.generated.len(),
            result.stats.output_token_sha256@ == lower_hex(
                sha256(tokens_as_bytes(self@.generated)),
            ),
            result.stats == (GenerationStats {
                generated_tokens: result.stats.generated_tokens,
                output_token_sha256: result.stats.output_token_sha256,
                ..self.reported()
            }),
    {
        let mut stats: GenerationStats = self.stats;
        stats.generated_tokens = self.generated.len();
        stats.output_token_sha256 = token_sha256(self.generated.as_slice());
        let finish_reason: FinishReason = match self.finished {
            Some(reason) => reason,
            None => FinishReason::Error,
        };
        GenerationResult { tokens: self.generated, finish_reason, stats }
    }
}

/// What a generation has after the model gave the first `n` tokens of `stream`:
/// a start of the stream, in order and never longer than asked for. A stop
/// token that counts is not among the tokens; it ended the generation exactly
/// where it stood in the stream. `Length` says that all tokens asked for are
/// there, and a generation that goes on has used up what it was given.
pub proof fn law_generation_follows_stream(start: Progress, stream: Seq<u32>, n: nat)
    requires
        start.fresh(),
        n <= stream.len(),
    ensures
        ({
            let now = start.fed(stream, n);
            let count = now.generated.len() as int;
            &&& count <= start.max_new_tokens
            &&& count <= n
            &&& now.generated == stream.take(count)
            &&& forall|i: int|
                0 <= i < count ==> start.ignore_eos || (#[trigger] now.generated[i])
                    != start.eos_token_id
            &&& match now.finished {
                None => count == n && count < start.max_new_tokens,
                Some(FinishReason::Stop) => {
                    &&& count < n
                    &&& count < start.max_new_tokens
                    &&& !start.ignore_eos
                    &&& stream[count] == start.eos_token_id
                },
                Some(FinishReason::Length) => count == start.max_new_tokens,
                Some(FinishReason::Error) => false,
            }
            &&& now == (Progress { generated: now.generated, finished: now.finished, ..start })
        }),
    decreases n,
{
    let now = start.fed(stream, n);
    if n > 0 {
        law_generation_follows_stream(start, stream, (n - 1) as nat);
        let before = start.fed(stream, (n - 1) as nat);
        if before.finished is None {
            let token = stream[n - 1];
            if !before.stops_at(token) {
                assert(now.generated =~= stream.take(n as int));
                assert forall|i: int| 0 <= i < now.generated.len() implies start.ignore_eos || (
                #[trigger] now.generated[i]) != start.eos_token_id by {
                    if i < n - 1 {
                        assert(now.generated[i] == before.generated[i]);
                    }
                }
            }
        }
    } else {
        assert(now.generated =~= stream.take(0));
    }
}

/// Only the stop token stops a generation, and only where it is not ignored;
/// every other token is appended, and the last one asked for ends it.
pub proof fn law_only_the_stop_token_stops(progress: Progress, token: u32)
    ensures
        ({
            let next = progress.accepted(token);
            &&& next.finished == Some(FinishReason::Stop) <==> (!progress.ignore_eos && token
                == progress.eos_token_id)
            &&& !progress.ignore_eos && token == progress.eos_token_id ==> next.generated
                == progress.generated
            &&& progress.ignore_eos || token != progress.eos_token_id ==> {
                &&& next.generated == progress.generated.push(token)
                &&& next.finished == Some(FinishReason::Length) <==> progress.generated.len() + 1
                    >= progress.max_new_tokens
                &&& next.finished is None <==> progress.generated.len() + 1
                    < progress.max_new_tokens
            }
            &&& next.prompt_tokens == progress.prompt_tokens
            &&& next.max_new_tokens == progress.max_new_tokens
            &&& next.eos_token_id == progress.eos_token_id
            &&& next.ignore_eos == progress.ignore_eos
        }),
{
}

/// Which requests are refused: those without a prompt, those for no token, and
/// those that together are longer than the context that is covered.
pub proof fn law_requests_are_checked(config: &Config, prompt_tokens: nat, max_new_tokens: usize)
    ensures
        request_checked(config, prompt_tokens, max_new_tokens) is None <==> (0 < prompt_tokens
            && 0 < max_new_tokens && prompt_tokens + max_new_tokens <= config.plain_rope_context),
        request_checked(config, prompt_tokens, max_new_tokens) == Some(GenerateError::EmptyPrompt)
            <==> prompt_tokens == 0,
        request_checked(config, prompt_tokens, max_new_tokens) == Some(
            GenerateError::ZeroMaxNewTokens,
        ) <==> (0 < prompt_tokens && max_new_tokens == 0),
        0 < prompt_tokens && 0 < max_new_tokens && prompt_tokens + max_new_tokens
            > config.plain_rope_context ==> request_checked(config, prompt_tokens, max_new_tokens)
            == Some(
            GenerateError::ContextTooLong {
                supported: config.plain_rope_context,
                prompt_tokens: prompt_tokens as usize,
                max_new_tokens,
                total: (prompt_tokens + max_new_tokens) as usize,
            },
        ),
{
}

/// Which devices and backends are accepted: two different devices, and the
/// host-staged backend or none named; and what the others are refused with.
pub proof fn law_devices_are_checked(
    device_ordinals: Seq<usize>,
    backend: Option<String>,
    result: Result<(), LoadError>,
)
    requires
        devices_checked(device_ordinals, backend, result),
    ensures
        result is Ok <==> {
            &&& device_ordinals.len() == 2
            &&& device_ordinals[0] != device_ordinals[1]
            &&& backend matches Some(name) ==> name@ == "host-staged"@
        },
        device_ordinals.len() != 2 ==> (result matches Err(LoadError::DeviceCount { got }) && got
            == device_ordinals.len()),
        device_ordinals.len() == 2 && device_ordinals[0] == device_ordinals[1] ==> (
        result matches Err(LoadError::DuplicateDevices { ordinal }) && ordinal
            == device_ordinals[0] && ordinal == device_ordinals[1]),
        device_ordinals.len() == 2 && device_ordinals[0] != device_ordinals[1] ==> (
        backend matches Some(name) ==> name@ != "host-staged"@ ==> (
        result matches Err(LoadError::UnsupportedBackend { backend: refused }) && refused@
            == name@)),
{
}

/// Recording the visits of a layer adds each count to its own counter and
/// changes nothing else.
pub proof fn law_routes_are_recorded(stats: GenerationStats, counts: RouteCounts)
    requires
        stats.host_dispatch_local_routes + counts.local <= usize::MAX,
        stats.host_dispatch_remote_routes + counts.remote <= usize::MAX,
    ensures
        ({
            let after = stats.with_routes(counts);
            &&& after.host_dispatch_local_routes == stats.host_dispatch_local_routes
                + counts.local
            &&& after.host_dispatch_remote_routes == stats.host_dispatch_remote_routes
                + counts.remote
            &&& after.model_path == stats.model_path
            &&& after.device_ordinals == stats.device_ordinals
            &&& after.ep_size == stats.ep_size
            &&& after.prompt_tokens == stats.prompt_tokens
            &&& after.generated_tokens == stats.generated_tokens
            &&& after.output_token_sha256 == stats.output_token_sha256
        }),
{
}

/// A generation asks the model for no more tokens than it was asked for.
pub proof fn law_generation_ends(start: Progress, stream: Seq<u32>)
    requires
        start.fresh(),
        start.max_new_tokens <= stream.len(),
    ensures
        start.fed(stream, start.max_new_tokens).finished is Some,
{
    law_generation_follows_stream(start, stream, start.max_new_tokens);
}

/// Where the stop token is ignored, a generation gives exactly as many tokens
/// as it was asked for.
pub proof fn law_ignored_stop_gives_full_length(start: Progress, stream: Seq<u32>)
    requires
        start.fresh(),
        start.ignore_eos,
        start.max_new_tokens <= stream.len(),
    ensures
        start.fed(stream, start.max_new_tokens).finished == Some(FinishReason::Length),
        start.fed(stream, start.max_new_tokens).generated == stream.take(
            start.max_new_tokens as int,
        ),
{
    law_generation_follows_stream(start, stream, start.max_new_tokens);
}

/// A generation that goes on decodes its last token at the end of the cache:
/// before each token that the model gives, the cache holds the prompt and all
/// tokens generated so far, and the position that comes next continues it.
pub proof fn law_decode_continues_cache<T>(
    config: &Config,
    progress: Progress,
    token: u32,
    cache: CacheView<T>,
)
    requires
        config.heads() * config.q_dim() > 0,
        progress.finished is None,
        progress.prompt_tokens + progress.max_new_tokens <= usize::MAX,
        progress.accepted(token).finished is None,
        cache.holds(config, progress.prompt_tokens + progress.generated.len()),
    ensures
        ({
            let next = progress.accepted(token);
            let position = progress.prompt_tokens + progress.generated.len();
            &&& next.next_step() == (Step::Decode { token, position: position as usize })
            &&& continues(config, cache, position as usize) is Ok
            &&& position + 1 == next.prompt_tokens + next.generated.len()
        }),
{
    law_cache_counts_tokens(
        config,
        cache,
        progress.prompt_tokens + progress.generated.len(),
    );
}

/// Each pass reads on where the passes before it have stopped, the first one
/// the whole prompt from position 0; and the step that comes after `k` tokens
/// is pass `k`.
pub proof fn law_passes_read_on(start: Progress, stream: Seq<u32>, k: nat)
    requires
        start.fresh(),
        start.prompt_tokens + start.max_new_tokens <= usize::MAX,
        k <= stream.len(),
        start.fed(stream, k).finished is None,
    ensures
        start.pass_start(k as int) == start.read_before(k),
        k == 0 ==> start.fed(stream, k).next_step() == (Step::Prefill {
            tokens: start.prompt_tokens as usize,
            position: 0,
        }),
        k > 0 ==> start.fed(stream, k).next_step() == (Step::Decode {
            token: stream[k - 1],
            position: (start.prompt_tokens + k - 1) as usize,
        }),
        match start.fed(stream, k).next_step() {
            Step::Prefill { tokens, position } => {
                &&& k == 0
                &&& position == start.pass_start(0)
                &&& tokens == start.pass_tokens(0)
            },
            Step::Decode { token, position } => {
                &&& k > 0
                &&& token == stream[k - 1]
                &&& position == start.pass_start(k as int)
                &&& start.pass_tokens(k as int) == 1
            },
            Step::Finish => false,
        },
{
    law_generation_follows_stream(start, stream, k);
    lemma_read_before(start, k);
    if k > 0 {
        assert(start.fed(stream, k).generated.last() == stream[k - 1]);
    }
}

/// What the passes before pass `k` have read ends where pass `k` starts.
proof fn lemma_read_before(start: Progress, k: nat)
    ensures
        start.pass_start(k as int) == start.read_before(k),
    decreases k,
{
    if k > 0 {
        lemma_read_before(start, (k - 1) as nat);
    }
}

/// `after` is `before` with the key and value heads of `tokens` more tokens.
pub open spec fn grown<T>(
    config: &Config,
    before: CacheView<T>,
    tokens: nat,
    after: CacheView<T>,
) -> bool {
    exists|kv_b: Seq<T>, k_pe: Seq<Seq<T>>|
        {
            &&& k_pe.len() == tokens
            &&& forall|t: int|
                0 <= t < tokens ==> (#[trigger] k_pe[t]).len() == config.qk_rope_head_dim
            &&& tokens * config.heads() * config.kv_dim() <= kv_b.len()
            &&& after == #[trigger] before.appended(config, kv_b, k_pe, tokens * config.heads())
        }
}

/// A layer's cache that starts empty and grows by the tokens of each pass holds
/// before pass `k` exactly the tokens before its start, so the pass continues
/// it, where keys have entries.
pub proof fn law_passes_continue_cache<T>(
    config: &Config,
    start: Progress,
    caches: Seq<CacheView<T>>,
    k: nat,
)
    requires
        k < caches.len(),
        caches[0] == CacheView::<T>::empty(),
        forall|j: int|
            0 <= j < k ==> grown(
                config,
                #[trigger] caches[j],
                start.pass_tokens(j),
                caches[j + 1],
            ),
        start.pass_start(k as int) <= usize::MAX,
        config.heads() * config.q_dim() > 0,
    ensures
        caches[k as int].holds(config, start.read_before(k)),
        start.read_before(k) == start.pass_start(k as int),
        continues(config, caches[k as int], start.pass_start(k as int) as usize) is Ok,
{
    lemma_read_before(start, k);
    lemma_caches_hold(config, start, caches, k);
    law_cache_counts_tokens(config, caches[k as int], start.read_before(k));
}

/// A cache that grows by the tokens of each pass holds all tokens read.
proof fn lemma_caches_hold<T>(
    config: &Config,
    start: Progress,
    caches: Seq<CacheView<T>>,
    k: nat,
)
    requires
        k < caches.len(),
        caches[0] == CacheView::<T>::empty(),
        forall|j: int|
            0 <= j < k ==> grown(
                config,
                #[trigger] caches[j],
                start.pass_tokens(j),
                caches[j + 1],
            ),
    ensures
        caches[k as int].holds(config, start.read_before(k)),
    decreases k,
{
    if k > 0 {
        let before = caches[k - 1];
        let tokens = start.pass_tokens(k - 1);
        lemma_caches_hold(config, start, caches, (k - 1) as nat);
        assert(grown(config, before, tokens, caches[k - 1 + 1]));
        let (kv_b, k_pe) = choose|kv_b: Seq<T>, k_pe: Seq<Seq<T>>|
            {
                &&& k_pe.len() == tokens
                &&& forall|t: int|
                    0 <= t < tokens ==> (#[trigger] k_pe[t]).len() == config.qk_rope_head_dim
                &&& tokens * config.heads() * config.kv_dim() <= kv_b.len()
                &&& caches[k as int] == #[trigger] before.appended(
                    config,
                    kv_b,
                    k_pe,
                    tokens * config.heads(),
                )
            };
        law_append_extends_cache(
            config,
            before,
            kv_b,
            k_pe,
            start.read_before((k - 1) as nat),
            tokens,
        );
    } else {
        assert(0 * (config.heads() * config.q_dim()) == 0) by (nonlinear_arith);
        assert(0 * (config.heads() * config.v_head_dim) == 0) by (nonlinear_arith);
    }
}

/// No token of an admitted request is decoded outside the positions that
/// unscaled rotary embedding covers.
pub proof fn law_positions_stay_in_context(
    config: &Config,
    progress: Progress,
    max_new_tokens: usize,
    token: u32,
)
    requires
        request_checked(config, progress.prompt_tokens, max_new_tokens) is None,
        progress.max_new_tokens == max_new_tokens,
        progress.accepted(token).finished is None,
    ensures
        progress.accepted(token).next_step() matches Step::Decode { position, .. } && position
            < config.plain_rope_context,
{
}

/// Number of mixtures among the first `n` layers.
pub open spec fn mixtures(config: &Config, n: nat) -> nat
    decreases n,
{
    if n == 0 {
        0
    } else {
        mixtures(config, (n - 1) as nat) + if config.moe_at(n - 1) {
            1nat
        } else {
            0nat
        }
    }
}

/// `layers` holds what the layers of a pass over `tokens` tokens count: each
/// mixture all routes of all tokens, every other layer none.
pub open spec fn pass_counted(config: &Config, tokens: nat, layers: Seq<RouteCounts>) -> bool {
    &&& layers.len() == config.num_hidden_layers
    &&& forall|l: int|
        0 <= l < layers.len() ==> (#[trigger] layers[l]).local + layers[l].remote == (
        if config.moe_at(l) {
            tokens * routes_per_token(config)
        } else {
            0
        })
}

/// The first layers of a pass add up.
proof fn lemma_pass_adds_up(
    config: &Config,
    tokens: nat,
    layers: Seq<RouteCounts>,
    n: nat,
    before: GenerationStats,
)
    requires
        n <= layers.len(),
        pass_counted(config, tokens, layers),
        before.routes() + mixtures(config, n) * (tokens * routes_per_token(config)) <= usize::MAX,
    ensures
        before.with_pass(layers.take(n as int)).routes() == before.routes() + mixtures(config, n)
            * (tokens * routes_per_token(config)),
    decreases n,
{
    let each = tokens * routes_per_token(config);
    if n > 0 {
        let last = layers[n - 1];
        let fewer = mixtures(config, (n - 1) as nat);
        assert((fewer + 1) * each == fewer * each + each) by (nonlinear_arith);
        assert(layers.take(n as int).drop_last() =~= layers.take(n - 1));
        assert(layers.take(n as int).last() == last);
        assert(0 <= each) by (nonlinear_arith)
            requires
                each == tokens * routes_per_token(config),
                0 <= tokens,
                0 <= routes_per_token(config),
        ;
        lemma_pass_adds_up(config, tokens, layers, (n - 1) as nat, before);
    } else {
        assert(0 * each == 0) by (nonlinear_arith);
        assert(layers.take(0) =~= Seq::empty());
    }
}

/// The first passes of a generation add up.
proof fn lemma_passes_add_up(
    config: &Config,
    start: Progress,
    passes: Seq<Seq<RouteCounts>>,
    n: nat,
    before: GenerationStats,
)
    requires
        0 < n <= passes.len(),
        forall|k: int|
            0 <= k < passes.len() ==> pass_counted(
                config,
                start.pass_tokens(k),
                #[trigger] passes[k],
            ),
        before.routes() == 0,
        mixtures(config, config.num_hidden_layers as nat) * routes_per_token(config) * (
        start.prompt_tokens + n - 1) <= usize::MAX,
    ensures
        before.with_passes(passes.take(n as int)).routes() == mixtures(
            config,
            config.num_hidden_layers as nat,
        ) * routes_per_token(config) * (start.prompt_tokens + n - 1),
    decreases n,
{
    let layers = mixtures(config, config.num_hidden_layers as nat);
    let per_token = routes_per_token(config);
    let last = passes[n - 1];
    let tokens = start.pass_tokens(n - 1);
    assert(passes.take(n as int).drop_last() =~= passes.take(n - 1));
    assert(passes.take(n as int).last() == last);
    assert(last.take(last.len() as int) =~= last);
    assert(layers * (tokens * per_token) == layers * per_token * tokens) by (nonlinear_arith);
    if n > 1 {
        assert(layers * per_token * (start.prompt_tokens + n - 1) == layers * per_token * (
        start.prompt_tokens + (n - 1) - 1) + layers * per_token) by (nonlinear_arith);
        assert(0 <= layers * per_token) by (nonlinear_arith)
            requires
                0 <= layers,
                0 <= per_token,
        ;
        lemma_passes_add_up(config, start, passes, (n - 1) as nat, before);
    } else {
        assert(passes.take(0) =~= Seq::empty());
    }
    lemma_pass_adds_up(
        config,
        tokens,
        last,
        last.len(),
        before.with_passes(passes.take(n - 1)),
    );
}

/// What a generation counts in all: if every mixture of every pass counts all
/// routes of the tokens that the pass reads, the two counters come to the
/// number of mixtures, times the routes of a token, times the tokens read. The
/// model has then given the first `n` tokens of `stream`, one per pass.
pub proof fn law_generation_counts_all_routes(
    config: &Config,
    start: Progress,
    stream: Seq<u32>,
    n: nat,
    passes: Seq<Seq<RouteCounts>>,
    before: GenerationStats,
)
    requires
        start.fresh(),
        0 < n <= stream.len(),
        start.fed(stream, (n - 1) as nat).finished is None,
        passes.len() == n,
        forall|k: int|
            0 <= k < n ==> pass_counted(config, start.pass_tokens(k), #[trigger] passes[k]),
        before.host_dispatch_local_routes == 0,
        before.host_dispatch_remote_routes == 0,
        mixtures(config, config.num_hidden_layers as nat) * routes_per_token(config) * start.fed(
            stream,
            n,
        ).tokens_read() <= usize::MAX,
    ensures
        ({
            let after = before.with_passes(passes);
            after.host_dispatch_local_routes + after.host_dispatch_remote_routes == mixtures(
                config,
                config.num_hidden_layers as nat,
            ) * routes_per_token(config) * start.fed(stream, n).tokens_read()
        }),
{
    law_generation_follows_stream(start, stream, n);
    law_generation_follows_stream(start, stream, (n - 1) as nat);
    assert(start.fed(stream, n).tokens_read() == start.prompt_tokens + n - 1);
    lemma_passes_add_up(config, start, passes, n, before);
    assert(passes.take(n as int) =~= passes);
}

/// Of two generations on one stream of tokens, the shorter one's tokens are the
/// first of the longer one's.
pub proof fn law_shorter_generation_is_prefix(
    left: Progress,
    right: Progress,
    stream: Seq<u32>,
    n: nat,
    m: nat,
)
    requires
        left.fresh(),
        right.fresh(),
        n <= stream.len(),
        m <= stream.len(),
        left.fed(stream, n).generated.len() <= right.fed(stream, m).generated.len(),
    ensures
        left.fed(stream, n).generated == right.fed(stream, m).generated.take(
            left.fed(stream, n).generated.len() as int,
        ),
{
    law_generation_follows_stream(left, stream, n);
    law_generation_follows_stream(right, stream, m);
    assert(left.fed(stream, n).generated =~= right.fed(stream, m).generated.take(
        left.fed(stream, n).generated.len() as int,
    ));
}

/// Asking for more tokens adds tokens at the end: of two generations that have
/// ended, alike but for the number of tokens asked for, the one that was asked
/// for fewer gives the first tokens of the other one, and the same where it
/// stopped at a stop token.
pub proof fn law_asking_for_more_extends(
    left: Progress,
    right: Progress,
    stream: Seq<u32>,
    n: nat,
    m: nat,
)
    requires
        left.fresh(),
        right.fresh(),
        left.eos_token_id == right.eos_token_id,
        left.ignore_eos == right.ignore_eos,
        left.max_new_tokens <= right.max_new_tokens,
        n <= stream.len(),
        m <= stream.len(),
        left.fed(stream, n).finished is Some,
        right.fed(stream, m).finished is Some,
    ensures
        left.fed(stream, n).generated.is_prefix_of(right.fed(stream, m).generated),
        left.fed(stream, n).finished == Some(FinishReason::Stop) ==> {
            &&& right.fed(stream, m).finished == Some(FinishReason::Stop)
            &&& right.fed(stream, m).generated == left.fed(stream, n).generated
        },
{
    law_generation_follows_stream(left, stream, n);
    law_generation_follows_stream(right, stream, m);
    let short = left.fed(stream, n);
    let long = right.fed(stream, m);
    let a = short.generated.len() as int;
    let b = long.generated.len() as int;
    if b < a {
        assert(short.generated[b] == stream[b]);
    }
    if short.finished == Some(FinishReason::Stop) && a < b {
        assert(long.generated[a] == stream[a]);
    }
    law_shorter_generation_is_prefix(left, right, stream, n, m);
}

} // verus!
