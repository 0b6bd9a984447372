use std::path::PathBuf;

use deepseek_v2_lite::config::Config;
use deepseek_v2_lite::engine::{EngineLoadOptions, FinishReason};
use deepseek_v2_lite::error::{GenerateError, LoadError};
use deepseek_v2_lite::route::RouteCounts;
use deepseek_v2_lite::runtime::{
    append_generated_token, validate_backend_and_devices, validate_load, GenerationResult,
    GenerationStats, GreedyGeneration, Step,
};

fn config() -> Config {
    Config {
        hidden_size: 4,
        num_hidden_layers: 2,
        moe_layers: vec![false, true],
        num_attention_heads: 2,
        qk_nope_head_dim: 1,
        qk_rope_head_dim: 2,
        v_head_dim: 1,
        kv_lora_rank: 2,
        n_routed_experts: 4,
        num_experts_per_token: 2,
        eos_token_id: 100_001,
        tie_word_embeddings: false,
        plain_rope_context: 16,
    }
}

fn start(prompt: &[u32], max_new_tokens: usize, ignore_eos: bool) -> Result<GreedyGeneration, GenerateError> {
    GreedyGeneration::start(
        &config(),
        PathBuf::from("/models/lite"),
        vec![3, 5],
        prompt,
        max_new_tokens,
        ignore_eos,
    )
}

fn refused(prompt: &[u32], max_new_tokens: usize) -> GenerateError {
    match start(prompt, max_new_tokens, false) {
        Ok(_) => panic!("the request should be refused"),
        Err(error) => error,
    }
}

fn run(prompt: &[u32], max_new_tokens: usize, ignore_eos: bool, stream: &[u32]) -> (Vec<Step>, GenerationResult) {
    let mut generation = match start(prompt, max_new_tokens, ignore_eos) {
        Ok(generation) => generation,
        Err(error) => panic!("unexpected error: {error:?}"),
    };
    assert_eq!(generation.next_step(), Step::Prefill { tokens: prompt.len(), position: 0 });
    let mut steps = Vec::new();
    for token in stream {
        let step = generation.accept(*token);
        steps.push(step);
        assert_eq!(generation.next_step(), step);
        if step == Step::Finish {
            break;
        }
    }
    assert_eq!(steps.last(), Some(&Step::Finish));
    (steps, generation.into_result())
}

#[test]
fn stop_token_is_not_appended_when_eos_is_enabled() {
    let mut generated = vec![10, 11];

    let finish_reason = append_generated_token(&mut generated, 100_001, 100_001, false);

    assert_eq!(finish_reason, Some(FinishReason::Stop));
    assert_eq!(generated, vec![10, 11]);
}

#[test]
fn stop_token_is_appended_when_eos_is_ignored() {
    let mut generated = vec![10, 11];

    let finish_reason = append_generated_token(&mut generated, 100_001, 100_001, true);

    assert_eq!(finish_reason, None);
    assert_eq!(generated, vec![10, 11, 100_001]);
}

#[test]
fn other_token_is_appended_when_eos_is_enabled() {
    let mut generated = vec![10];

    let finish_reason = append_generated_token(&mut generated, 12, 100_001, false);

    assert_eq!(finish_reason, None);
    assert_eq!(generated, vec![10, 12]);
}

#[test]
fn duplicate_device_ordinals_are_rejected() {
    let err = validate_backend_and_devices(&[0, 0], None).unwrap_err();

    assert!(
        err.message()
            .contains("two distinct CUDA device ordinals"),
        "unexpected error: {err:#?}"
    );
}

#[test]
fn duplicate_device_message_lists_both_ordinals() {
    let err = validate_backend_and_devices(&[12, 12], None).unwrap_err();

    assert_eq!(
        err.message(),
        "DeepSeek-V2-Lite EP=2 requires two distinct CUDA device ordinals, got [12, 12]"
    );
}

#[test]
fn wrong_device_count_is_rejected_first() {
    let err = validate_backend_and_devices(&[0, 0, 0], Some("other".to_string())).unwrap_err();

    assert_eq!(err, LoadError::DeviceCount { got: 3 });
    assert_eq!(
        err.message(),
        "DeepSeek-V2-Lite first EP gate supports exactly 2 CUDA devices for ep_size=2, got 3"
    );
    assert_eq!(
        validate_backend_and_devices(&[], None),
        Err(LoadError::DeviceCount { got: 0 })
    );
}

#[test]
fn backend_defaults_to_host_staged() {
    assert_eq!(validate_backend_and_devices(&[0, 1], None), Ok(()));
    assert_eq!(
        validate_backend_and_devices(&[1, 0], Some("host-staged".to_string())),
        Ok(())
    );
}

#[test]
fn unknown_backend_is_rejected() {
    let err = validate_backend_and_devices(&[0, 1], Some("nccl".to_string())).unwrap_err();

    assert_eq!(err, LoadError::UnsupportedBackend { backend: "nccl".to_string() });
    assert_eq!(
        err.message(),
        "DeepSeek-V2-Lite EP=2 backend 'nccl' is not supported by the first gate; supported backend: host-staged"
    );
    assert!(validate_backend_and_devices(&[0, 1], Some(String::new())).is_err());
}

#[test]
fn default_options_are_refused_for_their_captured_graphs() {
    let options = EngineLoadOptions::default();

    let err = validate_load(&options, None).unwrap_err();

    assert_eq!(err, LoadError::CudaGraphEnabled);
    assert_eq!(
        err.message(),
        "DeepSeek-V2-Lite EP=2 first gate requires cuda_graph disabled"
    );
}

#[test]
fn load_options_without_graphs_are_checked_by_device() {
    let mut options = EngineLoadOptions::default();
    options.enable_cuda_graph = false;
    assert_eq!(validate_load(&options, None), Err(LoadError::DeviceCount { got: 1 }));

    options.device_ordinals = vec![0, 1];
    assert_eq!(validate_load(&options, None), Ok(()));
}

#[test]
fn empty_prompt_is_refused_first() {
    let err = refused(&[], 0);

    assert_eq!(err, GenerateError::EmptyPrompt);
    assert_eq!(err.message(), "prompt_tokens must not be empty");
}

#[test]
fn zero_new_tokens_are_refused() {
    let err = refused(&[1], 0);

    assert_eq!(err, GenerateError::ZeroMaxNewTokens);
    assert_eq!(err.message(), "max_new_tokens must be positive");
}

#[test]
fn context_beyond_plain_rope_is_refused() {
    let err = refused(&[1, 2, 3], 14);

    assert_eq!(
        err,
        GenerateError::ContextTooLong { supported: 16, prompt_tokens: 3, max_new_tokens: 14, total: 17 }
    );
    assert_eq!(
        err.message(),
        "DeepSeek-V2-Lite EP=2 first gate supports plain RoPE context <= 16 tokens; requested prompt_tokens=3 max_new_tokens=14 total=17. YaRN rope_scaling long context is not implemented yet."
    );
    assert!(start(&[1, 2, 3], 13, false).is_ok());
}

#[test]
fn generation_ends_at_the_requested_length() {
    let (steps, result) = run(&[1, 2, 3], 3, false, &[7, 8, 9, 10]);

    assert_eq!(
        steps,
        vec![
            Step::Decode { token: 7, position: 3 },
            Step::Decode { token: 8, position: 4 },
            Step::Finish,
        ]
    );
    assert_eq!(result.tokens, vec![7, 8, 9]);
    assert_eq!(result.finish_reason, FinishReason::Length);
    assert_eq!(result.stats.generated_tokens, 3);
}

#[test]
fn generation_ends_before_the_stop_token() {
    let (steps, result) = run(&[1, 2], 5, false, &[7, 8, 100_001, 9]);

    assert_eq!(
        steps,
        vec![
            Step::Decode { token: 7, position: 2 },
            Step::Decode { token: 8, position: 3 },
            Step::Finish,
        ]
    );
    assert_eq!(result.tokens, vec![7, 8]);
    assert_eq!(result.finish_reason, FinishReason::Stop);
    assert_eq!(
        result.stats.output_token_sha256,
        "1cfabff28e4788390030eddd710ec196f96ce7f238232080522f0d1e6a70024e"
    );
}

#[test]
fn stop_token_in_the_last_place_still_stops() {
    let (_, result) = run(&[1], 2, false, &[7, 100_001]);

    assert_eq!(result.tokens, vec![7]);
    assert_eq!(result.finish_reason, FinishReason::Stop);
}

#[test]
fn ignored_stop_token_gives_the_full_length() {
    let (_, result) = run(&[1], 3, true, &[100_001, 7, 100_001]);

    assert_eq!(result.tokens, vec![100_001, 7, 100_001]);
    assert_eq!(result.finish_reason, FinishReason::Length);
}

#[test]
fn immediate_stop_gives_nothing() {
    let (steps, result) = run(&[1], 3, false, &[100_001]);

    assert_eq!(steps, vec![Step::Finish]);
    assert!(result.tokens.is_empty());
    assert_eq!(result.stats.generated_tokens, 0);
    assert_eq!(
        result.stats.output_token_sha256,
        "e3b0c44298fc1c149afbf4c8996fb92427ae41e4649b934ca495991b7852b855"
    );
}

#[test]
fn single_token_request_ends_at_once() {
    let (steps, result) = run(&[1, 2], 1, false, &[9]);

    assert_eq!(steps, vec![Step::Finish]);
    assert_eq!(result.tokens, vec![9]);
    assert_eq!(result.finish_reason, FinishReason::Length);
}

#[test]
fn report_names_model_devices_and_routes() {
    let mut generation = match start(&[1, 2, 3, 4], 1, false) {
        Ok(generation) => generation,
        Err(error) => panic!("unexpected error: {error:?}"),
    };
    generation.record_routes(RouteCounts { local: 3, remote: 5 });
    generation.record_routes(RouteCounts { local: 4, remote: 0 });
    assert_eq!(generation.stats().host_dispatch_local_routes, 7);
    assert_eq!(generation.stats().generated_tokens, 0);
    assert!(generation.generated().is_empty());
    assert_eq!(generation.accept(6), Step::Finish);
    assert_eq!(generation.generated(), [6]);
    let stats = generation.into_result().stats;

    assert_eq!(stats.model_path, PathBuf::from("/models/lite"));
    assert_eq!(stats.device_ordinals, vec![3, 5]);
    assert_eq!(stats.ep_size, 2);
    assert_eq!(stats.prompt_tokens, 4);
    assert_eq!(stats.generated_tokens, 1);
    assert_eq!(stats.host_dispatch_local_routes, 7);
    assert_eq!(stats.host_dispatch_remote_routes, 5);
    assert_eq!(stats.output_token_sha256.len(), 64);
}

#[test]
fn default_report_is_empty() {
    let mut stats = GenerationStats::default();
    assert_eq!(stats.host_dispatch_local_routes, 0);
    assert_eq!(stats.output_token_sha256, "");

    stats.record_routes(RouteCounts { local: 1, remote: 2 });

    assert_eq!(stats.host_dispatch_local_routes, 1);
    assert_eq!(stats.host_dispatch_remote_routes, 2);
}

/// All routes that a generation counts, where each pass counts all routes of
/// the tokens that it reads.
fn counted(prompt: &[u32], max_new_tokens: usize, stream: &[u32]) -> (usize, GenerationResult) {
    let config = config();
    let mut generation = match start(prompt, max_new_tokens, false) {
        Ok(generation) => generation,
        Err(error) => panic!("unexpected error: {error:?}"),
    };
    let mut tokens = prompt.len();
    for token in stream {
        for layer in 0..config.num_hidden_layers {
            let routes = if config.is_moe_layer(layer) {
                tokens * config.num_experts_per_token
            } else {
                0
            };
            generation.record_routes(RouteCounts { local: routes / 2, remote: routes - routes / 2 });
        }
        if generation.accept(*token) == Step::Finish {
            break;
        }
        tokens = 1;
    }
    let result = generation.into_result();
    let stats = &result.stats;
    (stats.host_dispatch_local_routes + stats.host_dispatch_remote_routes, result)
}

#[test]
fn routes_of_a_generation_add_up() {
    let (routes, result) = counted(&[1, 2, 3], 4, &[5, 6, 7, 8, 9]);
    assert_eq!(result.finish_reason, FinishReason::Length);
    assert_eq!(routes, 2 * (3 + 4 - 1));

    let (routes, result) = counted(&[1, 2, 3], 4, &[5, 6, 100_001]);
    assert_eq!(result.finish_reason, FinishReason::Stop);
    assert_eq!(routes, 2 * (3 + 2));
}

#[test]
fn asking_for_more_tokens_adds_tokens_at_the_end() {
    let stream = [5, 6, 7, 100_001, 8];

    let (_, short) = run(&[1], 2, false, &stream);
    let (_, long) = run(&[1], 3, false, &stream);
    let (_, stopped) = run(&[1], 4, false, &stream);
    let (_, longer) = run(&[1], 5, false, &stream);

    assert_eq!(short.tokens, long.tokens[..2]);
    assert_eq!(long.tokens, stopped.tokens);
    assert_eq!(stopped.finish_reason, FinishReason::Stop);
    assert_eq!(longer.tokens, stopped.tokens);
    assert_eq!(longer.finish_reason, FinishReason::Stop);
}

#[test]
fn passes_read_on_from_the_prompt() {
    let (steps, _) = run(&[1, 2, 3], 4, false, &[5, 6, 7, 8]);

    assert_eq!(
        steps,
        vec![
            Step::Decode { token: 5, position: 3 },
            Step::Decode { token: 6, position: 4 },
            Step::Decode { token: 7, position: 5 },
            Step::Finish,
        ]
    );
}
