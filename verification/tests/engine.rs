use std::path::PathBuf;

use deepseek_v2_lite::engine::{
    EngineLoadOptions, EngineOwnership, FinishReason, ModelInfo, Shutdown, ShutdownStep, Submission,
};

#[test]
fn default_load_options() {
    let options = EngineLoadOptions::default();

    assert!(options.enable_cuda_graph);
    assert!(!options.enable_prefill_profile);
    assert_eq!(options.device_ordinals, vec![0]);
    assert_eq!(options.seed, 42);
}

#[test]
fn model_info_can_be_copied() {
    let info = ModelInfo {
        id: "deepseek-v2-lite",
        display_name: "DeepSeek-V2-Lite".to_string(),
        model_path: PathBuf::from("/models/lite"),
        max_model_len: Some(4096),
    };

    let copy = info.clone();

    assert_eq!(copy.id, "deepseek-v2-lite");
    assert_eq!(copy.display_name, info.display_name);
    assert_eq!(copy.model_path, PathBuf::from("/models/lite"));
    assert_eq!(copy.max_model_len, Some(4096));
}

#[test]
fn finish_reasons_differ() {
    assert_ne!(FinishReason::Length, FinishReason::Stop);
    assert_ne!(FinishReason::Stop, FinishReason::Error);
}

#[test]
fn open_engine_takes_requests_until_shut_down() {
    let mut owned = EngineOwnership::new(true);
    assert_eq!(owned.submission(), Submission::Send);

    let shutdown = owned.shut_down(false);

    assert_eq!(shutdown, Shutdown { close_channel: true, join_thread: true });
    assert_eq!(owned.submission(), Submission::HandBack);
}

#[test]
fn engine_thread_does_not_wait_for_itself() {
    let mut owned = EngineOwnership::new(true);

    assert_eq!(owned.shut_down(true), Shutdown { close_channel: true, join_thread: false });
}

#[test]
fn engine_without_thread_only_closes_its_channel() {
    let mut owned = EngineOwnership::new(false);

    assert_eq!(owned.shut_down(false), Shutdown { close_channel: true, join_thread: false });
    assert_eq!(owned.shut_down(false), Shutdown { close_channel: false, join_thread: false });
}

#[test]
fn channel_is_closed_before_the_thread_is_waited_for() {
    let mut owned = EngineOwnership::new(true);

    let steps = owned.shut_down(false).steps();

    assert_eq!(steps, vec![ShutdownStep::CloseChannel, ShutdownStep::JoinThread]);
    assert!(owned.shut_down(false).steps().is_empty());
    assert_eq!(EngineOwnership::new(true).shut_down(true).steps(), vec![ShutdownStep::CloseChannel]);
}
