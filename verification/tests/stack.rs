use media_research_stack::stack::{
    asr_config, configure_process_env, ensure_mlx_metallib, find_runtime, local_asr,
    metallib_paths, resolve_mlx_transcribe_bin, runtime_path, runtime_setting,
    service_exit_message, slots_for_ring_bytes, EnvValue, RuntimeFile, AsrRole, Config, ConfigError, MetallibPlan,
    RuntimeChoice, RuntimeError,
};
use std::path::PathBuf;

fn config() -> Config {
    Config {
        model_dir: PathBuf::from("model"),
        mlx_transcribe_bin: None,
        av_port: 8444,
        av_resolve_mode: "transcribe".to_string(),
        asr_ingress_port: 8443,
        rust_log: "debug".to_string(),
        cohere_max_new_tokens: 128,
        upload_response_num_streams: 2,
        upload_response_slot_size_kb: 32,
        upload_response_ring_bytes: 64 * 1024 * 1024,
        upload_response_slots_per_stream: None,
        upload_response_timeout_ms: 300_000,
        upload_response_max_inflight: 1,
        log_transcripts: false,
    }
}

#[test]
fn ring_size_rounds_up_to_whole_slots() {
    assert_eq!(slots_for_ring_bytes(65_537, 32_768), 3);
}

#[test]
fn slots_cover_the_ring() {
    assert_eq!(slots_for_ring_bytes(65_536, 32_768), 2);
    assert_eq!(slots_for_ring_bytes(0, 32_768), 1);
    assert_eq!(slots_for_ring_bytes(10, 0), 10);
    assert_eq!(slots_for_ring_bytes(usize::MAX, 2), usize::MAX / 2);
    assert_eq!(slots_for_ring_bytes(usize::MAX, usize::MAX), 1);
}

#[test]
fn ring_is_derived_from_the_slots() {
    let mut config = config();
    assert_eq!(config.upload_response_slot_bytes(), 32_768);
    assert_eq!(config.upload_response_slots_per_stream(), 2_048);
    assert_eq!(config.upload_response_effective_ring_bytes(), 67_108_864);
    config.upload_response_slots_per_stream = Some(1);
    assert_eq!(config.upload_response_slots_per_stream(), 3);
    config.upload_response_slots_per_stream = Some(9);
    assert_eq!(config.upload_response_effective_ring_bytes(), 9 * 32_768);
    config.upload_response_slot_size_kb = 0;
    assert_eq!(config.upload_response_slot_bytes(), 1);
    config.upload_response_slot_size_kb = usize::MAX;
    assert_eq!(config.upload_response_slot_bytes(), usize::MAX);
    assert_eq!(config.upload_response_effective_ring_bytes(), usize::MAX);
}

#[test]
fn configurations_are_checked() {
    let mut config = config();
    assert_eq!(config.validate(), Ok(()));
    config.upload_response_max_inflight = 0;
    assert_eq!(config.validate(), Err(ConfigError::NoInflight));
    config.upload_response_num_streams = 0;
    assert_eq!(config.validate(), Err(ConfigError::NoStreams));
    config.asr_ingress_port = 8444;
    assert_eq!(config.validate(), Err(ConfigError::SamePort));
    assert_eq!(
        ConfigError::SamePort.message(),
        "av-ingest and ASR must use different ports"
    );
    assert_eq!(
        ConfigError::NoStreams.message(),
        "UPLOAD_RESPONSE_NUM_STREAMS must be greater than zero"
    );
    assert_eq!(
        ConfigError::NoInflight.message(),
        "UPLOAD_RESPONSE_MAX_INFLIGHT must be greater than zero"
    );
}

#[test]
fn local_services_follow_the_configuration() {
    let services = local_asr(&config());
    assert_eq!(services.ingress.port, 8443);
    assert_eq!(services.ingress.upload_response_worker_id, "asr-api-ingress-local");
    assert_eq!(services.decoder.port, 0);
    assert_eq!(services.worker.model_dir, Some(PathBuf::from("model")));
    assert_eq!(services.worker.upload_response_slots_per_stream, 2_048);
    assert_eq!(services.worker.rust_log, "debug");
    let service = asr_config(
        &config(),
        AsrRole::Worker,
        7,
        "w",
        vec!["https://a.example".to_string()],
        None,
    );
    assert_eq!(service.port, 7);
    assert_eq!(service.upload_response_ingress_urls, vec!["https://a.example"]);
    assert_eq!(service.cohere_max_new_tokens, 128);
    assert_eq!(service.upload_response_timeout_ms, 300_000);
}

#[test]
fn process_environment_is_set() {
    let text = |value: &str| EnvValue::Text(value.to_string());
    for plan in [MetallibPlan::Installed, MetallibPlan::CopyCandidate(1)] {
        assert_eq!(
            configure_process_env(&config(), Ok(PathBuf::from("bin/asr")), Ok(plan)),
            Ok(vec![
                ("ASR_COHERE_BACKEND".to_string(), text("mlx")),
                (
                    "ASR_MLX_TRANSCRIBE_BIN".to_string(),
                    EnvValue::Path(PathBuf::from("bin/asr"))
                ),
                ("AV_INGEST_PROXY_LOCAL_HTTP".to_string(), text("1")),
                ("AV_INGEST_PROXY_PORT".to_string(), text("8444")),
                ("AV_INGEST_PROXY_RESOLVE_MODE".to_string(), text("transcribe")),
            ])
        );
    }
    assert_eq!(
        runtime_setting(PathBuf::from("r")),
        (
            "ASR_MLX_TRANSCRIBE_BIN".to_string(),
            EnvValue::Path(PathBuf::from("r"))
        )
    );
}

#[test]
fn nothing_is_set_without_a_runtime() {
    assert_eq!(
        configure_process_env(
            &config(),
            Err(RuntimeError::NotFound),
            Ok(MetallibPlan::Installed)
        ),
        Err(RuntimeError::NotFound)
    );
    assert_eq!(
        configure_process_env(
            &config(),
            Ok(PathBuf::from("r")),
            Err(RuntimeError::MetallibNotFound)
        ),
        Err(RuntimeError::MetallibNotFound)
    );
}

#[test]
fn runtime_is_found_among_files() {
    let file = |path: &str, present: bool| RuntimeFile {
        path: PathBuf::from(path),
        present,
    };
    let candidates = vec![file("a", false), file("b", true), file("c", true)];
    assert_eq!(find_runtime(None, &candidates), Ok(PathBuf::from("b")));
    assert_eq!(
        find_runtime(Some(file("x", true)), &candidates),
        Ok(PathBuf::from("x"))
    );
    assert_eq!(
        find_runtime(Some(file("x", false)), &candidates),
        Err(RuntimeError::ConfiguredMissing)
    );
    assert_eq!(find_runtime(None, &vec![]), Err(RuntimeError::NotFound));
}

#[test]
fn runtime_is_the_configured_one_or_the_first_candidate() {
    assert_eq!(resolve_mlx_transcribe_bin(Some(true), &[false]), Ok(RuntimeChoice::Configured));
    assert_eq!(
        resolve_mlx_transcribe_bin(Some(false), &[true]),
        Err(RuntimeError::ConfiguredMissing)
    );
    assert_eq!(
        resolve_mlx_transcribe_bin(None, &[false, true, true]),
        Ok(RuntimeChoice::Candidate(1))
    );
    assert_eq!(resolve_mlx_transcribe_bin(None, &[false]), Err(RuntimeError::NotFound));
}

#[test]
fn runtime_is_looked_for_in_a_sibling_checkout() {
    assert_eq!(runtime_path(), "../asr-api/apple/.build/release/asr-mlx-transcribe");
    assert_eq!(
        metallib_paths(),
        vec!["mlx-metal/mlx.metallib", "arm64-apple-macosx/debug/mlx.metallib"]
    );
}

#[test]
fn metal_library_is_put_beside_the_runtime() {
    assert_eq!(ensure_mlx_metallib(false, true, true, &[true]), Err(RuntimeError::NoParent));
    assert_eq!(ensure_mlx_metallib(true, true, false, &[]), Ok(MetallibPlan::Installed));
    assert_eq!(
        ensure_mlx_metallib(true, false, false, &[true]),
        Err(RuntimeError::NoBuildDirectory)
    );
    assert_eq!(
        ensure_mlx_metallib(true, false, true, &[false, true]),
        Ok(MetallibPlan::CopyCandidate(1))
    );
    assert_eq!(
        ensure_mlx_metallib(true, false, true, &[false, false]),
        Err(RuntimeError::MetallibNotFound)
    );
}

#[test]
fn every_end_of_a_service_is_told() {
    assert_eq!(service_exit_message("asr-local", &Ok(())), "asr-local exited");
    assert_eq!(
        service_exit_message("av-ingest", &Err("port in use".to_string())),
        "av-ingest failed: port in use"
    );
}
