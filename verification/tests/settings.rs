use media_research_stack::settings::{
    asr_config, benchmark_settings, cache_wait_seconds, env_flag, env_flag_any,
    env_optional_usize, env_u64, env_usize, first_env, harness_asr, parse_device_ids,
    positive_env_usize, set_default_asr_backend, BenchmarkSettings, ServiceVariables,
    SettingError, SweepVariables,
};
use media_research_stack::stack::AsrRole;
use std::path::PathBuf;

fn text(value: &str) -> Option<String> {
    Some(value.to_string())
}

fn sweep_variables() -> SweepVariables {
    SweepVariables {
        cohere_backend: None,
        asr_concurrency: None,
        worker_instances: None,
        onnx_sessions: None,
        minimum_transcript_words: None,
        device_ids: None,
    }
}

fn service_variables() -> ServiceVariables {
    ServiceVariables {
        rust_log: None,
        max_new_tokens: vec![None, None],
        num_streams: None,
        slot_size_kb: None,
        ring_bytes: None,
        slots_per_stream: None,
        timeout_ms: vec![None, None],
        max_inflight: None,
    }
}

fn invalid(name: &str, value: &str) -> SettingError {
    SettingError::Invalid {
        name: name.to_string(),
        value: value.to_string(),
    }
}

#[test]
fn parses_empty_and_multiple_device_ids() {
    assert_eq!(parse_device_ids("").unwrap(), Vec::<usize>::new());
    assert_eq!(parse_device_ids("0, 2").unwrap(), vec![0, 2]);
    assert!(parse_device_ids("gpu").is_err());
}

#[test]
fn device_ids_name_the_first_bad_entry() {
    assert_eq!(parse_device_ids("1,, two ,-3"), Err("two".to_string()));
    assert_eq!(parse_device_ids(" , +4 ,"), Ok(vec![4]));
}

#[test]
fn flags_are_switched_on_by_five_values() {
    for value in ["1", "true", "TRUE", "yes", "YES"] {
        assert!(env_flag(&text(value)));
    }
    for value in ["", "0", "True", "on", " 1"] {
        assert!(!env_flag(&text(value)));
    }
    assert!(!env_flag(&None));
    assert!(env_flag_any(&vec![None, text("0"), text("yes")]));
    assert!(!env_flag_any(&vec![None, text("no")]));
    assert!(!env_flag_any(&vec![]));
}

#[test]
fn first_given_value_counts() {
    assert_eq!(first_env(&vec![None, text(" \t"), text(" x "), text("y")]), text(" x "));
    assert_eq!(first_env(&vec![None, text("")]), None);
}

#[test]
fn older_names_are_aliases() {
    assert_eq!(first_env(&vec![text(" "), text("old")]), text("old"));
    assert_eq!(first_env(&vec![text("new"), text("old")]), text("new"));
}

#[test]
fn numbers_are_read_from_variables() {
    assert_eq!(env_u64("N", &text("18446744073709551615"), 3), Ok(u64::MAX));
    assert_eq!(env_u64("N", &text("  "), 3), Ok(3));
    assert_eq!(env_u64("N", &None, 3), Ok(3));
    assert_eq!(env_u64("N", &text(" 4"), 3), Err(invalid("N", " 4")));
    assert_eq!(env_optional_usize("N", &text("5")), Ok(Some(5)));
    assert_eq!(env_optional_usize("N", &text("")), Ok(None));
    assert_eq!(env_usize("N", &None, 6), Ok(6));
    assert_eq!(env_usize("N", &text("x"), 6), Err(invalid("N", "x")));
    assert_eq!(positive_env_usize("N", &text("2"), 1), Ok(2));
    assert_eq!(
        positive_env_usize("N", &text("0"), 1),
        Err(SettingError::NotPositive { name: "N".to_string() })
    );
    assert_eq!(positive_env_usize("N", &text("-1"), 1), Err(invalid("N", "-1")));
}

#[test]
fn backend_has_a_default_for_each_platform() {
    assert_eq!(set_default_asr_backend(&None, true), text("mlx"));
    assert_eq!(set_default_asr_backend(&text(" "), false), text("onnx"));
    assert_eq!(set_default_asr_backend(&text("cuda"), true), None);
}

#[test]
fn benchmark_has_defaults() {
    assert_eq!(
        benchmark_settings(&sweep_variables(), false),
        Ok(BenchmarkSettings {
            backend: "onnx".to_string(),
            device_ids: vec![0],
            onnx_sessions: 1,
            asr_concurrency: 1,
            worker_instances: 1,
            minimum_transcript_words: 5,
        })
    );
    let on_macos = benchmark_settings(&sweep_variables(), true).unwrap();
    assert_eq!(on_macos.backend, "mlx");
    assert_eq!(on_macos.device_ids, Vec::<usize>::new());
}

#[test]
fn benchmark_takes_its_variables() {
    let variables = SweepVariables {
        cohere_backend: text(" ONNX "),
        asr_concurrency: text("4"),
        worker_instances: text("2"),
        onnx_sessions: text("3"),
        minimum_transcript_words: text("0"),
        device_ids: text("1,0"),
    };
    assert_eq!(
        benchmark_settings(&variables, true),
        Ok(BenchmarkSettings {
            backend: "onnx".to_string(),
            device_ids: vec![1, 0],
            onnx_sessions: 3,
            asr_concurrency: 4,
            worker_instances: 2,
            minimum_transcript_words: 0,
        })
    );
    let mut bad = sweep_variables();
    bad.worker_instances = text("0");
    assert_eq!(
        benchmark_settings(&bad, false),
        Err(SettingError::NotPositive {
            name: "MEDIA_RESEARCH_STACK_WORKER_INSTANCES".to_string()
        })
    );
    let mut bad = sweep_variables();
    bad.device_ids = text("0,gpu");
    assert_eq!(benchmark_settings(&bad, false), Err(invalid("ASR_DEVICE_IDS", "gpu")));
}

#[test]
fn services_have_defaults() {
    let settings = benchmark_settings(&sweep_variables(), false).unwrap();
    let config = asr_config(&service_variables(), &settings, AsrRole::Decoder, "d", None).unwrap();
    assert_eq!(config.role, AsrRole::Decoder);
    assert_eq!(config.rust_log, "info");
    assert_eq!(config.port, 0);
    assert_eq!(config.device_ids, vec![0]);
    assert_eq!(config.cohere_max_new_tokens, 384);
    assert_eq!(config.upload_response_num_streams, 2);
    assert_eq!(config.upload_response_slot_size_kb, 32);
    assert_eq!(config.upload_response_slots_per_stream, 2048);
    assert_eq!(config.upload_response_timeout_ms, 21_600_000);
    assert_eq!(config.upload_response_max_inflight, 1);
    assert_eq!(config.upload_response_worker_id, "d");
    assert_eq!(config.upload_response_watch_poll_ms, 1);
    assert_eq!(config.upload_response_worker_ttl_ms, 5_000);
    assert!(config.upload_response_insecure_tls);
    assert!(!config.enable_h3);
}

#[test]
fn services_take_their_variables() {
    let mut settings = benchmark_settings(&sweep_variables(), false).unwrap();
    settings.asr_concurrency = 5;
    let mut variables = service_variables();
    variables.max_new_tokens = vec![text("x"), text("9")];
    variables.ring_bytes = text("1");
    variables.timeout_ms = vec![text(""), text("70")];
    let config = asr_config(&variables, &settings, AsrRole::Ingress, "i", None).unwrap();
    assert_eq!(config.cohere_max_new_tokens, 384);
    assert_eq!(config.upload_response_num_streams, 5);
    assert_eq!(config.upload_response_max_inflight, 5);
    assert_eq!(config.upload_response_slots_per_stream, 3);
    assert_eq!(config.upload_response_timeout_ms, 70);
    variables.slots_per_stream = text("4");
    let config = asr_config(&variables, &settings, AsrRole::Ingress, "i", None).unwrap();
    assert_eq!(config.upload_response_slots_per_stream, 4);
    variables.max_inflight = text("many");
    assert_eq!(
        asr_config(&variables, &settings, AsrRole::Ingress, "i", None).unwrap_err(),
        invalid("UPLOAD_RESPONSE_MAX_INFLIGHT", "many")
    );
}

#[test]
fn harness_has_numbered_workers() {
    let mut settings = benchmark_settings(&sweep_variables(), false).unwrap();
    settings.worker_instances = 2;
    let harness = harness_asr(&service_variables(), &settings, &PathBuf::from("model")).unwrap();
    assert_eq!(harness.ingress.upload_response_worker_id, "media-research-ingress");
    assert_eq!(harness.decoder.role, AsrRole::Decoder);
    assert_eq!(harness.decoder.model_dir, None);
    assert_eq!(harness.workers.len(), 2);
    assert_eq!(harness.workers[1].upload_response_worker_id, "media-research-worker-1");
    assert_eq!(harness.workers[1].model_dir, Some(PathBuf::from("model")));
    let mut variables = service_variables();
    variables.ring_bytes = text("big");
    assert_eq!(
        harness_asr(&variables, &settings, &PathBuf::new()).unwrap_err(),
        invalid("UPLOAD_RESPONSE_RING_BYTES", "big")
    );
}

#[test]
fn required_cache_is_awaited_for_hours() {
    assert_eq!(cache_wait_seconds(&None, true), Ok(21_600));
    assert_eq!(cache_wait_seconds(&None, false), Ok(0));
    assert_eq!(cache_wait_seconds(&text("7"), true), Ok(7));
    assert_eq!(
        cache_wait_seconds(&text("soon"), false),
        Err(invalid("MEDIA_RESEARCH_STACK_CACHE_WAIT_SECS", "soon"))
    );
}
