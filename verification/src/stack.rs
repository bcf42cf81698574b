//! The configuration of the local stack: its rings of upload slots, its services, and the
//! speech-recognition runtime that they use.

use crate::text::{decimal, decimal_chars, string_of, texts};
use std::path::PathBuf;
use vstd::prelude::*;

verus! {

/// The size of a ring of upload slots, unless another is configured.
pub const DEFAULT_UPLOAD_RESPONSE_RING_BYTES: usize = 67_108_864;

/// The number of upload streams, unless another is configured.
pub const DEFAULT_UPLOAD_RESPONSE_NUM_STREAMS: usize = 2;

/// The fewest slots that a stream has.
pub const MIN_SLOTS_PER_STREAM: usize = 3;

/// The larger of two numbers.
pub open spec fn larger(x: int, y: int) -> int {
    if x < y {
        y
    } else {
        x
    }
}

/// The number, or the largest that a machine word holds.
pub open spec fn saturated(x: int) -> int {
    if x > usize::MAX {
        usize::MAX as int
    } else {
        x
    }
}

/// The number of slots of `slot_bytes` bytes that hold a ring of `ring_bytes` bytes, rounded
/// up to whole slots. A slot has at least one byte and a ring at least one slot.
pub open spec fn slots_needed(ring_bytes: int, slot_bytes: int) -> int {
    let slot = larger(slot_bytes, 1);
    saturated(larger(ring_bytes, slot) + slot - 1) / slot
}

/// The number of slots that hold a ring.
pub fn slots_for_ring_bytes(ring_bytes: usize, slot_bytes: usize) -> (slots: usize)
    ensures
        slots == slots_needed(ring_bytes as int, slot_bytes as int),
{
    let slot = if slot_bytes < 1 {
        1
    } else {
        slot_bytes
    };
    let ring = if ring_bytes < slot {
        slot
    } else {
        ring_bytes
    };
    ring.saturating_add(slot - 1) / slot
}

/// The slots hold the whole ring, and one slot fewer would not, unless rounding up leaves the
/// range of a machine word.
pub proof fn law_slots_round_up(ring_bytes: usize, slot_bytes: usize)
    requires
        larger(ring_bytes as int, slot_bytes as int) + slot_bytes - 1 <= usize::MAX,
    ensures
        slots_needed(ring_bytes as int, slot_bytes as int) >= 1,
        slots_needed(ring_bytes as int, slot_bytes as int) * larger(slot_bytes as int, 1)
            >= ring_bytes,
        (slots_needed(ring_bytes as int, slot_bytes as int) - 1) * larger(slot_bytes as int, 1)
            < larger(ring_bytes as int, 1),
{
    let slot = larger(slot_bytes as int, 1);
    let ring = larger(ring_bytes as int, slot);
    let slots = slots_needed(ring_bytes as int, slot_bytes as int);
    let sum = ring + slot - 1;
    assert(slots == sum / slot);
    assert(slots * slot <= sum < slots * slot + slot) by (nonlinear_arith)
        requires
            slots == sum / slot,
            slot >= 1,
    ;
    assert((slots - 1) * slot == slots * slot - slot) by (nonlinear_arith);
    assert(slots >= 1) by (nonlinear_arith)
        requires
            slots * slot > sum - slot,
            sum - slot >= 0,
            slot >= 1,
    ;
    if ring_bytes < slot {
        assert(sum == 2 * slot - 1);
        assert(slots == 1) by (nonlinear_arith)
            requires
                slots * slot <= 2 * slot - 1,
                slot >= 1,
                slots >= 1,
        ;
    }
}

/// The configuration of the stack.
#[derive(Debug)]
pub struct Config {
    pub model_dir: PathBuf,
    pub mlx_transcribe_bin: Option<PathBuf>,
    pub av_port: u16,
    pub av_resolve_mode: String,
    pub asr_ingress_port: u16,
    pub rust_log: String,
    pub cohere_max_new_tokens: usize,
    pub upload_response_num_streams: usize,
    pub upload_response_slot_size_kb: usize,
    pub upload_response_ring_bytes: usize,
    pub upload_response_slots_per_stream: Option<usize>,
    pub upload_response_timeout_ms: u64,
    pub upload_response_max_inflight: usize,
    pub log_transcripts: bool,
}

/// Why a configuration cannot be run.
#[derive(Debug, Clone, Copy, PartialEq, Eq, Structural)]
pub enum ConfigError {
    /// The two services share a port.
    SamePort,
    /// There is no upload stream.
    NoStreams,
    /// No request may be in flight.
    NoInflight,
}

impl ConfigError {
    /// The message of the error.
    pub open spec fn spec_message(self) -> Seq<char> {
        match self {
            ConfigError::SamePort => "av-ingest and ASR must use different ports"@,
            ConfigError::NoStreams => "UPLOAD_RESPONSE_NUM_STREAMS must be greater than zero"@,
            ConfigError::NoInflight => "UPLOAD_RESPONSE_MAX_INFLIGHT must be greater than zero"@,
        }
    }

    /// The message of the error.
    pub fn message(&self) -> (message: String)
        ensures
            message@ == self.spec_message(),
    {
        match self {
            ConfigError::SamePort => "av-ingest and ASR must use different ports".to_owned(),
            ConfigError::NoStreams =>
                "UPLOAD_RESPONSE_NUM_STREAMS must be greater than zero".to_owned(),
            ConfigError::NoInflight =>
                "UPLOAD_RESPONSE_MAX_INFLIGHT must be greater than zero".to_owned(),
        }
    }
}

/// The size in bytes of a slot of so many kilobytes: at least one byte.
pub open spec fn slot_bytes(slot_size_kb: int) -> int {
    larger(saturated(slot_size_kb * 1024), 1)
}

/// The slots of a stream: as many as configured, or else as the ring needs, and at least the
/// fewest.
pub open spec fn slots_per_stream(configured: Option<usize>, ring_bytes: int, slot_size_kb: int) -> int {
    larger(
        match configured {
            Some(slots) => slots as int,
            None => slots_needed(ring_bytes, slot_bytes(slot_size_kb)),
        },
        MIN_SLOTS_PER_STREAM as int,
    )
}

/// The size in bytes of a slot of so many kilobytes.
pub fn slot_size_in_bytes(slot_size_kb: usize) -> (bytes: usize)
    ensures
        bytes == slot_bytes(slot_size_kb as int),
{
    let bytes = match slot_size_kb.checked_mul(1024) {
        Some(bytes) => bytes,
        None => usize::MAX,
    };
    if bytes < 1 {
        1
    } else {
        bytes
    }
}

/// The slots of a stream.
pub fn stream_slots(configured: Option<usize>, ring_bytes: usize, slot_size_kb: usize) -> (slots:
    usize)
    ensures
        slots == slots_per_stream(configured, ring_bytes as int, slot_size_kb as int),
{
    let slots = match configured {
        Some(slots) => slots,
        None => slots_for_ring_bytes(ring_bytes, slot_size_in_bytes(slot_size_kb)),
    };
    if slots < MIN_SLOTS_PER_STREAM {
        MIN_SLOTS_PER_STREAM
    } else {
        slots
    }
}

impl Config {
    /// The size in bytes of an upload slot.
    pub fn upload_response_slot_bytes(&self) -> (bytes: usize)
        ensures
            bytes == slot_bytes(self.upload_response_slot_size_kb as int),
    {
        slot_size_in_bytes(self.upload_response_slot_size_kb)
    }

    /// The slots that a stream of this configuration has.
    pub open spec fn stream_slots(self) -> int {
        slots_per_stream(
            self.upload_response_slots_per_stream,
            self.upload_response_ring_bytes as int,
            self.upload_response_slot_size_kb as int,
        )
    }

    /// The number of slots of an upload stream.
    pub fn upload_response_slots_per_stream(&self) -> (slots: usize)
        ensures
            slots == self.stream_slots(),
    {
        stream_slots(
            self.upload_response_slots_per_stream,
            self.upload_response_ring_bytes,
            self.upload_response_slot_size_kb,
        )
    }

    /// The number of bytes that the slots of an upload stream hold.
    pub fn upload_response_effective_ring_bytes(&self) -> (bytes: usize)
        ensures
            bytes == saturated(
                self.stream_slots() * slot_bytes(self.upload_response_slot_size_kb as int),
            ),
    {
        let slots = self.upload_response_slots_per_stream();
        let bytes = self.upload_response_slot_bytes();
        match slots.checked_mul(bytes) {
            Some(total) => total,
            None => usize::MAX,
        }
    }

    /// Whether the configuration can be run. Of several faults the first is told: a shared
    /// port, then no stream, then no request in flight.
    pub fn validate(&self) -> (valid: Result<(), ConfigError>)
        ensures
            valid == if self.av_port == self.asr_ingress_port {
                Err(ConfigError::SamePort)
            } else if self.upload_response_num_streams == 0 {
                Err(ConfigError::NoStreams)
            } else if self.upload_response_max_inflight == 0 {
                Err(ConfigError::NoInflight)
            } else {
                Ok(())
            },
    {
        if self.av_port == self.asr_ingress_port {
            Err(ConfigError::SamePort)
        } else if self.upload_response_num_streams == 0 {
            Err(ConfigError::NoStreams)
        } else if self.upload_response_max_inflight == 0 {
            Err(ConfigError::NoInflight)
        } else {
            Ok(())
        }
    }
}

/// The part that a speech-recognition service plays.
#[derive(Debug, Clone, Copy, PartialEq, Eq, Structural)]
pub enum AsrRole {
    Ingress,
    Decoder,
    Worker,
}

/// The configuration of a speech-recognition service.
#[derive(Debug)]
pub struct AsrConfig {
    pub role: AsrRole,
    pub rust_log: String,
    pub port: u16,
    pub enable_h3: bool,
    pub model_dir: Option<PathBuf>,
    pub device_ids: Vec<usize>,
    pub onnx_sessions: usize,
    pub cohere_max_new_tokens: usize,
    pub upload_response_num_streams: usize,
    pub upload_response_slot_size_kb: usize,
    pub upload_response_slots_per_stream: usize,
    pub upload_response_timeout_ms: u64,
    pub upload_response_watch_poll_ms: u64,
    pub upload_response_worker_poll_ms: u64,
    pub upload_response_max_inflight: usize,
    pub upload_response_worker_id: String,
    pub upload_response_ingress_urls: Vec<String>,
    pub upload_response_discovery_interval_ms: u64,
    pub upload_response_insecure_tls: bool,
    pub upload_response_worker_heartbeat_interval_ms: u64,
    pub upload_response_worker_ttl_ms: u64,
}

impl AsrConfig {
    /// The settings that every service of a local stack has.
    pub open spec fn is_local(self) -> bool {
        &&& !self.enable_h3
        &&& self.upload_response_watch_poll_ms == 1
        &&& self.upload_response_worker_poll_ms == 2
        &&& self.upload_response_discovery_interval_ms == 2_000
        &&& self.upload_response_insecure_tls
        &&& self.upload_response_worker_heartbeat_interval_ms == 1_000
        &&& self.upload_response_worker_ttl_ms == 5_000
    }

    /// The settings that a service takes over from the stack's configuration.
    pub open spec fn follows(self, config: Config) -> bool {
        &&& self.is_local()
        &&& self.rust_log@ == config.rust_log@
        &&& self.device_ids@ == Seq::<usize>::empty()
        &&& self.onnx_sessions == 1
        &&& self.cohere_max_new_tokens == config.cohere_max_new_tokens
        &&& self.upload_response_num_streams == config.upload_response_num_streams
        &&& self.upload_response_slot_size_kb == config.upload_response_slot_size_kb
        &&& self.upload_response_slots_per_stream == config.stream_slots()
        &&& self.upload_response_timeout_ms == config.upload_response_timeout_ms
        &&& self.upload_response_max_inflight == config.upload_response_max_inflight
    }
}

/// Configures a speech-recognition service of the stack.
pub fn asr_config(
    config: &Config,
    role: AsrRole,
    port: u16,
    worker_id: &str,
    ingress_urls: Vec<String>,
    model_dir: Option<PathBuf>,
) -> (service: AsrConfig)
    ensures
        service.follows(*config),
        service.role == role,
        service.port == port,
        service.upload_response_worker_id@ == worker_id@,
        service.upload_response_ingress_urls == ingress_urls,
        service.model_dir == model_dir,
{
    AsrConfig {
        role,
        rust_log: config.rust_log.clone(),
        port,
        enable_h3: false,
        model_dir,
        device_ids: Vec::new(),
        onnx_sessions: 1,
        cohere_max_new_tokens: config.cohere_max_new_tokens,
        upload_response_num_streams: config.upload_response_num_streams,
        upload_response_slot_size_kb: config.upload_response_slot_size_kb,
        upload_response_slots_per_stream: config.upload_response_slots_per_stream(),
        upload_response_timeout_ms: config.upload_response_timeout_ms,
        upload_response_watch_poll_ms: 1,
        upload_response_worker_poll_ms: 2,
        upload_response_max_inflight: config.upload_response_max_inflight,
        upload_response_worker_id: worker_id.to_owned(),
        upload_response_ingress_urls: ingress_urls,
        upload_response_discovery_interval_ms: 2_000,
        upload_response_insecure_tls: true,
        upload_response_worker_heartbeat_interval_ms: 1_000,
        upload_response_worker_ttl_ms: 5_000,
    }
}

/// The speech-recognition services of a local stack.
#[derive(Debug)]
pub struct LocalAsr {
    pub ingress: AsrConfig,
    pub decoder: AsrConfig,
    pub worker: AsrConfig,
}

/// Configures the speech-recognition services of the stack: an ingress on its port, a decoder,
/// and a worker with the model.
pub fn local_asr(config: &Config) -> (services: LocalAsr)
    ensures
        services.ingress.follows(*config),
        services.ingress.role == AsrRole::Ingress,
        services.ingress.port == config.asr_ingress_port,
        services.ingress.upload_response_worker_id@ == "asr-api-ingress-local"@,
        services.ingress.upload_response_ingress_urls@ == Seq::<String>::empty(),
        services.ingress.model_dir is None,
        services.decoder.follows(*config),
        services.decoder.role == AsrRole::Decoder,
        services.decoder.port == 0,
        services.decoder.upload_response_worker_id@ == "asr-api-decoder-local"@,
        services.decoder.upload_response_ingress_urls@ == Seq::<String>::empty(),
        services.decoder.model_dir is None,
        services.worker.follows(*config),
        services.worker.role == AsrRole::Worker,
        services.worker.port == 0,
        services.worker.upload_response_worker_id@ == "asr-api-worker-local-0"@,
        services.worker.upload_response_ingress_urls@ == Seq::<String>::empty(),
        services.worker.model_dir == Some(config.model_dir),
{
    LocalAsr {
        ingress: asr_config(
            config,
            AsrRole::Ingress,
            config.asr_ingress_port,
            "asr-api-ingress-local",
            Vec::new(),
            None,
        ),
        decoder: asr_config(config, AsrRole::Decoder, 0, "asr-api-decoder-local", Vec::new(), None),
        worker: asr_config(
            config,
            AsrRole::Worker,
            0,
            "asr-api-worker-local-0",
            Vec::new(),
            Some(config.model_dir.clone()),
        ),
    }
}

/// The position of the first file that is there.
pub open spec fn first_present(present: Seq<bool>) -> Option<int>
    decreases present.len(),
{
    if present.len() == 0 {
        None
    } else {
        match first_present(present.drop_last()) {
            Some(at) => Some(at),
            None => if present.last() {
                Some(present.len() - 1)
            } else {
                None
            },
        }
    }
}

fn find_present(present: &[bool]) -> (found: Option<usize>)
    ensures
        match found {
            Some(at) => first_present(present@) == Some(at as int) && at < present@.len(),
            None => first_present(present@) is None,
        },
{
    let mut found: Option<usize> = None;
    for i in 0..present.len()
        invariant
            match found {
                Some(at) => first_present(present@.take(i as int)) == Some(at as int) && at < i,
                None => first_present(present@.take(i as int)) is None,
            },
    {
        assert(present@.take(i + 1).drop_last() =~= present@.take(i as int));
        if found.is_none() && present[i] {
            found = Some(i);
        }
    }
    assert(present@.take(present@.len() as int) =~= present@);
    found
}

/// The first file that is there is there, and none before it is.
pub proof fn law_first_present(present: Seq<bool>)
    ensures
        match first_present(present) {
            Some(at) => 0 <= at < present.len() && present[at] && forall|j: int|
                0 <= j < at ==> !(#[trigger] present[j]),
            None => forall|j: int| 0 <= j < present.len() ==> !(#[trigger] present[j]),
        },
    decreases present.len(),
{
    if present.len() > 0 {
        let before = present.drop_last();
        law_first_present(before);
        assert forall|j: int| 0 <= j < before.len() implies before[j] == #[trigger] present[j] by {}
    }
}

/// The path of the runtime in a sibling checkout, from the directory that the checkout is
/// beside.
pub fn runtime_path() -> (path: String)
    ensures
        path@ == "../asr-api/apple/.build/release/asr-mlx-transcribe"@,
{
    "../asr-api/apple/.build/release/asr-mlx-transcribe".to_owned()
}

/// The paths, from the build directory, at which a build leaves the Metal library, in the
/// order in which they are tried.
pub fn metallib_paths() -> (paths: Vec<String>)
    ensures
        texts(paths@) == seq![
            "mlx-metal/mlx.metallib"@,
            "arm64-apple-macosx/debug/mlx.metallib"@,
        ],
{
    let mut paths: Vec<String> = Vec::new();
    paths.push("mlx-metal/mlx.metallib".to_owned());
    paths.push("arm64-apple-macosx/debug/mlx.metallib".to_owned());
    assert(texts(paths@) =~= seq![
        "mlx-metal/mlx.metallib"@,
        "arm64-apple-macosx/debug/mlx.metallib"@,
    ]);
    paths
}

/// Where the runtime is taken from.
#[derive(Debug, Clone, Copy, PartialEq, Eq, Structural)]
pub enum RuntimeChoice {
    /// The configured path.
    Configured,
    /// The candidate at this position.
    Candidate(usize),
}

/// How the runtime's Metal library gets beside it.
#[derive(Debug, Clone, Copy, PartialEq, Eq, Structural)]
pub enum MetallibPlan {
    /// It is there already.
    Installed,
    /// The candidate at this position is copied.
    CopyCandidate(usize),
}

/// Why the runtime cannot be used.
#[derive(Debug, Clone, Copy, PartialEq, Eq, Structural)]
pub enum RuntimeError {
    /// The configured runtime is not there.
    ConfiguredMissing,
    /// No candidate for the runtime is there.
    NotFound,
    /// The runtime's path has no directory.
    NoParent,
    /// The runtime's directory is not inside a build directory.
    NoBuildDirectory,
    /// No candidate for the Metal library is there.
    MetallibNotFound,
}

/// Chooses the runtime: the configured one, which then has to be there, or else the first
/// candidate that is. `configured` tells whether a configured runtime is there.
pub fn resolve_mlx_transcribe_bin(configured: Option<bool>, candidates: &[bool]) -> (choice: Result<
    RuntimeChoice,
    RuntimeError,
>)
    ensures
        choice == match configured {
            Some(present) => if present {
                Ok(RuntimeChoice::Configured)
            } else {
                Err(RuntimeError::ConfiguredMissing)
            },
            None => match first_present(candidates@) {
                Some(at) => Ok(RuntimeChoice::Candidate(at as usize)),
                None => Err(RuntimeError::NotFound),
            },
        },
{
    match configured {
        Some(present) => if present {
            Ok(RuntimeChoice::Configured)
        } else {
            Err(RuntimeError::ConfiguredMissing)
        },
        None => match find_present(candidates) {
            Some(at) => Ok(RuntimeChoice::Candidate(at)),
            None => Err(RuntimeError::NotFound),
        },
    }
}

/// A file that may be the runtime, and whether it is there.
#[derive(Debug)]
pub struct RuntimeFile {
    pub path: PathBuf,
    pub present: bool,
}

/// Which of several files are there.
pub open spec fn presence(files: Seq<RuntimeFile>) -> Seq<bool> {
    files.map_values(|file: RuntimeFile| file.present)
}

/// The runtime: the configured one, which then has to be there, or else the first candidate
/// that is.
pub open spec fn runtime_among(
    configured: Option<RuntimeFile>,
    candidates: Seq<RuntimeFile>,
) -> Result<PathBuf, RuntimeError> {
    match configured {
        Some(file) => if file.present {
            Ok(file.path)
        } else {
            Err(RuntimeError::ConfiguredMissing)
        },
        None => match first_present(presence(candidates)) {
            Some(at) => Ok(candidates[at].path),
            None => Err(RuntimeError::NotFound),
        },
    }
}

/// Finds the runtime among the configured file and the candidates.
pub fn find_runtime(configured: Option<RuntimeFile>, candidates: &Vec<RuntimeFile>) -> (runtime:
    Result<PathBuf, RuntimeError>)
    ensures
        runtime == runtime_among(configured, candidates@),
{
    let mut present: Vec<bool> = Vec::new();
    for i in 0..candidates.len()
        invariant
            present@ =~= presence(candidates@).take(i as int),
    {
        present.push(candidates[i].present);
    }
    assert(present@ =~= presence(candidates@));
    proof {
        law_first_present(present@);
    }
    let configured_present = match &configured {
        Some(file) => Some(file.present),
        None => None,
    };
    match resolve_mlx_transcribe_bin(configured_present, present.as_slice()) {
        Ok(RuntimeChoice::Candidate(at)) => Ok(candidates[at].path.clone()),
        Ok(RuntimeChoice::Configured) => match configured {
            Some(file) => Ok(file.path),
            None => Err(RuntimeError::NotFound),
        },
        Err(error) => Err(error),
    }
}

/// Decides how the Metal library gets beside the runtime, given whether the runtime's path has
/// a directory, whether the library is in it, whether that directory has a parent, and which
/// of the candidates are there.
pub fn ensure_mlx_metallib(
    has_directory: bool,
    installed: bool,
    has_build_directory: bool,
    candidates: &[bool],
) -> (plan: Result<MetallibPlan, RuntimeError>)
    ensures
        plan == if !has_directory {
            Err(RuntimeError::NoParent)
        } else if installed {
            Ok(MetallibPlan::Installed)
        } else if !has_build_directory {
            Err(RuntimeError::NoBuildDirectory)
        } else {
            match first_present(candidates@) {
                Some(at) => Ok(MetallibPlan::CopyCandidate(at as usize)),
                None => Err(RuntimeError::MetallibNotFound),
            }
        },
{
    if !has_directory {
        Err(RuntimeError::NoParent)
    } else if installed {
        Ok(MetallibPlan::Installed)
    } else if !has_build_directory {
        Err(RuntimeError::NoBuildDirectory)
    } else {
        match find_present(candidates) {
            Some(at) => Ok(MetallibPlan::CopyCandidate(at)),
            None => Err(RuntimeError::MetallibNotFound),
        }
    }
}

/// The value of an environment variable.
#[derive(Debug, PartialEq)]
pub enum EnvValue {
    Text(String),
    Path(PathBuf),
}

/// The mathematical value of an `EnvValue`.
pub enum EnvSetting {
    Text(Seq<char>),
    Path(PathBuf),
}

impl View for EnvValue {
    type V = EnvSetting;

    open spec fn view(&self) -> EnvSetting {
        match self {
            EnvValue::Text(text) => EnvSetting::Text(text@),
            EnvValue::Path(path) => EnvSetting::Path(*path),
        }
    }
}

/// The values of a list of environment variables.
pub open spec fn settings_of(settings: Seq<(String, EnvValue)>) -> Seq<(Seq<char>, EnvSetting)> {
    settings.map_values(|setting: (String, EnvValue)| (setting.0@, setting.1@))
}

/// The environment in which the services of the stack run with a runtime.
pub open spec fn process_env(config: Config, runtime: PathBuf) -> Seq<(Seq<char>, EnvSetting)> {
    seq![
        ("ASR_COHERE_BACKEND"@, EnvSetting::Text("mlx"@)),
        ("ASR_MLX_TRANSCRIBE_BIN"@, EnvSetting::Path(runtime)),
        ("AV_INGEST_PROXY_LOCAL_HTTP"@, EnvSetting::Text("1"@)),
        ("AV_INGEST_PROXY_PORT"@, EnvSetting::Text(decimal(config.av_port as nat))),
        ("AV_INGEST_PROXY_RESOLVE_MODE"@, EnvSetting::Text(config.av_resolve_mode@)),
    ]
}

/// The variable that tells the services where the runtime is.
pub fn runtime_setting(runtime: PathBuf) -> (setting: (String, EnvValue))
    ensures
        setting.0@ == "ASR_MLX_TRANSCRIBE_BIN"@,
        setting.1@ == EnvSetting::Path(runtime),
{
    ("ASR_MLX_TRANSCRIBE_BIN".to_owned(), EnvValue::Path(runtime))
}

/// Decides on the environment in which the services of the stack run, given the runtime that
/// was found and how its Metal library gets beside it. Where there is no runtime, or no
/// library for it, that is the error and nothing is set.
pub fn configure_process_env(
    config: &Config,
    runtime: Result<PathBuf, RuntimeError>,
    library: Result<MetallibPlan, RuntimeError>,
) -> (settings: Result<Vec<(String, EnvValue)>, RuntimeError>)
    ensures
        match settings {
            Ok(found) => runtime is Ok && library is Ok && settings_of(found@) == process_env(
                *config,
                runtime->Ok_0,
            ),
            Err(error) => match runtime {
                Err(missing) => error == missing,
                Ok(_) => library == Err::<MetallibPlan, RuntimeError>(error),
            },
        },
{
    let runtime = match runtime {
        Ok(path) => path,
        Err(error) => {
            return Err(error);
        },
    };
    if let Err(error) = library {
        return Err(error);
    }
    let port = string_of(decimal_chars(config.av_port as u64).as_slice());
    let ghost path = runtime;
    let mut settings: Vec<(String, EnvValue)> = Vec::new();
    settings.push(("ASR_COHERE_BACKEND".to_owned(), EnvValue::Text("mlx".to_owned())));
    settings.push(runtime_setting(runtime));
    settings.push(("AV_INGEST_PROXY_LOCAL_HTTP".to_owned(), EnvValue::Text("1".to_owned())));
    settings.push(("AV_INGEST_PROXY_PORT".to_owned(), EnvValue::Text(port)));
    settings.push(
        (
            "AV_INGEST_PROXY_RESOLVE_MODE".to_owned(),
            EnvValue::Text(config.av_resolve_mode.clone()),
        ),
    );
    assert(settings_of(settings@) =~= process_env(*config, path));
    Ok(settings)
}

/// What is told of the end of a service: every end of a service ends the stack.
pub fn service_exit_message(name: &str, result: &Result<(), String>) -> (message: String)
    ensures
        message@ == match *result {
            Ok(_) => name@ + " exited"@,
            Err(error) => name@ + " failed: "@ + error@,
        },
{
    let mut message = name.to_owned();
    match result {
        Ok(_) => message.append(" exited"),
        Err(error) => {
            message.append(" failed: ");
            message.append(error.as_str());
        },
    }
    message
}

/// A stream's slots hold at least the configured ring, where the slots are derived from it and
/// the numbers stay in the range of a machine word.
pub proof fn law_effective_ring_covers_configured_ring(ring_bytes: usize, slot_size_kb: usize)
    requires
        larger(ring_bytes as int, slot_bytes(slot_size_kb as int)) + slot_bytes(slot_size_kb as int)
            - 1 <= usize::MAX,
    ensures
        slots_per_stream(None, ring_bytes as int, slot_size_kb as int) * slot_bytes(
            slot_size_kb as int,
        ) >= ring_bytes,
        slots_per_stream(None, ring_bytes as int, slot_size_kb as int) >= MIN_SLOTS_PER_STREAM,
{
    let slot = slot_bytes(slot_size_kb as int);
    law_slots_round_up(ring_bytes, slot as usize);
    let needed = slots_needed(ring_bytes as int, slot);
    let slots = slots_per_stream(None, ring_bytes as int, slot_size_kb as int);
    assert(slots * slot >= needed * slot) by (nonlinear_arith)
        requires
            slots >= needed,
            slot >= 1,
    ;
}

} // verus!
