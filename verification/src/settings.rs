//! Settings of a research sweep, read from the values of environment variables.

use crate::research_cache::text_of;
use crate::stack::{
    self, stream_slots, AsrConfig, AsrRole, DEFAULT_UPLOAD_RESPONSE_NUM_STREAMS,
    DEFAULT_UPLOAD_RESPONSE_RING_BYTES,
};
use crate::text::{
    self, chars_of, decimal_chars, parse_u64, parse_usize, same_text, split, string_of, to_lower_case, trim,
    Separator,
};
use std::path::PathBuf;
use vstd::prelude::*;

verus! {

/// The size in kilobytes of an upload slot of a sweep, unless another is set.
pub const DEFAULT_UPLOAD_RESPONSE_SLOT_SIZE_KB: usize = 32;

/// The cap on generated tokens of a sweep, unless another is set.
pub const DEFAULT_MAX_NEW_TOKENS: usize = 384;

/// The milliseconds that a request of a sweep may take, unless others are set.
pub const DEFAULT_TIMEOUT_MS: u64 = 21_600_000;

/// The seconds that a sweep waits for a required cache entry, unless others are set.
pub const DEFAULT_CACHE_WAIT_SECS: u64 = 21_600;

/// Whether a value switches a flag on.
pub open spec fn switches_on(value: Seq<char>) -> bool {
    ||| value == "1"@
    ||| value == "true"@
    ||| value == "TRUE"@
    ||| value == "yes"@
    ||| value == "YES"@
}

/// Whether the value of a variable switches its flag on. A variable that is not set does not.
pub fn env_flag(value: &Option<String>) -> (on: bool)
    ensures
        on == match *value {
            Some(text) => switches_on(text@),
            None => false,
        },
{
    match value {
        Some(text) => {
            let text = text.as_str();
            same_text(text, "1") || same_text(text, "true") || same_text(text, "TRUE") || same_text(
                text,
                "yes",
            ) || same_text(text, "YES")
        },
        None => false,
    }
}

/// Whether any of several variables switches its flag on.
pub fn env_flag_any(values: &Vec<Option<String>>) -> (on: bool)
    ensures
        on == exists|i: int|
            0 <= i < values@.len() && (#[trigger] values@[i]) is Some && switches_on(
                values@[i]->0@,
            ),
{
    for i in 0..values.len()
        invariant
            forall|j: int|
                0 <= j < i ==> !((#[trigger] values@[j]) is Some && switches_on(values@[j]->0@)),
    {
        if env_flag(&values[i]) {
            return true;
        }
    }
    false
}

/// Whether a text is nothing but white space.
pub open spec fn blank(value: Seq<char>) -> bool {
    text::trimmed(value).len() == 0
}

fn is_blank(value: &str) -> (found: bool)
    ensures
        found == blank(value@),
{
    let chars = chars_of(value);
    trim(chars.as_slice()).len() == 0
}

/// The value of a variable, where it is set and not blank.
pub open spec fn given(value: Option<Seq<char>>) -> Option<Seq<char>> {
    match value {
        Some(found) => if blank(found) {
            None
        } else {
            Some(found)
        },
        None => None,
    }
}

/// The first value that is set and not blank.
pub open spec fn first_given(values: Seq<Option<String>>) -> Option<Seq<char>>
    decreases values.len(),
{
    if values.len() == 0 {
        None
    } else {
        match first_given(values.drop_last()) {
            Some(value) => Some(value),
            None => given(text_of(values.last())),
        }
    }
}

/// The first of several variables' values that is set and not blank.
pub fn first_env(values: &Vec<Option<String>>) -> (found: Option<String>)
    ensures
        text_of(found) == first_given(values@),
{
    let mut found: Option<String> = None;
    for i in 0..values.len()
        invariant
            text_of(found) == first_given(values@.take(i as int)),
    {
        assert(values@.take(i + 1).drop_last() =~= values@.take(i as int));
        if found.is_none() {
            if let Some(value) = &values[i] {
                if !is_blank(value.as_str()) {
                    found = Some(value.clone());
                }
            }
        }
    }
    assert(values@.take(values@.len() as int) =~= values@);
    found
}

/// An older name of a variable is an alias: its value counts exactly where the newer name has
/// none or a blank one.
pub proof fn law_older_name_is_an_alias(newer: Option<String>, older: Option<String>)
    ensures
        first_given(seq![newer, older]) == match given(text_of(newer)) {
            Some(value) => Some(value),
            None => given(text_of(older)),
        },
{
    assert(seq![newer, older].drop_last() =~= seq![newer]);
    assert(seq![newer].drop_last() =~= Seq::<Option<String>>::empty());
    assert(first_given(Seq::<Option<String>>::empty()) is None);
    assert(first_given(seq![newer]) == given(text_of(newer)));
}

/// Why a setting cannot be used.
#[derive(Debug, PartialEq, Eq)]
pub enum SettingError {
    /// The value is no number of the setting's range.
    Invalid { name: String, value: String },
    /// The value has to be positive.
    NotPositive { name: String },
}

/// The mathematical value of a `SettingError`.
pub enum SettingFault {
    Invalid(Seq<char>, Seq<char>),
    NotPositive(Seq<char>),
}

impl View for SettingError {
    type V = SettingFault;

    open spec fn view(&self) -> SettingFault {
        match self {
            SettingError::Invalid { name, value } => SettingFault::Invalid(name@, value@),
            SettingError::NotPositive { name } => SettingFault::NotPositive(name@),
        }
    }
}

/// The number of a setting, of at most `max`: none where its value is absent or blank.
pub open spec fn number_setting(name: Seq<char>, value: Option<Seq<char>>, max: nat) -> Result<
    Option<nat>,
    SettingFault,
> {
    match given(value) {
        None => Ok(None),
        Some(found) => match text::unsigned_number(found, max) {
            Some(number) => Ok(Some(number)),
            None => Err(SettingFault::Invalid(name, found)),
        },
    }
}

/// The number of a setting, or else its default.
pub open spec fn number_or(
    name: Seq<char>,
    value: Option<Seq<char>>,
    max: nat,
    fallback: nat,
) -> Result<nat, SettingFault> {
    match number_setting(name, value, max) {
        Ok(Some(number)) => Ok(number),
        Ok(None) => Ok(fallback),
        Err(fault) => Err(fault),
    }
}

/// The number of a setting that has to be positive, or else its default.
pub open spec fn positive_number_or(
    name: Seq<char>,
    value: Option<Seq<char>>,
    max: nat,
    fallback: nat,
) -> Result<nat, SettingFault> {
    match number_or(name, value, max, fallback) {
        Ok(number) => if number > 0 {
            Ok(number)
        } else {
            Err(SettingFault::NotPositive(name))
        },
        Err(fault) => Err(fault),
    }
}

/// Reads an unsigned 64-bit setting.
pub fn env_u64(name: &str, value: &Option<String>, fallback: u64) -> (number: Result<
    u64,
    SettingError,
>)
    ensures
        match number {
            Ok(found) => number_or(name@, text_of(*value), u64::MAX as nat, fallback as nat) == Ok::<
                nat,
                SettingFault,
            >(found as nat),
            Err(error) => number_or(name@, text_of(*value), u64::MAX as nat, fallback as nat)
                == Err::<nat, SettingFault>(error@),
        },
{
    match value {
        Some(found) => if is_blank(found.as_str()) {
            Ok(fallback)
        } else {
            match parse_u64(chars_of(found.as_str()).as_slice()) {
                Some(number) => Ok(number),
                None => Err(SettingError::Invalid { name: name.to_owned(), value: found.clone() }),
            }
        },
        None => Ok(fallback),
    }
}

/// Reads a setting of the machine's word size, where it is given.
pub fn env_optional_usize(name: &str, value: &Option<String>) -> (number: Result<
    Option<usize>,
    SettingError,
>)
    ensures
        match number {
            Ok(Some(found)) => number_setting(name@, text_of(*value), usize::MAX as nat) == Ok::<
                Option<nat>,
                SettingFault,
            >(Some(found as nat)),
            Ok(None) => number_setting(name@, text_of(*value), usize::MAX as nat) == Ok::<
                Option<nat>,
                SettingFault,
            >(None),
            Err(error) => number_setting(name@, text_of(*value), usize::MAX as nat) == Err::<
                Option<nat>,
                SettingFault,
            >(error@),
        },
{
    match value {
        Some(found) => if is_blank(found.as_str()) {
            Ok(None)
        } else {
            match parse_usize(chars_of(found.as_str()).as_slice()) {
                Some(number) => Ok(Some(number)),
                None => Err(SettingError::Invalid { name: name.to_owned(), value: found.clone() }),
            }
        },
        None => Ok(None),
    }
}

/// Reads a setting of the machine's word size.
pub fn env_usize(name: &str, value: &Option<String>, fallback: usize) -> (number: Result<
    usize,
    SettingError,
>)
    ensures
        match number {
            Ok(found) => number_or(name@, text_of(*value), usize::MAX as nat, fallback as nat)
                == Ok::<nat, SettingFault>(found as nat),
            Err(error) => number_or(name@, text_of(*value), usize::MAX as nat, fallback as nat)
                == Err::<nat, SettingFault>(error@),
        },
{
    match env_optional_usize(name, value) {
        Ok(Some(number)) => Ok(number),
        Ok(None) => Ok(fallback),
        Err(error) => Err(error),
    }
}

/// Reads a setting of the machine's word size that has to be positive.
pub fn positive_env_usize(name: &str, value: &Option<String>, fallback: usize) -> (number: Result<
    usize,
    SettingError,
>)
    ensures
        match number {
            Ok(found) => positive_number_or(
                name@,
                text_of(*value),
                usize::MAX as nat,
                fallback as nat,
            ) == Ok::<nat, SettingFault>(found as nat),
            Err(error) => positive_number_or(
                name@,
                text_of(*value),
                usize::MAX as nat,
                fallback as nat,
            ) == Err::<nat, SettingFault>(error@),
        },
{
    match env_usize(name, value, fallback) {
        Ok(number) => if number > 0 {
            Ok(number)
        } else {
            Err(SettingError::NotPositive { name: name.to_owned() })
        },
        Err(error) => Err(error),
    }
}

/// The entries of a list that is separated by commas: its pieces, trimmed, without the empty
/// ones.
pub open spec fn comma_entries(value: Seq<char>) -> Seq<Seq<char>> {
    text::non_empty(
        text::pieces(value, Separator::Comma).map_values(
            |piece: Seq<char>| text::trimmed(piece),
        ),
    )
}

/// The numbers of a list of entries. The first entry that is no number makes it none.
pub open spec fn numbers_of(entries: Seq<Seq<char>>) -> Result<Seq<usize>, Seq<char>>
    decreases entries.len(),
{
    if entries.len() == 0 {
        Ok(Seq::empty())
    } else {
        match numbers_of(entries.drop_last()) {
            Ok(numbers) => match text::unsigned_number(entries.last(), usize::MAX as nat) {
                Some(number) => Ok(numbers.push(number as usize)),
                None => Err(entries.last()),
            },
            Err(entry) => Err(entry),
        }
    }
}

fn split_commas(value: &str) -> (entries: Vec<Vec<char>>)
    ensures
        text::runs(entries@) == comma_entries(value@),
{
    let parts = split(chars_of(value).as_slice(), Separator::Comma);
    let ghost all = text::pieces(value@, Separator::Comma).map_values(
        |piece: Seq<char>| text::trimmed(piece),
    );
    let mut entries: Vec<Vec<char>> = Vec::new();
    assert(text::runs(entries@) =~= text::non_empty(all.take(0)));
    for i in 0..parts.len()
        invariant
            all == text::runs(parts@).map_values(|piece: Seq<char>| text::trimmed(piece)),
            text::runs(entries@) == text::non_empty(all.take(i as int)),
    {
        let entry = trim(parts[i].as_slice());
        assert(entry@ == all[i as int]);
        assert(all.take(i + 1).drop_last() =~= all.take(i as int));
        if entry.len() > 0 {
            let ghost before = entries@;
            let mut copy: Vec<char> = Vec::new();
            copy.extend_from_slice(entry);
            assert(copy@ =~= entry@);
            entries.push(copy);
            assert(text::runs(entries@) =~= text::runs(before).push(entry@));
        }
    }
    assert(all.take(all.len() as int) =~= all);
    entries
}

/// Reads a list of device numbers that is separated by commas. The error is the first entry
/// that is no number.
pub fn parse_device_ids(value: &str) -> (device_ids: Result<Vec<usize>, String>)
    ensures
        match device_ids {
            Ok(ids) => numbers_of(comma_entries(value@)) == Ok::<Seq<usize>, Seq<char>>(ids@),
            Err(entry) => numbers_of(comma_entries(value@)) == Err::<Seq<usize>, Seq<char>>(entry@),
        },
{
    let entries = split_commas(value);
    let ghost all = comma_entries(value@);
    let mut ids: Vec<usize> = Vec::new();
    for i in 0..entries.len()
        invariant
            all == comma_entries(value@),
            all == text::runs(entries@),
            numbers_of(all.take(i as int)) == Ok::<Seq<usize>, Seq<char>>(ids@),
    {
        assert(all.take(i + 1).drop_last() =~= all.take(i as int));
        assert(all.take(i + 1).last() == entries@[i as int]@);
        match parse_usize(entries[i].as_slice()) {
            Some(id) => ids.push(id),
            None => {
                proof {
                    lemma_first_fault(all, i + 1);
                }
                return Err(string_of(entries[i].as_slice()));
            },
        }
    }
    assert(all.take(all.len() as int) =~= all);
    Ok(ids)
}

proof fn lemma_first_fault(entries: Seq<Seq<char>>, length: int)
    requires
        0 <= length <= entries.len(),
        numbers_of(entries.take(length)) is Err,
    ensures
        numbers_of(entries) == numbers_of(entries.take(length)),
    decreases entries.len(),
{
    if length == entries.len() {
        assert(entries.take(length) =~= entries);
    } else {
        assert(entries.drop_last().take(length) =~= entries.take(length));
        lemma_first_fault(entries.drop_last(), length);
    }
}

/// The values of the variables that set a sweep up.
pub struct SweepVariables {
    pub cohere_backend: Option<String>,
    pub asr_concurrency: Option<String>,
    pub worker_instances: Option<String>,
    pub onnx_sessions: Option<String>,
    pub minimum_transcript_words: Option<String>,
    pub device_ids: Option<String>,
}

/// How a sweep is run.
#[derive(Debug, PartialEq, Eq)]
pub struct BenchmarkSettings {
    pub backend: String,
    pub device_ids: Vec<usize>,
    pub onnx_sessions: usize,
    pub asr_concurrency: usize,
    pub worker_instances: usize,
    pub minimum_transcript_words: usize,
}

/// The mathematical value of a `BenchmarkSettings`.
pub struct Benchmark {
    pub backend: Seq<char>,
    pub device_ids: Seq<usize>,
    pub onnx_sessions: nat,
    pub asr_concurrency: nat,
    pub worker_instances: nat,
    pub minimum_transcript_words: nat,
}

impl View for BenchmarkSettings {
    type V = Benchmark;

    open spec fn view(&self) -> Benchmark {
        Benchmark {
            backend: self.backend@,
            device_ids: self.device_ids@,
            onnx_sessions: self.onnx_sessions as nat,
            asr_concurrency: self.asr_concurrency as nat,
            worker_instances: self.worker_instances as nat,
            minimum_transcript_words: self.minimum_transcript_words as nat,
        }
    }
}

/// The backend that is used unless another is set: `mlx` on macOS, `onnx` elsewhere.
pub open spec fn default_backend(on_macos: bool) -> Seq<char> {
    if on_macos {
        "mlx"@
    } else {
        "onnx"@
    }
}

/// The backend that is used unless another is set.
pub fn set_default_asr_backend(current: &Option<String>, on_macos: bool) -> (chosen: Option<String>)
    ensures
        text_of(chosen) == match given(text_of(*current)) {
            Some(_) => None,
            None => Some(default_backend(on_macos)),
        },
{
    if let Some(value) = current {
        if !is_blank(value.as_str()) {
            return None;
        }
    }
    Some(default_backend_name(on_macos))
}

fn default_backend_name(on_macos: bool) -> (name: String)
    ensures
        name@ == default_backend(on_macos),
{
    if on_macos {
        "mlx".to_owned()
    } else {
        "onnx".to_owned()
    }
}

/// The settings of a sweep. Of several faults the first is told, in the order concurrency,
/// workers, sessions, words, devices.
pub open spec fn benchmark(variables: SweepVariables, on_macos: bool) -> Result<
    Benchmark,
    SettingFault,
> {
    let backend = text::lower_case(
        text::trimmed(
            match variables.cohere_backend {
                Some(value) => value@,
                None => default_backend(on_macos),
            },
        ),
    );
    let devices = match given(text_of(variables.device_ids)) {
        Some(value) => value,
        None => if backend == "mlx"@ {
            Seq::empty()
        } else {
            "0"@
        },
    };
    let word = usize::MAX as nat;
    match positive_number_or(
        "MEDIA_RESEARCH_STACK_ASR_CONCURRENCY"@,
        text_of(variables.asr_concurrency),
        word,
        1,
    ) {
        Err(fault) => Err(fault),
        Ok(asr_concurrency) => match positive_number_or(
            "MEDIA_RESEARCH_STACK_WORKER_INSTANCES"@,
            text_of(variables.worker_instances),
            word,
            1,
        ) {
            Err(fault) => Err(fault),
            Ok(worker_instances) => match positive_number_or(
                "ASR_ONNX_SESSIONS"@,
                text_of(variables.onnx_sessions),
                word,
                1,
            ) {
                Err(fault) => Err(fault),
                Ok(onnx_sessions) => match number_or(
                    "MEDIA_RESEARCH_STACK_MIN_TRANSCRIPT_WORDS"@,
                    text_of(variables.minimum_transcript_words),
                    word,
                    5,
                ) {
                    Err(fault) => Err(fault),
                    Ok(minimum_transcript_words) => match numbers_of(comma_entries(devices)) {
                        Err(entry) => Err(SettingFault::Invalid("ASR_DEVICE_IDS"@, entry)),
                        Ok(device_ids) => Ok(
                            Benchmark {
                                backend,
                                device_ids,
                                onnx_sessions,
                                asr_concurrency,
                                worker_instances,
                                minimum_transcript_words,
                            },
                        ),
                    },
                },
            },
        },
    }
}

/// Reads the settings of a sweep.
pub fn benchmark_settings(variables: &SweepVariables, on_macos: bool) -> (settings: Result<
    BenchmarkSettings,
    SettingError,
>)
    ensures
        match settings {
            Ok(found) => benchmark(*variables, on_macos) == Ok::<Benchmark, SettingFault>(found@),
            Err(error) => benchmark(*variables, on_macos) == Err::<Benchmark, SettingFault>(error@),
        },
{
    let raw_backend = match &variables.cohere_backend {
        Some(value) => value.clone(),
        None => default_backend_name(on_macos),
    };
    let raw_chars = chars_of(raw_backend.as_str());
    let backend = string_of(to_lower_case(trim(raw_chars.as_slice())).as_slice());
    let asr_concurrency = match positive_env_usize(
        "MEDIA_RESEARCH_STACK_ASR_CONCURRENCY",
        &variables.asr_concurrency,
        1,
    ) {
        Ok(number) => number,
        Err(error) => {
            return Err(error);
        },
    };
    let worker_instances = match positive_env_usize(
        "MEDIA_RESEARCH_STACK_WORKER_INSTANCES",
        &variables.worker_instances,
        1,
    ) {
        Ok(number) => number,
        Err(error) => {
            return Err(error);
        },
    };
    let onnx_sessions = match positive_env_usize(
        "ASR_ONNX_SESSIONS",
        &variables.onnx_sessions,
        1,
    ) {
        Ok(number) => number,
        Err(error) => {
            return Err(error);
        },
    };
    let minimum_transcript_words = match env_usize(
        "MEDIA_RESEARCH_STACK_MIN_TRANSCRIPT_WORDS",
        &variables.minimum_transcript_words,
        5,
    ) {
        Ok(number) => number,
        Err(error) => {
            return Err(error);
        },
    };
    let mut devices = if same_text(backend.as_str(), "mlx") {
        String::new()
    } else {
        "0".to_owned()
    };
    if let Some(value) = &variables.device_ids {
        if !is_blank(value.as_str()) {
            devices = value.clone();
        }
    }
    match parse_device_ids(devices.as_str()) {
        Ok(device_ids) => Ok(
            BenchmarkSettings {
                backend,
                device_ids,
                onnx_sessions,
                asr_concurrency,
                worker_instances,
                minimum_transcript_words,
            },
        ),
        Err(entry) => Err(
            SettingError::Invalid { name: "ASR_DEVICE_IDS".to_owned(), value: entry },
        ),
    }
}

/// The values of the variables that configure the services of a sweep. Where two variables
/// set the same, their values stand in the order in which they count.
pub struct ServiceVariables {
    pub rust_log: Option<String>,
    pub max_new_tokens: Vec<Option<String>>,
    pub num_streams: Option<String>,
    pub slot_size_kb: Option<String>,
    pub ring_bytes: Option<String>,
    pub slots_per_stream: Option<String>,
    pub timeout_ms: Vec<Option<String>>,
    pub max_inflight: Option<String>,
}

/// The numbers that configure the services of a sweep.
pub struct ServiceNumbers {
    pub max_new_tokens: nat,
    pub num_streams: nat,
    pub slot_size_kb: nat,
    pub slots_per_stream: int,
    pub timeout_ms: nat,
    pub max_inflight: nat,
}

/// The cap on generated tokens: the first value that is given, where it is a number, or else
/// the default.
pub open spec fn token_cap(values: Seq<Option<String>>) -> nat {
    match first_given(values) {
        Some(value) => match text::unsigned_number(value, usize::MAX as nat) {
            Some(number) => number,
            None => DEFAULT_MAX_NEW_TOKENS as nat,
        },
        None => DEFAULT_MAX_NEW_TOKENS as nat,
    }
}

/// The numbers that configure the services of a sweep. Of several faults the first is told, in
/// the order slot size, ring size, slots, streams, timeout, requests in flight.
pub open spec fn service_numbers(variables: ServiceVariables, asr_concurrency: nat) -> Result<
    ServiceNumbers,
    SettingFault,
> {
    let word = usize::MAX as nat;
    match number_or(
        "UPLOAD_RESPONSE_SLOT_SIZE_KB"@,
        text_of(variables.slot_size_kb),
        word,
        DEFAULT_UPLOAD_RESPONSE_SLOT_SIZE_KB as nat,
    ) {
        Err(fault) => Err(fault),
        Ok(slot_size_kb) => match number_or(
            "UPLOAD_RESPONSE_RING_BYTES"@,
            text_of(variables.ring_bytes),
            word,
            DEFAULT_UPLOAD_RESPONSE_RING_BYTES as nat,
        ) {
            Err(fault) => Err(fault),
            Ok(ring_bytes) => match number_setting(
                "UPLOAD_RESPONSE_SLOTS_PER_STREAM"@,
                text_of(variables.slots_per_stream),
                word,
            ) {
                Err(fault) => Err(fault),
                Ok(slots) => match number_or(
                    "UPLOAD_RESPONSE_NUM_STREAMS"@,
                    text_of(variables.num_streams),
                    word,
                    stack::larger(
                        DEFAULT_UPLOAD_RESPONSE_NUM_STREAMS as int,
                        asr_concurrency as int,
                    ) as nat,
                ) {
                    Err(fault) => Err(fault),
                    Ok(num_streams) => match timeout_setting(variables.timeout_ms@) {
                        Err(fault) => Err(fault),
                        Ok(timeout_ms) => match number_or(
                            "UPLOAD_RESPONSE_MAX_INFLIGHT"@,
                            text_of(variables.max_inflight),
                            word,
                            asr_concurrency,
                        ) {
                            Err(fault) => Err(fault),
                            Ok(max_inflight) => Ok(
                                ServiceNumbers {
                                    max_new_tokens: token_cap(variables.max_new_tokens@),
                                    num_streams,
                                    slot_size_kb,
                                    slots_per_stream: stack::slots_per_stream(
                                        match slots {
                                            Some(number) => Some(number as usize),
                                            None => None,
                                        },
                                        ring_bytes as int,
                                        slot_size_kb as int,
                                    ),
                                    timeout_ms,
                                    max_inflight,
                                },
                            ),
                        },
                    },
                },
            },
        },
    }
}

/// The milliseconds that a request may take.
pub open spec fn timeout_setting(values: Seq<Option<String>>) -> Result<nat, SettingFault> {
    number_or(
        "UPLOAD_RESPONSE_TIMEOUT_MS"@,
        first_given(values),
        u64::MAX as nat,
        DEFAULT_TIMEOUT_MS as nat,
    )
}

fn read_token_cap(values: &Vec<Option<String>>) -> (cap: usize)
    ensures
        cap == token_cap(values@),
{
    match first_env(values) {
        Some(value) => match parse_usize(chars_of(value.as_str()).as_slice()) {
            Some(number) => number,
            None => DEFAULT_MAX_NEW_TOKENS,
        },
        None => DEFAULT_MAX_NEW_TOKENS,
    }
}

/// Whether a service of a sweep is configured by these variables and settings.
pub open spec fn is_configured(
    config: AsrConfig,
    variables: ServiceVariables,
    settings: BenchmarkSettings,
) -> bool {
    &&& service_numbers(variables, settings.asr_concurrency as nat) == Ok::<
        ServiceNumbers,
        SettingFault,
    >(
        ServiceNumbers {
            max_new_tokens: config.cohere_max_new_tokens as nat,
            num_streams: config.upload_response_num_streams as nat,
            slot_size_kb: config.upload_response_slot_size_kb as nat,
            slots_per_stream: config.upload_response_slots_per_stream as int,
            timeout_ms: config.upload_response_timeout_ms as nat,
            max_inflight: config.upload_response_max_inflight as nat,
        },
    )
    &&& config.is_local()
    &&& config.rust_log@ == match variables.rust_log {
        Some(value) => value@,
        None => "info"@,
    }
    &&& config.port == 0
    &&& config.device_ids@ == settings.device_ids@
    &&& config.onnx_sessions == settings.onnx_sessions
    &&& config.upload_response_ingress_urls@ == Seq::<String>::empty()
}

/// Configures a service of a sweep.
pub fn asr_config(
    variables: &ServiceVariables,
    settings: &BenchmarkSettings,
    role: AsrRole,
    worker_id: &str,
    model_dir: Option<PathBuf>,
) -> (service: Result<AsrConfig, SettingError>)
    ensures
        match service {
            Ok(config) => {
                &&& is_configured(config, *variables, *settings)
                &&& config.role == role
                &&& config.upload_response_worker_id@ == worker_id@
                &&& config.model_dir == model_dir
            },
            Err(error) => service_numbers(*variables, settings.asr_concurrency as nat) == Err::<
                ServiceNumbers,
                SettingFault,
            >(error@),
        },
{
    let slot_size_kb = match env_usize(
        "UPLOAD_RESPONSE_SLOT_SIZE_KB",
        &variables.slot_size_kb,
        DEFAULT_UPLOAD_RESPONSE_SLOT_SIZE_KB,
    ) {
        Ok(number) => number,
        Err(error) => {
            return Err(error);
        },
    };
    let ring_bytes = match env_usize(
        "UPLOAD_RESPONSE_RING_BYTES",
        &variables.ring_bytes,
        DEFAULT_UPLOAD_RESPONSE_RING_BYTES,
    ) {
        Ok(number) => number,
        Err(error) => {
            return Err(error);
        },
    };
    let slots = match env_optional_usize(
        "UPLOAD_RESPONSE_SLOTS_PER_STREAM",
        &variables.slots_per_stream,
    ) {
        Ok(number) => number,
        Err(error) => {
            return Err(error);
        },
    };
    let default_streams = if DEFAULT_UPLOAD_RESPONSE_NUM_STREAMS < settings.asr_concurrency {
        settings.asr_concurrency
    } else {
        DEFAULT_UPLOAD_RESPONSE_NUM_STREAMS
    };
    let num_streams = match env_usize(
        "UPLOAD_RESPONSE_NUM_STREAMS",
        &variables.num_streams,
        default_streams,
    ) {
        Ok(number) => number,
        Err(error) => {
            return Err(error);
        },
    };
    let timeout_ms = match env_u64(
        "UPLOAD_RESPONSE_TIMEOUT_MS",
        &first_env(&variables.timeout_ms),
        DEFAULT_TIMEOUT_MS,
    ) {
        Ok(number) => number,
        Err(error) => {
            return Err(error);
        },
    };
    let max_inflight = match env_usize(
        "UPLOAD_RESPONSE_MAX_INFLIGHT",
        &variables.max_inflight,
        settings.asr_concurrency,
    ) {
        Ok(number) => number,
        Err(error) => {
            return Err(error);
        },
    };
    let mut device_ids: Vec<usize> = Vec::new();
    device_ids.extend_from_slice(settings.device_ids.as_slice());
    assert(device_ids@ =~= settings.device_ids@);
    Ok(
        AsrConfig {
            role,
            rust_log: match &variables.rust_log {
                Some(value) => value.clone(),
                None => "info".to_owned(),
            },
            port: 0,
            enable_h3: false,
            model_dir,
            device_ids,
            onnx_sessions: settings.onnx_sessions,
            cohere_max_new_tokens: read_token_cap(&variables.max_new_tokens),
            upload_response_num_streams: num_streams,
            upload_response_slot_size_kb: slot_size_kb,
            upload_response_slots_per_stream: stream_slots(slots, ring_bytes, slot_size_kb),
            upload_response_timeout_ms: timeout_ms,
            upload_response_watch_poll_ms: 1,
            upload_response_worker_poll_ms: 2,
            upload_response_max_inflight: max_inflight,
            upload_response_worker_id: worker_id.to_owned(),
            upload_response_ingress_urls: Vec::new(),
            upload_response_discovery_interval_ms: 2_000,
            upload_response_insecure_tls: true,
            upload_response_worker_heartbeat_interval_ms: 1_000,
            upload_response_worker_ttl_ms: 5_000,
        },
    )
}

/// The services of a sweep.
#[derive(Debug)]
pub struct HarnessAsr {
    pub ingress: AsrConfig,
    pub decoder: AsrConfig,
    pub workers: Vec<AsrConfig>,
}

/// The name of a worker of a sweep.
pub open spec fn worker_name(index: nat) -> Seq<char> {
    "media-research-worker-"@ + text::decimal(index)
}

/// Configures the services of a sweep: an ingress, a decoder, and as many workers with the
/// model as are set.
pub fn harness_asr(
    variables: &ServiceVariables,
    settings: &BenchmarkSettings,
    model_dir: &PathBuf,
) -> (services: Result<HarnessAsr, SettingError>)
    ensures
        match services {
            Ok(harness) => {
                &&& is_configured(harness.ingress, *variables, *settings)
                &&& harness.ingress.role == AsrRole::Ingress
                &&& harness.ingress.upload_response_worker_id@ == "media-research-ingress"@
                &&& harness.ingress.model_dir is None
                &&& is_configured(harness.decoder, *variables, *settings)
                &&& harness.decoder.role == AsrRole::Decoder
                &&& harness.decoder.upload_response_worker_id@ == "media-research-decoder"@
                &&& harness.decoder.model_dir is None
                &&& harness.workers@.len() == settings.worker_instances
                &&& forall|i: int|
                    0 <= i < harness.workers@.len() ==> {
                        let worker = #[trigger] harness.workers@[i];
                        &&& is_configured(worker, *variables, *settings)
                        &&& worker.role == AsrRole::Worker
                        &&& worker.upload_response_worker_id@ == worker_name(i as nat)
                        &&& worker.model_dir == Some(*model_dir)
                    }
            },
            Err(error) => service_numbers(*variables, settings.asr_concurrency as nat) == Err::<
                ServiceNumbers,
                SettingFault,
            >(error@),
        },
{
    let ingress = match asr_config(
        variables,
        settings,
        AsrRole::Ingress,
        "media-research-ingress",
        None,
    ) {
        Ok(config) => config,
        Err(error) => {
            return Err(error);
        },
    };
    let decoder = match asr_config(
        variables,
        settings,
        AsrRole::Decoder,
        "media-research-decoder",
        None,
    ) {
        Ok(config) => config,
        Err(error) => {
            return Err(error);
        },
    };
    let mut workers: Vec<AsrConfig> = Vec::new();
    for i in 0..settings.worker_instances
        invariant
            workers@.len() == i,
            forall|j: int|
                0 <= j < i ==> {
                    let worker = #[trigger] workers@[j];
                    &&& is_configured(worker, *variables, *settings)
                    &&& worker.role == AsrRole::Worker
                    &&& worker.upload_response_worker_id@ == worker_name(j as nat)
                    &&& worker.model_dir == Some(*model_dir)
                },
    {
        let mut name = "media-research-worker-".to_owned();
        name.append(string_of(decimal_chars(i as u64).as_slice()).as_str());
        match asr_config(
            variables,
            settings,
            AsrRole::Worker,
            name.as_str(),
            Some(model_dir.clone()),
        ) {
            Ok(config) => workers.push(config),
            Err(error) => {
                return Err(error);
            },
        }
    }
    Ok(HarnessAsr { ingress, decoder, workers })
}

/// Reads the seconds that a sweep waits for a cache entry: by default none, or six hours where
/// the cache is required.
pub fn cache_wait_seconds(value: &Option<String>, require_cached: bool) -> (seconds: Result<
    u64,
    SettingError,
>)
    ensures
        match seconds {
            Ok(found) => number_or(
                "MEDIA_RESEARCH_STACK_CACHE_WAIT_SECS"@,
                text_of(*value),
                u64::MAX as nat,
                if require_cached {
                    DEFAULT_CACHE_WAIT_SECS as nat
                } else {
                    0
                },
            ) == Ok::<nat, SettingFault>(found as nat),
            Err(error) => number_or(
                "MEDIA_RESEARCH_STACK_CACHE_WAIT_SECS"@,
                text_of(*value),
                u64::MAX as nat,
                if require_cached {
                    DEFAULT_CACHE_WAIT_SECS as nat
                } else {
                    0
                },
            ) == Err::<nat, SettingFault>(error@),
        },
        given(text_of(*value)) is None ==> seconds == Ok::<u64, SettingError>(
            if require_cached {
                21_600
            } else {
                0
            },
        ),
{
    env_u64(
        "MEDIA_RESEARCH_STACK_CACHE_WAIT_SECS",
        value,
        if require_cached {
            DEFAULT_CACHE_WAIT_SECS
        } else {
            0
        },
    )
}

} // verus!
