//! What holds of the settings, stated over the values of the variables that they are read from
//! and over the numbers that come out.

use crate::research_cache::text_of;
use crate::settings::{
    benchmark, comma_entries, default_backend, first_given, given, is_configured, number_or,
    number_setting, numbers_of, positive_number_or, service_numbers, switches_on, timeout_setting,
    token_cap, worker_name, Benchmark, BenchmarkSettings, ServiceNumbers, ServiceVariables,
    SettingFault, SweepVariables,
};
use crate::stack::{
    first_present, presence, process_env, runtime_among, saturated, slot_bytes, slots_needed,
    slots_per_stream, AsrConfig, Config, ConfigError, EnvSetting, RuntimeError, RuntimeFile,
};
use crate::text::{self, Separator};
use crate::text_laws::{self, all_white};
use std::path::PathBuf;
use vstd::prelude::*;

verus! {

/// A flag is switched on by five values and by no other.
pub proof fn law_flag_values(value: Seq<char>)
    ensures
        switches_on(value) <==> seq![
            seq!['1'],
            seq!['t', 'r', 'u', 'e'],
            seq!['T', 'R', 'U', 'E'],
            seq!['y', 'e', 's'],
            seq!['Y', 'E', 'S'],
        ].contains(value),
{
    reveal_strlit("1");
    reveal_strlit("true");
    reveal_strlit("TRUE");
    reveal_strlit("yes");
    reveal_strlit("YES");
    let values = seq![
        seq!['1'],
        seq!['t', 'r', 'u', 'e'],
        seq!['T', 'R', 'U', 'E'],
        seq!['y', 'e', 's'],
        seq!['Y', 'E', 'S'],
    ];
    assert("1"@ =~= values[0]);
    assert("true"@ =~= values[1]);
    assert("TRUE"@ =~= values[2]);
    assert("yes"@ =~= values[3]);
    assert("YES"@ =~= values[4]);
}

/// Whether a variable is not set, or set to nothing but white space.
pub open spec fn unset(value: Option<Seq<char>>) -> bool {
    match value {
        Some(found) => all_white(found),
        None => true,
    }
}

proof fn lemma_blank_is_white(s: Seq<char>)
    ensures
        all_white(s) <==> text::trimmed(s).len() == 0,
{
    let nothing = Seq::<char>::empty();
    if all_white(s) {
        text_laws::law_trimmed_is_the_middle(s, nothing, nothing);
        assert(s + nothing + nothing =~= s);
    }
    let around = text_laws::law_only_white_space_is_trimmed(s);
    if text::trimmed(s).len() == 0 {
        assert forall|i: int| 0 <= i < s.len() implies text::white_space(#[trigger] s[i]) by {
            if i < around.0.len() {
                assert(s[i] == around.0[i]);
            } else {
                assert(s[i] == around.1[i - around.0.len()]);
            }
        }
    }
}

/// A variable that is set and not blank gives its value as it stands; any other gives none.
pub proof fn law_given_value(value: Option<Seq<char>>)
    ensures
        given(value) == if unset(value) {
            None
        } else {
            value
        },
{
    if let Some(found) = value {
        lemma_blank_is_white(found);
    }
}

/// Of several variables the first that is set and not blank counts, whatever those behind it are.
pub proof fn law_first_value_counts(
    before: Seq<Option<String>>,
    value: Option<String>,
    after: Seq<Option<String>>,
)
    requires
        forall|i: int| 0 <= i < before.len() ==> unset(text_of(#[trigger] before[i])),
    ensures
        first_given(before) is None,
        !unset(text_of(value)) ==> first_given(before.push(value) + after) == text_of(value),
    decreases before.len() + after.len(),
{
    let none = Seq::<Option<String>>::empty();
    let all = before.push(value) + after;
    if before.len() > 0 {
        let fewer = before.drop_last();
        assert forall|i: int| 0 <= i < fewer.len() implies unset(text_of(#[trigger] fewer[i])) by {
            assert(fewer[i] == before[i]);
        }
        assert(unset(text_of(before[before.len() - 1])));
        law_first_value_counts(fewer, before.last(), none);
        law_given_value(text_of(before.last()));
    }
    if !unset(text_of(value)) {
        law_given_value(text_of(value));
        if after.len() == 0 {
            assert(all =~= before.push(value));
            assert(all.drop_last() =~= before);
        } else {
            law_first_value_counts(before, value, after.drop_last());
            assert(all.drop_last() =~= before.push(value) + after.drop_last());
        }
    }
}

/// Whether a text has a character that is in no numeral: neither a digit nor a plus sign at its
/// beginning.
pub open spec fn no_numeral(s: Seq<char>) -> bool {
    exists|i: int|
        0 <= i < s.len() && !('0' <= #[trigger] s[i] <= '9') && !(i == 0 && s[i] == '+')
}

/// A number setting is the number of its numeral. Where it is not set it has none, or its
/// default. A numeral out of range and a text that is no numeral are refused with the variable's
/// name and value, and zero is refused where the number has to be positive.
pub proof fn law_number_settings(
    name: Seq<char>,
    value: Seq<char>,
    number: nat,
    max: nat,
    fallback: nat,
)
    ensures
        number_setting(name, None, max) == Ok::<Option<nat>, SettingFault>(None),
        number_or(name, None, max, fallback) == Ok::<nat, SettingFault>(fallback),
        all_white(value) ==> {
            &&& number_setting(name, Some(value), max) == Ok::<Option<nat>, SettingFault>(None)
            &&& number_or(name, Some(value), max, fallback) == Ok::<nat, SettingFault>(fallback)
        },
        number <= max ==> {
            &&& number_setting(name, Some(text::decimal(number)), max) == Ok::<
                Option<nat>,
                SettingFault,
            >(Some(number))
            &&& number_or(name, Some(text::decimal(number)), max, fallback) == Ok::<
                nat,
                SettingFault,
            >(number)
            &&& number > 0 ==> positive_number_or(
                name,
                Some(text::decimal(number)),
                max,
                fallback,
            ) == Ok::<nat, SettingFault>(number)
        },
        number > max ==> {
            let fault = SettingFault::Invalid(name, text::decimal(number));
            &&& number_setting(name, Some(text::decimal(number)), max) == Err::<
                Option<nat>,
                SettingFault,
            >(fault)
            &&& number_or(name, Some(text::decimal(number)), max, fallback) == Err::<
                nat,
                SettingFault,
            >(fault)
            &&& positive_number_or(name, Some(text::decimal(number)), max, fallback) == Err::<
                nat,
                SettingFault,
            >(fault)
        },
        !all_white(value) && no_numeral(value) ==> {
            let fault = SettingFault::Invalid(name, value);
            &&& number_setting(name, Some(value), max) == Err::<Option<nat>, SettingFault>(fault)
            &&& number_or(name, Some(value), max, fallback) == Err::<nat, SettingFault>(fault)
            &&& positive_number_or(name, Some(value), max, fallback) == Err::<nat, SettingFault>(
                fault,
            )
        },
        positive_number_or(name, Some(text::decimal(0)), max, fallback) == Err::<
            nat,
            SettingFault,
        >(SettingFault::NotPositive(name)),
        fallback > 0 && all_white(value) ==> positive_number_or(name, Some(value), max, fallback)
            == Ok::<nat, SettingFault>(fallback),
        fallback > 0 ==> positive_number_or(name, None, max, fallback) == Ok::<nat, SettingFault>(
            fallback,
        ),
{
    law_given_value(Some(value));
    law_given_value(None);
    lemma_numeral_is_given(number);
    lemma_numeral_is_given(0);
    text_laws::law_numbers_are_read(number, max, value);
    text_laws::law_numbers_are_read(0, max, value);
}

proof fn lemma_numeral_is_given(number: nat)
    ensures
        given(Some(text::decimal(number))) == Some(text::decimal(number)),
        text::clean(text::decimal(number)),
        !text::decimal(number).contains(','),
{
    let numeral = text::decimal(number);
    text_laws::law_numerals(number);
    law_given_value(Some(numeral));
    assert('0' <= numeral[0] <= '9');
    assert('0' <= numeral[numeral.len() - 1] <= '9');
    if all_white(numeral) {
        assert(text::white_space(numeral[0]));
    }
    if numeral.contains(',') {
        let at = choose|i: int| 0 <= i < numeral.len() && numeral[i] == ',';
        assert('0' <= numeral[at] <= '9');
    }
}

/// A comma between two lists makes one list of them. A text without a comma is one entry,
/// without the white space around it, or none where it is blank.
pub proof fn law_comma_lists(
    first: Seq<char>,
    second: Seq<char>,
    before: Seq<char>,
    core: Seq<char>,
    after: Seq<char>,
)
    requires
        all_white(before),
        all_white(after),
        core.len() == 0 || (!text::white_space(core[0]) && !text::white_space(core.last())),
        !core.contains(','),
    ensures
        comma_entries(first + seq![','] + second) == comma_entries(first) + comma_entries(second),
        comma_entries(before + core + after) == if core.len() == 0 {
            Seq::<Seq<char>>::empty()
        } else {
            seq![core]
        },
{
    let separator = Separator::Comma;
    let trim_each = |piece: Seq<char>| text::trimmed(piece);
    assert(first + seq![','] =~= first.push(','));
    text::lemma_pieces_around(first, ',', second, separator);
    let left = text::pieces(first, separator);
    let right = text::pieces(second, separator);
    assert((left + right).map_values(trim_each) =~= left.map_values(trim_each) + right.map_values(
        trim_each,
    ));
    text::lemma_non_empty_of_both(left.map_values(trim_each), right.map_values(trim_each));
    let piece = before + core + after;
    assert forall|i: int| 0 <= i < piece.len() implies !separator.cuts(#[trigger] piece[i]) by {
        if i < before.len() {
            assert(piece[i] == before[i]);
            assert(text::white_space(before[i]));
        } else if i < before.len() + core.len() {
            assert(piece[i] == core[i - before.len()]);
            assert(core.contains(core[i - before.len()]));
        } else {
            assert(piece[i] == after[i - before.len() - core.len()]);
            assert(text::white_space(after[i - before.len() - core.len()]));
        }
    }
    text::lemma_uncut_is_one_piece(piece, separator);
    text_laws::law_trimmed_is_the_middle(before, core, after);
    assert(seq![piece].map_values(trim_each) =~= seq![core]);
    let none = Seq::<Seq<char>>::empty();
    text_laws::law_non_empty_keeps_the_rest(none, core, none);
    assert(none.push(core) + none =~= seq![core]);
    if core.len() == 0 {
        assert(comma_entries(piece) =~= none);
    } else {
        assert(comma_entries(piece) =~= seq![core]);
    }
}

/// An entry behind a list of numbers adds its number. The first entry that is no numeral, or
/// whose number no machine word holds, is what the list is refused with.
pub proof fn law_number_lists(entries: Seq<Seq<char>>, entry: Seq<char>, number: nat)
    ensures
        numbers_of(Seq::<Seq<char>>::empty()) == Ok::<Seq<usize>, Seq<char>>(Seq::empty()),
        numbers_of(entries) is Err ==> numbers_of(entries + seq![entry]) == numbers_of(entries),
        numbers_of(entries) is Ok && number <= usize::MAX ==> numbers_of(
            entries + seq![text::decimal(number)],
        ) == Ok::<Seq<usize>, Seq<char>>(numbers_of(entries)->Ok_0 + seq![number as usize]),
        numbers_of(entries) is Ok && number > usize::MAX ==> numbers_of(
            entries + seq![text::decimal(number)],
        ) == Err::<Seq<usize>, Seq<char>>(text::decimal(number)),
        numbers_of(entries) is Ok && no_numeral(entry) ==> numbers_of(entries + seq![entry])
            == Err::<Seq<usize>, Seq<char>>(entry),
{
    assert((entries + seq![entry]).drop_last() =~= entries);
    assert((entries + seq![text::decimal(number)]).drop_last() =~= entries);
    text_laws::law_numbers_are_read(number, usize::MAX as nat, entry);
    if numbers_of(entries) is Ok {
        let before = numbers_of(entries)->Ok_0;
        assert(before.push(number as usize) =~= before + seq![number as usize]);
    }
}

/// A list of numerals.
pub open spec fn numerals(ids: Seq<usize>) -> Seq<Seq<char>> {
    ids.map_values(|id: usize| text::decimal(id as nat))
}

/// A list of device numbers with commas between them is read back.
pub proof fn law_device_ids_are_read(ids: Seq<usize>)
    ensures
        numbers_of(comma_entries(text::joined(numerals(ids), seq![',']))) == Ok::<
            Seq<usize>,
            Seq<char>,
        >(ids),
    decreases ids.len(),
{
    let nothing = Seq::<char>::empty();
    let none = Seq::<Seq<char>>::empty();
    let written = text::joined(numerals(ids), seq![',']);
    if ids.len() == 0 {
        law_comma_lists(nothing, nothing, nothing, nothing, nothing);
        assert(written =~= nothing);
        assert(nothing + nothing + nothing =~= nothing);
        law_number_lists(none, nothing, 0);
        assert(ids =~= Seq::<usize>::empty());
    } else {
        let fewer = ids.drop_last();
        let last = ids.last() as nat;
        let numeral = text::decimal(last);
        let before = text::joined(numerals(fewer), seq![',']);
        law_device_ids_are_read(fewer);
        lemma_numeral_is_given(last);
        assert(numerals(ids).drop_last() =~= numerals(fewer));
        assert(nothing + numeral + nothing =~= numeral);
        law_comma_lists(before, numeral, nothing, numeral, nothing);
        if fewer.len() == 0 {
            assert(written =~= numeral);
            assert(seq![numeral] =~= none + seq![numeral]);
            law_number_lists(none, numeral, last);
            assert(Seq::<usize>::empty() + seq![ids.last()] =~= ids);
        } else {
            assert(written =~= before + seq![','] + numeral);
            law_number_lists(comma_entries(before), numeral, last);
            assert(fewer + seq![ids.last()] =~= ids);
        }
    }
}

/// Whether a setting comes to this number: its default where it is not set, or else its numeral's.
pub open spec fn comes_to(value: Option<String>, fallback: nat, max: nat, number: nat) -> bool {
    ||| unset(text_of(value)) && number == fallback
    ||| text_of(value) == Some(text::decimal(number)) && number <= max
}

proof fn lemma_comes_to(
    name: Seq<char>,
    value: Option<String>,
    fallback: nat,
    max: nat,
    number: nat,
)
    requires
        comes_to(value, fallback, max, number),
    ensures
        number_or(name, text_of(value), max, fallback) == Ok::<nat, SettingFault>(number),
        number > 0 ==> positive_number_or(name, text_of(value), max, fallback) == Ok::<
            nat,
            SettingFault,
        >(number),
{
    match text_of(value) {
        Some(found) => law_number_settings(name, found, number, max, fallback),
        None => law_number_settings(name, Seq::empty(), number, max, fallback),
    }
}

/// The settings of a sweep are what its variables say: numbers by their numerals or else one, and
/// five words; the backend in lower case without the white space around it, or else that of the
/// machine; and the devices that are listed, or else the first one, or none for the MLX backend.
pub proof fn law_sweep_settings(
    variables: SweepVariables,
    on_macos: bool,
    before: Seq<char>,
    core: Seq<char>,
    after: Seq<char>,
    expected: Benchmark,
)
    requires
        all_white(before),
        all_white(after),
        core.len() == 0 || (!text::white_space(core[0]) && !text::white_space(core.last())),
        match variables.cohere_backend {
            Some(value) => value@ == before + core + after && expected.backend == text::lower_case(
                core,
            ),
            None => expected.backend == if on_macos {
                "mlx"@
            } else {
                "onnx"@
            },
        },
        comes_to(variables.asr_concurrency, 1, usize::MAX as nat, expected.asr_concurrency),
        comes_to(variables.worker_instances, 1, usize::MAX as nat, expected.worker_instances),
        comes_to(variables.onnx_sessions, 1, usize::MAX as nat, expected.onnx_sessions),
        comes_to(
            variables.minimum_transcript_words,
            5,
            usize::MAX as nat,
            expected.minimum_transcript_words,
        ),
        expected.asr_concurrency > 0,
        expected.worker_instances > 0,
        expected.onnx_sessions > 0,
        if unset(text_of(variables.device_ids)) {
            expected.device_ids == if expected.backend == "mlx"@ {
                Seq::<usize>::empty()
            } else {
                seq![0usize]
            }
        } else {
            text_of(variables.device_ids) == Some(
                text::joined(numerals(expected.device_ids), seq![',']),
            )
        },
    ensures
        benchmark(variables, on_macos) == Ok::<Benchmark, SettingFault>(expected),
{
    let word = usize::MAX as nat;
    lemma_comes_to(
        "MEDIA_RESEARCH_STACK_ASR_CONCURRENCY"@,
        variables.asr_concurrency,
        1,
        word,
        expected.asr_concurrency,
    );
    lemma_comes_to(
        "MEDIA_RESEARCH_STACK_WORKER_INSTANCES"@,
        variables.worker_instances,
        1,
        word,
        expected.worker_instances,
    );
    lemma_comes_to(
        "ASR_ONNX_SESSIONS"@,
        variables.onnx_sessions,
        1,
        word,
        expected.onnx_sessions,
    );
    lemma_comes_to(
        "MEDIA_RESEARCH_STACK_MIN_TRANSCRIPT_WORDS"@,
        variables.minimum_transcript_words,
        5,
        word,
        expected.minimum_transcript_words,
    );
    text_laws::law_trimmed_is_the_middle(before, core, after);
    lemma_default_backend(on_macos);
    law_given_value(text_of(variables.device_ids));
    law_device_ids_are_read(expected.device_ids);
    reveal_strlit("0");
    let zero = numerals(seq![0usize]);
    assert(zero =~= seq!["0"@]) by {
        assert(text::decimal(0) =~= "0"@);
    }
    assert(text::joined(zero, seq![',']) =~= "0"@) by {
        text_laws::law_joined_splits(zero, zero, seq![','], "0"@);
    }
    assert(text::joined(numerals(Seq::<usize>::empty()), seq![',']) =~= Seq::<char>::empty());
}

proof fn lemma_default_backend(on_macos: bool)
    ensures
        default_backend(on_macos) == if on_macos {
            "mlx"@
        } else {
            "onnx"@
        },
        text::lower_case(text::trimmed(default_backend(on_macos))) == default_backend(on_macos),
{
    reveal_strlit("mlx");
    reveal_strlit("onnx");
    let name = default_backend(on_macos);
    text::lemma_clean_is_trimmed(name);
    assert(text::lower_case(name) =~= name) by {
        assert forall|i: int| 0 <= i < name.len() implies text::lower_case(name)[i] == name[i] by {
            text_laws::law_lower_case(name, i);
        }
    }
}

/// A number of a sweep that is no numeral, or zero where it has to be positive, is what its
/// settings are refused with, before any fault that is read behind it.
pub proof fn law_sweep_setting_faults(
    variables: SweepVariables,
    on_macos: bool,
    value: Seq<char>,
    concurrency: nat,
    workers: nat,
    sessions: nat,
    words: nat,
)
    requires
        concurrency > 0,
        workers > 0,
        sessions > 0,
    ensures
        ({
            let word = usize::MAX as nat;
            let bad = !all_white(value) && no_numeral(value);
            let zero = value == text::decimal(0);
            let found = benchmark(variables, on_macos);
            let first = comes_to(variables.asr_concurrency, 1, word, concurrency);
            let second = first && comes_to(variables.worker_instances, 1, word, workers);
            let third = second && comes_to(variables.onnx_sessions, 1, word, sessions);
            &&& text_of(variables.asr_concurrency) == Some(value) && bad ==> found == Err::<
                Benchmark,
                SettingFault,
            >(SettingFault::Invalid("MEDIA_RESEARCH_STACK_ASR_CONCURRENCY"@, value))
            &&& text_of(variables.asr_concurrency) == Some(value) && zero ==> found == Err::<
                Benchmark,
                SettingFault,
            >(SettingFault::NotPositive("MEDIA_RESEARCH_STACK_ASR_CONCURRENCY"@))
            &&& first && text_of(variables.worker_instances) == Some(value) && bad ==> found
                == Err::<Benchmark, SettingFault>(
                SettingFault::Invalid("MEDIA_RESEARCH_STACK_WORKER_INSTANCES"@, value),
            )
            &&& first && text_of(variables.worker_instances) == Some(value) && zero ==> found
                == Err::<Benchmark, SettingFault>(
                SettingFault::NotPositive("MEDIA_RESEARCH_STACK_WORKER_INSTANCES"@),
            )
            &&& second && text_of(variables.onnx_sessions) == Some(value) && bad ==> found == Err::<
                Benchmark,
                SettingFault,
            >(SettingFault::Invalid("ASR_ONNX_SESSIONS"@, value))
            &&& second && text_of(variables.onnx_sessions) == Some(value) && zero ==> found
                == Err::<Benchmark, SettingFault>(SettingFault::NotPositive("ASR_ONNX_SESSIONS"@))
            &&& third && text_of(variables.minimum_transcript_words) == Some(value) && bad
                ==> found == Err::<Benchmark, SettingFault>(
                SettingFault::Invalid("MEDIA_RESEARCH_STACK_MIN_TRANSCRIPT_WORDS"@, value),
            )
            &&& third && comes_to(variables.minimum_transcript_words, 5, word, words) && text_of(
                variables.device_ids,
            ) == Some(value) && text::clean(value) && !value.contains(',') && no_numeral(value)
                ==> found == Err::<Benchmark, SettingFault>(
                SettingFault::Invalid("ASR_DEVICE_IDS"@, value),
            )
        }),
{
    let word = usize::MAX as nat;
    law_number_settings("MEDIA_RESEARCH_STACK_ASR_CONCURRENCY"@, value, 0, word, 1);
    law_number_settings("MEDIA_RESEARCH_STACK_WORKER_INSTANCES"@, value, 0, word, 1);
    law_number_settings("ASR_ONNX_SESSIONS"@, value, 0, word, 1);
    law_number_settings("MEDIA_RESEARCH_STACK_MIN_TRANSCRIPT_WORDS"@, value, 0, word, 5);
    if comes_to(variables.asr_concurrency, 1, word, concurrency) {
        lemma_comes_to(
            "MEDIA_RESEARCH_STACK_ASR_CONCURRENCY"@,
            variables.asr_concurrency,
            1,
            word,
            concurrency,
        );
    }
    if comes_to(variables.worker_instances, 1, word, workers) {
        lemma_comes_to(
            "MEDIA_RESEARCH_STACK_WORKER_INSTANCES"@,
            variables.worker_instances,
            1,
            word,
            workers,
        );
    }
    if comes_to(variables.onnx_sessions, 1, word, sessions) {
        lemma_comes_to("ASR_ONNX_SESSIONS"@, variables.onnx_sessions, 1, word, sessions);
    }
    if comes_to(variables.minimum_transcript_words, 5, word, words) {
        lemma_comes_to(
            "MEDIA_RESEARCH_STACK_MIN_TRANSCRIPT_WORDS"@,
            variables.minimum_transcript_words,
            5,
            word,
            words,
        );
    }
    if text::clean(value) && !value.contains(',') && no_numeral(value) {
        let nothing = Seq::<char>::empty();
        let none = Seq::<Seq<char>>::empty();
        law_given_value(Some(value));
        if all_white(value) {
            assert(text::white_space(value[0]));
        }
        law_comma_lists(nothing, nothing, nothing, value, nothing);
        assert(nothing + value + nothing =~= value);
        law_number_lists(none, value, 0);
        assert(none + seq![value] =~= seq![value]);
    }
}

/// The first of several variables that is given, where none of those before it is.
pub open spec fn first_is(values: Seq<Option<String>>, value: Option<Seq<char>>) -> bool {
    match value {
        Some(found) => exists|at: int|
            0 <= at < values.len() && #[trigger] text_of(values[at]) == value && !unset(value)
                && forall|i: int| 0 <= i < at ==> unset(text_of(#[trigger] values[i])),
        None => forall|i: int| 0 <= i < values.len() ==> unset(text_of(#[trigger] values[i])),
    }
}

proof fn lemma_first_is(values: Seq<Option<String>>, value: Option<Seq<char>>)
    requires
        first_is(values, value),
    ensures
        first_given(values) == value,
{
    let none = Seq::<Option<String>>::empty();
    match value {
        Some(found) => {
            let at = choose|at: int|
                0 <= at < values.len() && #[trigger] text_of(values[at]) == value && !unset(value)
                    && forall|i: int| 0 <= i < at ==> unset(text_of(#[trigger] values[i]));
            let before = values.take(at);
            assert forall|i: int| 0 <= i < before.len() implies unset(
                text_of(#[trigger] before[i]),
            ) by {
                assert(before[i] == values[i]);
            }
            law_first_value_counts(before, values[at], values.skip(at + 1));
            assert(before.push(values[at]) + values.skip(at + 1) =~= values);
        },
        None => {
            law_first_value_counts(values, None, none);
        },
    }
}

/// The cap on generated tokens is the number of the first variable that is given, and 384 where
/// there is none or where it is no number.
pub proof fn law_token_cap(values: Seq<Option<String>>, value: Seq<char>, number: nat)
    ensures
        first_is(values, None) ==> token_cap(values) == 384,
        first_is(values, Some(text::decimal(number))) && number <= usize::MAX ==> token_cap(values)
            == number,
        first_is(values, Some(value)) && no_numeral(value) ==> token_cap(values) == 384,
{
    text_laws::law_numbers_are_read(number, usize::MAX as nat, value);
    if first_is(values, None) {
        lemma_first_is(values, None);
    }
    if first_is(values, Some(text::decimal(number))) {
        lemma_first_is(values, Some(text::decimal(number)));
    }
    if first_is(values, Some(value)) {
        lemma_first_is(values, Some(value));
    }
}

/// The time that a request may take is the number of the first variable that is given, and six
/// hours in milliseconds where there is none. One that is no number is refused.
pub proof fn law_timeout(values: Seq<Option<String>>, value: Seq<char>, number: nat)
    ensures
        first_is(values, None) ==> timeout_setting(values) == Ok::<nat, SettingFault>(
            6 * 60 * 60 * 1000,
        ),
        first_is(values, Some(text::decimal(number))) && number <= u64::MAX ==> timeout_setting(
            values,
        ) == Ok::<nat, SettingFault>(number),
        first_is(values, Some(value)) && no_numeral(value) ==> timeout_setting(values) == Err::<
            nat,
            SettingFault,
        >(SettingFault::Invalid("UPLOAD_RESPONSE_TIMEOUT_MS"@, value)),
{
    let name = "UPLOAD_RESPONSE_TIMEOUT_MS"@;
    law_number_settings(name, value, number, u64::MAX as nat, 21_600_000);
    if first_is(values, None) {
        lemma_first_is(values, None);
    }
    if first_is(values, Some(text::decimal(number))) {
        lemma_first_is(values, Some(text::decimal(number)));
    }
    if first_is(values, Some(value)) {
        lemma_first_is(values, Some(value));
    }
}

/// The services of a sweep are configured with what their variables say, or else with slots of 32
/// kilobytes in a ring of 64 megabytes, with two streams or as many as requests are made at a
/// time, and with as many requests in flight as are made at a time.
pub proof fn law_service_numbers(
    variables: ServiceVariables,
    asr_concurrency: nat,
    expected: ServiceNumbers,
    ring_bytes: nat,
    slots: Option<usize>,
)
    requires
        asr_concurrency <= usize::MAX,
        comes_to(variables.slot_size_kb, 32, usize::MAX as nat, expected.slot_size_kb),
        comes_to(variables.ring_bytes, 64 * 1024 * 1024, usize::MAX as nat, ring_bytes),
        match slots {
            Some(number) => text_of(variables.slots_per_stream) == Some(
                text::decimal(number as nat),
            ),
            None => unset(text_of(variables.slots_per_stream)),
        },
        expected.slots_per_stream == slots_per_stream(
            slots,
            ring_bytes as int,
            expected.slot_size_kb as int,
        ),
        comes_to(
            variables.num_streams,
            if asr_concurrency < 2 {
                2
            } else {
                asr_concurrency
            },
            usize::MAX as nat,
            expected.num_streams,
        ),
        timeout_setting(variables.timeout_ms@) == Ok::<nat, SettingFault>(expected.timeout_ms),
        comes_to(variables.max_inflight, asr_concurrency, usize::MAX as nat, expected.max_inflight),
        expected.max_new_tokens == token_cap(variables.max_new_tokens@),
    ensures
        service_numbers(variables, asr_concurrency) == Ok::<ServiceNumbers, SettingFault>(expected),
{
    let word = usize::MAX as nat;
    lemma_comes_to(
        "UPLOAD_RESPONSE_SLOT_SIZE_KB"@,
        variables.slot_size_kb,
        32,
        word,
        expected.slot_size_kb,
    );
    lemma_comes_to(
        "UPLOAD_RESPONSE_RING_BYTES"@,
        variables.ring_bytes,
        67_108_864,
        word,
        ring_bytes,
    );
    let streams: nat = if asr_concurrency < 2 {
        2
    } else {
        asr_concurrency
    };
    lemma_comes_to(
        "UPLOAD_RESPONSE_NUM_STREAMS"@,
        variables.num_streams,
        streams,
        word,
        expected.num_streams,
    );
    lemma_comes_to(
        "UPLOAD_RESPONSE_MAX_INFLIGHT"@,
        variables.max_inflight,
        asr_concurrency,
        word,
        expected.max_inflight,
    );
    let name = "UPLOAD_RESPONSE_SLOTS_PER_STREAM"@;
    match slots {
        Some(number) => law_number_settings(name, Seq::empty(), number as nat, word, 0),
        None => match text_of(variables.slots_per_stream) {
            Some(value) => law_number_settings(name, value, 0, word, 0),
            None => law_number_settings(name, Seq::empty(), 0, word, 0),
        },
    }
}

/// A number of the services that is no numeral is what their configuration is refused with,
/// before any fault that is read behind it.
pub proof fn law_service_number_faults(
    variables: ServiceVariables,
    asr_concurrency: nat,
    value: Seq<char>,
)
    requires
        asr_concurrency <= usize::MAX,
        !all_white(value),
        no_numeral(value),
    ensures
        ({
            let found = service_numbers(variables, asr_concurrency);
            let first = unset(text_of(variables.slot_size_kb));
            let second = first && unset(text_of(variables.ring_bytes));
            let third = second && unset(text_of(variables.slots_per_stream));
            let fourth = third && unset(text_of(variables.num_streams));
            let fifth = fourth && first_is(variables.timeout_ms@, None);
            &&& text_of(variables.slot_size_kb) == Some(value) ==> found == Err::<
                ServiceNumbers,
                SettingFault,
            >(SettingFault::Invalid("UPLOAD_RESPONSE_SLOT_SIZE_KB"@, value))
            &&& first && text_of(variables.ring_bytes) == Some(value) ==> found == Err::<
                ServiceNumbers,
                SettingFault,
            >(SettingFault::Invalid("UPLOAD_RESPONSE_RING_BYTES"@, value))
            &&& second && text_of(variables.slots_per_stream) == Some(value) ==> found == Err::<
                ServiceNumbers,
                SettingFault,
            >(SettingFault::Invalid("UPLOAD_RESPONSE_SLOTS_PER_STREAM"@, value))
            &&& third && text_of(variables.num_streams) == Some(value) ==> found == Err::<
                ServiceNumbers,
                SettingFault,
            >(SettingFault::Invalid("UPLOAD_RESPONSE_NUM_STREAMS"@, value))
            &&& fourth && first_is(variables.timeout_ms@, Some(value)) ==> found == Err::<
                ServiceNumbers,
                SettingFault,
            >(SettingFault::Invalid("UPLOAD_RESPONSE_TIMEOUT_MS"@, value))
            &&& fifth && text_of(variables.max_inflight) == Some(value) ==> found == Err::<
                ServiceNumbers,
                SettingFault,
            >(SettingFault::Invalid("UPLOAD_RESPONSE_MAX_INFLIGHT"@, value))
        }),
{
    let word = usize::MAX as nat;
    let streams: nat = if asr_concurrency < 2 {
        2
    } else {
        asr_concurrency
    };
    law_number_settings("UPLOAD_RESPONSE_SLOT_SIZE_KB"@, value, 0, word, 32);
    law_number_settings("UPLOAD_RESPONSE_RING_BYTES"@, value, 0, word, 67_108_864);
    law_number_settings("UPLOAD_RESPONSE_SLOTS_PER_STREAM"@, value, 0, word, 0);
    law_number_settings("UPLOAD_RESPONSE_NUM_STREAMS"@, value, 0, word, streams);
    law_number_settings("UPLOAD_RESPONSE_MAX_INFLIGHT"@, value, 0, word, asr_concurrency);
    law_timeout(variables.timeout_ms@, value, 0);
    if unset(text_of(variables.slot_size_kb)) {
        lemma_comes_to("UPLOAD_RESPONSE_SLOT_SIZE_KB"@, variables.slot_size_kb, 32, word, 32);
    }
    if unset(text_of(variables.ring_bytes)) {
        lemma_comes_to(
            "UPLOAD_RESPONSE_RING_BYTES"@,
            variables.ring_bytes,
            67_108_864,
            word,
            67_108_864,
        );
    }
    if unset(text_of(variables.slots_per_stream)) {
        match text_of(variables.slots_per_stream) {
            Some(blank) => law_number_settings(
                "UPLOAD_RESPONSE_SLOTS_PER_STREAM"@,
                blank,
                0,
                word,
                0,
            ),
            None => {},
        }
    }
    if unset(text_of(variables.num_streams)) {
        lemma_comes_to(
            "UPLOAD_RESPONSE_NUM_STREAMS"@,
            variables.num_streams,
            streams,
            word,
            streams,
        );
    }
}

/// A worker is named by its number.
pub proof fn law_worker_names(first: nat, second: nat)
    ensures
        worker_name(first) == "media-research-worker-"@ + text::decimal(first),
        first != second ==> worker_name(first) != worker_name(second),
{
    let prefix = "media-research-worker-"@;
    if worker_name(first) == worker_name(second) {
        let skip = prefix.len() as int;
        assert(worker_name(first).skip(skip) =~= text::decimal(first));
        assert(worker_name(second).skip(skip) =~= text::decimal(second));
        text::lemma_decimal_round_trip(first);
        text::lemma_decimal_round_trip(second);
    }
}

/// A slot of so many kilobytes has 1024 times as many bytes, as far as a machine word counts, and
/// at least one. A stream has as many slots as configured, or as many as its ring takes, and at
/// least three.
pub proof fn law_stream_sizes(slot_size_kb: usize, slots: usize, ring_bytes: usize)
    ensures
        slot_bytes(0) == 1,
        slot_size_kb > 0 && slot_size_kb * 1024 <= usize::MAX ==> slot_bytes(slot_size_kb as int)
            == slot_size_kb * 1024,
        slot_size_kb * 1024 > usize::MAX ==> slot_bytes(slot_size_kb as int) == usize::MAX,
        slots >= 3 ==> slots_per_stream(Some(slots), ring_bytes as int, slot_size_kb as int)
            == slots,
        slots < 3 ==> slots_per_stream(Some(slots), ring_bytes as int, slot_size_kb as int) == 3,
        ({
            let needed = slots_needed(ring_bytes as int, slot_bytes(slot_size_kb as int));
            let found = slots_per_stream(None, ring_bytes as int, slot_size_kb as int);
            &&& needed >= 3 ==> found == needed
            &&& needed < 3 ==> found == 3
        }),
        ({
            let slot = slot_bytes(slot_size_kb as int);
            let ring = if ring_bytes < slot {
                slot
            } else {
                ring_bytes as int
            };
            &&& ring + slot - 1 <= usize::MAX ==> slots_needed(ring_bytes as int, slot) == (ring
                + slot - 1) / slot
            &&& ring + slot - 1 > usize::MAX ==> slots_needed(ring_bytes as int, slot)
                == usize::MAX as int / slot
        }),
        saturated(slots * slot_size_kb) == if slots * slot_size_kb <= usize::MAX {
            slots * slot_size_kb
        } else {
            usize::MAX as int
        },
{
}

/// A service of a sweep runs on no port of its own and on the sweep's devices and sessions, logs
/// what the variable says or else informational lines, and has the numbers of the variables.
pub proof fn law_sweep_service(
    service: AsrConfig,
    variables: ServiceVariables,
    settings: BenchmarkSettings,
    numbers: ServiceNumbers,
)
    requires
        is_configured(service, variables, settings),
        service_numbers(variables, settings.asr_concurrency as nat) == Ok::<
            ServiceNumbers,
            SettingFault,
        >(numbers),
    ensures
        service.is_local(),
        service.port == 0,
        service.device_ids@ == settings.device_ids@,
        service.onnx_sessions == settings.onnx_sessions,
        service.upload_response_ingress_urls@.len() == 0,
        variables.rust_log is None ==> service.rust_log@ == "info"@,
        variables.rust_log is Some ==> service.rust_log@ == variables.rust_log->0@,
        service.cohere_max_new_tokens == numbers.max_new_tokens,
        service.upload_response_num_streams == numbers.num_streams,
        service.upload_response_slot_size_kb == numbers.slot_size_kb,
        service.upload_response_slots_per_stream == numbers.slots_per_stream,
        service.upload_response_timeout_ms == numbers.timeout_ms,
        service.upload_response_max_inflight == numbers.max_inflight,
{
}

/// A service of a local stack is set up to poll and to report at these intervals, over the local
/// connection only.
pub proof fn law_local_service(service: AsrConfig)
    requires
        service.is_local(),
    ensures
        service.enable_h3 == false,
        service.upload_response_insecure_tls == true,
        service.upload_response_watch_poll_ms == 1,
        service.upload_response_worker_poll_ms == 2,
        service.upload_response_discovery_interval_ms == 2000,
        service.upload_response_worker_heartbeat_interval_ms == 1000,
        service.upload_response_worker_ttl_ms == 5000,
{
}

/// A service of the stack takes its numbers and its log filter over from the configuration, and
/// runs one session on no device.
pub proof fn law_service_follows_configuration(service: AsrConfig, config: Config)
    requires
        service.follows(config),
    ensures
        service.is_local(),
        service.rust_log@ == config.rust_log@,
        service.device_ids@.len() == 0,
        service.onnx_sessions == 1,
        service.cohere_max_new_tokens == config.cohere_max_new_tokens,
        service.upload_response_num_streams == config.upload_response_num_streams,
        service.upload_response_slot_size_kb == config.upload_response_slot_size_kb,
        service.upload_response_timeout_ms == config.upload_response_timeout_ms,
        service.upload_response_max_inflight == config.upload_response_max_inflight,
        match config.upload_response_slots_per_stream {
            Some(slots) => service.upload_response_slots_per_stream == if slots < 3 {
                3
            } else {
                slots
            },
            None => service.upload_response_slots_per_stream == slots_per_stream(
                None,
                config.upload_response_ring_bytes as int,
                config.upload_response_slot_size_kb as int,
            ),
        },
{
}

/// The runtime is the configured one, which then has to be there, or else the first candidate
/// that is there.
pub proof fn law_runtime_is_the_first_there(
    configured: RuntimeFile,
    candidates: Seq<RuntimeFile>,
    at: int,
)
    ensures
        runtime_among(Some(configured), candidates) == if configured.present {
            Ok::<PathBuf, RuntimeError>(configured.path)
        } else {
            Err::<PathBuf, RuntimeError>(RuntimeError::ConfiguredMissing)
        },
        0 <= at < candidates.len() && candidates[at].present && (forall|i: int|
            0 <= i < at ==> !(#[trigger] candidates[i]).present) ==> runtime_among(None, candidates)
            == Ok::<PathBuf, RuntimeError>(candidates[at].path),
        (forall|i: int| 0 <= i < candidates.len() ==> !(#[trigger] candidates[i]).present)
            ==> runtime_among(None, candidates) == Err::<PathBuf, RuntimeError>(
            RuntimeError::NotFound,
        ),
{
    let there = presence(candidates);
    crate::stack::law_first_present(there);
    assert(forall|i: int|
        0 <= i < candidates.len() ==> there[i] == (#[trigger] candidates[i]).present);
    if 0 <= at < candidates.len() && candidates[at].present && (forall|i: int|
        0 <= i < at ==> !(#[trigger] candidates[i]).present) {
        match first_present(there) {
            Some(found) => {
                assert(candidates[found].present);
                assert(found >= at);
                assert(there[at]);
                assert(found <= at);
            },
            None => {
                assert(there[at]);
            },
        }
    }
}

/// The services run with the MLX backend, with the runtime that was found, and with the local
/// proxy on its port and in its mode.
pub proof fn law_process_environment(config: Config, runtime: PathBuf)
    ensures
        process_env(config, runtime).len() == 5,
        process_env(config, runtime).contains(("ASR_COHERE_BACKEND"@, EnvSetting::Text("mlx"@))),
        process_env(config, runtime).contains(
            ("ASR_MLX_TRANSCRIBE_BIN"@, EnvSetting::Path(runtime)),
        ),
        process_env(config, runtime).contains(
            ("AV_INGEST_PROXY_LOCAL_HTTP"@, EnvSetting::Text("1"@)),
        ),
        process_env(config, runtime).contains(
            ("AV_INGEST_PROXY_PORT"@, EnvSetting::Text(text::decimal(config.av_port as nat))),
        ),
        process_env(config, runtime).contains(
            ("AV_INGEST_PROXY_RESOLVE_MODE"@, EnvSetting::Text(config.av_resolve_mode@)),
        ),
{
    let all = process_env(config, runtime);
    assert(all[0] == ("ASR_COHERE_BACKEND"@, EnvSetting::Text("mlx"@)));
    assert(all[1] == ("ASR_MLX_TRANSCRIBE_BIN"@, EnvSetting::Path(runtime)));
    assert(all[2] == ("AV_INGEST_PROXY_LOCAL_HTTP"@, EnvSetting::Text("1"@)));
    assert(all[3] == (
        "AV_INGEST_PROXY_PORT"@,
        EnvSetting::Text(text::decimal(config.av_port as nat)),
    ));
    assert(all[4] == (
        "AV_INGEST_PROXY_RESOLVE_MODE"@,
        EnvSetting::Text(config.av_resolve_mode@),
    ));
}

/// Each error says what is wrong with the configuration.
pub proof fn law_error_messages()
    ensures
        ConfigError::SamePort.spec_message() == "av-ingest and ASR must use different ports"@,
        ConfigError::NoStreams.spec_message()
            == "UPLOAD_RESPONSE_NUM_STREAMS must be greater than zero"@,
        ConfigError::NoInflight.spec_message()
            == "UPLOAD_RESPONSE_MAX_INFLIGHT must be greater than zero"@,
        crate::cache_run::CacheRunError::NoConcurrency.spec_message()
            == "cache concurrency must be positive"@,
        crate::cache_run::CacheRunError::NoUrls.spec_message()
            == "source manifest contains no URLs"@,
{
}

} // verus!
