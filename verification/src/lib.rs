//! An incremental build-and-test engine for single-file native programs,
//! checked against a corpus of named input/expected-output fixtures.
//!
//! The library holds the logic: the content-addressable build cache and
//! its invalidation rule, the self-delimiting fixture-corpus format with
//! its parser and encoder, the directory variant of the corpus, the
//! per-fixture execution bookkeeping, and the small decision procedures
//! around them. File, process and terminal work belongs to the
//! surrounding program, which hands the library plain values — paths and
//! text as byte strings — and takes plain values back.

mod bytes;
mod cache;
mod collect;
mod corpus;
mod executor;
mod fingerprint;
mod hex;
mod logger;
mod options;
mod pathname;
mod present;
mod report;

pub use bytes::{
    bytes_eq, bytes_less, bytes_lt, ends_with, is_prefix_of, is_suffix_of, replace_byte,
    replaced_byte, split_byte, split_on, split_whitespace, trim, trim_end,
    trim_end_spec, trim_spec, views_of, ws_tokens,
};
pub use cache::{
    cache_records_of, compute_fingerprint, entry_views, fingerprint_at, has_source,
    json_object_entries, json_object_text, lemma_cache_rebuild, lemma_cache_skip,
    lemma_fingerprint_invariance, lemma_fingerprint_tracks_content, loaded_entries, parse_cache,
    record_views, save_pairs, serialized_entry, source_fingerprint, source_index,
    spec_needs_build, BuildFileError, BuildPlan, CacheEntry, CacheRecord, Database, EntryModel,
    RecordModel,
};
pub use collect::{
    classify_sample_file, collect_error_views, complete_pairs, complete_pairs_of, group_views,
    one_sided_errors, pair_model_views, sample_key, visited_errors, visited_groups, CollectError,
    CollectErrorKind, CollectErrorModel, GroupModel, PairModel, SampleCollector, SampleGroup,
    SamplePair, TraversalEvent, TraversalResponse,
};
pub use corpus::{
    corpus_errors, corpus_fixtures, corpus_sections, encodable, encoded_corpus, encoded_fixture,
    error_views, first_newline, fixture_views, in_suffix, items_of, lemma_corpus_round_trip,
    make_samples_string, out_suffix, parse_corpus, parse_items, CorpusError, CorpusErrorKind,
    CorpusErrorModel, Fixture, FixtureModel, Sample, SampleIterator,
};
pub use executor::{
    artifact_base, artifact_base_path, artifact_paths, artifact_paths_of, compare_output,
    lemma_verdict_is_byte_equality, outcome_of, ArtifactModel, ArtifactPaths, FixtureRun,
    TestOutcome, TestPhase,
};
pub use fingerprint::{
    append_hash, blake3_128_of, encoded_flag, encoded_list, encoded_option, fnv1a, fnv1a_hash,
    lemma_fold_preserves_distinctness, widened,
};
pub use hex::{
    hex_of, hex_value, is_hex_digit, lemma_hex_round_trip, parse_hex128, u128_to_hex,
    valid_hex128,
};
pub use logger::{
    level_for, level_label, logger_from_config_spec, make_logger_from_config, status_colors,
    CustomLogger, Level, LevelFilter, LogColor, LogLinePlan,
};
pub use options::{
    archive_stem, bin_placeholder, build_options_of, compile_command, compile_command_spec,
    default_convert_output, default_convert_output_spec, has_placeholder, substitute_bin,
    with_substituted_bins, BuildOpts, Command, Interactivity, Os,
};
pub use pathname::{
    extension, file_name, is_absolute, is_absolute_path, join, last_byte_index, path_extension,
    path_file_name, path_join, path_with_extension, with_extension,
};
pub use present::{
    diff_action, diff_action_of, lemma_show_immediately, lemma_skip_never_prompts, prompt_answer,
    prompt_answer_of, DiffAction, PromptAnswer,
};
pub use report::{report, report_custom, report_io_error, AlreadyReported};
