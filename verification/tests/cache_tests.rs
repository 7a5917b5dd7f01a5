//! The build cache: fingerprints, skip and rebuild decisions, and the
//! persisted JSON mapping.

use testprog::{
    compute_fingerprint, parse_cache, u128_to_hex, BuildFileError, BuildOpts, CacheEntry,
    Database,
};

fn opts(defines: &[&[u8]], compiler_args: Option<&[u8]>, no_default_args: bool) -> BuildOpts {
    BuildOpts {
        defines: defines.iter().map(|d| d.to_vec()).collect(),
        compiler_args: compiler_args.map(|a| a.to_vec()),
        no_default_args,
        targets: vec![],
    }
}

#[test]
fn fingerprint_is_deterministic() {
    let o = opts(&[b"DEBUG=1"], Some(b"-O2"), false);
    let first = compute_fingerprint(b"int main() {}\n", &o);
    let second = compute_fingerprint(b"int main() {}\n", &o);
    assert_eq!(first, second);
}

#[test]
fn fingerprint_tracks_content_and_options() {
    let o = opts(&[], None, false);
    let base = compute_fingerprint(b"int main() {}\n", &o);
    // a changed byte of the source changes the fingerprint
    assert_ne!(base, compute_fingerprint(b"int main() { }\n", &o));
    // a new define changes the fingerprint
    assert_ne!(base, compute_fingerprint(b"int main() {}\n", &opts(&[b"X=1"], None, false)));
    // changed extra arguments change the fingerprint
    assert_ne!(base, compute_fingerprint(b"int main() {}\n", &opts(&[], Some(b"-O2"), false)));
    // the default-flags switch changes the fingerprint
    assert_ne!(base, compute_fingerprint(b"int main() {}\n", &opts(&[], None, true)));
}

#[test]
fn fingerprint_matches_the_content_digest() {
    // the content digest is the first 16 bytes of the BLAKE3 extended
    // output, read little-endian; with no options folded in beyond the
    // empty lists, two sources differing only in content must track the
    // digests computed directly
    let mut hasher = blake3::Hasher::new();
    hasher.update(b"source text");
    let mut buf = [0u8; 16];
    hasher.finalize_xof().fill(&mut buf);
    let digest = u128::from_le_bytes(buf);

    let o = opts(&[], None, false);
    let with_same = compute_fingerprint(b"source text", &o);
    // folding the empty option set is an exclusive or with a fixed mask:
    // recomputing on the digest-equal source gives the same value
    assert_eq!(with_same, compute_fingerprint(b"source text", &o));
    // and the digest itself differs from the folded fingerprint by the
    // options mask, so equal digests give equal fingerprints
    let other = compute_fingerprint(b"other text", &o);
    let mut hasher2 = blake3::Hasher::new();
    hasher2.update(b"other text");
    let mut buf2 = [0u8; 16];
    hasher2.finalize_xof().fill(&mut buf2);
    let digest2 = u128::from_le_bytes(buf2);
    assert_eq!(with_same ^ digest, other ^ digest2);
}

#[test]
fn cache_skip_when_fingerprint_matches() {
    let mut db = Database::new_empty(b"cache.json".to_vec(), b"out".to_vec());
    let o = opts(&[], None, false);
    let plan = db.build_file(b"prog.cpp", b"int main() {}\n", &o, false).expect("a valid source");
    assert!(plan.needs_build);
    assert!(plan.command.is_some());
    db.record_built(b"prog.cpp", plan.fingerprint);
    // the stored fingerprint now equals the computed one: no rebuild,
    // and no compiler command is handed out at all
    let again = db.build_file(b"prog.cpp", b"int main() {}\n", &o, false).expect("a valid source");
    assert!(!again.needs_build);
    assert!(again.command.is_none());
    assert!(!db.needs_build(b"prog.cpp", plan.fingerprint));
}

#[test]
fn cache_rebuild_when_options_change() {
    let mut db = Database::new_empty(b"cache.json".to_vec(), b"out".to_vec());
    let plain = opts(&[], None, false);
    let plan = db.build_file(b"prog.cpp", b"int main() {}\n", &plain, false).expect("valid");
    db.record_built(b"prog.cpp", plan.fingerprint);
    // editing a define changes the fingerprint, so the build runs again
    let defined = opts(&[b"N=7"], None, false);
    let rebuilt = db.build_file(b"prog.cpp", b"int main() {}\n", &defined, false).expect("valid");
    assert!(rebuilt.needs_build);
    assert_ne!(rebuilt.fingerprint, plan.fingerprint);
    // the stored fingerprint is only updated by the success report
    assert!(db.needs_build(b"prog.cpp", rebuilt.fingerprint));
    db.record_built(b"prog.cpp", rebuilt.fingerprint);
    assert!(!db.needs_build(b"prog.cpp", rebuilt.fingerprint));
}

#[test]
fn build_file_rejects_absolute_paths() {
    let mut db = Database::new_empty(b"cache.json".to_vec(), b"out".to_vec());
    let o = opts(&[], None, false);
    let err = db.build_file(b"/etc/prog.cpp", b"", &o, false).unwrap_err();
    assert_eq!(err, BuildFileError::AbsolutePath);
}

#[test]
fn build_file_rejects_non_c_sources() {
    let mut db = Database::new_empty(b"cache.json".to_vec(), b"out".to_vec());
    let o = opts(&[], None, false);
    assert_eq!(db.build_file(b"prog.py", b"", &o, false).unwrap_err(), BuildFileError::NotCSource);
    assert_eq!(db.build_file(b"prog", b"", &o, false).unwrap_err(), BuildFileError::NotCSource);
    assert!(db.build_file(b"dir/prog.c", b"", &o, false).is_ok());
}

#[test]
fn build_plan_paths_derive_from_the_source() {
    let mut db = Database::new_empty(b"cache.json".to_vec(), b"out".to_vec());
    let o = opts(&[], None, false);
    let plan = db.build_file(b"dir/prog.cpp", b"x", &o, true).expect("valid");
    assert_eq!(plan.source, b"dir/prog.cpp".to_vec());
    assert_eq!(plan.binary, b"out/dir/prog".to_vec());
    assert_eq!(plan.samples_out, Some(b"dir/prog.samples".to_vec()));
    let command = plan.command.expect("a first build runs the compiler");
    assert_eq!(command[0], b"g++".to_vec());
    assert_eq!(command[command.len() - 2], b"out/dir/prog".to_vec());
    assert_eq!(command[command.len() - 1], b"dir/prog.cpp".to_vec());
}

#[test]
fn entry_from_serialized_derives_paths() {
    let entry = CacheEntry::from_serialized(b"week1/task.cpp", 7, b"out", true);
    assert_eq!(entry.source_hash, 7);
    assert_eq!(entry.source, b"week1/task.cpp".to_vec());
    assert_eq!(entry.binary, b"out/week1/task".to_vec());
    assert_eq!(entry.samples_out, Some(b"week1/task.samples".to_vec()));
    let without = CacheEntry::from_serialized(b"task.cpp", 0, b"out", false);
    assert_eq!(without.samples_out, None);
    assert_eq!(without.binary, b"out/task".to_vec());
}

#[test]
fn hex_rendering_is_fixed_width_lowercase() {
    assert_eq!(u128_to_hex(0), b"00000000000000000000000000000000".to_vec());
    assert_eq!(u128_to_hex(0xdeadbeef), b"000000000000000000000000deadbeef".to_vec());
    assert_eq!(u128_to_hex(u128::MAX), b"ffffffffffffffffffffffffffffffff".to_vec());
}

#[test]
fn cache_file_round_trip() {
    let mut db = Database::new_empty(b"cache.json".to_vec(), b"out".to_vec());
    let o = opts(&[], None, false);
    let plan = db.build_file(b"a.cpp", b"alpha", &o, false).expect("valid");
    db.record_built(b"a.cpp", plan.fingerprint);
    let plan_b = db.build_file(b"b.c", b"beta", &o, false).expect("valid");
    db.record_built(b"b.c", plan_b.fingerprint);

    let text = db.save_text().expect("sources are text");
    let records = parse_cache(&text).expect("what was written parses back");
    assert_eq!(records.len(), 2);
    // the JSON object comes back sorted by key
    assert_eq!(records[0].source, b"a.cpp".to_vec());
    assert_eq!(records[0].fingerprint, plan.fingerprint);
    assert_eq!(records[1].source, b"b.c".to_vec());
    assert_eq!(records[1].fingerprint, plan_b.fingerprint);
    assert!(!records[0].samples_present);

    let reloaded = Database::new(b"cache.json".to_vec(), b"out".to_vec(), &records);
    assert!(!reloaded.needs_build(b"a.cpp", plan.fingerprint));
    assert!(reloaded.needs_build(b"a.cpp", plan_b.fingerprint));
}

#[test]
fn parse_cache_reads_plain_json() {
    let text = b"{\n  \"prog.cpp\": \"000000000000000000000000000000ff\"\n}";
    let records = parse_cache(text).expect("a well-formed cache");
    assert_eq!(records.len(), 1);
    assert_eq!(records[0].source, b"prog.cpp".to_vec());
    assert_eq!(records[0].fingerprint, 0xff);
}

#[test]
fn parse_cache_rejects_corrupt_files() {
    // not JSON at all
    assert!(parse_cache(b"not json").is_none());
    // a JSON object whose value is no 32-digit fingerprint
    assert!(parse_cache(b"{\"a\": \"zz\"}").is_none());
    assert!(parse_cache(b"{\"a\": \"ff\"}").is_none());
    // the wrong JSON shape
    assert!(parse_cache(b"[1, 2, 3]").is_none());
}

#[test]
fn save_text_writes_the_json_object() {
    let mut db = Database::new_empty(b"cache.json".to_vec(), b"out".to_vec());
    let o = opts(&[], None, false);
    let plan = db.build_file(b"p.c", b"src", &o, false).expect("valid");
    db.record_built(b"p.c", plan.fingerprint);
    let text = db.save_text().expect("sources are text");
    let expected = format!(
        "{{\n  \"p.c\": \"{}\"\n}}",
        String::from_utf8(u128_to_hex(plan.fingerprint)).unwrap()
    );
    assert_eq!(String::from_utf8(text).unwrap(), expected);
}
