//! The content-addressable build cache.
//!
//! The cache maps each tracked source path to the fingerprint of its last
//! successful build and to the paths derived from it. A source is rebuilt
//! exactly when no entry exists or the stored fingerprint differs from the
//! freshly computed one, and the stored fingerprint is overwritten only
//! once the surrounding program reports that the build succeeded, so a
//! failed build leaves the old fingerprint in place.
//!
//! On disk the cache is one JSON object mapping source-path strings to
//! 32-digit lowercase hexadecimal fingerprint strings. A missing file is a
//! cold cache; a file that does not parse is corrupt, which the caller
//! treats as fatal for the run.

use vstd::prelude::*;

use crate::bytes::{bytes_eq, views_of};
use crate::fingerprint::{
    append_hash, blake3_128_of, content_hash, encode_flag, encode_list, encode_option,
    encoded_flag, encoded_list, encoded_option, fnv1a, widened,
};
use crate::hex::{hex_of, hex_value, parse_hex128, u128_to_hex, valid_hex128};
use crate::options::BuildOpts;
use crate::pathname::{
    extension, is_absolute, is_absolute_path, path_extension, path_join, path_with_extension,
    with_extension,
};

verus! {

/// One tracked source file: its path, the fingerprint of its last
/// successful build (zero until a first build succeeds), and the derived
/// output paths.
pub struct CacheEntry {
    /// Fingerprint of the last successful build, or zero.
    pub source_hash: u128,
    /// The source file, the cache key.
    pub source: Vec<u8>,
    /// The binary built from the source: the source path rebased under the
    /// output root, extension stripped.
    pub binary: Vec<u8>,
    /// The extracted fixture corpus beside the source, present only when
    /// extraction has happened.
    pub samples_out: Option<Vec<u8>>,
}

/// The mathematical value of a `CacheEntry`.
#[verifier::ext_equal]
pub struct EntryModel {
    pub source_hash: u128,
    pub source: Seq<u8>,
    pub binary: Seq<u8>,
    pub samples_out: Option<Seq<u8>>,
}

impl View for CacheEntry {
    type V = EntryModel;

    open spec fn view(&self) -> EntryModel {
        EntryModel {
            source_hash: self.source_hash,
            source: self.source@,
            binary: self.binary@,
            samples_out: match self.samples_out {
                Option::Some(p) => Option::Some(p@),
                Option::None => Option::None,
            },
        }
    }
}

/// The extension of an extracted fixture corpus: `samples`.
pub open spec fn samples_extension() -> Seq<u8> {
    seq![0x73u8, 0x61u8, 0x6du8, 0x70u8, 0x6cu8, 0x65u8, 0x73u8]
}

/// The entry a stored record denotes: the corpus path is the source with
/// its extension replaced by `samples`, and the binary is the source
/// rebased under the output root with its extension removed.
pub open spec fn serialized_entry(
    source: Seq<u8>,
    source_hash: u128,
    out_dir: Seq<u8>,
    samples_present: bool,
) -> EntryModel {
    EntryModel {
        source_hash: source_hash,
        source: source,
        binary: path_with_extension(path_join(out_dir, source), Seq::<u8>::empty()),
        samples_out: if samples_present {
            Option::Some(path_with_extension(source, samples_extension()))
        } else {
            Option::None
        },
    }
}

impl CacheEntry {
    /// Rebuilds an entry from its stored key and fingerprint.
    /// `samples_present` says whether the extracted corpus exists beside
    /// the source, which only the surrounding program can know.
    pub fn from_serialized(
        source_file: &[u8],
        source_hash: u128,
        out_dir: &[u8],
        samples_present: bool,
    ) -> (r: CacheEntry)
        ensures
            r@ == serialized_entry(source_file@, source_hash, out_dir@, samples_present),
    {
        let samples_ext: [u8; 7] = [0x73, 0x61, 0x6d, 0x70, 0x6c, 0x65, 0x73];
        let joined = crate::pathname::join(out_dir, source_file);
        let binary = with_extension(joined.as_slice(), &[]);
        let samples_out = if samples_present {
            Some(with_extension(source_file, samples_ext.as_slice()))
        } else {
            None
        };
        let r = CacheEntry {
            source_hash,
            source: vstd::slice::slice_to_vec(source_file),
            binary,
            samples_out,
        };
        proof {
            assert(samples_ext@ =~= samples_extension());
            assert(r@ =~= serialized_entry(source_file@, source_hash, out_dir@, samples_present));
        }
        r
    }
}

/// One record read from the cache file. `samples_present` starts false;
/// the surrounding program sets it after checking the filesystem.
pub struct CacheRecord {
    pub source: Vec<u8>,
    pub fingerprint: u128,
    pub samples_present: bool,
}

/// The mathematical value of a `CacheRecord`.
#[verifier::ext_equal]
pub struct RecordModel {
    pub source: Seq<u8>,
    pub fingerprint: u128,
    pub samples_present: bool,
}

impl View for CacheRecord {
    type V = RecordModel;

    open spec fn view(&self) -> RecordModel {
        RecordModel {
            source: self.source@,
            fingerprint: self.fingerprint,
            samples_present: self.samples_present,
        }
    }
}

/// The views of a vector of records.
pub open spec fn record_views(records: Seq<CacheRecord>) -> Seq<RecordModel> {
    records.map_values(|r: CacheRecord| r@)
}

/// The views of a vector of entries.
pub open spec fn entry_views(entries: Seq<CacheEntry>) -> Seq<EntryModel> {
    entries.map_values(|e: CacheEntry| e@)
}

/// The index of the entry for `s`, or `-1` if none.
pub open spec fn source_index(m: Seq<EntryModel>, s: Seq<u8>) -> int
    decreases m.len(),
{
    if m.len() == 0 {
        -1
    } else if m[0].source == s {
        0
    } else {
        let r = source_index(m.skip(1), s);
        if r == -1 {
            -1
        } else {
            r + 1
        }
    }
}

/// Whether the cache holds an entry for `s`.
pub open spec fn has_source(m: Seq<EntryModel>, s: Seq<u8>) -> bool {
    source_index(m, s) >= 0
}

/// The stored fingerprint of `s`.
pub open spec fn fingerprint_at(m: Seq<EntryModel>, s: Seq<u8>) -> u128 {
    m[source_index(m, s)].source_hash
}

/// The rebuild rule: build exactly when no entry exists or the stored
/// fingerprint differs from the computed one.
pub open spec fn spec_needs_build(m: Seq<EntryModel>, s: Seq<u8>, fp: u128) -> bool {
    !has_source(m, s) || fingerprint_at(m, s) != fp
}

proof fn lemma_source_index_in_range(m: Seq<EntryModel>, s: Seq<u8>)
    ensures
        source_index(m, s) == -1 || (0 <= source_index(m, s) < m.len() && m[source_index(
            m,
            s,
        )].source == s),
    decreases m.len(),
{
    if m.len() == 0 {
    } else if m[0].source == s {
    } else {
        lemma_source_index_in_range(m.skip(1), s);
    }
}

proof fn lemma_source_index_at(m: Seq<EntryModel>, s: Seq<u8>, i: int)
    requires
        0 <= i <= m.len(),
        forall|j: int| 0 <= j < i ==> m[j].source != s,
        i < m.len() ==> m[i].source == s,
    ensures
        source_index(m, s) == if i < m.len() {
            i
        } else {
            -1
        },
    decreases m.len(),
{
    if m.len() == 0 {
    } else if m[0].source == s {
    } else {
        lemma_source_index_at(m.skip(1), s, i - 1);
    }
}

/// The entries a list of stored records loads into: one entry per record,
/// in order, later duplicates of a source ignored.
pub open spec fn loaded_entries(records: Seq<RecordModel>, out_dir: Seq<u8>) -> Seq<EntryModel>
    decreases records.len(),
{
    if records.len() == 0 {
        seq![]
    } else {
        let prev = loaded_entries(records.drop_last(), out_dir);
        let rec = records.last();
        if has_source(prev, rec.source) {
            prev
        } else {
            prev.push(serialized_entry(rec.source, rec.fingerprint, out_dir, rec.samples_present))
        }
    }
}

/// All sources in the cache are distinct.
pub open spec fn wf_entries(m: Seq<EntryModel>) -> bool {
    forall|i: int, j: int| 0 <= i < j < m.len() ==> m[i].source != m[j].source
}

/// The persisted mapping from source files to fingerprints and derived
/// paths; the single owner of rebuild decisions for one run.
pub struct Database {
    /// Where the mapping is persisted.
    pub cache_file: Vec<u8>,
    /// The output root under which binaries are placed.
    pub out_dir: Vec<u8>,
    entries: Vec<CacheEntry>,
}

impl Database {
    /// The entries, in insertion order.
    pub closed spec fn model(self) -> Seq<EntryModel> {
        entry_views(self.entries@)
    }

    /// Where the mapping is persisted.
    pub closed spec fn cache_file_spec(self) -> Seq<u8> {
        self.cache_file@
    }

    /// The output root under which binaries are placed.
    pub closed spec fn out_dir_spec(self) -> Seq<u8> {
        self.out_dir@
    }

    /// The cache's sources are distinct.
    pub open spec fn wf(self) -> bool {
        wf_entries(self.model())
    }

    /// A cold cache: no entries, as after a run with no cache file.
    pub fn new_empty(cache_file: Vec<u8>, out_dir: Vec<u8>) -> (r: Database)
        ensures
            r.model() =~= Seq::<EntryModel>::empty(),
            r.wf(),
            r.cache_file_spec() == cache_file@,
            r.out_dir_spec() == out_dir@,
    {
        let r = Database { cache_file, out_dir, entries: Vec::new() };
        proof {
            assert(r.model() =~= Seq::<EntryModel>::empty());
        }
        r
    }

    /// A cache loaded from stored records, one entry per record in order;
    /// a record whose source is already present is ignored.
    pub fn new(cache_file: Vec<u8>, out_dir: Vec<u8>, records: &Vec<CacheRecord>) -> (r: Database)
        ensures
            r.model() == loaded_entries(record_views(records@), out_dir@),
            r.wf(),
            r.cache_file_spec() == cache_file@,
            r.out_dir_spec() == out_dir@,
    {
        let mut db = Database::new_empty(cache_file, out_dir);
        let n = records.len();
        let mut i: usize = 0;
        proof {
            assert(record_views(records@).take(0) =~= Seq::<RecordModel>::empty());
            assert(loaded_entries(record_views(records@).take(0), db.out_dir@) =~= db.model());
        }
        while i < n
            invariant
                n == records@.len(),
                0 <= i <= n,
                db.wf(),
                db.cache_file_spec() == cache_file@,
                db.out_dir_spec() == out_dir@,
                db.model() == loaded_entries(record_views(records@).take(i as int), db.out_dir@),
            decreases n - i,
        {
            let ghost views = record_views(records@);
            proof {
                assert(views.take(i + 1).drop_last() =~= views.take(i as int));
                assert(views.take(i + 1).last() == views[i as int]);
            }
            let record = &records[i];
            match db.find_entry(record.source.as_slice()) {
                Some(_) => (),
                None => {
                    let entry = CacheEntry::from_serialized(
                        record.source.as_slice(),
                        record.fingerprint,
                        db.out_dir.as_slice(),
                        record.samples_present,
                    );
                    let ghost before = db.model();
                    db.entries.push(entry);
                    proof {
                        assert(db.model() =~= before + seq![db.entries@.last()@]);
                        assert forall|a: int, b: int|
                            0 <= a < b < db.model().len() implies db.model()[a].source
                            != db.model()[b].source by {
                            if b == db.model().len() - 1 {
                                lemma_source_index_in_range(before, db.model()[b].source);
                                if before[a].source == db.model()[b].source {
                                    lemma_source_index_at_found(before, db.model()[b].source, a);
                                }
                            }
                        }
                    }
                },
            }
            i = i + 1;
        }
        proof {
            assert(record_views(records@).take(n as int) =~= record_views(records@));
        }
        db
    }

    /// Finds the entry for a source, if any.
    fn find_entry(&self, source: &[u8]) -> (r: Option<usize>)
        ensures
            match r {
                Some(i) => 0 <= i < self.model().len() && i == source_index(
                    self.model(),
                    source@,
                ),
                None => !has_source(self.model(), source@),
            },
    {
        let n = self.entries.len();
        let mut i: usize = 0;
        while i < n
            invariant
                n == self.entries@.len(),
                0 <= i <= n,
                forall|j: int| 0 <= j < i ==> entry_views(self.entries@)[j].source != source@,
            decreases n - i,
        {
            if bytes_eq(self.entries[i].source.as_slice(), source) {
                proof {
                    lemma_source_index_at(self.model(), source@, i as int);
                }
                return Some(i);
            }
            i = i + 1;
        }
        proof {
            lemma_source_index_at(self.model(), source@, n as int);
        }
        None
    }

    /// The rebuild decision: true exactly when no entry exists for the
    /// source or its stored fingerprint differs from `fingerprint`.
    pub fn needs_build(&self, source: &[u8], fingerprint: u128) -> (r: bool)
        ensures
            r == spec_needs_build(self.model(), source@, fingerprint),
    {
        match self.find_entry(source) {
            Some(i) => self.entries[i].source_hash != fingerprint,
            None => true,
        }
    }
}

proof fn lemma_source_index_at_found(m: Seq<EntryModel>, s: Seq<u8>, a: int)
    requires
        0 <= a < m.len(),
        m[a].source == s,
    ensures
        has_source(m, s),
    decreases m.len(),
{
    if m[0].source == s {
    } else {
        lemma_source_index_at_found(m.skip(1), s, a - 1);
    }
}

proof fn lemma_source_index_same_sources(m1: Seq<EntryModel>, m2: Seq<EntryModel>, s: Seq<u8>)
    requires
        m1.len() == m2.len(),
        forall|i: int| 0 <= i < m1.len() ==> m1[i].source == m2[i].source,
    ensures
        source_index(m1, s) == source_index(m2, s),
    decreases m1.len(),
{
    if m1.len() == 0 {
    } else {
        assert forall|i: int| 0 <= i < m1.skip(1).len() implies m1.skip(1)[i].source == m2.skip(
            1,
        )[i].source by {
            assert(m1.skip(1)[i] == m1[i + 1] && m2.skip(1)[i] == m2[i + 1]);
        }
        lemma_source_index_same_sources(m1.skip(1), m2.skip(1), s);
    }
}

/// The fingerprint of one source: the digest of its bytes, with hashes of
/// the preprocessor defines, the extra compiler arguments and the
/// default-flags switch folded in.
pub open spec fn source_fingerprint(content: Seq<u8>, opts: &BuildOpts) -> u128 {
    blake3_128_of(content) ^ widened(fnv1a(encoded_list(views_of(opts.defines@)))) ^ widened(
        fnv1a(encoded_option(crate::options::compiler_args_view(opts))),
    ) ^ widened(fnv1a(encoded_flag(opts.no_default_args)))
}

/// Computes the fingerprint of one (source content, build options) pair.
pub fn compute_fingerprint(content: &[u8], opts: &BuildOpts) -> (r: u128)
    ensures
        r == source_fingerprint(content@, opts),
{
    let mut h = content_hash(content);
    let defines_enc = encode_list(&opts.defines);
    append_hash(&mut h, defines_enc.as_slice());
    let args_enc = encode_option(&opts.compiler_args);
    append_hash(&mut h, args_enc.as_slice());
    let flag_enc = encode_flag(opts.no_default_args);
    append_hash(&mut h, flag_enc.as_slice());
    h
}

/// Law: fingerprints are a function of the content digest and the build
/// options alone, so hashing the same source with the same options twice
/// yields the same fingerprint.
pub proof fn lemma_fingerprint_invariance(
    c1: Seq<u8>,
    c2: Seq<u8>,
    opts1: &BuildOpts,
    opts2: &BuildOpts,
)
    requires
        c1 == c2,
        opts1.defines@ == opts2.defines@,
        opts1.compiler_args == opts2.compiler_args,
        opts1.no_default_args == opts2.no_default_args,
    ensures
        source_fingerprint(c1, opts1) == source_fingerprint(c2, opts2),
{
}

/// Law: for fixed build options, two sources have equal fingerprints
/// exactly when their content digests are equal; the option folds cancel.
pub proof fn lemma_fingerprint_tracks_content(c1: Seq<u8>, c2: Seq<u8>, opts: &BuildOpts)
    ensures
        (source_fingerprint(c1, opts) == source_fingerprint(c2, opts)) <==> (blake3_128_of(c1)
            == blake3_128_of(c2)),
{
    let b1 = blake3_128_of(c1);
    let b2 = blake3_128_of(c2);
    let m1 = widened(fnv1a(encoded_list(views_of(opts.defines@))));
    let m2 = widened(fnv1a(encoded_option(crate::options::compiler_args_view(opts))));
    let m3 = widened(fnv1a(encoded_flag(opts.no_default_args)));
    assert((b1 ^ m1 ^ m2 ^ m3 == b2 ^ m1 ^ m2 ^ m3) <==> b1 == b2) by (bit_vector);
}

/// The extension of a C source file: `c`.
pub open spec fn c_extension() -> Seq<u8> {
    seq![0x63u8]
}

/// The extension of a C++ source file: `cpp`.
pub open spec fn cpp_extension() -> Seq<u8> {
    seq![0x63u8, 0x70u8, 0x70u8]
}

/// A path the build accepts: a C or C++ source file.
pub open spec fn is_c_source(p: Seq<u8>) -> bool {
    path_extension(p) == Option::Some(c_extension()) || path_extension(p) == Option::Some(
        cpp_extension(),
    )
}

/// Why a source file cannot be built.
#[derive(Clone, Copy, PartialEq, Eq, Structural, Debug)]
pub enum BuildFileError {
    /// The source path is absolute; targets are relative to the root.
    AbsolutePath,
    /// The source file is not a C or C++ source file.
    NotCSource,
}

/// Everything one build step needs: the paths involved, the freshly
/// computed fingerprint, and whether the compiler must run at all.
#[derive(Debug)]
pub struct BuildPlan {
    pub source: Vec<u8>,
    pub binary: Vec<u8>,
    pub samples_out: Option<Vec<u8>>,
    pub fingerprint: u128,
    pub needs_build: bool,
    /// The compiler invocation to run, present exactly when the build is
    /// due: a skipped build hands no command out at all.
    pub command: Option<Vec<Vec<u8>>>,
}

pub(crate) fn copy_opt_bytes(o: &Option<Vec<u8>>) -> (r: Option<Vec<u8>>)
    ensures
        match r {
            Some(v) => o is Some && v@ == o.unwrap()@,
            None => o is None,
        },
{
    match o {
        Some(v) => Some(vstd::slice::slice_to_vec(v.as_slice())),
        None => None,
    }
}

impl Database {
    /// Decides one build: validates the source path, computes the
    /// fingerprint of its content and options, creates the entry on first
    /// reference, and says whether the compiler must run. The stored
    /// fingerprint is not touched; `record_built` overwrites it once the
    /// build has succeeded.
    pub fn build_file(
        &mut self,
        source_file: &[u8],
        source_content: &[u8],
        opts: &BuildOpts,
        samples_present: bool,
    ) -> (r: Result<BuildPlan, BuildFileError>)
        requires
            old(self).wf(),
        ensures
            final(self).wf(),
            final(self).cache_file_spec() == old(self).cache_file_spec(),
            final(self).out_dir_spec() == old(self).out_dir_spec(),
            r is Ok <==> !is_absolute_path(source_file@) && is_c_source(source_file@),
            match r {
                Result::Err(e) => {
                    &&& final(self).model() == old(self).model()
                    &&& (e == BuildFileError::AbsolutePath <==> is_absolute_path(source_file@))
                },
                Result::Ok(plan) => {
                    &&& plan.fingerprint == source_fingerprint(source_content@, opts)
                    &&& plan.needs_build == spec_needs_build(
                        old(self).model(),
                        source_file@,
                        plan.fingerprint,
                    )
                    &&& final(self).model() == if has_source(old(self).model(), source_file@) {
                        old(self).model()
                    } else {
                        old(self).model().push(
                            serialized_entry(
                                source_file@,
                                0,
                                old(self).out_dir_spec(),
                                samples_present,
                            ),
                        )
                    }
                    &&& has_source(final(self).model(), source_file@)
                    &&& plan.source@ == source_file@
                    &&& {
                        let entry = final(self).model()[source_index(
                            final(self).model(),
                            source_file@,
                        )];
                        &&& plan.binary@ == entry.binary
                        &&& (match plan.samples_out {
                            Option::Some(p) => entry.samples_out == Option::Some(p@),
                            Option::None => entry.samples_out is None,
                        })
                        &&& (match plan.command {
                            Option::Some(argv) => plan.needs_build && views_of(argv@)
                                == crate::options::compile_command_spec(
                                source_file@,
                                entry.binary,
                                opts,
                            ),
                            Option::None => !plan.needs_build,
                        })
                    }
                },
            },
    {
        if is_absolute(source_file) {
            return Err(BuildFileError::AbsolutePath);
        }
        let c_ext: [u8; 1] = [0x63];
        let cpp_ext: [u8; 3] = [0x63, 0x70, 0x70];
        let source_ok = match extension(source_file) {
            Some(e) => bytes_eq(e.as_slice(), c_ext.as_slice()) || bytes_eq(
                e.as_slice(),
                cpp_ext.as_slice(),
            ),
            None => false,
        };
        proof {
            assert(c_ext@ =~= c_extension());
            assert(cpp_ext@ =~= cpp_extension());
        }
        if !source_ok {
            return Err(BuildFileError::NotCSource);
        }
        let fp = compute_fingerprint(source_content, opts);
        let (idx, was_present): (usize, bool) = match self.find_entry(source_file) {
            Some(i) => (i, true),
            None => {
                let entry = CacheEntry::from_serialized(
                    source_file,
                    0,
                    self.out_dir.as_slice(),
                    samples_present,
                );
                let ghost before = self.model();
                self.entries.push(entry);
                proof {
                    assert(self.model() =~= before + seq![self.entries@.last()@]);
                    assert forall|j: int| 0 <= j < before.len() implies before[j].source
                        != source_file@ by {
                        if before[j].source == source_file@ {
                            lemma_source_index_at_found(before, source_file@, j);
                        }
                    }
                    assert forall|a: int, b: int|
                        0 <= a < b < self.model().len() implies self.model()[a].source
                        != self.model()[b].source by {}
                    lemma_source_index_at(
                        self.model(),
                        source_file@,
                        self.model().len() as int - 1,
                    );
                }
                (self.entries.len() - 1, false)
            },
        };
        let stored = self.entries[idx].source_hash;
        let needs_build = if was_present {
            stored != fp
        } else {
            true
        };
        let entry = &self.entries[idx];
        let command = if needs_build {
            Some(crate::options::compile_command(source_file, entry.binary.as_slice(), opts))
        } else {
            None
        };
        let plan = BuildPlan {
            source: vstd::slice::slice_to_vec(source_file),
            binary: vstd::slice::slice_to_vec(entry.binary.as_slice()),
            samples_out: copy_opt_bytes(&entry.samples_out),
            fingerprint: fp,
            needs_build,
            command,
        };
        proof {
            lemma_source_index_in_range(self.model(), source_file@);
        }
        Ok(plan)
    }

    /// Overwrites the stored fingerprint of a tracked source, to be called
    /// exactly when its build has succeeded.
    pub fn record_built(&mut self, source: &[u8], fingerprint: u128)
        requires
            old(self).wf(),
            has_source(old(self).model(), source@),
        ensures
            final(self).wf(),
            final(self).cache_file_spec() == old(self).cache_file_spec(),
            final(self).out_dir_spec() == old(self).out_dir_spec(),
            final(self).model() == old(self).model().update(
                source_index(old(self).model(), source@),
                EntryModel {
                    source_hash: fingerprint,
                    ..old(self).model()[source_index(old(self).model(), source@)]
                },
            ),
            has_source(final(self).model(), source@),
            fingerprint_at(final(self).model(), source@) == fingerprint,
            !spec_needs_build(final(self).model(), source@, fingerprint),
    {
        proof {
            lemma_source_index_in_range(old(self).model(), source@);
        }
        let idx = match self.find_entry(source) {
            Some(i) => i,
            None => {
                // the entry exists by the precondition, so this arm is
                // unreachable and the index is never read
                proof {
                    assert(false);
                }
                0
            },
        };
        let old_entry = &self.entries[idx];
        let new_entry = CacheEntry {
            source_hash: fingerprint,
            source: vstd::slice::slice_to_vec(old_entry.source.as_slice()),
            binary: vstd::slice::slice_to_vec(old_entry.binary.as_slice()),
            samples_out: copy_opt_bytes(&old_entry.samples_out),
        };
        proof {
            assert(new_entry@ =~= EntryModel {
                source_hash: fingerprint,
                ..old(self).model()[source_index(old(self).model(), source@)]
            });
        }
        self.entries.set(idx, new_entry);
        proof {
            let before = old(self).model();
            let after = self.model();
            let i = source_index(before, source@);
            assert(after =~= before.update(i, new_entry@));
            assert forall|a: int, b: int| 0 <= a < b < after.len() implies after[a].source
                != after[b].source by {
                assert(after[a].source == before[a].source && after[b].source
                    == before[b].source);
            }
            assert forall|j: int| 0 <= j < after.len() implies after[j].source
                == before[j].source by {}
            lemma_source_index_same_sources(after, before, source@);
        }
    }
}

/// Law: a stored fingerprint equal to the freshly computed one makes the
/// cache skip the build; the build driver has nothing to do.
pub proof fn lemma_cache_skip(m: Seq<EntryModel>, s: Seq<u8>, fp: u128)
    requires
        has_source(m, s),
        fingerprint_at(m, s) == fp,
    ensures
        !spec_needs_build(m, s, fp),
{
}

/// Law: a missing entry or a stored fingerprint different from the
/// computed one makes the cache rebuild.
pub proof fn lemma_cache_rebuild(m: Seq<EntryModel>, s: Seq<u8>, fp: u128)
    requires
        !has_source(m, s) || fingerprint_at(m, s) != fp,
    ensures
        spec_needs_build(m, s, fp),
{
}

/// The `(key, value)` views of a vector of byte-string pairs.
pub open spec fn pair_views(pairs: Seq<(Vec<u8>, Vec<u8>)>) -> Seq<(Seq<u8>, Seq<u8>)> {
    pairs.map_values(|p: (Vec<u8>, Vec<u8>)| (p.0@, p.1@))
}

/// The key-sorted entries of the JSON object of strings that `text`
/// denotes, or nothing when `text` is not such an object.
pub uninterp spec fn json_object_entries(text: Seq<u8>) -> Option<Seq<(Seq<u8>, Seq<u8>)>>;

/// Relies on serde_json::from_slice, deserializing into std's ordered
/// string map: whether the bytes parse as a JSON object of strings, and
/// the key-sorted entries when they do, depend on the bytes alone, and
/// each key comes out once.
#[verifier::external_body]
fn parse_json_object(text: &[u8]) -> (r: Option<Vec<(Vec<u8>, Vec<u8>)>>)
    ensures
        r is Some <==> json_object_entries(text@) is Some,
        match r {
            Option::Some(pairs) => {
                &&& pair_views(pairs@) == json_object_entries(text@).unwrap()
                &&& forall|i: int, j: int|
                    0 <= i < j < pairs@.len() ==> pairs@[i].0@ != pairs@[j].0@
            },
            Option::None => true,
        },
{
    let parsed: std::collections::BTreeMap<String, String> = match serde_json::from_slice(text) {
        Ok(m) => m,
        Err(_) => return None,
    };
    Some(parsed.into_iter().map(|(k, v)| (k.into_bytes(), v.into_bytes())).collect())
}

/// The JSON object of strings with the given entries, rendered with
/// two-space indentation.
pub uninterp spec fn json_object_text(entries: Seq<(Seq<u8>, Seq<u8>)>) -> Seq<u8>;

/// Relies on serde_json::ser::to_vec_pretty on std's ordered string map:
/// the rendered object depends on the entries alone. A key or value that
/// is not UTF-8 cannot be a JSON string, and nothing else fails.
#[verifier::external_body]
fn render_json_object(pairs: &Vec<(Vec<u8>, Vec<u8>)>) -> (r: Option<Vec<u8>>)
    requires
        forall|i: int, j: int| 0 <= i < j < pairs@.len() ==> pairs@[i].0@ != pairs@[j].0@,
    ensures
        r is Some <==> (forall|i: int|
            0 <= i < pairs@.len() ==> vstd::utf8::valid_utf8(#[trigger] pairs@[i].0@)
                && vstd::utf8::valid_utf8(pairs@[i].1@)),
        match r {
            Option::Some(text) => text@ == json_object_text(pair_views(pairs@)),
            Option::None => true,
        },
{
    let object: Option<std::collections::BTreeMap<String, String>> = pairs.iter().map(
        |p: &(Vec<u8>, Vec<u8>)|
            Some(
                (
                    String::from_utf8(p.0.clone()).ok()?,
                    String::from_utf8(p.1.clone()).ok()?,
                ),
            ),
    ).collect();
    Some(serde_json::to_vec_pretty(&object?).ok()?)
}

/// The records a cache file's bytes denote: one per JSON entry, in key
/// order, each value read as a 32-digit fingerprint; or nothing when the
/// bytes are not such an object, the corrupt-cache case.
pub open spec fn cache_records_of(text: Seq<u8>) -> Option<Seq<RecordModel>> {
    match json_object_entries(text) {
        Option::None => Option::None,
        Option::Some(entries) => {
            if forall|i: int| 0 <= i < entries.len() ==> valid_hex128(#[trigger] entries[i].1) {
                Option::Some(
                    entries.map_values(
                        |p: (Seq<u8>, Seq<u8>)|
                            RecordModel {
                                source: p.0,
                                fingerprint: #[verifier::truncate] (hex_value(p.1) as u128),
                                samples_present: false,
                            },
                    ),
                )
            } else {
                Option::None
            }
        },
    }
}

/// Reads the persisted cache. `None` means the file is present but
/// corrupt, which aborts the whole run rather than silently starting
/// cold. Every record comes back with `samples_present` false; the
/// surrounding program sets it after looking at the filesystem.
pub fn parse_cache(text: &[u8]) -> (r: Option<Vec<CacheRecord>>)
    ensures
        match r {
            Option::Some(records) => cache_records_of(text@) == Option::Some(
                record_views(records@),
            ),
            Option::None => cache_records_of(text@) is None,
        },
{
    let pairs = match parse_json_object(text) {
        Some(pairs) => pairs,
        None => {
            return None;
        },
    };
    let ghost entries = json_object_entries(text@).unwrap();
    let mut records: Vec<CacheRecord> = Vec::new();
    let n = pairs.len();
    let mut i: usize = 0;
    proof {
        assert(record_views(records@) =~= Seq::<RecordModel>::empty());
    }
    while i < n
        invariant
            n == pairs@.len(),
            0 <= i <= n,
            pair_views(pairs@) == json_object_entries(text@).unwrap(),
            json_object_entries(text@) is Some,
            forall|j: int|
                0 <= j < i ==> valid_hex128(#[trigger] json_object_entries(text@).unwrap()[j].1),
            records@.len() == i,
            forall|j: int|
                0 <= j < i ==> #[trigger] record_views(records@)[j] == (RecordModel {
                    source: json_object_entries(text@).unwrap()[j].0,
                    fingerprint: #[verifier::truncate] (hex_value(
                        json_object_entries(text@).unwrap()[j].1,
                    ) as u128),
                    samples_present: false,
                }),
        decreases n - i,
    {
        let value = &pairs[i].1;
        let fingerprint = match parse_hex128(value.as_slice()) {
            Some(v) => v,
            None => {
                proof {
                    assert(!valid_hex128(json_object_entries(text@).unwrap()[i as int].1));
                }
                return None;
            },
        };
        let record = CacheRecord {
            source: vstd::slice::slice_to_vec(pairs[i].0.as_slice()),
            fingerprint,
            samples_present: false,
        };
        let ghost before = records@;
        let ghost record_view = record@;
        records.push(record);
        proof {
            let entries_g = json_object_entries(text@).unwrap();
            assert(pair_views(pairs@)[i as int] == (pairs@[i as int].0@, pairs@[i as int].1@));
            assert(entries_g[i as int].1 == value@);
            assert(entries_g[i as int].0 == pairs@[i as int].0@);
            assert(record_views(records@) =~= record_views(before) + seq![record_view]);
            assert forall|j: int| 0 <= j < i + 1 implies #[trigger] record_views(records@)[j]
                == (RecordModel {
                source: entries_g[j].0,
                fingerprint: #[verifier::truncate] (hex_value(entries_g[j].1) as u128),
                samples_present: false,
            }) by {
                if j < i {
                    assert(record_views(records@)[j] == record_views(before)[j]);
                } else {
                    assert(record_views(records@)[j] == record_view);
                }
            }
        }
        i = i + 1;
    }
    proof {
        assert(cache_records_of(text@) is Some);
        assert(record_views(records@) =~= cache_records_of(text@).unwrap());
    }
    Some(records)
}

/// The pairs the cache persists: each source beside its fingerprint as 32
/// lowercase hexadecimal digits.
pub open spec fn save_pairs(m: Seq<EntryModel>) -> Seq<(Seq<u8>, Seq<u8>)> {
    m.map_values(|e: EntryModel| (e.source, hex_of(e.source_hash as int, 32)))
}

proof fn lemma_ascii_valid_utf8(s: Seq<u8>)
    requires
        forall|i: int| 0 <= i < s.len() ==> s[i] < 0x80,
    ensures
        vstd::utf8::valid_utf8(s),
{
    assert(s.subrange(0, 0) =~= Seq::<u8>::empty());
    assert(vstd::utf8::valid_utf8(s.subrange(0, 0)));
    assert(vstd::utf8::partial_valid_utf8(s, 0));
    assert forall|i: int|
        0 <= 0 <= i < s.len() <= s.len() implies #[trigger] vstd::utf8::is_leading_byte_width_1(
        s[i],
    ) by {}
    vstd::utf8::partial_valid_utf8_extend_ascii_block(s, 0, s.len() as int);
    assert(s.subrange(0, s.len() as int) =~= s);
}

impl Database {
    /// The cache file's new contents: the full mapping as one JSON object,
    /// fingerprints rendered as fixed-width hexadecimal. `None` exactly
    /// when some source path is not UTF-8 and so cannot be a JSON key.
    pub fn save_text(&self) -> (r: Option<Vec<u8>>)
        requires
            self.wf(),
        ensures
            match r {
                Option::Some(text) => text@ == json_object_text(save_pairs(self.model())),
                Option::None => true,
            },
            r is Some <==> (forall|i: int|
                0 <= i < self.model().len() ==> vstd::utf8::valid_utf8(
                    #[trigger] self.model()[i].source,
                )),
    {
        let mut pairs: Vec<(Vec<u8>, Vec<u8>)> = Vec::new();
        let n = self.entries.len();
        let mut i: usize = 0;
        proof {
            assert(pair_views(pairs@) =~= save_pairs(self.model()).take(0));
        }
        while i < n
            invariant
                n == self.entries@.len(),
                0 <= i <= n,
                self.wf(),
                pairs@.len() == i,
                pair_views(pairs@) == save_pairs(self.model()).take(i as int),
            decreases n - i,
        {
            let entry = &self.entries[i];
            let hex = u128_to_hex(entry.source_hash);
            pairs.push((vstd::slice::slice_to_vec(entry.source.as_slice()), hex));
            proof {
                assert(pair_views(pairs@) =~= pair_views(pairs@.drop_last()) + seq![
                    (pairs@.last().0@, pairs@.last().1@),
                ]);
                assert(save_pairs(self.model()).take(i + 1) =~= save_pairs(self.model()).take(
                    i as int,
                ).push(save_pairs(self.model())[i as int]));
            }
            i = i + 1;
        }
        proof {
            assert(save_pairs(self.model()).take(n as int) =~= save_pairs(self.model()));
            assert forall|a: int, b: int| 0 <= a < b < pairs@.len() implies pairs@[a].0@
                != pairs@[b].0@ by {
                assert(pair_views(pairs@)[a] == (pairs@[a].0@, pairs@[a].1@));
                assert(pair_views(pairs@)[b] == (pairs@[b].0@, pairs@[b].1@));
                assert(save_pairs(self.model())[a] == (
                    self.model()[a].source,
                    hex_of(self.model()[a].source_hash as int, 32),
                ));
                assert(save_pairs(self.model())[b] == (
                    self.model()[b].source,
                    hex_of(self.model()[b].source_hash as int, 32),
                ));
                assert(pairs@[a].0@ == self.model()[a].source && pairs@[b].0@
                    == self.model()[b].source);
            }
            assert forall|j: int| 0 <= j < pairs@.len() implies vstd::utf8::valid_utf8(
                #[trigger] pairs@[j].1@,
            ) by {
                crate::hex::lemma_hex_round_trip(self.model()[j].source_hash);
                assert(pair_views(pairs@)[j] == (pairs@[j].0@, pairs@[j].1@));
                assert(save_pairs(self.model())[j] == (
                    self.model()[j].source,
                    hex_of(self.model()[j].source_hash as int, 32),
                ));
                assert(pairs@[j].1@ == hex_of(self.model()[j].source_hash as int, 32));
                assert forall|k: int| 0 <= k < pairs@[j].1@.len() implies pairs@[j].1@[k]
                    < 0x80 by {
                    assert(crate::hex::is_hex_digit(pairs@[j].1@[k]));
                }
                lemma_ascii_valid_utf8(pairs@[j].1@);
            }
        }
        let r = render_json_object(&pairs);
        proof {
            if r is Some {
                assert forall|j: int| 0 <= j < self.model().len() implies vstd::utf8::valid_utf8(
                    #[trigger] self.model()[j].source,
                ) by {
                    assert(pair_views(pairs@)[j] == (pairs@[j].0@, pairs@[j].1@));
                    assert(save_pairs(self.model())[j] == (
                        self.model()[j].source,
                        hex_of(self.model()[j].source_hash as int, 32),
                    ));
                    assert(pairs@[j].0@ == self.model()[j].source);
                    assert(vstd::utf8::valid_utf8(pairs@[j].0@));
                }
            } else {
                assert(!(forall|j: int|
                    0 <= j < pairs@.len() ==> vstd::utf8::valid_utf8(#[trigger] pairs@[j].0@)
                        && vstd::utf8::valid_utf8(pairs@[j].1@)));
                if forall|j: int|
                    0 <= j < self.model().len() ==> vstd::utf8::valid_utf8(
                        #[trigger] self.model()[j].source,
                    ) {
                    assert forall|j: int| 0 <= j < pairs@.len() implies vstd::utf8::valid_utf8(
                        #[trigger] pairs@[j].0@,
                    ) && vstd::utf8::valid_utf8(pairs@[j].1@) by {
                        assert(pair_views(pairs@)[j] == (pairs@[j].0@, pairs@[j].1@));
                        assert(save_pairs(self.model())[j] == (
                            self.model()[j].source,
                            hex_of(self.model()[j].source_hash as int, 32),
                        ));
                        assert(pairs@[j].0@ == self.model()[j].source);
                    }
                }
            }
        }
        r
    }
}

} // verus!
