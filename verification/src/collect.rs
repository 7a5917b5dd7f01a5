//! The directory variant of the fixture corpus: loose sample files found
//! by a filesystem walk.
//!
//! The walk itself is the surrounding program's work; it reports each
//! entry as an event, and the visitor here answers whether to descend.
//! Files named `<name>_in.txt` / `<name>_out.txt` (or their `_win`
//! variants for the other line-ending family) are grouped by `<name>`,
//! with path separators inside the name flattened to underscores; only one
//! line-ending family is active per run, the first directory level can be
//! restricted to an allow-list, and a duplicate input or output for one
//! name is a reported integrity error.

use vstd::prelude::*;

use crate::bytes::{
    bytes_eq, bytes_less, bytes_lt, ends_with, is_prefix_of, is_suffix_of, replace_byte,
    replaced_byte, views_of,
};
use crate::options::Os;
use crate::pathname::{file_name, last_byte_index, path_file_name};

verus! {

/// The visitor's answer to one traversal event.
#[derive(Clone, Copy, PartialEq, Eq, Structural, Debug)]
pub enum TraversalResponse {
    /// Keep walking.
    Continue,
    /// Do not descend into this directory.
    Skip,
    /// End the walk.
    Stop,
}

/// One event of a filesystem walk. A directory that is a symlink is never
/// entered, which prevents cycles; the walker reports each regular file
/// and brackets each directory it descends into.
pub enum TraversalEvent {
    /// The walk is about to descend into a directory.
    EnterDirectory(Vec<u8>),
    /// The walk left the directory it last entered.
    LeaveDirectory,
    /// A regular file.
    File(Vec<u8>),
}

/// The suffix `_in.txt`.
pub open spec fn in_txt_suffix() -> Seq<u8> {
    seq![0x5fu8, 0x69u8, 0x6eu8, 0x2eu8, 0x74u8, 0x78u8, 0x74u8]
}

/// The suffix `_out.txt`.
pub open spec fn out_txt_suffix() -> Seq<u8> {
    seq![0x5fu8, 0x6fu8, 0x75u8, 0x74u8, 0x2eu8, 0x74u8, 0x78u8, 0x74u8]
}

/// The suffix `_in_win.txt`.
pub open spec fn in_win_suffix() -> Seq<u8> {
    seq![0x5fu8, 0x69u8, 0x6eu8, 0x5fu8, 0x77u8, 0x69u8, 0x6eu8, 0x2eu8, 0x74u8, 0x78u8, 0x74u8]
}

/// The suffix `_out_win.txt`.
pub open spec fn out_win_suffix() -> Seq<u8> {
    seq![
        0x5fu8,
        0x6fu8,
        0x75u8,
        0x74u8,
        0x5fu8,
        0x77u8,
        0x69u8,
        0x6eu8,
        0x2eu8,
        0x74u8,
        0x78u8,
        0x74u8,
    ]
}

/// What a sample file's name says: the name with the suffix stripped, the
/// line-ending family, and whether it is an input.
pub open spec fn classify_sample_file(fname: Seq<u8>) -> Option<(Seq<u8>, Os, bool)> {
    if is_suffix_of(in_txt_suffix(), fname) {
        Option::Some((fname.take(fname.len() - 7), Os::Unix, true))
    } else if is_suffix_of(out_txt_suffix(), fname) {
        Option::Some((fname.take(fname.len() - 8), Os::Unix, false))
    } else if is_suffix_of(in_win_suffix(), fname) {
        Option::Some((fname.take(fname.len() - 11), Os::Windows, true))
    } else if is_suffix_of(out_win_suffix(), fname) {
        Option::Some((fname.take(fname.len() - 12), Os::Windows, false))
    } else {
        Option::None
    }
}

/// A sample file's group key: its path relative to the walk root, with
/// the file name replaced by the stripped name, and every separator
/// flattened to an underscore.
pub open spec fn sample_key(rel: Seq<u8>, stripped: Seq<u8>) -> Seq<u8> {
    let slash = last_byte_index(rel, 0x2f);
    let raw = if slash >= 0 {
        rel.take(slash + 1) + stripped
    } else {
        stripped
    };
    replaced_byte(raw, 0x2f, 0x5f)
}

/// One named group of sample files: the paths of its input and output
/// sides, as far as the walk has found them.
pub struct SampleGroup {
    pub name: Vec<u8>,
    pub input: Option<Vec<u8>>,
    pub output: Option<Vec<u8>>,
}

/// The mathematical value of a `SampleGroup`.
#[verifier::ext_equal]
pub struct GroupModel {
    pub name: Seq<u8>,
    pub input: Option<Seq<u8>>,
    pub output: Option<Seq<u8>>,
}

impl View for SampleGroup {
    type V = GroupModel;

    open spec fn view(&self) -> GroupModel {
        GroupModel {
            name: self.name@,
            input: match self.input {
                Option::Some(p) => Option::Some(p@),
                Option::None => Option::None,
            },
            output: match self.output {
                Option::Some(p) => Option::Some(p@),
                Option::None => Option::None,
            },
        }
    }
}

/// Why a group of sample files is malformed.
#[derive(Clone, Copy, PartialEq, Eq, Structural, Debug)]
pub enum CollectErrorKind {
    /// A second input file for a name that already has one.
    DuplicateInput,
    /// A second output file for a name that already has one.
    DuplicateOutput,
    /// A name with an output but no input.
    MissingInput,
    /// A name with an input but no output.
    MissingOutput,
}

/// One integrity error among the collected sample files.
pub struct CollectError {
    pub path: Vec<u8>,
    pub kind: CollectErrorKind,
}

/// The mathematical value of a `CollectError`.
#[verifier::ext_equal]
pub struct CollectErrorModel {
    pub path: Seq<u8>,
    pub kind: CollectErrorKind,
}

impl View for CollectError {
    type V = CollectErrorModel;

    open spec fn view(&self) -> CollectErrorModel {
        CollectErrorModel { path: self.path@, kind: self.kind }
    }
}

/// The views of a vector of groups.
pub open spec fn group_views(groups: Seq<SampleGroup>) -> Seq<GroupModel> {
    groups.map_values(|g: SampleGroup| g@)
}

/// The views of a vector of collection errors.
pub open spec fn collect_error_views(errors: Seq<CollectError>) -> Seq<CollectErrorModel> {
    errors.map_values(|e: CollectError| e@)
}

/// The index of the group named `name`, or `-1`.
pub open spec fn group_index(groups: Seq<GroupModel>, name: Seq<u8>) -> int
    decreases groups.len(),
{
    if groups.len() == 0 {
        -1
    } else if groups[0].name == name {
        0
    } else {
        let r = group_index(groups.skip(1), name);
        if r == -1 {
            -1
        } else {
            r + 1
        }
    }
}

/// Where a new group named `name` goes to keep the list sorted: before
/// the first group whose name is not smaller.
pub open spec fn insert_pos(groups: Seq<GroupModel>, name: Seq<u8>) -> int
    decreases groups.len(),
{
    if groups.len() == 0 {
        0
    } else if bytes_lt(groups[0].name, name) {
        1 + insert_pos(groups.skip(1), name)
    } else {
        0
    }
}

/// One group with one side set to `path`.
pub open spec fn group_with_side(g: GroupModel, is_input: bool, path: Seq<u8>) -> GroupModel {
    if is_input {
        GroupModel { input: Option::Some(path), ..g }
    } else {
        GroupModel { output: Option::Some(path), ..g }
    }
}

/// A fresh group with one side set.
pub open spec fn new_group(name: Seq<u8>, is_input: bool, path: Seq<u8>) -> GroupModel {
    group_with_side(GroupModel { name: name, input: Option::None, output: Option::None }, is_input, path)
}

/// The groups after one sample file: an unrecognized or foreign-family
/// file changes nothing; a recognized one fills its group's side,
/// overwriting a duplicate; a new name is inserted in name order.
pub open spec fn visited_groups(
    groups: Seq<GroupModel>,
    root: Seq<u8>,
    target_os: Os,
    f: Seq<u8>,
) -> Seq<GroupModel> {
    match classify_sample_file(path_file_name(f)) {
        Option::None => groups,
        Option::Some((stripped, os, is_input)) => {
            if os != target_os {
                groups
            } else {
                let rel = f.skip(root.len() as int + 1);
                let key = sample_key(rel, stripped);
                let i = group_index(groups, key);
                if i >= 0 {
                    groups.update(i, group_with_side(groups[i], is_input, f))
                } else {
                    groups.insert(insert_pos(groups, key), new_group(key, is_input, f))
                }
            }
        },
    }
}

/// The integrity errors one sample file adds: one duplicate report when
/// its group's side was already filled.
pub open spec fn visited_errors(
    groups: Seq<GroupModel>,
    root: Seq<u8>,
    target_os: Os,
    f: Seq<u8>,
) -> Seq<CollectErrorModel> {
    match classify_sample_file(path_file_name(f)) {
        Option::None => seq![],
        Option::Some((stripped, os, is_input)) => {
            if os != target_os {
                seq![]
            } else {
                let rel = f.skip(root.len() as int + 1);
                let key = sample_key(rel, stripped);
                let i = group_index(groups, key);
                if i >= 0 && (if is_input {
                    groups[i].input is Some
                } else {
                    groups[i].output is Some
                }) {
                    seq![
                        CollectErrorModel {
                            path: f,
                            kind: if is_input {
                                CollectErrorKind::DuplicateInput
                            } else {
                                CollectErrorKind::DuplicateOutput
                            },
                        },
                    ]
                } else {
                    seq![]
                }
            }
        },
    }
}

proof fn lemma_group_index_at(groups: Seq<GroupModel>, name: Seq<u8>, i: int)
    requires
        0 <= i <= groups.len(),
        forall|j: int| 0 <= j < i ==> groups[j].name != name,
        i < groups.len() ==> groups[i].name == name,
    ensures
        group_index(groups, name) == if i < groups.len() {
            i
        } else {
            -1
        },
    decreases groups.len(),
{
    if groups.len() == 0 {
    } else if groups[0].name == name {
    } else {
        lemma_group_index_at(groups.skip(1), name, i - 1);
    }
}

proof fn lemma_insert_pos_at(groups: Seq<GroupModel>, name: Seq<u8>, p: int)
    requires
        0 <= p <= groups.len(),
        forall|j: int| 0 <= j < p ==> bytes_lt(#[trigger] groups[j].name, name),
        p < groups.len() ==> !bytes_lt(groups[p].name, name),
    ensures
        insert_pos(groups, name) == p,
    decreases groups.len(),
{
    if groups.len() == 0 {
    } else if bytes_lt(groups[0].name, name) {
        assert forall|j: int| 0 <= j < p - 1 implies bytes_lt(
            #[trigger] groups.skip(1)[j].name,
            name,
        ) by {
            assert(groups.skip(1)[j] == groups[j + 1]);
        }
        lemma_insert_pos_at(groups.skip(1), name, p - 1);
    } else {
        assert(p == 0);
    }
}

/// The visitor that gathers sample files during one walk.
pub struct SampleCollector {
    root: Vec<u8>,
    target_os: Os,
    subdirs: Vec<Vec<u8>>,
    depth: usize,
    groups: Vec<SampleGroup>,
    errors: Vec<CollectError>,
}

impl SampleCollector {
    /// The walk root the collector was made for.
    pub closed spec fn root_spec(self) -> Seq<u8> {
        self.root@
    }

    /// The active line-ending family.
    pub closed spec fn os_spec(self) -> Os {
        self.target_os
    }

    /// The first-level allow-list.
    pub closed spec fn subdirs_spec(self) -> Seq<Seq<u8>> {
        views_of(self.subdirs@)
    }

    /// How many directories the walk is currently inside.
    pub closed spec fn depth_spec(self) -> int {
        self.depth as int
    }

    /// The groups gathered so far, in name order.
    pub closed spec fn groups_model(self) -> Seq<GroupModel> {
        group_views(self.groups@)
    }

    /// The integrity errors gathered so far.
    pub closed spec fn errors_model(self) -> Seq<CollectErrorModel> {
        collect_error_views(self.errors@)
    }

    /// A collector for one walk under `root`, keeping the line-ending
    /// family `target_os`, and descending at the first level only into
    /// `sample_subdirs` unless that list is empty.
    pub fn new(root: Vec<u8>, target_os: Os, sample_subdirs: Vec<Vec<u8>>) -> (r: SampleCollector)
        ensures
            r.root_spec() == root@,
            r.os_spec() == target_os,
            r.subdirs_spec() == views_of(sample_subdirs@),
            r.depth_spec() == 0,
            r.groups_model() =~= Seq::<GroupModel>::empty(),
            r.errors_model() =~= Seq::<CollectErrorModel>::empty(),
    {
        let r = SampleCollector {
            root,
            target_os,
            subdirs: sample_subdirs,
            depth: 0,
            groups: Vec::new(),
            errors: Vec::new(),
        };
        proof {
            assert(r.groups_model() =~= Seq::<GroupModel>::empty());
            assert(r.errors_model() =~= Seq::<CollectErrorModel>::empty());
        }
        r
    }

    /// Whether a first-level directory name is on the allow-list.
    fn subdir_allowed(&self, dir: &[u8]) -> (r: bool)
        ensures
            r == (exists|k: int|
                0 <= k < self.subdirs_spec().len() && #[trigger] self.subdirs_spec()[k]
                    == path_file_name(dir@)),
    {
        let fname = file_name(dir);
        let n = self.subdirs.len();
        let mut k: usize = 0;
        while k < n
            invariant
                n == self.subdirs@.len(),
                0 <= k <= n,
                fname@ == path_file_name(dir@),
                forall|j: int| 0 <= j < k ==> #[trigger] self.subdirs_spec()[j] != fname@,
            decreases n - k,
        {
            if bytes_eq(self.subdirs[k].as_slice(), fname.as_slice()) {
                proof {
                    assert(self.subdirs_spec()[k as int] == fname@);
                }
                return true;
            }
            k = k + 1;
        }
        false
    }

    /// Answers one traversal event: whether to descend, and what the file
    /// adds to the gathered groups.
    pub fn visit(&mut self, event: &TraversalEvent) -> (r: TraversalResponse)
        requires
            match event {
                TraversalEvent::LeaveDirectory => old(self).depth_spec() >= 1,
                TraversalEvent::File(f) => is_prefix_of(
                    old(self).root_spec() + seq![0x2fu8],
                    f@,
                ) && old(self).depth_spec() < usize::MAX,
                TraversalEvent::EnterDirectory(_) => old(self).depth_spec() < usize::MAX,
            },
        ensures
            final(self).root_spec() == old(self).root_spec(),
            final(self).os_spec() == old(self).os_spec(),
            final(self).subdirs_spec() == old(self).subdirs_spec(),
            match event {
                TraversalEvent::EnterDirectory(d) => {
                    let skipped = old(self).depth_spec() == 0 && old(self).subdirs_spec().len() > 0
                        && !(exists|k: int|
                        0 <= k < old(self).subdirs_spec().len()
                            && #[trigger] old(self).subdirs_spec()[k] == path_file_name(d@));
                    &&& r == (if skipped {
                        TraversalResponse::Skip
                    } else {
                        TraversalResponse::Continue
                    })
                    &&& final(self).depth_spec() == (if skipped {
                        old(self).depth_spec()
                    } else {
                        old(self).depth_spec() + 1
                    })
                    &&& final(self).groups_model() == old(self).groups_model()
                    &&& final(self).errors_model() == old(self).errors_model()
                },
                TraversalEvent::LeaveDirectory => {
                    &&& r == TraversalResponse::Continue
                    &&& final(self).depth_spec() == old(self).depth_spec() - 1
                    &&& final(self).groups_model() == old(self).groups_model()
                    &&& final(self).errors_model() == old(self).errors_model()
                },
                TraversalEvent::File(f) => {
                    &&& r == TraversalResponse::Continue
                    &&& final(self).depth_spec() == old(self).depth_spec()
                    &&& final(self).groups_model() == visited_groups(
                        old(self).groups_model(),
                        old(self).root_spec(),
                        old(self).os_spec(),
                        f@,
                    )
                    &&& final(self).errors_model() == old(self).errors_model() + visited_errors(
                        old(self).groups_model(),
                        old(self).root_spec(),
                        old(self).os_spec(),
                        f@,
                    )
                },
            },
    {
        match event {
            TraversalEvent::EnterDirectory(dir) => {
                if self.depth == 0 && self.subdirs.len() > 0 && !self.subdir_allowed(
                    dir.as_slice(),
                ) {
                    TraversalResponse::Skip
                } else {
                    self.depth = self.depth + 1;
                    TraversalResponse::Continue
                }
            },
            TraversalEvent::LeaveDirectory => {
                self.depth = self.depth - 1;
                TraversalResponse::Continue
            },
            TraversalEvent::File(f) => {
                self.visit_file(f.as_slice());
                TraversalResponse::Continue
            },
        }
    }

    /// Finds the group named `key`, if any.
    fn find_group(&self, key: &[u8]) -> (r: Option<usize>)
        ensures
            match r {
                Some(i) => 0 <= i < self.groups_model().len() && i == group_index(
                    self.groups_model(),
                    key@,
                ),
                None => group_index(self.groups_model(), key@) == -1,
            },
    {
        let n = self.groups.len();
        let mut i: usize = 0;
        while i < n
            invariant
                n == self.groups@.len(),
                0 <= i <= n,
                forall|j: int| 0 <= j < i ==> group_views(self.groups@)[j].name != key@,
            decreases n - i,
        {
            if bytes_eq(self.groups[i].name.as_slice(), key) {
                proof {
                    lemma_group_index_at(self.groups_model(), key@, i as int);
                }
                return Some(i);
            }
            i = i + 1;
        }
        proof {
            lemma_group_index_at(self.groups_model(), key@, n as int);
        }
        None
    }

    /// The position that keeps the groups in name order.
    fn insert_position(&self, key: &[u8]) -> (r: usize)
        ensures
            r == insert_pos(self.groups_model(), key@),
            r <= self.groups_model().len(),
    {
        let n = self.groups.len();
        let mut p: usize = 0;
        loop
            invariant
                n == self.groups@.len(),
                0 <= p <= n,
                forall|j: int|
                    0 <= j < p ==> bytes_lt(#[trigger] group_views(self.groups@)[j].name, key@),
            ensures
                0 <= p <= n,
                forall|j: int|
                    0 <= j < p ==> bytes_lt(#[trigger] group_views(self.groups@)[j].name, key@),
                p < n ==> !bytes_lt(group_views(self.groups@)[p as int].name, key@),
            decreases n - p,
        {
            if p == n {
                break;
            }
            if !bytes_less(self.groups[p].name.as_slice(), key) {
                break;
            }
            p = p + 1;
        }
        proof {
            lemma_insert_pos_at(self.groups_model(), key@, p as int);
        }
        p
    }

    fn visit_file(&mut self, f: &[u8])
        requires
            is_prefix_of(old(self).root_spec() + seq![0x2fu8], f@),
        ensures
            final(self).root_spec() == old(self).root_spec(),
            final(self).os_spec() == old(self).os_spec(),
            final(self).subdirs_spec() == old(self).subdirs_spec(),
            final(self).depth_spec() == old(self).depth_spec(),
            final(self).groups_model() == visited_groups(
                old(self).groups_model(),
                old(self).root_spec(),
                old(self).os_spec(),
                f@,
            ),
            final(self).errors_model() == old(self).errors_model() + visited_errors(
                old(self).groups_model(),
                old(self).root_spec(),
                old(self).os_spec(),
                f@,
            ),
    {
        let fname = file_name(f);
        let in_txt: [u8; 7] = [0x5f, 0x69, 0x6e, 0x2e, 0x74, 0x78, 0x74];
        let out_txt: [u8; 8] = [0x5f, 0x6f, 0x75, 0x74, 0x2e, 0x74, 0x78, 0x74];
        let in_win: [u8; 11] = [
            0x5f,
            0x69,
            0x6e,
            0x5f,
            0x77,
            0x69,
            0x6e,
            0x2e,
            0x74,
            0x78,
            0x74,
        ];
        let out_win: [u8; 12] = [
            0x5f,
            0x6f,
            0x75,
            0x74,
            0x5f,
            0x77,
            0x69,
            0x6e,
            0x2e,
            0x74,
            0x78,
            0x74,
        ];
        proof {
            assert(in_txt@ =~= in_txt_suffix());
            assert(out_txt@ =~= out_txt_suffix());
            assert(in_win@ =~= in_win_suffix());
            assert(out_win@ =~= out_win_suffix());
        }
        let (stripped, os, is_input): (Vec<u8>, Os, bool) = if ends_with(
            fname.as_slice(),
            in_txt.as_slice(),
        ) {
            let s = vstd::slice::slice_subrange(fname.as_slice(), 0, fname.len() - 7);
            (vstd::slice::slice_to_vec(s), Os::Unix, true)
        } else if ends_with(fname.as_slice(), out_txt.as_slice()) {
            let s = vstd::slice::slice_subrange(fname.as_slice(), 0, fname.len() - 8);
            (vstd::slice::slice_to_vec(s), Os::Unix, false)
        } else if ends_with(fname.as_slice(), in_win.as_slice()) {
            let s = vstd::slice::slice_subrange(fname.as_slice(), 0, fname.len() - 11);
            (vstd::slice::slice_to_vec(s), Os::Windows, true)
        } else if ends_with(fname.as_slice(), out_win.as_slice()) {
            let s = vstd::slice::slice_subrange(fname.as_slice(), 0, fname.len() - 12);
            (vstd::slice::slice_to_vec(s), Os::Windows, false)
        } else {
            proof {
                assert(classify_sample_file(path_file_name(f@)) is None);
            }
            return ;
        };
        proof {
            assert(stripped@ =~= classify_sample_file(path_file_name(f@)).unwrap().0);
            assert(classify_sample_file(path_file_name(f@)) == Option::Some(
                (stripped@, os, is_input),
            ));
        }
        let os_matches = match (os, self.target_os) {
            (Os::Unix, Os::Unix) => true,
            (Os::Windows, Os::Windows) => true,
            _ => false,
        };
        if !os_matches {
            return ;
        }
        let flen = f.len();
        let rootlen = self.root.len();
        proof {
            assert((old(self).root_spec() + seq![0x2fu8]).len() <= f@.len());
            assert(rootlen + 1 <= flen);
        }
        let rel = vstd::slice::slice_subrange(f, rootlen + 1, flen);
        proof {
            assert(rel@ =~= f@.skip(self.root@.len() as int + 1));
        }
        let raw: Vec<u8> = match crate::pathname::find_last_byte(rel, 0x2f) {
            Some(slash) => {
                let mut head = vstd::slice::slice_to_vec(
                    vstd::slice::slice_subrange(rel, 0, slash + 1),
                );
                crate::bytes::append_bytes(&mut head, stripped.as_slice());
                proof {
                    assert(head@ =~= rel@.take(last_byte_index(rel@, 0x2f) + 1) + stripped@);
                }
                head
            },
            None => vstd::slice::slice_to_vec(stripped.as_slice()),
        };
        let key = replace_byte(raw.as_slice(), 0x2f, 0x5f);
        proof {
            assert(key@ == sample_key(rel@, stripped@));
        }
        let found = self.find_group(key.as_slice());
        let ghost groups_before = self.groups_model();
        let ghost errors_before = self.errors_model();
        match found {
            Some(idx) => {
                let duplicate = if is_input {
                    self.groups[idx].input.is_some()
                } else {
                    self.groups[idx].output.is_some()
                };
                if duplicate {
                    let kind = if is_input {
                        CollectErrorKind::DuplicateInput
                    } else {
                        CollectErrorKind::DuplicateOutput
                    };
                    self.errors.push(CollectError { path: vstd::slice::slice_to_vec(f), kind });
                    proof {
                        assert(self.errors_model() =~= errors_before + visited_errors(
                            groups_before,
                            self.root@,
                            self.target_os,
                            f@,
                        ));
                    }
                } else {
                    proof {
                        assert(self.errors_model() =~= errors_before + visited_errors(
                            groups_before,
                            self.root@,
                            self.target_os,
                            f@,
                        ));
                    }
                }
                let old_group = &self.groups[idx];
                let updated = if is_input {
                    SampleGroup {
                        name: vstd::slice::slice_to_vec(old_group.name.as_slice()),
                        input: Some(vstd::slice::slice_to_vec(f)),
                        output: crate::cache::copy_opt_bytes(&old_group.output),
                    }
                } else {
                    SampleGroup {
                        name: vstd::slice::slice_to_vec(old_group.name.as_slice()),
                        input: crate::cache::copy_opt_bytes(&old_group.input),
                        output: Some(vstd::slice::slice_to_vec(f)),
                    }
                };
                proof {
                    assert(updated@ =~= group_with_side(
                        groups_before[idx as int],
                        is_input,
                        f@,
                    ));
                }
                self.groups.set(idx, updated);
                proof {
                    assert(self.groups_model() =~= groups_before.update(
                        idx as int,
                        group_with_side(groups_before[idx as int], is_input, f@),
                    ));
                }
            },
            None => {
                proof {
                    assert(self.errors_model() =~= errors_before + visited_errors(
                        groups_before,
                        self.root@,
                        self.target_os,
                        f@,
                    ));
                }
                let p = self.insert_position(key.as_slice());
                let group = if is_input {
                    SampleGroup { name: key, input: Some(vstd::slice::slice_to_vec(f)), output: None }
                } else {
                    SampleGroup { name: key, input: None, output: Some(vstd::slice::slice_to_vec(f)) }
                };
                proof {
                    assert(group@ =~= new_group(sample_key(rel@, stripped@), is_input, f@));
                }
                self.groups.insert(p, group);
                proof {
                    assert(self.groups_model() =~= groups_before.insert(
                        p as int,
                        new_group(sample_key(rel@, stripped@), is_input, f@),
                    ));
                }
            },
        }
    }

    /// Hands the gathered groups and errors out, groups in name order.
    pub fn finish(self) -> (r: (Vec<SampleGroup>, Vec<CollectError>))
        ensures
            group_views(r.0@) == self.groups_model(),
            collect_error_views(r.1@) == self.errors_model(),
    {
        (self.groups, self.errors)
    }
}

/// One complete sample: a name with both its input file and its output
/// file.
pub struct SamplePair {
    pub name: Vec<u8>,
    pub input: Vec<u8>,
    pub output: Vec<u8>,
}

/// The mathematical value of a `SamplePair`.
#[verifier::ext_equal]
pub struct PairModel {
    pub name: Seq<u8>,
    pub input: Seq<u8>,
    pub output: Seq<u8>,
}

impl View for SamplePair {
    type V = PairModel;

    open spec fn view(&self) -> PairModel {
        PairModel { name: self.name@, input: self.input@, output: self.output@ }
    }
}

/// The views of a vector of sample pairs.
pub open spec fn pair_model_views(pairs: Seq<SamplePair>) -> Seq<PairModel> {
    pairs.map_values(|p: SamplePair| p@)
}

/// The groups with both sides present, in order.
pub open spec fn complete_pairs_of(groups: Seq<GroupModel>) -> Seq<PairModel>
    decreases groups.len(),
{
    if groups.len() == 0 {
        seq![]
    } else {
        let g = groups[0];
        let rest = complete_pairs_of(groups.skip(1));
        if g.input is Some && g.output is Some {
            seq![PairModel { name: g.name, input: g.input.unwrap(), output: g.output.unwrap() }]
                + rest
        } else {
            rest
        }
    }
}

/// The one-sided groups, each reported once: an output without an input,
/// or an input without an output.
pub open spec fn one_sided_errors(groups: Seq<GroupModel>) -> Seq<CollectErrorModel>
    decreases groups.len(),
{
    if groups.len() == 0 {
        seq![]
    } else {
        let g = groups[0];
        let rest = one_sided_errors(groups.skip(1));
        if g.input is None && g.output is Some {
            seq![CollectErrorModel { path: g.name, kind: CollectErrorKind::MissingInput }] + rest
        } else if g.input is Some && g.output is None {
            seq![CollectErrorModel { path: g.name, kind: CollectErrorKind::MissingOutput }] + rest
        } else {
            rest
        }
    }
}

/// Splits gathered groups into the complete pairs and the integrity
/// errors of the one-sided names; a one-sided name is skipped, not fatal.
pub fn complete_pairs(groups: &Vec<SampleGroup>) -> (r: (Vec<SamplePair>, Vec<CollectError>))
    ensures
        pair_model_views(r.0@) == complete_pairs_of(group_views(groups@)),
        collect_error_views(r.1@) == one_sided_errors(group_views(groups@)),
{
    let ghost all = group_views(groups@);
    let mut pairs: Vec<SamplePair> = Vec::new();
    let mut errors: Vec<CollectError> = Vec::new();
    let n = groups.len();
    let mut i: usize = 0;
    proof {
        assert(all.skip(0) =~= all);
        assert(pair_model_views(pairs@) =~= Seq::<PairModel>::empty());
        assert(collect_error_views(errors@) =~= Seq::<CollectErrorModel>::empty());
    }
    while i < n
        invariant
            n == groups@.len(),
            0 <= i <= n,
            complete_pairs_of(group_views(groups@)) =~= pair_model_views(pairs@)
                + complete_pairs_of(group_views(groups@).skip(i as int)),
            one_sided_errors(group_views(groups@)) =~= collect_error_views(errors@)
                + one_sided_errors(group_views(groups@).skip(i as int)),
        decreases n - i,
    {
        let ghost rest = group_views(groups@).skip(i as int);
        proof {
            assert(rest[0] == group_views(groups@)[i as int]);
            assert(rest.skip(1) =~= group_views(groups@).skip(i + 1));
        }
        let group = &groups[i];
        match (&group.input, &group.output) {
            (Some(input), Some(output)) => {
                pairs.push(
                    SamplePair {
                        name: vstd::slice::slice_to_vec(group.name.as_slice()),
                        input: vstd::slice::slice_to_vec(input.as_slice()),
                        output: vstd::slice::slice_to_vec(output.as_slice()),
                    },
                );
                proof {
                    assert(pair_model_views(pairs@) =~= pair_model_views(pairs@.drop_last())
                        + seq![pairs@.last()@]);
                }
            },
            (None, Some(_)) => {
                errors.push(
                    CollectError {
                        path: vstd::slice::slice_to_vec(group.name.as_slice()),
                        kind: CollectErrorKind::MissingInput,
                    },
                );
                proof {
                    assert(collect_error_views(errors@) =~= collect_error_views(
                        errors@.drop_last(),
                    ) + seq![errors@.last()@]);
                }
            },
            (Some(_), None) => {
                errors.push(
                    CollectError {
                        path: vstd::slice::slice_to_vec(group.name.as_slice()),
                        kind: CollectErrorKind::MissingOutput,
                    },
                );
                proof {
                    assert(collect_error_views(errors@) =~= collect_error_views(
                        errors@.drop_last(),
                    ) + seq![errors@.last()@]);
                }
            },
            (None, None) => (),
        }
        i = i + 1;
    }
    proof {
        assert(group_views(groups@).skip(n as int) =~= Seq::<GroupModel>::empty());
    }
    (pairs, errors)
}

} // verus!
