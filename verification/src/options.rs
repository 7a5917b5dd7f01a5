//! The commands the engine runs and the options a build takes.
//!
//! The types mirror the command line: which subcommand runs, which source
//! files are built, which preprocessor defines and extra compiler flags
//! apply, and how the compiler is invoked for one source file.

use vstd::prelude::*;

use crate::bytes::{views_of, ws_tokens};

verus! {

/// What to do on a fixture mismatch: report and continue, show the diff
/// at once, or ask first.
#[derive(Clone, Copy, PartialEq, Eq, Structural, Debug)]
pub enum Interactivity {
    /// Informs of the failure and continues.
    Skip,
    /// Does not prompt and immediately shows the diff.
    No,
    /// Prompts the user.
    Yes,
}

/// Which line-ending family of sample files is active.
#[derive(Clone, Copy, PartialEq, Eq, Structural, Debug)]
pub enum Os {
    /// Line-feed sample files, the ones not ending in `_win.txt`.
    Unix,
    /// Carriage-return-line-feed sample files, ending in `_win.txt`.
    Windows,
}

/// The options one build takes.
pub struct BuildOpts {
    /// Preprocessor definitions, each `KEY=VALUE` or a bare name.
    pub defines: Vec<Vec<u8>>,
    /// Extra options handed to the compiler, split on whitespace.
    pub compiler_args: Option<Vec<u8>>,
    /// Disables the default compiler arguments.
    pub no_default_args: bool,
    /// The source files to build, relative to the root directory.
    pub targets: Vec<Vec<u8>>,
}

/// Additional arguments for the `with` command or the diff command.
pub enum Command {
    /// Build the targets.
    Build { build_options: BuildOpts },
    /// Build the targets, then run a command on the built binaries.
    With { build_options: BuildOpts, with: Vec<Vec<u8>> },
    /// Build one target and run it.
    Run { build_options: BuildOpts },
    /// Build the targets and feed each its fixture corpus.
    Test { build_options: BuildOpts, diff: Option<Vec<u8>> },
    /// Convert a sample archive into one corpus blob.
    Convert { archive: Vec<u8>, output: Option<Vec<u8>>, sample_subdirs: Vec<Vec<u8>> },
    /// Delete the output directory.
    Clean,
}

/// The build options a command carries, if it builds at all.
pub open spec fn build_options_of(c: &Command) -> Option<&BuildOpts> {
    match c {
        Command::Build { build_options } => Option::Some(build_options),
        Command::With { build_options, .. } => Option::Some(build_options),
        Command::Run { build_options } => Option::Some(build_options),
        Command::Test { build_options, .. } => Option::Some(build_options),
        Command::Convert { .. } => Option::None,
        Command::Clean => Option::None,
    }
}

impl Command {
    /// The build options of a building command; `Convert` and `Clean`
    /// build nothing.
    pub fn get_build_options(&self) -> (r: Option<&BuildOpts>)
        ensures
            r == build_options_of(self),
    {
        match self {
            Command::Build { build_options } => Some(build_options),
            Command::With { build_options, .. } => Some(build_options),
            Command::Run { build_options } => Some(build_options),
            Command::Test { build_options, .. } => Some(build_options),
            Command::Convert { .. } => None,
            Command::Clean => None,
        }
    }
}

/// The compiler's name: `g++`.
pub open spec fn compiler_name() -> Seq<u8> {
    seq![0x67u8, 0x2bu8, 0x2bu8]
}

/// The default flag `-std=c++11`.
pub open spec fn flag_std() -> Seq<u8> {
    seq![0x2du8, 0x73u8, 0x74u8, 0x64u8, 0x3du8, 0x63u8, 0x2bu8, 0x2bu8, 0x31u8, 0x31u8]
}

/// The default flag `-Wall`.
pub open spec fn flag_wall() -> Seq<u8> {
    seq![0x2du8, 0x57u8, 0x61u8, 0x6cu8, 0x6cu8]
}

/// The default flag `-pedantic`.
pub open spec fn flag_pedantic() -> Seq<u8> {
    seq![0x2du8, 0x70u8, 0x65u8, 0x64u8, 0x61u8, 0x6eu8, 0x74u8, 0x69u8, 0x63u8]
}

/// The define flag `-D`.
pub open spec fn flag_define() -> Seq<u8> {
    seq![0x2du8, 0x44u8]
}

/// The output flag `-o`.
pub open spec fn flag_output() -> Seq<u8> {
    seq![0x2du8, 0x6fu8]
}

/// `-D` before each preprocessor define, in order.
pub open spec fn define_args(defines: Seq<Seq<u8>>) -> Seq<Seq<u8>>
    decreases defines.len(),
{
    if defines.len() == 0 {
        seq![]
    } else {
        seq![flag_define(), defines[0]] + define_args(defines.skip(1))
    }
}

/// The extra compiler arguments as an optional byte string.
pub open spec fn compiler_args_view(opts: &BuildOpts) -> Option<Seq<u8>> {
    match opts.compiler_args {
        Option::Some(a) => Option::Some(a@),
        Option::None => Option::None,
    }
}

/// The extra compiler arguments as written, or nothing.
pub open spec fn extra_args_view(opts: &BuildOpts) -> Seq<u8> {
    match opts.compiler_args {
        Option::Some(a) => a@,
        Option::None => Seq::<u8>::empty(),
    }
}

/// The full compiler invocation for one source file: the compiler, the
/// default flags unless disabled, `-D` for each define, the extra
/// arguments split on whitespace, and the output and input paths.
pub open spec fn compile_command_spec(source: Seq<u8>, binary: Seq<u8>, opts: &BuildOpts) -> Seq<
    Seq<u8>,
> {
    seq![compiler_name()] + (if opts.no_default_args {
        Seq::<Seq<u8>>::empty()
    } else {
        seq![flag_std(), flag_wall(), flag_pedantic()]
    }) + define_args(views_of(opts.defines@)) + ws_tokens(extra_args_view(opts)) + seq![
        flag_output(),
        binary,
        source,
    ]
}

fn push_arg(cmd: &mut Vec<Vec<u8>>, arg: &[u8])
    ensures
        views_of(final(cmd)@) == views_of(old(cmd)@) + seq![arg@],
{
    cmd.push(vstd::slice::slice_to_vec(arg));
    proof {
        assert(views_of(cmd@) =~= views_of(cmd@.drop_last()) + seq![cmd@.last()@]);
    }
}

proof fn lemma_define_args_snoc(defines: Seq<Seq<u8>>, d: Seq<u8>)
    ensures
        define_args(defines.push(d)) == define_args(defines) + seq![flag_define(), d],
    decreases defines.len(),
{
    if defines.len() == 0 {
        assert(defines.push(d)[0] == d);
        assert(defines.push(d).skip(1) =~= Seq::<Seq<u8>>::empty());
        assert(define_args(defines.push(d)) == seq![flag_define(), d] + define_args(
            defines.push(d).skip(1),
        ));
        assert(define_args(Seq::<Seq<u8>>::empty()) =~= Seq::<Seq<u8>>::empty());
        assert(define_args(defines) =~= Seq::<Seq<u8>>::empty());
        assert(define_args(defines.push(d)) =~= define_args(defines) + seq![flag_define(), d]);
    } else {
        lemma_define_args_snoc(defines.skip(1), d);
        assert(defines.push(d).skip(1) =~= defines.skip(1).push(d));
        assert(defines.push(d)[0] == defines[0]);
        assert(define_args(defines.push(d)) =~= define_args(defines) + seq![flag_define(), d]);
    }
}

/// Builds the compiler invocation for one source file.
pub fn compile_command(source: &[u8], binary: &[u8], opts: &BuildOpts) -> (r: Vec<Vec<u8>>)
    ensures
        views_of(r@) == compile_command_spec(source@, binary@, opts),
{
    let mut cmd: Vec<Vec<u8>> = Vec::new();
    let name: [u8; 3] = [0x67, 0x2b, 0x2b];
    push_arg(&mut cmd, name.as_slice());
    proof {
        assert(views_of(cmd@) =~= seq![compiler_name()]);
    }
    if !opts.no_default_args {
        let std_flag: [u8; 10] = [0x2d, 0x73, 0x74, 0x64, 0x3d, 0x63, 0x2b, 0x2b, 0x31, 0x31];
        let wall: [u8; 5] = [0x2d, 0x57, 0x61, 0x6c, 0x6c];
        let pedantic: [u8; 9] = [0x2d, 0x70, 0x65, 0x64, 0x61, 0x6e, 0x74, 0x69, 0x63];
        push_arg(&mut cmd, std_flag.as_slice());
        push_arg(&mut cmd, wall.as_slice());
        push_arg(&mut cmd, pedantic.as_slice());
    }
    let ghost lead = views_of(cmd@);
    proof {
        assert(lead =~= seq![compiler_name()] + (if opts.no_default_args {
            Seq::<Seq<u8>>::empty()
        } else {
            seq![flag_std(), flag_wall(), flag_pedantic()]
        }));
    }
    let define_flag: [u8; 2] = [0x2d, 0x44];
    let nd = opts.defines.len();
    let mut i: usize = 0;
    proof {
        assert(views_of(opts.defines@).take(0) =~= Seq::<Seq<u8>>::empty());
        assert(define_args(views_of(opts.defines@).take(0)) =~= Seq::<Seq<u8>>::empty());
        assert(views_of(cmd@) =~= lead + define_args(views_of(opts.defines@).take(0)));
    }
    while i < nd
        invariant
            nd == opts.defines@.len(),
            0 <= i <= nd,
            define_flag@ == flag_define(),
            views_of(cmd@) == lead + define_args(views_of(opts.defines@).take(i as int)),
        decreases nd - i,
    {
        let ghost defines = views_of(opts.defines@);
        push_arg(&mut cmd, define_flag.as_slice());
        push_arg(&mut cmd, opts.defines[i].as_slice());
        proof {
            lemma_define_args_snoc(defines.take(i as int), defines[i as int]);
            assert(defines.take(i as int).push(defines[i as int]) =~= defines.take(i + 1));
            assert(views_of(cmd@) =~= lead + define_args(defines.take(i + 1)));
        }
        i = i + 1;
    }
    proof {
        assert(views_of(opts.defines@).take(nd as int) =~= views_of(opts.defines@));
    }
    let ghost with_defines = views_of(cmd@);
    let tokens = match &opts.compiler_args {
        Some(extra) => crate::bytes::split_whitespace(extra.as_slice()),
        None => {
            let empty: Vec<Vec<u8>> = Vec::new();
            proof {
                assert(extra_args_view(opts) =~= Seq::<u8>::empty());
                assert(views_of(empty@) =~= ws_tokens(extra_args_view(opts)));
            }
            empty
        },
    };
    let nt = tokens.len();
    let mut j: usize = 0;
    proof {
        assert(views_of(tokens@).take(0) =~= Seq::<Seq<u8>>::empty());
        assert(views_of(cmd@) =~= with_defines + views_of(tokens@).take(0));
    }
    while j < nt
        invariant
            nt == tokens@.len(),
            0 <= j <= nt,
            views_of(cmd@) == with_defines + views_of(tokens@).take(j as int),
        decreases nt - j,
    {
        push_arg(&mut cmd, tokens[j].as_slice());
        proof {
            assert(views_of(tokens@).take(j + 1) =~= views_of(tokens@).take(j as int).push(
                views_of(tokens@)[j as int],
            ));
            assert(views_of(cmd@) =~= with_defines + views_of(tokens@).take(j + 1));
        }
        j = j + 1;
    }
    proof {
        assert(views_of(tokens@).take(nt as int) =~= views_of(tokens@));
    }
    let output_flag: [u8; 2] = [0x2d, 0x6f];
    push_arg(&mut cmd, output_flag.as_slice());
    push_arg(&mut cmd, binary);
    push_arg(&mut cmd, source);
    proof {
        assert(views_of(cmd@) =~= compile_command_spec(source@, binary@, opts));
    }
    cmd
}

/// The compression suffix `.gz`.
pub open spec fn gz_suffix() -> Seq<u8> {
    seq![0x2eu8, 0x67u8, 0x7au8]
}

/// The compression suffix `.tgz`.
pub open spec fn tgz_suffix() -> Seq<u8> {
    seq![0x2eu8, 0x74u8, 0x67u8, 0x7au8]
}

/// The compression suffix `.tar.gz`.
pub open spec fn targz_suffix() -> Seq<u8> {
    seq![0x2eu8, 0x74u8, 0x61u8, 0x72u8, 0x2eu8, 0x67u8, 0x7au8]
}

/// An archive path with its compression suffix removed, when its file
/// name carries one.
pub open spec fn archive_stem(p: Seq<u8>) -> Seq<u8> {
    let fname = crate::pathname::path_file_name(p);
    if crate::bytes::is_suffix_of(gz_suffix(), fname) {
        p.take(p.len() - 3)
    } else if crate::bytes::is_suffix_of(tgz_suffix(), fname) {
        p.take(p.len() - 4)
    } else if crate::bytes::is_suffix_of(targz_suffix(), fname) {
        p.take(p.len() - 7)
    } else {
        p
    }
}

/// Where a converted corpus goes when no output is named: the archive
/// with its compression suffix removed and the corpus extension put on.
pub open spec fn default_convert_output_spec(archive: Seq<u8>) -> Seq<u8> {
    crate::pathname::path_with_extension(archive_stem(archive), crate::cache::samples_extension())
}

/// Derives the converted corpus's default path from the archive's.
pub fn default_convert_output(archive: &[u8]) -> (r: Vec<u8>)
    ensures
        r@ == default_convert_output_spec(archive@),
{
    let gz: [u8; 3] = [0x2e, 0x67, 0x7a];
    let tgz: [u8; 4] = [0x2e, 0x74, 0x67, 0x7a];
    let targz: [u8; 7] = [0x2e, 0x74, 0x61, 0x72, 0x2e, 0x67, 0x7a];
    let samples: [u8; 7] = [0x73, 0x61, 0x6d, 0x70, 0x6c, 0x65, 0x73];
    proof {
        assert(gz@ =~= gz_suffix());
        assert(tgz@ =~= tgz_suffix());
        assert(targz@ =~= targz_suffix());
        assert(samples@ =~= crate::cache::samples_extension());
    }
    let fname = crate::pathname::file_name(archive);
    proof {
        crate::pathname::lemma_file_name_len(archive@);
    }
    let stem: &[u8] = if crate::bytes::ends_with(fname.as_slice(), gz.as_slice()) {
        vstd::slice::slice_subrange(archive, 0, archive.len() - 3)
    } else if crate::bytes::ends_with(fname.as_slice(), tgz.as_slice()) {
        vstd::slice::slice_subrange(archive, 0, archive.len() - 4)
    } else if crate::bytes::ends_with(fname.as_slice(), targz.as_slice()) {
        vstd::slice::slice_subrange(archive, 0, archive.len() - 7)
    } else {
        archive
    };
    proof {
        assert(stem@ =~= archive_stem(archive@));
    }
    crate::pathname::with_extension(stem, samples.as_slice())
}

/// The placeholder `{bin}` that the built binaries replace.
pub open spec fn bin_placeholder() -> Seq<u8> {
    seq![0x7bu8, 0x62u8, 0x69u8, 0x6eu8, 0x7du8]
}

/// Every placeholder argument replaced, in place, by the whole artifact
/// list.
pub open spec fn substituted_args(args: Seq<Seq<u8>>, artifacts: Seq<Seq<u8>>) -> Seq<Seq<u8>>
    decreases args.len(),
{
    if args.len() == 0 {
        seq![]
    } else if args[0] == bin_placeholder() {
        artifacts + substituted_args(args.skip(1), artifacts)
    } else {
        seq![args[0]] + substituted_args(args.skip(1), artifacts)
    }
}

/// Whether any argument is the placeholder.
pub open spec fn has_placeholder(args: Seq<Seq<u8>>) -> bool {
    exists|i: int| 0 <= i < args.len() && args[i] == bin_placeholder()
}

/// The command line the `with` command runs: each `{bin}` replaced by the
/// built binaries, or the binaries appended when no `{bin}` occurs.
pub open spec fn with_substituted_bins(args: Seq<Seq<u8>>, artifacts: Seq<Seq<u8>>) -> Seq<
    Seq<u8>,
> {
    if has_placeholder(args) {
        substituted_args(args, artifacts)
    } else {
        args + artifacts
    }
}

proof fn lemma_substituted_snoc(args: Seq<Seq<u8>>, a: Seq<u8>, artifacts: Seq<Seq<u8>>)
    ensures
        substituted_args(args.push(a), artifacts) == substituted_args(args, artifacts) + (if a
            == bin_placeholder() {
            artifacts
        } else {
            seq![a]
        }),
    decreases args.len(),
{
    let tail: Seq<Seq<u8>> = if a == bin_placeholder() {
        artifacts
    } else {
        seq![a]
    };
    if args.len() == 0 {
        assert(args.push(a)[0] == a);
        assert(args.push(a).skip(1) =~= Seq::<Seq<u8>>::empty());
        assert(substituted_args(args.push(a), artifacts) == tail + substituted_args(
            args.push(a).skip(1),
            artifacts,
        ));
        assert(substituted_args(Seq::<Seq<u8>>::empty(), artifacts) =~= Seq::<Seq<u8>>::empty());
        assert(substituted_args(args, artifacts) =~= Seq::<Seq<u8>>::empty());
        assert(substituted_args(args.push(a), artifacts) =~= substituted_args(args, artifacts)
            + tail);
    } else {
        lemma_substituted_snoc(args.skip(1), a, artifacts);
        assert(args.push(a).skip(1) =~= args.skip(1).push(a));
        assert(args.push(a)[0] == args[0]);
        assert(substituted_args(args.push(a), artifacts) =~= substituted_args(args, artifacts)
            + tail);
    }
}

proof fn lemma_substituted_identity(args: Seq<Seq<u8>>, artifacts: Seq<Seq<u8>>)
    requires
        !has_placeholder(args),
    ensures
        substituted_args(args, artifacts) == args,
    decreases args.len(),
{
    if args.len() == 0 {
        assert(substituted_args(args, artifacts) =~= args);
    } else {
        assert(args[0] != bin_placeholder());
        assert forall|i: int| 0 <= i < args.skip(1).len() implies args.skip(1)[i]
            != bin_placeholder() by {
            assert(args.skip(1)[i] == args[i + 1]);
        }
        lemma_substituted_identity(args.skip(1), artifacts);
        assert(substituted_args(args, artifacts) =~= args) by {
            assert(seq![args[0]] + args.skip(1) =~= args);
        }
    }
}

/// Replaces each `{bin}` argument by the built binaries, appending them
/// instead when the placeholder never occurs.
pub fn substitute_bin(arguments: &Vec<Vec<u8>>, artifacts: &Vec<Vec<u8>>) -> (r: Vec<Vec<u8>>)
    ensures
        views_of(r@) == with_substituted_bins(views_of(arguments@), views_of(artifacts@)),
{
    let placeholder: [u8; 5] = [0x7b, 0x62, 0x69, 0x6e, 0x7d];
    let mut out: Vec<Vec<u8>> = Vec::new();
    let mut found = false;
    let n = arguments.len();
    let mut i: usize = 0;
    proof {
        assert(views_of(arguments@).take(0) =~= Seq::<Seq<u8>>::empty());
        assert(substituted_args(views_of(arguments@).take(0), views_of(artifacts@)) =~= views_of(
            out@,
        ));
    }
    while i < n
        invariant
            n == arguments@.len(),
            0 <= i <= n,
            placeholder@ == bin_placeholder(),
            views_of(out@) == substituted_args(
                views_of(arguments@).take(i as int),
                views_of(artifacts@),
            ),
            found == has_placeholder(views_of(arguments@).take(i as int)),
        decreases n - i,
    {
        let ghost args = views_of(arguments@);
        let ghost arts = views_of(artifacts@);
        proof {
            lemma_substituted_snoc(args.take(i as int), args[i as int], arts);
            assert(args.take(i as int).push(args[i as int]) =~= args.take(i + 1));
        }
        if crate::bytes::bytes_eq(arguments[i].as_slice(), placeholder.as_slice()) {
            let na = artifacts.len();
            let mut j: usize = 0;
            proof {
                assert(arts.take(0) =~= Seq::<Seq<u8>>::empty());
                assert(views_of(out@) + arts.take(0) =~= views_of(out@));
            }
            let ghost out_before = views_of(out@);
            while j < na
                invariant
                    na == artifacts@.len(),
                    0 <= j <= na,
                    views_of(out@) == out_before + views_of(artifacts@).take(j as int),
                decreases na - j,
            {
                push_arg(&mut out, artifacts[j].as_slice());
                proof {
                    assert(views_of(artifacts@).take(j + 1) =~= views_of(artifacts@).take(
                        j as int,
                    ).push(views_of(artifacts@)[j as int]));
                    assert(views_of(out@) =~= out_before + views_of(artifacts@).take(j + 1));
                }
                j = j + 1;
            }
            found = true;
            proof {
                assert(arts.take(na as int) =~= arts);
                assert(views_of(out@) =~= substituted_args(args.take(i + 1), arts));
                assert(args.take(i + 1)[i as int] == bin_placeholder());
                assert(has_placeholder(args.take(i + 1)));
            }
        } else {
            push_arg(&mut out, arguments[i].as_slice());
            proof {
                assert(views_of(out@) =~= substituted_args(args.take(i + 1), arts));
                assert(found == has_placeholder(args.take(i + 1))) by {
                    if has_placeholder(args.take(i + 1)) && !found {
                        let w = choose|w: int|
                            0 <= w < args.take(i + 1).len() && #[trigger] args.take(i + 1)[w]
                                == bin_placeholder();
                        assert(args.take(i as int)[w] == bin_placeholder());
                    }
                }
            }
        }
        i = i + 1;
    }
    proof {
        assert(views_of(arguments@).take(n as int) =~= views_of(arguments@));
    }
    if !found {
        let ghost out_before = views_of(out@);
        let na = artifacts.len();
        let mut j: usize = 0;
        proof {
            assert(views_of(artifacts@).take(0) =~= Seq::<Seq<u8>>::empty());
            assert(views_of(out@) =~= out_before + views_of(artifacts@).take(0));
        }
        while j < na
            invariant
                na == artifacts@.len(),
                0 <= j <= na,
                views_of(out@) == out_before + views_of(artifacts@).take(j as int),
            decreases na - j,
        {
            push_arg(&mut out, artifacts[j].as_slice());
            proof {
                assert(views_of(artifacts@).take(j + 1) =~= views_of(artifacts@).take(
                    j as int,
                ).push(views_of(artifacts@)[j as int]));
                assert(views_of(out@) =~= out_before + views_of(artifacts@).take(j + 1));
            }
            j = j + 1;
        }
        proof {
            assert(views_of(artifacts@).take(na as int) =~= views_of(artifacts@));
            lemma_substituted_identity(views_of(arguments@), views_of(artifacts@));
        }
    }
    out
}

} // verus!
