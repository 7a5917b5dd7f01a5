//! Commands, the compiler invocation, placeholder substitution, paths,
//! and the logging context.

use testprog::{
    compile_command, default_convert_output, file_name, join, level_for, make_logger_from_config,
    prompt_answer, substitute_bin, with_extension, BuildOpts, Command, Interactivity, LevelFilter,
    Os, PromptAnswer,
};

fn args(items: &[&[u8]]) -> Vec<Vec<u8>> {
    items.iter().map(|a| a.to_vec()).collect()
}

#[test]
fn building_commands_carry_their_options() {
    let build = Command::Build {
        build_options: BuildOpts {
            defines: vec![],
            compiler_args: None,
            no_default_args: false,
            targets: args(&[b"a.cpp"]),
        },
    };
    assert!(build.get_build_options().is_some());
    assert!(Command::Clean.get_build_options().is_none());
    let convert = Command::Convert {
        archive: b"samples.tgz".to_vec(),
        output: None,
        sample_subdirs: vec![],
    };
    assert!(convert.get_build_options().is_none());
}

#[test]
fn compile_command_uses_default_flags() {
    let opts = BuildOpts {
        defines: args(&[b"DEBUG=1", b"N=3"]),
        compiler_args: Some(b" -O2   -g ".to_vec()),
        no_default_args: false,
        targets: vec![],
    };
    let cmd = compile_command(b"prog.cpp", b"out/prog", &opts);
    let expected: Vec<Vec<u8>> = args(&[
        b"g++",
        b"-std=c++11",
        b"-Wall",
        b"-pedantic",
        b"-D",
        b"DEBUG=1",
        b"-D",
        b"N=3",
        b"-O2",
        b"-g",
        b"-o",
        b"out/prog",
        b"prog.cpp",
    ]);
    assert_eq!(cmd, expected);
}

#[test]
fn compile_command_can_drop_default_flags() {
    let opts = BuildOpts {
        defines: vec![],
        compiler_args: None,
        no_default_args: true,
        targets: vec![],
    };
    let cmd = compile_command(b"p.c", b"out/p", &opts);
    assert_eq!(cmd, args(&[b"g++", b"-o", b"out/p", b"p.c"]));
}

#[test]
fn placeholder_is_replaced_in_place() {
    let arguments = args(&[b"hyperfine", b"{bin}", b"--warmup", b"3"]);
    let artifacts = args(&[b"out/a", b"out/b"]);
    let substituted = substitute_bin(&arguments, &artifacts);
    assert_eq!(substituted, args(&[b"hyperfine", b"out/a", b"out/b", b"--warmup", b"3"]));
}

#[test]
fn binaries_are_appended_without_placeholder() {
    let arguments = args(&[b"wc", b"-c"]);
    let artifacts = args(&[b"out/a"]);
    let substituted = substitute_bin(&arguments, &artifacts);
    assert_eq!(substituted, args(&[b"wc", b"-c", b"out/a"]));
}

#[test]
fn paths_join_and_swap_extensions() {
    assert_eq!(join(b"root", b"out"), b"root/out".to_vec());
    assert_eq!(join(b"root/", b"out"), b"root/out".to_vec());
    assert_eq!(join(b"root", b"/absolute"), b"/absolute".to_vec());
    assert_eq!(join(b"", b"rel"), b"rel".to_vec());
    assert_eq!(with_extension(b"dir/prog.cpp", b"samples"), b"dir/prog.samples".to_vec());
    assert_eq!(with_extension(b"dir/prog.cpp", b""), b"dir/prog".to_vec());
    assert_eq!(with_extension(b"dir/prog", b"in"), b"dir/prog.in".to_vec());
    // a leading dot hides a file, it is no extension
    assert_eq!(with_extension(b"dir/.hidden", b"x"), b"dir/.hidden.x".to_vec());
    assert_eq!(file_name(b"a/b/c.txt"), b"c.txt".to_vec());
    assert_eq!(file_name(b"plain"), b"plain".to_vec());
}

#[test]
fn archive_names_become_corpus_names() {
    assert_eq!(default_convert_output(b"week1/data.tgz"), b"week1/data.samples".to_vec());
    assert_eq!(default_convert_output(b"week1/data.tar.gz"), b"week1/data.samples".to_vec());
    assert_eq!(default_convert_output(b"week1/data.gz"), b"week1/data.samples".to_vec());
    assert_eq!(default_convert_output(b"week1/plain"), b"week1/plain.samples".to_vec());
}

#[test]
fn verbosity_flags_pick_the_threshold() {
    assert_eq!(level_for(true, 0), LevelFilter::Error);
    assert_eq!(level_for(true, 5), LevelFilter::Error);
    assert_eq!(level_for(false, 0), LevelFilter::Info);
    assert_eq!(level_for(false, 1), LevelFilter::Debug);
    assert_eq!(level_for(false, 2), LevelFilter::Trace);
}

#[test]
fn logger_config_tokens_accumulate() {
    let logger = make_logger_from_config(b"debug, level ,file", false);
    assert_eq!(logger.max_level, LevelFilter::Debug);
    assert!(logger.print_level);
    assert!(logger.print_file);
    assert!(!logger.color);

    let quiet = make_logger_from_config(b"", true);
    assert_eq!(quiet.max_level, LevelFilter::Error);
    assert!(quiet.color);

    // the chattiest named level wins; unknown tokens change nothing
    let mixed = make_logger_from_config(b"warn,trace,bogus,error", false);
    assert_eq!(mixed.max_level, LevelFilter::Trace);
}

#[test]
fn interactivity_values_are_distinct() {
    assert_ne!(Interactivity::Skip, Interactivity::No);
    assert_ne!(Interactivity::No, Interactivity::Yes);
    assert_eq!(Os::Unix, Os::Unix);
    assert_ne!(Os::Unix, Os::Windows);
    assert_eq!(prompt_answer(b"Y"), PromptAnswer::Accept);
}
