//! The directory variant: gathering loose sample files during a walk.

use testprog::{
    complete_pairs, CollectErrorKind, Os, SampleCollector, TraversalEvent, TraversalResponse,
};

fn file(path: &[u8]) -> TraversalEvent {
    TraversalEvent::File(path.to_vec())
}

fn enter(path: &[u8]) -> TraversalEvent {
    TraversalEvent::EnterDirectory(path.to_vec())
}

#[test]
fn groups_unix_sample_files_by_name() {
    let mut collector = SampleCollector::new(b"root".to_vec(), Os::Unix, vec![]);
    assert_eq!(collector.visit(&file(b"root/one_in.txt")), TraversalResponse::Continue);
    assert_eq!(collector.visit(&file(b"root/one_out.txt")), TraversalResponse::Continue);
    assert_eq!(collector.visit(&file(b"root/ignored.dat")), TraversalResponse::Continue);
    let (groups, errors) = collector.finish();
    assert_eq!(errors.len(), 0);
    assert_eq!(groups.len(), 1);
    assert_eq!(groups[0].name, b"one".to_vec());
    assert_eq!(groups[0].input, Some(b"root/one_in.txt".to_vec()));
    assert_eq!(groups[0].output, Some(b"root/one_out.txt".to_vec()));
}

#[test]
fn only_the_active_line_ending_family_counts() {
    let mut collector = SampleCollector::new(b"root".to_vec(), Os::Windows, vec![]);
    collector.visit(&file(b"root/a_in.txt"));
    collector.visit(&file(b"root/a_in_win.txt"));
    collector.visit(&file(b"root/a_out_win.txt"));
    let (groups, errors) = collector.finish();
    assert_eq!(errors.len(), 0);
    assert_eq!(groups.len(), 1);
    assert_eq!(groups[0].input, Some(b"root/a_in_win.txt".to_vec()));
    assert_eq!(groups[0].output, Some(b"root/a_out_win.txt".to_vec()));
}

#[test]
fn nested_names_flatten_to_underscores_and_sort() {
    let mut collector = SampleCollector::new(b"root".to_vec(), Os::Unix, vec![]);
    collector.visit(&enter(b"root/sub"));
    collector.visit(&file(b"root/sub/case_in.txt"));
    collector.visit(&file(b"root/sub/case_out.txt"));
    collector.visit(&TraversalEvent::LeaveDirectory);
    collector.visit(&file(b"root/alpha_in.txt"));
    collector.visit(&file(b"root/alpha_out.txt"));
    let (groups, _) = collector.finish();
    assert_eq!(groups.len(), 2);
    // name order, with the separator flattened into the name
    assert_eq!(groups[0].name, b"alpha".to_vec());
    assert_eq!(groups[1].name, b"sub_case".to_vec());
}

#[test]
fn first_level_allow_list_restricts_descent() {
    let subdirs = vec![b"KEEP".to_vec()];
    let mut collector = SampleCollector::new(b"root".to_vec(), Os::Unix, subdirs);
    assert_eq!(collector.visit(&enter(b"root/KEEP")), TraversalResponse::Continue);
    collector.visit(&enter(b"root/KEEP/deeper"));
    // below the first level the allow-list no longer applies
    assert_eq!(collector.visit(&TraversalEvent::LeaveDirectory), TraversalResponse::Continue);
    collector.visit(&TraversalEvent::LeaveDirectory);
    assert_eq!(collector.visit(&enter(b"root/OTHER")), TraversalResponse::Skip);
}

#[test]
fn duplicate_sides_are_reported() {
    let mut collector = SampleCollector::new(b"root".to_vec(), Os::Unix, vec![]);
    collector.visit(&enter(b"root/a"));
    collector.visit(&file(b"root/a/x_in.txt"));
    collector.visit(&TraversalEvent::LeaveDirectory);
    collector.visit(&enter(b"root/b"));
    // a different directory flattens to a different name
    collector.visit(&file(b"root/b/x_in.txt"));
    collector.visit(&TraversalEvent::LeaveDirectory);
    // a second input for `a_x`
    collector.visit(&file(b"root/a/x_in.txt"));
    let (groups, errors) = collector.finish();
    assert_eq!(groups.len(), 2);
    assert_eq!(errors.len(), 1);
    assert_eq!(errors[0].kind, CollectErrorKind::DuplicateInput);
    assert_eq!(errors[0].path, b"root/a/x_in.txt".to_vec());
}

#[test]
fn one_sided_groups_are_skipped_with_an_error() {
    let mut collector = SampleCollector::new(b"root".to_vec(), Os::Unix, vec![]);
    collector.visit(&file(b"root/full_in.txt"));
    collector.visit(&file(b"root/full_out.txt"));
    collector.visit(&file(b"root/lone_in.txt"));
    collector.visit(&file(b"root/orphan_out.txt"));
    let (groups, walk_errors) = collector.finish();
    assert_eq!(walk_errors.len(), 0);
    let (pairs, errors) = complete_pairs(&groups);
    assert_eq!(pairs.len(), 1);
    assert_eq!(pairs[0].name, b"full".to_vec());
    assert_eq!(pairs[0].input, b"root/full_in.txt".to_vec());
    assert_eq!(pairs[0].output, b"root/full_out.txt".to_vec());
    assert_eq!(errors.len(), 2);
    assert_eq!(errors[0].kind, CollectErrorKind::MissingOutput);
    assert_eq!(errors[0].path, b"lone".to_vec());
    assert_eq!(errors[1].kind, CollectErrorKind::MissingInput);
    assert_eq!(errors[1].path, b"orphan".to_vec());
}
