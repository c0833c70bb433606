use rust_dedup::cli::Args;
use rust_dedup::hasher::find_duplicates;
use rust_dedup::hasher::DuplicateGroup;
use rust_dedup::hasher::SourceFile;
use rust_dedup::reporter::is_affirmative;
use rust_dedup::reporter::report_and_handle;
use rust_dedup::reporter::Action;
use rust_dedup::reporter::Event;
use rust_dedup::reporter::Mode;
use rust_dedup::reporter::Resolver;
use rust_dedup::reporter::RunSummary;
use std::path::PathBuf;

fn group(digest: &str, size: u64, paths: &[&str]) -> DuplicateGroup {
    DuplicateGroup {
        digest: digest.to_string(),
        size,
        paths: paths.iter().map(|p| PathBuf::from(p)).collect(),
    }
}

fn two_groups() -> Vec<DuplicateGroup> {
    vec![group("aa", 5, &["a1", "a2", "a3"]), group("bb", 100, &["b1", "b2"])]
}

/// Plays a run to its end against a pretended file system: `answers` are
/// typed at the prompts in turn, the paths in `stuck` cannot be removed.
/// Returns the actions in order and the paths removed.
fn play(resolver: &mut Resolver, answers: &[&str], stuck: &[&str]) -> (Vec<Action>, Vec<PathBuf>) {
    let mut actions: Vec<Action> = Vec::new();
    let mut removed: Vec<PathBuf> = Vec::new();
    let mut asked: usize = 0;
    let mut action = resolver.pending();
    for _ in 0..10000 {
        actions.push(action);
        let event = match action {
            Action::Finish => return (actions, removed),
            Action::Ask { .. } => {
                let line = answers[asked].to_string();
                asked += 1;
                Event::Answered(line)
            }
            Action::Remove { group, member } => {
                let path = resolver.groups()[group].paths[member].clone();
                if stuck.contains(&path.to_str().unwrap()) {
                    Event::RemoveFailed
                } else {
                    removed.push(path);
                    Event::Removed
                }
            }
            _ => Event::Done,
        };
        action = resolver.step(event);
    }
    panic!("the run did not end");
}

#[test]
fn dry_run_wins_over_force() {
    assert_eq!(Mode::from_flags(true, true), Mode::DryRun);
    assert_eq!(Mode::from_flags(true, false), Mode::DryRun);
    assert_eq!(Mode::from_flags(false, true), Mode::Forced);
    assert_eq!(Mode::from_flags(false, false), Mode::Interactive);
    let args = Args { path: "x".to_string(), min_size: 1, force: true, dry_run: true };
    assert_eq!(args.mode(), Mode::DryRun);
    assert_eq!(Args::default().mode(), Mode::Interactive);
}

#[test]
fn only_a_lone_y_confirms() {
    assert!(is_affirmative("y"));
    assert!(is_affirmative("Y"));
    assert!(is_affirmative("y\n"));
    assert!(is_affirmative("  Y \r\n"));
    assert!(is_affirmative("\ty\u{a0}\u{3000}"));
    assert!(!is_affirmative(""));
    assert!(!is_affirmative("\n"));
    assert!(!is_affirmative("n"));
    assert!(!is_affirmative("yes"));
    assert!(!is_affirmative("yy"));
    assert!(!is_affirmative("y y"));
    assert!(!is_affirmative("Y y"));
    assert!(!is_affirmative("ý"));
    assert!(!is_affirmative("y\u{0}"));
    assert!(!is_affirmative("\u{200b}y"));
}

#[test]
fn confirmation_agrees_with_trim_and_compare() {
    let mut buffer = [0u8; 4];
    let mut c: u32 = 0;
    while c <= 0x10ffff {
        if let Some(ch) = char::from_u32(c) {
            let lone: &str = ch.encode_utf8(&mut buffer);
            assert_eq!(is_affirmative(lone), lone.trim().eq_ignore_ascii_case("y"), "{:x}", c);
            if c < 0x3100 || c % 1024 == 0 {
                let before = format!("{}y", ch);
                assert_eq!(is_affirmative(&before), before.trim().eq_ignore_ascii_case("y"), "{:x}", c);
                let after = format!("Y{}", ch);
                assert_eq!(is_affirmative(&after), after.trim().eq_ignore_ascii_case("y"), "{:x}", c);
                let between = format!("y{}y", ch);
                assert_eq!(is_affirmative(&between), between.trim().eq_ignore_ascii_case("y"), "{:x}", c);
            }
        }
        c += 1;
    }
}

#[test]
fn white_space_around_a_lone_y_is_what_trim_removes() {
    let mut c: u32 = 0;
    while c <= 0x10ffff {
        if let Some(ch) = char::from_u32(c) {
            let padded = format!("{}y{}", ch, ch);
            assert_eq!(is_affirmative(&padded), ch.is_whitespace(), "{:x}", c);
        }
        c += if c < 0x3100 { 1 } else { 513 };
    }
}

#[test]
fn no_groups_means_no_duplicates_and_nothing_else() {
    let mut resolver = report_and_handle(Vec::new(), false, true).unwrap();
    assert_eq!(resolver.pending(), Action::NoDuplicates);
    let (actions, removed) = play(&mut resolver, &[], &[]);
    assert_eq!(actions, vec![Action::NoDuplicates, Action::Finish]);
    assert!(removed.is_empty());
    assert_eq!(
        resolver.summary(),
        RunSummary { total_groups: 0, total_dupes: 0, wasted_bytes: 0, deleted_count: 0, deleted_bytes: 0 }
    );
}

#[test]
fn empty_directory_reports_no_duplicates() {
    let groups = find_duplicates(&Vec::new()).groups;
    let resolver = report_and_handle(groups, true, false).unwrap();
    assert_eq!(resolver.pending(), Action::NoDuplicates);
    assert_eq!(resolver.summary().total_groups, 0);
}

#[test]
fn summary_counts_duplicates_and_wasted_bytes_before_removal() {
    let resolver = report_and_handle(two_groups(), true, false).unwrap();
    assert_eq!(
        resolver.summary(),
        RunSummary { total_groups: 2, total_dupes: 3, wasted_bytes: 110, deleted_count: 0, deleted_bytes: 0 }
    );
    assert_eq!(resolver.mode(), Mode::DryRun);
    assert_eq!(resolver.groups().len(), 2);
}

#[test]
fn dry_run_shows_every_group_and_removes_nothing() {
    let mut resolver = report_and_handle(two_groups(), true, true).unwrap();
    let (actions, removed) = play(&mut resolver, &[], &[]);
    assert_eq!(
        actions,
        vec![
            Action::Overview,
            Action::ShowGroup { group: 0 },
            Action::ShowGroup { group: 1 },
            Action::Finish
        ]
    );
    assert!(removed.is_empty());
    assert_eq!(resolver.summary().deleted_count, 0);
    assert_eq!(resolver.summary().deleted_bytes, 0);
}

#[test]
fn dry_run_ignores_reports_of_removal() {
    let mut resolver = report_and_handle(two_groups(), true, false).unwrap();
    for event in [Event::Removed, Event::Answered("y".to_string()), Event::RemoveFailed] {
        assert_eq!(resolver.step(event), Action::Overview);
    }
    assert_eq!(resolver.step(Event::Done), Action::ShowGroup { group: 0 });
    assert_eq!(resolver.step(Event::Removed), Action::ShowGroup { group: 0 });
    assert_eq!(resolver.step(Event::Answered("y".to_string())), Action::ShowGroup { group: 0 });
    assert_eq!(resolver.summary().deleted_count, 0);
    assert_eq!(resolver.summary().deleted_bytes, 0);
}

#[test]
fn forced_run_removes_all_but_the_first_of_each_group() {
    let mut resolver = report_and_handle(two_groups(), false, true).unwrap();
    let (actions, removed) = play(&mut resolver, &[], &[]);
    assert_eq!(
        actions,
        vec![
            Action::Overview,
            Action::ShowGroup { group: 0 },
            Action::Remove { group: 0, member: 1 },
            Action::Remove { group: 0, member: 2 },
            Action::ShowGroup { group: 1 },
            Action::Remove { group: 1, member: 1 },
            Action::Summary,
            Action::Finish
        ]
    );
    assert_eq!(removed, vec![PathBuf::from("a2"), PathBuf::from("a3"), PathBuf::from("b2")]);
    let summary = resolver.summary();
    assert_eq!(summary.deleted_count, 3);
    assert_eq!(summary.deleted_bytes, 5 * 2 + 100 * 1);
    assert_eq!(summary.deleted_count, summary.total_dupes);
    assert_eq!(summary.deleted_bytes, summary.wasted_bytes);
}

#[test]
fn forced_run_keeps_the_first_copy_and_removes_the_second() {
    let files = vec![
        SourceFile { path: PathBuf::from("a"), size: 5, content: Some(b"hello".to_vec()) },
        SourceFile { path: PathBuf::from("b"), size: 5, content: Some(b"hello".to_vec()) },
        SourceFile { path: PathBuf::from("c"), size: 5, content: Some(b"world".to_vec()) },
    ];
    let mut resolver = report_and_handle(find_duplicates(&files).groups, false, true).unwrap();
    let (_, removed) = play(&mut resolver, &[], &[]);
    assert_eq!(removed, vec![PathBuf::from("b")]);
    assert_eq!(resolver.summary().deleted_bytes, 5);
}

#[test]
fn a_failed_removal_is_not_counted_and_the_run_goes_on() {
    let mut resolver = report_and_handle(two_groups(), false, true).unwrap();
    let (actions, removed) = play(&mut resolver, &[], &["a2"]);
    assert_eq!(removed, vec![PathBuf::from("a3"), PathBuf::from("b2")]);
    assert_eq!(actions.len(), 8);
    assert_eq!(actions[6], Action::Summary);
    assert_eq!(actions[7], Action::Finish);
    let summary = resolver.summary();
    assert_eq!(summary.deleted_count, 2);
    assert_eq!(summary.deleted_bytes, 105);
    assert_eq!(summary.total_dupes, 3);
    assert_eq!(summary.wasted_bytes, 110);
}

#[test]
fn a_run_in_which_every_removal_fails_still_ends_with_the_summary() {
    let mut resolver = report_and_handle(two_groups(), false, true).unwrap();
    let (actions, removed) = play(&mut resolver, &[], &["a2", "a3", "b2"]);
    assert!(removed.is_empty());
    assert_eq!(actions[actions.len() - 2], Action::Summary);
    assert_eq!(actions.last(), Some(&Action::Finish));
    assert_eq!(actions.iter().filter(|a| matches!(a, Action::Remove { .. })).count(), 3);
    assert_eq!(resolver.summary().deleted_count, 0);
    assert_eq!(resolver.summary().deleted_bytes, 0);
}

#[test]
fn the_summary_follows_a_single_failed_removal() {
    let mut resolver = report_and_handle(vec![group("h", 7, &["a", "b"])], false, true).unwrap();
    assert_eq!(resolver.step(Event::Done), Action::ShowGroup { group: 0 });
    assert_eq!(resolver.step(Event::Done), Action::Remove { group: 0, member: 1 });
    assert_eq!(resolver.step(Event::RemoveFailed), Action::Summary);
    assert_eq!(resolver.summary().deleted_count, 0);
    assert_eq!(resolver.summary().deleted_bytes, 0);
    assert_eq!(resolver.summary().total_dupes, 1);
    assert_eq!(resolver.summary().wasted_bytes, 7);
    assert_eq!(resolver.step(Event::Done), Action::Finish);
}

#[test]
fn interactive_run_removes_a_group_only_on_yes() {
    let mut resolver = report_and_handle(two_groups(), false, false).unwrap();
    assert_eq!(resolver.mode(), Mode::Interactive);
    let (actions, removed) = play(&mut resolver, &["n\n", " Y\n"], &[]);
    assert_eq!(
        actions,
        vec![
            Action::Overview,
            Action::ShowGroup { group: 0 },
            Action::Ask { group: 0 },
            Action::Skipped { group: 0 },
            Action::ShowGroup { group: 1 },
            Action::Ask { group: 1 },
            Action::Remove { group: 1, member: 1 },
            Action::Summary,
            Action::Finish
        ]
    );
    assert_eq!(removed, vec![PathBuf::from("b2")]);
    assert_eq!(resolver.summary().deleted_count, 1);
    assert_eq!(resolver.summary().deleted_bytes, 100);
}

#[test]
fn interactive_run_with_no_yes_removes_nothing() {
    let mut resolver = report_and_handle(two_groups(), false, false).unwrap();
    let (actions, removed) = play(&mut resolver, &["", "yes"], &[]);
    assert!(removed.is_empty());
    assert!(!actions.iter().any(|a| matches!(a, Action::Remove { .. })));
    assert_eq!(actions[actions.len() - 2], Action::Summary);
    assert_eq!(actions.last(), Some(&Action::Finish));
    assert_eq!(resolver.summary().deleted_count, 0);
}

#[test]
fn a_report_that_does_not_answer_the_pending_action_changes_nothing() {
    let mut resolver = report_and_handle(two_groups(), false, false).unwrap();
    assert_eq!(resolver.step(Event::Done), Action::ShowGroup { group: 0 });
    assert_eq!(resolver.step(Event::Done), Action::Ask { group: 0 });
    assert_eq!(resolver.step(Event::Done), Action::Ask { group: 0 });
    assert_eq!(resolver.step(Event::Removed), Action::Ask { group: 0 });
    assert_eq!(resolver.step(Event::Answered("y".to_string())), Action::Remove { group: 0, member: 1 });
    assert_eq!(resolver.step(Event::Done), Action::Remove { group: 0, member: 1 });
    assert_eq!(
        resolver.step(Event::Answered("y".to_string())),
        Action::Remove { group: 0, member: 1 }
    );
    assert_eq!(resolver.summary().deleted_count, 0);
    assert_eq!(resolver.step(Event::Removed), Action::Remove { group: 0, member: 2 });
    assert_eq!(resolver.summary().deleted_count, 1);
    assert_eq!(resolver.summary().deleted_bytes, 5);
}

#[test]
fn a_finished_run_stays_finished() {
    let mut resolver = report_and_handle(Vec::new(), false, false).unwrap();
    assert_eq!(resolver.step(Event::Done), Action::Finish);
    for event in [Event::Done, Event::Removed, Event::RemoveFailed, Event::Answered("y".to_string())] {
        assert_eq!(resolver.step(event), Action::Finish);
    }
    assert_eq!(resolver.pending(), Action::Finish);
}

#[test]
fn a_group_without_duplicate_is_refused() {
    assert!(report_and_handle(vec![group("aa", 5, &["only"])], false, true).is_none());
    assert!(report_and_handle(vec![group("aa", 5, &[])], true, false).is_none());
    assert!(Resolver::new(vec![group("aa", 5, &["a", "b"]), group("bb", 5, &["c"])], Mode::Forced).is_none());
    assert!(Resolver::new(vec![group("aa", 5, &["a", "b"])], Mode::Forced).is_some());
}

#[test]
fn totals_beyond_the_counters_are_refused() {
    let huge = vec![group("aa", u64::MAX, &["a", "b", "c"])];
    assert!(report_and_handle(huge, true, false).is_none());
    let sum = vec![group("aa", u64::MAX, &["a", "b"]), group("bb", 1, &["c", "d"])];
    assert!(report_and_handle(sum, true, false).is_none());
    let edge = vec![group("aa", u64::MAX - 1, &["a", "b"]), group("bb", 1, &["c", "d"])];
    let resolver = report_and_handle(edge, false, true).unwrap();
    assert_eq!(resolver.summary().wasted_bytes, u64::MAX);
    assert_eq!(resolver.summary().total_dupes, 2);
}

#[test]
fn zero_length_duplicates_are_removed_and_free_nothing() {
    let mut resolver = report_and_handle(vec![group("e3", 0, &["e1", "e2", "e3"])], false, true).unwrap();
    let (actions, removed) = play(&mut resolver, &[], &[]);
    assert_eq!(removed.len(), 2);
    assert!(actions.contains(&Action::Summary));
    assert_eq!(resolver.summary().deleted_count, 2);
    assert_eq!(resolver.summary().deleted_bytes, 0);
}
