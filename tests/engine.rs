use rip2::args::{validate_args, Args, ArgsError, Commands};
use rip2::relocate::{
    copy_file, marker_text, move_dir, move_target, CopyAction, CopyStep, EntryInfo, EntryKind,
    MoveAction, MoveError, MoveStep, TreeAction, TreeMove, WalkEvent, BIG_FILE_THRESHOLD,
};
use rip2::session::{
    bury_plan, bury_question, describe_dir, describe_file, graves_to_exhume, quote_line,
    resolve_source, seance_root, select_operation, source_path, wants_last_bury, with_last_bury,
    BuryError, BuryPlan, Operation, SourcePlan,
};
use rip2::record::RecordItem;
use rip2::util::{
    allow_rename, get_graveyard, get_user, prompt_text, yes_no_quit, PromptError, ProductionMode,
    TestMode, TestingMode,
};

fn info(kind: EntryKind, len: u64) -> EntryInfo {
    EntryInfo { kind, len, mode: 0o644 }
}

#[test]
fn copy_policy_by_type() {
    assert_eq!(copy_file(&info(EntryKind::Regular, 10), CopyStep::Start), CopyAction::CopyBytes);
    assert_eq!(copy_file(&info(EntryKind::Fifo, 0), CopyStep::Start), CopyAction::MakeFifo(0o644));
    assert_eq!(copy_file(&info(EntryKind::Symlink, 5), CopyStep::Start), CopyAction::CopyLink);
    assert_eq!(copy_file(&info(EntryKind::Other, 0), CopyStep::Start), CopyAction::TryCopy);
}

#[test]
fn big_file_decline_delete_copies() {
    let big = info(EntryKind::Regular, 600_000_000);
    assert_eq!(copy_file(&big, CopyStep::Start), CopyAction::AskBigFile);
    assert_eq!(copy_file(&big, CopyStep::BigFileAnswer(false)), CopyAction::CopyBytes);
}

#[test]
fn big_file_confirm_delete_skips_copy() {
    let big = info(EntryKind::Regular, 600_000_000);
    assert_eq!(copy_file(&big, CopyStep::BigFileAnswer(true)), CopyAction::Skip);
    assert!(matches!(
        move_target("/g/big", true, MoveStep::FileCopied(false)),
        Ok(MoveAction::RemoveSource(false))
    ));
}

#[test]
fn threshold_is_inclusive_bound() {
    assert_eq!(BIG_FILE_THRESHOLD, 500_000_000);
    let at = info(EntryKind::Regular, BIG_FILE_THRESHOLD);
    assert_eq!(copy_file(&at, CopyStep::Start), CopyAction::CopyBytes);
    let over = info(EntryKind::Regular, BIG_FILE_THRESHOLD + 1);
    assert_eq!(copy_file(&over, CopyStep::Start), CopyAction::AskBigFile);
}

#[test]
fn unsupported_entry_answers() {
    let sock = info(EntryKind::Other, 0);
    assert_eq!(copy_file(&sock, CopyStep::UnsupportedAnswer(true)), CopyAction::WriteMarker);
    assert_eq!(copy_file(&sock, CopyStep::UnsupportedAnswer(false)), CopyAction::FailCopy);
    assert!(marker_text("/tmp/sock").ends_with("/tmp/sock\n"));
}

#[test]
fn move_steps() {
    assert!(matches!(move_target("/g/a/b", true, MoveStep::Start), Ok(MoveAction::Rename)));
    match move_target("/g/a/b", false, MoveStep::Start) {
        Ok(MoveAction::CreateParent(p)) => assert_eq!(p, "/g/a"),
        other => panic!("unexpected {:?}", other),
    }
    match move_target("/g/a/b", true, MoveStep::RenameFailed) {
        Ok(MoveAction::CreateParent(p)) => assert_eq!(p, "/g/a"),
        other => panic!("unexpected {:?}", other),
    }
    assert!(matches!(move_target("/", true, MoveStep::RenameFailed), Err(MoveError::NoParent)));
    assert!(matches!(
        move_target("/g/a", true, MoveStep::ParentReady(EntryKind::Directory)),
        Ok(MoveAction::CopyTree)
    ));
    assert!(matches!(
        move_target("/g/a", true, MoveStep::ParentReady(EntryKind::Regular)),
        Ok(MoveAction::CopyEntry)
    ));
}

fn entry(path: &str, is_dir: bool) -> WalkEvent {
    WalkEvent::Entry { path: path.to_string(), is_dir }
}

#[test]
fn tree_copy_mirrors_rename() {
    let mut walk = TreeMove::new("/src/d", "/g/src/d");
    match move_dir(&mut walk, entry("/src/d", true)) {
        TreeAction::CreateDir(p) => assert_eq!(p, "/g/src/d"),
        other => panic!("unexpected {:?}", other),
    }
    match move_dir(&mut walk, entry("/src/d/sub", true)) {
        TreeAction::CreateDir(p) => assert_eq!(p, "/g/src/d/sub"),
        other => panic!("unexpected {:?}", other),
    }
    match move_dir(&mut walk, entry("/src/d/sub/f.txt", false)) {
        TreeAction::CopyTo(p) => assert_eq!(p, "/g/src/d/sub/f.txt"),
        other => panic!("unexpected {:?}", other),
    }
    assert!(matches!(move_dir(&mut walk, WalkEvent::Finished), TreeAction::RemoveSource));
}

#[test]
fn unreadable_entry_aborts_tree_move() {
    let mut walk = TreeMove::new("/src/d", "/g/src/d");
    assert!(matches!(move_dir(&mut walk, entry("/src/d", true)), TreeAction::CreateDir(_)));
    assert!(matches!(
        move_dir(&mut walk, WalkEvent::Unreadable),
        TreeAction::Abort(MoveError::Unreadable)
    ));
    assert!(matches!(move_dir(&mut walk, entry("/src/d/x", false)), TreeAction::Abort(_)));
    assert!(matches!(move_dir(&mut walk, WalkEvent::Finished), TreeAction::Abort(_)));
}

#[test]
fn failed_copy_aborts_tree_move() {
    let mut walk = TreeMove::new("/src/d", "/g/src/d");
    assert!(matches!(move_dir(&mut walk, entry("/src/d/f", false)), TreeAction::CopyTo(_)));
    assert!(matches!(
        move_dir(&mut walk, WalkEvent::Failed),
        TreeAction::Abort(MoveError::EntryFailed)
    ));
    assert!(matches!(move_dir(&mut walk, WalkEvent::Finished), TreeAction::Abort(_)));
}

#[test]
fn entry_outside_tree_aborts_move() {
    let mut walk = TreeMove::new("/src/d", "/g");
    assert!(matches!(
        move_dir(&mut walk, entry("/elsewhere", false)),
        TreeAction::Abort(MoveError::NotUnder)
    ));
    assert!(matches!(move_dir(&mut walk, WalkEvent::Finished), TreeAction::Abort(_)));
}

#[test]
fn unbury_falls_back_to_last_bury() {
    assert!(wants_last_bury(&vec![]));
    assert!(!wants_last_bury(&vec!["/g/a".to_string()]));
    assert_eq!(with_last_bury(vec![], Some("/g/b".to_string())), vec!["/g/b".to_string()]);
    assert!(with_last_bury(vec![], None).is_empty());
    assert_eq!(
        with_last_bury(vec!["/g/a".to_string()], Some("/g/b".to_string())),
        vec!["/g/a".to_string()]
    );
}

#[test]
fn validation_rules() {
    let bad_completions = Args {
        command: Some(Commands::Completions { shell: "bash".to_string() }),
        decompose: true,
        ..Args::default()
    };
    assert_eq!(validate_args(&bad_completions), Err(ArgsError::CompletionsAlone));
    assert_eq!(
        ArgsError::CompletionsAlone.message(),
        "--completions can only be used by itself"
    );
    let bad_decompose = Args { decompose: true, seance: true, ..Args::default() };
    assert_eq!(validate_args(&bad_decompose), Err(ArgsError::DecomposeAlone));
    let fine = Args { decompose: true, graveyard: Some("/g".to_string()), ..Args::default() };
    assert_eq!(validate_args(&fine), Ok(()));
    let sub = Args { command: Some(Commands::Graveyard { seance: true }), ..Args::default() };
    assert_eq!(validate_args(&sub), Ok(()));
}

#[test]
fn operation_choice() {
    assert_eq!(select_operation(&Args { decompose: true, ..Args::default() }), Operation::Decompose);
    assert_eq!(
        select_operation(&Args { unbury: Some(vec![]), seance: true, ..Args::default() }),
        Operation::Unbury
    );
    assert_eq!(select_operation(&Args { seance: true, ..Args::default() }), Operation::Seance);
    assert_eq!(select_operation(&Args::default()), Operation::Help);
    assert_eq!(
        select_operation(&Args { targets: vec!["a".to_string()], ..Args::default() }),
        Operation::Bury
    );
}

#[test]
fn prompt_answers() {
    assert_eq!(yes_no_quit(Some(b'y')), Ok(true));
    assert_eq!(yes_no_quit(Some(b'Y')), Ok(true));
    assert_eq!(yes_no_quit(Some(b'n')), Ok(false));
    assert_eq!(yes_no_quit(Some(b'N')), Ok(false));
    assert_eq!(yes_no_quit(Some(b'\n')), Ok(false));
    assert_eq!(yes_no_quit(None), Ok(false));
    assert_eq!(yes_no_quit(Some(b'k')), Ok(false));
    assert_eq!(yes_no_quit(Some(b'q')), Err(PromptError::Quit));
    assert_eq!(yes_no_quit(Some(b'Q')), Err(PromptError::Quit));
    assert_eq!(prompt_text("Really?"), "Really? (y/N) ");
    assert!(TestMode.is_test());
    assert!(!ProductionMode.is_test());
}

#[test]
fn graveyard_location() {
    let some = |s: &str| Some(s.to_string());
    assert_eq!(get_graveyard(some("/flag"), some("/env"), some("/xdg"), "/tmp", "u"), "/flag");
    assert_eq!(get_graveyard(None, some("/env"), some("/xdg"), "/tmp", "u"), "/env");
    assert_eq!(get_graveyard(None, None, some("/xdg"), "/tmp", "u"), "/xdg/graveyard");
    assert_eq!(get_graveyard(None, None, some("/xdg/"), "/tmp", "u"), "/xdg/graveyard");
    assert_eq!(get_graveyard(None, None, None, "/tmp", "u"), "/tmp/graveyard-u");
    assert_eq!(get_graveyard(None, None, None, "/tmp/", "u"), "/tmp/graveyard-u");
    assert_eq!(get_user(some("alice")), "alice");
    assert_eq!(get_user(None), "unknown");
    assert!(allow_rename(None));
    assert!(allow_rename(some("true")));
    assert!(!allow_rename(some("false")));
}

#[test]
fn bury_decisions() {
    assert!(matches!(bury_plan("/g/tmp/a", "/g"), BuryPlan::AlreadyBuried));
    match bury_plan("/tmp/x/a.txt", "/tmp/g") {
        BuryPlan::Bury(h) => assert_eq!(h, "/tmp/g/tmp/x/a.txt"),
        other => panic!("unexpected {:?}", other),
    }
    assert!(matches!(bury_plan("/gx/a", "/g"), BuryPlan::Bury(_)));
    assert_eq!(source_path("/home/u", "a.txt"), "/home/u/a.txt");
    assert_eq!(source_path("/home/u/", "a.txt"), "/home/u/a.txt");
    assert_eq!(source_path("/home/u", "/abs/a.txt"), "/abs/a.txt");
    assert_eq!(seance_root("/g", "/home/u"), "/g/home/u");
}

#[test]
fn burying_missing_target_fails_not_found() {
    match resolve_source("/tmp/x", "a.txt", false, false) {
        Err(e) => {
            assert!(matches!(&e, BuryError::NotFound { target } if target == "a.txt"));
            assert_eq!(e.message(), "Cannot remove a.txt: no such file or directory");
        }
        other => panic!("unexpected {:?}", other),
    }
    match resolve_source("/tmp/x", "l", true, true) {
        Ok(SourcePlan::Link(p)) => assert_eq!(p, "/tmp/x/l"),
        other => panic!("unexpected {:?}", other),
    }
    match resolve_source("/tmp/x", "f", true, false) {
        Ok(SourcePlan::Canonicalize(p)) => assert_eq!(p, "/tmp/x/f"),
        other => panic!("unexpected {:?}", other),
    }
}

#[test]
fn unbury_candidates() {
    let seance = vec![RecordItem {
        time: "t".to_string(),
        orig: "/a".to_string(),
        dest: "/g/a".to_string(),
    }];
    assert_eq!(
        graves_to_exhume(vec!["/g/x".to_string()], &seance),
        vec!["/g/x".to_string(), "/g/a".to_string()]
    );
    assert!(graves_to_exhume(vec![], &vec![]).is_empty());
}

#[test]
fn inspection_texts() {
    assert_eq!(describe_dir("d", "1.5 KiB"), "d: directory, 1.5 KiB including:");
    assert_eq!(describe_file("f", "12 B"), "f: file, 12 B");
    assert_eq!(quote_line("hello"), "> hello");
    assert_eq!(bury_question("f"), "Send f to the graveyard?");
}
