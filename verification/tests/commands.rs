use sure_rm::commands::{PathLookup, PathPlan, plan_path};
use sure_rm::cli::{DeleteOptions, PurgeOptions, RequestedMode, UnlinkOptions};
use sure_rm::commands::{
    ByIdOutcome, DeleteStart, DirectoryCheck, EffectiveMode, Removal, canonical_danger,
    delete_start, directory_check, is_yes, literal_danger, not_found_message, paths_need_prompt,
    permanent_removal, prompt_once_text, purge_all_prompt, purge_scope, resolve_by_id,
    resolve_mode, should_auto_prompt_once, should_prompt_once,
};
use sure_rm::store::StoreError;

#[test]
fn auto_prompt_once_for_recursive_delete() {
    let options = DeleteOptions {
        recursive: true,
        ..DeleteOptions::default()
    };
    assert!(should_auto_prompt_once(&options));
}

#[test]
fn force_disables_auto_prompt_once() {
    let options = DeleteOptions {
        recursive: true,
        force: true,
        ..DeleteOptions::default()
    };
    assert!(!should_auto_prompt_once(&options));
}

#[test]
fn explicit_mode_resolution_is_stable() {
    for (a, b) in [(false, false), (true, false), (false, true), (true, true)] {
        assert_eq!(
            resolve_mode(RequestedMode::Interactive, a, b),
            EffectiveMode::Interactive
        );
        assert_eq!(resolve_mode(RequestedMode::Batch, a, b), EffectiveMode::Batch);
    }
}

#[test]
fn force_without_paths_is_a_noop() {
    let options = DeleteOptions {
        force: true,
        ..DeleteOptions::default()
    };
    assert_eq!(delete_start(&options), DeleteStart::Nothing);
}

#[test]
fn missing_operands_without_force() {
    assert_eq!(delete_start(&DeleteOptions::default()), DeleteStart::MissingOperands);
    let options = DeleteOptions { paths: vec![b"x".to_vec()], ..DeleteOptions::default() };
    assert_eq!(delete_start(&options), DeleteStart::Proceed);
}

#[test]
fn auto_mode_needs_both_terminals() {
    assert_eq!(resolve_mode(RequestedMode::Auto, true, true), EffectiveMode::Interactive);
    assert_eq!(resolve_mode(RequestedMode::Auto, true, false), EffectiveMode::Batch);
}

#[test]
fn prompting_decisions() {
    assert!(paths_need_prompt(&[false, false, false, false]));
    assert!(paths_need_prompt(&[false, true]));
    assert!(!paths_need_prompt(&[false, false, false]));
    let once = DeleteOptions { interactive_once: true, ..DeleteOptions::default() };
    assert!(should_prompt_once(&once, EffectiveMode::Batch, false));
    let rec = DeleteOptions { recursive: true, ..DeleteOptions::default() };
    assert!(should_prompt_once(&rec, EffectiveMode::Interactive, true));
    assert!(!should_prompt_once(&rec, EffectiveMode::Batch, true));
    assert!(!should_prompt_once(&rec, EffectiveMode::Interactive, false));
    assert_eq!(prompt_once_text(false, 1), "move 1 entry?");
    assert_eq!(prompt_once_text(true, 12), "permanently delete 12 entries?");
    assert_eq!(purge_all_prompt(2).as_deref(), Some("permanently delete 2 entries?"));
    assert_eq!(purge_all_prompt(0), None);
}

#[test]
fn directory_decisions() {
    let plain = DeleteOptions::default();
    assert_eq!(directory_check(&plain, false), DirectoryCheck::NotADirectory);
    assert_eq!(directory_check(&plain, true), DirectoryCheck::Refuse);
    let d = DeleteOptions { allow_dir: true, ..DeleteOptions::default() };
    assert_eq!(directory_check(&d, true), DirectoryCheck::MustBeEmpty);
    assert_eq!(permanent_removal(&d, true), Removal::EmptyDirectory);
    let rx = DeleteOptions { recursive: true, one_file_system: true, ..DeleteOptions::default() };
    assert_eq!(directory_check(&rx, true), DirectoryCheck::RecursiveSameFileSystem);
    assert_eq!(permanent_removal(&rx, true), Removal::Tree);
    assert_eq!(permanent_removal(&plain, true), Removal::Refuse);
    assert_eq!(permanent_removal(&plain, false), Removal::File);
}

#[test]
fn dangerous_targets_are_refused() {
    assert_eq!(literal_danger(b"/").as_deref(), Some("refusing to remove /"));
    assert_eq!(literal_danger(b"//").as_deref(), Some("refusing to remove /"));
    assert_eq!(literal_danger(b".").as_deref(), Some("refusing to remove . or .."));
    assert_eq!(literal_danger(b"./").as_deref(), Some("refusing to remove . or .."));
    assert_eq!(literal_danger(b"../").as_deref(), Some("refusing to remove . or .."));
    assert_eq!(literal_danger(b"./x"), None);
    assert_eq!(canonical_danger(b"/", b"/w", b"/h").as_deref(), Some("refusing to remove /"));
    assert!(canonical_danger(b"/w", b"/w/sub", b"/h").unwrap().contains("working directory"));
    assert!(canonical_danger(b"/home", b"/w", b"/home/u").unwrap().contains("home directory"));
    assert_eq!(canonical_danger(b"/w/other", b"/w/sub", b"/home/u"), None);
    assert_eq!(canonical_danger(b"/w/s", b"/w/sub", b"/home/u"), None);
}

#[test]
fn queries_by_id_then_path() {
    assert!(matches!(resolve_by_id(Ok(None)), ByIdOutcome::TryPath));
    assert!(matches!(resolve_by_id(Err(StoreError::InvalidId)), ByIdOutcome::TryPath));
    assert!(matches!(
        resolve_by_id(Err(StoreError::BadHexDigit)),
        ByIdOutcome::Fail(StoreError::BadHexDigit)
    ));
    assert_eq!(not_found_message("x"), "not found in trash: x");
}

#[test]
fn purge_needs_a_scope() {
    assert_eq!(purge_scope(&PurgeOptions { all: true, queries: vec![] }), Ok(true));
    assert_eq!(purge_scope(&PurgeOptions { all: false, queries: vec!["a".into()] }), Ok(false));
    assert_eq!(
        purge_scope(&PurgeOptions::default()),
        Err("purge requires at least one id/path or --all".to_string())
    );
}

#[test]
fn unlink_deletes_one_path_in_batch_mode() {
    let o = UnlinkOptions { path: b"-file".to_vec() }.delete_options();
    assert_eq!(o.mode, RequestedMode::Batch);
    assert_eq!(o.paths, vec![b"-file".to_vec()]);
    assert!(!o.force && !o.recursive && !o.permanent);
}

#[test]
fn yes_answers() {
    assert!(is_yes("y\n"));
    assert!(is_yes("  YeS "));
    assert!(!is_yes("n\n"));
    assert!(!is_yes("yess"));
    assert!(!is_yes(""));
}

#[test]
fn delete_run_fails_when_any_path_failed() {
    assert_eq!(sure_rm::commands::delete_outcome(0), Ok(()));
    assert_eq!(
        sure_rm::commands::delete_outcome(2),
        Err("one or more paths could not be removed".to_string())
    );
}

#[test]
fn one_path_is_planned_in_order() {
    let plain = DeleteOptions { paths: vec![b"x".to_vec()], ..DeleteOptions::default() };
    let forced = DeleteOptions { force: true, ..DeleteOptions::default() };
    assert!(matches!(plan_path(&plain, b"x", PathLookup::Missing), PathPlan::LookupError));
    assert!(matches!(plan_path(&forced, b"x", PathLookup::Missing), PathPlan::Skip));
    assert!(matches!(plan_path(&forced, b"x", PathLookup::Unreadable), PathPlan::LookupError));
    let found = PathLookup::Found { is_symlink: false, is_dir: true };
    match plan_path(&plain, b"./", found) {
        PathPlan::Refuse(m) => assert_eq!(m, "refusing to remove . or .."),
        other => panic!("{other:?}"),
    }
    match plan_path(&plain, b"dir", found) {
        PathPlan::Proceed { check_canonical, directory, permanent } => {
            assert!(check_canonical);
            assert_eq!(directory, DirectoryCheck::Refuse);
            assert_eq!(permanent, None);
        }
        other => panic!("{other:?}"),
    }
    let link = PathLookup::Found { is_symlink: true, is_dir: false };
    let rp = DeleteOptions { recursive: true, permanent: true, ..DeleteOptions::default() };
    match plan_path(&rp, b"link", link) {
        PathPlan::Proceed { check_canonical, directory, permanent } => {
            assert!(!check_canonical);
            assert_eq!(directory, DirectoryCheck::NotADirectory);
            assert_eq!(permanent, Some(Removal::File));
        }
        other => panic!("{other:?}"),
    }
}
