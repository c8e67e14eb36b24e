//! The decisions behind the command-line scenarios of the tool: each test
//! runs the library part of one end-to-end run (the filesystem and the
//! terminal stay outside).

use sure_rm::cli::{Command, HelpTopic, Invocation, parse_invocation, subcommand_usage, version};
use sure_rm::color::painter_for;
use sure_rm::commands::{
    ByIdOutcome, is_yes, literal_danger, missing_is_skipped, purge_all_prompt, purge_scope,
    resolve_by_id,
};
use sure_rm::record::{parse_record, render_record};
use sure_rm::store::{
    EntryKind, MoveOutcome, TrashRecord, delete_record_file, is_expired, list_order, meta_path,
    restore_target, ttl_secs,
};
use sure_rm::text::EnvValue;

fn args(list: &[&str]) -> Vec<Vec<u8>> {
    list.iter().map(|a| a.as_bytes().to_vec()).collect()
}

fn invoke(list: &[&str]) -> Result<Invocation, String> {
    parse_invocation(Some(b"sure-rm".to_vec()), args(list), &EnvValue::Unset)
}

fn trashed(id: &str, original: &str, secs: u64) -> TrashRecord {
    TrashRecord {
        id: id.to_string(),
        original_path: original.as_bytes().to_vec(),
        trashed_path: format!("/r/trash/{id}").into_bytes(),
        deleted_at_secs: secs,
        kind: EntryKind::File,
        outcome: MoveOutcome::CentralTrash,
        meta_path: None,
    }
}

const NOW: u64 = 1_774_864_212;

#[test]
fn delete_list_restore_round_trip() {
    let Ok(Invocation::Command(Command::Delete(options))) = invoke(&["-v", "/w/hello.txt"]) else {
        panic!("expected a delete");
    };
    assert!(options.verbose);
    assert_eq!(options.paths, args(&["/w/hello.txt"]));

    let record = trashed("1774864212-1-2-0", "/w/hello.txt", NOW);
    let meta = meta_path(b"/r/meta", &record.id).unwrap();
    let back = parse_record(&render_record(&record), meta).unwrap();
    let listed = vec![back];
    assert_eq!(list_order(&listed), vec![0]);
    assert_eq!(listed[0].id, record.id);

    let Ok(Invocation::Command(Command::Restore(restore))) = invoke(&["restore", &record.id]) else {
        panic!("expected a restore");
    };
    assert_eq!(restore.query, record.id);
    assert_eq!(restore_target(&listed[0], None), b"/w/hello.txt".to_vec());
}

#[test]
fn purge_by_id_removes_entry() {
    let Ok(Invocation::Command(Command::Purge(options))) = invoke(&["purge", "1-2-3-4"]) else {
        panic!("expected a purge");
    };
    assert_eq!(purge_scope(&options), Ok(false));
    assert_eq!(options.queries, vec!["1-2-3-4".to_string()]);
    let record = trashed("1-2-3-4", "/w/to_purge.txt", NOW);
    let ByIdOutcome::Found(found) = resolve_by_id(Ok(Some(record))) else {
        panic!("expected the record");
    };
    assert_eq!(delete_record_file(&found, b"/r/meta"), Ok(b"/r/meta/1-2-3-4.meta".to_vec()));
}

#[test]
fn purge_all_is_cancelled_by_no() {
    let Ok(Invocation::Command(Command::Purge(options))) = invoke(&["purge", "--all"]) else {
        panic!("expected a purge");
    };
    assert_eq!(purge_scope(&options), Ok(true));
    assert!(purge_all_prompt(1).unwrap().contains("permanently delete"));
    assert!(!is_yes("n\n"));
    assert!(is_yes("y\n"));
}

#[test]
fn non_tty_output_has_no_ansi() {
    let p = painter_for(false, false, false);
    let label = p.good("trashed");
    assert_eq!((label.open(), label.close()), ("", ""));
    assert!(!p.error_label().contains("\x1b["));
    assert!(!p.warning_label().contains("\x1b["));
}

#[test]
fn no_args_shows_help() {
    let Ok(Invocation::Command(Command::Help(topic))) = invoke(&[]) else {
        panic!("expected help");
    };
    assert_eq!(topic, HelpTopic::General);
    assert!(subcommand_usage(topic).contains("Usage"));
}

#[test]
fn dangerous_target_dot_is_rejected() {
    let Ok(Invocation::Command(Command::Delete(options))) = invoke(&["."]) else {
        panic!("expected a delete");
    };
    let message = literal_danger(&options.paths[0]).unwrap();
    assert!(message.contains("refusing"));
}

#[test]
fn nonexistent_file_fails_without_force() {
    let Ok(Invocation::Command(Command::Delete(plain))) = invoke(&["/w/missing.txt"]) else {
        panic!("expected a delete");
    };
    assert!(!missing_is_skipped(&plain));
    let Ok(Invocation::Command(Command::Delete(forced))) = invoke(&["-f", "/w/missing.txt"]) else {
        panic!("expected a delete");
    };
    assert!(missing_is_skipped(&forced));
}

#[test]
fn version_flag_prints_version() {
    let Ok(Invocation::Command(Command::Version)) = invoke(&["--version"]) else {
        panic!("expected the version");
    };
    assert_eq!(version(), "0.1.0");
    let line = format!("sure-rm {}", version());
    assert!(line.starts_with("sure-rm ") && line.len() > "sure-rm ".len());
}

#[test]
fn purge_expired_records_removes_old_entries() {
    let ttl = ttl_secs(&EnvValue::Text("1d".to_string())).secs.unwrap();
    assert!(is_expired(NOW, NOW - 86401, ttl));
}

#[test]
fn purge_expired_keeps_fresh_entries() {
    let ttl = ttl_secs(&EnvValue::Text("7d".to_string())).secs.unwrap();
    assert!(!is_expired(NOW, NOW - 100, ttl));
}

#[test]
fn purge_expired_does_nothing_without_ttl() {
    let setting = ttl_secs(&EnvValue::Unset);
    assert_eq!(setting.secs, None);
    assert!(setting.warning.is_none());
}
