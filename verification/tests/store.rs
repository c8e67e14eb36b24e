use sure_rm::hex::{hex_decode_bytes, hex_encode_bytes};
use sure_rm::record::{parse_record, render_record};
use sure_rm::store::{
    EntryKind, MoveOutcome, RecordField, StoreError, TrashRecord, TtlResult, delete_record,
    delete_record_file, find_latest_record_by_original_path, is_expired, list_order, make_id,
    meta_path, metadata_dir, parse_ttl, read_record, restore_target, trash_dir, trash_root,
    ttl_secs, validate_id,
};
use sure_rm::text::EnvValue;

#[test]
fn hex_round_trip() {
    let bytes = b"hello-\x00-world";
    let encoded = hex_encode_bytes(bytes);
    let decoded = hex_decode_bytes(&encoded).unwrap();
    assert_eq!(decoded, bytes);
}

#[test]
fn validate_id_rejects_path_traversal() {
    assert!(validate_id("").is_err());
    assert!(validate_id("../bad").is_err());
    assert!(validate_id("foo/bar").is_err());
    assert!(validate_id("12345-100-0-0").is_ok());
}

#[test]
fn read_record_rejects_invalid_id() {
    assert!(read_record("../etc/passwd", b"/tmp/sure-rm/meta", None).is_err());
}

#[test]
fn delete_record_rejects_invalid_id() {
    assert!(delete_record("../nonexistent", b"/tmp/sure-rm/meta").is_err());
    assert!(delete_record("foo/bar", b"/tmp/sure-rm/meta").is_err());
}

fn ttl(text: &str) -> Option<u64> {
    parse_ttl(text).as_secs()
}

fn ttl_invalid(text: &str) -> bool {
    parse_ttl(text).is_invalid()
}

#[test]
fn parse_ttl_days_suffix() {
    assert_eq!(ttl("7d"), Some(7 * 86400));
    assert_eq!(ttl("30d"), Some(30 * 86400));
}

#[test]
fn parse_ttl_hours_suffix() {
    assert_eq!(ttl("24h"), Some(24 * 3600));
}

#[test]
fn parse_ttl_seconds_suffix() {
    assert_eq!(ttl("3600s"), Some(3600));
}

#[test]
fn parse_ttl_bare_number_is_days() {
    assert_eq!(ttl("7"), Some(7 * 86400));
}

#[test]
fn parse_ttl_zero_disables() {
    assert_eq!(ttl("0"), None);
    assert!(!ttl_invalid("0"));
    assert_eq!(ttl("0d"), None);
    assert!(!ttl_invalid("0d"));
    assert_eq!(ttl("0h"), None);
    assert!(!ttl_invalid("0h"));
}

#[test]
fn parse_ttl_empty_and_disabled() {
    assert_eq!(ttl(""), None);
    assert!(!ttl_invalid(""));
    assert_eq!(ttl("  "), None);
    assert!(!ttl_invalid("  "));
}

#[test]
fn parse_ttl_invalid_values() {
    assert!(ttl_invalid("abc"));
    assert!(ttl_invalid("-1"));
}

#[test]
fn parse_ttl_overflow_is_invalid() {
    assert!(ttl_invalid("99999999999999999999d"));
    assert!(ttl_invalid("99999999999999999999h"));
    assert!(ttl_invalid("99999999999999999999"));
}

#[test]
fn parse_ttl_max_valid_value_does_not_overflow() {
    let max_days = u64::MAX / 86400;
    assert!(ttl(&format!("{max_days}d")).is_some());
    assert!(ttl_invalid(&format!("{}d", max_days + 1)));
}

// ---------------------------------------------------------------------------

fn record(id: &str, original: &[u8], secs: u64) -> TrashRecord {
    TrashRecord {
        id: id.to_string(),
        original_path: original.to_vec(),
        trashed_path: format!("/tmp/trash/{id}").into_bytes(),
        deleted_at_secs: secs,
        kind: EntryKind::File,
        outcome: MoveOutcome::CentralTrash,
        meta_path: None,
    }
}

#[test]
fn purge_cleans_up_corrupted_metadata() {
    let original_hex = hex_encode_bytes(b"/tmp/orig");
    let trashed_hex = hex_encode_bytes(b"/tmp/corrupted/trash/bad-id");
    let content = format!(
        "id=../bad\ndeleted_at_secs=1000\nkind=file\noutcome=central\noriginal_path_hex={original_hex}\ntrashed_path_hex={trashed_hex}\n"
    );
    let meta_file = b"/tmp/corrupted/meta/bad-id.meta".to_vec();
    let rec = parse_record(&content, meta_file.clone()).unwrap();
    assert_eq!(rec.id, "../bad");
    assert_eq!(delete_record_file(&rec, b"/tmp/corrupted/meta").unwrap(), meta_file);
}

#[test]
fn record_text_round_trip() {
    let mut r = record("1774864212-68302-250054000-0", b"/home/u/notes\xff.txt", 1774864212);
    r.kind = EntryKind::Symlink;
    r.outcome = MoveOutcome::SiblingFallback;
    let text = render_record(&r);
    assert_eq!(
        text,
        "id=1774864212-68302-250054000-0\ndeleted_at_secs=1774864212\nkind=symlink\noutcome=sibling\noriginal_path_hex=2f686f6d652f752f6e6f746573ff2e747874\ntrashed_path_hex=2f746d702f74726173682f313737343836343231322d36383330322d3235303035343030302d30\n"
    );
    let back = parse_record(&text, b"/m/x.meta".to_vec()).unwrap();
    assert_eq!(back.id, r.id);
    assert_eq!(back.original_path, r.original_path);
    assert_eq!(back.trashed_path, r.trashed_path);
    assert_eq!(back.deleted_at_secs, r.deleted_at_secs);
    assert_eq!(back.kind, r.kind);
    assert_eq!(back.outcome, r.outcome);
    assert_eq!(back.meta_path, Some(b"/m/x.meta".to_vec()));
}

#[test]
fn record_parse_errors() {
    let ok = "id=a\r\ndeleted_at_secs=+5\nkind=dir\noutcome=central\noriginal_path_hex=2F\ntrashed_path_hex=\n";
    let r = parse_record(ok, vec![]).unwrap();
    assert_eq!(r.id, "a");
    assert_eq!(r.deleted_at_secs, 5);
    assert_eq!(r.kind, EntryKind::Directory);
    assert_eq!(r.original_path, b"/".to_vec());
    assert!(r.trashed_path.is_empty());

    assert_eq!(
        parse_record("id=a\noriginal_path_hex=abc\n", vec![]).unwrap_err(),
        StoreError::OddHexLength
    );
    assert_eq!(
        parse_record("original_path_hex=zz\n", vec![]).unwrap_err(),
        StoreError::BadHexDigit
    );
    assert_eq!(parse_record("", vec![]).unwrap_err(), StoreError::Missing(RecordField::Id));
    assert_eq!(
        parse_record("id=a\noriginal_path_hex=\ntrashed_path_hex=\ndeleted_at_secs=x\nkind=file\noutcome=central", vec![])
            .unwrap_err(),
        StoreError::Missing(RecordField::Timestamp)
    );
    assert_eq!(
        parse_record("id=a\noriginal_path_hex=\ntrashed_path_hex=\ndeleted_at_secs=1\nkind=file\noutcome=nowhere\n", vec![])
            .unwrap_err(),
        StoreError::Missing(RecordField::Outcome)
    );
    assert_eq!(StoreError::Missing(RecordField::Kind).message(), "missing kind");
}

#[test]
fn hex_decode_errors() {
    assert_eq!(hex_decode_bytes("abc"), Err(StoreError::OddHexLength));
    assert_eq!(hex_decode_bytes("0g"), Err(StoreError::BadHexDigit));
    assert_eq!(hex_decode_bytes("é"), Err(StoreError::BadHexDigit));
    assert_eq!(hex_decode_bytes("FFa0"), Ok(vec![0xff, 0xa0]));
    assert_eq!(hex_encode_bytes(&[0x00, 0xab, 0x7f]), "00ab7f");
}

#[test]
fn made_ids_are_valid() {
    let id = make_id(1774864212, 68302, 250054000, 7);
    assert_eq!(id, "1774864212-68302-250054000-7");
    assert!(validate_id(&id).is_ok());
}

#[test]
fn entry_kind_names() {
    for k in [EntryKind::File, EntryKind::Directory, EntryKind::Symlink, EntryKind::Other] {
        assert_eq!(EntryKind::from_str(k.as_str()), Some(k));
    }
    assert_eq!(EntryKind::File.as_str(), "file");
    assert_eq!(EntryKind::Directory.as_str(), "dir");
    assert_eq!(EntryKind::from_str("folder"), None);
    assert_eq!(EntryKind::classify(true, true, false), EntryKind::Symlink);
    assert_eq!(EntryKind::classify(false, true, false), EntryKind::Directory);
    assert_eq!(EntryKind::classify(false, false, true), EntryKind::File);
    assert_eq!(EntryKind::classify(false, false, false), EntryKind::Other);
}

#[test]
fn store_locations() {
    assert_eq!(trash_root(Some(b"/r".as_slice()), Some(b"/h".as_slice())), Ok(b"/r".to_vec()));
    assert_eq!(trash_root(None, Some(b"/home/u".as_slice())), Ok(b"/home/u/.sure-rm".to_vec()));
    assert_eq!(trash_root(None, None), Err(StoreError::NoHome));
    assert_eq!(trash_dir(b"/r"), b"/r/trash".to_vec());
    assert_eq!(metadata_dir(b"/r/"), b"/r/meta".to_vec());
    assert_eq!(meta_path(b"/r/meta", "abc"), Ok(b"/r/meta/abc.meta".to_vec()));
    assert_eq!(meta_path(b"/r/meta", "a..b"), Err(StoreError::InvalidId));
}

#[test]
fn read_record_uses_content() {
    assert!(read_record("abc", b"/m", None).unwrap().is_none());
    let content = "id=abc\ndeleted_at_secs=1\nkind=file\noutcome=central\noriginal_path_hex=2f61\ntrashed_path_hex=2f62\n";
    let r = read_record("abc", b"/m", Some(content)).unwrap().unwrap();
    assert_eq!(r.meta_path, Some(b"/m/abc.meta".to_vec()));
    assert_eq!(r.original_path, b"/a".to_vec());
}

#[test]
fn ttl_settings() {
    let s = ttl_secs(&EnvValue::Text("12h".to_string()));
    assert_eq!(s.secs, Some(43200));
    assert!(s.warning.is_none());
    let s = ttl_secs(&EnvValue::Text("soon".to_string()));
    assert_eq!(s.secs, None);
    assert_eq!(s.warning.as_deref(), Some("invalid SURE_RM_TTL value: soon, ignoring"));
    let s = ttl_secs(&EnvValue::NotUnicode);
    assert_eq!(s.warning.as_deref(), Some("SURE_RM_TTL is not valid UTF-8, ignoring"));
    let s = ttl_secs(&EnvValue::Unset);
    assert!(s.secs.is_none() && s.warning.is_none());
    assert_eq!(parse_ttl(" 2 d "), TtlResult::Enabled(2 * 86400));
    assert_eq!(parse_ttl("+3s"), TtlResult::Enabled(3));
    assert_eq!(parse_ttl("d"), TtlResult::Invalid);
}

#[test]
fn expiry_follows_age() {
    assert!(is_expired(1000 + 86401, 1000, 86400));
    assert!(!is_expired(1000 + 86400, 1000, 86400));
    assert!(!is_expired(10, 20, 0));
}

#[test]
fn latest_record_of_a_path() {
    let records = vec![
        record("b", b"/x/f", 10),
        record("a", b"/x/./f", 20),
        record("c", b"/x/f", 20),
        record("z", b"/y", 99),
        record("c", b"/x//f", 20),
    ];
    assert_eq!(find_latest_record_by_original_path(&records, b"/x/f", &vec![true; 5]), Some(2));
    assert_eq!(
        find_latest_record_by_original_path(&records, b"/x/f", &vec![true, true, false, true, true]),
        Some(4)
    );
    assert_eq!(find_latest_record_by_original_path(&records, b"/q", &vec![true; 5]), None);
}

#[test]
fn listing_order_is_newest_first_and_stable() {
    let records = vec![record("a", b"/a", 5), record("b", b"/b", 9), record("c", b"/c", 5), record("d", b"/d", 7)];
    assert_eq!(list_order(&records), vec![1, 3, 0, 2]);
}

#[test]
fn restore_goes_to_destination_or_origin() {
    let r = record("a", b"/orig/a", 1);
    assert_eq!(restore_target(&r, None), b"/orig/a".to_vec());
    assert_eq!(restore_target(&r, Some(b"/else".as_slice())), b"/else".to_vec());
}

#[test]
fn valid_ids_stay_in_the_metadata_dir() {
    for id in ["abc", "1-2-3-4", "a.b", "caf\u{e9}", "\u{1f600}x", ".hidden"] {
        let path = meta_path(b"/r/meta", id).unwrap();
        let path = std::path::PathBuf::from(String::from_utf8(path).unwrap());
        assert_eq!(path.parent(), Some(std::path::Path::new("/r/meta")), "{id:?}");
        assert_eq!(path.file_name().unwrap().to_str().unwrap(), format!("{id}.meta"));
    }
}
