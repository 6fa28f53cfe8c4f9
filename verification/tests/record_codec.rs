use srm::codec::{parse_meta, persist_record, render_meta};
use srm::types::{FileMeta, FileType};

fn sample() -> FileMeta {
    FileMeta {
        original_path: "/home/u/notes.txt".to_string(),
        trash_path: "/base/trash/notes.txt_7".to_string(),
        delete_time: "2026-01-01 00:00:00".to_string(),
        expire_days: 7,
        file_type: FileType::File,
        permissions: Some(420),
        uid: Some(1000),
        gid: Some(1000),
        short_id: "fabc123".to_string(),
        size_bytes: 42,
    }
}

fn assert_same(a: &FileMeta, b: &FileMeta) {
    assert_eq!(a.original_path, b.original_path);
    assert_eq!(a.trash_path, b.trash_path);
    assert_eq!(a.delete_time, b.delete_time);
    assert_eq!(a.expire_days, b.expire_days);
    assert_eq!(a.permissions, b.permissions);
    assert_eq!(a.uid, b.uid);
    assert_eq!(a.gid, b.gid);
    assert_eq!(a.short_id, b.short_id);
    assert_eq!(a.size_bytes, b.size_bytes);
    assert!(matches!(
        (a.file_type, b.file_type),
        (FileType::File, FileType::File) | (FileType::Dir, FileType::Dir)
            | (FileType::Symlink, FileType::Symlink)
    ));
}

#[test]
fn renders_the_exact_canonical_document() {
    let text = render_meta(&sample());
    let expected = "{\"original_path\":\"/home/u/notes.txt\",\"trash_path\":\"/base/trash/notes.txt_7\",\"delete_time\":\"2026-01-01 00:00:00\",\"expire_days\":7,\"file_type\":\"File\",\"permissions\":420,\"uid\":1000,\"gid\":1000,\"short_id\":\"fabc123\",\"size_bytes\":42}";
    assert_eq!(text, expected);
}

#[test]
fn a_fully_written_record_parses_back_to_itself() {
    let m = sample();
    let text = render_meta(&m);
    let back = parse_meta(&text).unwrap();
    assert_same(&m, &back);
}

#[test]
fn every_field_shape_round_trips() {
    let mut m = sample();
    m.file_type = FileType::Dir;
    m.permissions = None;
    m.uid = None;
    m.gid = None;
    m.expire_days = -3;
    m.size_bytes = u64::MAX;
    let text = render_meta(&m);
    let back = parse_meta(&text).unwrap();
    assert_same(&m, &back);
    assert!(matches!(back.file_type, FileType::Dir));

    m.file_type = FileType::Symlink;
    m.expire_days = i64::MIN;
    let back = parse_meta(&render_meta(&m)).unwrap();
    assert_same(&m, &back);
}

#[test]
fn quotes_and_backslashes_in_paths_round_trip() {
    let mut m = sample();
    m.original_path = "/home/u/odd\"name\\dir/f.txt".to_string();
    m.trash_path = "/base/trash/odd\"name\\dir_9".to_string();
    let text = render_meta(&m);
    let back = parse_meta(&text).unwrap();
    assert_same(&m, &back);
}

#[test]
fn a_half_written_record_never_parses() {
    // A crash between the temporary write and the rename can leave any
    // prefix of the document on disk; no prefix short of the whole parses.
    let text = render_meta(&sample());
    for cut in 0..text.len() {
        assert!(parse_meta(&text[..cut]).is_none());
    }
}

#[test]
fn altered_or_padded_documents_never_parse() {
    let text = render_meta(&sample());
    assert!(parse_meta(&format!("{} ", text)).is_none());
    assert!(parse_meta(&format!(" {}", text)).is_none());
    assert!(parse_meta(&text.replace("\"permissions\":420", "\"permissions\":")).is_none());
    assert!(parse_meta("").is_none());
    assert!(parse_meta("{}").is_none());
}

#[test]
fn non_canonical_escapes_are_rejected() {
    // `\a` would scan as a plain `a`, but re-rendering writes it unescaped,
    // so the document is not canonical and must not parse.
    let text = render_meta(&sample());
    let bent = text.replace("/home/u/notes.txt", "/home/u/no\\ates.txt");
    assert!(parse_meta(&bent).is_none());
    // The canonical spelling of the same content parses.
    let mut m = sample();
    m.original_path = "/home/u/noates.txt".to_string();
    let back = parse_meta(&render_meta(&m)).unwrap();
    assert_eq!(back.original_path, "/home/u/noates.txt");
}

#[test]
fn the_store_only_writes_texts_that_parse_back() {
    let m = sample();
    let text = persist_record(&m);
    assert_eq!(text, render_meta(&m));
    let back = parse_meta(&text).unwrap();
    assert_same(&m, &back);
}

#[test]
fn control_characters_are_escaped_as_json() {
    let mut m = sample();
    m.original_path = "/home/u/line\nbreak\u{1f}".to_string();
    let text = render_meta(&m);
    assert!(text.contains("\\u000a"));
    assert!(text.contains("\\u001f"));
    let back = parse_meta(&text).unwrap();
    assert_eq!(back.original_path, "/home/u/line\nbreak\u{1f}");
    let value: serde_json::Value = serde_json::from_str(&text).unwrap();
    assert_eq!(value["original_path"], "/home/u/line\nbreak\u{1f}");
    // A raw control character in a record file is not canonical: it is
    // re-rendered escaped, so the document does not parse.
    let raw = text.replace("\\u000a", "\n");
    assert!(parse_meta(&raw).is_none());
}

#[test]
fn the_rendering_is_well_formed_json() {
    let text = render_meta(&sample());
    let value: serde_json::Value = serde_json::from_str(&text).unwrap();
    assert_eq!(value["original_path"], "/home/u/notes.txt");
    assert_eq!(value["expire_days"], 7);
    assert_eq!(value["file_type"], "File");
    assert_eq!(value["size_bytes"], 42);
}
