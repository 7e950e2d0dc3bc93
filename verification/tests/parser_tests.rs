use rclone_manager::parser::parse_remotes;

#[test]
fn two_sections_parse_in_order() {
    let records = parse_remotes("[a]\ntype=sftp\n[b]\ntype=s3\n");
    assert_eq!(records.len(), 2);
    assert_eq!(records[0].name, "a");
    assert_eq!(records[0].kind, "sftp");
    assert_eq!(records[1].name, "b");
    assert_eq!(records[1].kind, "s3");
}

#[test]
fn empty_text_yields_no_records() {
    let records = parse_remotes("");
    assert_eq!(records.len(), 0);
}

#[test]
fn section_without_type_is_dropped() {
    let records = parse_remotes("[plain]\nkey = value\n[real]\ntype = drive\n");
    assert_eq!(records.len(), 1);
    assert_eq!(records[0].name, "real");
    assert_eq!(records[0].kind, "drive");
}

#[test]
fn duplicate_type_keeps_last_value() {
    let records = parse_remotes("[a]\ntype=sftp\ntype=s3\n");
    assert_eq!(records.len(), 1);
    assert_eq!(records[0].kind, "s3");
}

#[test]
fn truncated_final_section_still_emitted() {
    let records = parse_remotes("[a]\ntype=sftp");
    assert_eq!(records.len(), 1);
    assert_eq!(records[0].name, "a");
    assert_eq!(records[0].kind, "sftp");
}

#[test]
fn comments_and_blank_lines_are_skipped() {
    let records = parse_remotes("# comment\n\n; another\n[a]\n# inside\ntype = sftp\n");
    assert_eq!(records.len(), 1);
    assert_eq!(records[0].name, "a");
    assert_eq!(records[0].kind, "sftp");
}

#[test]
fn spaced_type_line_is_recognized() {
    let records = parse_remotes("[a]\ntype = sftp\n");
    assert_eq!(records.len(), 1);
    assert_eq!(records[0].kind, "sftp");
}

#[test]
fn crlf_line_endings_are_tolerated() {
    let records = parse_remotes("[a]\r\ntype=sftp\r\n[b]\r\ntype=s3\r\n");
    assert_eq!(records.len(), 2);
    assert_eq!(records[0].name, "a");
    assert_eq!(records[0].kind, "sftp");
    assert_eq!(records[1].kind, "s3");
}

#[test]
fn value_after_first_equals_is_trimmed() {
    let records = parse_remotes("[a]\ntype =  sftp  \n");
    assert_eq!(records.len(), 1);
    assert_eq!(records[0].kind, "sftp");
}

#[test]
fn many_typed_sections_all_appear_in_file_order() {
    let mut text = String::new();
    for i in 0..10 {
        text.push_str(&format!("[remote{}]\ntype=kind{}\n", i, i));
    }
    let records = parse_remotes(&text);
    assert_eq!(records.len(), 10);
    for i in 0..10 {
        assert_eq!(records[i].name, format!("remote{}", i));
        assert_eq!(records[i].kind, format!("kind{}", i));
    }
}

#[test]
fn duplicate_section_name_keeps_last_section() {
    let records = parse_remotes("[a]\ntype=sftp\n[a]\ntype=s3\n");
    assert_eq!(records.len(), 1);
    assert_eq!(records[0].name, "a");
    assert_eq!(records[0].kind, "s3");
}

#[test]
fn duplicate_name_record_sits_where_the_winner_does() {
    let records = parse_remotes("[a]\ntype=sftp\n[b]\ntype=drive\n[a]\ntype=s3\n");
    assert_eq!(records.len(), 2);
    assert_eq!(records[0].name, "b");
    assert_eq!(records[0].kind, "drive");
    assert_eq!(records[1].name, "a");
    assert_eq!(records[1].kind, "s3");
}

#[test]
fn decorated_sections_parse_to_one_record_each() {
    let text = "; preamble comment\nstray = value\n\n  [a]  \nhost = h\ntype = sftp\nport = 22\n# note\n[b]\n\ttype=s3\t\nregion = eu\n";
    let records = parse_remotes(text);
    assert_eq!(records.len(), 2);
    assert_eq!(records[0].name, "a");
    assert_eq!(records[0].kind, "sftp");
    assert_eq!(records[1].name, "b");
    assert_eq!(records[1].kind, "s3");
}

#[test]
fn empty_section_name_never_emits() {
    let records = parse_remotes("[]\ntype=sftp\n");
    assert_eq!(records.len(), 0);
}
