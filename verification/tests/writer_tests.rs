use rclone_manager::errors::ValidationFault;
use rclone_manager::parser::parse_remotes;
use rclone_manager::validate::{FieldSpec, PluginDescriptor, Submission};
use rclone_manager::writer::{add_remote_section, append_section, render_section};

fn plugin_named(name: &str, fields: Vec<FieldSpec>) -> PluginDescriptor {
    PluginDescriptor {
        name: name.to_string(),
        display_name: name.to_string(),
        description: String::new(),
        version: "1.0".to_string(),
        author: String::new(),
        fields,
    }
}

fn submission(pairs: &[(&str, &str)]) -> Submission {
    Submission {
        entries: pairs.iter().map(|(k, v)| (k.to_string(), v.to_string())).collect(),
    }
}

#[test]
fn rendered_section_has_header_type_and_pairs() {
    let sub = submission(&[("remote_name", "backup"), ("host", "example.org"), ("port", "22")]);
    let section = render_section("backup", "sftp", &sub);
    assert_eq!(section, "\n[backup]\ntype = sftp\nhost = example.org\nport = 22\n");
}

#[test]
fn remote_name_pair_is_not_written_as_a_line() {
    let sub = submission(&[("host", "h"), ("remote_name", "x"), ("user", "u")]);
    let section = render_section("x", "s3", &sub);
    assert_eq!(section, "\n[x]\ntype = s3\nhost = h\nuser = u\n");
}

#[test]
fn append_preserves_every_existing_byte() {
    let existing = "# hand-written comment\n[old]\ntype = drive\nquirk =   kept as-is\n";
    let out = append_section(existing, "\n[new]\ntype = sftp\n");
    assert_eq!(&out.as_bytes()[..existing.len()], existing.as_bytes());
    assert_eq!(out, format!("{}{}", existing, "\n[new]\ntype = sftp\n"));
}

#[test]
fn add_remote_appends_after_existing_content() {
    let p = plugin_named("sftp", vec![]);
    let sub = submission(&[("remote_name", "backup"), ("host", "example.org")]);
    let existing = "[old]\ntype = drive\n";
    let out = add_remote_section(&p, &sub, existing).unwrap();
    assert_eq!(&out.as_bytes()[..existing.len()], existing.as_bytes());
    assert_eq!(out, "[old]\ntype = drive\n\n[backup]\ntype = sftp\nhost = example.org\n");
}

#[test]
fn added_section_parses_back_as_a_remote() {
    let p = plugin_named("sftp", vec![]);
    let sub = submission(&[("remote_name", "backup"), ("host", "example.org")]);
    let out = add_remote_section(&p, &sub, "[old]\ntype = drive\n").unwrap();
    let records = parse_remotes(&out);
    assert_eq!(records.len(), 2);
    assert_eq!(records[0].name, "old");
    assert_eq!(records[1].name, "backup");
    assert_eq!(records[1].kind, "sftp");
}

#[test]
fn missing_remote_name_is_a_validation_error() {
    let p = plugin_named("sftp", vec![]);
    let sub = submission(&[("host", "example.org")]);
    let err = add_remote_section(&p, &sub, "").unwrap_err();
    assert_eq!(err.field, "remote_name");
    assert_eq!(err.fault, ValidationFault::MissingRequired);
}

#[test]
fn invalid_submission_is_rejected_before_writing() {
    let p = plugin_named(
        "sftp",
        vec![FieldSpec {
            name: "port".to_string(),
            display_name: "Port".to_string(),
            field_type: "number".to_string(),
            required: true,
            default_value: String::new(),
            placeholder: String::new(),
        }],
    );
    let sub = submission(&[("remote_name", "backup"), ("port", "not-a-number")]);
    let err = add_remote_section(&p, &sub, "").unwrap_err();
    assert_eq!(err.field, "port");
    assert_eq!(err.fault, ValidationFault::NotANumber);
}

#[test]
fn empty_existing_file_gets_only_the_new_section() {
    let p = plugin_named("s3", vec![]);
    let sub = submission(&[("remote_name", "pics")]);
    let out = add_remote_section(&p, &sub, "").unwrap();
    assert_eq!(out, "\n[pics]\ntype = s3\n");
}
