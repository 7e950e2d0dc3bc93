use rclone_manager::errors::ValidationFault;
use rclone_manager::validate::{FieldSpec, PluginDescriptor, Submission, validate_submission};

fn field(name: &str, field_type: &str, required: bool) -> FieldSpec {
    FieldSpec {
        name: name.to_string(),
        display_name: name.to_string(),
        field_type: field_type.to_string(),
        required,
        default_value: String::new(),
        placeholder: String::new(),
    }
}

fn plugin(fields: Vec<FieldSpec>) -> PluginDescriptor {
    PluginDescriptor {
        name: "sftp".to_string(),
        display_name: "SFTP".to_string(),
        description: "secure file transfer".to_string(),
        version: "1.0".to_string(),
        author: "someone".to_string(),
        fields,
    }
}

fn submission(pairs: &[(&str, &str)]) -> Submission {
    Submission {
        entries: pairs.iter().map(|(k, v)| (k.to_string(), v.to_string())).collect(),
    }
}

#[test]
fn missing_required_field_fails_with_its_name() {
    let p = plugin(vec![field("host", "text", true)]);
    let s = submission(&[("port", "22")]);
    let err = validate_submission(&p, &s).unwrap_err();
    assert_eq!(err.field, "host");
    assert_eq!(err.fault, ValidationFault::MissingRequired);
}

#[test]
fn missing_required_reported_in_declaration_order() {
    let p = plugin(vec![
        field("first", "text", true),
        field("second", "text", true),
    ]);
    let s = submission(&[]);
    let err = validate_submission(&p, &s).unwrap_err();
    assert_eq!(err.field, "first");
    assert_eq!(err.fault, ValidationFault::MissingRequired);
}

#[test]
fn missing_required_fails_regardless_of_other_fields() {
    // the later fields are themselves invalid, but the missing one wins
    let p = plugin(vec![
        field("host", "text", true),
        field("port", "number", true),
    ]);
    let s = submission(&[("port", "not a number")]);
    let err = validate_submission(&p, &s).unwrap_err();
    assert_eq!(err.field, "host");
    assert_eq!(err.fault, ValidationFault::MissingRequired);
}

#[test]
fn number_field_rejects_non_numeral() {
    let p = plugin(vec![field("threshold", "number", false)]);
    let s = submission(&[("threshold", "abc")]);
    let err = validate_submission(&p, &s).unwrap_err();
    assert_eq!(err.field, "threshold");
    assert_eq!(err.fault, ValidationFault::NotANumber);
}

#[test]
fn number_field_accepts_decimal() {
    let p = plugin(vec![field("threshold", "number", false)]);
    let s = submission(&[("threshold", "3.14")]);
    assert!(validate_submission(&p, &s).is_ok());
}

#[test]
fn number_field_accepts_integer_and_exponent() {
    let p = plugin(vec![field("threshold", "number", false)]);
    assert!(validate_submission(&p, &submission(&[("threshold", "22")])).is_ok());
    assert!(validate_submission(&p, &submission(&[("threshold", "-1.5e3")])).is_ok());
}

#[test]
fn checkbox_field_rejects_other_words() {
    let p = plugin(vec![field("enabled", "checkbox", false)]);
    let s = submission(&[("enabled", "maybe")]);
    let err = validate_submission(&p, &s).unwrap_err();
    assert_eq!(err.field, "enabled");
    assert_eq!(err.fault, ValidationFault::NotABoolean);
}

#[test]
fn checkbox_field_accepts_true_and_false() {
    let p = plugin(vec![field("enabled", "checkbox", false)]);
    assert!(validate_submission(&p, &submission(&[("enabled", "true")])).is_ok());
    assert!(validate_submission(&p, &submission(&[("enabled", "false")])).is_ok());
}

#[test]
fn other_field_types_pass_without_checks() {
    let p = plugin(vec![field("note", "text", false), field("secret", "password", false)]);
    let s = submission(&[("note", "anything at all"), ("secret", "hunter2")]);
    assert!(validate_submission(&p, &s).is_ok());
}

#[test]
fn optional_absent_field_passes() {
    let p = plugin(vec![field("threshold", "number", false)]);
    let s = submission(&[]);
    assert!(validate_submission(&p, &s).is_ok());
}

#[test]
fn error_messages_name_the_field() {
    let p = plugin(vec![field("host", "text", true)]);
    let s = submission(&[]);
    let err = validate_submission(&p, &s).unwrap_err();
    assert_eq!(err.describe(), "Required field 'host' is missing");

    let p = plugin(vec![field("threshold", "number", false)]);
    let err = validate_submission(&p, &submission(&[("threshold", "x")])).unwrap_err();
    assert_eq!(err.describe(), "Field 'threshold' must be a number");

    let p = plugin(vec![field("enabled", "checkbox", false)]);
    let err = validate_submission(&p, &submission(&[("enabled", "yes")])).unwrap_err();
    assert_eq!(err.describe(), "Field 'enabled' must be true or false");
}
