use rclone_manager::errors::CoreError;
use rclone_manager::paths::{default_config_path, expand_tilde, mount_dir, resolve_config_path};
use rclone_manager::records::build_record;
use rclone_manager::parser::RemoteSection;

#[test]
fn tilde_prefix_expands_to_home() {
    assert_eq!(expand_tilde("~/x", "/home/u"), "/home/u/x");
}

#[test]
fn absolute_path_is_unchanged() {
    assert_eq!(expand_tilde("/abs/x", "/home/u"), "/abs/x");
}

#[test]
fn bare_tilde_expands_to_home_itself() {
    assert_eq!(expand_tilde("~", "/home/u"), "/home/u");
}

#[test]
fn tilde_as_part_of_a_name_is_not_expanded() {
    assert_eq!(expand_tilde("~user/x", "/home/u"), "~user/x");
}

#[test]
fn default_location_is_under_home() {
    assert_eq!(default_config_path("/home/u"), "/home/u/.config/rclone/rclone.conf");
}

#[test]
fn resolution_prefers_the_supplied_path() {
    let p = resolve_config_path(Some("~/rc.conf"), Some("/home/u")).unwrap();
    assert_eq!(p, "/home/u/rc.conf");
    let q = resolve_config_path(Some("/etc/rc.conf"), Some("/home/u")).unwrap();
    assert_eq!(q, "/etc/rc.conf");
}

#[test]
fn resolution_falls_back_to_the_default_location() {
    let p = resolve_config_path(None, Some("/home/u")).unwrap();
    assert_eq!(p, "/home/u/.config/rclone/rclone.conf");
}

#[test]
fn missing_home_is_an_environment_error_only_when_needed() {
    assert!(matches!(
        resolve_config_path(None, None),
        Err(CoreError::Environment)
    ));
    assert!(matches!(
        resolve_config_path(Some("~/rc.conf"), None),
        Err(CoreError::Environment)
    ));
    let ok = resolve_config_path(Some("/etc/rc.conf"), None).unwrap();
    assert_eq!(ok, "/etc/rc.conf");
}

#[test]
fn mount_point_is_under_home_mnt() {
    assert_eq!(mount_dir("/home/u", "pics"), "/home/u/mnt/pics");
}

#[test]
fn record_carries_section_and_status() {
    let section = RemoteSection { name: "pics".to_string(), kind: "s3".to_string() };
    let record = build_record(section, "/home/u", true, false);
    assert_eq!(record.name, "pics");
    assert_eq!(record.kind, "s3");
    assert_eq!(record.mount_point, "/home/u/mnt/pics");
    assert!(record.mounted);
    assert!(!record.scheduled);
}
