use rclone_manager::schedule::{
    add_schedule_entry, is_scheduled, mount_command, remove_schedule_entries,
};

#[test]
fn mount_command_is_the_canonical_invocation() {
    assert_eq!(mount_command("backup"), "rclone mount --vfs-cache-mode writes backup:");
}

#[test]
fn adding_appends_one_boot_entry() {
    let table = "0 3 * * * /usr/bin/backup.sh\n";
    let out = add_schedule_entry(table, "pics", "/home/u/mnt/pics");
    assert_eq!(
        out,
        "0 3 * * * /usr/bin/backup.sh\n@reboot rclone mount --vfs-cache-mode writes pics: /home/u/mnt/pics\n"
    );
    assert!(is_scheduled(&out, "pics"));
}

#[test]
fn adding_twice_is_idempotent() {
    let table = "";
    let once = add_schedule_entry(table, "pics", "/home/u/mnt/pics");
    let twice = add_schedule_entry(&once, "pics", "/home/u/mnt/pics");
    assert_eq!(once, twice);
    let needle = "rclone mount --vfs-cache-mode writes pics:";
    assert_eq!(twice.matches(needle).count(), 1);
}

#[test]
fn removing_missing_entry_leaves_table_unchanged() {
    let table = "0 3 * * * /usr/bin/backup.sh\n@reboot echo hello\n";
    let out = remove_schedule_entries(table, "pics");
    assert_eq!(out, table);
}

#[test]
fn removing_blank_table_returns_it_unchanged() {
    assert_eq!(remove_schedule_entries("", "pics"), "");
    assert_eq!(remove_schedule_entries("  \n", "pics"), "  \n");
}

#[test]
fn removing_missing_entry_keeps_a_table_without_final_newline() {
    assert_eq!(remove_schedule_entries("x", "pics"), "x");
    assert_eq!(
        remove_schedule_entries("@daily tidy-up\n@reboot echo pics", "pics"),
        "@daily tidy-up\n@reboot echo pics"
    );
}

#[test]
fn removing_drops_exactly_the_matching_lines() {
    let table = "0 3 * * * /usr/bin/backup.sh\n@reboot rclone mount --vfs-cache-mode writes pics: /home/u/mnt/pics\n@reboot echo keep\n";
    let out = remove_schedule_entries(table, "pics");
    assert_eq!(out, "0 3 * * * /usr/bin/backup.sh\n@reboot echo keep\n");
    assert!(!is_scheduled(&out, "pics"));
}

#[test]
fn removal_matches_the_command_not_the_bare_name() {
    // the unrelated job merely mentions the remote's name and must stay
    let table = "@reboot echo pics\n@reboot rclone mount --vfs-cache-mode writes pics: /m\n";
    let out = remove_schedule_entries(table, "pics");
    assert_eq!(out, "@reboot echo pics\n");
}

#[test]
fn round_trip_add_then_remove_restores_table() {
    let table = "@daily tidy-up\n";
    let added = add_schedule_entry(table, "pics", "/m");
    let removed = remove_schedule_entries(&added, "pics");
    assert_eq!(removed, table);
}

#[test]
fn scheduling_status_is_an_exact_substring_match() {
    let table = "@reboot rclone mount --vfs-cache-mode writes music: /m\n";
    assert!(is_scheduled(table, "music"));
    assert!(!is_scheduled(table, "mus"));
    assert!(!is_scheduled(table, "pics"));
}
