//! The boot-time schedule store.
//!
//! A remote is scheduled for auto-mount when the scheduler's job table —
//! held here as plain text, one job per line — contains the canonical
//! mount invocation for that remote. Membership is an exact substring
//! match on that invocation, never on the bare remote name, so unrelated
//! entries that merely mention the name are left alone. Insertion is
//! idempotent; removal filters out every line holding the invocation
//! and rewrites the whole table, and leaves a table with no such line
//! byte for byte untouched.

use crate::text::{
    contains_at, contains_seq, contains_str, join_lines, join_with_newlines,
    lemma_no_match_in_lines, split_into_lines, split_lines, views_of,
};
use vstd::prelude::*;

verus! {

/// The canonical mount invocation for a remote, the text whose presence
/// in the job table marks the remote as scheduled.
pub open spec fn mount_cmd_spec(name: Seq<char>) -> Seq<char> {
    "rclone mount --vfs-cache-mode writes "@ + name + ":"@
}

/// The full table line inserted for a remote: a boot-time job running
/// the mount invocation against the remote's mount point.
pub open spec fn cron_entry_spec(name: Seq<char>, mount_point: Seq<char>) -> Seq<char> {
    "@reboot "@ + mount_cmd_spec(name) + " "@ + mount_point + "\n"@
}

/// Whether the job table schedules the given remote.
pub open spec fn table_has_remote(table: Seq<char>, name: Seq<char>) -> bool {
    contains_seq(table, mount_cmd_spec(name))
}

/// The table after scheduling a remote: unchanged when the remote is
/// already present, otherwise extended by one entry at the end.
pub open spec fn added_table(table: Seq<char>, name: Seq<char>, mount_point: Seq<char>) -> Seq<
    char,
> {
    if table_has_remote(table, name) {
        table
    } else {
        table + cron_entry_spec(name, mount_point)
    }
}

/// The lines of the table kept by a removal: those free of the remote's
/// mount invocation.
pub open spec fn kept_lines(lines: Seq<Seq<char>>, name: Seq<char>) -> Seq<Seq<char>>
    decreases lines.len(),
{
    if lines.len() == 0 {
        Seq::empty()
    } else if contains_seq(lines[0], mount_cmd_spec(name)) {
        kept_lines(lines.skip(1), name)
    } else {
        seq![lines[0]] + kept_lines(lines.skip(1), name)
    }
}

/// Whether some line of the table holds the remote's mount invocation.
pub open spec fn any_line_matches(lines: Seq<Seq<char>>, name: Seq<char>) -> bool
    decreases lines.len(),
{
    lines.len() > 0 && (contains_seq(lines[0], mount_cmd_spec(name)) || any_line_matches(
        lines.skip(1),
        name,
    ))
}

/// The table after unscheduling a remote: byte for byte unchanged when
/// no line holds the remote's mount invocation; otherwise every line
/// holding it is dropped, the kept lines are joined again, and the
/// rewritten table ends with a single line feed.
pub open spec fn removed_table(table: Seq<char>, name: Seq<char>) -> Seq<char> {
    if !any_line_matches(split_lines(table), name) {
        table
    } else {
        join_lines(kept_lines(split_lines(table), name)) + seq!['\n']
    }
}

/// The canonical mount invocation for a remote.
pub fn mount_command(name: &str) -> (r: String)
    ensures
        r@ == mount_cmd_spec(name@),
{
    let mut out = String::from_str("rclone mount --vfs-cache-mode writes ");
    out.append(name);
    out.append(":");
    out
}

/// Whether the job table schedules the given remote.
pub fn is_scheduled(table: &str, name: &str) -> (b: bool)
    ensures
        b == table_has_remote(table@, name@),
{
    let cmd = mount_command(name);
    contains_str(table, cmd.as_str())
}

/// The freshly added entry carries the mount invocation, so the table
/// returned by an insertion always schedules the remote.
proof fn lemma_added_contains(table: Seq<char>, name: Seq<char>, mount_point: Seq<char>)
    ensures
        table_has_remote(added_table(table, name, mount_point), name),
{
    if table_has_remote(table, name) {
    } else {
        reveal_strlit("@reboot ");
        let r = table + cron_entry_spec(name, mount_point);
        let cmd = mount_cmd_spec(name);
        let i = table.len() + 8;
        assert(r.subrange(i as int, i as int + cmd.len()) =~= cmd);
        assert(contains_at(r, cmd, i as int));
    }
}

/// Schedules a remote: a no-op when an entry already exists, otherwise
/// the entry for the remote and its mount point is appended.
pub fn add_schedule_entry(table: &str, name: &str, mount_point: &str) -> (r: String)
    ensures
        r@ == added_table(table@, name@, mount_point@),
        table_has_remote(r@, name@),
{
    proof {
        lemma_added_contains(table@, name@, mount_point@);
    }
    if is_scheduled(table, name) {
        table.to_owned()
    } else {
        let mut out = table.to_owned();
        out.append("@reboot ");
        let cmd = mount_command(name);
        out.append(cmd.as_str());
        out.append(" ");
        out.append(mount_point);
        out.append("\n");
        proof {
            assert(out@ =~= table@ + cron_entry_spec(name@, mount_point@));
        }
        out
    }
}

/// Unschedules a remote: when no table line holds the remote's mount
/// invocation the table comes back byte for byte unchanged; otherwise
/// every line holding it is dropped and the table is rewritten whole.
pub fn remove_schedule_entries(table: &str, name: &str) -> (r: String)
    ensures
        r@ == removed_table(table@, name@),
{
    let lines = split_into_lines(table);
    let cmd = mount_command(name);
    let mut kept: Vec<String> = Vec::new();
    let mut found = false;
    let mut i: usize = 0;
    proof {
        assert(views_of(kept@) =~= Seq::<Seq<char>>::empty());
        assert(views_of(lines@).skip(0) =~= views_of(lines@));
    }
    while i < lines.len()
        invariant
            i <= lines.len(),
            views_of(lines@) == split_lines(table@),
            cmd@ == mount_cmd_spec(name@),
            kept_lines(views_of(lines@), name@) == views_of(kept@) + kept_lines(
                views_of(lines@).skip(i as int),
                name@,
            ),
            any_line_matches(views_of(lines@), name@) == (found || any_line_matches(
                views_of(lines@).skip(i as int),
                name@,
            )),
        decreases lines.len() - i,
    {
        let ghost rest = views_of(lines@).skip(i as int);
        let ghost old_kept = kept@;
        proof {
            assert(rest[0] == lines@[i as int]@);
            assert(rest.skip(1) =~= views_of(lines@).skip(i + 1));
        }
        if !contains_str(lines[i].as_str(), cmd.as_str()) {
            let kept_line = lines[i].clone();
            kept.push(kept_line);
            proof {
                assert(views_of(kept@) =~= views_of(old_kept) + seq![rest[0]]);
                assert((views_of(old_kept) + seq![rest[0]]) + kept_lines(rest.skip(1), name@)
                    =~= views_of(old_kept) + (seq![rest[0]] + kept_lines(rest.skip(1), name@)));
            }
        } else {
            found = true;
        }
        i = i + 1;
    }
    proof {
        assert(views_of(lines@).skip(lines@.len() as int) =~= Seq::<Seq<char>>::empty());
        assert(views_of(kept@) + Seq::<Seq<char>>::empty() =~= views_of(kept@));
    }
    if !found {
        return table.to_owned();
    }
    let joined = join_with_newlines(&kept);
    let out = joined.concat("\n");
    proof {
        reveal_strlit("\n");
        assert("\n"@ =~= seq!['\n']);
    }
    out
}

/// A table none of whose lines holds the invocation has no matching
/// line at all.
proof fn lemma_no_line_matches(lines: Seq<Seq<char>>, name: Seq<char>)
    requires
        forall|i: int|
            0 <= i < lines.len() ==> !contains_seq(#[trigger] lines[i], mount_cmd_spec(name)),
    ensures
        !any_line_matches(lines, name),
    decreases lines.len(),
{
    if lines.len() > 0 {
        assert(!contains_seq(lines[0], mount_cmd_spec(name)));
        assert forall|i: int| 0 <= i < lines.skip(1).len() implies !contains_seq(
            #[trigger] lines.skip(1)[i],
            mount_cmd_spec(name),
        ) by {
            assert(lines.skip(1)[i] == lines[i + 1]);
        }
        lemma_no_line_matches(lines.skip(1), name);
    }
}

/// Scheduling a remote twice in a row is idempotent: the second
/// insertion finds the entry the first one wrote and leaves the table
/// unchanged, so the table gains a single entry, not two.
pub proof fn lemma_add_idempotent(table: Seq<char>, name: Seq<char>, mount_point: Seq<char>)
    ensures
        added_table(added_table(table, name, mount_point), name, mount_point) == added_table(
            table,
            name,
            mount_point,
        ),
{
    lemma_added_contains(table, name, mount_point);
}

/// Unscheduling a remote that has no entry leaves the table byte for
/// byte unchanged, whatever the table's shape.
pub proof fn lemma_remove_absent(table: Seq<char>, name: Seq<char>)
    requires
        !table_has_remote(table, name),
    ensures
        removed_table(table, name) == table,
{
    lemma_no_match_in_lines(table, mount_cmd_spec(name));
    lemma_no_line_matches(split_lines(table), name);
}

} // verus!
