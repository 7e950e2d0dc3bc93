//! Synthesis of new configuration sections.
//!
//! A validated submission becomes one INI section: a header carrying the
//! remote's name, a `type` line carrying the plugin's name, and one
//! `key = value` line per remaining submitted pair in submission order
//! (the `remote_name` pair is spent on the header and written to no
//! line). The section is appended after the existing file content, which
//! is preserved byte for byte — existing sections are never re-parsed or
//! reformatted, so hand-edited comments and formatting survive.

use crate::errors::{ValidationError, ValidationFault};
use crate::text::str_eq;
use crate::validate::{
    fields_view, first_error, sub_has_key, sub_value, validate_submission, PluginDescriptor,
    Submission,
};
use vstd::prelude::*;

verus! {

/// The key-value lines a submission contributes, in submission order;
/// the `remote_name` pair contributes none.
pub open spec fn kv_lines(pairs: Seq<(Seq<char>, Seq<char>)>) -> Seq<char>
    decreases pairs.len(),
{
    if pairs.len() == 0 {
        Seq::empty()
    } else {
        (if pairs[0].0 == "remote_name"@ {
            Seq::empty()
        } else {
            pairs[0].0 + " = "@ + pairs[0].1 + "\n"@
        }) + kv_lines(pairs.skip(1))
    }
}

/// The full text of a synthesized section: a blank separator line, the
/// header, the type line, and the submitted pairs.
pub open spec fn section_text(
    remote_name: Seq<char>,
    plugin_name: Seq<char>,
    pairs: Seq<(Seq<char>, Seq<char>)>,
) -> Seq<char> {
    "\n["@ + remote_name + "]\ntype = "@ + plugin_name + "\n"@ + kv_lines(pairs)
}

proof fn lemma_kv_snoc(pairs: Seq<(Seq<char>, Seq<char>)>, p: (Seq<char>, Seq<char>))
    ensures
        kv_lines(pairs.push(p)) == kv_lines(pairs) + (if p.0 == "remote_name"@ {
            Seq::<char>::empty()
        } else {
            p.0 + " = "@ + p.1 + "\n"@
        }),
    decreases pairs.len(),
{
    let entry = if p.0 == "remote_name"@ {
        Seq::<char>::empty()
    } else {
        p.0 + " = "@ + p.1 + "\n"@
    };
    if pairs.len() == 0 {
        assert(pairs.push(p)[0] == p);
        assert(pairs.push(p).skip(1) =~= Seq::<(Seq<char>, Seq<char>)>::empty());
        assert(kv_lines(pairs.push(p).skip(1)) == Seq::<char>::empty());
        assert(kv_lines(pairs.push(p)) == entry + kv_lines(pairs.push(p).skip(1)));
        assert(entry + Seq::<char>::empty() =~= entry);
        assert(kv_lines(pairs) + entry =~= entry);
    } else {
        let head = if pairs[0].0 == "remote_name"@ {
            Seq::<char>::empty()
        } else {
            pairs[0].0 + " = "@ + pairs[0].1 + "\n"@
        };
        lemma_kv_snoc(pairs.skip(1), p);
        assert(pairs.push(p)[0] == pairs[0]);
        assert(pairs.push(p).skip(1) =~= pairs.skip(1).push(p));
        assert(kv_lines(pairs.push(p)) == head + kv_lines(pairs.skip(1).push(p)));
        assert(head + (kv_lines(pairs.skip(1)) + entry) =~= (head + kv_lines(pairs.skip(1)))
            + entry);
    }
}

/// Renders the section a validated submission stands for.
pub fn render_section(remote_name: &str, plugin_name: &str, sub: &Submission) -> (r: String)
    ensures
        r@ == section_text(remote_name@, plugin_name@, sub@),
{
    let mut out = String::from_str("\n[");
    out.append(remote_name);
    out.append("]\ntype = ");
    out.append(plugin_name);
    out.append("\n");
    let ghost head = out@;
    proof {
        assert(sub@.take(0) =~= Seq::<(Seq<char>, Seq<char>)>::empty());
        assert(head + Seq::<char>::empty() =~= head);
    }
    let mut i: usize = 0;
    while i < sub.entries.len()
        invariant
            i <= sub.entries.len(),
            out@ == head + kv_lines(sub@.take(i as int)),
            head == "\n["@ + remote_name@ + "]\ntype = "@ + plugin_name@ + "\n"@,
        decreases sub.entries.len() - i,
    {
        let ghost pre = sub@.take(i as int);
        let ghost pair = sub@[i as int];
        proof {
            assert(pair == (sub.entries@[i as int].0@, sub.entries@[i as int].1@));
            assert(pre.push(pair) =~= sub@.take(i + 1));
            lemma_kv_snoc(pre, pair);
        }
        if !str_eq(sub.entries[i].0.as_str(), "remote_name") {
            out.append(sub.entries[i].0.as_str());
            out.append(" = ");
            out.append(sub.entries[i].1.as_str());
            out.append("\n");
            proof {
                assert(out@ =~= head + (kv_lines(pre) + (pair.0 + " = "@ + pair.1 + "\n"@)));
            }
        } else {
            proof {
                assert(kv_lines(pre) + Seq::<char>::empty() =~= kv_lines(pre));
            }
        }
        i = i + 1;
    }
    proof {
        assert(sub@.take(sub.entries@.len() as int) =~= sub@);
    }
    out
}

/// Appends a synthesized section after the existing file content. Every
/// byte of the existing content keeps its place: the result opens with
/// the old text unchanged and the section follows it.
pub fn append_section(existing: &str, section: &str) -> (r: String)
    ensures
        r@ == existing@ + section@,
        r@.len() == existing@.len() + section@.len(),
        r@.subrange(0, existing@.len() as int) == existing@,
{
    let mut out = existing.to_owned();
    out.append(section);
    proof {
        assert(out@.subrange(0, existing@.len() as int) =~= existing@);
    }
    out
}

/// Validates a submission against the plugin schema and, on success,
/// produces the new configuration file content: the existing content
/// unchanged, with the synthesized section appended. The section is
/// named by the submission's `remote_name` value, whose absence is
/// itself a validation failure.
pub fn add_remote_section(plugin: &PluginDescriptor, sub: &Submission, existing: &str) -> (r:
    Result<String, ValidationError>)
    ensures
        match r {
            Ok(out) => {
                &&& first_error(fields_view(plugin.fields@), sub@) is None
                &&& sub_has_key(sub@, "remote_name"@)
                &&& out@ == existing@ + section_text(
                    sub_value(sub@, "remote_name"@),
                    plugin.name@,
                    sub@,
                )
                &&& out@.subrange(0, existing@.len() as int) == existing@
            },
            Err(e) => {
                if first_error(fields_view(plugin.fields@), sub@) is Some {
                    first_error(fields_view(plugin.fields@), sub@) == Some((e.field@, e.fault))
                } else {
                    &&& !sub_has_key(sub@, "remote_name"@)
                    &&& e.field@ == "remote_name"@
                    &&& e.fault == ValidationFault::MissingRequired
                }
            },
        },
{
    match validate_submission(plugin, sub) {
        Ok(_) => {},
        Err(e) => {
            return Err(e);
        },
    }
    match sub.get("remote_name") {
        Some(remote_name) => {
            let section = render_section(remote_name.as_str(), plugin.name.as_str(), sub);
            let out = append_section(existing, section.as_str());
            Ok(out)
        },
        None => Err(
            ValidationError {
                field: String::from_str("remote_name"),
                fault: ValidationFault::MissingRequired,
            },
        ),
    }
}

} // verus!
