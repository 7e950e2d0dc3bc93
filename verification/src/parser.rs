//! The remote-configuration parser.
//!
//! The configuration file is an INI-like text: section headers `[name]`,
//! key-value lines `key = value` (the first `=` splits, the value is
//! trimmed), comment lines opening with `#` or `;`, and blank lines. A
//! section stands for a remote exactly when it carries a `type` key with a
//! nonempty value; the parser walks the text once, line by line, and
//! emits the remotes in file order. When a section sets `type` twice the
//! last value before the section closes wins, and a final section cut off
//! without a following header is still emitted. Section names are unique
//! within a configuration file: when a file nevertheless repeats one,
//! the last section with that name wins and earlier ones are dropped.

use crate::text::{
    has_prefix, is_prefix, is_space, lemma_split_append, lemma_split_one_line, lemma_trimmed_id,
    split_into_lines, split_lines, str_eq, trim_str, trimmed, views_of,
};
use vstd::prelude::*;

verus! {

/// One remote as read from the configuration file: the section name and
/// the value of its `type` key.
pub struct RemoteSection {
    pub name: String,
    pub kind: String,
}

impl View for RemoteSection {
    type V = (Seq<char>, Seq<char>);

    open spec fn view(&self) -> (Seq<char>, Seq<char>) {
        (self.name@, self.kind@)
    }
}

/// The views of a vector of parsed sections.
pub open spec fn sections_view(v: Seq<RemoteSection>) -> Seq<(Seq<char>, Seq<char>)> {
    v.map_values(|r: RemoteSection| r@)
}

/// A trimmed line the parser passes over: blank, or a comment.
pub open spec fn is_comment_or_blank(l: Seq<char>) -> bool {
    l.len() == 0 || l[0] == '#' || l[0] == ';'
}

/// A trimmed line that opens a section: `[` ... `]`.
pub open spec fn is_header(l: Seq<char>) -> bool {
    l.len() >= 2 && l[0] == '[' && l[l.len() - 1] == ']'
}

/// The name a header line declares: the text between its brackets.
pub open spec fn header_name(l: Seq<char>) -> Seq<char> {
    l.subrange(1, l.len() - 1)
}

/// A trimmed line that sets the section's type key.
pub open spec fn is_type_line(l: Seq<char>) -> bool {
    is_prefix(l, "type="@) || is_prefix(l, "type ="@)
}

/// The value a type line assigns: everything after the first `=`, trimmed.
pub open spec fn type_value(l: Seq<char>) -> Seq<char> {
    if is_prefix(l, "type="@) {
        trimmed(l.skip(5))
    } else {
        trimmed(l.skip(6))
    }
}

/// A section in progress is emitted exactly when its name and its type
/// value are both nonempty.
pub open spec fn emits(sec: Seq<char>, ty: Seq<char>) -> bool {
    sec.len() > 0 && ty.len() > 0
}

/// The remotes found in the given lines, entered with a section `sec` and
/// type value `ty` already in progress.
pub open spec fn parse_lines(lines: Seq<Seq<char>>, sec: Seq<char>, ty: Seq<char>) -> Seq<
    (Seq<char>, Seq<char>),
>
    decreases lines.len(),
{
    if lines.len() == 0 {
        if emits(sec, ty) {
            seq![(sec, ty)]
        } else {
            Seq::empty()
        }
    } else {
        let l = trimmed(lines[0]);
        if is_comment_or_blank(l) {
            parse_lines(lines.skip(1), sec, ty)
        } else if is_header(l) {
            let rest = parse_lines(lines.skip(1), header_name(l), Seq::empty());
            if emits(sec, ty) {
                seq![(sec, ty)] + rest
            } else {
                rest
            }
        } else if is_type_line(l) {
            parse_lines(lines.skip(1), sec, type_value(l))
        } else {
            parse_lines(lines.skip(1), sec, ty)
        }
    }
}

/// The typed sections as the single forward scan meets them, one per
/// occurrence, in file order.
pub open spec fn scanned_remotes(text: Seq<char>) -> Seq<(Seq<char>, Seq<char>)> {
    parse_lines(split_lines(text), Seq::empty(), Seq::empty())
}

/// Whether some record in the sequence carries the given name.
pub open spec fn has_name(rs: Seq<(Seq<char>, Seq<char>)>, name: Seq<char>) -> bool
    decreases rs.len(),
{
    rs.len() > 0 && (rs[0].0 == name || has_name(rs.skip(1), name))
}

/// Collapses duplicated names, keeping the last occurrence of each:
/// section names are unique in a configuration file, and when a file
/// nevertheless repeats one, the last section with that name wins.
pub open spec fn dedup_names(rs: Seq<(Seq<char>, Seq<char>)>) -> Seq<(Seq<char>, Seq<char>)>
    decreases rs.len(),
{
    if rs.len() == 0 {
        Seq::empty()
    } else if has_name(rs.skip(1), rs[0].0) {
        dedup_names(rs.skip(1))
    } else {
        seq![rs[0]] + dedup_names(rs.skip(1))
    }
}

/// The remotes of a configuration text: one record per distinct section
/// name, each carrying the last section with that name, in file order
/// of those surviving sections.
pub open spec fn parsed_remotes(text: Seq<char>) -> Seq<(Seq<char>, Seq<char>)> {
    dedup_names(scanned_remotes(text))
}

/// Parses a configuration text into its remotes, in file order.
pub fn parse_remotes(text: &str) -> (v: Vec<RemoteSection>)
    ensures
        sections_view(v@) == parsed_remotes(text@),
{
    let lines = split_into_lines(text);
    let mut out: Vec<RemoteSection> = Vec::new();
    let mut cur_sec = String::new();
    let mut cur_ty = String::new();
    let mut i: usize = 0;
    proof {
        assert(sections_view(out@) =~= Seq::<(Seq<char>, Seq<char>)>::empty());
        assert(views_of(lines@).skip(0) =~= views_of(lines@));
    }
    while i < lines.len()
        invariant
            i <= lines.len(),
            views_of(lines@) == split_lines(text@),
            scanned_remotes(text@) == sections_view(out@) + parse_lines(
                views_of(lines@).skip(i as int),
                cur_sec@,
                cur_ty@,
            ),
        decreases lines.len() - i,
    {
        let ghost rest = views_of(lines@).skip(i as int);
        let ghost old_sec = cur_sec@;
        let ghost old_ty = cur_ty@;
        let ghost old_out = out@;
        proof {
            assert(rest[0] == lines@[i as int]@);
            assert(rest.skip(1) =~= views_of(lines@).skip(i + 1));
        }
        let l = trim_str(lines[i].as_str());
        let ghost lv = trimmed(rest[0]);
        let n = l.unicode_len();
        if n == 0 || l.get_char(0) == '#' || l.get_char(0) == ';' {
            proof {
                assert(is_comment_or_blank(lv));
                assert(parse_lines(rest, old_sec, old_ty) == parse_lines(
                    rest.skip(1),
                    old_sec,
                    old_ty,
                ));
            }
        } else if n >= 2 && l.get_char(0) == '[' && l.get_char(n - 1) == ']' {
            proof {
                assert(!is_comment_or_blank(lv));
                assert(is_header(lv));
            }
            if !cur_sec.as_str().is_empty() && !cur_ty.as_str().is_empty() {
                let done = RemoteSection { name: cur_sec, kind: cur_ty };
                out.push(done);
                proof {
                    assert(emits(old_sec, old_ty));
                    assert(sections_view(out@) =~= sections_view(old_out) + seq![
                        (old_sec, old_ty),
                    ]);
                }
            } else {
                proof {
                    assert(!emits(old_sec, old_ty));
                }
            }
            cur_sec = l.substring_char(1, n - 1).to_owned();
            cur_ty = String::new();
            proof {
                assert(cur_sec@ =~= header_name(lv));
                let tail = parse_lines(rest.skip(1), header_name(lv), Seq::<char>::empty());
                if emits(old_sec, old_ty) {
                    assert(parse_lines(rest, old_sec, old_ty) == seq![(old_sec, old_ty)] + tail);
                    assert((sections_view(old_out) + seq![(old_sec, old_ty)]) + tail
                        =~= sections_view(old_out) + (seq![(old_sec, old_ty)] + tail));
                } else {
                    assert(parse_lines(rest, old_sec, old_ty) == tail);
                }
            }
        } else if has_prefix(l, "type=") {
            proof {
                reveal_strlit("type=");
            }
            let v = trim_str(l.substring_char(5, n));
            cur_ty = v.to_owned();
            proof {
                assert(!is_comment_or_blank(lv) && !is_header(lv));
                assert(is_prefix(lv, "type="@));
                assert(lv.skip(5) =~= lv.subrange(5, lv.len() as int));
                assert(cur_ty@ == type_value(lv));
                assert(parse_lines(rest, old_sec, old_ty) == parse_lines(
                    rest.skip(1),
                    old_sec,
                    type_value(lv),
                ));
            }
        } else if has_prefix(l, "type =") {
            proof {
                reveal_strlit("type =");
                reveal_strlit("type=");
            }
            let v = trim_str(l.substring_char(6, n));
            cur_ty = v.to_owned();
            proof {
                assert(!is_comment_or_blank(lv) && !is_header(lv));
                assert(is_type_line(lv) && !is_prefix(lv, "type="@));
                assert(lv.skip(6) =~= lv.subrange(6, lv.len() as int));
                assert(cur_ty@ == type_value(lv));
                assert(parse_lines(rest, old_sec, old_ty) == parse_lines(
                    rest.skip(1),
                    old_sec,
                    type_value(lv),
                ));
            }
        } else {
            proof {
                reveal_strlit("type =");
                reveal_strlit("type=");
                assert(!is_comment_or_blank(lv) && !is_header(lv) && !is_type_line(lv));
                assert(parse_lines(rest, old_sec, old_ty) == parse_lines(
                    rest.skip(1),
                    old_sec,
                    old_ty,
                ));
            }
        }
        i = i + 1;
    }
    proof {
        assert(views_of(lines@).skip(lines@.len() as int) =~= Seq::<Seq<char>>::empty());
    }
    let ghost old_out = out@;
    let ghost old_sec = cur_sec@;
    let ghost old_ty = cur_ty@;
    if !cur_sec.as_str().is_empty() && !cur_ty.as_str().is_empty() {
        let done = RemoteSection { name: cur_sec, kind: cur_ty };
        out.push(done);
        proof {
            assert(sections_view(out@) =~= sections_view(old_out) + seq![(old_sec, old_ty)]);
        }
    } else {
        proof {
            assert(sections_view(out@) + Seq::<(Seq<char>, Seq<char>)>::empty() =~= sections_view(
                out@,
            ));
        }
    }
    proof {
        assert(sections_view(out@) =~= scanned_remotes(text@));
    }
    let ghost full = sections_view(out@);
    let mut result: Vec<RemoteSection> = Vec::new();
    let mut i: usize = 0;
    proof {
        assert(sections_view(result@) =~= Seq::<(Seq<char>, Seq<char>)>::empty());
        assert(full.skip(0) =~= full);
    }
    while i < out.len()
        invariant
            i <= out.len(),
            full == sections_view(out@),
            full == scanned_remotes(text@),
            dedup_names(full) == sections_view(result@) + dedup_names(full.skip(i as int)),
        decreases out.len() - i,
    {
        let ghost rest = full.skip(i as int);
        let ghost old_res = result@;
        proof {
            assert(rest[0] == out@[i as int]@);
            assert(rest.skip(1) =~= full.skip(i + 1));
        }
        if !name_in_suffix(&out, i + 1, out[i].name.as_str()) {
            let keep = RemoteSection { name: out[i].name.clone(), kind: out[i].kind.clone() };
            result.push(keep);
            proof {
                assert(sections_view(result@) =~= sections_view(old_res) + seq![rest[0]]);
                assert((sections_view(old_res) + seq![rest[0]]) + dedup_names(rest.skip(1))
                    =~= sections_view(old_res) + (seq![rest[0]] + dedup_names(rest.skip(1))));
            }
        }
        i = i + 1;
    }
    proof {
        assert(full.skip(out@.len() as int) =~= Seq::<(Seq<char>, Seq<char>)>::empty());
        assert(sections_view(result@) + Seq::<(Seq<char>, Seq<char>)>::empty() =~= sections_view(
            result@,
        ));
        assert(sections_view(result@) =~= parsed_remotes(text@));
    }
    result
}

/// Whether any section at or after position `from` carries the name.
fn name_in_suffix(v: &Vec<RemoteSection>, from: usize, name: &str) -> (r: bool)
    requires
        from <= v@.len(),
    ensures
        r == has_name(sections_view(v@).skip(from as int), name@),
{
    let mut j = from;
    while j < v.len()
        invariant
            from <= j <= v.len(),
            has_name(sections_view(v@).skip(from as int), name@) == has_name(
                sections_view(v@).skip(j as int),
                name@,
            ),
        decreases v.len() - j,
    {
        let ghost rest = sections_view(v@).skip(j as int);
        proof {
            assert(rest[0] == v@[j as int]@);
            assert(rest.skip(1) =~= sections_view(v@).skip(j + 1));
        }
        if str_eq(v[j].name.as_str(), name) {
            return true;
        }
        j = j + 1;
    }
    proof {
        assert(sections_view(v@).skip(v@.len() as int) =~= Seq::<(Seq<char>, Seq<char>)>::empty());
    }
    false
}

/// Every record the parser emits was emitted under the guard that both
/// its name and its type value are nonempty: a section lacking a `type`
/// key keeps an empty type value and so never appears in the output.
pub proof fn lemma_records_are_typed(text: Seq<char>)
    ensures
        forall|i: int|
            0 <= i < parsed_remotes(text).len() ==> (#[trigger] parsed_remotes(
                text,
            )[i]).0.len() > 0 && parsed_remotes(text)[i].1.len() > 0,
{
    lemma_parse_emits_typed(split_lines(text), Seq::empty(), Seq::empty());
    lemma_dedup_preserves_typed(scanned_remotes(text));
    assert forall|i: int| 0 <= i < parsed_remotes(text).len() implies (#[trigger] parsed_remotes(
        text,
    )[i]).0.len() > 0 && parsed_remotes(text)[i].1.len() > 0 by {
        assert(parsed_remotes(text)[i] == dedup_names(scanned_remotes(text))[i]);
    }
}

proof fn lemma_dedup_preserves_typed(rs: Seq<(Seq<char>, Seq<char>)>)
    requires
        forall|i: int| 0 <= i < rs.len() ==> (#[trigger] rs[i]).0.len() > 0 && rs[i].1.len() > 0,
    ensures
        forall|i: int|
            0 <= i < dedup_names(rs).len() ==> (#[trigger] dedup_names(rs)[i]).0.len() > 0
                && dedup_names(rs)[i].1.len() > 0,
    decreases rs.len(),
{
    let cur = dedup_names(rs);
    if rs.len() > 0 {
        assert forall|i: int| 0 <= i < rs.skip(1).len() implies (#[trigger] rs.skip(
            1,
        )[i]).0.len() > 0 && rs.skip(1)[i].1.len() > 0 by {
            assert(rs.skip(1)[i] == rs[i + 1]);
        }
        lemma_dedup_preserves_typed(rs.skip(1));
        let tail = dedup_names(rs.skip(1));
        assert forall|i: int| 0 <= i < cur.len() implies (#[trigger] cur[i]).0.len() > 0
            && cur[i].1.len() > 0 by {
            if has_name(rs.skip(1), rs[0].0) {
                assert(cur[i] == tail[i]);
            } else if i == 0 {
                assert(cur[0] == rs[0]);
            } else {
                assert(cur[i] == tail[i - 1]);
            }
        }
    }
}

/// A record carries its own name.
proof fn lemma_has_name_from_index(rs: Seq<(Seq<char>, Seq<char>)>, k: int)
    requires
        0 <= k < rs.len(),
    ensures
        has_name(rs, rs[k].0),
    decreases k,
{
    if k > 0 {
        lemma_has_name_from_index(rs.skip(1), k - 1);
        assert(rs.skip(1)[k - 1] == rs[k]);
    }
}

/// A carried name belongs to some record.
proof fn lemma_has_name_to_index(rs: Seq<(Seq<char>, Seq<char>)>, name: Seq<char>)
    requires
        has_name(rs, name),
    ensures
        exists|k: int| 0 <= k < rs.len() && (#[trigger] rs[k]).0 == name,
    decreases rs.len(),
{
    if rs[0].0 == name {
        assert(rs[0].0 == name);
    } else {
        lemma_has_name_to_index(rs.skip(1), name);
        let k = choose|k: int| 0 <= k < rs.skip(1).len() && (#[trigger] rs.skip(1)[k]).0 == name;
        assert(rs[k + 1] == rs.skip(1)[k]);
    }
}

/// Collapsing introduces no name the input lacked.
proof fn lemma_dedup_no_new_names(rs: Seq<(Seq<char>, Seq<char>)>, name: Seq<char>)
    requires
        !has_name(rs, name),
    ensures
        !has_name(dedup_names(rs), name),
    decreases rs.len(),
{
    if rs.len() > 0 {
        assert(rs[0].0 != name && !has_name(rs.skip(1), name));
        lemma_dedup_no_new_names(rs.skip(1), name);
        if !has_name(rs.skip(1), rs[0].0) {
            let cur = dedup_names(rs);
            assert(cur[0] == rs[0]);
            assert(cur.skip(1) =~= dedup_names(rs.skip(1)));
        }
    }
}

proof fn lemma_dedup_unique(rs: Seq<(Seq<char>, Seq<char>)>)
    ensures
        forall|i: int, j: int|
            0 <= i < j < dedup_names(rs).len() ==> (#[trigger] dedup_names(rs)[i]).0 != (
            #[trigger] dedup_names(rs)[j]).0,
    decreases rs.len(),
{
    if rs.len() > 0 {
        lemma_dedup_unique(rs.skip(1));
        let cur = dedup_names(rs);
        let tail = dedup_names(rs.skip(1));
        if has_name(rs.skip(1), rs[0].0) {
            assert forall|i: int, j: int| 0 <= i < j < cur.len() implies (
            #[trigger] cur[i]).0 != (#[trigger] cur[j]).0 by {
                assert(cur[i] == tail[i]);
                assert(cur[j] == tail[j]);
            }
        } else {
            lemma_dedup_no_new_names(rs.skip(1), rs[0].0);
            assert forall|i: int, j: int| 0 <= i < j < cur.len() implies (
            #[trigger] cur[i]).0 != (#[trigger] cur[j]).0 by {
                if i == 0 {
                    assert(cur[0] == rs[0]);
                    assert(cur[j] == tail[j - 1]);
                    if cur[j].0 == rs[0].0 {
                        lemma_has_name_from_index(tail, j - 1);
                    }
                } else {
                    assert(cur[i] == tail[i - 1]);
                    assert(cur[j] == tail[j - 1]);
                }
            }
        }
    }
}

/// No two records in the output share a name: section names are unique,
/// with the last section of a repeated name winning.
pub proof fn lemma_record_names_unique(text: Seq<char>)
    ensures
        forall|i: int, j: int|
            0 <= i < j < parsed_remotes(text).len() ==> (#[trigger] parsed_remotes(
                text,
            )[i]).0 != (#[trigger] parsed_remotes(text)[j]).0,
{
    lemma_dedup_unique(scanned_remotes(text));
    assert forall|i: int, j: int| 0 <= i < j < parsed_remotes(text).len() implies (
    #[trigger] parsed_remotes(text)[i]).0 != (#[trigger] parsed_remotes(text)[j]).0 by {
        assert(parsed_remotes(text)[i] == dedup_names(scanned_remotes(text))[i]);
        assert(parsed_remotes(text)[j] == dedup_names(scanned_remotes(text))[j]);
    }
}

/// A line the scan passes over without changing its state: blank, a
/// comment, or an ordinary key-value line — anything that is neither a
/// section header nor a type line once trimmed.
pub open spec fn is_inert_line(l: Seq<char>) -> bool {
    !is_header(trimmed(l)) && !is_type_line(trimmed(l))
}

/// Inert lines leave the scan exactly where it stood.
proof fn lemma_inert_ignored(
    inert: Seq<Seq<char>>,
    rest: Seq<Seq<char>>,
    sec: Seq<char>,
    ty: Seq<char>,
)
    requires
        forall|i: int| 0 <= i < inert.len() ==> is_inert_line(#[trigger] inert[i]),
    ensures
        parse_lines(inert + rest, sec, ty) == parse_lines(rest, sec, ty),
    decreases inert.len(),
{
    if inert.len() == 0 {
        assert(inert + rest =~= rest);
    } else {
        let all = inert + rest;
        assert(all[0] == inert[0]);
        assert(is_inert_line(inert[0]));
        assert(all.skip(1) =~= inert.skip(1) + rest);
        assert forall|i: int| 0 <= i < inert.skip(1).len() implies is_inert_line(
            #[trigger] inert.skip(1)[i],
        ) by {
            assert(inert.skip(1)[i] == inert[i + 1]);
        }
        lemma_inert_ignored(inert.skip(1), rest, sec, ty);
        assert(parse_lines(all, sec, ty) == parse_lines(all.skip(1), sec, ty));
    }
}

/// One section of a well-formed configuration, as its lines lie in the
/// file: the header line, any inert lines, the line that sets the type
/// key, and any further inert lines, each possibly carrying surrounding
/// whitespace of its own.
pub struct SectionLayout {
    pub name: Seq<char>,
    pub kind: Seq<char>,
    pub header_line: Seq<char>,
    pub before_type: Seq<Seq<char>>,
    pub type_line: Seq<char>,
    pub after_type: Seq<Seq<char>>,
}

/// The layout's lines describe a section named `name` whose type key
/// holds `kind`.
pub open spec fn wf_layout(l: SectionLayout) -> bool {
    &&& is_header(trimmed(l.header_line))
    &&& header_name(trimmed(l.header_line)) == l.name
    &&& l.name.len() > 0
    &&& is_type_line(trimmed(l.type_line))
    &&& type_value(trimmed(l.type_line)) == l.kind
    &&& l.kind.len() > 0
    &&& (forall|i: int| 0 <= i < l.before_type.len() ==> is_inert_line(#[trigger] l.before_type[i]))
    &&& (forall|i: int| 0 <= i < l.after_type.len() ==> is_inert_line(#[trigger] l.after_type[i]))
}

/// The lines of one section, in file order.
pub open spec fn layout_lines(l: SectionLayout) -> Seq<Seq<char>> {
    seq![l.header_line] + l.before_type + seq![l.type_line] + l.after_type
}

/// The lines of a list of sections, in file order.
pub open spec fn layouts_lines(ls: Seq<SectionLayout>) -> Seq<Seq<char>>
    decreases ls.len(),
{
    if ls.len() == 0 {
        Seq::empty()
    } else {
        layout_lines(ls[0]) + layouts_lines(ls.skip(1))
    }
}

/// The record each section stands for.
pub open spec fn layout_records(ls: Seq<SectionLayout>) -> Seq<(Seq<char>, Seq<char>)> {
    ls.map_values(|l: SectionLayout| (l.name, l.kind))
}

proof fn lemma_parse_layouts_rec(ls: Seq<SectionLayout>, sec: Seq<char>, ty: Seq<char>)
    requires
        forall|i: int| 0 <= i < ls.len() ==> wf_layout(#[trigger] ls[i]),
    ensures
        parse_lines(layouts_lines(ls), sec, ty) == (if emits(sec, ty) {
            seq![(sec, ty)]
        } else {
            Seq::<(Seq<char>, Seq<char>)>::empty()
        }) + layout_records(ls),
    decreases ls.len(),
{
    reveal_strlit("type=");
    reveal_strlit("type =");
    let lead = if emits(sec, ty) {
        seq![(sec, ty)]
    } else {
        Seq::<(Seq<char>, Seq<char>)>::empty()
    };
    if ls.len() == 0 {
        assert(layout_records(ls) =~= Seq::<(Seq<char>, Seq<char>)>::empty());
        assert(lead + layout_records(ls) =~= lead);
    } else {
        let l0 = ls[0];
        assert(wf_layout(l0));
        let rest_lines = layouts_lines(ls.skip(1));
        let all = layouts_lines(ls);
        let after_header = l0.before_type + (seq![l0.type_line] + (l0.after_type + rest_lines));
        assert(all =~= seq![l0.header_line] + after_header);

        // the header line closes nothing here and opens the section
        let h = trimmed(l0.header_line);
        assert(all[0] == l0.header_line);
        assert(!is_comment_or_blank(h));
        assert(all.skip(1) =~= after_header);
        let tail = parse_lines(after_header, l0.name, Seq::<char>::empty());
        assert(parse_lines(all, sec, ty) == lead + tail) by {
            if emits(sec, ty) {
            } else {
                assert(lead + tail =~= tail);
            }
        }

        // inert lines, the type line, inert lines again
        lemma_inert_ignored(
            l0.before_type,
            seq![l0.type_line] + (l0.after_type + rest_lines),
            l0.name,
            Seq::<char>::empty(),
        );
        let from_type = seq![l0.type_line] + (l0.after_type + rest_lines);
        let t = trimmed(l0.type_line);
        assert(from_type[0] == l0.type_line);
        assert(t[0] == 't') by {
            if is_prefix(t, "type="@) {
                assert(t.take(5)[0] == t[0]);
            } else {
                assert(t.take(6)[0] == t[0]);
            }
        }
        assert(!is_comment_or_blank(t) && !is_header(t));
        assert(from_type.skip(1) =~= l0.after_type + rest_lines);
        assert(parse_lines(from_type, l0.name, Seq::<char>::empty()) == parse_lines(
            l0.after_type + rest_lines,
            l0.name,
            l0.kind,
        ));
        lemma_inert_ignored(l0.after_type, rest_lines, l0.name, l0.kind);

        // the remaining sections, entered with this one in progress
        assert forall|i: int| 0 <= i < ls.skip(1).len() implies wf_layout(
            #[trigger] ls.skip(1)[i],
        ) by {
            assert(ls.skip(1)[i] == ls[i + 1]);
        }
        lemma_parse_layouts_rec(ls.skip(1), l0.name, l0.kind);
        assert(emits(l0.name, l0.kind));
        assert(parse_lines(rest_lines, l0.name, l0.kind) == seq![(l0.name, l0.kind)]
            + layout_records(ls.skip(1)));
        assert(layout_records(ls) =~= seq![(l0.name, l0.kind)] + layout_records(ls.skip(1)));
        assert(lead + (seq![(l0.name, l0.kind)] + layout_records(ls.skip(1))) =~= lead
            + layout_records(ls));
    }
}

/// Any well-formed configuration — inert preamble lines, then sections
/// each carrying a type key, decorated freely with comments, blank
/// lines, other key-value lines and surrounding whitespace — scans to
/// exactly one record per section, in file order; and when the section
/// names are pairwise distinct, those records are the parse result
/// itself, with nothing collapsed.
pub proof fn lemma_parse_well_formed_lines(preamble: Seq<Seq<char>>, ls: Seq<SectionLayout>)
    requires
        forall|i: int| 0 <= i < preamble.len() ==> is_inert_line(#[trigger] preamble[i]),
        forall|i: int| 0 <= i < ls.len() ==> wf_layout(#[trigger] ls[i]),
        forall|i: int, j: int| 0 <= i < j < ls.len() ==> (#[trigger] ls[i]).name != (#[trigger] ls[j]).name,
    ensures
        parse_lines(preamble + layouts_lines(ls), Seq::empty(), Seq::empty()) == layout_records(
            ls,
        ),
        dedup_names(layout_records(ls)) == layout_records(ls),
        layout_records(ls).len() == ls.len(),
{
    lemma_inert_ignored(preamble, layouts_lines(ls), Seq::empty(), Seq::empty());
    lemma_parse_layouts_rec(ls, Seq::empty(), Seq::empty());
    assert(Seq::<(Seq<char>, Seq<char>)>::empty() + layout_records(ls) =~= layout_records(ls));
    assert forall|i: int, j: int| 0 <= i < j < layout_records(ls).len() implies (
    #[trigger] layout_records(ls)[i]).0 != (#[trigger] layout_records(ls)[j]).0 by {
        assert(layout_records(ls)[i].0 == ls[i].name);
        assert(layout_records(ls)[j].0 == ls[j].name);
    }
    lemma_dedup_distinct_id(layout_records(ls));
}

/// The text-level reading of the law above: a configuration text whose
/// lines form a well-formed configuration parses to exactly one record
/// per section, in file order.
pub proof fn lemma_parse_well_formed_text(
    text: Seq<char>,
    preamble: Seq<Seq<char>>,
    ls: Seq<SectionLayout>,
)
    requires
        split_lines(text) == preamble + layouts_lines(ls),
        forall|i: int| 0 <= i < preamble.len() ==> is_inert_line(#[trigger] preamble[i]),
        forall|i: int| 0 <= i < ls.len() ==> wf_layout(#[trigger] ls[i]),
        forall|i: int, j: int| 0 <= i < j < ls.len() ==> (#[trigger] ls[i]).name != (#[trigger] ls[j]).name,
    ensures
        parsed_remotes(text) == layout_records(ls),
        parsed_remotes(text).len() == ls.len(),
{
    lemma_parse_well_formed_lines(preamble, ls);
}

/// A list of records with pairwise distinct names collapses to itself.
proof fn lemma_dedup_distinct_id(rs: Seq<(Seq<char>, Seq<char>)>)
    requires
        forall|i: int, j: int|
            0 <= i < j < rs.len() ==> (#[trigger] rs[i]).0 != (#[trigger] rs[j]).0,
    ensures
        dedup_names(rs) == rs,
    decreases rs.len(),
{
    if rs.len() > 0 {
        assert(!has_name(rs.skip(1), rs[0].0)) by {
            if has_name(rs.skip(1), rs[0].0) {
                lemma_has_name_to_index(rs.skip(1), rs[0].0);
                let k = choose|k: int|
                    0 <= k < rs.skip(1).len() && (#[trigger] rs.skip(1)[k]).0 == rs[0].0;
                assert(rs.skip(1)[k] == rs[k + 1]);
                assert(rs[0].0 != rs[k + 1].0);
            }
        }
        assert forall|i: int, j: int| 0 <= i < j < rs.skip(1).len() implies (#[trigger] rs.skip(
            1,
        )[i]).0 != (#[trigger] rs.skip(1)[j]).0 by {
            assert(rs.skip(1)[i] == rs[i + 1]);
            assert(rs.skip(1)[j] == rs[j + 1]);
        }
        lemma_dedup_distinct_id(rs.skip(1));
        assert(seq![rs[0]] + rs.skip(1) =~= rs);
    }
}

proof fn lemma_parse_emits_typed(lines: Seq<Seq<char>>, sec: Seq<char>, ty: Seq<char>)
    ensures
        forall|i: int|
            0 <= i < parse_lines(lines, sec, ty).len() ==> (#[trigger] parse_lines(
                lines,
                sec,
                ty,
            )[i]).0.len() > 0 && parse_lines(lines, sec, ty)[i].1.len() > 0,
    decreases lines.len(),
{
    let cur = parse_lines(lines, sec, ty);
    if lines.len() == 0 {
    } else {
        let l = trimmed(lines[0]);
        if is_comment_or_blank(l) {
            lemma_parse_emits_typed(lines.skip(1), sec, ty);
            assert forall|i: int| 0 <= i < cur.len() implies (#[trigger] cur[i]).0.len() > 0
                && cur[i].1.len() > 0 by {
                assert(cur[i] == parse_lines(lines.skip(1), sec, ty)[i]);
            }
        } else if is_header(l) {
            lemma_parse_emits_typed(lines.skip(1), header_name(l), Seq::empty());
            let rest = parse_lines(lines.skip(1), header_name(l), Seq::empty());
            assert forall|i: int| 0 <= i < cur.len() implies (#[trigger] cur[i]).0.len() > 0
                && cur[i].1.len() > 0 by {
                if emits(sec, ty) {
                    if i > 0 {
                        assert(cur[i] == rest[i - 1]);
                    }
                } else {
                    assert(cur[i] == rest[i]);
                }
            }
        } else if is_type_line(l) {
            lemma_parse_emits_typed(lines.skip(1), sec, type_value(l));
            assert forall|i: int| 0 <= i < cur.len() implies (#[trigger] cur[i]).0.len() > 0
                && cur[i].1.len() > 0 by {
                assert(cur[i] == parse_lines(lines.skip(1), sec, type_value(l))[i]);
            }
        } else {
            lemma_parse_emits_typed(lines.skip(1), sec, ty);
            assert forall|i: int| 0 <= i < cur.len() implies (#[trigger] cur[i]).0.len() > 0
                && cur[i].1.len() > 0 by {
                assert(cur[i] == parse_lines(lines.skip(1), sec, ty)[i]);
            }
        }
    }
}

/// The header line of a rendered section.
pub open spec fn header_line(name: Seq<char>) -> Seq<char> {
    "["@ + name + "]"@
}

/// The type line of a rendered section.
pub open spec fn type_line_of(kind: Seq<char>) -> Seq<char> {
    "type="@ + kind
}

/// The canonical rendering of one typed section.
pub open spec fn render_entry(name: Seq<char>, kind: Seq<char>) -> Seq<char> {
    header_line(name) + "\n"@ + type_line_of(kind) + "\n"@
}

/// The canonical rendering of a list of typed sections.
pub open spec fn render_config(secs: Seq<(Seq<char>, Seq<char>)>) -> Seq<char>
    decreases secs.len(),
{
    if secs.len() == 0 {
        Seq::empty()
    } else {
        render_entry(secs[0].0, secs[0].1) + render_config(secs.skip(1))
    }
}

/// A section name the INI dialect can carry: nonempty and free of line
/// feeds.
pub open spec fn wf_section_name(name: Seq<char>) -> bool {
    name.len() > 0 && forall|k: int| 0 <= k < name.len() ==> name[k] != '\n'
}

/// A type value the INI dialect can carry: nonempty, free of line
/// feeds, and without surrounding whitespace, which trimming would
/// strip.
pub open spec fn wf_type_value(kind: Seq<char>) -> bool {
    &&& kind.len() > 0
    &&& !is_space(kind[0])
    &&& !is_space(kind[kind.len() - 1])
    &&& forall|k: int| 0 <= k < kind.len() ==> kind[k] != '\n'
}

proof fn lemma_parse_render_rec(secs: Seq<(Seq<char>, Seq<char>)>, sec: Seq<char>, ty: Seq<char>)
    requires
        forall|i: int|
            0 <= i < secs.len() ==> wf_section_name((#[trigger] secs[i]).0) && wf_type_value(
                secs[i].1,
            ),
    ensures
        parse_lines(split_lines(render_config(secs)), sec, ty) == (if emits(sec, ty) {
            seq![(sec, ty)]
        } else {
            Seq::<(Seq<char>, Seq<char>)>::empty()
        }) + secs,
    decreases secs.len(),
{
    reveal_strlit("\n");
    reveal_strlit("[");
    reveal_strlit("]");
    reveal_strlit("type=");
    reveal_strlit("type =");
    let lead = if emits(sec, ty) {
        seq![(sec, ty)]
    } else {
        Seq::<(Seq<char>, Seq<char>)>::empty()
    };
    if secs.len() == 0 {
        assert(render_config(secs) == Seq::<char>::empty());
        assert(split_lines(render_config(secs)) == Seq::<Seq<char>>::empty());
        assert(parse_lines(split_lines(render_config(secs)), sec, ty) == lead);
        assert(lead + secs =~= lead);
    } else {
        let name = secs[0].0;
        let kind = secs[0].1;
        assert(wf_section_name(name) && wf_type_value(kind));
        let h = header_line(name);
        let t = type_line_of(kind);
        let hl = h + "\n"@;
        let tl = t + "\n"@;
        let rest = render_config(secs.skip(1));
        assert(render_config(secs) =~= hl + (tl + rest));
        assert(hl[hl.len() - 1] == '\n');
        assert(tl[tl.len() - 1] == '\n');
        lemma_split_append(hl, tl + rest);
        lemma_split_append(tl, rest);
        assert forall|k: int| 0 <= k < h.len() implies h[k] != '\n' by {
            if k == 0 {
                assert(h[k] == '[');
            } else if k < 1 + name.len() {
                assert(h[k] == name[k - 1]);
            } else {
                assert(h[k] == ']');
            }
        }
        assert forall|k: int| 0 <= k < t.len() implies t[k] != '\n' by {
            if k >= 5 {
                assert(t[k] == kind[k - 5]);
            } else {
                assert(t[k] == "type="@[k]);
            }
        }
        lemma_split_one_line(h);
        lemma_split_one_line(t);
        let lines = split_lines(render_config(secs));
        assert(lines =~= seq![h, t] + split_lines(rest));

        // the header line: trimmed to itself, recognized, and renamed
        assert(!is_space(h[0]) && !is_space(h[h.len() - 1]));
        lemma_trimmed_id(h);
        assert(lines[0] == h);
        assert(!is_comment_or_blank(h));
        assert(is_header(h));
        assert(header_name(h) =~= name);
        assert(lines.skip(1) =~= seq![t] + split_lines(rest));
        assert(parse_lines(lines, sec, ty) == lead + parse_lines(
            lines.skip(1),
            name,
            Seq::<char>::empty(),
        )) by {
            if emits(sec, ty) {
            } else {
                assert(lead + parse_lines(lines.skip(1), name, Seq::<char>::empty())
                    =~= parse_lines(lines.skip(1), name, Seq::<char>::empty()));
            }
        }

        // the type line: trimmed to itself, recognized, and valued
        assert(t[0] == 't');
        assert(t[t.len() - 1] == kind[kind.len() - 1]);
        lemma_trimmed_id(t);
        let lines1 = seq![t] + split_lines(rest);
        assert(lines1[0] == t);
        assert(!is_comment_or_blank(t));
        assert(!is_header(t));
        assert(t.take(5) =~= "type="@);
        assert(is_prefix(t, "type="@));
        assert(t.skip(5) =~= kind);
        lemma_trimmed_id(kind);
        assert(type_value(t) == kind);
        assert(lines1.skip(1) =~= split_lines(rest));
        assert(parse_lines(lines1, name, Seq::<char>::empty()) == parse_lines(
            split_lines(rest),
            name,
            kind,
        ));

        // the remaining sections, entered with this one in progress
        assert forall|i: int| 0 <= i < secs.skip(1).len() implies wf_section_name((
        #[trigger] secs.skip(1)[i]).0) && wf_type_value(secs.skip(1)[i].1) by {
            assert(secs.skip(1)[i] == secs[i + 1]);
        }
        lemma_parse_render_rec(secs.skip(1), name, kind);
        assert(emits(name, kind));
        assert(parse_lines(split_lines(rest), name, kind) == seq![(name, kind)] + secs.skip(1));
        assert(lead + (seq![(name, kind)] + secs.skip(1)) =~= lead + secs);
    }
}

/// Well-formed configuration text made of distinctly named typed
/// sections parses back to exactly those sections: rendering records to
/// INI text and parsing the text returns the same records, one per
/// section, in file order.
pub proof fn lemma_parse_render_roundtrip(secs: Seq<(Seq<char>, Seq<char>)>)
    requires
        forall|i: int|
            0 <= i < secs.len() ==> wf_section_name((#[trigger] secs[i]).0) && wf_type_value(
                secs[i].1,
            ),
        forall|i: int, j: int|
            0 <= i < j < secs.len() ==> (#[trigger] secs[i]).0 != (#[trigger] secs[j]).0,
    ensures
        parsed_remotes(render_config(secs)) == secs,
        parsed_remotes(render_config(secs)).len() == secs.len(),
{
    lemma_parse_render_rec(secs, Seq::empty(), Seq::empty());
    assert(Seq::<(Seq<char>, Seq<char>)>::empty() + secs =~= secs);
    assert(scanned_remotes(render_config(secs)) == secs);
    lemma_dedup_distinct_id(secs);
}

} // verus!
