//! Character-level text utilities shared by the parser, the schedule
//! editor and the writer: trimming, splitting into lines, joining lines,
//! substring search, and plain string comparison.
//!
//! Every executable function here carries an exact contract over the
//! corresponding spec function on `Seq<char>`.

use vstd::prelude::*;

verus! {

/// Whitespace as this library's configuration dialect understands it:
/// spaces, tabs and carriage returns (line feeds are line separators and
/// never reach a trimmed line).
pub open spec fn is_space(c: char) -> bool {
    c == ' ' || c == '\t' || c == '\r'
}

/// The sequence with its leading whitespace removed.
pub open spec fn trim_start(s: Seq<char>) -> Seq<char>
    decreases s.len(),
{
    if s.len() > 0 && is_space(s[0]) {
        trim_start(s.skip(1))
    } else {
        s
    }
}

/// The sequence with its trailing whitespace removed.
pub open spec fn trim_end(s: Seq<char>) -> Seq<char>
    decreases s.len(),
{
    if s.len() > 0 && is_space(s[s.len() - 1]) {
        trim_end(s.take(s.len() - 1))
    } else {
        s
    }
}

/// The sequence with whitespace removed from both ends.
pub open spec fn trimmed(s: Seq<char>) -> Seq<char> {
    trim_end(trim_start(s))
}

proof fn lemma_trim_start_skip(s: Seq<char>, i: int)
    requires
        0 <= i <= s.len(),
        forall|k: int| 0 <= k < i ==> is_space(s[k]),
        i == s.len() || !is_space(s[i]),
    ensures
        trim_start(s) == s.skip(i),
    decreases i,
{
    if i == 0 {
        assert(s.skip(0) =~= s);
    } else {
        assert(is_space(s[0]));
        lemma_trim_start_skip(s.skip(1), i - 1);
        assert(s.skip(1).skip(i - 1) =~= s.skip(i));
    }
}

proof fn lemma_trim_end_take(s: Seq<char>, j: int)
    requires
        0 <= j <= s.len(),
        forall|k: int| j <= k < s.len() ==> is_space(s[k]),
        j == 0 || !is_space(s[j - 1]),
    ensures
        trim_end(s) == s.take(j),
    decreases s.len() - j,
{
    if j == s.len() {
        assert(s.take(j) =~= s);
    } else {
        assert(is_space(s[s.len() - 1]));
        lemma_trim_end_take(s.take(s.len() - 1), j);
        assert(s.take(s.len() - 1).take(j) =~= s.take(j));
    }
}

/// A sequence that neither starts nor ends with whitespace trims to itself.
pub proof fn lemma_trimmed_id(s: Seq<char>)
    requires
        s.len() == 0 || (!is_space(s[0]) && !is_space(s[s.len() - 1])),
    ensures
        trimmed(s) == s,
{
    lemma_trim_start_skip(s, 0);
    assert(s.skip(0) =~= s);
    lemma_trim_end_take(s, s.len() as int);
    assert(s.take(s.len() as int) =~= s);
}

fn is_space_char(c: char) -> (b: bool)
    ensures
        b == is_space(c),
{
    c == ' ' || c == '\t' || c == '\r'
}

/// Removes leading and trailing whitespace.
pub fn trim_str<'a>(s: &'a str) -> (r: &'a str)
    ensures
        r@ == trimmed(s@),
{
    let n = s.unicode_len();
    let mut i: usize = 0;
    while i < n && is_space_char(s.get_char(i))
        invariant
            i <= n,
            n == s@.len(),
            forall|k: int| 0 <= k < i ==> is_space(s@[k]),
        decreases n - i,
    {
        i = i + 1;
    }
    let mut j: usize = n;
    while j > i && is_space_char(s.get_char(j - 1))
        invariant
            i <= j <= n,
            n == s@.len(),
            forall|k: int| j <= k < n ==> is_space(s@[k]),
        decreases j,
    {
        j = j - 1;
    }
    proof {
        lemma_trim_start_skip(s@, i as int);
        let t = s@.skip(i as int);
        assert forall|k: int| j - i <= k < t.len() implies is_space(t[k]) by {
            assert(t[k] == s@[k + i]);
        }
        if j > i {
            assert(t[j - i - 1] == s@[j - 1]);
        }
        lemma_trim_end_take(t, j - i);
        assert(t.take(j - i) =~= s@.subrange(i as int, j as int));
    }
    s.substring_char(i, j)
}

/// The distance to the first line feed, or the whole length when the
/// sequence holds none.
pub open spec fn line_break(s: Seq<char>) -> nat
    decreases s.len(),
{
    if s.len() == 0 {
        0
    } else if s[0] == '\n' {
        0
    } else {
        1 + line_break(s.skip(1))
    }
}

proof fn lemma_line_break_is(s: Seq<char>, i: int)
    requires
        0 <= i <= s.len(),
        forall|k: int| 0 <= k < i ==> s[k] != '\n',
        i == s.len() || s[i] == '\n',
    ensures
        line_break(s) == i,
    decreases i,
{
    if i > 0 {
        lemma_line_break_is(s.skip(1), i - 1);
    }
}

pub proof fn lemma_line_break_le(s: Seq<char>)
    ensures
        line_break(s) <= s.len(),
    decreases s.len(),
{
    if s.len() > 0 && s[0] != '\n' {
        lemma_line_break_le(s.skip(1));
    }
}

/// The lines of a text, in order: the text is cut at each line feed, and
/// a final fragment without a terminating line feed still counts as a
/// line. An empty text has no lines, and a trailing line feed opens no
/// empty final line.
pub open spec fn split_lines(s: Seq<char>) -> Seq<Seq<char>>
    decreases s.len(),
{
    if s.len() == 0 {
        Seq::empty()
    } else {
        let e = line_break(s);
        if e < s.len() {
            seq![s.take(e as int)] + split_lines(s.skip(e as int + 1))
        } else {
            seq![s]
        }
    }
}

/// The views of a vector of owned lines.
pub open spec fn views_of(v: Seq<String>) -> Seq<Seq<char>> {
    v.map_values(|l: String| l@)
}

/// Splits a text into its lines.
pub fn split_into_lines(s: &str) -> (v: Vec<String>)
    ensures
        views_of(v@) == split_lines(s@),
{
    let n = s.unicode_len();
    let mut v: Vec<String> = Vec::new();
    let mut pos: usize = 0;
    proof {
        assert(views_of(v@) =~= Seq::<Seq<char>>::empty());
        assert(s@.skip(0) =~= s@);
    }
    while pos < n
        invariant
            pos <= n,
            n == s@.len(),
            split_lines(s@) == views_of(v@) + split_lines(s@.skip(pos as int)),
        decreases n - pos,
    {
        let ghost old_v = v@;
        let mut e: usize = pos;
        while e < n && s.get_char(e) != '\n'
            invariant
                pos <= e <= n,
                n == s@.len(),
                forall|k: int| pos <= k < e ==> s@[k] != '\n',
            decreases n - e,
        {
            e = e + 1;
        }
        let ghost rest = s@.skip(pos as int);
        proof {
            assert forall|k: int| 0 <= k < e - pos implies rest[k] != '\n' by {
                assert(rest[k] == s@[k + pos]);
            }
            if e < n {
                assert(rest[e - pos] == s@[e as int]);
            }
            lemma_line_break_is(rest, e - pos);
        }
        let line = s.substring_char(pos, e).to_owned();
        v.push(line);
        let newpos = if e < n {
            e + 1
        } else {
            e
        };
        proof {
            assert(rest.take(e - pos) =~= s@.subrange(pos as int, e as int));
            assert(views_of(v@) =~= views_of(old_v) + seq![line@]);
            if e < n {
                assert(rest.skip(e - pos + 1) =~= s@.skip(newpos as int));
                assert(split_lines(rest) == seq![line@] + split_lines(s@.skip(newpos as int)));
            } else {
                assert(rest =~= line@);
                assert(split_lines(rest) == seq![line@]);
                assert(s@.skip(newpos as int) =~= Seq::<char>::empty());
            }
            assert(views_of(v@) + split_lines(s@.skip(newpos as int)) =~= (views_of(old_v)
                + seq![line@]) + split_lines(s@.skip(newpos as int)));
            assert(views_of(old_v) + split_lines(rest) =~= views_of(old_v) + (seq![line@]
                + split_lines(s@.skip(newpos as int))));
        }
        pos = newpos;
    }
    proof {
        assert(s@.skip(pos as int) =~= Seq::<char>::empty());
        assert(views_of(v@) + Seq::<Seq<char>>::empty() =~= views_of(v@));
    }
    v
}

/// The needle occurs in the haystack starting at index `i`.
pub open spec fn contains_at(h: Seq<char>, n: Seq<char>, i: int) -> bool {
    0 <= i && i + n.len() <= h.len() && h.subrange(i, i + n.len()) == n
}

/// The needle occurs somewhere in the haystack.
pub open spec fn contains_seq(h: Seq<char>, n: Seq<char>) -> bool {
    exists|i: int| contains_at(h, n, i)
}

fn match_at(h: &str, n: &str, i: usize) -> (b: bool)
    requires
        i + n@.len() <= h@.len(),
    ensures
        b == contains_at(h@, n@, i as int),
{
    let nl = n.unicode_len();
    let hl = h.unicode_len();
    let mut k: usize = 0;
    while k < nl
        invariant
            k <= nl,
            nl == n@.len(),
            hl == h@.len(),
            i + nl <= hl,
            forall|m: int| 0 <= m < k ==> h@[i + m] == n@[m],
        decreases nl - k,
    {
        if h.get_char(i + k) != n.get_char(k) {
            proof {
                assert(h@.subrange(i as int, i + nl as int)[k as int] == h@[i + k]);
            }
            return false;
        }
        k = k + 1;
    }
    proof {
        assert(h@.subrange(i as int, i + nl as int) =~= n@);
    }
    true
}

/// Whether the needle occurs anywhere in the haystack.
pub fn contains_str(h: &str, n: &str) -> (b: bool)
    ensures
        b == contains_seq(h@, n@),
{
    let hl = h.unicode_len();
    let nl = n.unicode_len();
    if nl > hl {
        return false;
    }
    if nl == 0 {
        proof {
            assert(h@.subrange(0, 0) =~= n@);
            assert(contains_at(h@, n@, 0));
        }
        return true;
    }
    let mut i: usize = 0;
    while i <= hl - nl
        invariant
            0 < nl <= hl,
            hl == h@.len(),
            nl == n@.len(),
            i <= hl - nl + 1,
            forall|j: int| 0 <= j < i ==> !contains_at(h@, n@, j),
        decreases hl - nl - i + 1,
    {
        if match_at(h, n, i) {
            return true;
        }
        i = i + 1;
    }
    false
}

/// The prefix relation on character sequences.
pub open spec fn is_prefix(s: Seq<char>, p: Seq<char>) -> bool {
    p.len() <= s.len() && s.take(p.len() as int) == p
}

/// Whether `p` is a prefix of `s`.
pub fn has_prefix(s: &str, p: &str) -> (b: bool)
    ensures
        b == is_prefix(s@, p@),
{
    let sl = s.unicode_len();
    let pl = p.unicode_len();
    if pl > sl {
        return false;
    }
    proof {
        assert(s@.subrange(0, pl as int) =~= s@.take(pl as int));
    }
    match_at(s, p, 0)
}

/// Whether two string slices hold the same characters.
pub fn str_eq(a: &str, b: &str) -> (r: bool)
    ensures
        r == (a@ == b@),
{
    let al = a.unicode_len();
    let bl = b.unicode_len();
    if al != bl {
        return false;
    }
    proof {
        assert(a@.subrange(0, bl as int) =~= a@);
    }
    match_at(a, b, 0)
}

/// The lines joined with a single line feed between each pair, as the
/// scheduler table is rebuilt after filtering.
pub open spec fn join_lines(ls: Seq<Seq<char>>) -> Seq<char>
    decreases ls.len(),
{
    if ls.len() == 0 {
        Seq::empty()
    } else if ls.len() == 1 {
        ls[0]
    } else {
        ls[0] + seq!['\n'] + join_lines(ls.skip(1))
    }
}

proof fn lemma_join_push(ls: Seq<Seq<char>>, l: Seq<char>)
    ensures
        join_lines(ls.push(l)) == if ls.len() == 0 {
            l
        } else {
            join_lines(ls) + seq!['\n'] + l
        },
    decreases ls.len(),
{
    if ls.len() == 0 {
        assert(ls.push(l) =~= seq![l]);
        assert(join_lines(seq![l]) == l);
    } else if ls.len() == 1 {
        assert(ls.push(l)[0] == ls[0]);
        assert(ls.push(l).skip(1) =~= seq![l]);
        assert(seq![l].len() == 1);
        assert(join_lines(seq![l]) == seq![l][0]);
        assert(seq![l][0] == l);
        assert(join_lines(ls.push(l)) == ls[0] + seq!['\n'] + join_lines(ls.push(l).skip(1)));
        assert(ls[0] + seq!['\n'] + l =~= join_lines(ls) + seq!['\n'] + l);
    } else {
        lemma_join_push(ls.skip(1), l);
        assert(ls.push(l).skip(1) =~= ls.skip(1).push(l));
        assert(join_lines(ls.push(l)) == ls[0] + seq!['\n'] + join_lines(ls.skip(1).push(l)));
        assert(ls[0] + seq!['\n'] + (join_lines(ls.skip(1)) + seq!['\n'] + l) =~= (ls[0]
            + seq!['\n'] + join_lines(ls.skip(1))) + seq!['\n'] + l);
    }
}

/// Joins owned lines with a line feed between each pair.
pub fn join_with_newlines(v: &Vec<String>) -> (r: String)
    ensures
        r@ == join_lines(views_of(v@)),
{
    let mut out = String::new();
    let mut i: usize = 0;
    proof {
        assert(views_of(v@).take(0) =~= Seq::<Seq<char>>::empty());
    }
    while i < v.len()
        invariant
            i <= v.len(),
            out@ == join_lines(views_of(v@).take(i as int)),
        decreases v.len() - i,
    {
        let ghost pre = views_of(v@).take(i as int);
        if i > 0 {
            out.append("\n");
        }
        out.append(v[i].as_str());
        proof {
            reveal_strlit("\n");
            assert("\n"@ =~= seq!['\n']);
            lemma_join_push(pre, v@[i as int]@);
            assert(pre.push(v@[i as int]@) =~= views_of(v@).take(i + 1));
            if i > 0 {
                assert(out@ =~= join_lines(pre) + seq!['\n'] + v@[i as int]@);
            } else {
                assert(pre.len() == 0);
                assert(out@ =~= v@[i as int]@);
            }
        }
        i = i + 1;
    }
    proof {
        assert(views_of(v@).take(v@.len() as int) =~= views_of(v@));
    }
    out
}

/// A text that holds no line feed has its break at its end.
proof fn lemma_line_break_no_newline(s: Seq<char>)
    requires
        line_break(s) == s.len(),
        s.len() > 0,
    ensures
        s[s.len() - 1] != '\n',
    decreases s.len(),
{
    if s.len() == 1 {
        assert(s[0] != '\n');
    } else {
        assert(s[0] != '\n');
        lemma_line_break_no_newline(s.skip(1));
        assert(s.skip(1)[s.len() - 2] == s[s.len() - 1]);
    }
}

/// The character at the line break is a line feed when the break falls
/// short of the end.
proof fn lemma_line_break_newline(s: Seq<char>)
    requires
        line_break(s) < s.len(),
    ensures
        s[line_break(s) as int] == '\n',
    decreases s.len(),
{
    if s.len() > 0 && s[0] != '\n' {
        lemma_line_break_newline(s.skip(1));
        assert(s.skip(1)[line_break(s.skip(1)) as int] == s[line_break(s) as int]);
    }
}

/// The characters before the line break are no line feeds.
proof fn lemma_line_break_props(s: Seq<char>)
    ensures
        line_break(s) <= s.len(),
        forall|k: int| 0 <= k < line_break(s) ==> s[k] != '\n',
    decreases s.len(),
{
    if s.len() > 0 && s[0] != '\n' {
        lemma_line_break_props(s.skip(1));
        assert forall|k: int| 0 <= k < line_break(s) implies s[k] != '\n' by {
            if k > 0 {
                assert(s.skip(1)[k - 1] == s[k]);
            }
        }
    }
}

/// A text that ends with a line feed splits independently of what
/// follows it: the lines of the concatenation are the lines of each
/// part, in order.
pub proof fn lemma_split_append(a: Seq<char>, b: Seq<char>)
    requires
        a.len() > 0,
        a[a.len() - 1] == '\n',
    ensures
        split_lines(a + b) == split_lines(a) + split_lines(b),
    decreases a.len(),
{
    lemma_line_break_props(a);
    let e = line_break(a);
    assert(e < a.len()) by {
        if e == a.len() {
            lemma_line_break_no_newline(a);
        }
    }
    lemma_line_break_newline(a);
    let s = a + b;
    assert forall|k: int| 0 <= k < e implies s[k] != '\n' by {
        assert(s[k] == a[k]);
    }
    assert(s[e as int] == a[e as int]);
    lemma_line_break_is(s, e as int);
    let arest = a.skip(e as int + 1);
    assert(s.take(e as int) =~= a.take(e as int));
    if arest.len() == 0 {
        assert(s.skip(e as int + 1) =~= b);
        assert(split_lines(a) =~= seq![a.take(e as int)] + split_lines(arest));
        assert(split_lines(arest) == Seq::<Seq<char>>::empty());
        assert(split_lines(s) == seq![a.take(e as int)] + split_lines(b));
        assert(seq![a.take(e as int)] + split_lines(b) =~= (seq![a.take(e as int)]
            + Seq::<Seq<char>>::empty()) + split_lines(b));
    } else {
        assert(arest[arest.len() - 1] == a[a.len() - 1]);
        lemma_split_append(arest, b);
        assert(s.skip(e as int + 1) =~= arest + b);
        assert(split_lines(s) == seq![a.take(e as int)] + split_lines(arest + b));
        assert(split_lines(a) == seq![a.take(e as int)] + split_lines(arest));
        assert(seq![a.take(e as int)] + (split_lines(arest) + split_lines(b)) =~= (seq![
            a.take(e as int),
        ] + split_lines(arest)) + split_lines(b));
    }
}

/// A single line closed by a line feed splits into just that line.
pub proof fn lemma_split_one_line(l: Seq<char>)
    requires
        forall|k: int| 0 <= k < l.len() ==> l[k] != '\n',
    ensures
        split_lines(l + "\n"@) == seq![l],
{
    reveal_strlit("\n");
    let s = l + "\n"@;
    assert forall|k: int| 0 <= k < l.len() implies s[k] != '\n' by {
        assert(s[k] == l[k]);
    }
    assert(s[l.len() as int] == '\n');
    lemma_line_break_is(s, l.len() as int);
    assert(s.take(l.len() as int) =~= l);
    assert(s.skip(l.len() as int + 1) =~= Seq::<char>::empty());
    assert(split_lines(s) == seq![l] + split_lines(Seq::<char>::empty()));
    assert(seq![l] + Seq::<Seq<char>>::empty() =~= seq![l]);
}

/// Every line of a text that nowhere holds the needle is itself free of
/// the needle.
pub proof fn lemma_no_match_in_lines(s: Seq<char>, n: Seq<char>)
    requires
        !contains_seq(s, n),
    ensures
        forall|i: int|
            0 <= i < split_lines(s).len() ==> !contains_seq(#[trigger] split_lines(s)[i], n),
    decreases s.len(),
{
    if s.len() > 0 {
        lemma_line_break_le(s);
        let e = line_break(s);
        if e < s.len() {
            let head = s.take(e as int);
            let rest = s.skip(e as int + 1);
            assert(!contains_seq(head, n)) by {
                if contains_seq(head, n) {
                    let i = choose|i: int| contains_at(head, n, i);
                    assert(s.subrange(i, i + n.len()) =~= head.subrange(i, i + n.len()));
                    assert(contains_at(s, n, i));
                }
            }
            assert(!contains_seq(rest, n)) by {
                if contains_seq(rest, n) {
                    let i = choose|i: int| contains_at(rest, n, i);
                    assert(s.subrange(e + 1 + i, e + 1 + i + n.len()) =~= rest.subrange(
                        i,
                        i + n.len(),
                    ));
                    assert(contains_at(s, n, e + 1 + i));
                }
            }
            lemma_no_match_in_lines(rest, n);
            assert forall|i: int| 0 <= i < split_lines(s).len() implies !contains_seq(
                #[trigger] split_lines(s)[i],
                n,
            ) by {
                if i == 0 {
                    assert(split_lines(s)[0] == head);
                } else {
                    assert(split_lines(s)[i] == split_lines(rest)[i - 1]);
                }
            }
        } else {
            assert(split_lines(s) =~= seq![s]);
        }
    }
}

} // verus!
