//! The pipeline controller: assembles the Markdown document, splices the
//! diagram out of converted AsciiDoc, and maps each requested output
//! format to its rendered text.

use vstd::prelude::*;
use vstd::string::StrSliceExecFns;
use vstd::string::StringExecFns;

use crate::asciidoc_parser::{AsciidocParser, ConvertError, MarkdownConversion, normalized_asciidoc};
use crate::cli::{Cli, OutputFormat};
use crate::model::{Class, Method};
use crate::plantuml_parser::{diagram_shape, PlantumlParser};
use crate::rust_doc_parser::{
    extraction_text, last_struct_of, method_pairs_of, struct_documentation_of, RustDocParser,
};
use crate::syntax::{parse_check, parse_error_of, puml_of, syn_accepts};
use crate::text::{
    concat_lines, concat_strings, is_blank, join_sep, join_with, lemma_concat_lines_app,
    lemma_concat_raw_lines, raw_lines, split_into_lines, split_into_raw_lines, split_lines,
    starts_with_seq, starts_with_str, trim_end_spec, trim_spec, trim_start_spec, trim_start_str,
    trim_str,
};

verus! {

/// True when the line, after leading blanks, begins with the marker.
pub open spec fn line_starts(l: Seq<char>, m: Seq<char>) -> bool {
    starts_with_seq(trim_start_spec(l), m)
}

/// True when the line is exactly the marker once trimmed on both ends.
pub open spec fn line_trim_is(l: Seq<char>, m: Seq<char>) -> bool {
    trim_spec(l) == m
}

/// Executable test matching `line_starts`.
fn line_starts_with(l: &str, m: &str) -> (b: bool)
    ensures
        b == line_starts(l@, m@),
{
    let t = trim_start_str(l);
    starts_with_str(t.as_str(), m)
}

/// Executable test matching `line_trim_is`.
fn line_trim_eq(l: &str, m: &str) -> (b: bool)
    ensures
        b == line_trim_is(l@, m@),
{
    let t = trim_str(l);
    let ms: String = m.to_owned();
    t == ms
}

/// The diagram lines from the current position up to, but not including,
/// the first line that begins with the end marker.
pub open spec fn taken_diagram_lines(ls: Seq<Seq<char>>) -> Seq<Seq<char>>
    decreases ls.len(),
{
    if ls.len() == 0 {
        Seq::empty()
    } else if line_starts(ls[0], "@enduml"@) {
        Seq::empty()
    } else {
        seq![ls[0]] + taken_diagram_lines(ls.drop_first())
    }
}

/// The diagram lines of a document: from the first line that begins with
/// the start marker up to, but not including, the first following line
/// that begins with the end marker.
pub open spec fn diagram_region_lines(ls: Seq<Seq<char>>) -> Seq<Seq<char>>
    decreases ls.len(),
{
    if ls.len() == 0 {
        Seq::empty()
    } else if line_starts(ls[0], "@startuml"@) {
        taken_diagram_lines(ls)
    } else {
        diagram_region_lines(ls.drop_first())
    }
}

/// What the diagram extraction returns: the collected region lines joined
/// with line breaks, closed by an end-marker line.
pub open spec fn extract_plantuml_spec(s: Seq<char>) -> Seq<char> {
    join_sep(diagram_region_lines(split_lines(s)), seq!['\n']) + "\n@enduml\n"@
}

/// Retrieves the string content located within the diagram markers: every
/// line from the first `@startuml` line up to, but not including, the
/// first following `@enduml` line (both matched after leading blanks),
/// joined with line breaks and closed by an `@enduml` line.
pub fn extract_plantuml_from_asciidoc(asciidoc_output: &str) -> (r: String)
    ensures
        r@ == extract_plantuml_spec(asciidoc_output@),
{
    let lines = split_into_lines(asciidoc_output);
    let ghost ls = lines.deep_view();
    let n = lines.len();
    let ghost reg = diagram_region_lines(ls);
    let mut k: usize = 0;
    let mut started = false;
    proof {
        assert(ls.skip(0) =~= ls);
    }
    while k < n && !started
        invariant
            k <= n,
            n == lines.len(),
            ls == lines.deep_view(),
            reg == diagram_region_lines(ls),
            diagram_region_lines(ls) == diagram_region_lines(ls.skip(k as int)),
            started ==> k < n && line_starts(ls[k as int], "@startuml"@),
        decreases n - k + (if started { 0int } else { 1int }),
    {
        proof {
            assert(lines@[k as int]@ == ls[k as int]);
        }
        if line_starts_with(lines[k].as_str(), "@startuml") {
            started = true;
        } else {
            proof {
                assert(ls.skip(k as int)[0] == ls[k as int]);
                assert(ls.skip(k as int).drop_first() =~= ls.skip(k + 1));
            }
            k = k + 1;
        }
    }
    proof {
        if started {
            assert(ls.skip(k as int)[0] == ls[k as int]);
            assert(diagram_region_lines(ls.skip(k as int)) == taken_diagram_lines(
                ls.skip(k as int),
            ));
        } else {
            assert(ls.skip(k as int) =~= Seq::<Seq<char>>::empty());
            assert(reg =~= Seq::<Seq<char>>::empty());
            assert(taken_diagram_lines(ls.skip(k as int)) =~= Seq::<Seq<char>>::empty());
        }
        assert(reg == taken_diagram_lines(ls.skip(k as int)));
    }
    let mut acc: Vec<String> = Vec::new();
    let mut j: usize = k;
    let mut done = false;
    proof {
        assert(acc.deep_view() =~= Seq::<Seq<char>>::empty());
        assert(reg =~= acc.deep_view() + taken_diagram_lines(ls.skip(j as int)));
    }
    while j < n && !done
        invariant
            j <= n,
            n == lines.len(),
            ls == lines.deep_view(),
            !done ==> reg == acc.deep_view() + taken_diagram_lines(ls.skip(j as int)),
            done ==> reg == acc.deep_view(),
        decreases n - j + (if done { 0int } else { 1int }),
    {
        let ghost prev = acc.deep_view();
        proof {
            assert(lines@[j as int]@ == ls[j as int]);
            assert(ls.skip(j as int)[0] == ls[j as int]);
        }
        if line_starts_with(lines[j].as_str(), "@enduml") {
            done = true;
            proof {
                assert(taken_diagram_lines(ls.skip(j as int)) =~= Seq::<Seq<char>>::empty());
                assert(reg =~= acc.deep_view());
            }
        } else {
            acc.push(lines[j].clone());
            proof {
                assert(ls.skip(j as int).drop_first() =~= ls.skip(j + 1));
                assert(taken_diagram_lines(ls.skip(j as int)) == seq![ls[j as int]]
                    + taken_diagram_lines(ls.skip(j + 1)));
                assert(acc.deep_view() =~= prev.push(ls[j as int]));
                assert(acc.deep_view() + taken_diagram_lines(ls.skip(j + 1)) =~= prev
                    + taken_diagram_lines(ls.skip(j as int)));
            }
            j = j + 1;
        }
    }
    proof {
        if !done {
            assert(ls.skip(j as int) =~= Seq::<Seq<char>>::empty());
            assert(taken_diagram_lines(ls.skip(j as int)) =~= Seq::<Seq<char>>::empty());
            assert(reg =~= acc.deep_view() + Seq::<Seq<char>>::empty());
            assert(reg =~= acc.deep_view());
        }
    }
    let mut out = join_with(&acc, "\n");
    out.append("\n@enduml\n");
    proof {
        reveal_strlit("\n");
        assert("\n"@ =~= seq!['\n']);
    }
    out
}

/// The include directive that replaces an embedded diagram region. The
/// `FILENAME` token is a placeholder the caller substitutes with the real
/// output base name.
pub open spec fn include_directive() -> Seq<char> {
    "plantuml::FILENAME.puml[]"@
}

/// The first position at or after `j` where a line trims to the end
/// marker and the next line trims to the fence delimiter.
pub open spec fn region_end_from(ls: Seq<Seq<char>>, j: int) -> Option<int>
    decreases ls.len() - j,
{
    if j < 0 || j >= ls.len() {
        None
    } else if line_trim_is(ls[j], "@enduml"@) && j + 1 < ls.len() && line_trim_is(
        ls[j + 1],
        "----"@,
    ) {
        Some(j)
    } else {
        region_end_from(ls, j + 1)
    }
}

/// The line break that a raw line ends with, if any.
pub open spec fn line_break_of(l: Seq<char>) -> Seq<char> {
    if l.len() > 0 && l.last() == '\n' {
        seq!['\n']
    } else {
        Seq::<char>::empty()
    }
}

/// The document's raw lines with each embedded diagram region replaced by
/// one include-directive line. A region is a `[plantuml]` line, a `----`
/// delimiter line, any lines up to an `@enduml` line, and a closing
/// `----` line (each marker matched with surrounding blanks ignored); the
/// directive keeps the closing line's break, and every line outside a
/// region is kept as it stands.
pub open spec fn replace_region_lines(ls: Seq<Seq<char>>) -> Seq<Seq<char>>
    decreases ls.len(),
{
    if ls.len() == 0 {
        Seq::empty()
    } else if ls.len() >= 2 && line_trim_is(ls[0], "[plantuml]"@) && line_trim_is(
        ls[1],
        "----"@,
    ) {
        match region_end_from(ls, 2) {
            Some(e) => if 2 <= e && e + 2 <= ls.len() {
                seq![include_directive() + line_break_of(ls[e + 1])] + replace_region_lines(
                    ls.skip(e + 2),
                )
            } else {
                seq![ls[0]] + replace_region_lines(ls.drop_first())
            },
            None => seq![ls[0]] + replace_region_lines(ls.drop_first()),
        }
    } else {
        seq![ls[0]] + replace_region_lines(ls.drop_first())
    }
}

/// What the include replacement returns: the document with each fenced
/// region spliced out and every other character unchanged.
pub open spec fn replace_puml_spec(s: Seq<char>) -> Seq<char> {
    concat_lines(replace_region_lines(raw_lines(s)))
}

/// Replaces each embedded PlantUML region of an AsciiDoc text with the
/// include directive `plantuml::FILENAME.puml[]`, so that the `FILENAME`
/// token can later be replaced with the diagram file's name. Text outside
/// the replaced regions is kept character for character; a document with
/// no region is returned unchanged.
pub fn replace_puml_with_include(asciidoc_string: &str) -> (r: String)
    ensures
        r@ == replace_puml_spec(asciidoc_string@),
{
    let lines = split_into_raw_lines(asciidoc_string);
    let ghost ls = lines.deep_view();
    let n = lines.len();
    let mut out_lines: Vec<String> = Vec::new();
    let mut k: usize = 0;
    proof {
        assert(ls.skip(0) =~= ls);
        assert(out_lines.deep_view() =~= Seq::<Seq<char>>::empty());
        assert(replace_region_lines(ls) =~= out_lines.deep_view() + replace_region_lines(ls));
    }
    while k < n
        invariant
            k <= n,
            n == lines.len(),
            ls == lines.deep_view(),
            replace_region_lines(ls) == out_lines.deep_view() + replace_region_lines(
                ls.skip(k as int),
            ),
        decreases n - k,
    {
        let ghost prev = out_lines.deep_view();
        let ghost tail = ls.skip(k as int);
        proof {
            assert(lines@[k as int]@ == ls[k as int]);
            assert(tail[0] == ls[k as int]);
            if k + 1 < n {
                assert(lines@[k + 1]@ == ls[k + 1]);
                assert(tail[1] == ls[k + 1]);
            }
            assert(tail.drop_first() =~= ls.skip(k + 1));
        }
        let is_region_start = k + 1 < n && line_trim_eq(lines[k].as_str(), "[plantuml]")
            && line_trim_eq(lines[k + 1].as_str(), "----");
        let mut replaced = false;
        if is_region_start {
            let mut j: usize = k + 2;
            let mut found = false;
            while j < n && !found
                invariant
                    k + 2 <= j <= n,
                    n == lines.len(),
                    ls == lines.deep_view(),
                    !found ==> region_end_from(ls, k + 2) == region_end_from(ls, j as int),
                    found ==> j + 1 < n && region_end_from(ls, k + 2) == Some(j as int),
                decreases n - j + (if found { 0int } else { 1int }),
            {
                proof {
                    assert(lines@[j as int]@ == ls[j as int]);
                    if j + 1 < n {
                        assert(lines@[j + 1]@ == ls[j + 1]);
                    }
                }
                let here = line_trim_eq(lines[j].as_str(), "@enduml") && j + 1 < n
                    && line_trim_eq(lines[j + 1].as_str(), "----");
                if here {
                    found = true;
                } else {
                    j = j + 1;
                }
            }
            if found {
                let mut inc: String = "plantuml::FILENAME.puml[]".to_owned();
                let closing_len = lines[j + 1].as_str().unicode_len();
                let ghost closing = ls[j + 1];
                proof {
                    assert(lines@[j + 1]@ == ls[j + 1]);
                }
                if closing_len > 0 && lines[j + 1].as_str().get_char(closing_len - 1) == '\n' {
                    inc.append("\n");
                    proof {
                        reveal_strlit("\n");
                        assert("\n"@ =~= seq!['\n']);
                        assert(inc@ =~= include_directive() + line_break_of(closing));
                    }
                } else {
                    proof {
                        assert(line_break_of(closing) =~= Seq::<char>::empty());
                        assert(inc@ =~= include_directive() + line_break_of(closing));
                    }
                }
                out_lines.push(inc);
                proof {
                    lemma_region_end_shift(ls, k as int, (k + 2) as int);
                    assert(region_end_from(tail, 2) == Some(j - k));
                    assert(tail.len() >= 2);
                    assert(tail[j - k + 1] == ls[j + 1]);
                    assert(replace_region_lines(tail) == seq![include_directive()
                        + line_break_of(closing)] + replace_region_lines(tail.skip(j - k + 2)));
                    assert(tail.skip(j - k + 2) =~= ls.skip(j + 2));
                    assert(out_lines.deep_view() =~= prev.push(include_directive()
                        + line_break_of(closing)));
                    assert(out_lines.deep_view() + replace_region_lines(ls.skip(j + 2)) =~= prev
                        + replace_region_lines(tail));
                }
                k = j + 2;
                replaced = true;
            } else {
                proof {
                    assert(region_end_from(ls, n as int) is None);
                    lemma_region_end_shift(ls, k as int, (k + 2) as int);
                    assert(region_end_from(tail, 2) is None);
                }
            }
        }
        if !replaced {
            out_lines.push(lines[k].clone());
            proof {
                assert(replace_region_lines(tail) == seq![ls[k as int]] + replace_region_lines(
                    tail.drop_first(),
                ));
                assert(out_lines.deep_view() =~= prev.push(ls[k as int]));
                assert(out_lines.deep_view() + replace_region_lines(ls.skip(k + 1)) =~= prev
                    + replace_region_lines(tail));
            }
            k = k + 1;
        }
    }
    proof {
        assert(ls.skip(k as int) =~= Seq::<Seq<char>>::empty());
        assert(replace_region_lines(ls.skip(k as int)) =~= Seq::<Seq<char>>::empty());
        assert(out_lines.deep_view() + replace_region_lines(ls.skip(k as int))
            =~= out_lines.deep_view());
    }
    concat_strings(&out_lines)
}

/// Shifting the search start commutes with dropping a prefix of the lines.
proof fn lemma_region_end_shift(ls: Seq<Seq<char>>, d: int, j: int)
    requires
        0 <= d <= j,
        d <= ls.len(),
    ensures
        match region_end_from(ls, j) {
            Some(e) => region_end_from(ls.skip(d), j - d) == Some(e - d),
            None => region_end_from(ls.skip(d), j - d) is None,
        },
    decreases ls.len() - j,
{
    if j >= ls.len() {
        assert(ls.skip(d).len() == ls.len() - d);
    } else {
        assert(ls.skip(d)[j - d] == ls[j]);
        if j + 1 < ls.len() {
            assert(ls.skip(d)[j - d + 1] == ls[j + 1]);
        }
        assert(ls.skip(d).len() == ls.len() - d);
        if !(line_trim_is(ls[j], "@enduml"@) && j + 1 < ls.len() && line_trim_is(
            ls[j + 1],
            "----"@,
        )) {
            lemma_region_end_shift(ls, d, j + 1);
        }
    }
}

/// A line whose trimmed text is nonempty and unpadded trims to itself.
proof fn lemma_trim_id(l: Seq<char>)
    requires
        l.len() > 0,
        !is_blank(l[0]),
        !is_blank(l.last()),
    ensures
        trim_spec(l) == l,
{
    assert(trim_start_spec(l) == l);
    assert(trim_end_spec(l) == l);
}

/// A line made of an unpadded marker and one line break trims to the
/// marker.
proof fn lemma_trim_lit_nl(l: Seq<char>, m: Seq<char>)
    requires
        l == m + seq!['\n'],
        m.len() > 0,
        !is_blank(m[0]),
        !is_blank(m.last()),
    ensures
        trim_spec(l) == m,
{
    assert(l[0] == m[0]);
    assert(trim_start_spec(l) == l);
    assert(l.last() == '\n');
    assert(l.drop_last() =~= m);
    assert(trim_end_spec(l) == trim_end_spec(m));
    assert(trim_end_spec(m) == m);
}

/// A line that trims to a marker begins with the marker after its leading
/// blanks.
proof fn lemma_trim_is_starts(l: Seq<char>, m: Seq<char>)
    requires
        line_trim_is(l, m),
    ensures
        line_starts(l, m),
{
    let x = trim_start_spec(l);
    crate::text::lemma_trim_end_is_prefix(x);
    assert(x.take(m.len() as int) =~= x.subrange(0, m.len() as int));
}

/// Lines that do not begin the diagram region leave the extracted region
/// unchanged when they are skipped.
proof fn lemma_region_skip_prefix(pre: Seq<Seq<char>>, rest: Seq<Seq<char>>)
    requires
        forall|i: int| 0 <= i < pre.len() ==> !line_starts(#[trigger] pre[i], "@startuml"@),
    ensures
        diagram_region_lines(pre + rest) == diagram_region_lines(rest),
    decreases pre.len(),
{
    if pre.len() == 0 {
        assert(pre + rest =~= rest);
    } else {
        assert((pre + rest)[0] == pre[0]);
        assert((pre + rest).drop_first() =~= pre.drop_first() + rest);
        lemma_region_skip_prefix(pre.drop_first(), rest);
    }
}

/// The diagram lines taken before the first end-marker line are exactly
/// the region body when it is followed by an end-marker line.
proof fn lemma_taken_until_end(d: Seq<Seq<char>>, rest: Seq<Seq<char>>)
    requires
        rest.len() > 0,
        line_starts(rest[0], "@enduml"@),
        forall|i: int| 0 <= i < d.len() ==> !line_starts(#[trigger] d[i], "@enduml"@),
    ensures
        taken_diagram_lines(d + rest) == d,
    decreases d.len(),
{
    if d.len() == 0 {
        assert(d + rest =~= rest);
        assert(taken_diagram_lines(rest) == Seq::<Seq<char>>::empty());
        assert(d =~= Seq::<Seq<char>>::empty());
    } else {
        assert((d + rest)[0] == d[0]);
        assert((d + rest).drop_first() =~= d.drop_first() + rest);
        lemma_taken_until_end(d.drop_first(), rest);
        assert(seq![d[0]] + d.drop_first() =~= d);
    }
}

/// Lines that do not open a fenced diagram region pass through the
/// replacement unchanged.
proof fn lemma_replace_skip_prefix(pre: Seq<Seq<char>>, rest: Seq<Seq<char>>)
    requires
        forall|i: int| 0 <= i < pre.len() ==> !line_trim_is(#[trigger] pre[i], "[plantuml]"@),
    ensures
        replace_region_lines(pre + rest) == pre + replace_region_lines(rest),
    decreases pre.len(),
{
    if pre.len() == 0 {
        assert(pre + rest =~= rest);
        assert(pre + replace_region_lines(rest) =~= replace_region_lines(rest));
    } else {
        let whole = pre + rest;
        assert(whole[0] == pre[0]);
        assert(whole.drop_first() =~= pre.drop_first() + rest);
        lemma_replace_skip_prefix(pre.drop_first(), rest);
        assert(replace_region_lines(whole) == seq![pre[0]] + (pre.drop_first()
            + replace_region_lines(rest)));
        assert(seq![pre[0]] + (pre.drop_first() + replace_region_lines(rest)) =~= pre
            + replace_region_lines(rest));
    }
}

/// The first region end at or after `j` is at `e` when nothing before `e`
/// qualifies and `e` does.
proof fn lemma_region_end_found(ls: Seq<Seq<char>>, j: int, e: int)
    requires
        0 <= j <= e,
        e + 1 < ls.len(),
        forall|i: int| j <= i < e ==> !line_trim_is(#[trigger] ls[i], "@enduml"@),
        line_trim_is(ls[e], "@enduml"@),
        line_trim_is(ls[e + 1], "----"@),
    ensures
        region_end_from(ls, j) == Some(e),
    decreases e - j,
{
    if j < e {
        lemma_region_end_found(ls, j + 1, e);
    }
}

/// The stripped lines that fence a diagram region, as the extraction
/// scanner sees them.
pub open spec fn stripped_diagram_block(d: Seq<Seq<char>>) -> Seq<Seq<char>> {
    seq!["[plantuml]"@] + seq!["----"@] + d + seq!["@enduml"@] + seq!["----"@]
}

/// The raw lines that fence a diagram region, line breaks kept.
pub open spec fn diagram_block(d: Seq<Seq<char>>) -> Seq<Seq<char>> {
    seq!["[plantuml]\n"@] + seq!["----\n"@] + d + seq!["@enduml\n"@] + seq!["----\n"@]
}

/// Extraction round trip: in a document whose lines are some prefix, one
/// fenced diagram region, and some suffix, the extraction collects
/// exactly the region's diagram lines, joined and closed by the
/// end-marker line. The prefix must not carry the start marker, and the
/// diagram lines must not carry the end marker; the first diagram line
/// carries the start marker, as the renderer's output always does.
pub proof fn lemma_extract_round_trip(
    s: Seq<char>,
    pre: Seq<Seq<char>>,
    d: Seq<Seq<char>>,
    post: Seq<Seq<char>>,
)
    requires
        split_lines(s) == pre + stripped_diagram_block(d) + post,
        d.len() > 0,
        line_starts(d[0], "@startuml"@),
        forall|i: int| 0 <= i < pre.len() ==> !line_starts(#[trigger] pre[i], "@startuml"@),
        forall|i: int| 0 <= i < d.len() ==> !line_starts(#[trigger] d[i], "@enduml"@),
    ensures
        extract_plantuml_spec(s) == join_sep(d, seq!['\n']) + "\n@enduml\n"@,
{
    reveal_strlit("[plantuml]");
    reveal_strlit("----");
    reveal_strlit("@enduml");
    reveal_strlit("@startuml");
    let pl = "[plantuml]"@;
    let dash = "----"@;
    let end = "@enduml"@;
    let sm = "@startuml"@;
    lemma_trim_id(pl);
    lemma_trim_id(dash);
    lemma_trim_id(end);
    assert(trim_start_spec(pl) == pl);
    assert(trim_start_spec(dash) == dash);
    assert(trim_start_spec(end) == end);
    assert(!starts_with_seq(pl, sm)) by {
        assert(pl[0] != sm[0]);
        if starts_with_seq(pl, sm) {
            assert(pl.subrange(0, 9)[0] == pl[0]);
        }
    }
    assert(!starts_with_seq(dash, sm)) by {
        assert(dash.len() < sm.len());
    }
    assert(line_starts(end, end)) by {
        assert(end.subrange(0, 7) =~= end);
    }
    let whole = split_lines(s);
    let bs = stripped_diagram_block(d) + post;
    assert(whole =~= pre + bs);
    lemma_region_skip_prefix(pre, bs);
    assert(diagram_region_lines(whole) == diagram_region_lines(bs));
    assert(bs[0] == pl);
    assert(!line_starts(pl, sm));
    assert(bs.len() > 0);
    assert(diagram_region_lines(bs) == diagram_region_lines(bs.drop_first()));
    let bs1 = bs.drop_first();
    let rest = seq![end] + seq![dash] + post;
    assert(bs1 =~= seq![dash] + (d + rest));
    assert(bs1[0] == dash);
    assert(!line_starts(dash, sm));
    assert(bs1.len() > 0);
    assert(diagram_region_lines(bs1) == diagram_region_lines(bs1.drop_first()));
    let bs2 = d + rest;
    assert(bs1.drop_first() =~= bs2);
    assert(bs2[0] == d[0]);
    assert(line_starts(bs2[0], sm));
    assert(bs2.len() > 0);
    assert(diagram_region_lines(bs2) == taken_diagram_lines(bs2));
    assert(rest[0] == end);
    lemma_taken_until_end(d, rest);
    assert(taken_diagram_lines(bs2) == d);
    assert(diagram_region_lines(split_lines(s)) == d);
}

/// Replacement round trip: in a document whose raw lines are some prefix,
/// one fenced diagram region, and some suffix, the replacement yields the
/// prefix, one include-directive line, and the suffix — character for
/// character, so everything outside the region is unchanged. The prefix
/// and suffix must not carry a `[plantuml]` line of their own, and the
/// diagram lines must not trim to the end marker.
pub proof fn lemma_replace_round_trip(
    s: Seq<char>,
    pre: Seq<Seq<char>>,
    d: Seq<Seq<char>>,
    post: Seq<Seq<char>>,
)
    requires
        raw_lines(s) == pre + diagram_block(d) + post,
        forall|i: int| 0 <= i < pre.len() ==> !line_trim_is(#[trigger] pre[i], "[plantuml]"@),
        forall|i: int| 0 <= i < d.len() ==> !line_trim_is(#[trigger] d[i], "@enduml"@),
        forall|i: int| 0 <= i < post.len() ==> !line_trim_is(#[trigger] post[i], "[plantuml]"@),
    ensures
        replace_region_lines(raw_lines(s)) == pre + seq![include_directive() + seq!['\n']]
            + post,
        s == concat_lines(pre) + concat_lines(diagram_block(d)) + concat_lines(post),
        replace_puml_spec(s) == concat_lines(pre) + (include_directive() + seq!['\n'])
            + concat_lines(post),
{
    reveal_strlit("[plantuml]");
    reveal_strlit("[plantuml]\n");
    reveal_strlit("----");
    reveal_strlit("----\n");
    reveal_strlit("@enduml");
    reveal_strlit("@enduml\n");
    let pl = "[plantuml]"@;
    let dash = "----"@;
    let end = "@enduml"@;
    assert("[plantuml]\n"@ =~= pl + seq!['\n']);
    assert("----\n"@ =~= dash + seq!['\n']);
    assert("@enduml\n"@ =~= end + seq!['\n']);
    lemma_trim_lit_nl("[plantuml]\n"@, pl);
    lemma_trim_lit_nl("----\n"@, dash);
    lemma_trim_lit_nl("@enduml\n"@, end);
    let whole = raw_lines(s);
    let bs = diagram_block(d) + post;
    assert(whole =~= pre + bs);
    lemma_replace_skip_prefix(pre, bs);
    assert(replace_region_lines(whole) == pre + replace_region_lines(bs));
    assert(bs[0] == "[plantuml]\n"@);
    assert(bs[1] == "----\n"@);
    assert(bs.len() == d.len() + 4 + post.len());
    let e = 2 + d.len() as int;
    assert(bs[e] == "@enduml\n"@);
    assert(bs[e + 1] == "----\n"@);
    assert(forall|i: int| 2 <= i < e ==> bs[i] == d[i - 2]);
    assert(forall|i: int| 2 <= i < e ==> !line_trim_is(#[trigger] bs[i], end));
    lemma_region_end_found(bs, 2, e);
    assert(line_break_of(bs[e + 1]) =~= seq!['\n']);
    assert(replace_region_lines(bs) == seq![include_directive() + seq!['\n']]
        + replace_region_lines(bs.skip(e + 2)));
    assert(bs.skip(e + 2) =~= post);
    lemma_replace_skip_prefix(post, Seq::empty());
    assert(post + Seq::<Seq<char>>::empty() =~= post);
    assert(replace_region_lines(Seq::<Seq<char>>::empty()) == Seq::<Seq<char>>::empty());
    assert(post + replace_region_lines(Seq::<Seq<char>>::empty()) =~= post);
    assert(replace_region_lines(post) == post);
    assert(replace_region_lines(whole) =~= pre + seq![include_directive() + seq!['\n']] + post);
    // The document and its replacement, as concatenations of the parts.
    lemma_concat_raw_lines(s);
    lemma_concat_lines_app(pre, bs);
    lemma_concat_lines_app(diagram_block(d), post);
    lemma_concat_lines_app(pre, seq![include_directive() + seq!['\n']] + post);
    lemma_concat_lines_app(seq![include_directive() + seq!['\n']], post);
    assert(seq![include_directive() + seq!['\n']].drop_first() =~= Seq::<Seq<char>>::empty());
    assert(seq![include_directive() + seq!['\n']][0] == include_directive() + seq!['\n']);
    assert(concat_lines(Seq::<Seq<char>>::empty()) == Seq::<char>::empty());
    assert(concat_lines(seq![include_directive() + seq!['\n']]) =~= include_directive()
        + seq!['\n']);
    assert(s =~= concat_lines(pre) + concat_lines(diagram_block(d)) + concat_lines(post));
    assert(replace_puml_spec(s) =~= concat_lines(pre) + (include_directive() + seq!['\n'])
        + concat_lines(post));
}

/// A document with no `[plantuml]` line holds no fenced diagram region
/// and is returned by the replacement unchanged.
pub proof fn lemma_replace_without_region(s: Seq<char>)
    requires
        forall|i: int|
            0 <= i < raw_lines(s).len() ==> !line_trim_is(
                #[trigger] raw_lines(s)[i],
                "[plantuml]"@,
            ),
    ensures
        replace_puml_spec(s) == s,
{
    lemma_replace_skip_prefix(raw_lines(s), Seq::empty());
    assert(raw_lines(s) + Seq::<Seq<char>>::empty() =~= raw_lines(s));
    assert(replace_region_lines(Seq::<Seq<char>>::empty()) == Seq::<Seq<char>>::empty());
    assert(raw_lines(s) + replace_region_lines(Seq::<Seq<char>>::empty()) =~= raw_lines(s));
    assert(replace_region_lines(raw_lines(s)) == raw_lines(s));
    lemma_concat_raw_lines(s);
}

/// In the replaced document the include directive begins exactly one
/// line, as long as neither the prefix nor the suffix holds such a line
/// of its own: substituting the placeholder thus references exactly one
/// diagram file.
pub proof fn lemma_single_reference(
    pre: Seq<Seq<char>>,
    line: Seq<char>,
    post: Seq<Seq<char>>,
)
    requires
        starts_with_seq(line, include_directive()),
        forall|i: int|
            0 <= i < pre.len() ==> !starts_with_seq(#[trigger] pre[i], include_directive()),
        forall|i: int|
            0 <= i < post.len() ==> !starts_with_seq(#[trigger] post[i], include_directive()),
    ensures
        starts_with_seq((pre + seq![line] + post)[pre.len() as int], include_directive()),
        forall|i: int|
            0 <= i < (pre + seq![line] + post).len() && i != pre.len() ==> !starts_with_seq(
                (pre + seq![line] + post)[i],
                include_directive(),
            ),
{
    let out = pre + seq![line] + post;
    assert(out[pre.len() as int] == line);
    assert(forall|i: int| 0 <= i < pre.len() ==> out[i] == pre[i]);
    assert(forall|i: int| pre.len() < i < out.len() ==> out[i] == post[i - pre.len() - 1]);
}

/// One Markdown subsection per extracted method: a level-three heading
/// with the method's rendered signature, then its documentation.
pub open spec fn method_sections(ms: Seq<Method>) -> Seq<char>
    decreases ms.len(),
{
    if ms.len() == 0 {
        Seq::empty()
    } else {
        "\n### "@ + ms[0].name@ + "\n"@ + ms[0].documentation@ + "\n"@ + method_sections(
            ms.drop_first(),
        )
    }
}

/// The method subsections, from signature and documentation pairs.
pub open spec fn method_sections_pairs(ps: Seq<(Seq<char>, Seq<char>)>) -> Seq<char>
    decreases ps.len(),
{
    if ps.len() == 0 {
        Seq::empty()
    } else {
        "\n### "@ + ps[0].0 + "\n"@ + ps[0].1 + "\n"@ + method_sections_pairs(ps.drop_first())
    }
}

proof fn lemma_method_sections_from_pairs(ms: Seq<Method>, ps: Seq<(Seq<char>, Seq<char>)>)
    requires
        ms.len() == ps.len(),
        forall|i: int|
            0 <= i < ms.len() ==> (#[trigger] ms[i]).name@ == ps[i].0 && ms[i].documentation@
                == ps[i].1,
    ensures
        method_sections(ms) == method_sections_pairs(ps),
    decreases ms.len(),
{
    if ms.len() > 0 {
        assert(ms[0].name@ == ps[0].0);
        assert(forall|i: int|
            0 <= i < ms.drop_first().len() ==> #[trigger] ms.drop_first()[i] == ms[i + 1]);
        assert(forall|i: int|
            0 <= i < ps.drop_first().len() ==> #[trigger] ps.drop_first()[i] == ps[i + 1]);
        lemma_method_sections_from_pairs(ms.drop_first(), ps.drop_first());
    }
}

/// The assembled Markdown document: a heading with the class name, the
/// fenced diagram block, the class documentation, and one subsection per
/// method. Fields appear only inside the diagram text.
pub open spec fn assembled_markdown(c: &Class) -> Seq<char> {
    "## "@ + c.name@ + "\n"@ + "```plantuml\n"@ + c.plantuml@ + "\n```\n"@ + "\n"@
        + c.documentation@ + "\n"@ + method_sections(c.methods@)
}

/// The assembled Markdown document of the source text `c`: the extracted
/// record, with the rendered diagram attached, under the fixed template.
pub open spec fn assembled_text(c: Seq<char>) -> Seq<char> {
    "## "@ + last_struct_of(c).0 + "\n"@ + "```plantuml\n"@ + puml_of(c) + "\n```\n"@ + "\n"@
        + struct_documentation_of(c) + "\n"@ + method_sections_pairs(method_pairs_of(c))
}

proof fn lemma_method_sections_push(ms: Seq<Method>, m: Method)
    ensures
        method_sections(ms.push(m)) == method_sections(ms) + ("\n### "@ + m.name@ + "\n"@
            + m.documentation@ + "\n"@),
    decreases ms.len(),
{
    if ms.len() == 0 {
        assert(ms.push(m).drop_first() =~= Seq::<Method>::empty());
        assert(ms.push(m)[0] == m);
        assert(method_sections(Seq::<Method>::empty()) == Seq::<char>::empty());
        assert(method_sections(ms.push(m)) == "\n### "@ + m.name@ + "\n"@ + m.documentation@
            + "\n"@ + method_sections(ms.push(m).drop_first()));
        assert(method_sections(ms.push(m)) =~= method_sections(ms) + ("\n### "@ + m.name@
            + "\n"@ + m.documentation@ + "\n"@));
    } else {
        lemma_method_sections_push(ms.drop_first(), m);
        assert(ms.push(m).drop_first() =~= ms.drop_first().push(m));
        assert(ms.push(m)[0] == ms[0]);
        assert(method_sections(ms.push(m)) =~= method_sections(ms) + ("\n### "@ + m.name@
            + "\n"@ + m.documentation@ + "\n"@));
    }
}

/// Renders a class record as the assembled Markdown document.
pub fn assemble_markdown(class: &Class) -> (r: String)
    ensures
        r@ == assembled_markdown(class),
{
    let mut out = String::new();
    out.append("## ");
    out.append(class.name.as_str());
    out.append("\n");
    out.append("```plantuml\n");
    out.append(class.plantuml.as_str());
    out.append("\n```\n");
    out.append("\n");
    out.append(class.documentation.as_str());
    out.append("\n");
    let ghost header = out@;
    let mut k: usize = 0;
    proof {
        assert(class.methods@.take(0) =~= Seq::<Method>::empty());
    }
    while k < class.methods.len()
        invariant
            k <= class.methods.len(),
            out@ == header + method_sections(class.methods@.take(k as int)),
        decreases class.methods.len() - k,
    {
        out.append("\n### ");
        out.append(class.methods[k].name.as_str());
        out.append("\n");
        out.append(class.methods[k].documentation.as_str());
        out.append("\n");
        proof {
            lemma_method_sections_push(class.methods@.take(k as int), class.methods@[k as int]);
            assert(class.methods@.take(k + 1) =~= class.methods@.take(k as int).push(
                class.methods@[k as int],
            ));
        }
        k = k + 1;
    }
    proof {
        assert(class.methods@.take(class.methods@.len() as int) =~= class.methods@);
        assert(out@ =~= assembled_markdown(class));
    }
    out
}

/// With no documentation and no methods, the assembled Markdown is the
/// heading line and the fenced diagram block, with no body text after
/// them.
pub proof fn lemma_markdown_without_docs(c: &Class)
    requires
        c.documentation@ == Seq::<char>::empty(),
        c.methods@.len() == 0,
    ensures
        assembled_markdown(c) == "## "@ + c.name@ + "\n```plantuml\n"@ + c.plantuml@
            + "\n```\n\n\n"@,
{
    reveal_strlit("\n");
    reveal_strlit("```plantuml\n");
    reveal_strlit("\n```plantuml\n");
    reveal_strlit("\n```\n");
    reveal_strlit("\n```\n\n\n");
    assert(method_sections(c.methods@) == Seq::<char>::empty());
    assert(assembled_markdown(c) =~= "## "@ + c.name@ + "\n```plantuml\n"@ + c.plantuml@
        + "\n```\n\n\n"@);
}

/// Completing a conversion is a function of the converter's outcome
/// alone: two conversions for which the converter returned the same text
/// produce identical outputs, in every mode. (That the converter itself
/// answers the same text twice for the same input is a property of the
/// outside process, assumed of it and not provable here.)
pub proof fn lemma_conversion_deterministic(t1: Seq<char>, t2: Seq<char>)
    requires
        t1 == t2,
    ensures
        normalized_asciidoc(t1) == normalized_asciidoc(t2),
        replace_puml_spec(normalized_asciidoc(t1)) == replace_puml_spec(normalized_asciidoc(t2)),
        extract_plantuml_spec(normalized_asciidoc(t1)) == extract_plantuml_spec(
            normalized_asciidoc(t2),
        ),
{
}

/// Parses the input and assembles the full Markdown document from the
/// rendered diagram and the extracted documentation.
pub fn process_input(input: &String) -> (r: String)
    requires
        syn_accepts(input@),
    ensures
        r@ == assembled_text(input@),
{
    let plantuml_parser = PlantumlParser { raw_rust_code: input.clone() };
    let doc_parser = RustDocParser { raw_rust_code: input.clone() };
    let plantuml = plantuml_parser.parse_code_to_string();
    let mut documentation = doc_parser.parse_code_doc();
    documentation.plantuml = plantuml;
    let r = assemble_markdown(&documentation);
    proof {
        lemma_method_sections_from_pairs(documentation.methods@, method_pairs_of(input@));
        assert(r@ =~= assembled_text(input@));
    }
    r
}

/// Parses the input Rust code to a PlantUML string representation.
pub fn parse_input_to_puml_string(input: &String) -> (r: String)
    requires
        syn_accepts(input@),
    ensures
        r@ == puml_of(input@),
        diagram_shape(r@),
{
    let plantuml_parser = PlantumlParser { raw_rust_code: input.clone() };
    plantuml_parser.parse_code_to_string()
}

/// Parses Rust documentation from the input code to a Markdown string
/// representation.
pub fn parse_input_to_markdown_string(input: &String) -> (r: String)
    requires
        syn_accepts(input@),
    ensures
        r@ == extraction_text(input@),
{
    let markdown_parser = RustDocParser { raw_rust_code: input.clone() };
    markdown_parser.parse_code_doc_to_markdown_string()
}

/// The rendered outputs of one run, keyed by output format. Exactly the
/// combinations that the pipeline produces exist: one single-format
/// output, or the combined AsciiDoc document with its split-out diagram.
pub enum OutputBundle {
    Markdown(String),
    Asciidoc(String),
    Plantuml(String),
    AsciidocPlantuml { asciidoc: String, plantuml: String },
}

/// The text that the bundle holds for an output format, if any.
pub open spec fn bundle_entry(b: &OutputBundle, f: &OutputFormat) -> Option<Seq<char>> {
    match b {
        OutputBundle::Markdown(s) => if f is Markdown {
            Some(s@)
        } else {
            None
        },
        OutputBundle::Asciidoc(s) => if f is Asciidoc {
            Some(s@)
        } else {
            None
        },
        OutputBundle::Plantuml(s) => if f is Plantuml {
            Some(s@)
        } else {
            None
        },
        OutputBundle::AsciidocPlantuml { asciidoc, plantuml } => if f is Asciidoc {
            Some(asciidoc@)
        } else if f is AsciidocPlantuml {
            Some(plantuml@)
        } else {
            None
        },
    }
}

impl OutputBundle {
    /// True when the bundle holds a text for the given format.
    pub fn contains_key(&self, f: &OutputFormat) -> (b: bool)
        ensures
            b == (bundle_entry(self, f) is Some),
    {
        match self.get(f) {
            Some(_) => true,
            None => false,
        }
    }

    /// The text the bundle holds for the given format, if any.
    pub fn get(&self, f: &OutputFormat) -> (r: Option<&String>)
        ensures
            match r {
                Some(s) => bundle_entry(self, f) == Some(s@),
                None => bundle_entry(self, f) is None,
            },
    {
        match self {
            OutputBundle::Markdown(s) => match f {
                OutputFormat::Markdown => Some(s),
                _ => None,
            },
            OutputBundle::Asciidoc(s) => match f {
                OutputFormat::Asciidoc => Some(s),
                _ => None,
            },
            OutputBundle::Plantuml(s) => match f {
                OutputFormat::Plantuml => Some(s),
                _ => None,
            },
            OutputBundle::AsciidocPlantuml { asciidoc, plantuml } => match f {
                OutputFormat::Asciidoc => Some(asciidoc),
                OutputFormat::AsciidocPlantuml => Some(plantuml),
                _ => None,
            },
        }
    }
}

/// Returns true if no output-limiting flag is set; checks every such
/// flag and returns false when any of them is set.
pub fn is_no_only_flag_set(args: &Cli) -> (r: bool)
    ensures
        r == (!args.only_flags.plantuml_only && !args.only_flags.markdown_only),
{
    if args.only_flags.plantuml_only || args.only_flags.markdown_only {
        return false;
    }
    true
}

/// Produces the single output that the active output-limiting flag asks
/// for: the raw diagram, or the extraction-only Markdown.
pub fn process_input_only_flags(input: &String, args: &Cli) -> (r: OutputBundle)
    requires
        syn_accepts(input@),
        args.only_flags.plantuml_only || args.only_flags.markdown_only,
    ensures
        args.only_flags.plantuml_only ==> (r matches OutputBundle::Plantuml(d) && d@ == puml_of(
            input@,
        ) && diagram_shape(d@)),
        !args.only_flags.plantuml_only ==> (r matches OutputBundle::Markdown(m) && m@
            == extraction_text(input@)),
{
    if args.only_flags.plantuml_only {
        let plantuml_string = parse_input_to_puml_string(input);
        OutputBundle::Plantuml(plantuml_string)
    } else {
        let markdown_string = parse_input_to_markdown_string(input);
        OutputBundle::Markdown(markdown_string)
    }
}

/// A conversion still to run, and what to build from its outcome.
pub struct PendingConversion {
    /// The conversion request for the outside converter.
    pub conversion: MarkdownConversion,
    /// Whether the diagram is split out of the converted document into an
    /// output of its own.
    pub split_diagram: bool,
}

impl PendingConversion {
    /// Builds the run's outputs from the converter's outcome: on success
    /// the normalized AsciiDoc text, with the diagram split out and
    /// replaced by the include directive when the combined mode asked for
    /// it; on failure the conversion error.
    pub fn finish(self, converted: Result<String, String>) -> (r: Result<
        OutputBundle,
        ConvertError,
    >)
        ensures
            (converted matches Err(e) ==> (r matches Err(c) && c.message@ == e@)),
            (converted matches Ok(t) ==> {
                &&& !self.split_diagram ==> (r matches Ok(b) && (b
                    matches OutputBundle::Asciidoc(a) && a@ == normalized_asciidoc(t@)))
                &&& self.split_diagram ==> (r matches Ok(b) && (b
                    matches OutputBundle::AsciidocPlantuml { asciidoc, plantuml }
                    && asciidoc@ == replace_puml_spec(normalized_asciidoc(t@))
                    && plantuml@ == extract_plantuml_spec(normalized_asciidoc(t@))))
            }),
    {
        let split = self.split_diagram;
        match self.conversion.finish(converted) {
            Err(e) => Err(e),
            Ok(t) => {
                if split {
                    let plantuml_code = extract_plantuml_from_asciidoc(t.as_str());
                    let asciidoc = replace_puml_with_include(t.as_str());
                    Ok(OutputBundle::AsciidocPlantuml { asciidoc, plantuml: plantuml_code })
                } else {
                    Ok(OutputBundle::Asciidoc(t))
                }
            },
        }
    }
}

/// What one run of the pipeline produced: finished outputs, or a pending
/// Markdown-to-AsciiDoc conversion that the caller must run and finish.
pub enum StartOutcome {
    Done(OutputBundle),
    NeedsConversion(PendingConversion),
}

/// What `start` promises for each combination of flags and format, for
/// the source text `c`.
pub open spec fn start_post(args: &Cli, c: Seq<char>, r: &StartOutcome) -> bool {
    &&& args.only_flags.plantuml_only ==> (r matches StartOutcome::Done(b) && (b
        matches OutputBundle::Plantuml(d) && d@ == puml_of(c) && diagram_shape(d@)))
    &&& !args.only_flags.plantuml_only && args.only_flags.markdown_only ==> (r
        matches StartOutcome::Done(b) && (b matches OutputBundle::Markdown(m) && m@
        == extraction_text(c)))
    &&& !args.only_flags.plantuml_only && !args.only_flags.markdown_only && args.format
        is Markdown ==> (r matches StartOutcome::Done(b) && (b matches OutputBundle::Markdown(m)
        && m@ == assembled_text(c)))
    &&& !args.only_flags.plantuml_only && !args.only_flags.markdown_only && !(args.format
        is Markdown) ==> (r matches StartOutcome::NeedsConversion(p) && p.conversion.markdown@
        == assembled_text(c) && p.split_diagram == (args.format is AsciidocPlantuml)
        && p.conversion.converter_path@ == "pandoc"@ && p.conversion.input_format is Markdown
        && p.conversion.output_format is Asciidoc)
}

/// Processing handles one run of the pipeline for the given arguments.
pub struct Processing {
    pub args: Cli,
}

impl Processing {
    /// Processes the provided input based on the arguments contained
    /// within the struct: the raw diagram or the extraction-only Markdown
    /// under an output-limiting flag; otherwise the assembled Markdown
    /// document, returned directly in Markdown mode and handed back as a
    /// pending conversion for the AsciiDoc modes.
    pub fn start(&self, input: &String) -> (r: StartOutcome)
        requires
            syn_accepts(input@),
        ensures
            start_post(&self.args, input@, &r),
    {
        let markdown_output = process_input(input);
        if is_no_only_flag_set(&self.args) {
            if self.args.format == OutputFormat::Markdown {
                StartOutcome::Done(OutputBundle::Markdown(markdown_output))
            } else {
                let ascii_doc_parser = AsciidocParser::new(None);
                let conversion = ascii_doc_parser.parse_from_markdown(markdown_output.as_str());
                StartOutcome::NeedsConversion(
                    PendingConversion {
                        conversion,
                        split_diagram: self.args.format == OutputFormat::AsciidocPlantuml,
                    },
                )
            }
        } else {
            StartOutcome::Done(process_input_only_flags(input, &self.args))
        }
    }

    /// Tests the input first: `start` on valid Rust source syntax, and
    /// the parser's error message otherwise.
    pub fn try_start(&self, input: &String) -> (r: Result<StartOutcome, String>)
        ensures
            r is Ok <==> syn_accepts(input@),
            r matches Ok(o) ==> start_post(&self.args, input@, &o),
            r matches Err(e) ==> e@ == parse_error_of(input@),
    {
        match parse_check(input.as_str()) {
            Ok(()) => Ok(self.start(input)),
            Err(e) => Err(e),
        }
    }
}

} // verus!
