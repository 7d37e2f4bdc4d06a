//! Extracts structure, field and method doc comments from Rust source
//! text into a [`Class`] record, and renders that record as Markdown.
//! The raw names, attribute pairs and parameter pairs come from the
//! trusted parser boundary as functions of the source text; every rule —
//! which attribute is a doc comment, which structure provides the record,
//! trimming, joining and signature rendering — is verified here.

use vstd::prelude::*;
use vstd::string::StringExecFns;

use crate::model::{Class, Method};
use crate::syntax::{
    method_attrs_of, method_attrs_raw, method_names_of, method_names_raw, method_params_of,
    method_params_raw, struct_field_attrs_of, struct_field_attrs_raw, struct_field_names_of,
    struct_field_names_raw, structs_of, structs_raw, syn_accepts,
};
use crate::text::{
    contains_seq, find_at, join_sep, join_with, lemma_contains_of_match, lemma_find_at_bounds,
    trim_spec, trim_str,
};

verus! {

/// The doc-comment lines of one item: each line trimmed, each followed by
/// a line break.
pub open spec fn joined_doc_lines(lines: Seq<Seq<char>>) -> Seq<char>
    decreases lines.len(),
{
    if lines.len() == 0 {
        Seq::empty()
    } else {
        trim_spec(lines[0]) + seq!['\n'] + joined_doc_lines(lines.drop_first())
    }
}

/// A structure's documentation: its joined doc-comment lines followed by
/// one more line break (one blank line), or empty when it has none.
pub open spec fn struct_documentation_spec(lines: Seq<Seq<char>>) -> Seq<char> {
    if lines.len() == 0 {
        Seq::empty()
    } else {
        joined_doc_lines(lines) + seq!['\n']
    }
}

/// The values of the `doc` attributes among the given attribute pairs, in
/// order: the item's doc-comment lines.
pub open spec fn doc_values(pairs: Seq<(Seq<char>, Seq<char>)>) -> Seq<Seq<char>>
    decreases pairs.len(),
{
    if pairs.len() == 0 {
        Seq::empty()
    } else if pairs[0].0 == "doc"@ {
        seq![pairs[0].1] + doc_values(pairs.drop_first())
    } else {
        doc_values(pairs.drop_first())
    }
}

/// Each parameter pair rendered as `name: Type`.
pub open spec fn param_texts(ps: Seq<(Seq<char>, Seq<char>)>) -> Seq<Seq<char>>
    decreases ps.len(),
{
    if ps.len() == 0 {
        Seq::empty()
    } else {
        seq![ps[0].0 + ": "@ + ps[0].1] + param_texts(ps.drop_first())
    }
}

/// A rendered method signature: the name, then the parameters joined with
/// a comma and a space, in parentheses.
pub open spec fn method_signature_spec(name: Seq<char>, params: Seq<Seq<char>>) -> Seq<char> {
    name + "("@ + join_sep(params, ", "@) + ")"@
}

/// The structure that provides the record: the last one seen, or an
/// empty name with no attributes when the text defines none.
pub open spec fn last_struct_of(c: Seq<char>) -> (Seq<char>, Seq<(Seq<char>, Seq<char>)>) {
    if structs_of(c).len() == 0 {
        (Seq::<char>::empty(), Seq::<(Seq<char>, Seq<char>)>::empty())
    } else {
        structs_of(c).last()
    }
}

/// The field identifiers of the structure that provides the record.
pub open spec fn last_struct_field_names(c: Seq<char>) -> Seq<Seq<char>> {
    if struct_field_names_of(c).len() == 0 {
        Seq::empty()
    } else {
        struct_field_names_of(c).last()
    }
}

/// The per-field attribute pairs of the structure that provides the
/// record.
pub open spec fn last_struct_field_attrs(c: Seq<char>) -> Seq<Seq<(Seq<char>, Seq<char>)>> {
    if struct_field_attrs_of(c).len() == 0 {
        Seq::empty()
    } else {
        struct_field_attrs_of(c).last()
    }
}

/// The documentation text of the record: the trimmed, joined doc-comment
/// lines of the providing structure, with the one trailing blank line.
pub open spec fn struct_documentation_of(c: Seq<char>) -> Seq<char> {
    struct_documentation_spec(doc_values(last_struct_of(c).1))
}

/// Per extracted method, its rendered signature and its documentation.
pub open spec fn method_pairs_of(c: Seq<char>) -> Seq<(Seq<char>, Seq<char>)> {
    Seq::new(
        method_names_of(c).len(),
        |i: int|
            (
                method_signature_spec(method_names_of(c)[i], param_texts(method_params_of(c)[i])),
                joined_doc_lines(doc_values(method_attrs_of(c)[i])),
            ),
    )
}

/// Exactly what the extractor returns for the source text `c`: the last
/// structure's name and documentation, one item per named field of that
/// structure, and one item per inherent method, all in order.
pub open spec fn parse_code_doc_post(c: Seq<char>, r: &Class) -> bool {
    &&& r.plantuml@ == Seq::<char>::empty()
    &&& r.name@ == last_struct_of(c).0
    &&& r.documentation@ == struct_documentation_of(c)
    &&& r.fields@.len() == last_struct_field_names(c).len()
    &&& forall|i: int|
        0 <= i < r.fields@.len() ==> (#[trigger] r.fields@[i]).name@ == last_struct_field_names(
            c,
        )[i] && r.fields@[i].documentation@ == joined_doc_lines(
            doc_values(last_struct_field_attrs(c)[i]),
        )
    &&& r.methods@.len() == method_pairs_of(c).len()
    &&& forall|i: int|
        0 <= i < r.methods@.len() ==> (#[trigger] r.methods@[i]).name@ == method_pairs_of(c)[i].0
            && r.methods@[i].documentation@ == method_pairs_of(c)[i].1
}

/// The Markdown of the extraction-only mode: a heading with the class
/// name, a blank line, and the class documentation.
pub open spec fn extraction_markdown(name: Seq<char>, doc: Seq<char>) -> Seq<char> {
    "## "@ + name + "\n\n"@ + doc
}

/// The extraction-only Markdown of the source text `c`.
pub open spec fn extraction_text(c: Seq<char>) -> Seq<char> {
    extraction_markdown(last_struct_of(c).0, struct_documentation_of(c))
}

/// A structure with zero doc-comment lines has the empty string as its
/// documentation.
pub proof fn lemma_no_doc_lines_empty_documentation(lines: Seq<Seq<char>>)
    requires
        lines.len() == 0,
    ensures
        struct_documentation_spec(lines) == Seq::<char>::empty(),
{
}

/// The joined doc-comment lines of at least one line end in a line break.
pub proof fn lemma_joined_doc_lines_ends_nl(lines: Seq<Seq<char>>)
    requires
        lines.len() > 0,
    ensures
        joined_doc_lines(lines).len() >= 1,
        joined_doc_lines(lines).last() == '\n',
    decreases lines.len(),
{
    if lines.len() == 1 {
        assert(joined_doc_lines(lines.drop_first()) == Seq::<char>::empty());
    } else {
        lemma_joined_doc_lines_ends_nl(lines.drop_first());
    }
}

/// A structure's documentation with at least one doc-comment line ends in
/// exactly one blank line: its last two characters are line breaks.
pub proof fn lemma_struct_doc_trailing_blank_line(lines: Seq<Seq<char>>)
    requires
        lines.len() > 0,
    ensures
        struct_documentation_spec(lines).len() >= 2,
        struct_documentation_spec(lines).last() == '\n',
        struct_documentation_spec(lines)[struct_documentation_spec(lines).len() - 2] == '\n',
{
    lemma_joined_doc_lines_ends_nl(lines);
}

/// The extraction-only Markdown always contains the heading marker, and
/// never contains the diagram start marker as long as neither the name
/// nor the documentation contains it themselves (a doc comment is free to
/// quote the marker, so those inputs are left out).
pub proof fn lemma_extraction_markdown_markers(name: Seq<char>, doc: Seq<char>)
    requires
        !contains_seq(name, "@startuml"@),
        !contains_seq(doc, "@startuml"@),
    ensures
        contains_seq(extraction_markdown(name, doc), "## "@),
        !contains_seq(extraction_markdown(name, doc), "@startuml"@),
{
    reveal_strlit("## ");
    reveal_strlit("\n\n");
    reveal_strlit("@startuml");
    let m = extraction_markdown(name, doc);
    let p = "@startuml"@;
    let n = name.len() as int;
    assert(m.subrange(0, 3) =~= "## "@);
    lemma_contains_of_match(m, "## "@, 0);
    if contains_seq(m, p) {
        lemma_find_at_bounds(m, p, 0);
        let k = find_at(m, p, 0)->Some_0;
        assert(m.subrange(k, k + 9) == p);
        assert(forall|t: int| 0 <= t < 9 ==> #[trigger] p[t] == m.subrange(k, k + 9)[t]);
        if k < 3 {
            assert(p[0] == m[k]);
            assert(false);
        } else if k + 9 <= 3 + n {
            assert(name.subrange(k - 3, k + 6) =~= m.subrange(k, k + 9));
            lemma_contains_of_match(name, p, k - 3);
            assert(false);
        } else if k < 5 + n {
            let t = if k >= 3 + n {
                k
            } else {
                3 + n
            };
            assert(3 + n <= t < 5 + n);
            assert(k <= t < k + 9);
            assert(m[t] == '\n');
            assert(p[t - k] == m[t]);
            assert(p[t - k] != '\n');
            assert(false);
        } else {
            assert(doc.subrange(k - 5 - n, k + 4 - n) =~= m.subrange(k, k + 9));
            lemma_contains_of_match(doc, p, k - 5 - n);
            assert(false);
        }
    }
}

proof fn lemma_joined_doc_lines_push(ls: Seq<Seq<char>>, x: Seq<char>)
    ensures
        joined_doc_lines(ls.push(x)) == joined_doc_lines(ls) + trim_spec(x) + seq!['\n'],
    decreases ls.len(),
{
    if ls.len() == 0 {
        let single = ls.push(x);
        assert(single.len() == 1);
        assert(single[0] == x);
        assert(single.drop_first() =~= Seq::<Seq<char>>::empty());
        assert(joined_doc_lines(single.drop_first()) == Seq::<char>::empty());
        assert(joined_doc_lines(single) == trim_spec(x) + seq!['\n'] + joined_doc_lines(
            single.drop_first(),
        ));
        assert(joined_doc_lines(single) =~= joined_doc_lines(ls) + trim_spec(x) + seq!['\n']);
    } else {
        lemma_joined_doc_lines_push(ls.drop_first(), x);
        assert(ls.push(x).drop_first() =~= ls.drop_first().push(x));
        assert(ls.push(x)[0] == ls[0]);
        assert(joined_doc_lines(ls.push(x)) =~= joined_doc_lines(ls) + trim_spec(x)
            + seq!['\n']);
    }
}

proof fn lemma_doc_values_push(ps: Seq<(Seq<char>, Seq<char>)>, p: (Seq<char>, Seq<char>))
    ensures
        doc_values(ps.push(p)) == doc_values(ps) + (if p.0 == "doc"@ {
            seq![p.1]
        } else {
            Seq::<Seq<char>>::empty()
        }),
    decreases ps.len(),
{
    let tail: Seq<Seq<char>> = if p.0 == "doc"@ {
        seq![p.1]
    } else {
        Seq::<Seq<char>>::empty()
    };
    if ps.len() == 0 {
        assert(ps.push(p).drop_first() =~= Seq::<(Seq<char>, Seq<char>)>::empty());
        assert(ps.push(p)[0] == p);
        assert(doc_values(Seq::<(Seq<char>, Seq<char>)>::empty()) == Seq::<Seq<char>>::empty());
        assert(doc_values(ps.push(p)) =~= doc_values(ps) + tail);
    } else {
        lemma_doc_values_push(ps.drop_first(), p);
        assert(ps.push(p).drop_first() =~= ps.drop_first().push(p));
        assert(ps.push(p)[0] == ps[0]);
        assert(doc_values(ps.push(p)) =~= doc_values(ps) + tail);
    }
}

proof fn lemma_param_texts_push(ps: Seq<(Seq<char>, Seq<char>)>, p: (Seq<char>, Seq<char>))
    ensures
        param_texts(ps.push(p)) == param_texts(ps) + seq![p.0 + ": "@ + p.1],
    decreases ps.len(),
{
    if ps.len() == 0 {
        assert(ps.push(p).drop_first() =~= Seq::<(Seq<char>, Seq<char>)>::empty());
        assert(ps.push(p)[0] == p);
        assert(param_texts(Seq::<(Seq<char>, Seq<char>)>::empty()) == Seq::<Seq<char>>::empty());
        assert(param_texts(ps.push(p)) =~= param_texts(ps) + seq![p.0 + ": "@ + p.1]);
    } else {
        lemma_param_texts_push(ps.drop_first(), p);
        assert(ps.push(p).drop_first() =~= ps.drop_first().push(p));
        assert(ps.push(p)[0] == ps[0]);
        assert(param_texts(ps.push(p)) =~= param_texts(ps) + seq![p.0 + ": "@ + p.1]);
    }
}

/// Joins doc-comment lines: each line trimmed, each followed by a line
/// break, with no extra trailing blank line.
pub fn build_doc_text(lines: &Vec<String>) -> (r: String)
    ensures
        r@ == joined_doc_lines(lines.deep_view()),
{
    let mut out = String::new();
    let mut k: usize = 0;
    proof {
        assert(lines.deep_view().take(0) =~= Seq::<Seq<char>>::empty());
    }
    while k < lines.len()
        invariant
            k <= lines.len(),
            out@ == joined_doc_lines(lines.deep_view().take(k as int)),
        decreases lines.len() - k,
    {
        let t = trim_str(lines[k].as_str());
        out.append(t.as_str());
        out.append("\n");
        proof {
            reveal_strlit("\n");
            assert("\n"@ =~= seq!['\n']);
            assert(lines.deep_view()[k as int] == lines@[k as int]@);
            lemma_joined_doc_lines_push(
                lines.deep_view().take(k as int),
                lines.deep_view()[k as int],
            );
            assert(lines.deep_view().take(k + 1) =~= lines.deep_view().take(k as int).push(
                lines.deep_view()[k as int],
            ));
        }
        k = k + 1;
    }
    proof {
        assert(lines.deep_view().take(lines.len() as int) =~= lines.deep_view());
    }
    out
}

/// Joins a structure's doc-comment lines and appends the one trailing
/// blank line; no doc-comment lines give the empty string.
pub fn build_struct_documentation(lines: &Vec<String>) -> (r: String)
    ensures
        r@ == struct_documentation_spec(lines.deep_view()),
{
    if lines.len() == 0 {
        let r = String::new();
        proof {
            assert(lines.deep_view().len() == 0);
        }
        return r;
    }
    let mut out = build_doc_text(lines);
    out.append("\n");
    proof {
        reveal_strlit("\n");
        assert("\n"@ =~= seq!['\n']);
        assert(lines.deep_view().len() > 0);
    }
    out
}

/// Renders a method signature from the method name and its formatted
/// parameters.
pub fn build_method_signature(name: &str, params: &Vec<String>) -> (r: String)
    ensures
        r@ == method_signature_spec(name@, params.deep_view()),
{
    let mut out = String::new();
    out.append(name);
    out.append("(");
    let joined = join_with(params, ", ");
    out.append(joined.as_str());
    out.append(")");
    proof {
        assert(out@ =~= method_signature_spec(name@, params.deep_view()));
    }
    out
}

/// The doc-comment lines among the given attribute pairs: the values of
/// the `doc` attributes, in order.
pub fn collect_doc_lines(pairs: &Vec<(String, String)>) -> (r: Vec<String>)
    ensures
        r.deep_view() == doc_values(pairs.deep_view()),
{
    let doc_key: String = "doc".to_owned();
    let mut lines: Vec<String> = Vec::new();
    let mut k: usize = 0;
    proof {
        assert(pairs.deep_view().take(0) =~= Seq::<(Seq<char>, Seq<char>)>::empty());
        assert(lines.deep_view() =~= doc_values(pairs.deep_view().take(0)));
    }
    while k < pairs.len()
        invariant
            k <= pairs.len(),
            doc_key@ == "doc"@,
            lines.deep_view() == doc_values(pairs.deep_view().take(k as int)),
        decreases pairs.len() - k,
    {
        let ghost prev = lines.deep_view();
        let ghost prev_v = lines@;
        proof {
            assert(pairs.deep_view()[k as int] == (pairs@[k as int].0@, pairs@[k as int].1@));
            lemma_doc_values_push(pairs.deep_view().take(k as int), pairs.deep_view()[k as int]);
            assert(pairs.deep_view().take(k + 1) =~= pairs.deep_view().take(k as int).push(
                pairs.deep_view()[k as int],
            ));
        }
        let is_doc = pairs[k].0 == doc_key;
        if is_doc {
            lines.push(pairs[k].1.clone());
            proof {
                assert(pairs@[k as int].0@ == "doc"@);
                assert(lines@ == prev_v.push(lines@[lines@.len() - 1]));
                assert(lines@[lines@.len() - 1]@ == pairs@[k as int].1@);
                assert(lines.deep_view() =~= prev.push(pairs@[k as int].1@));
                assert(lines.deep_view() =~= doc_values(pairs.deep_view().take(k + 1)));
            }
        } else {
            proof {
                assert(pairs@[k as int].0@ != "doc"@);
                assert(lines.deep_view() =~= doc_values(pairs.deep_view().take(k + 1)));
            }
        }
        k = k + 1;
    }
    proof {
        assert(pairs.deep_view().take(pairs.len() as int) =~= pairs.deep_view());
    }
    lines
}

/// Renders the parameter pairs as `name: Type` strings, in order.
fn format_params(ps: &Vec<(String, String)>) -> (r: Vec<String>)
    ensures
        r.deep_view() == param_texts(ps.deep_view()),
{
    let mut out: Vec<String> = Vec::new();
    let mut k: usize = 0;
    proof {
        assert(ps.deep_view().take(0) =~= Seq::<(Seq<char>, Seq<char>)>::empty());
        assert(out.deep_view() =~= param_texts(ps.deep_view().take(0)));
    }
    while k < ps.len()
        invariant
            k <= ps.len(),
            out.deep_view() == param_texts(ps.deep_view().take(k as int)),
        decreases ps.len() - k,
    {
        let ghost prev = out.deep_view();
        let mut p = ps[k].0.clone();
        p.append(": ");
        p.append(ps[k].1.as_str());
        out.push(p);
        proof {
            assert(ps.deep_view()[k as int] == (ps@[k as int].0@, ps@[k as int].1@));
            lemma_param_texts_push(ps.deep_view().take(k as int), ps.deep_view()[k as int]);
            assert(ps.deep_view().take(k + 1) =~= ps.deep_view().take(k as int).push(
                ps.deep_view()[k as int],
            ));
            assert(out.deep_view() =~= prev.push(ps@[k as int].0@ + ": "@ + ps@[k as int].1@));
            assert(out.deep_view() =~= param_texts(ps.deep_view().take(k + 1)));
        }
        k = k + 1;
    }
    proof {
        assert(ps.deep_view().take(ps.len() as int) =~= ps.deep_view());
    }
    out
}

/// One documented item per named field, in declaration order: the field's
/// identifier, and its trimmed, newline-joined doc-comment lines.
fn collect_fields(names: &Vec<String>, attrs: &Vec<Vec<(String, String)>>) -> (r: Vec<Method>)
    requires
        names@.len() == attrs@.len(),
    ensures
        r@.len() == names@.len(),
        forall|i: int|
            0 <= i < r@.len() ==> (#[trigger] r@[i]).name@ == names.deep_view()[i]
                && r@[i].documentation@ == joined_doc_lines(doc_values(attrs.deep_view()[i])),
{
    let mut out: Vec<Method> = Vec::new();
    let mut k: usize = 0;
    while k < names.len()
        invariant
            k <= names.len(),
            names@.len() == attrs@.len(),
            out@.len() == k,
            forall|i: int|
                0 <= i < out@.len() ==> (#[trigger] out@[i]).name@ == names.deep_view()[i]
                    && out@[i].documentation@ == joined_doc_lines(
                    doc_values(attrs.deep_view()[i]),
                ),
        decreases names.len() - k,
    {
        let ghost prev = out@;
        let name = names[k].clone();
        let lines = collect_doc_lines(&attrs[k]);
        let documentation = build_doc_text(&lines);
        proof {
            assert(names.deep_view()[k as int] == names@[k as int]@);
            assert(attrs.deep_view()[k as int] == attrs@[k as int].deep_view());
        }
        out.push(Method { name, documentation });
        proof {
            assert(forall|i: int| 0 <= i < prev.len() ==> out@[i] == prev[i]);
        }
        k = k + 1;
    }
    out
}

/// One documented item per inherent method, in order: its rendered
/// signature, and its trimmed, newline-joined doc-comment lines.
fn collect_methods(
    names: &Vec<String>,
    params: &Vec<Vec<(String, String)>>,
    attrs: &Vec<Vec<(String, String)>>,
) -> (r: Vec<Method>)
    requires
        names@.len() == params@.len(),
        names@.len() == attrs@.len(),
    ensures
        r@.len() == names@.len(),
        forall|i: int|
            0 <= i < r@.len() ==> (#[trigger] r@[i]).name@ == method_signature_spec(
                names.deep_view()[i],
                param_texts(params.deep_view()[i]),
            ) && r@[i].documentation@ == joined_doc_lines(doc_values(attrs.deep_view()[i])),
{
    let mut out: Vec<Method> = Vec::new();
    let mut k: usize = 0;
    while k < names.len()
        invariant
            k <= names.len(),
            names@.len() == params@.len(),
            names@.len() == attrs@.len(),
            out@.len() == k,
            forall|i: int|
                0 <= i < out@.len() ==> (#[trigger] out@[i]).name@ == method_signature_spec(
                    names.deep_view()[i],
                    param_texts(params.deep_view()[i]),
                ) && out@[i].documentation@ == joined_doc_lines(
                    doc_values(attrs.deep_view()[i]),
                ),
        decreases names.len() - k,
    {
        let ghost prev = out@;
        let param_strings = format_params(&params[k]);
        let name = build_method_signature(names[k].as_str(), &param_strings);
        let lines = collect_doc_lines(&attrs[k]);
        let documentation = build_doc_text(&lines);
        proof {
            assert(names.deep_view()[k as int] == names@[k as int]@);
            assert(params.deep_view()[k as int] == params@[k as int].deep_view());
            assert(attrs.deep_view()[k as int] == attrs@[k as int].deep_view());
        }
        out.push(Method { name, documentation });
        proof {
            assert(forall|i: int| 0 <= i < prev.len() ==> out@[i] == prev[i]);
        }
        k = k + 1;
    }
    out
}

/// Parses Rust source text and extracts its documented structure.
pub struct RustDocParser {
    /// The raw Rust source code to read documentation from.
    pub raw_rust_code: String,
}

impl RustDocParser {
    /// Extracts the documented structure of the source: the name, doc
    /// comments, fields and inherent methods of the structure definition.
    /// When several structure definitions occur, the last one provides
    /// the record; methods come from every inherent impl, in order.
    pub fn parse_code_doc(&self) -> (r: Class)
        requires
            syn_accepts(self.raw_rust_code@),
        ensures
            parse_code_doc_post(self.raw_rust_code@, &r),
    {
        let code = self.raw_rust_code.as_str();
        let ghost c = self.raw_rust_code@;
        let structs = structs_raw(code);
        let field_names = struct_field_names_raw(code);
        let field_attrs = struct_field_attrs_raw(code);
        let method_names = method_names_raw(code);
        let param_data = method_params_raw(code);
        let method_attrs = method_attrs_raw(code);
        let mut name = String::new();
        let mut documentation = String::new();
        let mut fields: Vec<Method> = Vec::new();
        if structs.len() > 0 {
            let idx = structs.len() - 1;
            proof {
                assert(structs.deep_view()[idx as int] == (
                    structs@[idx as int].0@,
                    structs@[idx as int].1.deep_view(),
                ));
                assert(structs.deep_view()[idx as int] == structs_of(c).last());
                assert(field_names.deep_view()[idx as int] == struct_field_names_of(c).last());
                assert(field_attrs.deep_view()[idx as int] == struct_field_attrs_of(c).last());
                assert(field_names.deep_view()[idx as int] == field_names@[
                    idx as int
                ].deep_view());
                assert(field_attrs.deep_view()[idx as int] == field_attrs@[
                    idx as int
                ].deep_view());
            }
            name = structs[idx].0.clone();
            let lines = collect_doc_lines(&structs[idx].1);
            documentation = build_struct_documentation(&lines);
            fields = collect_fields(&field_names[idx], &field_attrs[idx]);
        } else {
            proof {
                assert(structs_of(c).len() == 0);
                assert(struct_field_names_of(c).len() == 0);
                assert(documentation@ == struct_documentation_of(c));
            }
        }
        let methods = collect_methods(&method_names, &param_data, &method_attrs);
        let r = Class { plantuml: String::new(), name, documentation, fields, methods };
        proof {
            assert(forall|i: int|
                0 <= i < r.methods@.len() ==> (#[trigger] r.methods@[i]).name@ == method_pairs_of(
                    c,
                )[i].0 && r.methods@[i].documentation@ == method_pairs_of(c)[i].1);
        }
        r
    }

    /// Renders the extracted record as Markdown: a heading with the
    /// structure's name, a blank line, and its documentation.
    pub fn parse_code_doc_to_markdown_string(&self) -> (r: String)
        requires
            syn_accepts(self.raw_rust_code@),
        ensures
            r@ == extraction_text(self.raw_rust_code@),
    {
        let result = self.parse_code_doc();
        let mut markdown = String::new();
        markdown.append("## ");
        markdown.append(result.name.as_str());
        markdown.append("\n\n");
        markdown.append(result.documentation.as_str());
        proof {
            assert(markdown@ =~= extraction_markdown(result.name@, result.documentation@));
        }
        markdown
    }
}

} // verus!
