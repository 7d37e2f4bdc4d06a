//! The trusted boundary to the `syn` parser and the `ruml` diagram
//! renderer. Every function here is believed, not verified. Each result
//! is a function of the source text alone, so each wrapper's contract
//! equates its result with a name — an uninterpreted spec function of the
//! text — and the callers' exact contracts build on those names. The
//! bodies only parse, tell variants apart, and render identifiers,
//! literals and types as text; every rule of this library (which
//! attribute is a doc comment, which structure wins, how a signature is
//! written) stays in verified code.

use vstd::prelude::*;

use quote::ToTokens;
use syn::Lit::Str;
use syn::Meta::NameValue;
use syn::{Fields, FnArg, ImplItem, Item, MetaNameValue, Pat};

verus! {

/// The set of texts that the syntax parser accepts. Parsing is a function
/// of the input text alone, so acceptance is too.
pub uninterp spec fn syn_accepts(code: Seq<char>) -> bool;

/// The message of the parse error on a rejected text.
pub uninterp spec fn parse_error_of(code: Seq<char>) -> Seq<char>;

/// The rendered PlantUML diagram of an accepted text.
pub uninterp spec fn puml_of(code: Seq<char>) -> Seq<char>;

/// One entry per structure definition of an accepted text, in order: the
/// identifier as text, and the `name = "literal"` attribute pairs.
pub uninterp spec fn structs_of(code: Seq<char>) -> Seq<(Seq<char>, Seq<(Seq<char>, Seq<char>)>)>;

/// One entry per structure definition, in the same order as `structs_of`:
/// the identifiers of its named fields, in order (empty for unit and
/// tuple structures).
pub uninterp spec fn struct_field_names_of(code: Seq<char>) -> Seq<Seq<Seq<char>>>;

/// One entry per structure definition, in the same order as `structs_of`:
/// per named field, its `name = "literal"` attribute pairs.
pub uninterp spec fn struct_field_attrs_of(code: Seq<char>) -> Seq<
    Seq<Seq<(Seq<char>, Seq<char>)>>,
>;

/// One entry per method of an inherent impl of an accepted text, in file
/// order: the identifier as text.
pub uninterp spec fn method_names_of(code: Seq<char>) -> Seq<Seq<char>>;

/// Per method, in the same order as `method_names_of`: its
/// `name = "literal"` attribute pairs.
pub uninterp spec fn method_attrs_of(code: Seq<char>) -> Seq<Seq<(Seq<char>, Seq<char>)>>;

/// Per method, in the same order as `method_names_of`: its typed
/// parameters that bind a plain identifier, as identifier and
/// rendered-type pairs.
pub uninterp spec fn method_params_of(code: Seq<char>) -> Seq<Seq<(Seq<char>, Seq<char>)>>;

/// Relies on syn::parse_file: parsing is a function of the input text
/// alone; it accepts exactly the valid source texts, and the message of
/// its error is a function of the text as well.
#[verifier::external_body]
pub(crate) fn parse_check(code: &str) -> (r: Result<(), String>)
    ensures
        r is Ok <==> syn_accepts(code@),
        r matches Err(e) ==> e@ == parse_error_of(code@),
{
    match syn::parse_file(code) {
        Ok(_) => Ok(()),
        Err(e) => Err(e.to_string()),
    }
}

/// Relies on syn::parse_file, ruml::file_parser and ruml::render_plantuml:
/// the rendering is a function of the source text alone, built with the
/// fixed format string `"@startuml\n\n{}\n{}\n@enduml"`, so the two
/// markers always wrap the two rendered sections.
#[verifier::external_body]
pub(crate) fn render_code(code: &str) -> (r: String)
    requires
        syn_accepts(code@),
    ensures
        r@ == puml_of(code@),
        exists|a: Seq<char>, b: Seq<char>|
            r@ == "@startuml\n\n"@ + a + "\n"@ + b + "\n@enduml"@,
{
    ruml::render_plantuml(ruml::file_parser(syn::parse_file(code).unwrap()))
}

/// Relies on syn::parse_file, syn::Attribute::parse_meta and
/// syn::LitStr::value: one pair per structure definition, in order — the
/// identifier rendered as text, and those of its attributes that have the
/// shape `name = "literal"` with a plain-identifier name, as name and
/// value (attributes of any other shape contribute nothing).
#[verifier::external_body]
pub(crate) fn structs_raw(code: &str) -> (r: Vec<(String, Vec<(String, String)>)>)
    requires
        syn_accepts(code@),
    ensures
        r.deep_view() == structs_of(code@),
{
    let file = syn::parse_file(code).unwrap();
    let pairs = |attrs: &[syn::Attribute]| {
        attrs.iter().filter_map(|a| match a.parse_meta() {
            Ok(NameValue(MetaNameValue { path, lit: Str(l), .. })) =>
                Some((path.get_ident()?.to_string(), l.value())),
            _ => None }).collect::<Vec<(String, String)>>()
    };
    file.items.iter().filter_map(|i| match i {
        Item::Struct(s) => Some((s.ident.to_string(), pairs(&s.attrs))),
        _ => None }).collect()
}

/// Relies on syn::parse_file: one entry per structure definition, in the
/// same order as `structs_raw`; the identifiers of its named fields,
/// rendered as text, in order. A unit or tuple structure gives an empty
/// list.
#[verifier::external_body]
pub(crate) fn struct_field_names_raw(code: &str) -> (r: Vec<Vec<String>>)
    requires
        syn_accepts(code@),
    ensures
        r.deep_view() == struct_field_names_of(code@),
        r@.len() == structs_of(code@).len(),
{
    let file = syn::parse_file(code).unwrap();
    file.items.iter().filter_map(|i| match i {
        Item::Struct(s) => Some(match &s.fields {
            Fields::Named(n) => n.named.iter().filter_map(
                |f| Some(f.ident.as_ref()?.to_string())).collect(),
            _ => vec![] }),
        _ => None }).collect()
}

/// Relies on the same syn functions as `structs_raw`: one entry per
/// structure definition, in the same order; per named field, in the same
/// order as `struct_field_names_raw`, its `name = "literal"` attribute
/// pairs.
#[verifier::external_body]
pub(crate) fn struct_field_attrs_raw(code: &str) -> (r: Vec<Vec<Vec<(String, String)>>>)
    requires
        syn_accepts(code@),
    ensures
        r.deep_view() == struct_field_attrs_of(code@),
        r@.len() == structs_of(code@).len(),
        forall|i: int|
            0 <= i < r@.len() ==> (#[trigger] r.deep_view()[i]).len() == struct_field_names_of(
                code@,
            )[i].len(),
{
    let file = syn::parse_file(code).unwrap();
    let pairs = |attrs: &[syn::Attribute]| {
        attrs.iter().filter_map(|a| match a.parse_meta() {
            Ok(NameValue(MetaNameValue { path, lit: Str(l), .. })) =>
                Some((path.get_ident()?.to_string(), l.value())),
            _ => None }).collect::<Vec<(String, String)>>()
    };
    file.items.iter().filter_map(|i| match i {
        Item::Struct(s) => Some(match &s.fields {
            Fields::Named(n) => n.named.iter().map(|f| pairs(&f.attrs)).collect(),
            _ => vec![] }),
        _ => None }).collect()
}

/// Relies on syn::parse_file: one entry per method of an impl that names
/// no trait, in file order — the identifier rendered as text.
#[verifier::external_body]
pub(crate) fn method_names_raw(code: &str) -> (r: Vec<String>)
    requires
        syn_accepts(code@),
    ensures
        r.deep_view() == method_names_of(code@),
{
    let file = syn::parse_file(code).unwrap();
    file.items.iter().filter_map(|i| match i {
        Item::Impl(im) if im.trait_.is_none() => Some(im.items.iter().filter_map(|it| match it {
            ImplItem::Method(m) => Some(m.sig.ident.to_string()),
            _ => None })),
        _ => None }).flatten().collect()
}

/// Relies on the same syn functions as `structs_raw`: per method of an
/// impl that names no trait, in the same order as `method_names_raw`, its
/// `name = "literal"` attribute pairs.
#[verifier::external_body]
pub(crate) fn method_attrs_raw(code: &str) -> (r: Vec<Vec<(String, String)>>)
    requires
        syn_accepts(code@),
    ensures
        r.deep_view() == method_attrs_of(code@),
        r@.len() == method_names_of(code@).len(),
{
    let file = syn::parse_file(code).unwrap();
    let pairs = |attrs: &[syn::Attribute]| {
        attrs.iter().filter_map(|a| match a.parse_meta() {
            Ok(NameValue(MetaNameValue { path, lit: Str(l), .. })) =>
                Some((path.get_ident()?.to_string(), l.value())),
            _ => None }).collect::<Vec<(String, String)>>()
    };
    file.items.iter().filter_map(|i| match i {
        Item::Impl(im) if im.trait_.is_none() => Some(im.items.iter().filter_map(|it| match it {
            ImplItem::Method(m) => Some(pairs(&m.attrs)),
            _ => None })),
        _ => None }).flatten().collect()
}

/// Relies on syn::parse_file and quote::ToTokens: per method of an impl
/// that names no trait, in the same order as `method_names_raw`, its typed
/// arguments whose pattern is a plain identifier, as the identifier and
/// the type rendered as tokens; `self` receivers and other patterns
/// contribute nothing.
#[verifier::external_body]
pub(crate) fn method_params_raw(code: &str) -> (r: Vec<Vec<(String, String)>>)
    requires
        syn_accepts(code@),
    ensures
        r.deep_view() == method_params_of(code@),
        r@.len() == method_names_of(code@).len(),
{
    let file = syn::parse_file(code).unwrap();
    file.items.iter().filter_map(|i| match i {
        Item::Impl(im) if im.trait_.is_none() => Some(im.items.iter().filter_map(|it| match it {
            ImplItem::Method(m) => Some(m.sig.inputs.iter().filter_map(|a| match a {
                FnArg::Typed(pt) => match &*pt.pat {
                    Pat::Ident(pi) => Some(
                        (pi.ident.to_string(), pt.ty.to_token_stream().to_string()),
                    ),
                    _ => None },
                _ => None }).collect::<Vec<(String, String)>>()),
            _ => None })),
        _ => None }).flatten().collect()
}

} // verus!
