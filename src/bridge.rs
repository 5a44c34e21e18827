//! Bridging proc macros onto the forwarding protocol.
//!
//! `#[import_tokens_attr]` turns an attribute macro whose first argument names a foreign item
//! into two macros: an outer one that forwards the foreign item, together with a record of the
//! attached item, the path and any custom parse result, to an inner one that runs the macro's
//! own body on the foreign item. `#[import_tokens_proc]` does the same for function-like macros.
use vstd::prelude::*;

use crate::protocol::{
    append_segments, has_stray_char, ident_of, is_ascii_text, is_plain_ident, is_reserved_word,
    result_view, is_blank, parse_ident, path_text, path_view_text, push_path,
    segment_view, segments_view, MacroError, PathSegment, SynPath,
};
use crate::text::{chars_of, push_str, string_of};

verus! {

/// The kinds of proc macro.
#[derive(PartialEq, Eq, Structural, Clone, Copy, Debug)]
pub enum ProcMacroType {
    /// `#[proc_macro]`
    Normal,
    /// `#[proc_macro_attribute]`
    Attribute,
    /// `#[proc_macro_derive]`
    Derive,
}

pub open spec fn macro_type_attr_name(t: ProcMacroType) -> Seq<char> {
    match t {
        ProcMacroType::Normal => "proc_macro"@,
        ProcMacroType::Attribute => "proc_macro_attribute"@,
        ProcMacroType::Derive => "proc_macro_derive"@,
    }
}

/// An attribute on a function: its path, its whole text (`#[..]`) and, when its argument
/// (what stands between the parentheses after the path) is a path, that path.
pub struct FnAttribute {
    pub path: SynPath,
    pub text: String,
    pub arg_path: Option<SynPath>,
}

/// A parameter of a function: its text, and the identifier it binds when it is a typed
/// parameter whose pattern is a plain identifier.
pub struct FnParam {
    pub ident: Option<String>,
    pub text: String,
}

/// A function definition: attributes, visibility, name, parameters, return type (the text
/// after the parameters, e.g. `-> TokenStream`) and the statements of its body.
pub struct ProcFn {
    pub attrs: Vec<FnAttribute>,
    pub is_public: bool,
    pub ident: String,
    pub inputs: Vec<FnParam>,
    pub output: String,
    pub body: String,
}

/// A proc macro function definition, with the identifiers of its parameters.
pub struct ProcMacro {
    /// The function definition.
    pub proc_fn: ProcFn,
    /// Whether it is an attribute, a function-like or a derive macro.
    pub macro_type: ProcMacroType,
    /// The parameter that receives the tokens (the last one).
    pub tokens_ident: String,
    /// The parameter that receives the attribute's arguments (the first one, for attribute
    /// macros only).
    pub attr_ident: Option<String>,
}

/// A `use` item: its attributes (as text), its visibility (as text, empty when private) and
/// its path.
pub struct BasicUseStmt {
    pub attrs: Vec<String>,
    pub vis: String,
    pub path: SynPath,
}

/// `p` is the single identifier `name`.
pub open spec fn is_single_ident(p: SynPath, name: Seq<char>) -> bool {
    !p.leading_colon && p.segments@.len() == 1 && segments_view(p.segments@)[0] == (name, Seq::<char>::empty())
}

/// The last segment of `p` is the identifier `name`.
pub open spec fn last_ident_is(p: SynPath, name: Seq<char>) -> bool {
    p.segments@.len() > 0 && p.segments@.last().ident@ == name
}

/// The proc macro kind an attribute marks, if any.
pub open spec fn attr_kind(a: FnAttribute) -> Option<ProcMacroType> {
    if is_single_ident(a.path, "proc_macro"@) {
        Some(ProcMacroType::Normal)
    } else if is_single_ident(a.path, "proc_macro_attribute"@) {
        Some(ProcMacroType::Attribute)
    } else if is_single_ident(a.path, "proc_macro_derive"@) {
        Some(ProcMacroType::Derive)
    } else {
        None
    }
}

/// The kind that the first kind-marking attribute gives.
pub open spec fn first_kind(attrs: Seq<FnAttribute>) -> Option<ProcMacroType>
    decreases attrs.len(),
{
    if attrs.len() == 0 {
        None
    } else if attr_kind(attrs[0]) is Some {
        attr_kind(attrs[0])
    } else {
        first_kind(attrs.skip(1))
    }
}

pub open spec fn param_ident(p: Seq<FnParam>, i: int) -> Option<Seq<char>> {
    if 0 <= i < p.len() {
        match p[i].ident {
            Some(s) => Some(s@),
            None => None,
        }
    } else {
        None
    }
}

/// What `ProcMacro::from` makes of a function: its kind, the tokens parameter and the
/// attribute parameter, or the error.
pub open spec fn proc_macro_of(f: ProcFn) -> Result<
    (ProcMacroType, Seq<char>, Option<Seq<char>>),
    MacroError,
> {
    let n = f.inputs@.len() as int;
    if !f.is_public {
        Err(MacroError::NotPublic)
    } else if first_kind(f.attrs@) is None {
        Err(MacroError::NotProcMacro)
    } else if param_ident(f.inputs@, n - 1) is None {
        Err(MacroError::BadParameter)
    } else if first_kind(f.attrs@) == Some(ProcMacroType::Attribute) {
        if param_ident(f.inputs@, 0) is None {
            Err(MacroError::BadParameter)
        } else {
            Ok((ProcMacroType::Attribute, param_ident(f.inputs@, n - 1)->Some_0, param_ident(f.inputs@, 0)))
        }
    } else {
        Ok((first_kind(f.attrs@)->Some_0, param_ident(f.inputs@, n - 1)->Some_0, None))
    }
}

pub open spec fn proc_macro_view(m: ProcMacro) -> (ProcMacroType, Seq<char>, Option<Seq<char>>) {
    (m.macro_type, m.tokens_ident@, match m.attr_ident {
        Some(s) => Some(s@),
        None => None,
    })
}

pub open spec fn attrs_text(a: Seq<FnAttribute>) -> Seq<char>
    decreases a.len(),
{
    if a.len() == 0 {
        seq![]
    } else {
        attrs_text(a.drop_last()) + a.last().text@ + " "@
    }
}

pub open spec fn strings_text(a: Seq<String>) -> Seq<char>
    decreases a.len(),
{
    if a.len() == 0 {
        seq![]
    } else {
        strings_text(a.drop_last()) + a.last()@ + " "@
    }
}

pub open spec fn params_text(p: Seq<FnParam>) -> Seq<char>
    decreases p.len(),
{
    if p.len() == 0 {
        seq![]
    } else if p.len() == 1 {
        p[0].text@
    } else {
        params_text(p.drop_last()) + ", "@ + p.last().text@
    }
}

pub open spec fn sig_text(ident: Seq<char>, inputs: Seq<FnParam>, output: Seq<char>) -> Seq<char> {
    "fn "@ + ident + "("@ + params_text(inputs) + ") "@ + output
}

/// A function definition as source text.
pub open spec fn fn_text(f: ProcFn) -> Seq<char> {
    attrs_text(f.attrs@) + (if f.is_public { "pub "@ } else { seq![] }) + sig_text(f.ident@, f.inputs@, f.output@)
        + " { "@ + f.body@ + " }"@
}

/// The name of the inner macro of a bridged attribute macro.
pub open spec fn attr_inner_name(ident: Seq<char>) -> Seq<char> {
    "__import_tokens_attr_"@ + ident + "_inner"@
}

/// The name of the inner macro of a bridged function-like macro.
pub open spec fn proc_inner_name(ident: Seq<char>) -> Seq<char> {
    "__import_tokens_proc_"@ + ident + "_inner"@
}

/// The index of the first attribute whose last segment is `name`.
pub open spec fn find_attr(attrs: Seq<FnAttribute>, name: Seq<char>) -> Option<int>
    decreases attrs.len(),
{
    if attrs.len() == 0 {
        None
    } else if last_ident_is(attrs[0].path, name) {
        Some(0)
    } else {
        match find_attr(attrs.skip(1), name) {
            Some(i) => Some(i + 1),
            None => None,
        }
    }
}

/// Resolves the foreign path through the custom parsing type's `ForeignPath` capability.
pub open spec fn custom_resolver_text(attr: Seq<char>, custom: Seq<char>) -> Seq<char> {
    "let custom_parsed = syn::parse_macro_input!("@
        + attr
        + " as "@
        + custom
        + "); let path = (&custom_parsed as &dyn ForeignPath).foreign_path(); let _ = (&custom_parsed as &dyn quote::ToTokens);"@
}

fn custom_resolver_text_string(attr: &str, custom: &str) -> (r: String)
    ensures
        r@ == custom_resolver_text(attr@, custom@),
{
    let mut out: Vec<char> = Vec::new();
    push_str(&mut out, "let custom_parsed = syn::parse_macro_input!(");
    assert(out@ =~= "let custom_parsed = syn::parse_macro_input!("@);
    push_str(&mut out, attr);
    push_str(&mut out, " as ");
    push_str(&mut out, custom);
    push_str(&mut out, "); let path = (&custom_parsed as &dyn ForeignPath).foreign_path(); let _ = (&custom_parsed as &dyn quote::ToTokens);");
    assert(out@ == custom_resolver_text(attr@, custom@));
    string_of(&out)
}

/// Reads the attribute's argument as a bare path.
pub open spec fn plain_resolver_text(attr: Seq<char>) -> Seq<char> {
    "let custom_parsed = quote::quote!(); let path = syn::parse_macro_input!("@
        + attr
        + " as syn::Path);"@
}

fn plain_resolver_text_string(attr: &str) -> (r: String)
    ensures
        r@ == plain_resolver_text(attr@),
{
    let mut out: Vec<char> = Vec::new();
    push_str(&mut out, "let custom_parsed = quote::quote!(); let path = syn::parse_macro_input!(");
    assert(out@ =~= "let custom_parsed = quote::quote!(); let path = syn::parse_macro_input!("@);
    push_str(&mut out, attr);
    push_str(&mut out, " as syn::Path);");
    assert(out@ == plain_resolver_text(attr@));
    string_of(&out)
}

/// The outer attribute macro, which packs the attached item, the foreign path and the custom
/// parse result into a record and forwards the foreign item with it to the inner macro; then the
/// inner macro, which unpacks the record and runs the macro's own body.
pub open spec fn attr_bridge_text(attrs: Seq<char>, sig: Seq<char>, mm: Seq<char>, ov: Seq<char>, tok: Seq<char>, attr: Seq<char>, resolver: Seq<char>, inner: Seq<char>, inner_sig: Seq<char>, body: Seq<char>) -> Seq<char> {
    attrs
        + "pub "@
        + sig
        + " { use "@
        + mm
        + "::__private::*; use "@
        + mm
        + "::__private::quote::ToTokens; use "@
        + mm
        + "::mm_core::*; let attached_item = syn::parse_macro_input!("@
        + tok
        + " as syn::Item); let attached_item_str = attached_item.to_token_stream().to_string(); "@
        + resolver
        + " let extra = "@
        + mm
        + "::mm_core::join_extra(attached_item_str.as_str(), path.to_token_stream().to_string().as_str(), custom_parsed.to_token_stream().to_string().as_str()); quote::quote! { "@
        + ov
        + "::forward_tokens! { #path, "@
        + inner
        + ", "@
        + ov
        + ", #extra } }.into() } #[doc(hidden)] #[proc_macro] pub "@
        + inner_sig
        + " { let __combined_args = "@
        + mm
        + "::__private::syn::parse_macro_input!("@
        + attr
        + " as "@
        + mm
        + "::mm_core::AttrItemWithExtra); let ("@
        + attr
        + ", "@
        + tok
        + ") = (__combined_args.imported_item, __combined_args.extra); let "@
        + attr
        + ": proc_macro::TokenStream = "@
        + attr
        + ".to_token_stream().into(); let ("@
        + tok
        + ", __source_path, __custom_tokens) = { let (tokens_string, foreign_path_string, custom_parsed_string) = "@
        + mm
        + "::mm_core::split_extra(&"@
        + tok
        + ".value()).expect(\"malformed bridged payload\"); let foreign_path: proc_macro::TokenStream = foreign_path_string.as_str().parse().unwrap(); let tokens: proc_macro::TokenStream = tokens_string.as_str().parse().unwrap(); let custom_parsed_tokens: proc_macro::TokenStream = custom_parsed_string.as_str().parse().unwrap(); (tokens, foreign_path, custom_parsed_tokens) }; "@
        + body
        + " }"@
}

fn attr_bridge_text_string(attrs: &str, sig: &str, mm: &str, ov: &str, tok: &str, attr: &str, resolver: &str, inner: &str, inner_sig: &str, body: &str) -> (r: String)
    ensures
        r@ == attr_bridge_text(attrs@, sig@, mm@, ov@, tok@, attr@, resolver@, inner@, inner_sig@, body@),
{
    let mut out: Vec<char> = Vec::new();
    push_str(&mut out, attrs);
    assert(out@ =~= attrs@);
    push_str(&mut out, "pub ");
    push_str(&mut out, sig);
    push_str(&mut out, " { use ");
    push_str(&mut out, mm);
    push_str(&mut out, "::__private::*; use ");
    push_str(&mut out, mm);
    push_str(&mut out, "::__private::quote::ToTokens; use ");
    push_str(&mut out, mm);
    push_str(&mut out, "::mm_core::*; let attached_item = syn::parse_macro_input!(");
    push_str(&mut out, tok);
    push_str(&mut out, " as syn::Item); let attached_item_str = attached_item.to_token_stream().to_string(); ");
    push_str(&mut out, resolver);
    push_str(&mut out, " let extra = ");
    push_str(&mut out, mm);
    push_str(&mut out, "::mm_core::join_extra(attached_item_str.as_str(), path.to_token_stream().to_string().as_str(), custom_parsed.to_token_stream().to_string().as_str()); quote::quote! { ");
    push_str(&mut out, ov);
    push_str(&mut out, "::forward_tokens! { #path, ");
    push_str(&mut out, inner);
    push_str(&mut out, ", ");
    push_str(&mut out, ov);
    push_str(&mut out, ", #extra } }.into() } #[doc(hidden)] #[proc_macro] pub ");
    push_str(&mut out, inner_sig);
    push_str(&mut out, " { let __combined_args = ");
    push_str(&mut out, mm);
    push_str(&mut out, "::__private::syn::parse_macro_input!(");
    push_str(&mut out, attr);
    push_str(&mut out, " as ");
    push_str(&mut out, mm);
    push_str(&mut out, "::mm_core::AttrItemWithExtra); let (");
    push_str(&mut out, attr);
    push_str(&mut out, ", ");
    push_str(&mut out, tok);
    push_str(&mut out, ") = (__combined_args.imported_item, __combined_args.extra); let ");
    push_str(&mut out, attr);
    push_str(&mut out, ": proc_macro::TokenStream = ");
    push_str(&mut out, attr);
    push_str(&mut out, ".to_token_stream().into(); let (");
    push_str(&mut out, tok);
    push_str(&mut out, ", __source_path, __custom_tokens) = { let (tokens_string, foreign_path_string, custom_parsed_string) = ");
    push_str(&mut out, mm);
    push_str(&mut out, "::mm_core::split_extra(&");
    push_str(&mut out, tok);
    push_str(&mut out, ".value()).expect(\"malformed bridged payload\"); let foreign_path: proc_macro::TokenStream = foreign_path_string.as_str().parse().unwrap(); let tokens: proc_macro::TokenStream = tokens_string.as_str().parse().unwrap(); let custom_parsed_tokens: proc_macro::TokenStream = custom_parsed_string.as_str().parse().unwrap(); (tokens, foreign_path, custom_parsed_tokens) }; ");
    push_str(&mut out, body);
    push_str(&mut out, " }");
    assert(out@ == attr_bridge_text(attrs@, sig@, mm@, ov@, tok@, attr@, resolver@, inner@, inner_sig@, body@));
    string_of(&out)
}

/// The outer function-like macro, which forwards the item at the path it is given to the inner
/// macro; then the inner macro, which runs the macro's own body on it.
pub open spec fn proc_bridge_text(attrs: Seq<char>, sig: Seq<char>, mm: Seq<char>, ov: Seq<char>, tok: Seq<char>, inner: Seq<char>, inner_sig: Seq<char>, body: Seq<char>) -> Seq<char> {
    attrs
        + "pub "@
        + sig
        + " { use "@
        + mm
        + "::__private::*; use "@
        + mm
        + "::__private::quote::ToTokens; let source_path = match syn::parse::<syn::Path>("@
        + tok
        + ") { Ok(path) => path, Err(e) => return e.to_compile_error().into(), }; quote::quote! { "@
        + ov
        + "::forward_tokens! { #source_path, "@
        + inner
        + ", "@
        + ov
        + " } }.into() } #[doc(hidden)] #[proc_macro] pub "@
        + inner_sig
        + " { "@
        + body
        + " }"@
}

fn proc_bridge_text_string(attrs: &str, sig: &str, mm: &str, ov: &str, tok: &str, inner: &str, inner_sig: &str, body: &str) -> (r: String)
    ensures
        r@ == proc_bridge_text(attrs@, sig@, mm@, ov@, tok@, inner@, inner_sig@, body@),
{
    let mut out: Vec<char> = Vec::new();
    push_str(&mut out, attrs);
    assert(out@ =~= attrs@);
    push_str(&mut out, "pub ");
    push_str(&mut out, sig);
    push_str(&mut out, " { use ");
    push_str(&mut out, mm);
    push_str(&mut out, "::__private::*; use ");
    push_str(&mut out, mm);
    push_str(&mut out, "::__private::quote::ToTokens; let source_path = match syn::parse::<syn::Path>(");
    push_str(&mut out, tok);
    push_str(&mut out, ") { Ok(path) => path, Err(e) => return e.to_compile_error().into(), }; quote::quote! { ");
    push_str(&mut out, ov);
    push_str(&mut out, "::forward_tokens! { #source_path, ");
    push_str(&mut out, inner);
    push_str(&mut out, ", ");
    push_str(&mut out, ov);
    push_str(&mut out, " } }.into() } #[doc(hidden)] #[proc_macro] pub ");
    push_str(&mut out, inner_sig);
    push_str(&mut out, " { ");
    push_str(&mut out, body);
    push_str(&mut out, " }");
    assert(out@ == proc_bridge_text(attrs@, sig@, mm@, ov@, tok@, inner@, inner_sig@, body@));
    string_of(&out)
}

/// An attribute macro named `alias` that does what `#[export_tokens]` does.
pub open spec fn alias_text(alias: Seq<char>, mm: Seq<char>, emit: Seq<char>) -> Seq<char> {
    "#[proc_macro_attribute] pub fn "@
        + alias
        + "(attr: proc_macro::TokenStream, tokens: proc_macro::TokenStream) -> proc_macro::TokenStream { match "@
        + mm
        + "::mm_core::export_tokens_internal(attr, tokens, "@
        + emit
        + ") { Ok(tokens) => tokens.into(), Err(err) => err.to_compile_error().into(), } }"@
}

fn alias_text_string(alias: &str, mm: &str, emit: &str) -> (r: String)
    ensures
        r@ == alias_text(alias@, mm@, emit@),
{
    let mut out: Vec<char> = Vec::new();
    push_str(&mut out, "#[proc_macro_attribute] pub fn ");
    assert(out@ =~= "#[proc_macro_attribute] pub fn "@);
    push_str(&mut out, alias);
    push_str(&mut out, "(attr: proc_macro::TokenStream, tokens: proc_macro::TokenStream) -> proc_macro::TokenStream { match ");
    push_str(&mut out, mm);
    push_str(&mut out, "::mm_core::export_tokens_internal(attr, tokens, ");
    push_str(&mut out, emit);
    push_str(&mut out, ") { Ok(tokens) => tokens.into(), Err(err) => err.to_compile_error().into(), } }");
    assert(out@ == alias_text(alias@, mm@, emit@));
    string_of(&out)
}

/// The `use` item, then a hidden `use` of the matching inner macro.
pub open spec fn use_text(attrs: Seq<char>, vis: Seq<char>, path: Seq<char>, hidden: Seq<char>) -> Seq<char> {
    attrs
        + vis
        + " use "@
        + path
        + "; #[doc(hidden)] "@
        + vis
        + " use "@
        + hidden
        + ";"@
}

fn use_text_string(attrs: &str, vis: &str, path: &str, hidden: &str) -> (r: String)
    ensures
        r@ == use_text(attrs@, vis@, path@, hidden@),
{
    let mut out: Vec<char> = Vec::new();
    push_str(&mut out, attrs);
    assert(out@ =~= attrs@);
    push_str(&mut out, vis);
    push_str(&mut out, " use ");
    push_str(&mut out, path);
    push_str(&mut out, "; #[doc(hidden)] ");
    push_str(&mut out, vis);
    push_str(&mut out, " use ");
    push_str(&mut out, hidden);
    push_str(&mut out, ";");
    assert(out@ == use_text(attrs@, vis@, path@, hidden@));
    string_of(&out)
}

pub open spec fn fn_rest_text(f: ProcFn) -> Seq<char> {
    (if f.is_public { "pub "@ } else { seq![] }) + sig_text(f.ident@, f.inputs@, f.output@) + " { "@ + f.body@ + " }"@
}

/// The attribute that records a custom parsing type.
pub open spec fn custom_attr_text(p: SynPath) -> Seq<char> {
    "#[with_custom_parsing("@ + path_text(p) + ")]"@
}

/// What `#[with_custom_parsing(custom)]` emits for `f`: `f` with the attribute moved after
/// its other attributes, once `f` has been checked.
pub open spec fn with_custom_parsing_of(custom: Option<SynPath>, f: ProcFn, bridge_name: Seq<char>) -> Result<Seq<char>, MacroError> {
    match proc_macro_of(f) {
        Err(e) => Err(e),
        Ok(m) => if m.0 != ProcMacroType::Attribute {
            Err(MacroError::WrongMacroKind)
        } else if find_attr(f.attrs@, bridge_name) is None {
            Err(MacroError::MissingBridgeAttribute)
        } else if find_attr(f.attrs@, "with_custom_parsing"@) is Some {
            Err(MacroError::DuplicateCustomParsing)
        } else {
            match custom {
                None => Err(MacroError::BadCustomParsingPath),
                Some(p) => Ok(attrs_text(f.attrs@) + custom_attr_text(p) + " "@ + fn_rest_text(f)),
            }
        },
    }
}

/// What `#[import_tokens_attr]` emits for `f`, with `ov` the root the forwarding goes through.
pub open spec fn attr_bridge_of(ov: Seq<char>, root: Seq<char>, f: ProcFn) -> Result<Seq<char>, MacroError> {
    match proc_macro_of(f) {
        Err(e) => Err(e),
        Ok(m) => if m.0 != ProcMacroType::Attribute {
            Err(MacroError::WrongMacroKind)
        } else {
            let attr = m.2->Some_0;
            let tok = m.1;
            let custom = find_attr(f.attrs@, "with_custom_parsing"@);
            let n = f.inputs@.len() as int;
            let inner = attr_inner_name(f.ident@);
            let rest = |attrs: Seq<FnAttribute>, resolver: Seq<char>|
                attr_bridge_text(
                    attrs_text(attrs),
                    sig_text(f.ident@, f.inputs@, f.output@),
                    root,
                    ov,
                    tok,
                    attr,
                    resolver,
                    inner,
                    sig_text(inner, f.inputs@.take(n - 1), f.output@),
                    f.body@,
                );
            match custom {
                Some(i) => match f.attrs@[i].arg_path {
                    None => Err(MacroError::BadCustomParsingPath),
                    Some(p) => Ok(rest(f.attrs@.remove(i), custom_resolver_text(attr, path_text(p)))),
                },
                None => Ok(rest(f.attrs@, plain_resolver_text(attr))),
            }
        },
    }
}

/// What `#[import_tokens_proc]` emits for `f`, with `ov` the root the forwarding goes through.
pub open spec fn proc_bridge_of(ov: Seq<char>, root: Seq<char>, f: ProcFn) -> Result<Seq<char>, MacroError> {
    match proc_macro_of(f) {
        Err(e) => Err(e),
        Ok(m) => if m.0 != ProcMacroType::Normal {
            Err(MacroError::WrongMacroKind)
        } else {
            let inner = proc_inner_name(f.ident@);
            Ok(proc_bridge_text(
                attrs_text(f.attrs@),
                sig_text(f.ident@, f.inputs@, f.output@),
                root,
                ov,
                m.1,
                inner,
                sig_text(inner, f.inputs@, f.output@),
                f.body@,
            ))
        },
    }
}

pub open spec fn override_text(attr: Option<SynPath>, root: SynPath) -> Seq<char> {
    match attr {
        Some(p) => path_text(p),
        None => path_text(root),
    }
}

/// The path of the inner macro matching the macro at `p`: its last segment renamed.
pub open spec fn hidden_path_text(p: SynPath, mode: ProcMacroType) -> Seq<char>
    recommends
        p.segments@.len() > 0,
{
    let segs = segments_view(p.segments@);
    let name = if mode == ProcMacroType::Normal {
        proc_inner_name(segs.last().0)
    } else {
        attr_inner_name(segs.last().0)
    };
    path_view_text(p.leading_colon, segs.drop_last().push((name, segs.last().1)))
}

/// What `#[use_proc]` (`mode` normal) or `#[use_attr]` (`mode` attribute) emits for `stmt`.
pub open spec fn use_of(attr: Seq<char>, stmt: BasicUseStmt, mode: ProcMacroType) -> Result<Seq<char>, MacroError> {
    if !is_blank(attr) {
        Err(MacroError::UnexpectedArguments)
    } else if stmt.path.segments@.len() == 0 {
        Err(MacroError::EmptyPath)
    } else if mode == ProcMacroType::Derive {
        Err(MacroError::UnsupportedMacroKind)
    } else {
        Ok(use_text(strings_text(stmt.attrs@), stmt.vis@, path_text(stmt.path), hidden_path_text(stmt.path, mode)))
    }
}

pub open spec fn bool_text(b: bool) -> Seq<char> {
    if b { "true"@ } else { "false"@ }
}

fn text_eq(a: &str, b: &str) -> (r: bool)
    ensures
        r == (a@ == b@),
{
    let x = chars_of(a);
    let y = chars_of(b);
    if x.len() != y.len() {
        return false;
    }
    let mut i: usize = 0;
    while i < x.len()
        invariant
            i <= x@.len(),
            x@.len() == y@.len(),
            x@ == a@,
            y@ == b@,
            forall|j: int| 0 <= j < i ==> x@[j] == y@[j],
        decreases x@.len() - i,
    {
        if x[i] != y[i] {
            return false;
        }
        i = i + 1;
    }
    assert(x@ =~= y@);
    true
}

fn single_ident(p: &SynPath, name: &str) -> (r: bool)
    ensures
        r == is_single_ident(*p, name@),
{
    if p.leading_colon || p.segments.len() != 1 {
        return false;
    }
    assert(segments_view(p.segments@)[0] == segment_view(p.segments@[0]));
    let same = text_eq(p.segments[0].ident.as_str(), name);
    let no_args = chars_of(p.segments[0].arguments.as_str()).len() == 0;
    proof {
        if no_args {
            assert(p.segments@[0].arguments@ =~= Seq::<char>::empty());
        }
    }
    same && no_args
}

fn last_is(p: &SynPath, name: &str) -> (r: bool)
    ensures
        r == last_ident_is(*p, name@),
{
    let n = p.segments.len();
    n > 0 && text_eq(p.segments[n - 1].ident.as_str(), name)
}

fn kind_of(a: &FnAttribute) -> (r: Option<ProcMacroType>)
    ensures
        r == attr_kind(*a),
{
    if single_ident(&a.path, "proc_macro") {
        Some(ProcMacroType::Normal)
    } else if single_ident(&a.path, "proc_macro_attribute") {
        Some(ProcMacroType::Attribute)
    } else if single_ident(&a.path, "proc_macro_derive") {
        Some(ProcMacroType::Derive)
    } else {
        None
    }
}

fn find_kind(attrs: &Vec<FnAttribute>) -> (r: Option<ProcMacroType>)
    ensures
        r == first_kind(attrs@),
{
    let mut i: usize = 0;
    assert(attrs@.skip(0) =~= attrs@);
    while i < attrs.len()
        invariant
            i <= attrs@.len(),
            first_kind(attrs@) == first_kind(attrs@.skip(i as int)),
        decreases attrs@.len() - i,
    {
        let k = kind_of(&attrs[i]);
        assert(attrs@.skip(i as int)[0] == attrs@[i as int]);
        if k.is_some() {
            return k;
        }
        assert(attrs@.skip(i as int).skip(1) =~= attrs@.skip(i + 1));
        i = i + 1;
    }
    None
}

fn position_of(attrs: &Vec<FnAttribute>, name: &str) -> (r: Option<usize>)
    ensures
        match r {
            Some(i) => find_attr(attrs@, name@) == Some(i as int) && i < attrs@.len(),
            None => find_attr(attrs@, name@) is None,
        },
{
    let mut i: usize = 0;
    assert(attrs@.skip(0) =~= attrs@);
    while i < attrs.len()
        invariant
            i <= attrs@.len(),
            find_attr(attrs@, name@) == match find_attr(attrs@.skip(i as int), name@) {
                Some(j) => Some(j + i),
                None => None,
            },
        decreases attrs@.len() - i,
    {
        assert(attrs@.skip(i as int)[0] == attrs@[i as int]);
        if last_is(&attrs[i].path, name) {
            return Some(i);
        }
        assert(attrs@.skip(i as int).skip(1) =~= attrs@.skip(i + 1));
        i = i + 1;
    }
    None
}

fn param_name(inputs: &Vec<FnParam>, i: usize) -> (r: Option<String>)
    requires
        i < inputs@.len(),
    ensures
        match r {
            Some(s) => param_ident(inputs@, i as int) == Some(s@),
            None => param_ident(inputs@, i as int) is None,
        },
{
    match &inputs[i].ident {
        Some(s) => Some(s.clone()),
        None => None,
    }
}

impl ProcMacroType {
    /// The attribute that marks this kind of proc macro, as text.
    pub fn to_str(&self) -> (r: &'static str)
        ensures
            r@ == "#["@ + macro_type_attr_name(*self) + "]"@,
    {
        proof {
            reveal_strlit("#[");
            reveal_strlit("]");
            reveal_strlit("proc_macro");
            reveal_strlit("proc_macro_attribute");
            reveal_strlit("proc_macro_derive");
            reveal_strlit("#[proc_macro]");
            reveal_strlit("#[proc_macro_attribute]");
            reveal_strlit("#[proc_macro_derive]");
        }
        match self {
            ProcMacroType::Normal => {
                assert("#[proc_macro]"@ =~= "#["@ + "proc_macro"@ + "]"@);
                "#[proc_macro]"
            },
            ProcMacroType::Attribute => {
                assert("#[proc_macro_attribute]"@ =~= "#["@ + "proc_macro_attribute"@ + "]"@);
                "#[proc_macro_attribute]"
            },
            ProcMacroType::Derive => {
                assert("#[proc_macro_derive]"@ =~= "#["@ + "proc_macro_derive"@ + "]"@);
                "#[proc_macro_derive]"
            },
        }
    }

    /// The attribute that marks this kind of proc macro.
    pub fn to_attr(&self) -> (r: FnAttribute)
        ensures
            is_single_ident(r.path, macro_type_attr_name(*self)),
            r.arg_path is None,
            r.text@ == "#["@ + macro_type_attr_name(*self) + "]"@,
    {
        let name = match self {
            ProcMacroType::Normal => "proc_macro",
            ProcMacroType::Attribute => "proc_macro_attribute",
            ProcMacroType::Derive => "proc_macro_derive",
        };
        let mut segments: Vec<PathSegment> = Vec::new();
        segments.push(PathSegment { ident: string_of(&chars_of(name)), arguments: String::new() });
        let path = SynPath { leading_colon: false, segments };
        assert(segments_view(path.segments@) =~= seq![(name@, Seq::<char>::empty())]);
        FnAttribute { path, text: string_of(&chars_of(self.to_str())), arg_path: None }
    }
}

impl ProcMacro {
    /// Reads a proc macro definition: it must be `pub`, carry `#[proc_macro]` or
    /// `#[proc_macro_attribute]`, and bind its tokens parameter (and, for an attribute macro,
    /// its attribute parameter) to plain identifiers.
    pub fn from(f: ProcFn) -> (r: Result<ProcMacro, MacroError>)
        ensures
            match r {
                Ok(m) => proc_macro_of(f) == Ok::<_, MacroError>(proc_macro_view(m)) && m.proc_fn == f,
                Err(e) => proc_macro_of(f) == Err::<(ProcMacroType, Seq<char>, Option<Seq<char>>), _>(e),
            },
    {
        if !f.is_public {
            return Err(MacroError::NotPublic);
        }
        let macro_type = match find_kind(&f.attrs) {
            Some(k) => k,
            None => {
                return Err(MacroError::NotProcMacro);
            },
        };
        let n = f.inputs.len();
        if n == 0 {
            return Err(MacroError::BadParameter);
        }
        let tokens_ident = match param_name(&f.inputs, n - 1) {
            Some(s) => s,
            None => {
                return Err(MacroError::BadParameter);
            },
        };
        let attr_ident = match macro_type {
            ProcMacroType::Attribute => match param_name(&f.inputs, 0) {
                Some(s) => Some(s),
                None => {
                    return Err(MacroError::BadParameter);
                },
            },
            _ => None,
        };
        Ok(ProcMacro { proc_fn: f, macro_type, tokens_ident, attr_ident })
    }
}

/// Reads a proc macro definition, expecting the kind `macro_type`.
pub fn parse_proc_macro_variant(f: ProcFn, macro_type: ProcMacroType) -> (r: Result<ProcMacro, MacroError>)
    ensures
        match r {
            Ok(m) => proc_macro_of(f) == Ok::<_, MacroError>(proc_macro_view(m)) && m.proc_fn == f
                && m.macro_type == macro_type,
            Err(e) => match proc_macro_of(f) {
                Ok(v) => v.0 != macro_type && e == MacroError::WrongMacroKind,
                Err(e2) => e == e2,
            },
        },
{
    let proc_macro = ProcMacro::from(f)?;
    if proc_macro.macro_type != macro_type {
        return Err(MacroError::WrongMacroKind);
    }
    Ok(proc_macro)
}

fn render_attrs(attrs: &Vec<FnAttribute>, skip: Option<usize>) -> (r: String)
    ensures
        r@ == match skip {
            Some(k) => if k < attrs@.len() { attrs_text(attrs@.remove(k as int)) } else { attrs_text(attrs@) },
            None => attrs_text(attrs@),
        },
{
    let ghost kept = match skip {
        Some(k) => if k < attrs@.len() { attrs@.remove(k as int) } else { attrs@ },
        None => attrs@,
    };
    let mut out: Vec<char> = Vec::new();
    let mut i: usize = 0;
    let mut m: usize = 0;
    assert(attrs_text(kept.take(0)) =~= seq![]);
    while i < attrs.len()
        invariant
            i <= attrs@.len(),
            kept == match skip {
                Some(k) => if k < attrs@.len() { attrs@.remove(k as int) } else { attrs@ },
                None => attrs@,
            },
            m == (match skip {
                Some(k) => if k < i { i - 1 } else { i as int },
                None => i as int,
            }),
            m <= kept.len(),
            out@ == attrs_text(kept.take(m as int)),
        decreases attrs@.len() - i,
    {
        let skipped = match skip {
            Some(k) => k == i,
            None => false,
        };
        if !skipped {
            push_str(&mut out, attrs[i].text.as_str());
            push_str(&mut out, " ");
            proof {
                assert(kept[m as int] == attrs@[i as int]);
                assert(kept.take(m + 1).drop_last() =~= kept.take(m as int));
            }
            m = m + 1;
        }
        i = i + 1;
    }
    assert(kept.take(m as int) =~= kept);
    string_of(&out)
}

fn render_strings(items: &Vec<String>) -> (r: String)
    ensures
        r@ == strings_text(items@),
{
    let mut out: Vec<char> = Vec::new();
    let mut i: usize = 0;
    assert(strings_text(items@.take(0)) =~= seq![]);
    while i < items.len()
        invariant
            i <= items@.len(),
            out@ == strings_text(items@.take(i as int)),
        decreases items@.len() - i,
    {
        push_str(&mut out, items[i].as_str());
        push_str(&mut out, " ");
        proof {
            assert(items@.take(i + 1).drop_last() =~= items@.take(i as int));
        }
        i = i + 1;
    }
    assert(items@.take(i as int) =~= items@);
    string_of(&out)
}

fn render_sig(ident: &str, inputs: &Vec<FnParam>, count: usize, output: &str) -> (r: String)
    requires
        count <= inputs@.len(),
    ensures
        r@ == sig_text(ident@, inputs@.take(count as int), output@),
{
    let ghost ps = inputs@.take(count as int);
    let mut out: Vec<char> = Vec::new();
    push_str(&mut out, "fn ");
    push_str(&mut out, ident);
    push_str(&mut out, "(");
    let ghost start = out@;
    let mut i: usize = 0;
    assert(params_text(ps.take(0)) =~= seq![]);
    while i < count
        invariant
            i <= count <= inputs@.len(),
            ps == inputs@.take(count as int),
            out@ == start + params_text(ps.take(i as int)),
        decreases count - i,
    {
        if i > 0 {
            push_str(&mut out, ", ");
        }
        push_str(&mut out, inputs[i].text.as_str());
        proof {
            assert(ps.take(i + 1).drop_last() =~= ps.take(i as int));
            assert(ps.take(i + 1).last() == inputs@[i as int]);
            if i == 0 {
                assert(ps.take(1)[0] == inputs@[0]);
            }
        }
        i = i + 1;
    }
    assert(ps.take(i as int) =~= ps);
    push_str(&mut out, ") ");
    push_str(&mut out, output);
    assert(out@ =~= sig_text(ident@, ps, output@));
    string_of(&out)
}

fn render_path(p: &SynPath) -> (r: String)
    ensures
        r@ == path_text(*p),
{
    let mut out: Vec<char> = Vec::new();
    push_path(&mut out, p);
    string_of(&out)
}

fn inner_name(prefix: &str, ident: &str) -> (r: String)
    ensures
        r@ == prefix@ + ident@ + "_inner"@,
{
    let mut out: Vec<char> = Vec::new();
    push_str(&mut out, prefix);
    push_str(&mut out, ident);
    push_str(&mut out, "_inner");
    string_of(&out)
}

/// The internal implementation of `#[with_custom_parsing(..)]`: checks that `f` is an
/// attribute proc macro carrying `#[<import_tokens_attr_name>]` and no other
/// `#[with_custom_parsing]`, and that the argument is a path; then emits `f` with the
/// attribute re-attached after the others, for the bridging attribute to find.
pub fn with_custom_parsing_internal(custom_path: Option<SynPath>, f: ProcFn, import_tokens_attr_name: &str) -> (r: Result<String, MacroError>)
    ensures
        match r {
            Ok(t) => with_custom_parsing_of(custom_path, f, import_tokens_attr_name@) == Ok::<_, MacroError>(t@),
            Err(e) => with_custom_parsing_of(custom_path, f, import_tokens_attr_name@) == Err::<Seq<char>, _>(e),
        },
{
    let ghost f0 = f;
    let ghost cp = custom_path;
    let proc_macro = parse_proc_macro_variant(f, ProcMacroType::Attribute)?;
    let f = proc_macro.proc_fn;
    assert(f == f0);
    assert(proc_macro_of(f0) == Ok::<_, MacroError>(proc_macro_view(proc_macro)));
    if position_of(&f.attrs, import_tokens_attr_name).is_none() {
        return Err(MacroError::MissingBridgeAttribute);
    }
    if position_of(&f.attrs, "with_custom_parsing").is_some() {
        return Err(MacroError::DuplicateCustomParsing);
    }
    let p = match custom_path {
        Some(p) => p,
        None => {
            return Err(MacroError::BadCustomParsingPath);
        },
    };
    let attrs = render_attrs(&f.attrs, None);
    let mut head: Vec<char> = Vec::new();
    push_str(&mut head, "#[with_custom_parsing(");
    push_path(&mut head, &p);
    push_str(&mut head, ")]");
    push_str(&mut head, " ");
    assert(head@ =~= custom_attr_text(p) + " "@);
    let mut rest: Vec<char> = Vec::new();
    if f.is_public {
        push_str(&mut rest, "pub ");
    }
    let sig = render_sig(f.ident.as_str(), &f.inputs, f.inputs.len(), f.output.as_str());
    assert(f.inputs@.take(f.inputs@.len() as int) =~= f.inputs@);
    push_str(&mut rest, sig.as_str());
    push_str(&mut rest, " { ");
    push_str(&mut rest, f.body.as_str());
    push_str(&mut rest, " }");
    assert(rest@ =~= fn_rest_text(f));
    let mut out: Vec<char> = Vec::new();
    push_str(&mut out, attrs.as_str());
    out.append(&mut head);
    out.append(&mut rest);
    assert(out@ =~= attrs_text(f.attrs@) + custom_attr_text(p) + " "@ + fn_rest_text(f));
    assert(cp == Some(p));
    assert(with_custom_parsing_of(cp, f0, import_tokens_attr_name@) == Ok::<_, MacroError>(out@));
    Ok(string_of(&out))
}

fn override_root(attr: Option<SynPath>, root: &SynPath) -> (r: String)
    ensures
        r@ == override_text(attr, *root),
{
    match attr {
        Some(p) => render_path(&p),
        None => render_path(root),
    }
}

/// Internal implementation of `#[import_tokens_attr]`. `attr` is the root to forward through
/// (when the attribute's argument is a path), `f` the attribute macro it is attached to and
/// `root` the root of this system's own items.
pub fn import_tokens_attr_internal(attr: Option<SynPath>, f: ProcFn, root: &SynPath) -> (r: Result<String, MacroError>)
    ensures
        match r {
            Ok(t) => attr_bridge_of(override_text(attr, *root), path_text(*root), f) == Ok::<_, MacroError>(t@),
            Err(e) => attr_bridge_of(override_text(attr, *root), path_text(*root), f) == Err::<Seq<char>, _>(e),
        },
{
    let ghost a0 = attr;
    let ov = override_root(attr, root);
    let mm = render_path(root);
    let proc_macro = parse_proc_macro_variant(f, ProcMacroType::Attribute)?;
    let f = proc_macro.proc_fn;
    let attr_ident = match proc_macro.attr_ident {
        Some(a) => a,
        None => {
            return Err(MacroError::BadParameter);
        },
    };
    let tokens_ident = proc_macro.tokens_ident;
    let custom = position_of(&f.attrs, "with_custom_parsing");
    let resolver = match custom {
        Some(i) => match &f.attrs[i].arg_path {
            Some(p) => {
                let custom_path = render_path(p);
                custom_resolver_text_string(attr_ident.as_str(), custom_path.as_str())
            },
            None => {
                return Err(MacroError::BadCustomParsingPath);
            },
        },
        None => plain_resolver_text_string(attr_ident.as_str()),
    };
    let attrs = render_attrs(&f.attrs, custom);
    let n = f.inputs.len();
    let sig = render_sig(f.ident.as_str(), &f.inputs, n, f.output.as_str());
    assert(f.inputs@.take(n as int) =~= f.inputs@);
    let inner = inner_name("__import_tokens_attr_", f.ident.as_str());
    let inner_sig = render_sig(inner.as_str(), &f.inputs, n - 1, f.output.as_str());
    let out = attr_bridge_text_string(
        attrs.as_str(),
        sig.as_str(),
        mm.as_str(),
        ov.as_str(),
        tokens_ident.as_str(),
        attr_ident.as_str(),
        resolver.as_str(),
        inner.as_str(),
        inner_sig.as_str(),
        f.body.as_str(),
    );
    proof {
        reveal_strlit("__import_tokens_attr_");
        assert(out@ =~= attr_bridge_of(override_text(a0, *root), path_text(*root), f)->Ok_0);
    }
    Ok(out)
}

/// Internal implementation of `#[import_tokens_proc]`. `attr` is the root to forward through
/// (when the attribute's argument is a path), `f` the function-like macro it is attached to
/// and `root` the root of this system's own items.
pub fn import_tokens_proc_internal(attr: Option<SynPath>, f: ProcFn, root: &SynPath) -> (r: Result<String, MacroError>)
    ensures
        match r {
            Ok(t) => proc_bridge_of(override_text(attr, *root), path_text(*root), f) == Ok::<_, MacroError>(t@),
            Err(e) => proc_bridge_of(override_text(attr, *root), path_text(*root), f) == Err::<Seq<char>, _>(e),
        },
{
    let ghost a0 = attr;
    let ov = override_root(attr, root);
    let mm = render_path(root);
    let proc_macro = parse_proc_macro_variant(f, ProcMacroType::Normal)?;
    let f = proc_macro.proc_fn;
    let tokens_ident = proc_macro.tokens_ident;
    let attrs = render_attrs(&f.attrs, None);
    let n = f.inputs.len();
    let sig = render_sig(f.ident.as_str(), &f.inputs, n, f.output.as_str());
    let inner = inner_name("__import_tokens_proc_", f.ident.as_str());
    let inner_sig = render_sig(inner.as_str(), &f.inputs, n, f.output.as_str());
    assert(f.inputs@.take(n as int) =~= f.inputs@);
    let out = proc_bridge_text_string(
        attrs.as_str(),
        sig.as_str(),
        mm.as_str(),
        ov.as_str(),
        tokens_ident.as_str(),
        inner.as_str(),
        inner_sig.as_str(),
        f.body.as_str(),
    );
    proof {
        reveal_strlit("__import_tokens_proc_");
        assert(out@ =~= proc_bridge_of(override_text(a0, *root), path_text(*root), f)->Ok_0);
    }
    Ok(out)
}


/// Internal implementation of `#[use_proc]` and `#[use_attr]`: re-exports a bridged macro and,
/// hidden, its inner macro under the matching name.
pub fn use_internal(attr: &str, stmt: &BasicUseStmt, mode: ProcMacroType) -> (r: Result<String, MacroError>)
    ensures
        match r {
            Ok(t) => use_of(attr@, *stmt, mode) == Ok::<_, MacroError>(t@),
            Err(e) => use_of(attr@, *stmt, mode) == Err::<Seq<char>, _>(e),
        },
{
    if !crate::protocol::blank(attr) {
        return Err(MacroError::UnexpectedArguments);
    }
    let n = stmt.path.segments.len();
    if n == 0 {
        return Err(MacroError::EmptyPath);
    }
    let prefix = match mode {
        ProcMacroType::Normal => "__import_tokens_proc_",
        ProcMacroType::Attribute => "__import_tokens_attr_",
        ProcMacroType::Derive => {
            return Err(MacroError::UnsupportedMacroKind);
        },
    };
    let last = &stmt.path.segments[n - 1];
    let name = inner_name(prefix, last.ident.as_str());
    let mut hidden = SynPath { leading_colon: stmt.path.leading_colon, segments: Vec::new() };
    append_segments(&mut hidden.segments, &stmt.path);
    let ghost before = hidden.segments@;
    hidden.segments.pop();
    hidden.segments.push(PathSegment { ident: name, arguments: last.arguments.clone() });
    proof {
        reveal_strlit("__import_tokens_proc_");
        reveal_strlit("__import_tokens_attr_");
        let segs = segments_view(stmt.path.segments@);
        assert(segs.last() == segment_view(stmt.path.segments@[n - 1]));
        assert(segments_view(hidden.segments@) =~= segs.drop_last().push(
            segments_view(hidden.segments@).last(),
        ));
    }
    let attrs = render_strings(&stmt.attrs);
    let path = render_path(&stmt.path);
    let hidden_text = render_path(&hidden);
    let out = use_text_string(attrs.as_str(), stmt.vis.as_str(), path.as_str(), hidden_text.as_str());
    Ok(out)
}

/// An attribute macro named `alias` that does what `#[export_tokens]` (under `root`) does,
/// emitting the item or not as `emit` says.
pub fn export_tokens_alias(alias: &str, emit: bool, root: &SynPath) -> (r: String)
    ensures
        r@ == alias_text(alias@, path_text(*root), bool_text(emit)),
{
    let mm = render_path(root);
    let flag = if emit { "true" } else { "false" };
    alias_text_string(alias, mm.as_str(), flag)
}

/// What `export_tokens_alias!` emits when the alias has been read (`Some`) or could not be.
pub open spec fn alias_named(alias: Option<Seq<char>>, emit: bool, root: Seq<char>) -> Result<Seq<char>, MacroError> {
    match alias {
        Some(a) => Ok(alias_text(a, root, bool_text(emit))),
        None => Err(MacroError::BadIdent),
    }
}

/// Internal implementation of `export_tokens_alias!`: `tokens` is the alias, which must be a
/// bare identifier.
pub fn export_tokens_alias_internal(tokens: &str, emit: bool, root: &SynPath) -> (r: Result<String, MacroError>)
    ensures
        is_blank(tokens@) ==> r == Err::<String, MacroError>(MacroError::BadIdent),
        is_ascii_text(tokens@) ==> result_view(r) == alias_named(ident_of(tokens@), emit, path_text(*root)),
        is_plain_ident(tokens@) && !is_reserved_word(tokens@) ==> result_view(r) == alias_named(
            Some(tokens@),
            emit,
            path_text(*root),
        ),
        has_stray_char(tokens@) ==> r == Err::<String, MacroError>(MacroError::BadIdent),
        match r {
            Ok(t) => exists|alias: Seq<char>| t@ == #[trigger] alias_text(alias, path_text(*root), bool_text(emit)),
            Err(e) => e == MacroError::BadIdent,
        },
{
    match parse_ident(tokens) {
        Some(alias) => Ok(export_tokens_alias(alias.as_str(), emit, root)),
        None => Err(MacroError::BadIdent),
    }
}

} // verus!
