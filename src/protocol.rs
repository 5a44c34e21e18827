//! Registry slots: exporting an item's tokens under a derived name, and importing or
//! forwarding them through a continuation.
//!
//! Inputs are plain models of the syntax involved (paths, items, identifiers); outputs are the
//! Rust source text to emit.
use vstd::prelude::*;

use crate::naming::{export_tokens_macro_ident, is_white_space, slot_name};
use crate::text::{chars_of, push_str, string_of};

verus! {

/// One segment of a path: an identifier and the text of its generic arguments (empty if none).
pub struct PathSegment {
    pub ident: String,
    pub arguments: String,
}

/// A path such as `::a::b<T>::c`.
pub struct SynPath {
    pub leading_colon: bool,
    pub segments: Vec<PathSegment>,
}

/// A captured item: its tokens as text, and its intrinsic name, if the kind of item has one
/// (an `impl` block, a `use` item or a foreign module has none).
pub struct Declaration {
    pub tokens: String,
    pub ident: Option<String>,
}

/// Why a generator invocation was refused.
#[derive(PartialEq, Eq, Structural, Clone, Copy, Debug)]
pub enum MacroError {
    /// The item has no intrinsic name and no name was given.
    MissingName,
    /// The name given is not a bare identifier.
    BadIdent,
    /// A path was expected but the path has no segments.
    EmptyPath,
    /// The function is not `pub`.
    NotPublic,
    /// The function carries none of the proc macro attributes.
    NotProcMacro,
    /// The function is a proc macro of another kind than the one expected.
    WrongMacroKind,
    /// A parameter the proc macro kind requires is missing or is not a plain identifier.
    BadParameter,
    /// `#[with_custom_parsing]` stands on a function without the bridging attribute.
    MissingBridgeAttribute,
    /// `#[with_custom_parsing]` stands more than once.
    DuplicateCustomParsing,
    /// The argument of `#[with_custom_parsing(..)]` is not a path.
    BadCustomParsingPath,
    /// Derive macros cannot be re-exported through `use`.
    UnsupportedMacroKind,
    /// The attribute takes no arguments, but some were given.
    UnexpectedArguments,
}

/// What an error says; `bridge` is the name of the bridging attribute in use.
pub open spec fn error_text(e: MacroError, bridge: Seq<char>) -> Seq<char> {
    match e {
        MacroError::MissingName => "an item without an identifier needs an explicit name"@,
        MacroError::BadIdent => "expected a bare identifier"@,
        MacroError::EmptyPath => "a path must have at least one segment"@,
        MacroError::NotPublic => "Visibility must be public"@,
        MacroError::NotProcMacro => "can only be attached to a proc macro function definition"@,
        MacroError::WrongMacroKind => "expected a function definition of another proc macro kind"@,
        MacroError::BadParameter => "the proc macro function has a missing or invalid parameter"@,
        MacroError::MissingBridgeAttribute => "Can only be attached to an attribute proc macro marked with `#["@
            + bridge + "]`"@,
        MacroError::DuplicateCustomParsing => "Only one instance of #[with_custom_parsing] can be attached at a time."@,
        MacroError::BadCustomParsingPath => "expected a path to the custom parsing type"@,
        MacroError::UnsupportedMacroKind => "derive macros are not supported here"@,
        MacroError::UnexpectedArguments => "unexpected arguments"@,
    }
}

impl MacroError {
    /// A description of the error, naming `bridge` as the bridging attribute it asks for.
    pub fn describe(&self, bridge: &str) -> (r: String)
        ensures
            r@ == error_text(*self, bridge@),
    {
        let mut out: Vec<char> = Vec::new();
        match self {
            MacroError::MissingName => push_str(&mut out, "an item without an identifier needs an explicit name"),
            MacroError::BadIdent => push_str(&mut out, "expected a bare identifier"),
            MacroError::EmptyPath => push_str(&mut out, "a path must have at least one segment"),
            MacroError::NotPublic => push_str(&mut out, "Visibility must be public"),
            MacroError::NotProcMacro => push_str(&mut out, "can only be attached to a proc macro function definition"),
            MacroError::WrongMacroKind => push_str(&mut out, "expected a function definition of another proc macro kind"),
            MacroError::BadParameter => push_str(&mut out, "the proc macro function has a missing or invalid parameter"),
            MacroError::MissingBridgeAttribute => {
                push_str(&mut out, "Can only be attached to an attribute proc macro marked with `#[");
                push_str(&mut out, bridge);
                push_str(&mut out, "]`");
            },
            MacroError::DuplicateCustomParsing => push_str(&mut out, "Only one instance of #[with_custom_parsing] can be attached at a time."),
            MacroError::BadCustomParsingPath => push_str(&mut out, "expected a path to the custom parsing type"),
            MacroError::UnsupportedMacroKind => push_str(&mut out, "derive macros are not supported here"),
            MacroError::UnexpectedArguments => push_str(&mut out, "unexpected arguments"),
        }
        assert(out@ =~= error_text(*self, bridge@));
        string_of(&out)
    }

    /// A description of the error, with `#[import_tokens_attr]` as the bridging attribute.
    pub fn message(&self) -> (r: String)
        ensures
            r@ == error_text(*self, "import_tokens_attr"@),
    {
        self.describe("import_tokens_attr")
    }
}

pub open spec fn segment_view(s: PathSegment) -> (Seq<char>, Seq<char>) {
    (s.ident@, s.arguments@)
}

pub open spec fn segments_view(v: Seq<PathSegment>) -> Seq<(Seq<char>, Seq<char>)> {
    v.map_values(|s: PathSegment| segment_view(s))
}

/// The text of a list of segments, joined by `::`.
pub open spec fn segments_text(v: Seq<(Seq<char>, Seq<char>)>) -> Seq<char>
    decreases v.len(),
{
    if v.len() == 0 {
        seq![]
    } else if v.len() == 1 {
        v[0].0 + v[0].1
    } else {
        segments_text(v.drop_last()) + "::"@ + v.last().0 + v.last().1
    }
}

/// The text of a path, given whether it starts with `::` and its segments.
pub open spec fn path_view_text(leading_colon: bool, segs: Seq<(Seq<char>, Seq<char>)>) -> Seq<char> {
    (if leading_colon { "::"@ } else { seq![] }) + segments_text(segs)
}

pub open spec fn path_text(p: SynPath) -> Seq<char> {
    path_view_text(p.leading_colon, segments_view(p.segments@))
}

/// A character as it stands inside a string literal.
pub open spec fn literal_char(c: char) -> Seq<char> {
    if c == '\\' {
        seq!['\\', '\\']
    } else if c == '"' {
        seq!['\\', '"']
    } else if c == '\r' {
        seq!['\\', 'r']
    } else {
        seq![c]
    }
}

pub open spec fn literal_body(s: Seq<char>) -> Seq<char>
    decreases s.len(),
{
    if s.len() == 0 {
        seq![]
    } else {
        literal_body(s.drop_last()) + literal_char(s.last())
    }
}

/// A string literal whose value is `s`.
pub open spec fn str_literal(s: Seq<char>) -> Seq<char> {
    seq!['"'] + literal_body(s) + seq!['"']
}

pub open spec fn is_blank(s: Seq<char>) -> bool {
    forall|i: int| 0 <= i < s.len() ==> is_white_space(#[trigger] s[i])
}

/// The default root under which this system's own continuations live.
pub open spec fn root_text() -> Seq<char> {
    "::macro_magic"@
}

/// The registry slot definition for `item`, named `slot`, followed by the item itself when
/// `emit` holds. Invoked with a continuation path, a continuation and (optionally) a payload,
/// the slot calls the continuation with the path, the item and the payload.
pub open spec fn export_text(slot: Seq<char>, item: Seq<char>, emit: bool) -> Seq<char> {
    "#[doc(hidden)] #[macro_export] macro_rules! "@ + slot + " { ($(::)?$($tokens_var:ident)::*, $(::)?$($callback:ident)::*, $extra:expr) => { $($callback)::*! { $($tokens_var)::*, "@
        + item + ", $extra } }; ($(::)?$($tokens_var:ident)::*, $(::)?$($callback:ident)::*) => { $($callback)::*! { $($tokens_var)::*, "@
        + item + " } }; }"@ + (if emit { " #[allow(unused)] "@ + item } else { seq![] })
}

/// The path under which the slot for the item that `p` names is found: the slot name alone,
/// or after the first segment of `p` when `p` has more than one.
pub open spec fn slot_path_text(p: SynPath) -> Seq<char>
    recommends
        p.segments@.len() > 0,
{
    let segs = segments_view(p.segments@);
    let slot = slot_name(segs.last().0);
    if segs.len() > 1 {
        segs[0].0 + segs[0].1 + "::"@ + slot
    } else {
        slot
    }
}

/// The invocation of the slot at `slot_path` with continuation path `first` and continuation
/// `callback`, and the payload `extra` if any.
pub open spec fn slot_call_text(
    slot_path: Seq<char>,
    first: Seq<char>,
    callback: Seq<char>,
    extra: Option<Seq<char>>,
) -> Seq<char> {
    slot_path + "! { "@ + first + ", "@ + callback + (match extra {
        Some(e) => ", "@ + str_literal(e),
        None => seq![],
    }) + " }"@
}

/// `let var = "<tokens>".parse::<<root>::__private::TokenStream2>().expect(..);`
pub open spec fn binding_text(var: Seq<char>, tokens: Seq<char>, root: Seq<char>) -> Seq<char> {
    "let "@ + var + " = "@ + str_literal(tokens) + ".parse::<"@ + root
        + "::__private::TokenStream2>().expect(\"failed to parse quoted tokens\");"@
}

/// The invocation of `target` on `item`, followed by the payload `extra` if any.
pub open spec fn target_call_text(target: Seq<char>, item: Seq<char>, extra: Option<Seq<char>>) -> Seq<char> {
    target + "! { "@ + item + (match extra {
        Some(e) => ", "@ + str_literal(e),
        None => seq![],
    }) + " }"@
}

pub(crate) fn push_literal(out: &mut Vec<char>, s: &str)
    ensures
        final(out)@ == old(out)@ + str_literal(s@),
{
    let cs = chars_of(s);
    out.push('"');
    let ghost start = out@;
    let mut i: usize = 0;
    assert(literal_body(s@.take(0)) =~= seq![]);
    while i < cs.len()
        invariant
            i <= cs@.len(),
            cs@ == s@,
            out@ == start + literal_body(s@.take(i as int)),
        decreases cs@.len() - i,
    {
        let c = cs[i];
        if c == '\\' {
            out.push('\\');
            out.push('\\');
        } else if c == '"' {
            out.push('\\');
            out.push('"');
        } else if c == '\r' {
            out.push('\\');
            out.push('r');
        } else {
            out.push(c);
        }
        proof {
            assert(s@.take(i + 1).drop_last() =~= s@.take(i as int));
        }
        i = i + 1;
    }
    assert(s@.take(i as int) =~= s@);
    out.push('"');
    assert(old(out)@ + str_literal(s@) =~= old(out)@ + seq!['"'] + literal_body(s@) + seq!['"']);
}

pub(crate) fn push_path(out: &mut Vec<char>, p: &SynPath)
    ensures
        final(out)@ == old(out)@ + path_text(*p),
{
    if p.leading_colon {
        push_str(out, "::");
    }
    let ghost start = out@;
    let ghost segs = segments_view(p.segments@);
    let mut i: usize = 0;
    assert(segments_text(segs.take(0)) =~= seq![]);
    while i < p.segments.len()
        invariant
            i <= p.segments@.len(),
            segs == segments_view(p.segments@),
            out@ == start + segments_text(segs.take(i as int)),
        decreases p.segments@.len() - i,
    {
        if i > 0 {
            push_str(out, "::");
        }
        push_str(out, p.segments[i].ident.as_str());
        push_str(out, p.segments[i].arguments.as_str());
        proof {
            assert(segs.take(i + 1).drop_last() =~= segs.take(i as int));
            assert(segs.take(i + 1).last() == segment_view(p.segments@[i as int]));
            if i == 0 {
                assert(segs.take(1)[0] == segment_view(p.segments@[0]));
            }
        }
        i = i + 1;
    }
    assert(segs.take(i as int) =~= segs);
    assert(old(out)@ + path_text(*p) =~= start + segments_text(segs));
}

pub(crate) fn blank(s: &str) -> (r: bool)
    ensures
        r == is_blank(s@),
{
    let cs = chars_of(s);
    let mut i: usize = 0;
    while i < cs.len()
        invariant
            i <= cs@.len(),
            cs@ == s@,
            forall|j: int| 0 <= j < i ==> is_white_space(#[trigger] s@[j]),
        decreases cs@.len() - i,
    {
        let c = cs[i];
        if !(('\u{9}' <= c && c <= '\u{d}') || c == ' ' || c == '\u{85}' || c == '\u{a0}'
            || c == '\u{1680}' || ('\u{2000}' <= c && c <= '\u{200a}') || c == '\u{2028}'
            || c == '\u{2029}' || c == '\u{202f}' || c == '\u{205f}' || c == '\u{3000}') {
            return false;
        }
        i = i + 1;
    }
    true
}

/// What `syn::parse_str::<syn::Ident>` makes of ASCII text: the identifier's text, or `None`.
pub uninterp spec fn ident_of(text: Seq<char>) -> Option<Seq<char>>;

pub open spec fn is_ascii_text(s: Seq<char>) -> bool {
    forall|i: int| 0 <= i < s.len() ==> (#[trigger] s[i] as u32) < 0x80
}

pub open spec fn is_ident_char(c: char) -> bool {
    ('a' <= c && c <= 'z') || ('A' <= c && c <= 'Z') || ('0' <= c && c <= '9') || c == '_'
}

/// ASCII text that lexes as exactly one identifier token: a letter or `_`, then letters,
/// digits and `_`.
pub open spec fn is_plain_ident(s: Seq<char>) -> bool {
    &&& s.len() > 0
    &&& !('0' <= s[0] && s[0] <= '9')
    &&& forall|i: int| 0 <= i < s.len() ==> is_ident_char(#[trigger] s[i])
}

/// The words `syn::Ident`'s parser refuses.
pub open spec fn is_reserved_word(s: Seq<char>) -> bool {
    s == "_"@ || s == "abstract"@ || s == "as"@ || s == "async"@ || s == "await"@ || s == "become"@
        || s == "box"@ || s == "break"@ || s == "const"@ || s == "continue"@ || s == "crate"@
        || s == "do"@ || s == "dyn"@ || s == "else"@ || s == "enum"@ || s == "extern"@
        || s == "false"@ || s == "final"@ || s == "fn"@ || s == "for"@ || s == "if"@
        || s == "impl"@ || s == "in"@ || s == "let"@ || s == "loop"@ || s == "macro"@
        || s == "match"@ || s == "mod"@ || s == "move"@ || s == "mut"@ || s == "override"@
        || s == "priv"@ || s == "pub"@ || s == "ref"@ || s == "return"@ || s == "Self"@
        || s == "self"@ || s == "static"@ || s == "struct"@ || s == "super"@ || s == "trait"@
        || s == "true"@ || s == "try"@ || s == "type"@ || s == "typeof"@ || s == "unsafe"@
        || s == "unsized"@ || s == "use"@ || s == "virtual"@ || s == "where"@ || s == "while"@
        || s == "yield"@
}

/// ASCII text holding a character that can only stand in a token other than an identifier
/// (punctuation, a delimiter, a quote), and no `/` or `#` that could open a comment or a raw
/// identifier.
pub open spec fn has_stray_char(s: Seq<char>) -> bool {
    &&& is_ascii_text(s)
    &&& forall|i: int| 0 <= i < s.len() ==> #[trigger] s[i] != '/' && s[i] != '#'
    &&& exists|i: int| 0 <= i < s.len() && !is_ident_char(#[trigger] s[i]) && !is_white_space(s[i])
}

/// Relies on `syn::parse_str::<syn::Ident>`: `Some` with the identifier's text when `text`
/// lexes to exactly one identifier that is not `_` or a keyword, else `None`. On ASCII text
/// the result depends on the text alone (the compiler's lexer also normalizes non-ASCII
/// identifiers, proc-macro2's own does not).
#[verifier::external_body]
pub(crate) fn parse_ident(text: &str) -> (r: Option<String>)
    ensures
        is_ascii_text(text@) ==> opt_view(r) == ident_of(text@),
        is_blank(text@) ==> r is None,
        is_plain_ident(text@) && !is_reserved_word(text@) ==> opt_view(r) == Some(text@),
        has_stray_char(text@) ==> r is None,
{
    match syn::parse_str::<syn::Ident>(text) {
        Ok(ident) => Some(ident.to_string()),
        Err(_) => None,
    }
}

/// The registry slot for `item` under the name `name`, followed by `item` when `emit` holds.
pub fn export_tokens(name: &str, item: &Declaration, emit: bool) -> (r: String)
    ensures
        r@ == export_text(slot_name(name@), item.tokens@, emit),
{
    let slot = export_tokens_macro_ident(name);
    let tokens = item.tokens.as_str();
    let mut out: Vec<char> = Vec::new();
    push_str(&mut out, "#[doc(hidden)] #[macro_export] macro_rules! ");
    push_str(&mut out, slot.as_str());
    push_str(&mut out, " { ($(::)?$($tokens_var:ident)::*, $(::)?$($callback:ident)::*, $extra:expr) => { $($callback)::*! { $($tokens_var)::*, ");
    push_str(&mut out, tokens);
    push_str(&mut out, ", $extra } }; ($(::)?$($tokens_var:ident)::*, $(::)?$($callback:ident)::*) => { $($callback)::*! { $($tokens_var)::*, ");
    push_str(&mut out, tokens);
    push_str(&mut out, " } }; }");
    if emit {
        push_str(&mut out, " #[allow(unused)] ");
        push_str(&mut out, tokens);
    }
    assert(out@ =~= export_text(slot_name(name@), item.tokens@, emit));
    string_of(&out)
}

/// What `#[export_tokens]` emits when the name to export under has been read from a
/// non-blank argument (`Some`), or could not be (`None`).
pub open spec fn export_named(name: Option<Seq<char>>, item: Declaration, emit: bool) -> Result<Seq<char>, MacroError> {
    match name {
        Some(n) => Ok(export_text(slot_name(n), item.tokens@, emit)),
        None => Err(MacroError::BadIdent),
    }
}

pub open spec fn result_view(r: Result<String, MacroError>) -> Result<Seq<char>, MacroError> {
    match r {
        Ok(t) => Ok(t@),
        Err(e) => Err(e),
    }
}

/// The internal code behind `#[export_tokens]`. `attr` is the text of the attribute's
/// argument: blank, or the name to export under, which must be a bare identifier. The name is
/// required when `item` has no intrinsic name, and wins over it when given.
pub fn export_tokens_internal(attr: &str, item: &Declaration, emit: bool) -> (r: Result<String, MacroError>)
    ensures
        is_blank(attr@) && item.ident is Some ==> result_view(r) == export_named(
            Some(item.ident->Some_0@),
            *item,
            emit,
        ),
        is_blank(attr@) && item.ident is None ==> r == Err::<String, MacroError>(
            MacroError::MissingName,
        ),
        !is_blank(attr@) && is_ascii_text(attr@) ==> result_view(r) == export_named(
            ident_of(attr@),
            *item,
            emit,
        ),
        is_plain_ident(attr@) && !is_reserved_word(attr@) ==> result_view(r) == export_named(
            Some(attr@),
            *item,
            emit,
        ),
        has_stray_char(attr@) ==> r == Err::<String, MacroError>(MacroError::BadIdent),
        !is_blank(attr@) ==> match r {
            Ok(t) => exists|name: Seq<char>| t@ == #[trigger] export_text(slot_name(name), item.tokens@, emit),
            Err(e) => e == MacroError::BadIdent,
        },
{
    if blank(attr) {
        if let Some(name) = &item.ident {
            return Ok(export_tokens(name.as_str(), item, emit));
        }
        return Err(MacroError::MissingName);
    }
    match parse_ident(attr) {
        Some(name) => Ok(export_tokens(name.as_str(), item, emit)),
        None => Err(MacroError::BadIdent),
    }
}

/// The arguments of `import_tokens!`: `let <tokens_var_ident> = <source_path>`.
pub struct ImportTokensArgs {
    pub tokens_var_ident: String,
    pub source_path: SynPath,
}

/// The arguments a slot hands to the inner import continuation: `<tokens_var_ident>, <item>`.
pub struct ImportedTokens {
    pub tokens_var_ident: String,
    pub item: Declaration,
}

/// The arguments of `forward_tokens!`: `<source>, <target>[, <mm_path>[, <extra>]]`.
pub struct ForwardTokensArgs {
    /// The path of the item whose tokens are forwarded.
    pub source: SynPath,
    /// The path of the macro that receives them.
    pub target: SynPath,
    /// The root under which the forwarding continuation lives, if not the default.
    pub mm_path: Option<SynPath>,
    /// A payload that travels with the item.
    pub extra: Option<String>,
}

/// The arguments a slot hands to the inner forward continuation:
/// `<target_path>, <item>[, <extra>]`.
pub struct ForwardedTokens {
    pub target_path: SynPath,
    pub item: Declaration,
    pub extra: Option<String>,
}

/// The arguments the inner continuation of an attribute bridge receives:
/// `<imported_item>, <extra>`.
pub struct AttrItemWithExtra {
    pub imported_item: Declaration,
    pub extra: String,
}

pub open spec fn opt_view(o: Option<String>) -> Option<Seq<char>> {
    match o {
        Some(s) => Some(s@),
        None => None,
    }
}

impl PathSegment {
    pub fn copy(&self) -> (r: PathSegment)
        ensures
            segment_view(r) == segment_view(*self),
    {
        PathSegment { ident: self.ident.clone(), arguments: self.arguments.clone() }
    }
}

fn plain_segment(ident: &str) -> (r: PathSegment)
    ensures
        segment_view(r) == (ident@, Seq::<char>::empty()),
{
    PathSegment { ident: string_of(&chars_of(ident)), arguments: String::new() }
}

/// The path of this system's root: `::macro_magic`.
pub fn macro_magic_root() -> (r: SynPath)
    ensures
        r.leading_colon,
        segments_view(r.segments@) == seq![("macro_magic"@, Seq::<char>::empty())],
        path_text(r) == root_text(),
{
    let mut segments: Vec<PathSegment> = Vec::new();
    segments.push(plain_segment("macro_magic"));
    let r = SynPath { leading_colon: true, segments };
    proof {
        reveal_strlit("macro_magic");
        reveal_strlit("::");
        reveal_strlit("::macro_magic");
        assert(segments_view(r.segments@) =~= seq![("macro_magic"@, Seq::<char>::empty())]);
        assert(path_text(r) =~= root_text());
    }
    r
}

pub(crate) fn append_segments(segments: &mut Vec<PathSegment>, more: &SynPath)
    ensures
        segments_view(final(segments)@) == segments_view(old(segments)@) + segments_view(
            more.segments@,
        ),
{
    let mut i: usize = 0;
    while i < more.segments.len()
        invariant
            i <= more.segments@.len(),
            segments_view(segments@) == segments_view(old(segments)@) + segments_view(
                more.segments@.take(i as int),
            ),
        decreases more.segments@.len() - i,
    {
        let ghost prev = segments@;
        let seg = more.segments[i].copy();
        segments.push(seg);
        proof {
            let t = more.segments@.take(i + 1);
            assert(t =~= more.segments@.take(i as int).push(more.segments@[i as int]));
            assert(segments_view(t) =~= segments_view(more.segments@.take(i as int)).push(
                segment_view(more.segments@[i as int]),
            ));
            assert(segments_view(segments@) =~= segments_view(prev).push(segment_view(seg)));
        }
        i = i + 1;
        assert(segments_view(segments@) =~= segments_view(old(segments)@) + segments_view(
            more.segments@.take(i as int),
        ));
    }
    assert(more.segments@.take(i as int) =~= more.segments@);
}

fn copy_path(p: &SynPath) -> (r: SynPath)
    ensures
        r.leading_colon == p.leading_colon,
        segments_view(r.segments@) == segments_view(p.segments@),
{
    let mut r = SynPath { leading_colon: p.leading_colon, segments: Vec::new() };
    append_segments(&mut r.segments, p);
    assert(segments_view(r.segments@) =~= segments_view(p.segments@));
    r
}

/// `<root>::<subpath>`.
pub fn macro_magic_path(subpath: &SynPath, root: &SynPath) -> (r: SynPath)
    ensures
        r.leading_colon == root.leading_colon,
        segments_view(r.segments@) == segments_view(root.segments@) + segments_view(subpath.segments@),
{
    let mut r = copy_path(root);
    append_segments(&mut r.segments, subpath);
    r
}

/// `<root>::__private::<subpath>`.
pub fn private_path(subpath: &SynPath, root: &SynPath) -> (r: SynPath)
    ensures
        r.leading_colon == root.leading_colon,
        segments_view(r.segments@) == segments_view(root.segments@) + seq![
            ("__private"@, Seq::<char>::empty()),
        ] + segments_view(subpath.segments@),
{
    let mut r = copy_path(root);
    let ghost before = r.segments@;
    r.segments.push(plain_segment("__private"));
    assert(segments_view(r.segments@) =~= segments_view(root.segments@) + seq![
        ("__private"@, Seq::<char>::empty()),
    ]);
    append_segments(&mut r.segments, subpath);
    r
}

fn push_slot_path(out: &mut Vec<char>, p: &SynPath)
    requires
        p.segments@.len() > 0,
    ensures
        final(out)@ == old(out)@ + slot_path_text(*p),
{
    let n = p.segments.len();
    let ghost segs = segments_view(p.segments@);
    assert(segs.last() == segment_view(p.segments@[n - 1]));
    let slot = export_tokens_macro_ident(p.segments[n - 1].ident.as_str());
    if n > 1 {
        assert(segs[0] == segment_view(p.segments@[0]));
        push_str(out, p.segments[0].ident.as_str());
        push_str(out, p.segments[0].arguments.as_str());
        push_str(out, "::");
    }
    push_str(out, slot.as_str());
    assert(final(out)@ =~= old(out)@ + slot_path_text(*p));
}

/// The internal implementation of `import_tokens!`: invokes the slot of the item at
/// `source_path` with the inner import continuation under `root`, which binds
/// `tokens_var_ident`.
pub fn import_tokens_internal(args: &ImportTokensArgs, root: &SynPath) -> (r: Result<String, MacroError>)
    ensures
        args.source_path.segments@.len() == 0 ==> r == Err::<String, MacroError>(
            MacroError::EmptyPath,
        ),
        args.source_path.segments@.len() > 0 ==> r is Ok && r->Ok_0@ == slot_call_text(
            slot_path_text(args.source_path),
            args.tokens_var_ident@,
            path_text(*root) + "::__private::import_tokens_inner"@,
            None,
        ),
{
    if args.source_path.segments.len() == 0 {
        return Err(MacroError::EmptyPath);
    }
    let mut out: Vec<char> = Vec::new();
    push_slot_path(&mut out, &args.source_path);
    push_str(&mut out, "! { ");
    push_str(&mut out, args.tokens_var_ident.as_str());
    push_str(&mut out, ", ");
    push_path(&mut out, root);
    push_str(&mut out, "::__private::import_tokens_inner");
    push_str(&mut out, " }");
    assert(out@ =~= slot_call_text(
        slot_path_text(args.source_path),
        args.tokens_var_ident@,
        path_text(*root) + "::__private::import_tokens_inner"@,
        None,
    ));
    Ok(string_of(&out))
}

/// The internal implementation of the inner import continuation: binds `tokens_var_ident` to
/// the item's tokens, parsed back into a token stream of the version under `root`.
pub fn import_tokens_inner_internal(args: &ImportedTokens, root: &SynPath) -> (r: Result<String, MacroError>)
    ensures
        r is Ok,
        r->Ok_0@ == binding_text(args.tokens_var_ident@, args.item.tokens@, path_text(*root)),
{
    let mut out: Vec<char> = Vec::new();
    push_str(&mut out, "let ");
    push_str(&mut out, args.tokens_var_ident.as_str());
    push_str(&mut out, " = ");
    push_literal(&mut out, args.item.tokens.as_str());
    push_str(&mut out, ".parse::<");
    push_path(&mut out, root);
    push_str(&mut out, "::__private::TokenStream2>().expect(\"failed to parse quoted tokens\");");
    assert(out@ =~= binding_text(args.tokens_var_ident@, args.item.tokens@, path_text(*root)));
    Ok(string_of(&out))
}

pub open spec fn forward_root_text(args: ForwardTokensArgs, root: SynPath) -> Seq<char> {
    match args.mm_path {
        Some(p) => path_text(p),
        None => path_text(root),
    }
}

/// The internal implementation of `forward_tokens!`: invokes the slot of the item at `source`
/// with the inner forward continuation, which hands the item (and `extra`) to `target`. The
/// continuation lives under `args.mm_path` when given, else under `root`.
pub fn forward_tokens_internal(args: &ForwardTokensArgs, root: &SynPath) -> (r: Result<String, MacroError>)
    ensures
        args.source.segments@.len() == 0 ==> r == Err::<String, MacroError>(
            MacroError::EmptyPath,
        ),
        args.source.segments@.len() > 0 ==> r is Ok && r->Ok_0@ == slot_call_text(
            slot_path_text(args.source),
            path_text(args.target),
            forward_root_text(*args, *root) + "::__private::forward_tokens_inner"@,
            opt_view(args.extra),
        ),
{
    if args.source.segments.len() == 0 {
        return Err(MacroError::EmptyPath);
    }
    let mut out: Vec<char> = Vec::new();
    push_slot_path(&mut out, &args.source);
    push_str(&mut out, "! { ");
    push_path(&mut out, &args.target);
    push_str(&mut out, ", ");
    match &args.mm_path {
        Some(p) => push_path(&mut out, p),
        None => push_path(&mut out, root),
    }
    push_str(&mut out, "::__private::forward_tokens_inner");
    match &args.extra {
        Some(e) => {
            push_str(&mut out, ", ");
            push_literal(&mut out, e.as_str());
        },
        None => {},
    }
    push_str(&mut out, " }");
    assert(out@ =~= slot_call_text(
        slot_path_text(args.source),
        path_text(args.target),
        forward_root_text(*args, *root) + "::__private::forward_tokens_inner"@,
        opt_view(args.extra),
    ));
    Ok(string_of(&out))
}

/// The internal implementation of the inner forward continuation: invokes the target on the
/// item, followed by the payload if there is one.
pub fn forward_tokens_inner_internal(args: &ForwardedTokens) -> (r: Result<String, MacroError>)
    ensures
        r is Ok,
        r->Ok_0@ == target_call_text(path_text(args.target_path), args.item.tokens@, opt_view(args.extra)),
{
    let mut out: Vec<char> = Vec::new();
    push_path(&mut out, &args.target_path);
    push_str(&mut out, "! { ");
    push_str(&mut out, args.item.tokens.as_str());
    match &args.extra {
        Some(e) => {
            push_str(&mut out, ", ");
            push_literal(&mut out, e.as_str());
        },
        None => {},
    }
    push_str(&mut out, " }");
    assert(out@ =~= target_call_text(path_text(args.target_path), args.item.tokens@, opt_view(args.extra)));
    Ok(string_of(&out))
}

/// Emitting the item only appends it, unchanged, after the slot definition.
pub proof fn lemma_emit_appends_item(slot: Seq<char>, item: Seq<char>)
    ensures
        export_text(slot, item, true) == export_text(slot, item, false) + " #[allow(unused)] "@ + item,
{
    assert(export_text(slot, item, true) =~= export_text(slot, item, false) + " #[allow(unused)] "@ + item);
}

/// Importing the name an item was exported under reaches that item's slot: the slot path the
/// import invokes ends with the very name the export defined.
pub proof fn lemma_import_reaches_export(item: Declaration, args: ImportTokensArgs)
    requires
        item.ident is Some,
        args.source_path.segments@.len() > 0,
        args.source_path.segments@.last().ident@ == item.ident->Some_0@,
    ensures
        ({
            let slot = slot_name(item.ident->Some_0@);
            let p = slot_path_text(args.source_path);
            p.len() >= slot.len() && p.subrange(p.len() - slot.len(), p.len() as int) == slot
        }),
{
    let segs = segments_view(args.source_path.segments@);
    assert(segs.last().0 == item.ident->Some_0@);
    let slot = slot_name(item.ident->Some_0@);
    let p = slot_path_text(args.source_path);
    if segs.len() > 1 {
        assert(p.subrange(p.len() - slot.len(), p.len() as int) =~= slot);
    } else {
        assert(p.subrange(0, p.len() as int) =~= slot);
    }
}

} // verus!
