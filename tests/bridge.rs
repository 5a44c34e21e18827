use macro_magic_core::bridge::{
    export_tokens_alias, export_tokens_alias_internal, import_tokens_attr_internal,
    import_tokens_proc_internal, parse_proc_macro_variant, use_internal, with_custom_parsing_internal,
    BasicUseStmt, FnAttribute, FnParam, ProcFn, ProcMacro, ProcMacroType,
};
use macro_magic_core::codec::split_extra;
use macro_magic_core::protocol::{macro_magic_root, MacroError, PathSegment, SynPath};

fn path(text: &str) -> SynPath {
    let leading_colon = text.starts_with("::");
    let body = text.trim_start_matches("::");
    SynPath {
        leading_colon,
        segments: body
            .split("::")
            .map(|s| PathSegment { ident: s.to_string(), arguments: String::new() })
            .collect(),
    }
}

fn attr(name: &str, arg: Option<&str>) -> FnAttribute {
    let text = match arg {
        Some(a) => format!("#[{}({})]", name, a),
        None => format!("#[{}]", name),
    };
    FnAttribute { path: path(name), text, arg_path: arg.map(path) }
}

fn param(ident: &str) -> FnParam {
    FnParam { ident: Some(ident.to_string()), text: format!("{}: TokenStream", ident) }
}

fn attr_macro(attrs: Vec<FnAttribute>) -> ProcFn {
    ProcFn {
        attrs,
        is_public: true,
        ident: "my_attr".to_string(),
        inputs: vec![param("attr"), param("tokens")],
        output: "-> TokenStream".to_string(),
        body: "tokens".to_string(),
    }
}

fn proc_macro_fn() -> ProcFn {
    ProcFn {
        attrs: vec![attr("proc_macro", None), attr("import_tokens_proc", None)],
        is_public: true,
        ident: "my_proc".to_string(),
        inputs: vec![param("tokens")],
        output: "-> TokenStream".to_string(),
        body: "tokens".to_string(),
    }
}

#[test]
fn macro_type_text() {
    assert_eq!(ProcMacroType::Normal.to_str(), "#[proc_macro]");
    assert_eq!(ProcMacroType::Attribute.to_str(), "#[proc_macro_attribute]");
    assert_eq!(ProcMacroType::Derive.to_str(), "#[proc_macro_derive]");
    let a = ProcMacroType::Attribute.to_attr();
    assert_eq!(a.text, "#[proc_macro_attribute]");
    assert_eq!(a.path.segments[0].ident, "proc_macro_attribute");
}

#[test]
fn proc_macro_from_reads_parameters() {
    let m = ProcMacro::from(attr_macro(vec![attr("proc_macro_attribute", None)])).ok().unwrap();
    assert!(m.macro_type == ProcMacroType::Attribute);
    assert_eq!(m.tokens_ident, "tokens");
    assert_eq!(m.attr_ident, Some("attr".to_string()));
    let n = ProcMacro::from(proc_macro_fn()).ok().unwrap();
    assert!(n.macro_type == ProcMacroType::Normal);
    assert_eq!(n.attr_ident, None);
}

#[test]
fn proc_macro_from_errors() {
    let mut private = attr_macro(vec![attr("proc_macro_attribute", None)]);
    private.is_public = false;
    assert!(ProcMacro::from(private).err() == Some(MacroError::NotPublic));
    assert!(ProcMacro::from(attr_macro(vec![attr("inline", None)])).err() == Some(MacroError::NotProcMacro));
    let derive = ProcMacro::from(attr_macro(vec![attr("proc_macro_derive", Some("MyTrait"))])).ok().unwrap();
    assert!(derive.macro_type == ProcMacroType::Derive);
    assert_eq!(derive.attr_ident, None);
    let mut bad = attr_macro(vec![attr("proc_macro_attribute", None)]);
    bad.inputs[1].ident = None;
    assert!(ProcMacro::from(bad).err() == Some(MacroError::BadParameter));
    assert!(parse_proc_macro_variant(proc_macro_fn(), ProcMacroType::Attribute).err() == Some(MacroError::WrongMacroKind));
}

#[test]
fn attr_bridge_plain_path() {
    let f = attr_macro(vec![attr("proc_macro_attribute", None), attr("import_tokens_attr", None)]);
    let out = import_tokens_attr_internal(None, f, &macro_magic_root()).ok().unwrap();
    assert!(out.starts_with("#[proc_macro_attribute] #[import_tokens_attr] pub fn my_attr(attr: TokenStream, tokens: TokenStream) -> TokenStream { "));
    assert!(out.contains("let path = syn::parse_macro_input!(attr as syn::Path);"));
    assert!(out.contains("use ::macro_magic::__private::quote::ToTokens; use ::macro_magic::mm_core::*; let attached_item"));
    assert!(out.contains("::macro_magic::forward_tokens! { #path, __import_tokens_attr_my_attr_inner, ::macro_magic, #extra }"));
    assert!(out.contains("#[doc(hidden)] #[proc_macro] pub fn __import_tokens_attr_my_attr_inner(attr: TokenStream) -> TokenStream { "));
    assert!(out.ends_with("(tokens, foreign_path, custom_parsed_tokens) }; tokens }"));
}

#[test]
fn attr_bridge_custom_parsing_resolves_through_foreign_path() {
    let f = attr_macro(vec![
        attr("proc_macro_attribute", None),
        attr("with_custom_parsing", Some("my_crate::CustomParsingA")),
        attr("import_tokens_attr", None),
    ]);
    let out = import_tokens_attr_internal(Some(path("::other_root")), f, &macro_magic_root()).ok().unwrap();
    assert!(out.contains("let custom_parsed = syn::parse_macro_input!(attr as my_crate::CustomParsingA); let path = (&custom_parsed as &dyn ForeignPath).foreign_path();"));
    assert!(!out.contains("as syn::Path);"));
    assert!(!out.contains("#[with_custom_parsing"));
    assert!(out.contains("::other_root::forward_tokens! { #path, __import_tokens_attr_my_attr_inner, ::other_root, #extra }"));
}

#[test]
fn attr_bridge_bad_custom_path() {
    let mut a = attr("with_custom_parsing", Some("x"));
    a.arg_path = None;
    let f = attr_macro(vec![attr("proc_macro_attribute", None), a]);
    assert!(import_tokens_attr_internal(None, f, &macro_magic_root()).err() == Some(MacroError::BadCustomParsingPath));
}

#[test]
fn bridged_payload_survives_delimiters() {
    let item = "struct S { s : & 'static str } // ~~ \\";
    let record = macro_magic_core::codec::join_extra(item, "a::b", "x ~~ y");
    assert_eq!(split_extra(&record), Some((item.to_string(), "a::b".to_string(), "x ~~ y".to_string())));
}

#[test]
fn proc_bridge() {
    let out = import_tokens_proc_internal(None, proc_macro_fn(), &macro_magic_root()).ok().unwrap();
    assert!(out.contains("let source_path = match syn::parse::<syn::Path>(tokens)"));
    assert!(out.contains("::macro_magic::forward_tokens! { #source_path, __import_tokens_proc_my_proc_inner, ::macro_magic }"));
    assert!(out.ends_with("#[doc(hidden)] #[proc_macro] pub fn __import_tokens_proc_my_proc_inner(tokens: TokenStream) -> TokenStream { tokens }"));
    let f = attr_macro(vec![attr("proc_macro_attribute", None)]);
    assert!(import_tokens_proc_internal(None, f, &macro_magic_root()).err() == Some(MacroError::WrongMacroKind));
}

#[test]
fn custom_parsing_checks() {
    let ok = attr_macro(vec![attr("proc_macro_attribute", None), attr("import_tokens_attr", None)]);
    let out = with_custom_parsing_internal(Some(path("my::Custom")), ok, "import_tokens_attr").ok().unwrap();
    assert_eq!(
        out,
        "#[proc_macro_attribute] #[import_tokens_attr] #[with_custom_parsing(my::Custom)] pub fn my_attr(attr: TokenStream, tokens: TokenStream) -> TokenStream { tokens }"
    );
    let missing = attr_macro(vec![attr("proc_macro_attribute", None)]);
    assert!(with_custom_parsing_internal(Some(path("C")), missing, "import_tokens_attr").err() == Some(MacroError::MissingBridgeAttribute));
    let twice = attr_macro(vec![
        attr("proc_macro_attribute", None),
        attr("import_tokens_attr", None),
        attr("with_custom_parsing", Some("C")),
    ]);
    assert!(with_custom_parsing_internal(Some(path("C")), twice, "import_tokens_attr").err() == Some(MacroError::DuplicateCustomParsing));
    let ok = attr_macro(vec![attr("proc_macro_attribute", None), attr("import_tokens_attr", None)]);
    assert!(with_custom_parsing_internal(None, ok, "import_tokens_attr").err() == Some(MacroError::BadCustomParsingPath));
}

#[test]
fn test_parse_use_stmt() {
    let stmt = BasicUseStmt { attrs: vec![], vis: String::new(), path: path("some::path") };
    assert!(use_internal("", &stmt, ProcMacroType::Attribute).is_ok());
    let stmt = BasicUseStmt { attrs: vec![], vis: "pub".to_string(), path: path("some::long::path") };
    assert!(use_internal("", &stmt, ProcMacroType::Attribute).is_ok());
}

#[test]
fn use_renames_hidden_inner() {
    let stmt = BasicUseStmt { attrs: vec!["#[cfg(x)]".to_string()], vis: "pub".to_string(), path: path("some::my_attr") };
    assert_eq!(
        use_internal("", &stmt, ProcMacroType::Attribute).unwrap(),
        "#[cfg(x)] pub use some::my_attr; #[doc(hidden)] pub use some::__import_tokens_attr_my_attr_inner;"
    );
    assert_eq!(
        use_internal("", &stmt, ProcMacroType::Normal).unwrap(),
        "#[cfg(x)] pub use some::my_attr; #[doc(hidden)] pub use some::__import_tokens_proc_my_attr_inner;"
    );
    assert!(use_internal("", &stmt, ProcMacroType::Derive) == Err(MacroError::UnsupportedMacroKind));
    assert!(use_internal("x", &stmt, ProcMacroType::Normal) == Err(MacroError::UnexpectedArguments));
}

#[test]
fn alias() {
    let out = export_tokens_alias("my_export", false, &macro_magic_root());
    assert!(out.starts_with("#[proc_macro_attribute] pub fn my_export(attr: proc_macro::TokenStream"));
    assert!(out.contains("::macro_magic::mm_core::export_tokens_internal(attr, tokens, false)"));
    assert_eq!(
        export_tokens_alias_internal("my_export", true, &macro_magic_root()).unwrap(),
        export_tokens_alias("my_export", true, &macro_magic_root())
    );
    assert!(export_tokens_alias_internal("", true, &macro_magic_root()) == Err(MacroError::BadIdent));
    assert!(export_tokens_alias_internal("a::b", true, &macro_magic_root()) == Err(MacroError::BadIdent));
}
