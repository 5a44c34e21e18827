use macro_magic_core::protocol::{
    export_tokens_internal, forward_tokens_inner_internal, forward_tokens_internal,
    import_tokens_inner_internal, import_tokens_internal, macro_magic_path, macro_magic_root,
    private_path, Declaration, ForwardTokensArgs, ForwardedTokens, ImportTokensArgs,
    ImportedTokens, MacroError, PathSegment, SynPath,
};

fn seg(ident: &str) -> PathSegment {
    PathSegment { ident: ident.to_string(), arguments: String::new() }
}

fn path(text: &str) -> SynPath {
    let leading_colon = text.starts_with("::");
    let body = text.trim_start_matches("::");
    SynPath { leading_colon, segments: body.split("::").map(seg).collect() }
}

fn decl(tokens: &str, ident: Option<&str>) -> Declaration {
    Declaration { tokens: tokens.to_string(), ident: ident.map(|s| s.to_string()) }
}

#[test]
fn export_tokens_internal_missing_ident() {
    assert!(export_tokens_internal("", &decl("impl MyTrait for Something", None), true).is_err());
}

#[test]
fn export_tokens_internal_normal_no_ident() {
    assert!(export_tokens_internal("", &decl("struct MyStruct {}", Some("MyStruct")), true)
        .unwrap()
        .to_string()
        .contains("my_struct"));
}

#[test]
fn export_tokens_internal_normal_ident() {
    assert!(export_tokens_internal("some_name", &decl("struct Something {}", Some("Something")), true)
        .unwrap()
        .to_string()
        .contains("some_name"));
}

#[test]
fn export_tokens_internal_generics_no_ident() {
    assert!(export_tokens_internal("", &decl("struct MyStruct < T > {}", Some("MyStruct")), true)
        .unwrap()
        .to_string()
        .contains("__export_tokens_tt_my_struct"));
}

#[test]
fn export_tokens_internal_bad_ident() {
    assert!(export_tokens_internal("Something<T>", &decl("struct MyStruct {}", Some("MyStruct")), true)
        .is_err());
    assert!(export_tokens_internal("some::path", &decl("struct MyStruct {}", Some("MyStruct")), true)
        .is_err());
}

#[test]
fn test_export_tokens_no_emit() {
    assert!(export_tokens_internal("some_name", &decl("struct Something {}", Some("Something")), false)
        .unwrap()
        .to_string()
        .contains("some_name"));
}

#[test]
fn import_tokens_internal_simple_path() {
    let args = ImportTokensArgs { tokens_var_ident: "tokens".to_string(), source_path: path("my_crate::SomethingCool") };
    assert!(import_tokens_internal(&args, &macro_magic_root())
        .unwrap()
        .to_string()
        .contains("__export_tokens_tt_something_cool"));
}

#[test]
fn import_tokens_internal_flatten_long_paths() {
    let args = ImportTokensArgs {
        tokens_var_ident: "tokens".to_string(),
        source_path: path("my_crate::some_mod::complex::SomethingElse"),
    };
    assert!(import_tokens_internal(&args, &macro_magic_root())
        .unwrap()
        .to_string()
        .contains("__export_tokens_tt_something_else"));
}

#[test]
fn import_tokens_inner_internal_basic() {
    let args = ImportedTokens {
        tokens_var_ident: "my_ident".to_string(),
        item: decl("fn my_function () -> u32 { 33 }", Some("my_function")),
    };
    assert!(import_tokens_inner_internal(&args, &macro_magic_root()).unwrap().to_string().contains("my_ident"));
}

#[test]
fn import_tokens_inner_internal_impl() {
    let args = ImportedTokens {
        tokens_var_ident: "another_ident".to_string(),
        item: decl("impl Something for MyThing { fn something () -> CoolStuff { CoolStuff { } } }", None),
    };
    assert!(import_tokens_inner_internal(&args, &macro_magic_root()).unwrap().to_string().contains("something ()"));
}

#[test]
fn test_export_tokens() {
    let item = decl("fn add_stuff(a : usize, b : usize) -> usize { a + b }", Some("add_stuff"));
    let out = export_tokens_internal("", &item, true).unwrap();
    assert!(out.contains("macro_rules! __export_tokens_tt_add_stuff"));
    assert!(out.contains("fn add_stuff(a : usize, b : usize) -> usize { a + b }"));
}

#[test]
fn test_import_tokens() {
    let tokens = "fn add_stuff (c : usize , d : usize) -> usize { c + d }";
    let item = decl(tokens, Some("add_stuff"));
    let exported = export_tokens_internal("", &item, true).unwrap();
    let args = ImportTokensArgs { tokens_var_ident: "t".to_string(), source_path: path("add_stuff") };
    let call = import_tokens_internal(&args, &macro_magic_root()).unwrap();
    assert!(call.starts_with("__export_tokens_tt_add_stuff! { t, ::macro_magic::__private::import_tokens_inner }"));
    assert!(exported.contains("macro_rules! __export_tokens_tt_add_stuff "));
    let bound = import_tokens_inner_internal(&ImportedTokens { tokens_var_ident: "t".to_string(), item }, &macro_magic_root()).unwrap();
    assert_eq!(
        bound,
        format!("let t = \"{}\".parse::<::macro_magic::__private::TokenStream2>().expect(\"failed to parse quoted tokens\");", tokens)
    );
}

#[test]
fn export_exact_text() {
    let out = export_tokens_internal("", &decl("struct A;", Some("A")), false).unwrap();
    assert_eq!(
        out,
        "#[doc(hidden)] #[macro_export] macro_rules! __export_tokens_tt_a { ($(::)?$($tokens_var:ident)::*, $(::)?$($callback:ident)::*, $extra:expr) => { $($callback)::*! { $($tokens_var)::*, struct A;, $extra } }; ($(::)?$($tokens_var:ident)::*, $(::)?$($callback:ident)::*) => { $($callback)::*! { $($tokens_var)::*, struct A; } }; }"
    );
    let emitted = export_tokens_internal("", &decl("struct A;", Some("A")), true).unwrap();
    assert!(emitted.ends_with("} }; } #[allow(unused)] struct A;"));
}

#[test]
fn export_override_on_nameless_item() {
    let out = export_tokens_internal("MyImpl", &decl("impl MyTrait for Something {}", None), true).unwrap();
    assert!(out.contains("macro_rules! __export_tokens_tt_my_impl "));
    assert!(export_tokens_internal("  ", &decl("impl MyTrait for Something {}", None), true) == Err(MacroError::MissingName));
    assert!(export_tokens_internal("a b", &decl("struct S;", Some("S")), true) == Err(MacroError::BadIdent));
}

#[test]
fn import_single_segment_and_empty_path() {
    let args = ImportTokensArgs { tokens_var_ident: "x".to_string(), source_path: path("::my_crate::Thing") };
    assert_eq!(
        import_tokens_internal(&args, &macro_magic_root()).unwrap(),
        "my_crate::__export_tokens_tt_thing! { x, ::macro_magic::__private::import_tokens_inner }"
    );
    let empty = ImportTokensArgs { tokens_var_ident: "x".to_string(), source_path: SynPath { leading_colon: false, segments: vec![] } };
    assert!(import_tokens_internal(&empty, &macro_magic_root()) == Err(MacroError::EmptyPath));
}

#[test]
fn forward_with_and_without_payload() {
    let mut args = ForwardTokensArgs { source: path("other::Foo"), target: path("my_macro"), mm_path: None, extra: None };
    assert_eq!(
        forward_tokens_internal(&args, &macro_magic_root()).unwrap(),
        "other::__export_tokens_tt_foo! { my_macro, ::macro_magic::__private::forward_tokens_inner }"
    );
    args.mm_path = Some(path("::my_root"));
    args.extra = Some("a~~b \"q\" \\".to_string());
    assert_eq!(
        forward_tokens_internal(&args, &macro_magic_root()).unwrap(),
        "other::__export_tokens_tt_foo! { my_macro, ::my_root::__private::forward_tokens_inner, \"a~~b \\\"q\\\" \\\\\" }"
    );
    let no_source = ForwardTokensArgs { source: SynPath { leading_colon: false, segments: vec![] }, target: path("m"), mm_path: None, extra: None };
    assert!(forward_tokens_internal(&no_source, &macro_magic_root()) == Err(MacroError::EmptyPath));
}

#[test]
fn forward_inner_splices_item_and_payload() {
    let args = ForwardedTokens { target_path: path("a::b"), item: decl("struct S;", Some("S")), extra: None };
    assert_eq!(forward_tokens_inner_internal(&args).unwrap(), "a::b! { struct S; }");
    let args = ForwardedTokens { target_path: path("a::b"), item: decl("struct S;", Some("S")), extra: Some("x~~y\r".to_string()) };
    assert_eq!(forward_tokens_inner_internal(&args).unwrap(), "a::b! { struct S;, \"x~~y\\r\" }");
}

#[test]
fn root_paths() {
    let root = macro_magic_root();
    assert!(root.leading_colon);
    assert_eq!(root.segments.len(), 1);
    assert_eq!(root.segments[0].ident, "macro_magic");
    let p = private_path(&path("import_tokens_inner"), &macro_magic_root());
    let names: Vec<&str> = p.segments.iter().map(|s| s.ident.as_str()).collect();
    assert_eq!(names, vec!["macro_magic", "__private", "import_tokens_inner"]);
    let q = macro_magic_path(&path("mm_core::export_tokens_internal"), &macro_magic_root());
    let names: Vec<&str> = q.segments.iter().map(|s| s.ident.as_str()).collect();
    assert_eq!(names, vec!["macro_magic", "mm_core", "export_tokens_internal"]);
}

#[test]
fn error_messages() {
    assert_eq!(MacroError::NotPublic.message(), "Visibility must be public");
    assert_eq!(
        MacroError::MissingBridgeAttribute.describe("my_bridge"),
        "Can only be attached to an attribute proc macro marked with `#[my_bridge]`"
    );
    assert!(MacroError::DuplicateCustomParsing.message().contains("Only one instance"));
}

#[test]
fn custom_root() {
    let root = path("::my_magic");
    let args = ImportTokensArgs { tokens_var_ident: "x".to_string(), source_path: path("Thing") };
    assert_eq!(
        import_tokens_internal(&args, &root).unwrap(),
        "__export_tokens_tt_thing! { x, ::my_magic::__private::import_tokens_inner }"
    );
    let bound = import_tokens_inner_internal(&ImportedTokens { tokens_var_ident: "x".to_string(), item: decl("struct S;", Some("S")) }, &root).unwrap();
    assert_eq!(bound, "let x = \"struct S;\".parse::<::my_magic::__private::TokenStream2>().expect(\"failed to parse quoted tokens\");");
    let p = private_path(&path("a"), &root);
    let names: Vec<&str> = p.segments.iter().map(|s| s.ident.as_str()).collect();
    assert_eq!(names, vec!["my_magic", "__private", "a"]);
}

#[test]
fn export_override_wins_and_emit_appends() {
    let item = decl("struct Something {}", Some("Something"));
    let on = export_tokens_internal("some_name", &item, true).unwrap();
    let off = export_tokens_internal("some_name", &item, false).unwrap();
    assert!(off.contains("macro_rules! __export_tokens_tt_some_name "));
    assert!(!off.contains("something"));
    assert_eq!(on, format!("{} #[allow(unused)] struct Something {{}}", off));
    assert!(export_tokens_internal("fn", &item, true) == Err(MacroError::BadIdent));
    assert!(export_tokens_internal("_", &item, true) == Err(MacroError::BadIdent));
}
