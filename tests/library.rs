use stripper_lib::consts::{END_INFO, FILE, MOD_COMMENT};
use stripper_lib::events::build_event_list;
use stripper_lib::lexer::{clean_input, transform_code};
use stripper_lib::regenerate::{
    gen_indent_from, parse_cmts, regenerate_comments, save_remainings, type_matches,
    SidecarError,
};
use stripper_lib::strip::{
    add_to_type_scope, process_file, strip_comments, type_out_scope, Action, StripError,
};
use stripper_lib::text::chars_of;
use stripper_lib::types::{EventInfo, EventType, Type, TypeNode, TypeStruct};
use stripper_lib::utils::{
    join, remove_macro_parent, skip_file, write_comment, write_file, write_file_comment,
    write_file_name, write_item_doc,
};
use stripper_lib::workspace::{
    Opts, PackageTargets, RustdocStripperStrategy, Target, Verbosity,
};

const SCENARIO: &str = "//! File comment\n\nstruct Foo {\n    /// Foo comment\n    A: u32,\n}\n";
const SCENARIO_STRIPPED: &str = "struct Foo {\n    A: u32,\n}\n";
const SCENARIO_MD: &str =
    "<!-- file foo.rs -->\n<!-- file_comment -->\nFile comment\n<!-- struct Foo::variant A -->\nFoo comment\n";

fn string_of(v: &[char]) -> String {
    v.iter().collect()
}

fn lines_of(s: &str) -> Vec<String> {
    s.lines().map(|l| l.to_owned()).collect()
}

fn node(ty: Type, name: &str) -> TypeNode {
    TypeNode { ty, name: name.to_owned(), args: Vec::new() }
}

#[test]
fn scenario_strip_file_and_field_comments() {
    let r = strip_comments("foo.rs", SCENARIO, false).unwrap().unwrap();
    assert_eq!(r.sidecar, SCENARIO_MD);
    assert_eq!(r.content, SCENARIO_STRIPPED);
}

#[test]
fn scenario_regenerate_restores_original() {
    let mut infos = parse_cmts(&lines_of(SCENARIO_MD), false).unwrap();
    let out = regenerate_comments("foo.rs", SCENARIO_STRIPPED, &mut infos, false, false).unwrap();
    assert_eq!(out, SCENARIO);
    assert_eq!(save_remainings(&infos), None);
}

#[test]
fn no_doc_comment_leaves_everything() {
    let src = "// plain comment\nstruct Foo {\n    a: u32,\n}\n";
    assert!(strip_comments("foo.rs", src, false).unwrap().is_none());
    assert!(strip_comments("empty.rs", "", true).unwrap().is_none());
}

#[test]
fn variant_of_enum_is_filed_and_found_again() {
    let src = "enum E {\n    /// first\n    A,\n    B,\n}\n";
    let r = strip_comments("e.rs", src, false).unwrap().unwrap();
    assert_eq!(r.sidecar, "<!-- file e.rs -->\n<!-- enum E::variant A -->\nfirst\n");
    assert_eq!(r.content, "enum E {\n    A,\n    B,\n}\n");
    let mut infos = parse_cmts(&lines_of(&r.sidecar), false).unwrap();
    let back = regenerate_comments("e.rs", &r.content, &mut infos, false, false).unwrap();
    assert_eq!(back, src);
}

#[test]
fn ignore_next_keeps_comment_and_stop_restores_stripping() {
    let src = "// rustdoc-stripper-ignore-next\n/// kept\nfn a() {}\n// rustdoc-stripper-ignore-next-stop\n/// gone\nfn b() {}\n";
    let r = strip_comments("f.rs", src, false).unwrap().unwrap();
    assert_eq!(r.sidecar, "<!-- file f.rs -->\n<!-- fn b -->\ngone\n");
    assert_eq!(
        r.content,
        "// rustdoc-stripper-ignore-next\n/// kept\nfn a() {}\n// rustdoc-stripper-ignore-next-stop\nfn b() {}\n"
    );
    let two = "// rustdoc-stripper-ignore-next\n/// kept\n// rustdoc-stripper-ignore-next-stop\n/// gone\n/// too\nfn b() {}\n";
    let r = strip_comments("g.rs", two, false).unwrap().unwrap();
    assert_eq!(r.sidecar, "<!-- file g.rs -->\n<!-- fn b -->\ngone\ntoo\n");
    assert_eq!(r.content, "// rustdoc-stripper-ignore-next\n/// kept\nfn b() {}\n");
    let mut infos = parse_cmts(&lines_of(&r.sidecar), false).unwrap();
    let back = regenerate_comments("g.rs", &r.content, &mut infos, false, false).unwrap();
    assert_eq!(back, two);
}

#[test]
fn macro_frame_is_hidden_when_ignoring_macros() {
    let src = "foo! {\n    /// inside\n    struct S;\n}\n";
    let hidden = strip_comments("m.rs", src, true).unwrap().unwrap();
    assert_eq!(hidden.sidecar, "<!-- file m.rs -->\n<!-- struct S -->\ninside\n");
    let shown = strip_comments("m.rs", src, false).unwrap().unwrap();
    assert_eq!(shown.sidecar, "<!-- file m.rs -->\n<!-- macro foo!::struct S -->\ninside\n");
    let mut infos = parse_cmts(&lines_of(&hidden.sidecar), true).unwrap();
    let back = regenerate_comments("m.rs", &hidden.content, &mut infos, true, false).unwrap();
    assert_eq!(back, src);
}

#[test]
fn unmatched_record_is_kept_in_residual_sidecar() {
    let md = "<!-- file a.rs -->\n<!-- struct Gone -->\nold text\n";
    let mut infos = parse_cmts(&lines_of(md), false).unwrap();
    let out = regenerate_comments("a.rs", "struct Other;\n", &mut infos, false, false).unwrap();
    assert_eq!(out, "struct Other;\n");
    assert_eq!(save_remainings(&infos).unwrap(), md);
}

#[test]
fn file_not_named_in_sidecar_is_untouched() {
    let md = "<!-- file a.rs -->\n<!-- struct A -->\ntext\n";
    let mut infos = parse_cmts(&lines_of(md), false).unwrap();
    assert_eq!(regenerate_comments("b.rs", "struct A;\n", &mut infos, false, false), None);
}

#[test]
fn wildcard_section_applies_to_any_file() {
    let md = "<!-- file * -->\n<!-- fn f -->\nhello\n";
    let mut infos = parse_cmts(&lines_of(md), false).unwrap();
    let out = regenerate_comments("x.rs", "fn f() {}\n", &mut infos, false, false).unwrap();
    assert_eq!(out, "/// hello\nfn f() {}\n");
    assert_eq!(save_remainings(&infos), None);
}

#[test]
fn existing_comment_is_not_duplicated() {
    let md = "<!-- file a.rs -->\n<!-- fn f -->\nnew\n";
    let mut infos = parse_cmts(&lines_of(md), false).unwrap();
    let src = "/// old\nfn f() {}\n";
    let out = regenerate_comments("a.rs", src, &mut infos, false, true).unwrap();
    assert_eq!(out, src);
    assert!(save_remainings(&infos).is_some());
}

#[test]
fn file_comment_outside_module_is_an_error() {
    let src = "struct S {\n    //! wrong place\n}\n";
    assert_eq!(strip_comments("s.rs", src, false).unwrap_err(), StripError::FileCommentOutsideModule);
}

#[test]
fn comment_before_brace_is_an_error() {
    let src = "fn f() {\n    /// dangling\n}\n";
    assert_eq!(strip_comments("f.rs", src, false).unwrap_err(), StripError::CommentWithoutItem);
}

#[test]
fn sidecar_without_file_header_is_refused() {
    let e = parse_cmts(&lines_of("<!-- struct A -->\ntext\n"), false).unwrap_err();
    assert_eq!(e, SidecarError::UnrecognizedLine);
}

#[test]
fn header_without_name_is_refused() {
    let e = parse_cmts(&lines_of("<!-- file a.rs -->\n<!-- struct A:: -->\n"), false).unwrap_err();
    assert_eq!(e, SidecarError::MalformedHeader);
}

#[test]
fn later_section_of_same_file_adds_records() {
    let md = "<!-- file a.rs -->\n<!-- fn f -->\none\n<!-- file b.rs -->\n<!-- fn g -->\ntwo\n<!-- file a.rs -->\n<!-- fn h -->\nthree\n";
    let infos = parse_cmts(&lines_of(md), false).unwrap();
    assert_eq!(infos.len(), 2);
    assert_eq!(infos[0].file.as_deref(), Some("a.rs"));
    assert_eq!(infos[0].entries.len(), 2);
    assert_eq!(infos[0].entries[0].comments, vec!["one".to_owned()]);
    assert_eq!(infos[0].entries[1].comments, vec!["three".to_owned()]);
}

#[test]
fn header_after_empty_section_starts_new_section() {
    let md = "<!-- file a.rs -->\n<!-- file b.rs -->\n<!-- fn f -->\nx\n";
    let infos = parse_cmts(&lines_of(md), false).unwrap();
    assert_eq!(infos.len(), 1);
    assert_eq!(infos[0].file.as_deref(), Some("b.rs"));
    assert_eq!(infos[0].entries[0].comments, vec!["x".to_owned()]);
}

#[test]
fn module_comment_opening_its_section_goes_back_inside() {
    let md = "<!-- file m.rs -->\n<!-- file_comment mod foobar -->\nhard day...\n";
    let mut infos = parse_cmts(&lines_of(md), false).unwrap();
    let out = regenerate_comments("m.rs", "mod foobar {\n}\n", &mut infos, false, false).unwrap();
    assert_eq!(out, "mod foobar {\n    //! hard day...\n}\n");
}

#[test]
fn path_less_record_is_kept_in_residual_sidecar() {
    let md = "<!-- file a.rs -->\n<!-- file_comment -->\nwhole file\n";
    let mut infos = parse_cmts(&lines_of(md), false).unwrap();
    let out = regenerate_comments("a.rs", "", &mut infos, false, false).unwrap();
    assert_eq!(out, "//! whole file\n\n");
    let md2 = "<!-- file b.rs -->\n<!-- file_comment -->\nwhole file\n<!-- file_comment mod m -->\ninner\n";
    let infos2 = parse_cmts(&lines_of(md2), true).unwrap();
    assert_eq!(save_remainings(&infos2).unwrap(), md2);
}

#[test]
fn whole_file_comment_without_room_stays() {
    let md = "<!-- file a.rs -->\n<!-- file_comment -->\nwhole file\n";
    let mut infos = parse_cmts(&lines_of(md), false).unwrap();
    let out = regenerate_comments("a.rs", "// header\nfn f() {}", &mut infos, false, false).unwrap();
    assert_eq!(out, "// header\nfn f() {}");
    assert_eq!(save_remainings(&infos).unwrap(), md);
}

#[test]
fn residual_header_is_kept_verbatim() {
    let md = "<!-- file a.rs -->\n<!-- macro m!::impl Display for Foo -->\ngone\n";
    let mut infos = parse_cmts(&lines_of(md), true).unwrap();
    regenerate_comments("a.rs", "fn other() {}\n", &mut infos, true, false).unwrap();
    assert_eq!(save_remainings(&infos).unwrap(), md);
}

#[test]
fn wildcard_records_land_on_their_items_after_own_section() {
    let md = "<!-- file a.rs -->\n<!-- fn a -->\nfor a\n<!-- file * -->\n<!-- fn b -->\nfor b\n";
    let mut infos = parse_cmts(&lines_of(md), false).unwrap();
    let out = regenerate_comments("a.rs", "fn a() {}\nfn b() {}\n", &mut infos, false, false).unwrap();
    assert_eq!(out, "/// for a\nfn a() {}\n/// for b\nfn b() {}\n");
}

#[test]
fn declaration_above_whole_file_comment_keeps_its_place() {
    let md = "<!-- file a.rs -->\n<!-- file_comment -->\nwhole\n<!-- fn f -->\nfor f\n";
    let mut infos = parse_cmts(&lines_of(md), false).unwrap();
    let src = "/* c */ fn f() {}\n\nstruct S;\n";
    let out = regenerate_comments("a.rs", src, &mut infos, false, false).unwrap();
    assert_eq!(out, "/// for f\n/* c */ fn f() {}\n\n//! whole\n\nstruct S;\n");
}

#[test]
fn type_from_words() {
    assert_eq!(Type::from("struct"), Type::Struct);
    assert_eq!(Type::from("macro_rules!"), Type::MacroDefinition);
    assert_eq!(Type::from("macro"), Type::Macro);
    assert_eq!(Type::from("anything"), Type::Variant);
    assert!(Type::MacroDefinition.is_macro_definition());
    assert!(!Type::Macro.is_macro_definition());
}

#[test]
fn scope_push_and_pop() {
    let m = Some(TypeStruct::new(Type::Mod, "m"));
    let s = add_to_type_scope(&m, &Some(TypeStruct::new(Type::Struct, "S")));
    let s = s.unwrap();
    assert_eq!(string_of(&s.path_text(false)), "mod m::struct S");
    assert_eq!(s.get_depth(false), 1);
    let anon = add_to_type_scope(&m, &None).unwrap();
    assert_eq!(anon.ty, Type::Unknown);
    assert_eq!(anon.name, "");
    let back = type_out_scope(&Some(s)).unwrap();
    assert_eq!(string_of(&back.path_text(false)), "mod m");
    assert!(type_out_scope(&m).is_none());
    assert!(add_to_type_scope(&None, &None).is_none());
}

#[test]
fn depth_skips_macro_ancestors_when_asked() {
    let t = TypeStruct {
        ty: Type::Struct,
        name: "S".to_owned(),
        args: Vec::new(),
        parents: vec![node(Type::Mod, "m"), node(Type::Macro, "x!"), node(Type::Mod, "n")],
    };
    assert_eq!(t.get_depth(false), 3);
    assert_eq!(t.get_depth(true), 2);
    assert_eq!(TypeStruct::empty().get_depth(true), 0);
}

#[test]
fn macro_parent_cut() {
    let mut t = TypeStruct {
        ty: Type::Struct,
        name: "S".to_owned(),
        args: Vec::new(),
        parents: vec![node(Type::Mod, "m"), node(Type::Macro, "x!"), node(Type::Mod, "n")],
    };
    remove_macro_parent(&mut t);
    assert_eq!(string_of(&t.path_text(false)), "mod m::macro x!::mod n::struct S");
    let mut u = TypeStruct {
        ty: Type::Struct,
        name: "S".to_owned(),
        args: Vec::new(),
        parents: vec![node(Type::Macro, "x!"), node(Type::Mod, "n")],
    };
    remove_macro_parent(&mut u);
    assert_eq!(string_of(&u.path_text(false)), "mod n::struct S");
    let mut lone = TypeStruct::new(Type::Macro, "x!");
    remove_macro_parent(&mut lone);
    assert_eq!(string_of(&lone.path_text(false)), "macro x!");
}

#[test]
fn variant_matches_bare_field() {
    let s = TypeStruct::new(Type::Struct, "S");
    let field = s.child(&node(Type::Unknown, "a"));
    let variant = s.child(&node(Type::Variant, "a"));
    assert!(type_matches(&variant, &field));
    assert!(!type_matches(&field, &variant));
    let m = TypeStruct::new(Type::Mod, "m");
    let bare = m.child(&node(Type::Unknown, "a"));
    let v2 = m.child(&node(Type::Variant, "a"));
    assert!(!type_matches(&v2, &bare));
}

#[test]
fn sidecar_headers() {
    let s = TypeStruct::new(Type::Mod, "m").child(&node(Type::Macro, "x!")).child(&node(Type::Fn, "f"));
    assert_eq!(write_comment(&s, "body\n", false), "<!-- mod m::macro x!::fn f -->\nbody\n");
    assert_eq!(write_comment(&s, "body\n", true), "<!-- mod m::fn f -->\nbody\n");
    assert_eq!(write_file("src/a.rs"), "<!-- file src/a.rs -->");
    assert_eq!(write_file_comment("x", &None, false), "<!-- file_comment -->\nx");
    let m = Some(TypeStruct::new(Type::Mod, "m"));
    assert_eq!(write_file_comment("x", &m, false), "<!-- file_comment mod m -->\nx");
    let mut w = String::new();
    write_file_name(&mut w, None);
    write_file_name(&mut w, Some("b.rs"));
    assert_eq!(w, "<!-- file * -->\n<!-- file b.rs -->\n");
    let mut w = String::from("x\n");
    write_item_doc(&mut w, &s, "doc\n");
    assert_eq!(w, "x\n<!-- mod m::fn f -->\ndoc\n");
    assert_eq!(format!("{}{}{}", MOD_COMMENT, FILE, END_INFO), "<!-- <!-- file  -->");
}

#[test]
fn join_with_separator() {
    let v = vec!["a".to_owned(), "b".to_owned(), "c".to_owned()];
    assert_eq!(join(&v, ", "), "a, b, c");
    assert_eq!(join(&[], "-"), "");
}

#[test]
fn transform_sets_braces_apart() {
    let t = transform_code(&chars_of("foo!(x){a:b}"));
    assert_eq!(string_of(&t), "foo !!  (x) { a : b } ");
    let c = clean_input(&chars_of("a // note\n/// doc\nb"));
    assert_eq!(string_of(&c), "a  \n ///  doc \n b");
}

#[test]
fn events_of_a_small_file() {
    let pr = build_event_list("/// c\nstruct A {\n    x: u8,\n}\nfn f() {}\n");
    assert_eq!(pr.comment_lines, vec![0]);
    assert_eq!(pr.original_content.len(), 6);
    let kinds: Vec<String> = pr
        .event_list
        .iter()
        .map(|e: &EventInfo| match &e.event {
            EventType::Comment(_) => "comment".to_owned(),
            EventType::FileComment(_) => "file".to_owned(),
            EventType::Type(t) => t.name.clone(),
            EventType::InScope => "{".to_owned(),
            EventType::OutScope => "}".to_owned(),
        })
        .collect();
    assert_eq!(kinds, vec!["comment", "A", "{", "x", "", "u8", "}", "f", "{", "}"]);
}

#[test]
fn indentation_from_line() {
    assert_eq!(string_of(&gen_indent_from(&chars_of("        x"))), "        ");
    assert_eq!(string_of(&gen_indent_from(&chars_of("   x"))), "");
    assert_eq!(string_of(&gen_indent_from(&chars_of("    "))), "");
}

#[test]
fn file_skipping() {
    let ignore = vec!["src/gen.rs".to_owned()];
    assert!(skip_file("src/gen.rs", false, true, &ignore));
    assert!(skip_file("src/a.txt", false, false, &ignore));
    assert!(skip_file("comments.md", true, false, &ignore));
    assert!(!skip_file("src/a.rs", false, true, &ignore));
}

#[test]
fn strategy_from_options() {
    let mut o = Opts {
        quiet: false,
        verbose: false,
        version: false,
        packages: Vec::new(),
        manifest_path: None,
        doc_stripper_options: Vec::new(),
        format_all: false,
        strip: true,
        regenerate: false,
    };
    assert!(matches!(RustdocStripperStrategy::from_opts(&o), RustdocStripperStrategy::Root));
    o.packages = vec!["p".to_owned()];
    match RustdocStripperStrategy::from_opts(&o) {
        RustdocStripperStrategy::Listed(v) => assert_eq!(v, vec!["p".to_owned()]),
        _ => panic!("expected the listed packages"),
    }
    o.format_all = true;
    assert!(matches!(RustdocStripperStrategy::from_opts(&o), RustdocStripperStrategy::All));
    assert_eq!(Verbosity::from_flags(true, true), None);
    assert_eq!(Verbosity::from_flags(false, true), Some(Verbosity::Quiet));
    assert_eq!(Verbosity::from_flags(true, false), Some(Verbosity::Verbose));
    assert_eq!(Verbosity::from_flags(false, false), Some(Verbosity::Normal));
}

#[test]
fn hitlist_selection() {
    let t = |p: &str| Target { path: p.to_owned(), kind: "lib".to_owned() };
    let pk = vec![
        PackageTargets { name: "a".to_owned(), targets: vec![t("a/lib.rs")] },
        PackageTargets { name: "b".to_owned(), targets: vec![t("b/lib.rs"), t("b/main.rs")] },
    ];
    let r = stripper_lib::workspace::select_hitlist(&pk, &vec!["b".to_owned()]).unwrap();
    assert_eq!(r.iter().map(|t| t.path.clone()).collect::<Vec<_>>(), vec!["b/lib.rs", "b/main.rs"]);
    let e = stripper_lib::workspace::select_hitlist(&pk, &vec!["c".to_owned(), "a".to_owned()]).unwrap_err();
    assert_eq!(e, vec!["c".to_owned()]);
    assert!(t("x") == Target { path: "x".to_owned(), kind: "bin".to_owned() });
}

#[test]
fn actions_strip_then_regenerate() {
    let mut none = Vec::new();
    let stripped = process_file(Action::Strip { ignore_macros: false }, "foo.rs", SCENARIO, &mut none)
        .unwrap()
        .unwrap();
    assert_eq!(stripped.sidecar, SCENARIO_MD);
    let mut infos = parse_cmts(&lines_of(&stripped.sidecar), false).unwrap();
    let action = Action::Regenerate { ignore_macros: false, ignore_doc_commented: false };
    let back = process_file(action, "foo.rs", &stripped.content, &mut infos).unwrap().unwrap();
    assert_eq!(back.sidecar, "");
    assert_eq!(back.content, SCENARIO);
    assert!(process_file(action, "other.rs", "fn f() {}", &mut infos).unwrap().is_none());
}

#[test]
fn block_doc_comments_are_stripped() {
    let r = strip_comments("f.rs", "/** Doc */\nfn foo() {}\n", false).unwrap().unwrap();
    assert_eq!(r.sidecar, "<!-- file f.rs -->\n<!-- fn foo -->\nDoc \n");
    assert_eq!(r.content, "fn foo() {}\n");
    let r = strip_comments("g.rs", "/*! Whole\n    file */\n\nfn foo() {}\n", false).unwrap().unwrap();
    assert_eq!(r.sidecar, "<!-- file g.rs -->\n<!-- file_comment -->\nWhole\nfile \n");
    assert_eq!(r.content, "fn foo() {}\n");
}
