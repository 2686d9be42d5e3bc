//! Paths, scopes, reports, printed IR and source files, each by itself.

use ctadl_ascent::dump::{get_explainers, inject_explainers_into_ir};
use ctadl_ascent::error::Error;
use ctadl_ascent::mir::{AccessPath, Exp, PathSegment, RawPath, VariableRef};
use ctadl_ascent::paths::{
    constant_index, constant_index_text, deref_field, deref_of_pointee, is_deref_field,
    literal_address_path, push_element, union_field,
};
use ctadl_ascent::report::{elision_note, quote_construct, Attribution};
use ctadl_ascent::scope::{ScopeTree, VarKind};
use ctadl_ascent::sources::{is_c_file, source_files, syntax_error_warning};
use ctadl_ascent::state::Note;

fn fields(p: &RawPath) -> Vec<String> {
    p.fields
        .iter()
        .map(|s| match s {
            PathSegment::Symbol(name) => name.clone(),
            PathSegment::Offset(n) => format!("[{n}]"),
        })
        .collect()
}

#[test]
fn integer_constants_are_read_as_c_spells_them() {
    assert_eq!(constant_index_text("3"), Some(3));
    assert_eq!(constant_index_text("3u"), Some(3));
    assert_eq!(constant_index_text("3UL"), Some(3));
    assert_eq!(constant_index_text(" 0x10 "), Some(16));
    assert_eq!(constant_index_text("0B101"), Some(5));
    assert_eq!(constant_index_text("-1"), Some(-1));
    assert_eq!(constant_index_text("9223372036854775807"), Some(i64::MAX));
    assert_eq!(constant_index_text("9223372036854775808"), None);
    assert_eq!(constant_index_text("-9223372036854775808"), Some(i64::MIN));
    assert_eq!(constant_index_text(""), None);
    assert_eq!(constant_index_text("'a'"), None);
    assert_eq!(constant_index_text("0x"), None);
}

#[test]
fn only_a_constant_is_a_constant_index() {
    assert_eq!(constant_index(&Exp::Str("7".to_string())), Some(7));
    assert_eq!(constant_index(&Exp::Variable(VariableRef::Local(7))), None);
    assert_eq!(constant_index(&Exp::FunctionPtr("7".to_string())), None);
}

#[test]
fn an_element_is_an_offset_and_a_dereference() {
    let element = |index| {
        let mut p = RawPath::of(VariableRef::Local(0));
        push_element(&mut p, index);
        fields(&p)
    };
    assert_eq!(element(Some(3)), ["[3]", "deref"]);
    assert_eq!(element(Some(-1)), ["[-1]", "deref"]);
    assert_eq!(element(Some(0)), ["deref"]);
    assert_eq!(element(None), ["deref"]);
}

#[test]
fn the_shared_fields_have_their_names() {
    assert!(is_deref_field(&deref_field()));
    assert!(!is_deref_field(&union_field()));
    assert!(!is_deref_field(&PathSegment::Offset(0)));
    assert!(matches!(union_field(), PathSegment::Symbol(s) if s == "$union"));
}

#[test]
fn a_constant_address_is_a_field_of_the_globals() {
    let p = literal_address_path("0x4000");
    assert_eq!(p.base, VariableRef::Global);
    assert_eq!(fields(&p), ["<address 0x4000>"]);
}

#[test]
fn a_pointer_to_an_element_is_dereferenced_there() {
    let mut a = AccessPath::without_fields(VariableRef::Local(2));
    assert!(deref_of_pointee(&a).is_none());
    a.offsets.push(4);
    let p = deref_of_pointee(&a).expect("a location");
    assert_eq!(p.base, VariableRef::Local(2));
    assert_eq!(fields(&p), ["[4]", "deref"]);
}

#[test]
fn an_inner_declaration_shadows_an_outer_one() {
    let mut t = ScopeTree::new();
    let outer = t.add_scope("f".to_string(), None);
    let inner = t.add_scope("block".to_string(), Some(outer));
    t.add_variable(outer, "x".to_string(), VarKind::Parameter(0));
    t.add_variable(inner, "x".to_string(), VarKind::Local);
    let seen = t.find_variable(inner, "x").expect("a variable");
    assert_eq!(t.to_string(seen), "block.1.x");
    let seen = t.find_variable(outer, "x").expect("a variable");
    assert_eq!(t.to_string(seen), "x");
    assert!(t.find_variable(inner, "y").is_none());
}

#[test]
fn an_empty_scope_sees_its_surroundings() {
    let mut t = ScopeTree::new();
    let outer = t.add_scope("f".to_string(), None);
    let inner = t.add_scope("block".to_string(), Some(outer));
    t.add_variable(outer, "x".to_string(), VarKind::Local);
    let seen = t.find_variable(inner, "x").expect("a variable");
    assert_eq!(t.to_string(seen), "x");
}

#[test]
fn a_report_says_who_is_to_blame() {
    assert_eq!(Attribution::FrontendGap.prefix(), "frontend gap");
    assert_eq!(Attribution::SourceProblem.prefix(), "source problem");
}

#[test]
fn a_quote_is_one_line_and_short() {
    let (quote, elided) = quote_construct("int\n   f ( ) ;");
    assert_eq!(quote, "int f ( ) ;");
    assert_eq!(elided, 0);
    assert_eq!(elision_note("int f();"), "");
    let long = "x".repeat(250);
    let (quote, elided) = quote_construct(&long);
    assert_eq!(quote, "x".repeat(200));
    assert_eq!(elided, 50);
    assert_eq!(elision_note(&long), " (+50 chars elided)");
}

fn note(f: &str, blidx: usize, explainer: &str) -> Note {
    Note { func_name: f.to_string(), blidx, explainer: explainer.to_string() }
}

#[test]
fn the_notes_on_a_block_are_joined() {
    let notes = vec![note("f", 1, "a"), note("g", 1, "b"), note("f", 1, "c")];
    assert_eq!(get_explainers(&notes, "f", 1).as_deref(), Some("a&c"));
    assert_eq!(get_explainers(&notes, "g", 1).as_deref(), Some("b"));
    assert_eq!(get_explainers(&notes, "f", 0), None);
}

#[test]
fn blocks_of_the_printed_ir_get_their_notes() {
    let notes = vec![note("f", 0, "start"), note("f", 12, "two\nlines"), note("g", 0, "other")];
    let ir = "define f(@p0)\n  begin block_0 [start]:\n    x = 1\n  begin block_12:\n  begin \
              block_3:\ndefine g()\n  begin block_0:\r\nend";
    assert_eq!(
        inject_explainers_into_ir(ir, &notes),
        "define f(@p0)\n  begin block_0 [start]: // start\n    x = 1\n  begin block_12: // two \
         | lines\n  begin block_3: // **MISSING**\ndefine g()\n  begin block_0: // other\nend\n"
    );
}

#[test]
fn c_files_are_told_by_their_extension() {
    assert!(is_c_file(Some("c")));
    assert!(is_c_file(Some("h")));
    assert!(!is_c_file(Some("cpp")));
    assert!(!is_c_file(None));
}

#[test]
fn a_directory_without_c_files_is_an_error() {
    let one = source_files("a.c", false, vec![]).expect("one file");
    assert_eq!(one, ["a.c"]);
    let found = vec!["d/a.c".to_string(), "d/b.h".to_string()];
    assert_eq!(source_files("d", true, found.clone()).expect("files"), found);
    match source_files("d", true, vec![]) {
        Err(Error::Path { message }) => {
            assert_eq!(message, "no .c or .h files found under 'd'")
        }
        other => panic!("expected an error, got {other:?}"),
    }
}

#[test]
fn a_syntax_error_is_warned_of() {
    assert_eq!(
        syntax_error_warning("a.c"),
        "tree-sitter reported syntax errors while parsing C source at 'a.c'; the imported IR \
         may be incomplete (is the input already preprocessed?)"
    );
}

#[test]
fn a_quote_joins_what_white_space_parts() {
    for c in [
        '\u{9}', '\u{a}', '\u{b}', '\u{c}', '\u{d}', ' ', '\u{85}', '\u{a0}', '\u{1680}',
        '\u{2000}', '\u{200a}', '\u{2028}', '\u{2029}', '\u{202f}', '\u{205f}', '\u{3000}',
    ] {
        assert_eq!(quote_construct(&format!("{c}a{c}{c}b{c}")).0, "a b");
    }
    for c in ['\u{8}', '\u{e}', '\u{200b}', '\u{feff}', '\u{1f}'] {
        assert_eq!(quote_construct(&format!("a{c}b")).0, format!("a{c}b"));
    }
}
