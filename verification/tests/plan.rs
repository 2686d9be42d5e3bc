//! What several definitions of one name come to.

use ctadl_ascent::error::Error;
use ctadl_ascent::plan::{plan_definitions, Plan};
use ctadl_ascent::report::Attribution;
use ctadl_ascent::units::{Definition, Log, TranslationUnit};

fn unit(path: Option<&str>) -> TranslationUnit {
    TranslationUnit { path: path.map(|p| p.to_string()), source: String::new() }
}

fn def(unit: usize, name: &str, text: &str) -> Definition {
    Definition {
        unit,
        node: 0,
        params: 0,
        body: 0,
        arity: 0,
        name: name.to_string(),
        text: text.to_string(),
        class: None,
        inits: vec![],
    }
}

fn quiet() -> Log {
    Log { strict: false, reports: vec![] }
}

fn planned(units: &Vec<TranslationUnit>, defs: &Vec<Definition>) -> (Plan, Log) {
    let mut log = quiet();
    let plan = plan_definitions(units, defs, &mut log).expect("a plan");
    (plan, log)
}

/// What a call of `name` means in unit `u`.
fn meaning(plan: &Plan, u: usize, name: &str) -> String {
    plan.local_names[u].get(name).cloned().unwrap_or_else(|| name.to_string())
}

#[test]
fn a_name_of_one_function_is_kept() {
    let units = vec![unit(Some("a.c")), unit(Some("b.c"))];
    let defs = vec![def(0, "f", "f1"), def(1, "g", "g1")];
    let (plan, log) = planned(&units, &defs);
    assert_eq!(plan.names, ["f", "g"]);
    assert_eq!(plan.duplicates, [false, false]);
    assert_eq!(meaning(&plan, 1, "f"), "f");
    assert!(log.reports.is_empty());
}

#[test]
fn copies_are_one_function() {
    let units = vec![unit(Some("a.c")), unit(Some("b.c"))];
    let defs = vec![def(0, "f", "same"), def(1, "f", "same")];
    let (plan, log) = planned(&units, &defs);
    assert_eq!(plan.names, ["f", "f"]);
    assert_eq!(plan.duplicates, [false, true]);
    assert!(log.reports.is_empty());
}

#[test]
fn each_unit_means_its_own_definition() {
    let units = vec![unit(Some("src/a.c")), unit(Some("src/b.c")), unit(Some("src/c.c"))];
    let defs = vec![def(0, "f", "one"), def(1, "f", "two")];
    let (plan, log) = planned(&units, &defs);
    assert_eq!(plan.names, ["f", "f$b.c"]);
    assert_eq!(meaning(&plan, 0, "f"), "f");
    assert_eq!(meaning(&plan, 1, "f"), "f$b.c");
    assert_eq!(meaning(&plan, 2, "f"), "f");
    assert!(log.reports.is_empty());
}

#[test]
fn a_minted_name_avoids_the_names_of_the_source() {
    let units = vec![unit(Some("a.c")), unit(Some("b.c"))];
    let defs = vec![def(0, "f", "one"), def(1, "f", "two"), def(0, "f$b.c", "three")];
    let (plan, _) = planned(&units, &defs);
    assert_eq!(plan.names[0], "f");
    assert_eq!(plan.names[2], "f$b.c");
    assert_ne!(plan.names[1], "f");
    assert_ne!(plan.names[1], "f$b.c");
    assert!(plan.names[1].starts_with("f$b.c"));
}

#[test]
fn a_second_definition_in_one_unit_is_reported() {
    let units = vec![unit(Some("a.c"))];
    let defs = vec![def(0, "f", "one"), def(0, "f", "two")];
    let (plan, log) = planned(&units, &defs);
    assert_eq!(plan.names[0], "f");
    assert_eq!(meaning(&plan, 0, "f"), "f");
    assert_eq!(log.reports.len(), 1);
    assert_eq!(log.reports[0].attribution, Attribution::SourceProblem);
    assert_eq!(
        log.reports[0].message,
        format!(
            "`f` is defined more than once in `a.c`; C gives a name one definition per \
             translation unit, so this one is analyzed as `{}` and a call to `f` here resolves \
             to `f`",
            plan.names[1]
        )
    );
}

#[test]
fn a_second_definition_in_one_unit_is_an_error_in_strict_mode() {
    let units = vec![unit(None)];
    let defs = vec![def(0, "f", "one"), def(0, "f", "two")];
    let mut log = Log { strict: true, reports: vec![] };
    match plan_definitions(&units, &defs, &mut log) {
        Err(Error::TreeSitterParse(message)) => {
            assert!(message.starts_with("`f` is defined more than once in this translation unit"))
        }
        other => panic!("expected an error, got {other:?}"),
    }
}

#[test]
fn a_minted_name_carries_the_last_component_of_the_path() {
    for (path, name) in [
        ("src/b.c", "f$b.c"),
        ("src/b.c/", "f$b.c"),
        ("src/b.c/.", "f$b.c"),
        ("src/b.c/.//./", "f$b.c"),
        ("b.c", "f$b.c"),
        ("./b.c", "f$b.c"),
        ("/.hidden", "f$.hidden"),
        ("./", "f$./"),
        (".", "f$."),
        ("./.", "f$./."),
        ("/.", "f$/."),
        ("a/..", "f$a/.."),
        ("a/../.", "f$a/../."),
        ("/", "f$/"),
        ("", "f$"),
    ] {
        let units = vec![unit(Some("a.c")), unit(Some(path))];
        let defs = vec![def(0, "f", "one"), def(1, "f", "two")];
        let (plan, _) = planned(&units, &defs);
        assert_eq!(plan.names[1], name, "of `{path}`");
        let of_std = std::path::Path::new(path)
            .file_name()
            .map_or(path, |f| f.to_str().expect("text"));
        assert_eq!(plan.names[1], format!("f${of_std}"));
    }
}
