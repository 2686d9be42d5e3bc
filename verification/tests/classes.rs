//! Class hierarchies: what is inherited, what is below, and what a call or a `delete` reaches.

use ctadl_ascent::classes::{
    build_subclasses, delete_targets, dtor_defining_class, dtor_is_virtual, exact_destructor,
    flatten_inherited_members, method_is_virtual, method_targets, qualified_name,
    resolve_method_class, simple_class_name,
};
use ctadl_ascent::classes::{ClassInfo, Classes, Overload};
use ctadl_ascent::graph::{copied_names, holds_name, Graph};

fn texts(v: &[&str]) -> Vec<String> {
    v.iter().map(|s| s.to_string()).collect()
}

fn class(bases: &[&str], members: &[&str]) -> ClassInfo {
    let mut c = ClassInfo::derived_from(texts(bases));
    for m in members {
        c.members.insert(m);
    }
    c
}

#[test]
fn a_walk_reaches_what_links_lead_to() {
    let mut g = Graph::new();
    g.add("a", "b");
    g.add("b", "c");
    g.add("c", "a");
    g.add("x", "y");
    let mut found = g.reachable(&texts(&["a"]));
    found.sort();
    assert_eq!(found, ["a", "b", "c"]);
    assert_eq!(g.links("x"), ["y"]);
    assert!(g.links("y").is_empty());
}

#[test]
fn names_are_copied_and_found() {
    let names = texts(&["a", "b"]);
    assert!(holds_name(&names, "b"));
    assert!(!holds_name(&names, "c"));
    assert_eq!(copied_names(&names), names);
}

#[test]
fn a_class_is_found_by_its_name() {
    let mut classes = Classes::new();
    classes.insert("A".to_string(), class(&[], &["x"]));
    assert!(classes.get("A").expect("the class").members.contains("x"));
    assert!(classes.get("B").is_none());
    classes.insert("A".to_string(), class(&[], &["y"]));
    let a = classes.get("A").expect("the class");
    assert!(a.members.contains("y") && !a.members.contains("x"));
}

#[test]
fn members_are_inherited_through_every_base() {
    let mut classes = Classes::new();
    classes.insert("Base".to_string(), class(&[], &["b"]));
    classes.insert("Mid".to_string(), class(&["Base"], &["m"]));
    classes.insert("Leaf".to_string(), class(&["Mid"], &["l"]));
    flatten_inherited_members(&mut classes);
    let leaf = classes.get("Leaf").expect("the class");
    assert!(leaf.members.contains("b") && leaf.members.contains("m") && leaf.members.contains("l"));
    let base = classes.get("Base").expect("the class");
    assert!(!base.members.contains("m"));
}

#[test]
fn a_circle_of_bases_ends() {
    let mut classes = Classes::new();
    classes.insert("A".to_string(), class(&["B"], &["a"]));
    classes.insert("B".to_string(), class(&["A"], &["b"]));
    flatten_inherited_members(&mut classes);
    assert!(classes.get("A").expect("the class").members.contains("b"));
    assert!(classes.get("B").expect("the class").members.contains("a"));
}

#[test]
fn bases_know_their_direct_subclasses() {
    let mut classes = Classes::new();
    classes.insert("Base".to_string(), class(&[], &[]));
    classes.insert("Mid".to_string(), class(&["Base"], &[]));
    classes.insert("Leaf".to_string(), class(&["Mid"], &[]));
    let below = build_subclasses(&classes);
    assert_eq!(below.links("Base"), ["Mid"]);
    assert_eq!(below.links("Mid"), ["Leaf"]);
    assert!(below.links("Leaf").is_empty());
}

fn with_destructors(virtually: bool) -> Classes {
    let mut classes = Classes::new();
    let mut base = class(&[], &[]);
    base.has_dtor = true;
    base.dtor_virtual = virtually;
    classes.insert("Base".to_string(), base);
    let mut leaf = class(&["Base"], &[]);
    leaf.has_dtor = true;
    classes.insert("Leaf".to_string(), leaf);
    classes.insert("Plain".to_string(), class(&["Base"], &[]));
    classes.insert("Alone".to_string(), class(&[], &[]));
    classes
}

#[test]
fn a_virtual_delete_reaches_the_classes_below() {
    let classes = with_destructors(true);
    let below = build_subclasses(&classes);
    assert!(dtor_is_virtual(&classes, "Base"));
    assert!(dtor_is_virtual(&classes, "Leaf"));
    let mut targets = delete_targets(&classes, &below, "Base").expect("targets");
    targets.sort();
    assert_eq!(targets, ["Base::~Base", "Leaf::~Leaf"]);
}

#[test]
fn a_plain_delete_runs_one_destructor() {
    let classes = with_destructors(false);
    let below = build_subclasses(&classes);
    assert!(!dtor_is_virtual(&classes, "Base"));
    assert_eq!(delete_targets(&classes, &below, "Base").expect("targets"), ["Base::~Base"]);
    assert_eq!(dtor_defining_class(&classes, "Plain").as_deref(), Some("Base"));
    assert!(delete_targets(&classes, &below, "Alone").is_none());
}

#[test]
fn an_object_on_the_stack_is_destroyed_by_its_own_class() {
    let classes = with_destructors(true);
    assert_eq!(exact_destructor(&classes, "Leaf").as_deref(), Some("Leaf::~Leaf"));
    assert_eq!(exact_destructor(&classes, "Alone"), None);
}

#[test]
fn names_come_in_order_of_nearness() {
    let mut g = Graph::new();
    g.add("C", "A");
    g.add("C", "B");
    g.add("A", "E");
    g.add("B", "D");
    g.add("B", "A");
    g.add("D", "C");
    assert_eq!(g.by_nearness(&texts(&["C"])), ["C", "A", "B", "E", "D"]);
    assert_eq!(g.by_nearness(&texts(&["D", "B"])), ["D", "B", "C", "A", "E"]);
    assert!(g.by_nearness(&texts(&[])).is_empty());
}

/// `C` derives from `A` and `B`, and `B` from `D`; the named classes declare a destructor and the
/// method `go`.
fn two_bases(with: &[&str]) -> Classes {
    let mut classes = Classes::new();
    for (name, bases) in [("C", vec!["A", "B"]), ("A", vec![]), ("B", vec!["D"]), ("D", vec![])] {
        let mut c = class(&bases, &[]);
        if with.contains(&name) {
            c.has_dtor = true;
            c.methods.insert("go");
        }
        classes.insert(name.to_string(), c);
    }
    classes
}

#[test]
fn of_several_bases_the_nearest_counts() {
    for (with, found) in [
        (vec!["A", "D"], Some("A")),
        (vec!["B", "D"], Some("B")),
        (vec!["A", "B"], Some("A")),
        (vec!["C", "A", "B", "D"], Some("C")),
        (vec!["D"], Some("D")),
        (vec![], None),
    ] {
        let classes = two_bases(&with);
        let below = build_subclasses(&classes);
        assert_eq!(dtor_defining_class(&classes, "C").as_deref(), found);
        assert_eq!(resolve_method_class(&classes, "C", "go").as_deref(), found);
        let target = found.map(|c| format!("{c}::~{c}"));
        assert_eq!(exact_destructor(&classes, "C"), target);
        assert_eq!(delete_targets(&classes, &below, "C"), target.map(|t| vec![t]));
        assert_eq!(
            method_targets(&classes, &below, &vec![], "C", "go", 0),
            found.map(|c| vec![format!("{c}::go")])
        );
    }
}

#[test]
fn a_method_is_that_of_the_nearest_class_above() {
    let mut classes = Classes::new();
    let mut base = class(&[], &[]);
    base.methods.insert("go");
    base.virtual_methods.insert("go");
    classes.insert("Base".to_string(), base);
    let mut leaf = class(&["Base"], &[]);
    leaf.methods.insert("go");
    classes.insert("Leaf".to_string(), leaf);
    classes.insert("Plain".to_string(), class(&["Base"], &[]));
    assert_eq!(resolve_method_class(&classes, "Plain", "go").as_deref(), Some("Base"));
    assert_eq!(resolve_method_class(&classes, "Leaf", "go").as_deref(), Some("Leaf"));
    assert_eq!(resolve_method_class(&classes, "Leaf", "stop"), None);
    assert!(method_is_virtual(&classes, "Leaf", "go"));
    assert!(!method_is_virtual(&classes, "Leaf", "stop"));
}

#[test]
fn a_class_is_called_by_its_last_name() {
    assert_eq!(simple_class_name("a::b::C"), "C");
    assert_eq!(simple_class_name("C"), "C");
    assert_eq!(qualified_name("a::C", "f"), "a::C::f");
}

#[test]
fn a_virtual_call_reaches_every_override_below() {
    let mut classes = Classes::new();
    let mut base = class(&[], &[]);
    base.methods.insert("go");
    base.virtual_methods.insert("go");
    classes.insert("Base".to_string(), base);
    let mut leaf = class(&["Base"], &[]);
    leaf.methods.insert("go");
    classes.insert("Leaf".to_string(), leaf);
    let below = build_subclasses(&classes);
    let overloads = vec![Overload { name: "Leaf::go".to_string(), arity: 0 }];
    let mut targets = method_targets(&classes, &below, &overloads, "Base", "go", 0).expect("some");
    targets.sort();
    assert_eq!(targets, ["Base::go", "Leaf::go"]);
    let exact = method_targets(&classes, &below, &overloads, "Leaf", "go", 0).expect("some");
    assert_eq!(exact, ["Leaf::go"]);
    assert!(method_targets(&classes, &below, &overloads, "Leaf", "stop", 0).is_none());
}
