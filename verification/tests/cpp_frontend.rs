//! The C++ front end on C++ source: which functions come out, and what is done with objects.

use ctadl_ascent::classes::{overload_name, simple_class_name, Overload};
use ctadl_ascent::cpp::parse_cpp_program;
use ctadl_ascent::mir::{
    AccessPath, CallStyle, Exp, FunctionData, ParameterType, Program, StatementKind, Terminator,
    VariableRef,
};

fn program(src: &str) -> Program {
    let lowered = parse_cpp_program(src, true).expect("the source must lower");
    assert!(!lowered.has_error, "the source must parse cleanly");
    lowered.program
}

fn function<'a>(prog: &'a Program, name: &str) -> &'a FunctionData {
    prog.functions
        .iter()
        .find(|f| f.name == name)
        .unwrap_or_else(|| panic!("no function {name} among {:?}", names(prog)))
}

fn names(prog: &Program) -> Vec<&str> {
    prog.functions.iter().map(|f| f.name.as_str()).collect()
}

fn variable(f: &FunctionData, v: VariableRef) -> String {
    match v {
        VariableRef::Local(i) => f.locals[i].clone(),
        VariableRef::Param(i) => format!("@p{i}"),
        VariableRef::Global => "$globals".to_string(),
    }
}

fn address(f: &FunctionData, a: &AccessPath) -> String {
    let mut s = variable(f, a.variable_ref);
    for o in &a.offsets {
        s.push_str(&format!(".[{o}]"));
    }
    s
}

fn operand(f: &FunctionData, e: &Exp) -> String {
    match e {
        Exp::Variable(v) => variable(f, *v),
        Exp::AccessPath(a) => address(f, a),
        Exp::Str(s) => format!("#{s}"),
        Exp::FunctionPtr(s) => format!("&{s}"),
    }
}

/// The statements and the ends of the blocks of a function, one line each.
fn text(prog: &Program, name: &str) -> Vec<String> {
    let f = function(prog, name);
    let list = |args: &Vec<Exp>| {
        args.iter().map(|a| operand(f, a)).collect::<Vec<String>>().join(", ")
    };
    let mut out = vec![];
    for b in &f.blocks {
        for s in &b.statements {
            out.push(match &s.kind {
                StatementKind::Assign { dest, args } => {
                    format!("{} = {}", variable(f, *dest), list(args))
                }
                StatementKind::Load { dest, address: a, field } => {
                    format!("{} = load {}.{field}", variable(f, *dest), address(f, a))
                }
                StatementKind::Store { address: a, field, value } => {
                    format!("store {}.{field} = {}", address(f, a), operand(f, value))
                }
                StatementKind::CallAssign { style, rets, args } => {
                    let callee = match style {
                        CallStyle::DirectCall(names) => names.join("|"),
                        CallStyle::FuncPtrCall { callee, .. } => format!("*{}", address(f, callee)),
                    };
                    format!("{} = {callee}({})", variable(f, rets[0]), list(args))
                }
            });
        }
        match b.terminator.as_ref().expect("every block has an end") {
            Terminator::Goto(targets) => out.push(format!("goto {targets:?}")),
            Terminator::Return(args) => out.push(format!("return {}", list(args))),
        }
    }
    out
}

#[test]
fn the_c_subset_lowers_as_in_c() {
    let prog = program(
        "int f(int *a, int n) { int s = 0; while (n) { s = a[1]; } if (s) { s = n; } \
         switch (n) { case 1: s = 2; break; } return s; }",
    );
    assert_eq!(names(&prog), ["f"]);
    assert_eq!(function(&prog, "f").params, [ParameterType::ByRef, ParameterType::ByVal]);
    assert_eq!(
        text(&prog, "f"),
        [
            "s = #0",
            "goto [1]",
            "goto [2, 3]",
            "goto [4, 5]",
            "<t0> = load @p0.[1].deref",
            "s = <t0>",
            "goto [1]",
            "s = @p1",
            "goto [5]",
            "goto [7, 6]",
            "return s",
            "s = #2",
            "goto [6]",
        ]
    );
}

#[test]
fn a_method_writes_through_its_receiver() {
    let prog = program(
        "struct Box { int v; void set(int x) { v = x; } int get() { return v; } };\n\
         int f(int s) { Box b; b.set(s); return b.get(); }",
    );
    assert_eq!(names(&prog), ["Box::set", "Box::get", "f"]);
    assert_eq!(
        function(&prog, "Box::set").params,
        [ParameterType::ByRef, ParameterType::ByVal]
    );
    assert_eq!(function(&prog, "Box::set").return_arity, 0);
    assert_eq!(function(&prog, "Box::get").return_arity, 1);
    assert_eq!(text(&prog, "Box::set"), ["store @p0.v = @p1", "return "]);
    assert_eq!(text(&prog, "Box::get"), ["<t0> = load @p0.v", "return <t0>"]);
    assert_eq!(
        text(&prog, "f"),
        ["<t0> = Box::set(b, @p0)", "<t1> = Box::get(b)", "return <t1>"]
    );
}

#[test]
fn a_method_defined_outside_of_its_class_is_a_method() {
    let prog = program(
        "struct Box { int v; void set(int x); Box& with(int x); };\n\
         void Box::set(int x) { v = x; }\n\
         Box& Box::with(int x) { v = x; return *this; }\n\
         int other::g(int x) { return x; }",
    );
    // `other` is no known class, so its function is left alone.
    assert_eq!(names(&prog), ["Box::set", "Box::with"]);
    assert_eq!(text(&prog, "Box::set"), ["store @p0.v = @p1", "return "]);
}

#[test]
fn a_constructor_initializes_its_members_before_its_body() {
    let prog = program(
        "struct Box { int v; int w; Box(int v) : v(v), w{2} { w = v; } };\n\
         void f(int y) { Box a(y); Box b = Box(y); Box c{y}; Box d(0); }",
    );
    assert_eq!(names(&prog), ["Box::Box", "f"]);
    // The member is on the left, the parameter of the same name on the right.
    assert_eq!(
        text(&prog, "Box::Box"),
        ["store @p0.v = @p1", "store @p0.w = #2", "store @p0.w = @p1", "return "]
    );
    assert_eq!(
        text(&prog, "f"),
        [
            "<t0> = Box::Box(a, @p0)",
            "<t1> = Box::Box(b, @p0)",
            "<t2> = Box::Box(c, @p0)",
            "<t3> = Box::Box(d, #0)",
            "return "
        ]
    );
}

#[test]
fn an_argument_read_as_a_parameter_is_a_call() {
    let prog = program(
        "int source(int x); struct Box { Box(int x) { } };\n\
         void f(int y) { Box b(source(y)); }",
    );
    assert_eq!(
        text(&prog, "f"),
        ["<t0> = source(@p0)", "<t1> = Box::Box(b, <t0>)", "return "]
    );
}

#[test]
fn an_object_without_a_constructor_is_not_constructed() {
    let prog = program("struct P { int x; }; int f(int a) { P p; p.x = a; return p.x; }");
    assert_eq!(text(&prog, "f"), ["store p.x = @p0", "<t0> = load p.x", "return <t0>"]);
}

#[test]
fn overloads_are_told_apart_by_the_number_of_their_parameters() {
    let prog = program(
        "int id(int x) { return x; }\n\
         int id(int x, int y) { return y; }\n\
         int one(int x) { return x; }\n\
         struct Box { Box(int a) { } Box(int a, int b) { } int f() { return 1; } int f(int a) { return a; } };\n\
         int g(int s) { Box p(s, s); Box q(0); id(s); id(s, s); one(s); return p.f(s); }",
    );
    assert_eq!(
        names(&prog),
        ["Box::Box#1", "Box::Box#2", "Box::f#0", "Box::f#1", "id#1", "id#2", "one", "g"]
    );
    assert_eq!(
        text(&prog, "g"),
        [
            "<t0> = Box::Box#2(p, @p0, @p0)",
            "<t1> = Box::Box#1(q, #0)",
            "<t2> = id#1(@p0)",
            "<t3> = id#2(@p0, @p0)",
            "<t4> = one(@p0)",
            "<t5> = Box::f#1(p, @p0)",
            "return <t5>"
        ]
    );
}

#[test]
fn an_overloaded_name_carries_its_arity() {
    let overload = |name: &str, arity: usize| Overload { name: name.to_string(), arity };
    let overloads = vec![overload("f", 1), overload("f", 2), overload("g", 1), overload("g", 1)];
    assert_eq!(overload_name(&overloads, "f", 1), "f#1");
    assert_eq!(overload_name(&overloads, "f", 12), "f#12");
    assert_eq!(overload_name(&overloads, "g", 1), "g");
    assert_eq!(overload_name(&overloads, "h", 3), "h");
}

#[test]
fn a_namespace_qualifies_what_it_holds() {
    let prog = program(
        "namespace a { namespace b { int f(int x) { return x; } \
         struct Box { int v; Box(int x) : v(x) { } int get() { return v; } }; } }\n\
         int g(int s) { a::b::Box q(s); a::b::f(s); return q.get(); }",
    );
    assert_eq!(names(&prog), ["a::b::Box::a::b::Box", "a::b::Box::get", "a::b::f", "g"]);
    assert_eq!(
        text(&prog, "g"),
        [
            "<t0> = a::b::Box::a::b::Box(q, @p0)",
            "<t1> = a::b::f(@p0)",
            "<t2> = a::b::Box::get(q)",
            "return <t2>"
        ]
    );
}

#[test]
fn a_simple_name_is_the_last_component() {
    assert_eq!(simple_class_name("ns::Box"), "Box");
    assert_eq!(simple_class_name("a::b::Box"), "Box");
    assert_eq!(simple_class_name("Box"), "Box");
    assert_eq!(simple_class_name("Box::"), "");
    assert_eq!(simple_class_name(""), "");
}

#[test]
fn an_inherited_member_is_a_member() {
    let prog = program(
        "struct A { int v; }; struct B : public A { }; struct C : B { void set(int x) { v = x; } };",
    );
    assert_eq!(text(&prog, "C::set"), ["store @p0.v = @p1", "return "]);
}

#[test]
fn a_virtual_call_may_reach_every_class_below() {
    let prog = program(
        "struct Base { virtual int get() { return 1; } int plain() { return 2; } };\n\
         struct Left : Base { int get() override { return 3; } int plain() { return 4; } };\n\
         struct Right : Left { int get() override { return 5; } };\n\
         int f(Base *p) { return p->get(); }\n\
         int g(Base &r) { return r.plain(); }\n\
         int h(Right *q) { return q->plain(); }",
    );
    assert_eq!(
        text(&prog, "f"),
        ["<t0> = Base::get|Left::get|Right::get(@p0)", "return <t0>"]
    );
    assert_eq!(text(&prog, "g"), ["<t0> = Base::plain(@p0)", "return <t0>"]);
    assert_eq!(text(&prog, "h"), ["<t0> = Left::plain(@p0)", "return <t0>"]);
}

#[test]
fn a_new_object_is_constructed_and_a_delete_destroys_it() {
    let prog = program(
        "struct Base { virtual ~Base() { } };\n\
         struct Derived : Base { int v; Derived(int x) : v(x) { } ~Derived() { } };\n\
         struct Plain { int v; };\n\
         void f(int s) { Base *p = new Derived(s); delete p; Plain *q = new Plain(); delete q; }",
    );
    assert_eq!(
        names(&prog),
        ["Base::~Base", "Derived::Derived", "Derived::~Derived", "f"]
    );
    assert_eq!(
        text(&prog, "f"),
        [
            "<t1> = Derived::Derived(<t0>, @p0)",
            "<t2> = Base::~Base|Derived::~Derived(<t0>)",
            "return "
        ]
    );
}

#[test]
fn a_delete_without_a_virtual_destructor_runs_one() {
    let prog = program(
        "struct Base { ~Base() { } }; struct Mid : Base { }; struct Low : Mid { ~Low() { } };\n\
         void f(Mid *p) { delete p; }",
    );
    // `Mid` has the destructor of its base.
    assert_eq!(text(&prog, "f"), ["<t0> = Base::~Base(@p0)", "return "]);
}

#[test]
fn the_objects_of_a_scope_are_destroyed_last_first() {
    let prog = program(
        "struct D { D(int x) { } ~D() { } }; struct E { int v; };\n\
         void f(int s) { D a(s); { D b(s); E e; D c(s); } D d(s); }",
    );
    assert_eq!(
        text(&prog, "f"),
        [
            "<t0> = D::D(a, @p0)",
            "<t1> = D::D(b, @p0)",
            "<t2> = D::D(c, @p0)",
            "<t3> = D::~D(c)",
            "<t4> = D::~D(b)",
            "<t5> = D::D(d, @p0)",
            "<t6> = D::~D(d)",
            "<t7> = D::~D(a)",
            "return "
        ]
    );
}

#[test]
fn a_scope_that_control_leaves_early_destroys_nothing() {
    let prog = program("struct D { ~D() { } }; int f(int s) { D a; return s; }");
    assert_eq!(text(&prog, "f"), ["return @p0"]);
}

#[test]
fn a_static_member_is_a_global_of_its_class() {
    let prog = program(
        "struct S { static int total; int v; static void add(int x) { total = x; } };\n\
         void f(int s) { S::add(s); }",
    );
    // A static method has no receiver.
    assert_eq!(function(&prog, "S::add").params, [ParameterType::ByVal]);
    assert_eq!(text(&prog, "S::add"), ["store $globals.S::total = @p0", "return "]);
    assert_eq!(text(&prog, "f"), ["<t0> = S::add(@p0)", "return "]);
}

#[test]
fn a_reference_stands_for_what_it_is_bound_to() {
    let prog = program(
        "void f(int &out, const int &in) { int &r = out; r = in; }",
    );
    assert_eq!(
        function(&prog, "f").params,
        [ParameterType::ByRef, ParameterType::ByVal]
    );
    assert_eq!(text(&prog, "f"), ["@p0 = @p1", "return "]);
}

#[test]
fn a_chained_call_is_made_on_the_same_object() {
    let prog = program(
        "struct Box { int v; Box& set(int x) { v = x; return *this; } int get() { return v; } };\n\
         int f(int s) { Box b; return b.set(s).get(); }",
    );
    assert_eq!(
        text(&prog, "f"),
        ["<t1> = Box::set(b, @p0)", "<t0> = Box::get(b)", "return <t0>"]
    );
}

#[test]
fn a_syntax_error_is_told() {
    let lowered = parse_cpp_program("int f( { }", false).expect("lowering recovers");
    assert!(lowered.has_error);
}

/// Outside of strict mode a construct that cannot be lowered is reported, and lowering goes on.
#[test]
fn lowering_recovers_from_anything_in_a_class() {
    for src in [
        "class A { int x; A(int y) : x(y) { again: if (x) goto again; } };",
        "struct B { void f() { ??? } };",
        "struct C { C(int); }; void f() { C c(g(), int); lambda = [] { return 1; }; }",
    ] {
        assert!(parse_cpp_program(src, false).is_ok(), "{src}");
    }
}

/// The labels of a function are those of its body, so that one inside an initializer of a member has
/// no block.
#[test]
fn a_label_in_a_member_initializer_has_no_block() {
    let src = "struct A { int x; A() : x(({ again: 1; })) { } };";
    let lowered = parse_cpp_program(src, false);
    assert!(lowered.is_err(), "{lowered:?}");
}

/// A body that is not a block is one statement, and a `try` is none that can be lowered.
#[test]
fn a_function_try_block_is_reported() {
    let src = "struct A { int x; void f() try { x = 1; } catch (...) { } };";
    let lowered = parse_cpp_program(src, false).expect("lowering recovers");
    assert!(names(&lowered.program).contains(&"A::f"));
    assert!(!lowered.reports.is_empty());
}

#[test]
fn definitions_of_one_name_and_arity_are_one_function() {
    let src = r"
        struct A {
            int f(int x) { return x; }
            int f(char *s) { return s[0]; }
        };
        int g(int x) { return x; }
        int g(char *x) { return x[0]; }
        int h(int x) {
            A a;
            return a.f(x) + g(x);
        }";
    for strict in [false, true] {
        let l = parse_cpp_program(src, strict).expect("legal C++ is lowered");
        assert!(l.reports.is_empty());
        assert_eq!(names(&l.program), ["A::f", "g", "h"]);
        let f = function(&l.program, "A::f");
        assert_eq!(
            f.params,
            [ParameterType::ByRef, ParameterType::ByVal, ParameterType::ByRef, ParameterType::ByRef]
        );
        assert_eq!(f.param_names, ["this", "x", "this", "s"]);
        assert_eq!(f.blocks.len(), 2);
        assert!(f.blocks.iter().all(|b| b.terminator.is_some()));
        let g = function(&l.program, "g");
        assert_eq!(g.params, [ParameterType::ByVal, ParameterType::ByRef]);
        assert_eq!(g.blocks.len(), 2);
        assert!(matches!(
            &g.blocks[0].terminator,
            Some(Terminator::Return(v)) if operand(g, &v[0]) == "@p0"
        ));
    }
}

#[test]
fn a_copy_in_cpp_is_added_too() {
    let src = "void f(int x) { } void f(int x) { }";
    let prog = program(src);
    assert_eq!(names(&prog), ["f"]);
    assert_eq!(prog.functions[0].blocks.len(), 2);
    assert_eq!(prog.functions[0].params.len(), 2);
}

#[test]
fn a_subscript_without_an_index_is_unsupported() {
    let unevaluated = "int f(int x) { int n = sizeof(x[]); return x; }";
    let l = parse_cpp_program(unevaluated, true).expect("an unevaluated operand is not lowered");
    assert_eq!(names(&l.program), ["f"]);
    let evaluated = "int f(int *x) { x[] = 1; g(&x[]); return x[]; }";
    let l = parse_cpp_program(evaluated, false).expect("lowering recovers");
    let messages: Vec<&str> = l.reports.iter().map(|r| r.message.as_str()).collect();
    assert_eq!(messages, vec!["ERR 78: Unsupported expression type: subscript_expression"; 3]);
    assert!(parse_cpp_program(evaluated, true).is_err());
}

#[test]
fn with_two_bases_the_nearest_destructor_runs() {
    let src = r"
        struct A { ~A() { } };
        struct D { ~D() { } };
        struct B : D { };
        struct C : A, B { };
        void f() {
            C c;
        }";
    let prog = program(src);
    let calls = text(&prog, "f").join("\n");
    assert!(calls.contains("A::~A"), "{calls}");
    assert!(!calls.contains("D::~D"), "{calls}");
}
