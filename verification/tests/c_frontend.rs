//! The C front end on C source: what statements, blocks and calls come out, and what is reported.

use ctadl_ascent::error::Error;
use ctadl_ascent::externs::{define_extern_functions, lower_import, parse_c_files};
use ctadl_ascent::mir::ParameterType::{ByRef, ByVal};
use ctadl_ascent::mir::{
    AccessPath, CallStyle, Exp, FunctionData, ParameterType, Program, Statement, StatementKind,
    Terminator, VariableRef,
};
use ctadl_ascent::program::parse_c_program;
use ctadl_ascent::units::TranslationUnit;

fn program_of(src: &str, strict: bool) -> (Program, String) {
    let lowered = parse_c_program(src, strict).expect("the source must lower");
    assert!(!lowered.has_error, "the source must parse cleanly");
    let mut program = lowered.program;
    define_extern_functions(&mut program);
    let dump = format!("{program:?}");
    (program, dump)
}

fn program_from_string(src: &str) -> (Program, String) {
    program_of(src, false)
}

fn strict_program(src: &str) -> (Program, String) {
    program_of(src, true)
}

fn program_from_files(files: &[(&str, &str)]) -> (Program, String) {
    let files: Vec<(String, String)> =
        files.iter().map(|(p, s)| (p.to_string(), s.to_string())).collect();
    let program = parse_c_files(&files, false).expect("the files must lower").program;
    let dump = format!("{program:?}");
    (program, dump)
}

fn reports_for(src: &str) -> Vec<(&'static str, String)> {
    let lowered = parse_c_program(src, false).expect("lowering recovers");
    lowered.reports.into_iter().map(|r| (r.attribution.prefix(), r.message)).collect()
}

fn error_text(e: &Error) -> String {
    match e {
        Error::TreeSitterParse(message) => message.clone(),
        other => format!("{other:?}"),
    }
}

fn defined(prog: &Program) -> Vec<&FunctionData> {
    prog.functions.iter().filter(|f| !f.blocks.is_empty()).collect()
}

fn get_only_function(prog: &Program) -> Option<&FunctionData> {
    match defined(prog).as_slice() {
        [f] => Some(f),
        _ => None,
    }
}

fn only(prog: &Program) -> &FunctionData {
    get_only_function(prog).expect("expected exactly one function")
}

fn function_named<'a>(prog: &'a Program, name: &str) -> Option<&'a FunctionData> {
    prog.functions.iter().find(|f| f.name == name)
}

fn statements(f: &FunctionData) -> impl Iterator<Item = &Statement> {
    f.blocks.iter().flat_map(|b| b.statements.iter())
}

fn statements_of(prog: &Program) -> impl Iterator<Item = &Statement> {
    prog.functions.iter().flat_map(statements)
}

fn variable(f: &FunctionData, v: VariableRef) -> String {
    match v {
        VariableRef::Local(i) => f.locals[i].clone(),
        VariableRef::Param(i) => format!("@p{i}"),
        VariableRef::Global => "$globals".to_string(),
    }
}

fn address(f: &FunctionData, a: &AccessPath) -> String {
    let mut s = variable(f, a.variable_ref);
    for o in &a.offsets {
        s.push_str(&format!(".[{o}]"));
    }
    s
}

fn operand(f: &FunctionData, e: &Exp) -> String {
    match e {
        Exp::Variable(v) => variable(f, *v),
        Exp::AccessPath(a) => address(f, a),
        Exp::Str(s) => format!("#{s}"),
        Exp::FunctionPtr(s) => format!("&{s}"),
    }
}

/// What a statement writes, and from what; `None` for a load or a call.
fn write_of(f: &FunctionData, s: &Statement) -> Option<(String, Vec<String>)> {
    match &s.kind {
        StatementKind::Assign { dest, args } => {
            Some((variable(f, *dest), args.iter().map(|a| operand(f, a)).collect()))
        }
        StatementKind::Store { address: a, field, value } => {
            Some((format!("{}.{field}", address(f, a)), vec![operand(f, value)]))
        }
        _ => None,
    }
}

fn check_assign_or_update<const N: usize>(
    prog: &Program,
    dest: &str,
    args: [&str; N],
    block: Option<usize>,
) {
    let found = defined(prog).into_iter().any(|f| {
        f.blocks.iter().enumerate().any(|(i, b)| {
            block.map_or(true, |want| want == i)
                && b.statements.iter().any(|s| {
                    write_of(f, s).is_some_and(|(d, a)| d == dest && a == args)
                })
        })
    });
    assert!(found, "no write of {dest} from {args:?} in block {block:?}\n{prog:?}");
}

fn count_writes_to(prog: &Program, dest: &str) -> usize {
    let f = only(prog);
    statements(f).filter(|s| write_of(f, s).is_some_and(|(d, _)| d == dest)).count()
}

fn check_writes_to(prog: &Program, dest: &str, n: usize) {
    assert_eq!(count_writes_to(prog, dest), n, "writes to {dest}\n{prog:?}");
}

fn check_loads(prog: &Program, path: &str) {
    let f = only(prog);
    let found = statements(f).any(|s| match &s.kind {
        StatementKind::Load { address: a, field, .. } => {
            format!("{}.{field}", address(f, a)) == path
        }
        _ => false,
    });
    assert!(found, "no load of {path}\n{prog:?}");
}

fn check_block_count(prog: &Program, n: usize) {
    assert_eq!(only(prog).blocks.len(), n, "blocks\n{prog:?}");
}

fn check_successors(prog: &Program, block: usize, succs: &[usize]) {
    let mut found: Vec<usize> = match &only(prog).blocks[block].terminator {
        Some(Terminator::Goto(targets)) => targets.clone(),
        Some(Terminator::Return(_)) => vec![],
        None => panic!("block {block} has no terminator"),
    };
    found.sort();
    assert_eq!(found, succs, "successors of {block}\n{prog:?}");
}

fn check_params(prog: &Program, params: &[ParameterType]) {
    assert_eq!(only(prog).params, params);
}

fn check_return_arity(prog: &Program, name: &str, n: usize) {
    assert_eq!(function_named(prog, name).expect(name).return_arity, n);
}

fn check_returns_const(prog: &Program, name: &str, text: &str) {
    let f = function_named(prog, name).expect(name);
    let found = f.blocks.iter().any(|b| match &b.terminator {
        Some(Terminator::Return(args)) => {
            args.iter().any(|a| operand(f, a) == format!("#{text}"))
        }
        _ => false,
    });
    assert!(found, "{name} does not return {text}\n{prog:?}");
}

fn direct_calls_in(prog: &Program, caller: &str) -> Vec<(Vec<String>, Vec<String>)> {
    let f = function_named(prog, caller).expect(caller);
    statements(f)
        .filter_map(|s| match &s.kind {
            StatementKind::CallAssign { style: CallStyle::DirectCall(names), args, .. } => {
                Some((names.clone(), args.iter().map(|a| operand(f, a)).collect()))
            }
            _ => None,
        })
        .collect()
}

fn call_args<'a>(prog: &'a Program, caller: &str, callee: &str) -> &'a Vec<Exp> {
    statements(function_named(prog, caller).expect(caller))
        .find_map(|s| match &s.kind {
            StatementKind::CallAssign { style: CallStyle::DirectCall(names), args, .. }
                if names.iter().any(|n| n == callee) =>
            {
                Some(args)
            }
            _ => None,
        })
        .expect("the call must be there")
}

fn check_has_direct_call(prog: &Program, caller: &str, callee: &str) {
    let found = direct_calls_in(prog, caller).iter().any(|(c, _)| c.iter().any(|n| n == callee));
    assert!(found, "{caller} does not call {callee}\n{prog:?}");
}

fn check_direct_call<const N: usize>(prog: &Program, caller: &str, callee: &str, args: [&str; N]) {
    let found = direct_calls_in(prog, caller)
        .iter()
        .any(|(c, a)| c.iter().any(|n| n == callee) && a.as_slice() == args);
    assert!(found, "{caller} does not call {callee} with {args:?}\n{prog:?}");
}

fn field_symbols(prog: &Program) -> Vec<&str> {
    statements_of(prog)
        .filter_map(|s| match &s.kind {
            StatementKind::Load { field, .. } | StatementKind::Store { field, .. } => {
                Some(field.as_str())
            }
            _ => None,
        })
        .collect()
}

#[test]
fn unique_temps() {
    // Each operator that needs flattening gets its own temporary; check the allocator hands
    // out distinct, gap-free names <t0>..<t4> across the whole function, read off the IR.
    // Operands are parameters, so the only temps are the binary operations' own.
    let src = r"
        void fun(int n, int p, int r, int q, int a, int b, int m, int x){
            int z = n + p + r + q;   // <t0>, <t1>, <t2>
            int v = a + b;           // <t3>
            int w = m + x;           // <t4>
        }
    ";
    let prog = program_from_string(src).0;
    let fun = get_only_function(&prog).expect("expected exactly one function");

    // Collect the names of every temporary that appears as an assignment destination.
    let temp_dests: Vec<String> = statements(fun)
        .filter_map(|stmt| match &stmt.kind {
            StatementKind::Assign { dest: VariableRef::Local(idx), .. } => {
                Some(fun.locals[*idx].clone()).filter(|name| name.starts_with("<t"))
            }
            _ => None,
        })
        .collect();

    // No temporary is assigned more than once...
    let distinct: std::collections::BTreeSet<String> = temp_dests.iter().cloned().collect();
    assert_eq!(
        temp_dests.len(),
        distinct.len(),
        "a temporary was assigned more than once: {temp_dests:?}"
    );

    // ...and exactly <t0>..<t4> were allocated (ascending, no gaps, no extras).
    let expected: std::collections::BTreeSet<String> = (0..5).map(|i| format!("<t{i}>")).collect();
    assert_eq!(
        distinct, expected,
        "expected exactly <t0>..<t4> as temporaries"
    );
}

#[test]
fn address_of_element_forms_an_address() {
    // `&x[1]` is the *address* of an element -- the path `x.[1]` -- and must NOT lower to a
    // load of `x.[1].deref`: that would hand the callee a copy, and any write through the
    // pointer would be lost. The argument carries the offset, and the element is never read.
    let src = r"
        void transfer(int *a, int b);
        void f(int s) {
            int x[3];
            transfer(&x[1], s);
        }";
    let prog = program_from_string(src).0;
    let args = call_args(&prog, "f", "transfer");
    let Exp::AccessPath(addr) = &args[0] else {
        panic!("`&x[1]` should be an address access path, got {:?}\n{prog:?}", args[0])
    };
    let f = function_named(&prog, "f").expect("f is defined");
    assert_eq!(variable(f, addr.variable_ref), "x");
    assert_eq!(addr.offsets, vec![1], "`&x[1]` is `x` at offset 1\n{prog:?}");
    assert!(
        !statements_of(&prog).any(|s| matches!(s.kind, StatementKind::Load { .. })),
        "taking an element's address must not load the element\n{prog:?}"
    );
}

#[test]
fn address_of_element_zero_is_the_base_address() {
    // `&a[0]` is `a` itself: index 0 contributes no offset, so the address is the bare base --
    // the same bare variable the pass-through gives for `&a`.
    let src = r"
        void take(int *p);
        void f() {
            int a[3];
            take(&a[0]);
        }";
    let prog = program_from_string(src).0;
    let args = call_args(&prog, "f", "take");
    let f = function_named(&prog, "f").expect("f is defined");
    assert!(matches!(&args[0], Exp::Variable(v) if variable(f, *v) == "a"));
}

#[test]
fn address_of_struct_member_keeps_value_model() {
    // `&s.f` has no address in this IR (a member's byte offset needs type information), so
    // address-of falls back to the value model and passes the member's *value*: a plain
    // pathless argument, and a callee's write through the pointer is lost.
    let src = r"
        void take(int *p);
        void f(Thing s) {
            take(&s.f);
        }";
    let prog = program_from_string(src).0;
    let args = call_args(&prog, "f", "take");
    assert!(
        matches!(&args[0], Exp::Variable(_)),
        "`&s.f` has no address spelling, so it must stay a loaded value, got {:?}\n{prog:?}",
        args[0]
    );
    // ...and that value comes from a load of the member.
    let f = function_named(&prog, "f").expect("f is defined");
    assert!(
        statements(f)
            .any(|s| matches!(&s.kind, StatementKind::Load { field, .. } if field.as_str() == "f")),
        "expected a load of the member `f`\n{prog:?}"
    );
}

#[test]
fn vararg_call_carries_argument() {
    // A tainted value passed as a variadic argument (`printf("%d", src)`) must at least be
    // *captured* as an argument of the lowered call: f emits a direct call to printf, and src
    // (@p0) appears among its arguments.
    let src = r#"
        int f(int src) {
            return printf("%d", src);
        }"#;
    let (prog, _dump) = program_from_string(src);
    check_has_direct_call(&prog, "f", "printf");
    let carries_src = direct_calls_in(&prog, "f").iter().any(|(callees, args)| {
        callees.iter().any(|c| c == "printf") && args.iter().any(|a| a == "@p0")
    });
    assert!(
        carries_src,
        "expected @p0 to appear as an argument of the printf call\n{prog:?}"
    );
}

#[test]
fn import_c_registers_externs_and_spans() {
    let units = vec![TranslationUnit {
        path: Some("t.c".to_string()),
        source: "int source();\nvoid sink(int);\nint f() { int s = source(); sink(s); return s; }\n"
            .to_string(),
    }];
    let info = lower_import(&units, false).unwrap();

    // `source` and `sink` are only declared, so they must appear as empty-body externs.
    let find = |name: &str| info.program.functions.iter().find(|func| func.name == name);
    for name in ["source", "sink"] {
        let func = find(name).unwrap_or_else(|| panic!("extern function `{name}` not registered"));
        assert!(
            func.blocks.is_empty(),
            "extern `{name}` should have no body"
        );
    }
    // The defined function keeps its body.
    assert!(!find("f").unwrap().blocks.is_empty());

    // At least one lowered statement carries a source span.
    assert!(
        statements_of(&info.program).any(|s| s.span.is_some()),
        "no statement carried a source span"
    );
}

#[test]
fn compound_literal_argument_carries_value() {
    // A literal in argument position: the call must receive *the object the literal was
    // materialized into*, not an unrelated opaque temp -- so find the store that put the
    // param at `.start` and require the argument to be that same base variable.
    let src = r"
        struct pair { int start; int end; };
        int use(struct pair p);
        int f(int a) { return use((struct pair){ .start = a, .end = 0 }); }";
    let prog = program_from_string(src).0;
    check_has_direct_call(&prog, "f", "use");

    let object = statements_of(&prog)
        .find_map(|stmt| match &stmt.kind {
            StatementKind::Store { address, field, value }
                if field.as_str() == "start"
                    && matches!(value, Exp::Variable(VariableRef::Param(0))) =>
            {
                Some(address.variable_ref)
            }
            _ => None,
        })
        .unwrap_or_else(|| panic!("expected a store of @p0 at `.start`\n{prog:?}"));
    let args = call_args(&prog, "f", "use");
    assert!(
        matches!(args.as_slice(), [Exp::Variable(v)] if *v == object),
        "expected the call's argument to be the literal's own object\n{prog:?}"
    );
}

#[test]
fn compound_literal_array_elements_flow() {
    // The array form `(int[]){ a, 0 }` has no members to name, so its elements take the element
    // numbering an array initializer gets: element 0 at `.deref`, element 1 at `.[1].deref`. The
    // rank comes from the type descriptor's *abstract* array declarator -- the unnamed spelling
    // of `int a[]` -- which is why `array_declarator_rank` counts the `abstract_*` kinds too.
    let src = r"
        int use(int *p);
        int f(int a) { return use((int[]){ a, 0 }); }";
    let prog = program_from_string(src).0;
    let f = function_named(&prog, "f").expect("f is defined");
    let obj = match call_args(&prog, "f", "use").as_slice() {
        [Exp::Variable(VariableRef::Local(i))] => f.locals[*i].clone(),
        args => panic!("expected `use` to take just the literal's object, got {args:?}\n{prog:?}"),
    };
    check_assign_or_update(&prog, &format!("{obj}.deref"), ["@p0"], None);
    check_assign_or_update(&prog, &format!("{obj}.[1].deref"), ["#0"], None);
}

#[test]
fn a_void_parameter_list_is_still_empty() {
    // The boundary a "reserve a slot for a nameless parameter" rule would break, and it is
    // everywhere: the `void` in `f(void)` IS the empty list -- a `parameter_declaration`
    // with a type and NO declarator, which reserves nothing. An abstract declarator
    // (`f(char **)`) is the one that does.
    let (prog, _dump) = program_from_string(r"void f(void) { int x; x = 1; }");
    check_params(&prog, &[]);
    let (prog, _dump) = program_from_string(r"void f() { int x; x = 1; }");
    check_params(&prog, &[]);
}

#[test]
fn simple_function() {
    // An empty function body. Even with no statements, it lowers to exactly one basic block.
    let src = r"
            void simple() {}
        ";
    let prog = program_from_string(src).0;
    check_block_count(&prog, 1);
}

#[test]
fn simple_assign() {
    // Copying one variable into another (`int b = a;`). Lowers to a single `assign b = a`, and a
    // straight-line body is a single basic block.
    let src = r"
            int simple_assign() {
                int a = 5;
                int b = a;
                return b;
            }
        ";
    let prog = program_from_string(src).0;
    check_block_count(&prog, 1);
    check_assign_or_update(&prog, "b", ["a"], None);
}

#[test]
fn simple_assign_expr() {
    // A binary operator inside a declarator (`int c = a + b;`). An assign can't hold a compound
    // expression, so the add spills into a temporary: `<t0> = a, b` then `c = <t0>`.
    let src = r"
            int simple_assign_expr() {
                int a = 5;
                int b = 4;
                int c = a + b;
                return c;
            }
        ";
    let (prog, _dump) = program_from_string(src);
    check_block_count(&prog, 1);
    check_assign_or_update(&prog, "<t0>", ["a", "b"], None);
    check_assign_or_update(&prog, "c", ["<t0>"], None);
}

#[test]
fn simple_assign_global() {
    // Reading a name with no local declaration (`int b = a;`, where `a` was never declared). CTADL
    // resolves it to a global, so the assignment's source is `$globals.a`.
    let src = r"
            int simple_assign_global() {
                int b = a;
                return b;
            }
        ";
    let prog = program_from_string(src).0;
    // Reading the global `a` lowers to a load of `$globals.a` (into a temp that flows to `b`).
    check_loads(&prog, "$globals.a");
}

#[test]
fn basic_params() {
    // How parameters are passed: a plain `int x` is by-value, a pointer `int *y` is by-reference.
    let src = r"
            void basic_params(int x, int *y) {}
        ";
    let prog = program_from_string(src).0;
    check_params(&prog, &[ByVal, ByRef]);
}

#[test]
fn scopes_arent_blocks() {
    // A bare `{ ... }` block with no control flow. It only introduces a lexical scope, so it does
    // *not* start a new basic block -- the function stays at one block.
    let src = r"
        int bar() {
            {
                int x;
            }
            return 0;
        }";
    let prog = program_from_string(src).0;
    check_block_count(&prog, 1);
}

#[test]
fn assignment_statement() {
    // Assignment as a standalone statement (`b = a;`), not a declaration initializer. It lowers to
    // the same `assign b = a`, but through the expression-statement path rather than the declarator
    // path that `simple_assign` covers.
    let src = r"
        int f() {
            int a = 5;
            int b;
            b = a;
            return b;
        }";
    let prog = program_from_string(src).0;
    check_assign_or_update(&prog, "b", ["a"], None);
}

#[test]
fn comma_list_declarations() {
    // Several initialized declarators on one line (`int x = a, y = b, z = 7;`). Each becomes its own
    // `assign` (and `z` takes the literal 7 as a constant source).
    let src = r"
        int comma_sep_decl() {
            int a, b, c, d;
            int x = a, y = b, z = 7;
            return x + y;
        }";
    let prog = program_from_string(src).0;
    check_assign_or_update(&prog, "x", ["a"], None);
    check_assign_or_update(&prog, "y", ["b"], None);
    check_assign_or_update(&prog, "z", ["#7"], None); // z = 7 (literal)
}

#[test]
fn extra_parens() {
    // Redundant parentheses around a condition that is itself an assignment: `if((x = z))` and
    // `while((((y = z))))`. The extra parens are peeled and the embedded assignment lowers normally
    // to `assign x = z` / `assign y = z`.
    let src = r"
        int extra_parens() {
            int z = 55;
            int x, y;
            if((x = z)) {
            }
            while((((y = z)))) {
            }
            return 0;
        }";
    let prog = program_from_string(src).0;
    check_assign_or_update(&prog, "x", ["z"], None);
    check_assign_or_update(&prog, "y", ["z"], None);
}

#[test]
fn field_assignment_is_update() {
    // Storing into a struct field (`v.f2 = x;`). In the IR this is a functional `update` on the base
    // value (`@p0` updated at `.f2`), not a plain `assign`. The summary can't see this distinction,
    // so it's checked on the IR; one representative case is enough.
    let src = r"
        int f(Donkey v, int x) {
            v.f2 = x;
        }";
    let prog = program_from_string(src).0;
    check_assign_or_update(&prog, "@p0.f2", ["@p1"], None);
}

#[test]
fn chained_assignment() {
    // A chained assignment (`int b = a = 5;`). The inner `a = 5` runs first and its value propagates
    // outward, so `b` is assigned from `a`: IR is `assign a = 5` then `assign b = a`.
    let src = r"
        int f() {
            int a;
            int b = a = 5;
            int c = a + b;
            return c;
        }";
    let prog = program_from_string(src).0;
    check_assign_or_update(&prog, "a", ["#5"], None); // inner `a = 5` (literal)
    check_assign_or_update(&prog, "b", ["a"], None);
}

#[test]
fn literal_assignments() {
    // Numeric literals as assignment sources, both as a statement (`a = 5;`) and a declarator
    // (`int x = 17;`). A literal lowers to a constant source -- the literal's source text, not an
    // access path. (Literals buried inside a sum, or returned, are covered elsewhere.)
    let src = r"
        int f() {
            int a;
            a = 5;
            int x = 17;
        }";
    let prog = program_from_string(src).0;
    check_assign_or_update(&prog, "a", ["#5"], None);
    check_assign_or_update(&prog, "x", ["#17"], None);
}

#[test]
fn if_fallthrough_cfg() {
    // An `if` with no early return -- control falls out of the body and continues. CFG: block 0 (the
    // condition) branches to the body (1) or the continuation (2); the body falls through to 2; and
    // block 2 returns, so it is terminal.
    let src = r"
        int f(int x, int y) {
            if(x) {
                x = x + 21;
            }
            return y;
        }";
    let prog = program_from_string(src).0;
    check_block_count(&prog, 3);
    check_successors(&prog, 0, &[1, 2]);
    check_successors(&prog, 1, &[2]);
    check_successors(&prog, 2, &[]);
}

#[test]
fn if_return_in_consequent_cfg() {
    // An `if` whose body returns (`if(x) return x; return y;`). CFG: block 0 branches to the body (1)
    // or the fall-through (2), and both are terminal returns -- nothing rejoins.
    let src = r"
        int f(int x, int y) {
            if(x) {
                return x;
            }
            return y;
        }";
    let prog = program_from_string(src).0;
    check_block_count(&prog, 3);
    check_successors(&prog, 0, &[1, 2]);
    check_successors(&prog, 1, &[]);
    check_successors(&prog, 2, &[]);
}

#[test]
fn while_loop_cfg() {
    // A `while` loop's block structure. CFG: block 0 sets up and enters the header (1); the
    // header/condition (1) branches to the body (3) or the exit (2); the body loops back to the
    // header (1, the back-edge); block 2 runs the post-loop code and returns. Also checks the body
    // assignment lands in block 3 and the post-loop one in block 2.
    let src = r"
        int f(Field my_parm, int parB) {
            int b = 2;
            int x = 5;
            while(my_parm->x = parB) {
                x = b;
            }
            int y = x;
            return y;
        }";
    let prog = program_from_string(src).0;
    check_block_count(&prog, 4);
    check_successors(&prog, 0, &[1]);
    check_successors(&prog, 1, &[2, 3]);
    check_successors(&prog, 3, &[1]);
    check_successors(&prog, 2, &[]);
    // body and post-loop assignments land in the right blocks
    check_assign_or_update(&prog, "x", ["b"], Some(3));
    check_assign_or_update(&prog, "y", ["x"], Some(2));
}

#[test]
fn do_while_cfg() {
    // A `do { ... } while(...)`: unlike `while`, the body runs *before* the condition, so
    // setup falls into the body, the body into the condition, and the condition back-edges
    // or exits.
    let src = r"
        int f() {
            int b = 2;
            int x = 5;
            do {
                x = b;
            } while(b = b + x);
            int y = x;
            return y;
        }";
    let prog = program_from_string(src).0;
    check_block_count(&prog, 4);
    check_successors(&prog, 0, &[1]); // setup falls into the body, not a condition
    check_successors(&prog, 1, &[2]); // body falls into the condition
    check_successors(&prog, 2, &[1, 3]); // condition: back-edge to body, or exit
    check_successors(&prog, 3, &[]); // continuation returns, terminal
    check_assign_or_update(&prog, "x", ["b"], Some(1)); // body statement
}

#[test]
fn while_with_nested_if_cfg() {
    // A `while` whose body holds an `if` and a trailing statement: the if-join back-edges
    // to the loop condition, never the entry block.
    let src = r"
        int f(int y, int z) {
            int x = 5;
            while(x < 50) {
                x = z;
                if(y == z)
                    x = y;
                x = x + z;
            }
            return x;
        }";
    let prog = program_from_string(src).0;
    check_block_count(&prog, 6);
    check_successors(&prog, 0, &[1]);
    check_successors(&prog, 1, &[2, 3]); // condition: exit or enter body
    check_successors(&prog, 2, &[]); // continuation returns, terminal
    check_successors(&prog, 3, &[4, 5]); // body: inner-if branch
    check_successors(&prog, 4, &[5]); // if-consequence joins
    check_successors(&prog, 5, &[1]); // if-join back-edges to the condition, not entry
}

#[test]
fn sequential_ifs_cfg() {
    // Two `if`s back-to-back, function falls off the end: two chained diamonds, the first
    // continuation doubling as the second condition, and no edge back to the entry.
    let src = r"
        int f(int y, int z) {
            int x = 5;
            if(x == 3)
                x = z;
            if(y == z)
                x = y;
        }";
    let prog = program_from_string(src).0;
    check_block_count(&prog, 5);
    check_successors(&prog, 0, &[1, 2]); // first if
    check_successors(&prog, 1, &[2]);
    check_successors(&prog, 2, &[3, 4]); // second if (lives in the first if's continuation)
    check_successors(&prog, 3, &[4]);
    check_successors(&prog, 4, &[]); // falls off the end, terminal
}

#[test]
fn if_then_while_cfg() {
    // An unbraced `if` immediately followed by an unbraced `while`: the two constructs
    // chain in sequence with no edge back to the entry.
    let src = r"
        int f(int y, int z) {
            int x = 5;
            if(x == 3)
                x = z;
            while(x == 5)
                x = y;
            return x;
        }";
    let prog = program_from_string(src).0;
    check_block_count(&prog, 6);
    check_successors(&prog, 0, &[1, 2]); // if
    check_successors(&prog, 1, &[2]);
    check_successors(&prog, 2, &[3]); // if-continuation flows into the while condition
    check_successors(&prog, 3, &[4, 5]); // while condition: exit or body
    check_successors(&prog, 4, &[]); // continuation returns, terminal
    check_successors(&prog, 5, &[3]); // body back-edges to the while condition, not entry
}

#[test]
fn subscript_access_paths() {
    // A constant array subscript, read and written (`x = f[3];` and `f[4] = x;`). A subscript is
    // `*(f + N)`, so it lowers to two segments: the index is a numeric `Offset(N)` on the address
    // -- written `.[3]` -- and the memory it names is the symbolic field `deref`. The read is a
    // load of `f.[3].deref` and the write a store at `f.[4].deref`. (`int x` is @p2.)
    let src = r"
        int brackets_simple(Donkey v, Burro* b, int x, int y) {
            int f = 1;
            x = f[3];
            f[4] = x;
        }";
    let prog = program_from_string(src).0;
    check_loads(&prog, "f.[3].deref"); // x = f[3]  (read lowers to a load of f.[3].deref)
    check_assign_or_update(&prog, "f.[4].deref", ["@p2"], None); // f[4] = x  (store)
}

#[test]
fn unbraced_if_else_cfg() {
    // An `if/else` with *unbraced* single-statement arms: the else body must not be
    // dropped, and the CFG is the same diamond as `simple_else` (the braced form).
    let src = r"
        int f(int y, int z) {
            int x = 1;
            if(x == 1)
                x = y;
            else
                x = z;
        }";
    let prog = program_from_string(src).0;
    check_assign_or_update(&prog, "x", ["@p0"], Some(1)); // if-consequence
    check_assign_or_update(&prog, "x", ["@p1"], Some(3)); // unbraced else -- must not be dropped
    check_successors(&prog, 0, &[1, 3]);
    check_successors(&prog, 1, &[2]);
    check_successors(&prog, 3, &[2]);
    check_successors(&prog, 2, &[]);
}

#[test]
fn simple_elif() {
    // `else if` desugars to a nested `if` in the outer else: two condition blocks, each
    // branching to exactly its own two arms, with no stray edge straight to the join.
    let src = r"
             int simple_elif() {
                int x = 5;
                int v_if;
                int v_elif;
                int v_else;
                if(x){
                    v_if = x;
                }
                else if(!z) {
                    v_elif = x;
                } else {
                    v_else = x;
                }
                return 0;
            }
        ";
    let (program, _dump) = program_from_string(src);

    check_assign_or_update(&program, "v_if", ["x"], Some(1));
    check_assign_or_update(&program, "v_elif", ["x"], Some(4));
    check_assign_or_update(&program, "v_else", ["x"], Some(6));

    // No condition block over-approximates to the join: each branches only to its two arms.
    check_successors(&program, 0, &[1, 3]); // outer condition -> if-consequence, else-branch
    check_successors(&program, 1, &[2]); // if-consequence -> join
    check_successors(&program, 3, &[4, 6]); // inner (elif) condition -> elif-consequence, else
    check_successors(&program, 4, &[5]); // elif-consequence -> its continuation
    check_successors(&program, 5, &[2]); // continuation -> join
    check_successors(&program, 6, &[5]); // final else -> continuation
    check_successors(&program, 2, &[]); // join: returns, terminal
}

#[test]
fn return_arity() {
    // Where a function's return arity comes from: its declared return type. An `int` function is
    // arity 1, a `void` function arity 0 (whether it `return;`s or just falls off the end).
    // The fixture has several functions, so it looks them up by name.
    let src = r"
            int explicit(){return 0;}
            void none(){return;}
            void really_void(void){return;}
        ";
    let prog = program_from_string(src).0;
    check_return_arity(&prog, "explicit", 1);
    check_return_arity(&prog, "none", 0);
    check_return_arity(&prog, "really_void", 0);
}

#[test]
fn return_constant() {
    // Returning a parenthesized literal (`return (14);`). The parens are just grouping; the return
    // carries the literal as a constant (its source text "14"), not a variable or access path.
    let src = r"
            int return_constant() {
                return (14);
            }
        ";
    let prog = program_from_string(src).0;
    check_returns_const(&prog, "return_constant", "14");
}

#[test]
fn params_into_calls() {
    // Passing an argument to a call (`foo(y)`). It lowers to a direct call whose argument is the
    // access path for param 0. The result is unused, so there is no summary flow -- this is purely
    // about the call-site IR. (`foo(y + y)` flattens its argument into a temp first; we don't assert
    // the temp name, which would only pin down allocator numbering -- flattening is covered elsewhere.)
    let src = r"
        int foo(Rando x){
            return x;
        }
        int bar(int y){
            foo(y);
            foo(y + y);
            return y;
        }
        ";
    let prog = program_from_string(src).0;
    check_direct_call(&prog, "bar", "foo", ["@p0"]);
}

#[test]
fn call_not_assign() {
    // A call used as another call's argument (`foo(baz(y))`). It lowers to two direct calls, not an
    // assignment: `bar` directly calls `baz` (with param 0) and `foo` (whose argument is baz's result
    // temp). Both results are discarded, so this is only visible as call-site IR shape, not a flow.
    let src = r"
        int foo(Rando x){
            return x;
        }
        int baz(Rando m){
            return m + m;
        }
        int bar(Rando y){
            foo(baz(y));
            return y;
        }
        ";
    let prog = program_from_string(src).0;
    check_direct_call(&prog, "bar", "baz", ["@p0"]); // inner call gets the param directly
    check_has_direct_call(&prog, "bar", "foo"); // outer call resolves (its arg is baz's ret temp)
}

#[test]
fn assign_in_call_arg() {
    // An assignment sitting in an argument position (`bar(x = y)`). The assignment is lowered as a
    // real statement before the call: `assign x = y` (param 0). (`bar` calls itself so the program
    // stays a single function, which is what check_assign_or_update needs.)
    let src = r"
        int bar(int y){
            int x;
            bar(x = y);
            return y;
        }
        ";
    let prog = program_from_string(src).0;
    check_assign_or_update(&prog, "x", ["@p0"], None);
}

#[test]
fn aggregate_initializer_list_lowers_to_element_stores() {
    // An aggregate brace initializer lowers to per-element stores at successive element
    // addresses -- the same offset + `deref` shape a subscript read resolves to -- so
    // taint deposited in the initializer is observed at a later `a[0]` read.
    let src = r"
        int f() {
            int s = source();
            int a[2] = { s, 0 };
            return a[0];
        }";
    let prog = program_from_string(src).0;
    check_assign_or_update(&prog, "a.deref", ["s"], None); // a[0] <- s
    check_assign_or_update(&prog, "a.[1].deref", ["#0"], None); // a[1] <- 0
}

#[test]
fn labeled_empty_statement_parses() {
    // A label on an empty statement (`done: ;`), e.g. a `goto` target that jumps over a
    // kill, must ingest cleanly: the empty `expression_statement` (just `;`) carries no
    // expression to lower. `program_from_string` asserts a clean parse with no
    // dangling (terminator-less) block; we also confirm the pre-goto `r = s` flow survives.
    let src = r"
        int f() {
            int s = source();
            int r = s;
            goto done;
            r = 0;
        done:
            ;
            return r;
        }";
    let prog = program_from_string(src).0;
    check_assign_or_update(&prog, "r", ["s"], None); // r = s, before the goto
}

#[test]
fn error_on_ast_promotes_frontend_gap() {
    // The strict side: under CTADL_ERROR_ON_AST an unsupported expression is a hard error.
    // Strictness comes from the per-thread override (the env var is process-global and
    // would race the parallel harness). Same stand-in caveat as above.
    let src = r#"
        struct S { int m; };
        int f(int a) {
            offsetof(struct S, m);
            return a;
        }"#;
    let err = parse_c_program(src, true).expect_err("strict mode must reject the frontend gap");
    assert!(
        error_text(&err).contains("Unsupported expression type"),
        "unexpected error: {err:?}"
    );
}

#[test]
fn error_on_ast_promotes_source_problem() {
    // Same strict switch for the source-problem flavor: a stray `break` fails
    // ingestion under CTADL_ERROR_ON_AST.
    let src = r"
        int f(int a) {
            break;
            return a;
        }";
    let err = parse_c_program(src, true).expect_err("strict mode must reject the stray break");
    assert!(
        error_text(&err).contains("`break` outside"),
        "unexpected error: {err:?}"
    );
}

#[test]
fn bare_block_then_statement_recovers() {
    // Scope-semantics invariant: a bare `{ ... }` in statement position is pure scope --
    // it must neither terminate the enclosing block nor start a new one, and nothing after
    // it may be dropped. Strict mode, so any report fails the test. (The compound-bearing
    // follower is the harder case: `if_chain_then_bare_block_then_if_recovers`.)
    let src = r"
        void h(void); void k(void); void m(void);
        void f(void) {
            { h(); }
            k();
            { m(); }
        }";
    let prog = parse_c_program(src, true)
        .expect("a bare block followed by statements must not gap in strict mode")
        .program;
    check_block_count(&prog, 1);
    check_successors(&prog, 0, &[]);
    // Nothing was dropped on the floor: every call is still in the (single, reachable)
    // block, in particular the ones written after the bare block.
    check_has_direct_call(&prog, "f", "h");
    check_has_direct_call(&prog, "f", "k");
    check_has_direct_call(&prog, "f", "m");
}

#[test]
fn bare_block_then_if_reports_no_gap() {
    // Strict-mode statement that the bare-block shape is gap-free: a bare block does not
    // close the block it shares, so strict ingestion of a bare block followed by an `if`
    // must succeed, and the enclosing block must still branch into the `if`.
    let src = r"
        void f(void) {
            { h(); }
            if (c) { k(); }
        }";
    // `program_from_string` panics if ingestion errors, which under `force_error_on_ast`
    // is exactly "some frontend gap was reported".
    let prog = strict_program(src).0;
    check_successors(&prog, 0, &[1, 2]);
}

#[test]
fn bare_block_then_if_keeps_branch_edge() {
    // The wiring fix, stated as a CFG assertion: a bare `{ ... }` shares the enclosing
    // basic block, so when the walk leaves it the enclosing block must still be open and
    // must branch into the following `if` -- not carry an implicit `return` that orphans
    // everything after the braces.
    let src = r"
        void h(void); void k(int); int c;
        void f(int a) {
            { h(); }
            if (c) { k(a); }
        }";
    let prog = program_from_string(src).0;
    check_successors(&prog, 0, &[1, 2]);
    // ...and the then-arm is genuinely on the graph, not a dead island.
    check_has_direct_call(&prog, "f", "k");
}

#[test]
fn bare_block_then_while_keeps_branch_edge() {
    // Same shape with a `while` instead of an `if` -- the other block-creating statement
    // that asks for the end-of-compound link.
    let src = r"
        void h(void); void k(int); int c;
        void f(int a) {
            { h(); }
            while (c) { k(a); }
        }";
    let prog = program_from_string(src).0;
    // The entry block falls through into the loop condition (block 1) rather than
    // returning; the condition then branches to the continuation (2) and the body (3).
    check_successors(&prog, 0, &[1]);
    check_successors(&prog, 1, &[2, 3]);
    check_has_direct_call(&prog, "f", "k");
}

#[test]
fn error_on_ast_promotes_unterminated_block() {
    // Strict side of the `finalize_terminators` sweep: under CTADL_ERROR_ON_AST a block
    // the walk never terminated (its statements were dropped) is a hard ingestion error.
    // The goto-after-return shape does not reach the sweep (trailing siblings are
    // walked), so this points at the shape that does orphan a block: a duplicate
    // label, whose first pre-created block `label_blocks` drops on the floor (see
    // `duplicate_label_orphan_block_terminated` for the non-strict side).
    let src = r"
        void f(void) {
            goto l;
        l:  a();
        l:  b();
        }";
    let err =
        parse_c_program(src, true).expect_err("strict mode must reject the orphaned label block");
    assert!(
        error_text(&err).contains("without a terminator"),
        "unexpected error: {err:?}"
    );
}

#[test]
fn increment_decrement_reassign_local() {
    // `x++` and `--x` each lower to a writeback assignment to `x`; the `+/- 1` is a
    // constant, so the contract is structural: counting writes to `x` (init + two updates
    // = 3) guards that neither was dropped. (`++` and `--` lower identically.)
    let src = r"
        int f(int a) {
            int x = a;
            x++;
            --x;
            return x;
        }";
    let prog = program_from_string(src).0;
    // init + the two increments each write x (the +/- 1 temp sources are left unpinned).
    check_writes_to(&prog, "x", 3);
}

#[test]
fn field_increment_is_update() {
    // Incrementing through a field (`p->x++`) routes through the functional `update` path on the
    // formal, exactly like a field store does (see `field_assignment_is_update`) -- it is not a plain
    // assign. The new value is a flatten temp (`@p0.x + 1`), so we assert only that an `update` of
    // `@p0.x` exists, leaving the temp source unpinned.
    let src = r"
        void f(Field *p) {
            p->x++;
        }";
    let prog = program_from_string(src).0;
    // The field increment routes through an `update` of @p0.x (not a plain assign); the new value is
    // an unpinnable flatten temp, so we assert only that exactly one such update exists.
    check_writes_to(&prog, "@p0.x", 1);
}

#[test]
fn alignof_type_is_a_constant() {
    // `_Alignof`/`__alignof__` yields a compile-time alignment, so it lowers to the same thing a
    // numeric literal does: an `Exp::Str` of the node's own source text. It shares
    // `sizeof_expression`'s `flatten_expr` arm because the rule is identical (unevaluated operand,
    // constant result).
    let src = r"
        int f(void) {
            return __alignof__(long);
        }";
    let prog = program_from_string(src).0;
    check_returns_const(&prog, "f", "__alignof__(long)");
}

#[test]
fn alignof_is_not_a_frontend_gap() {
    // In strict mode any frontend gap becomes a hard error, so lowering
    // succeeding at all is the assertion that `alignof_expression` reports none. Both
    // spellings are pinned: the C11 keyword `_Alignof(T)` and the GNU
    // `__alignof__(...)`, over struct tags and pointer types alike.
    for (src, constant) in [
        (
            "int f(void) { return _Alignof(unsigned long long); }",
            "_Alignof(unsigned long long)",
        ),
        (
            "int f(void) { return __alignof__(void *); }",
            "__alignof__(void *)",
        ),
        (
            "struct pad { int x; }; int f(void) { return __alignof__(struct pad); }",
            "__alignof__(struct pad)",
        ),
    ] {
        let prog = strict_program(src).0;
        check_returns_const(&prog, "f", constant);
    }
}

#[test]
fn alignof_of_an_expression_operand_is_a_grammar_limit() {
    // The one price of lowering `alignof_expression` to a constant: the grammar accepts
    // ONLY a `type_descriptor`, so `__alignof__(<expr>)` over anything it cannot swallow
    // is a parse error (`__alignof__(p->f)` recovers as a `field_expression` based on the
    // alignof node plus a stray `)`). The recovered tree is what is wrong, so the report
    // is charged to the source; strict mode still rejects it, which is what this asserts.
    // `program_from_string` cannot be used here: it asserts a clean parse.
    let src = r"
        struct holder { char ctx[1]; };
        unsigned f(struct holder *h) { return __alignof__(h->ctx); }";
    let lowered = parse_c_program(src, false).expect("non-strict ingestion recovers");
    let has_error = lowered.has_error;
    assert!(
        has_error,
        "expected tree-sitter-c to reject an expression operand to __alignof__"
    );

    let err = parse_c_program(src, true).expect_err("strict mode must reject the recovered tree");
    let err = error_text(&err);
    assert!(err.contains("not analyzed"), "unexpected error: {err}");
    assert!(
        !err.contains("not an lvalue"),
        "a store target inside a body that did not parse must not be charged to the \
         frontend: {err}"
    );
}

#[test]
fn for_update_prefix_increment_lowers() {
    // A prefix `++i` in the for-update clause reaches the `update_expression` arm directly
    // (unwrapped); the whole node routes to `flatten_update_expression`, which handles
    // prefix and postfix alike -- `child(0)` would be the `++` token itself. Structural
    // contract: `i` is written twice (init clause + `++i`).
    let src = r"
        int f(int n) {
            int x = 0;
            for (int i = 0; i < n; ++i) {
                x = n;
            }
            return x;
        }";
    let prog = program_from_string(src).0;
    check_writes_to(&prog, "i", 2);
}

#[test]
fn for_update_postfix_increment_lowers() {
    // The postfix twin of `for_update_prefix_increment_lowers`: `child.child(0)` of `i++`
    // would be the bare identifier `i`, a read that silently drops the increment. Counting
    // writes to `i` (init + increment = 2) is what catches that; a dump-string or warning
    // check would not.
    let src = r"
        int f(int n) {
            int x = 0;
            for (int i = 0; i < n; i++) {
                x = n;
            }
            return x;
        }";
    let prog = program_from_string(src).0;
    check_writes_to(&prog, "i", 2);
}

#[test]
fn for_update_prefix_decrement_lowers() {
    // `--i` is the same shape as `++i` (the operator token differs, the AST shape does not).
    // In strict mode any frontend gap becomes a hard error, so
    // `program_from_string` succeeding at all is the assertion that the construct reports
    // none; the write count then pins the decrement itself.
    let src = r"
        int f(int n) {
            int x = 0;
            for (int i = n; i > 0; --i) {
                x = n;
            }
            return x;
        }";
    let prog = strict_program(src).0;
    check_writes_to(&prog, "i", 2);
}

#[test]
fn addr_of_local_write_through_taints_pointee() {
    // Soundness: writing through a local's address must write the *pointee*. The
    // value-copy model (`*p = src` -> `assign p = src`) is sound for reads but drops the
    // write-back; resolving `*p` to its same-block pointee lowers the store to
    // `assign x = src` -- a real def of `x` -- so a later `sink(x)` observes the taint.
    let src = r"
        int f() {
            int x = 0;
            int src = source();
            int *p = &x;
            *p = src;
            return x;
        }";
    let prog = program_from_string(src).0;
    check_assign_or_update(&prog, "x", ["src"], None); // *p = src  ==>  x = src
}

#[test]
fn addr_of_local_read_through_resolves_pointee() {
    // Reading through the alias (`int *p = &x; int y = *p;`) resolves `*p` to `x`, so `y`
    // reads the current `x` -- the read path is consistent with the write path (both route
    // the dereference to the pointee).
    let src = r"
        int f() {
            int x = source();
            int *p = &x;
            int y = *p;
            return y;
        }";
    let prog = program_from_string(src).0;
    check_assign_or_update(&prog, "y", ["x"], None); // y = *p  ==>  y = x
}

#[test]
fn addr_of_alias_does_not_cross_basic_blocks() {
    // The must-points-to is confined to the block the binding was recorded in: once
    // control flow intervenes, `*p` falls back to the value-copy model rather than
    // unsoundly resolving a possibly-stale alias across a branch. The post-if store writes
    // `p`, and the only write to `x` is its initializer.
    let src = r"
        int f(int c) {
            int x = 0;
            int src = source();
            int *p = &x;
            if (c) { int z = 1; }
            *p = src;
            return x;
        }";
    let prog = program_from_string(src).0;
    check_assign_or_update(&prog, "p", ["src"], None); // fallback: *p = src  ==>  p = src
    assert_eq!(
        count_writes_to(&prog, "x"),
        1,
        "only `int x = 0` should write x; the post-if `*p = src` must not resolve to x across a block boundary"
    );
}

#[test]
fn char_literal_ingests_as_constant() {
    // A character literal (`'a'`) is a compile-time constant, lowered like a numeric literal
    // (no taint). `program_from_string` asserts a
    // clean parse; we also confirm the adjacent real dataflow (`r = s`) still lowers.
    let src = r"
        int f(int s) {
            char c = 'a';
            int r = s;
            return r;
        }";
    let prog = program_from_string(src).0;
    check_assign_or_update(&prog, "r", ["@p0"], None); // r = s (param 0); the char const carries no taint
}

#[test]
fn unknown_record_type_falls_back_to_positional_elements() {
    // A record defined in another translation unit has no layout here. That must not error:
    // the elements take the element-numbering fallback.
    let src = r"
        int f(int v) {
            struct Elsewhere e = { v, 0 };
            return v;
        }";
    let prog = program_from_string(src).0;
    check_assign_or_update(&prog, "e.deref", ["@p0"], None);
}

#[test]
fn compound_literal_is_not_a_frontend_gap() {
    // In strict mode any frontend gap becomes a hard error, so lowering
    // succeeding at all is the assertion that `compound_literal_expression` reports none.
    let src = r"
        struct pair { int start; int end; };
        int use(struct pair p);
        int f(int a, int b) { return use((struct pair){ .start = a, .end = b }); }";
    let prog = strict_program(src).0;
    check_has_direct_call(&prog, "f", "use");
}

#[test]
fn generic_selection_arm_calls_are_in_the_call_graph() {
    // Type-polymorphic macros put the real work *inside* the arms, so collapsing
    // the selection into a temp would erase those calls from the call graph entirely. Every
    // arm is lowered, so every arm's callee is a direct call of `f`.
    let src = r"
        int pick_int(int);
        long pick_long(long);
        int f(int a) { return _Generic(a, int: pick_int(a), default: pick_long(a)); }";
    let prog = program_from_string(src).0;
    check_has_direct_call(&prog, "f", "pick_int");
    check_has_direct_call(&prog, "f", "pick_long");
}

#[test]
fn generic_selection_is_not_a_frontend_gap() {
    // The strict-mode pin: with an arm of its own, `_Generic` is not a gap at all, so
    // ingestion succeeds even under CTADL_ERROR_ON_AST.
    let src = r"
        int pick_int(int);
        long pick_long(long);
        int f(int a) { return _Generic(a, int: pick_int(a), default: pick_long(a)); }";
    let prog = strict_program(src).0;
    check_has_direct_call(&prog, "f", "pick_int");
}

#[test]
fn if_arm_return_then_statement_strict() {
    // An if-arm that returns, followed by reachable code: the arm diverges, so the
    // end-of-compound link must be skipped (linking would push a continuation edge into
    // the Return-terminated block, a report strict mode promotes). The only unit pin of
    // the skip-link half; the fresh-block half is `label_after_return_dataflow`.
    let src = r"
        void g(void);
        void f(int a) {
            if (a) { return; }
            g();
        }";
    parse_c_program(src, true).expect("if-arm return + following statement must not gap");
}

#[test]
fn parse_error_is_a_source_problem_not_a_frontend_gap() {
    // `case A ... B:` is a GNU case range, which tree-sitter-c 0.24.1 has no rule for. The
    // parse error is a fact
    // about the analyzed source, so the one report it draws is attributed to the source --
    // not to the frontend, which no change could make parse it.
    let src = r"
        int f(int c) { switch (c) { case 1 ... 3: return 1; default: return 0; } }
        struct S { int x; };
        int g(int a) { return a; }";
    let reports = reports_for(src);
    assert_eq!(
        reports.len(),
        1,
        "expected exactly one report for one parse error, got {reports:?}"
    );
    let (attribution, msg) = &reports[0];
    assert_eq!(*attribution, "source problem", "wrong attribution: {msg}");
    assert!(msg.contains("parse error"), "unexpected message: {msg}");
    assert!(
        msg.contains("ERROR: ... 3"),
        "the message must still quote the unparsable construct (downstream triage classifies \
         it from this tail): {msg}"
    );

    // The strict switch still fires -- `CTADL_ERROR_ON_AST` promotes source problems too
    // (`error_on_ast_promotes_source_problem`) -- but on the source, not on a frontend gap.
    let err = parse_c_program(src, true).expect_err("strict mode rejects the parse error");
    let err = error_text(&err);
    assert!(err.contains("parse error"), "unexpected error: {err}");
    assert!(
        !err.contains("Unknown token") && !err.contains("Unsupported expression type"),
        "nothing on this path may call unexpected_ast any more: {err}"
    );
}

#[test]
fn declarations_after_a_parse_error_are_not_reported_as_expressions() {
    // The dominant recovery shape, and it is NOT an `ERROR` node's children:
    // tree-sitter recovers from the unparsable construct by re-parenting the declarations
    // that follow into the enclosing `compound_statement`, where they look exactly like
    // block-scope declarations. Reporting each as an unsupported expression would blame the
    // frontend once per re-parented node; instead the one parse error is reported once and
    // the wreckage around it is skipped.
    let src = r"
        int f(int c) {
            switch (c) { case 1 ... 3: return 1; default: return 0; }
            struct S { int x; };
            int g(int a) { return a; }
        }";
    let reports = reports_for(src);
    for (attribution, msg) in &reports {
        assert_ne!(
            *attribution, "frontend gap",
            "parse-recovery debris must not be charged to the frontend: {msg}"
        );
        assert!(
            !msg.contains("Unsupported expression type"),
            "unexpected gap report: {msg}"
        );
    }
    // Exactly the two tiers, once each -- not once per re-parented node. The construct that
    // could not be parsed, named; and the body that therefore holds recovery output, named.
    assert_eq!(reports.len(), 2, "expected the two tiers, got {reports:?}");
    assert!(
        reports[0].1.contains("ERROR: ... 3"),
        "first report must name the unparsable construct: {reports:?}"
    );
    assert!(
        reports[1].1.contains("function `f`") && reports[1].1.contains("not analyzed"),
        "second report must name the body that is not analyzed: {reports:?}"
    );

    // Strict mode is the second, independent pin: any surviving `unexpected_ast` call on
    // this path would be a hard error naming the node kind.
    let err = parse_c_program(src, true)
        .expect_err("strict mode still rejects the parse error itself");
    let err = error_text(&err);
    assert!(
        !err.contains("function_definition") && !err.contains("struct_specifier"),
        "a re-parented declaration is still being reported as an expression: {err}"
    );
}

#[test]
fn nested_function_definition_is_still_a_frontend_gap() {
    // The scoping pin: the suppression keys on the parse-recovery region, never on the
    // node kind. A GNU nested function in a body that parsed *cleanly* is a real construct
    // this frontend does not model, and it must keep saying so -- otherwise the
    // suppression would read as "function_definition in statement position is fine".
    let src = r"
        int f(int a) { int g(int x) { return x; } return g(a); }";
    let lowered = parse_c_program(src, false).expect("ingestion recovers");
    let has_error = lowered.has_error;
    assert!(!has_error, "this input must parse cleanly");

    let err = parse_c_program(src, true)
        .expect_err("a nested function in clean source is still a gap");
    let err = error_text(&err);
    assert!(
        err.contains("Unsupported expression type: function_definition"),
        "unexpected error: {err}"
    );
}

#[test]
fn parse_error_message_is_truncated() {
    // Preprocessed source puts a macro expansion on one line, so a raw `ERROR` node can
    // run to kilobytes, and an embedded newline would split one warning across log lines.
    // The quote is whitespace-collapsed and cut at `PARSE_ERROR_QUOTE_CHARS`, with the
    // elided count reported; the asserted bound leaves headroom for the message around the
    // quote. The fixture is a macro-built register-variable ladder: one line, over 200
    // characters.
    let src = r#"
        int f(int *p) {
            int r;
            register __typeof__( __builtin_choose_expr(sizeof(*(p))<=sizeof(char),(unsigned char)0,__builtin_choose_expr(sizeof(*(p))<=sizeof(short),(unsigned short)0,__builtin_choose_expr(sizeof(*(p))<=sizeof(int),(unsigned int)0,__builtin_choose_expr(sizeof(*(p))<=sizeof(long),(unsigned long)0,(unsigned long long)0))))) v asm("ax");
            r = v;
            return r;
        }"#;
    let reports = reports_for(src);
    assert_eq!(reports.len(), 1, "expected one report, got {reports:?}");
    let (_attribution, msg) = &reports[0];
    assert!(
        msg.chars().count() <= 280,
        "parse-error message is {} chars, must stay bounded: {msg}",
        msg.chars().count()
    );
    assert!(
        !msg.contains('\n'),
        "a warning must stay on one line: {msg}"
    );
    assert!(
        msg.contains("chars elided"),
        "a cut quote must say how much was cut: {msg}"
    );
}

#[test]
fn register_asm_variable_at_file_scope_is_not_a_gap() {
    // A file-scope explicit-register variable never reaches `walk_declaration` (which only
    // walks function bodies), so it must stay silent -- a boundary pin;
    // `register_asm_variable_declares_an_ordinary_local` is where the class is actually
    // pinned.
    let src = r#"
        register unsigned long stack_ptr asm("rsp");
        int f(int a) { return a; }"#;
    parse_c_program(src, true)
        .expect("a GCC explicit-register variable must not be reported as a frontend gap");
}

#[test]
fn asm_label_on_a_declarator_carries_no_dataflow() {
    // The other shape the same syntax spells: an asm label renaming the emitted symbol. On
    // a function the asm sits *inside* the `function_declarator`; on an object it is a
    // second `declarator` child, like the register case. Neither is a value: `g` stays an
    // ordinary call and the annotation contributes no flow.
    let src = r#"
        extern int g(int x) asm("real_g");
        int f(int a) {
            extern int myvar asm("othervar");
            myvar = a;
            return g(myvar);
        }"#;
    let lowered = parse_c_program(src, false).expect("an asm label must not be reported as a frontend gap");
    let (prog, has_error, reports) = (lowered.program, lowered.has_error, lowered.reports);
    assert!(!has_error, "this input must parse cleanly");
    assert!(reports.is_empty(), "an asm label must draw no report at all");
    check_has_direct_call(&prog, "f", "g");
}

#[test]
fn a_store_target_in_a_damaged_body_is_a_source_problem() {
    // A `typeof` of a cast is a grammar limit, and the recovery re-parents the rest of the
    // statement into `assignment_expression`s that appear nowhere in the source; charging
    // the frontend with "not an lvalue" would blame it for a store position nobody wrote.
    // This pins the store side asking `recovery_region` too. What survives is attribution,
    // not silence: the body is still named once. `3[a]` is the smallest store target that
    // reaches the catch-all from source that parses (see the clean-source twin below).
    let src = r"
        void f(int a, int b) {
            switch (a) { case 1 ... 3: break; }
            3[a] = b;
        }";
    let reports = reports_for(src);
    for (attribution, msg) in &reports {
        assert_ne!(
            *attribution, "frontend gap",
            "parse-recovery debris must not be charged to the frontend: {msg}"
        );
        assert!(
            !msg.contains("not an lvalue"),
            "unexpected gap report: {msg}"
        );
    }
    assert!(
        reports
            .iter()
            .any(|(_, msg)| msg.contains("function `f`") && msg.contains("not analyzed")),
        "the damaged body must still be named once: {reports:?}"
    );
}

#[test]
fn a_non_lvalue_store_in_clean_source_is_still_a_frontend_gap() {
    // The scoping pin: the suppression keys on the parse-recovery region, never on the
    // node kind. The same store with the parse error removed -- `3[a] = b` is legal C (a
    // commuted subscript), the frontend does not model a literal in base position, and in
    // a cleanly parsed body it must keep saying so.
    let src = r"
        void f(int *a, int b) {
            3[a] = b;
        }";
    let lowered = parse_c_program(src, false).expect("ingestion recovers");
    let has_error = lowered.has_error;
    assert!(!has_error, "this input must parse cleanly");

    let err = parse_c_program(src, true)
        .expect_err("a non-location store target in clean source is still a gap");
    let err = error_text(&err);
    assert!(
        err.contains("not an lvalue: number_literal"),
        "unexpected error: {err}"
    );
}

#[test]
fn inserted_identifier_does_not_become_an_empty_path_segment() {
    // `typeof` of a dereference is a tree-sitter-c 0.24.1 grammar limit (a shape
    // macro-generated accessors produce), and recovering from it leaves
    // the cast's `*` parsed as a multiplication whose right operand the parser has to
    // invent.
    let src = r"
        struct S { unsigned long f; };
        struct S fixed;
        unsigned long g(void) {
            return (unsigned long)((typeof(*(&(fixed.f))) *)((&(fixed.f))));
        }";
    let lowered = parse_c_program(src, false).expect("non-strict ingestion must recover");
    let (prog, has_error, reports) = (lowered.program, lowered.has_error, lowered.reports);
    assert!(has_error, "this input is the parse error under test");

    let symbols = field_symbols(&prog);
    assert!(
        !symbols.iter().any(|s| s.is_empty()),
        "an inserted name must not become a path segment; symbols: {symbols:?}\n{prog:?}"
    );
    // The real global next to it still resolves, so the guard keys on the *name* being
    // empty and not on the body being damaged.
    assert!(
        symbols.contains(&"fixed"),
        "the named global in the same expression must still resolve: {symbols:?}\n{prog:?}"
    );

    let reports: Vec<(&str, String)> =
        reports.into_iter().map(|r| (r.attribution.prefix(), r.message)).collect();
    assert!(
        reports
            .iter()
            .all(|(attribution, _)| *attribution == "source problem"),
        "an inserted token is the source's parse error, not a frontend gap: {reports:?}"
    );
    assert!(
        reports
            .iter()
            .any(|(_, msg)| msg.contains("function `g`") && msg.contains("not analyzed")),
        "the damaged body must be named once: {reports:?}"
    );
}

#[test]
fn inserted_field_name_does_not_become_an_empty_path_segment() {
    // The other position the grammar requires a name in: the member of a `field_expression`.
    // Appending an empty segment here would be worse than useless -- the access would
    // silently alias the whole object -- so the object's effects stay lowered and the access
    // itself names a dead temp.
    let src = r"
        struct S { int f; };
        int h(struct S *p, int v) {
            p-> = v;
            return p->;
        }";
    let lowered = parse_c_program(src, false).expect("non-strict ingestion must recover");
    let (prog, has_error, reports) = (lowered.program, lowered.has_error, lowered.reports);
    assert!(has_error, "this input is the parse error under test");

    let symbols = field_symbols(&prog);
    assert!(
        !symbols.iter().any(|s| s.is_empty()),
        "a missing member name must not become a path segment; symbols: {symbols:?}\n{prog:?}"
    );
    let reports: Vec<(&str, String)> =
        reports.into_iter().map(|r| (r.attribution.prefix(), r.message)).collect();
    assert!(
        reports
            .iter()
            .all(|(attribution, _)| *attribution == "source problem"),
        "a missing member name is the source's parse error, not a frontend gap: {reports:?}"
    );
}

#[test]
fn two_definitions_in_one_translation_unit_are_a_source_problem() {
    // Whose fault it is: two files each defining their own `static g` are ordinary C and
    // draw nothing (next test); two definitions in one unit are the analyzed code's
    // problem, reported once -- naming the second body's identity and what a call here
    // reaches, because the answer is not "both".
    let reports = reports_for(
        r"
        static void g(int a) { h(a); }
        static int g(int a) { return a; }",
    );
    assert_eq!(reports.len(), 1, "expected exactly one report: {reports:?}");
    assert_eq!(reports[0].0, "source problem", "reports: {reports:?}");
    assert!(
        reports[0].1.contains("`g` is defined more than once") && reports[0].1.contains("`g$1`"),
        "report must name the second definition's identity: {reports:?}"
    );
}

#[test]
fn two_files_each_keep_their_own_static_helper() {
    // Two translation units, each with its own file-local `g`: two functions, each with its
    // own parameter list and its own return arity, and each file's call reaching its own.
    // A merged `g(@p0, @p1)` would hand `cb`'s argument to the other file's body.
    let (prog, _dump) = program_from_files(&[
        (
            "one.c",
            r"static void g(int a) { sink(a); }
              void ca(int x) { g(x); }",
        ),
        (
            "two.c",
            r"static int g(int a) { return a; }
              int cb(int x) { return g(x); }",
        ),
    ]);
    check_has_direct_call(&prog, "ca", "g");
    check_has_direct_call(&prog, "cb", "g$two.c");
    check_return_arity(&prog, "g", 0);
    check_return_arity(&prog, "g$two.c", 1);
    for name in ["g", "g$two.c"] {
        assert_eq!(
            function_named(&prog, name).expect(name).params.len(),
            1,
            "`{name}` takes one parameter; the merge concatenated both lists"
        );
    }
}

#[test]
fn one_definition_and_an_undefined_callee_are_left_alone() {
    // The ordinary case must not move: one definition still owns its name, a cross-file
    // call still resolves directly, and an undefined name still gets its extern stub --
    // what every taint model matches on, so losing it would silently unhook every model in
    // the import.
    let (prog, _dump) = program_from_files(&[
        ("a.c", r"int g(int a) { return a; }"),
        ("b.c", r"int c(int x) { return g(x) + undefined_sink(x); }"),
    ]);
    check_has_direct_call(&prog, "c", "g");
    assert!(
        function_named(&prog, "g$b.c").is_none(),
        "a name only one file defines is not qualified"
    );
    let stub = function_named(&prog, "undefined_sink").expect("extern stub");
    assert!(stub.blocks.is_empty(), "an extern stub has no body");
    assert_eq!(stub.params.len(), 1, "sized from the call site");
}

#[test]
fn a_call_from_a_file_defining_no_such_name_takes_the_first_definition() {
    // C would refuse to link this: `c.c` calls a `g` that exists only as two file-local
    // definitions elsewhere, so there is no right answer -- and the front end must pick
    // one or drop the flow. It picks the first definition, the one an `extern` declaration
    // and every taint model resolve to. Recorded because it is a choice, not a
    // consequence.
    let (prog, _dump) = program_from_files(&[
        ("a.c", r"static int g(int a) { return a; }"),
        ("b.c", r"static int g(int a) { return 0; }"),
        ("c.c", r"int cc(int x) { return g(x); }"),
    ]);
    check_has_direct_call(&prog, "cc", "g");
}

#[test]
fn store_through_cast_of_a_constant_writes_through() {
    // The store lands on a location the rest of the program can name, instead of on a dead
    // temp. `<t0>` is the address `$globals.<address 0x1000>` loaded out of the globals object
    // -- the same two-statement shape `((struct S *)t->q)->f = x` lowers to, which is the point:
    // a constant address is just another way of spelling the pointer.
    let src = r"
        struct S { int f; };
        void e(int x) { ((struct S *)0x1000)->f = x; }";
    let (prog, _dump) = program_from_string(src);
    check_loads(&prog, "$globals.<address 0x1000>");
    check_assign_or_update(&prog, "<t0>.f", ["@p0"], None);
}

#[test]
fn cast_in_lvalue_position_is_not_a_frontend_gap() {
    // The macro-expanded spelling, in strict mode: `((struct box *)0)->v` inside
    // `__builtin_types_compatible_p(typeof(...), ...)`. `typeof` parses as a call, which
    // is what walks the argument and reaches the cast.
    let src = r#"
        struct box { int v; };
        int f(struct box *p) {
            return __builtin_types_compatible_p(typeof(*(p)),
                                                typeof(((struct box *)0)->v));
        }"#;
    let lowered = parse_c_program(src, false).expect("ingestion recovers");
    let has_error = lowered.has_error;
    assert!(!has_error, "this input must parse cleanly");

    parse_c_program(src, true)
        .expect("a cast of a constant in location position is not a frontend gap");
}

#[test]
fn a_cast_of_an_object_in_lvalue_position_is_unchanged() {
    // The scoping pin: every shape whose cast operand is an OBJECT keeps the ordinary
    // lowering (those never go through the constant path), keeping the constant-address
    // arm strictly additional rather than a rewrite of the catch-all.
    let thru_param = r"
        struct S { int f; };
        void a(char *p, int x) { ((struct S *)p)->f = x; }";
    let (prog, _) = program_from_string(thru_param);
    check_assign_or_update(&prog, "@p0.f", ["@p1"], None);

    let thru_field = r"
        struct S { int f; };  struct T { char *q; };
        void b(struct T *t, int x) { ((struct S *)t->q)->f = x; }";
    let (prog, _) = program_from_string(thru_field);
    check_loads(&prog, "@p0.q");
    check_assign_or_update(&prog, "<t0>.f", ["@p1"], None);

    let deref_of_field = r"
        struct T { char *q; };
        void c(struct T *t, int x) { *(int *)(t->q) = x; }";
    let (prog, _) = program_from_string(deref_of_field);
    check_loads(&prog, "@p0.q");
    check_assign_or_update(&prog, "<t0>", ["@p1"], None);

    let thru_arithmetic = r"
        struct S { int f; };
        void d(char *p, int x) { ((struct S *)(p - 8))->f = x; }";
    let (prog, _) = program_from_string(thru_arithmetic);
    check_assign_or_update(&prog, "<t0>", ["@p0", "#8"], None);
    check_writes_to(&prog, "<t0>.f", 1);

    // and none of the four says anything about the frontend.
    let reports = reports_for(&format!(
        "{thru_param}\n{thru_field}\n{deref_of_field}\n{thru_arithmetic}"
    ));
    assert!(reports.is_empty(), "unexpected reports: {reports:?}");
}

#[test]
fn a_void_definition_still_returns_nothing() {
    // The arity rule cuts both ways: `void f()` is still arity 0. Reading `returns_pointer`
    // before the `void` check must not turn every `void` function into one that returns.
    let src = r"void f(int a) { int b; b = a; }";
    let (prog, _dump) = program_from_string(src);
    check_return_arity(&prog, "f", 0);
}

#[test]
fn a_pointer_returning_definition_is_not_a_frontend_gap() {
    // Strict mode: the whole fixture must import with `CTADL_ERROR_ON_AST` set -- walking
    // these bodies introduces no gap.
    let src = r"
        struct S { int f; };
        char *d1(char *s) { return s; }
        char **d2(char **s) { return s; }
        void *d3(void *s) { return s; }
        struct S *d4(struct S *s) { return s; }";
    parse_c_program(src, true).expect("a pointer-returning definition is not a frontend gap");
}

#[test]
fn a_nameless_value_parameter_holds_no_slot() {
    // `void f(int, int n)` spells its first parameter exactly like the `void` of `f(void)`: a type
    // and no declarator, which reserves nothing.
    let (prog, _dump) = program_from_string(r"void f(int, int n) { int x; x = n; }");
    check_params(&prog, &[ByVal]);
    check_assign_or_update(&prog, "x", ["@p0"], None);
}

#[test]
fn a_double_pointer_parameter_is_not_a_frontend_gap() {
    // Strict mode: the whole fixture imports with `CTADL_ERROR_ON_AST` set -- binding these
    // parameters introduces no gap.
    let src = r"
        struct env { char **argv; };
        int main(int argc, char **argv) { char **a; a = argv; return argc; }
        void each(struct env *e, char ***out, int (*cb)(int a, int b), ...) { *out = e->argv; }";
    parse_c_program(src, true).expect("a double-pointer parameter is not a frontend gap");
}

#[test]
fn a_cast_shaped_call_is_not_a_frontend_gap() {
    // Strict mode: the whole fixture imports with `CTADL_ERROR_ON_AST` set -- reading a cast
    // as a cast introduces no gap of its own.
    let src = r"
        typedef unsigned short width_t;
        int cmp_fn(int a, int b) { return a; }
        int convert(int x, int y) {
            void (*fp)(int);
            (fp)(1);
            (*fp)(2);
            return (( width_t)(x)) + (cmp_fn)(x, y);
        }";
    parse_c_program(src, true).expect("a cast written as a call is not a frontend gap");
}

#[test]
fn a_call_through_a_field_of_a_global_is_not_a_frontend_gap() {
    // Strict mode. An invented function is not a warning, so silence proves nothing; this
    // pins that reading the callee as a location introduces no gap of its own.
    let src = r"
        struct ops { void (*f)(int); };
        struct ops g;
        struct ops *gp;
        struct ops ga[4];
        void fire(int i, int x) { g.f(x); gp->f(x); ga[i].f(x); }";
    parse_c_program(src, true).expect("a call through a global's field is not a frontend gap");
}

#[test]
fn a_statement_expression_callee_is_not_a_frontend_gap() {
    // Strict mode. An invented function is not a warning, so silence proves nothing; this
    // pins that reading the callee as a value introduces no gap of its own, including for
    // the `void`-valued braces that yield no callee at all.
    let src = r"
        void (*hook)(int);
        void fire(int x) { ({ hook; })(x); ({ do { } while (0); })(x); }";
    parse_c_program(src, true).expect("a statement-expression callee is not a frontend gap");
}

/// Outside of strict mode a construct that cannot be lowered is reported, and lowering goes on.
#[test]
fn lowering_recovers_from_anything() {
    for src in [
        "",
        "int f(void) { ??? }",
        "int f( { ) } else while",
        "int (*f)(void) { return 0; }",
        "int f(void) { return ({ again: g(); if (h()) goto again; 1; }); }",
        "void f(void) { goto nowhere; switch (x) { here: case 1: break; } goto here; }",
        "int f(void) { return 1; late: return 2; }",
    ] {
        assert!(parse_c_program(src, false).is_ok(), "{src}");
    }
}

#[test]
fn functions_have_names_and_bodies_of_their_own() {
    let files = vec![
        (
            "a.c".to_string(),
            "static int f(void) { return g(1); } inline int same(int x) { return x; } \
             int f(void) { return 2; }"
                .to_string(),
        ),
        (
            "b.c".to_string(),
            "static int f(void) { return g(1) + h(1, 2); } inline int same(int x) { return x; }"
                .to_string(),
        ),
    ];
    let program = parse_c_files(&files, false).expect("the files must lower").program;
    let mut names: Vec<&str> = program.functions.iter().map(|f| f.name.as_str()).collect();
    let bodies = program.functions.iter().filter(|f| !f.blocks.is_empty()).count();
    names.sort();
    assert_eq!(names, ["f", "f$a.c", "f$b.c", "g", "h", "same"]);
    assert_eq!(bodies, 4);
}

#[test]
fn a_for_loop_jumps_to_its_update_and_its_end() {
    let src = r"
        int f(int a, int b) {
            int x = 0;
            for (x = 1; x < 9; x = x + 1) {
                if (a) continue;
                if (b) break;
                x = b;
            }
            return x;
        }";
    let prog = program_from_string(src).0;
    check_successors(&prog, 0, &[1]); // into the initializer
    check_successors(&prog, 1, &[4]); // into the condition
    check_successors(&prog, 4, &[2, 5]); // into the body, or past the loop
    check_successors(&prog, 3, &[4]); // the update goes back to the condition
    check_successors(&prog, 5, &[]);
    check_successors(&prog, 2, &[6, 7]); // the first `if`
    check_successors(&prog, 6, &[3]); // `continue` leads to the update
    check_successors(&prog, 7, &[8, 9]); // the second `if`
    check_successors(&prog, 8, &[5]); // `break` leads past the loop
    check_successors(&prog, 9, &[3]); // the end of the body leads to the update
}

#[test]
fn jumps_in_a_do_loop_lead_to_its_condition_and_its_end() {
    let src = r"
        int f(int a, int b) {
            do {
                if (a) continue;
                if (b) break;
            } while (a);
            return b;
        }";
    let prog = program_from_string(src).0;
    check_successors(&prog, 0, &[1]);
    check_successors(&prog, 2, &[1, 3]); // the condition
    check_successors(&prog, 1, &[4, 5]);
    check_successors(&prog, 4, &[2]); // `continue` leads to the condition
    check_successors(&prog, 5, &[6, 7]);
    check_successors(&prog, 6, &[3]); // `break` leads past the loop
    check_successors(&prog, 7, &[2]);
}

#[test]
fn switch_arms_fall_through_and_break_out() {
    // No default: control may get past every arm. A `continue` in an arm belongs to the loop around.
    let src = r"
        int f(int a) {
            int x = 0;
            while (a) {
                switch (x) {
                    case 1: x = 2;
                    case 2: break;
                    case 3: continue;
                    case 4: x = 3;
                }
                x = 4;
            }
            return x;
        }";
    let prog = program_from_string(src).0;
    check_successors(&prog, 1, &[2, 3]); // the loop's condition
    check_successors(&prog, 3, &[4, 5, 6, 7, 8]); // each arm, and what follows
    check_successors(&prog, 5, &[6]); // falls through
    check_successors(&prog, 6, &[4]); // `break` leads past the `switch`
    check_successors(&prog, 7, &[1]); // `continue` leads to the loop's condition
    check_successors(&prog, 8, &[4]); // the last arm leads past the `switch`
    check_successors(&prog, 4, &[1]); // the end of the body leads back to the condition
}

#[test]
fn else_branches_meet_after_the_if() {
    let src = r"
        int f(int a, int b) {
            int x = 0;
            if (a) x = 1;
            else if (b) x = 2;
            else x = 3;
            return x;
        }";
    let prog = program_from_string(src).0;
    check_successors(&prog, 0, &[1, 3]); // the consequence, and the block of the second condition
    check_successors(&prog, 1, &[2]);
    check_successors(&prog, 3, &[4, 6]);
    check_successors(&prog, 4, &[5]);
    check_successors(&prog, 6, &[5]);
    check_successors(&prog, 5, &[2]); // the inner `if` is followed by what follows the outer one
    check_successors(&prog, 2, &[]);
}

#[test]
fn a_callee_that_fails_leaves_lowering_where_it_was() {
    // Strict mode: the callee is a statement expression that cannot be lowered. The call and the
    // return go on without it, in the block that stood before it and not in the body of its loop. So
    // the body (3) is left open, as what follows the loop (2) is.
    let src = r"
        struct S { int m; };
        int f(int a) {
            int x = ({ while (a) { offsetof(struct S, m); } f; })(a);
            return x;
        }";
    let err = parse_c_program(src, true).expect_err("blocks are left open");
    assert!(
        error_text(&err).contains("2 block(s) left without a terminator by the walk ([2, 3])"),
        "unexpected error: {err:?}"
    );
}
