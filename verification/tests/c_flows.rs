//! What C source passes on, the IR passes on: a small flow analysis over lowered programs says which
//! parameters reach what a function returns or writes.

use std::collections::{BTreeMap, BTreeSet};

use ctadl_ascent::error::Error;
use ctadl_ascent::externs::{define_extern_functions, parse_c_files};
use ctadl_ascent::mir::ParameterType::{ByRef, ByVal};
use ctadl_ascent::mir::{
    AccessPath, CallStyle, Exp, FunctionData, ParameterType, Program, Statement, StatementKind,
    Terminator, VariableRef,
};
use ctadl_ascent::program::parse_c_program;

/// Where a path begins.
#[derive(Clone, PartialEq, Eq, PartialOrd, Ord, Debug)]
enum Root {
    /// What a parameter holds on entry.
    Param(usize),
    /// The storage of a local, or of a parameter that was assigned to.
    Local(usize),
    Slot(usize),
    Global,
    Function(String),
}

#[derive(Clone, PartialEq, Eq, PartialOrd, Ord, Debug)]
enum Step {
    Offset(i64),
    Field(String),
}

type Place = (Root, Vec<Step>);
type Places = BTreeSet<Place>;

/// How many steps of a path are followed.
const DEPTH: usize = 8;

fn offset(mut p: Place, n: i64) -> Place {
    match p.1.last_mut() {
        Some(Step::Offset(m)) => {
            *m += n;
            if *m == 0 {
                p.1.pop();
            }
        }
        _ if n != 0 => p.1.push(Step::Offset(n)),
        _ => {}
    }
    p
}

fn field(mut p: Place, name: &str) -> Option<Place> {
    p.1.push(Step::Field(name.to_string()));
    (p.1.len() <= DEPTH).then_some(p)
}

fn shown(steps: &[Step]) -> String {
    steps
        .iter()
        .map(|s| match s {
            Step::Offset(n) => format!(".[{n}]"),
            Step::Field(f) => format!(".{f}"),
        })
        .collect()
}

/// What each variable and each place in memory may hold.
#[derive(Clone, PartialEq, Default)]
struct Memory {
    vars: BTreeMap<String, Places>,
    cells: BTreeMap<Place, Places>,
}

fn own(v: VariableRef) -> Place {
    match v {
        VariableRef::Local(i) => (Root::Local(i), vec![]),
        VariableRef::Param(i) => (Root::Slot(i), vec![]),
        VariableRef::Global => (Root::Global, vec![]),
    }
}

fn key(v: VariableRef) -> String {
    format!("{v:?}")
}

impl Memory {
    fn var(&self, v: VariableRef) -> Places {
        match self.vars.get(&key(v)) {
            Some(set) => set.clone(),
            None => match v {
                VariableRef::Param(i) => BTreeSet::from([(Root::Param(i), vec![])]),
                _ => BTreeSet::from([own(v)]),
            },
        }
    }

    fn set(&mut self, v: VariableRef, mut places: Places) {
        places.insert(own(v));
        self.vars.insert(key(v), places);
    }

    fn add(&mut self, v: VariableRef, places: &Places) {
        let mut all = self.var(v);
        all.extend(places.iter().cloned());
        self.vars.insert(key(v), all);
    }

    fn address(&self, a: &AccessPath) -> Places {
        let mut places = self.var(a.variable_ref);
        for n in &a.offsets {
            places = places.into_iter().map(|p| offset(p, *n)).collect();
        }
        places
    }

    fn value(&self, e: &Exp) -> Places {
        match e {
            Exp::Variable(v) => self.var(*v),
            Exp::AccessPath(a) => self.address(a),
            Exp::FunctionPtr(f) => BTreeSet::from([(Root::Function(f.clone()), vec![])]),
            Exp::Str(_) => BTreeSet::new(),
        }
    }

    /// What is in a place: what was put there, and what was there before.
    fn content(&self, p: &Place) -> Places {
        let mut all = self.cells.get(p).cloned().unwrap_or_default();
        all.insert(p.clone());
        all
    }

    fn load(&self, at: &Places, name: &str) -> Places {
        at.iter().filter_map(|p| field(p.clone(), name)).flat_map(|p| self.content(&p)).collect()
    }

    fn store(&mut self, at: &Places, name: &str, value: &Places) {
        for p in at.iter().filter_map(|p| field(p.clone(), name)) {
            self.cells.entry(p).or_default().extend(value.iter().cloned());
        }
    }

    fn follow(&self, mut at: Places, steps: &[Step]) -> Places {
        for step in steps {
            at = match step {
                Step::Offset(n) => at.into_iter().map(|p| offset(p, *n)).collect(),
                Step::Field(name) => self.load(&at, name),
            };
        }
        at
    }

    fn join(&mut self, other: &Memory) {
        for (v, places) in &other.vars {
            self.vars.entry(v.clone()).or_insert_with(BTreeSet::new).extend(places.iter().cloned());
        }
        for (p, places) in &other.cells {
            self.cells.entry(p.clone()).or_default().extend(places.iter().cloned());
        }
    }

    /// Everything that can be read from `p` on, and the steps that lead there.
    fn below(&self, p: &Place) -> Vec<(Vec<Step>, Place)> {
        let mut out = vec![(vec![], p.clone())];
        let mut todo = out.clone();
        while let Some((steps, at)) = todo.pop() {
            for (cell, values) in &self.cells {
                if cell.0 == at.0 && cell.1.len() > at.1.len() && cell.1.starts_with(&at.1) {
                    let mut path = steps.clone();
                    path.extend(cell.1[at.1.len()..].iter().cloned());
                    for v in values {
                        let next = (path.clone(), v.clone());
                        if path.len() <= DEPTH && !out.contains(&next) {
                            out.push(next.clone());
                            todo.push(next);
                        }
                    }
                }
            }
        }
        out
    }
}

/// One end of a flow.
#[derive(Clone, PartialEq, Eq, PartialOrd, Ord, Debug)]
enum End {
    Param(usize),
    Global,
    Function(String),
    Return,
}

type Flow = (End, Vec<Step>, End, Vec<Step>);

/// The flows of each function.
#[derive(Default)]
struct Summary {
    flows: BTreeMap<String, BTreeSet<Flow>>,
    /// The functions that a parameter, or something below it, may be at some call.
    bound: BTreeSet<(String, usize, Vec<Step>, String)>,
    /// The functions that are put somewhere below the globals.
    shared: BTreeSet<(Vec<Step>, String)>,
}

fn end_of(p: &Place) -> Option<(End, Vec<Step>)> {
    match &p.0 {
        Root::Param(i) => Some((End::Param(*i), p.1.clone())),
        Root::Global if !p.1.is_empty() => Some((End::Global, p.1.clone())),
        Root::Function(f) => Some((End::Function(f.clone()), p.1.clone())),
        _ => None,
    }
}

impl Summary {
    fn targets(&self, caller: &str, memory: &Memory, callee: &AccessPath) -> Vec<String> {
        let mut out = vec![];
        for p in memory.address(callee) {
            match &p.0 {
                Root::Function(f) => out.push(f.clone()),
                Root::Param(i) => out.extend(
                    self.bound
                        .iter()
                        .filter(|(f, n, steps, _)| f == caller && n == i && *steps == p.1)
                        .map(|(_, _, _, target)| target.clone()),
                ),
                Root::Global => out.extend(
                    self.shared
                        .iter()
                        .filter(|(steps, _)| *steps == p.1)
                        .map(|(_, target)| target.clone()),
                ),
                _ => {}
            }
        }
        out
    }

    fn call(
        &mut self,
        caller: &str,
        memory: &mut Memory,
        style: &CallStyle,
        rets: &[VariableRef],
        args: &[Exp],
    ) {
        let callees = match style {
            CallStyle::DirectCall(names) => names.clone(),
            CallStyle::FuncPtrCall { callee, .. } => self.targets(caller, memory, callee),
        };
        let mut returned: Places = BTreeSet::new();
        let mut below: Vec<(Vec<Step>, Places)> = vec![];
        for callee in &callees {
            for (i, arg) in args.iter().enumerate() {
                for p in memory.value(arg) {
                    for (steps, v) in memory.below(&p) {
                        if let Root::Function(f) = &v.0 {
                            self.bound.insert((callee.clone(), i, steps.clone(), f.clone()));
                        }
                        if let Root::Param(n) = &v.0 {
                            let passed: Vec<_> = self
                                .bound
                                .iter()
                                .filter(|(f, m, at, _)| f == caller && m == n && at.starts_with(&v.1))
                                .map(|(_, _, at, t)| (at[v.1.len()..].to_vec(), t.clone()))
                                .collect();
                            for (rest, target) in passed {
                                let mut at = steps.clone();
                                at.extend(rest);
                                self.bound.insert((callee.clone(), i, at, target));
                            }
                        }
                    }
                }
            }
            let flows: Vec<Flow> = self.flows.get(callee).into_iter().flatten().cloned().collect();
            for (from, from_path, to, to_path) in flows {
                let start = match &from {
                    End::Param(i) => match args.get(*i) {
                        Some(arg) => memory.value(arg),
                        None => continue,
                    },
                    End::Global => BTreeSet::from([(Root::Global, vec![])]),
                    End::Function(f) => BTreeSet::from([(Root::Function(f.clone()), vec![])]),
                    End::Return => continue,
                };
                let value = memory.follow(start, &from_path);
                let target = match &to {
                    End::Return => {
                        if to_path.is_empty() {
                            returned.extend(value);
                        } else {
                            below.push((to_path, value));
                        }
                        continue;
                    }
                    End::Param(j) => match args.get(*j) {
                        Some(arg) => {
                            if let (Exp::Variable(v), true) = (arg, to_path.is_empty()) {
                                memory.add(*v, &value);
                            }
                            memory.value(arg)
                        }
                        None => continue,
                    },
                    End::Global => BTreeSet::from([(Root::Global, vec![])]),
                    End::Function(_) => continue,
                };
                if let Some((Step::Field(name), before)) = to_path.split_last() {
                    let at = memory.follow(target, before);
                    memory.store(&at, name, &value);
                }
            }
        }
        for r in rets {
            memory.set(*r, returned.clone());
            for (path, value) in &below {
                if let Some((Step::Field(name), before)) = path.split_last() {
                    let at = memory.follow(BTreeSet::from([own(*r)]), before);
                    memory.store(&at, name, value);
                }
            }
        }
    }

    fn step(&mut self, f: &FunctionData, memory: &mut Memory, s: &Statement) {
        match &s.kind {
            StatementKind::Assign { dest, args } => {
                let value = args.iter().flat_map(|a| memory.value(a)).collect();
                memory.set(*dest, value);
            }
            StatementKind::Load { dest, address, field } => {
                let value = memory.load(&memory.address(address), field);
                memory.set(*dest, value);
            }
            StatementKind::Store { address, field, value } => {
                let at = memory.address(address);
                let value = memory.value(value);
                memory.store(&at, field, &value);
            }
            StatementKind::CallAssign { style, rets, args } => {
                self.call(&f.name, memory, style, rets, args);
            }
        }
    }

    fn leave(&mut self, f: &FunctionData, memory: &Memory, values: &[Exp]) {
        let mut flows: BTreeSet<Flow> = BTreeSet::new();
        let mut add = |from: &Place, to: End, path: Vec<Step>| {
            if let Some((end, steps)) = end_of(from) {
                if (&end, &steps) != (&to, &path) {
                    flows.insert((end, steps, to, path));
                }
            }
        };
        for value in values {
            for p in memory.value(value) {
                for (steps, v) in memory.below(&p) {
                    add(&v, End::Return, steps);
                }
            }
        }
        for (i, how) in f.params.iter().enumerate() {
            let entry: Place = (Root::Param(i), vec![]);
            for (steps, v) in memory.below(&entry) {
                add(&v, End::Param(i), steps);
            }
            if *how == ByRef {
                for p in memory.var(VariableRef::Param(i)) {
                    add(&p, End::Param(i), vec![]);
                }
            }
        }
        for (steps, v) in memory.below(&(Root::Global, vec![])) {
            if let Root::Function(target) = &v.0 {
                self.shared.insert((steps.clone(), target.clone()));
            }
            add(&v, End::Global, steps);
        }
        self.flows.entry(f.name.clone()).or_default().extend(flows);
    }

    fn run(&mut self, f: &FunctionData) {
        let mut at: BTreeMap<usize, Memory> = BTreeMap::from([(0, Memory::default())]);
        let mut todo = vec![0usize];
        while let Some(b) = todo.pop() {
            let mut memory = at[&b].clone();
            for s in &f.blocks[b].statements {
                self.step(f, &mut memory, s);
            }
            match &f.blocks[b].terminator {
                Some(Terminator::Return(values)) => self.leave(f, &memory, values),
                Some(Terminator::Goto(targets)) => {
                    for t in targets {
                        let before = at.get(t).cloned();
                        let entry = at.entry(*t).or_insert_with(|| memory.clone());
                        entry.join(&memory);
                        if before.as_ref() != Some(&*entry) {
                            todo.push(*t);
                        }
                    }
                }
                None => panic!("a block without an end"),
            }
        }
    }

    fn size(&self) -> (usize, usize, usize) {
        (self.flows.values().map(|f| f.len()).sum(), self.bound.len(), self.shared.len())
    }

    fn all(&self, name: Option<&str>) -> impl Iterator<Item = &Flow> {
        let name = name.map(|n| n.to_string());
        self.flows
            .iter()
            .filter(move |(f, _)| name.as_ref().is_none_or(|n| n == *f))
            .flat_map(|(_, flows)| flows)
    }

    fn has(&self, name: Option<&str>, from: End, from_path: &str, to: End, to_path: &str) -> bool {
        self.all(name).any(|(a, p, b, q)| {
            *a == from && shown(p) == from_path && *b == to && shown(q) == to_path
        })
    }

    fn text(&self) -> String {
        self.flows
            .iter()
            .flat_map(|(f, flows)| {
                flows.iter().map(move |(a, p, b, q)| {
                    format!("{f}: {a:?}{} -> {b:?}{}\n", shown(p), shown(q))
                })
            })
            .collect()
    }
}

/// Whether every block of a function has an end, and all its returns have one arity.
fn verifies(f: &FunctionData) -> bool {
    let mut arities = BTreeSet::new();
    f.blocks.iter().all(|b| match &b.terminator {
        Some(Terminator::Return(values)) => {
            arities.insert(values.len());
            arities.len() == 1
        }
        Some(Terminator::Goto(_)) => true,
        None => false,
    })
}

/// The flows of every function of a program, with those of the functions they call; `None` if one of
/// the functions does not verify.
fn get_summary(prog: Program) -> Option<(Summary, ())> {
    if !prog.functions.iter().all(verifies) {
        return None;
    }
    let mut s = Summary::default();
    loop {
        let before = s.size();
        for f in prog.functions.iter().filter(|f| !f.blocks.is_empty()) {
            s.run(f);
        }
        if s.size() == before {
            return Some((s, ()));
        }
    }
}

/// The place of the globals among the parameters of a flow.
const GLOBALS_INDEX: usize = usize::MAX;

fn end(i: usize) -> End {
    if i == GLOBALS_INDEX {
        End::Global
    } else {
        End::Param(i)
    }
}

fn check_returns_param(s: &Summary, i: usize, path: &str) {
    assert!(s.has(None, End::Param(i), path, End::Return, ""), "{}", s.text());
}

fn check_returns_param_in(s: &Summary, _i: &(), f: &str, i: usize, path: &str) {
    assert!(s.has(Some(f), End::Param(i), path, End::Return, ""), "{}", s.text());
}

fn check_does_not_return_param(s: &Summary, i: usize, path: &str) {
    assert!(!s.has(None, End::Param(i), path, End::Return, ""), "{}", s.text());
}

fn check_does_not_return_param_in(s: &Summary, _i: &(), f: &str, i: usize, path: &str) {
    assert!(!s.has(Some(f), End::Param(i), path, End::Return, ""), "{}", s.text());
}

fn check_returns_global_in(s: &Summary, _i: &(), f: &str, path: &str) {
    assert!(s.has(Some(f), End::Global, path, End::Return, ""), "{}", s.text());
}

fn check_param_into_global_in(s: &Summary, _i: &(), f: &str, i: usize, path: &str) {
    assert!(s.has(Some(f), End::Param(i), "", End::Global, path), "{}", s.text());
}

fn check_flow(s: &Summary, from: usize, from_path: &str, to: usize, to_path: &str) {
    assert!(s.has(None, end(from), from_path, end(to), to_path), "{}", s.text());
}

fn check_flow_in(
    s: &Summary,
    _i: &(),
    f: &str,
    from: usize,
    from_path: &str,
    to: usize,
    to_path: &str,
) {
    assert!(s.has(Some(f), end(from), from_path, end(to), to_path), "{}", s.text());
}

fn check_no_flow(s: &Summary, from: usize, from_path: &str, to: usize, to_path: &str) {
    assert!(!s.has(None, end(from), from_path, end(to), to_path), "{}", s.text());
}

fn check_no_flow_in(
    s: &Summary,
    _i: &(),
    f: &str,
    from: usize,
    from_path: &str,
    to: usize,
    to_path: &str,
) {
    assert!(!s.has(Some(f), end(from), from_path, end(to), to_path), "{}", s.text());
}

fn check_summary_count(s: &Summary, n: usize) {
    assert_eq!(s.all(None).count(), n, "{}", s.text());
}

fn program_of(src: &str, strict: bool) -> (Program, String) {
    let lowered = parse_c_program(src, strict).expect("the source must lower");
    assert!(!lowered.has_error, "the source must parse cleanly");
    let mut program = lowered.program;
    define_extern_functions(&mut program);
    let dump = rendered(&program);
    (program, dump)
}

fn program_from_string(src: &str) -> (Program, String) {
    program_of(src, false)
}

fn strict_program(src: &str) -> (Program, String) {
    program_of(src, true)
}

fn program_from_files(files: &[(&str, &str)]) -> (Program, String) {
    let files: Vec<(String, String)> =
        files.iter().map(|(p, s)| (p.to_string(), s.to_string())).collect();
    let program = parse_c_files(&files, false).expect("the files must lower").program;
    let dump = rendered(&program);
    (program, dump)
}

fn reports_for(src: &str) -> Vec<(&'static str, String)> {
    let lowered = parse_c_program(src, false).expect("lowering recovers");
    lowered.reports.into_iter().map(|r| (r.attribution.prefix(), r.message)).collect()
}

fn error_text(e: &Error) -> String {
    match e {
        Error::TreeSitterParse(message) => message.clone(),
        other => format!("{other:?}"),
    }
}

fn defined(prog: &Program) -> Vec<&FunctionData> {
    prog.functions.iter().filter(|f| !f.blocks.is_empty()).collect()
}

fn get_only_function(prog: &Program) -> Option<&FunctionData> {
    match defined(prog).as_slice() {
        [f] => Some(f),
        _ => None,
    }
}

fn only(prog: &Program) -> &FunctionData {
    get_only_function(prog).expect("expected exactly one function")
}

fn function_named<'a>(prog: &'a Program, name: &str) -> Option<&'a FunctionData> {
    prog.functions.iter().find(|f| f.name == name)
}

fn statements(f: &FunctionData) -> impl Iterator<Item = &Statement> {
    f.blocks.iter().flat_map(|b| b.statements.iter())
}

fn statements_of(prog: &Program) -> impl Iterator<Item = &Statement> {
    prog.functions.iter().flat_map(statements)
}

fn variable(f: &FunctionData, v: VariableRef) -> String {
    match v {
        VariableRef::Local(i) => f.locals[i].clone(),
        VariableRef::Param(i) => format!("@p{i}"),
        VariableRef::Global => "$globals".to_string(),
    }
}

fn address(f: &FunctionData, a: &AccessPath) -> String {
    let mut s = variable(f, a.variable_ref);
    for o in &a.offsets {
        s.push_str(&format!(".[{o}]"));
    }
    s
}

fn operand(f: &FunctionData, e: &Exp) -> String {
    match e {
        Exp::Variable(v) => variable(f, *v),
        Exp::AccessPath(a) => address(f, a),
        Exp::Str(s) => format!("#{s}"),
        Exp::FunctionPtr(s) => format!("&{s}"),
    }
}

/// What a statement writes, and from what; `None` for a load or a call.
fn write_of(f: &FunctionData, s: &Statement) -> Option<(String, Vec<String>)> {
    match &s.kind {
        StatementKind::Assign { dest, args } => {
            Some((variable(f, *dest), args.iter().map(|a| operand(f, a)).collect()))
        }
        StatementKind::Store { address: a, field, value } => {
            Some((format!("{}.{field}", address(f, a)), vec![operand(f, value)]))
        }
        _ => None,
    }
}

fn check_assign_or_update<const N: usize>(
    prog: &Program,
    dest: &str,
    args: [&str; N],
    block: Option<usize>,
) {
    let found = defined(prog).into_iter().any(|f| {
        f.blocks.iter().enumerate().any(|(i, b)| {
            block.map_or(true, |want| want == i)
                && b.statements.iter().any(|s| {
                    write_of(f, s).is_some_and(|(d, a)| d == dest && a == args)
                })
        })
    });
    assert!(found, "no write of {dest} from {args:?} in block {block:?}\n{prog:?}");
}

fn count_writes_to(prog: &Program, dest: &str) -> usize {
    let f = only(prog);
    statements(f).filter(|s| write_of(f, s).is_some_and(|(d, _)| d == dest)).count()
}

fn check_writes_to(prog: &Program, dest: &str, n: usize) {
    assert_eq!(count_writes_to(prog, dest), n, "writes to {dest}\n{prog:?}");
}

fn check_loads(prog: &Program, path: &str) {
    let f = only(prog);
    let found = statements(f).any(|s| match &s.kind {
        StatementKind::Load { address: a, field, .. } => {
            format!("{}.{field}", address(f, a)) == path
        }
        _ => false,
    });
    assert!(found, "no load of {path}\n{prog:?}");
}

fn check_block_count(prog: &Program, n: usize) {
    assert_eq!(only(prog).blocks.len(), n, "blocks\n{prog:?}");
}

fn check_successors(prog: &Program, block: usize, succs: &[usize]) {
    let mut found: Vec<usize> = match &only(prog).blocks[block].terminator {
        Some(Terminator::Goto(targets)) => targets.clone(),
        Some(Terminator::Return(_)) => vec![],
        None => panic!("block {block} has no terminator"),
    };
    found.sort();
    assert_eq!(found, succs, "successors of {block}\n{prog:?}");
}

fn check_params(prog: &Program, params: &[ParameterType]) {
    assert_eq!(only(prog).params, params);
}

fn check_return_arity(prog: &Program, name: &str, n: usize) {
    assert_eq!(function_named(prog, name).expect(name).return_arity, n);
}

fn check_returns_const(prog: &Program, name: &str, text: &str) {
    let f = function_named(prog, name).expect(name);
    let found = f.blocks.iter().any(|b| match &b.terminator {
        Some(Terminator::Return(args)) => {
            args.iter().any(|a| operand(f, a) == format!("#{text}"))
        }
        _ => false,
    });
    assert!(found, "{name} does not return {text}\n{prog:?}");
}

fn direct_calls_in(prog: &Program, caller: &str) -> Vec<(Vec<String>, Vec<String>)> {
    let f = function_named(prog, caller).expect(caller);
    statements(f)
        .filter_map(|s| match &s.kind {
            StatementKind::CallAssign { style: CallStyle::DirectCall(names), args, .. } => {
                Some((names.clone(), args.iter().map(|a| operand(f, a)).collect()))
            }
            _ => None,
        })
        .collect()
}

fn call_args<'a>(prog: &'a Program, caller: &str, callee: &str) -> &'a Vec<Exp> {
    statements(function_named(prog, caller).expect(caller))
        .find_map(|s| match &s.kind {
            StatementKind::CallAssign { style: CallStyle::DirectCall(names), args, .. }
                if names.iter().any(|n| n == callee) =>
            {
                Some(args)
            }
            _ => None,
        })
        .expect("the call must be there")
}

fn check_has_direct_call(prog: &Program, caller: &str, callee: &str) {
    let found = direct_calls_in(prog, caller).iter().any(|(c, _)| c.iter().any(|n| n == callee));
    assert!(found, "{caller} does not call {callee}\n{prog:?}");
}

fn check_direct_call<const N: usize>(prog: &Program, caller: &str, callee: &str, args: [&str; N]) {
    let found = direct_calls_in(prog, caller)
        .iter()
        .any(|(c, a)| c.iter().any(|n| n == callee) && a.as_slice() == args);
    assert!(found, "{caller} does not call {callee} with {args:?}\n{prog:?}");
}

fn field_symbols(prog: &Program) -> Vec<&str> {
    statements_of(prog)
        .filter_map(|s| match &s.kind {
            StatementKind::Load { field, .. } | StatementKind::Store { field, .. } => {
                Some(field.as_str())
            }
            _ => None,
        })
        .collect()
}

/// A program as text, one line per statement.
fn rendered(prog: &Program) -> String {
    let mut out = String::new();
    for f in &prog.functions {
        let params: Vec<String> = f
            .params
            .iter()
            .enumerate()
            .map(|(i, p)| format!("@p{i}[{}]", if *p == ByRef { "byref" } else { "byval" }))
            .collect();
        out += &format!("define {}({}) -> {}\n", f.name, params.join(", "), f.return_arity);
        let list = |args: &Vec<Exp>| {
            args.iter()
                .map(|a| match a {
                    Exp::FunctionPtr(name) => format!("ptr<{name}>"),
                    other => operand(f, other),
                })
                .collect::<Vec<String>>()
                .join(", ")
        };
        for b in &f.blocks {
            for s in &b.statements {
                out += &match &s.kind {
                    StatementKind::Assign { dest, args } => {
                        format!("assign {} = {}\n", variable(f, *dest), list(args))
                    }
                    StatementKind::Load { dest, address: a, field } => {
                        format!("load {}.{field} to {}\n", address(f, a), variable(f, *dest))
                    }
                    StatementKind::Store { address: a, field, value } => {
                        format!("store {}.{field} := {}\n", address(f, a), operand(f, value))
                    }
                    StatementKind::CallAssign { style, args, .. } => match style {
                        CallStyle::DirectCall(names) => {
                            format!("direct-call {}({})\n", names.join(" "), list(args))
                        }
                        CallStyle::FuncPtrCall { callee, .. } => format!(
                            "funcptr-call {} <indirect-call>({})\n",
                            address(f, callee),
                            list(args)
                        ),
                    },
                };
            }
            if let Some(Terminator::Return(values)) = &b.terminator {
                out += &format!("return {}\n", list(values));
            }
        }
    }
    out
}

fn check_match(dump: &str, text: &str) -> bool {
    dump.contains(text)
}

fn check_no_match(dump: &str, text: &str) -> bool {
    !dump.contains(text)
}

/// What a local is called in a rendered program.
fn local_render(prog: &Program, f: &str, name: &str) -> String {
    let f = function_named(prog, f).expect(f);
    assert!(f.locals.iter().any(|l| l == name), "no local {name}\n{prog:?}");
    name.to_string()
}

#[test]
fn simple_global_assign() {
    let src = r"
            int simple_global_assign() {
                int b;
                a = b;
                return a;
            }
        ";
    let (prog, _dump) = program_from_string(src);
    check_assign_or_update(&prog, "$globals.a", ["b"], None);
}

#[test]
fn basic_param_flow() {
    let src = r"
            int basic_param_flow(int x) {
                return x;
            }
        ";
    let prog = program_from_string(src).0;
    check_params(&prog, &[ByVal]);

    let summary = get_summary(prog).unwrap().0;
    check_summary_count(&summary, 1);
    check_returns_param(&summary, 0, "");
}

#[test]
fn param_flows_through_local() {
    let src = r"
            int param_flows_through_local(int x) {
                int b = x;
                return b;
            }
        ";
    let prog = program_from_string(src).0;
    check_params(&prog, &[ByVal]);
    check_assign_or_update(&prog, "b", ["@p0"], None);

    let summary = get_summary(prog).unwrap().0;
    check_summary_count(&summary, 1);
    check_returns_param(&summary, 0, "");
}

#[test]
fn return_from_pointer() {
    let src = r"
            int return_from_pointer(int *y) {
                return *y;
            }
        ";
    let prog = program_from_string(src).0;
    check_params(&prog, &[ByRef]);

    let summary = get_summary(prog).unwrap().0;
    check_summary_count(&summary, 1);
    check_returns_param(&summary, 0, "");
}

#[test]
fn return_from_pointer_through_local() {
    let src = r"
            int return_from_pointer_through_local(int *y) {
                int b = *y;
                return b;
            }
        ";
    let prog = program_from_string(src).0;
    check_params(&prog, &[ByRef]);
    check_assign_or_update(&prog, "b", ["@p0"], None);

    let summary = get_summary(prog).unwrap().0;
    check_summary_count(&summary, 1);
    check_returns_param(&summary, 0, "");
}

#[test]
fn block_shadow_does_not_leak() {
    let src = r"
        int bar(int false_return, int ac_return) {
            int x = ac_return;
            if(x == 5) {
                int x = false_return;
            }
            return x;
        }";
    let (s, _si) = get_summary(program_from_string(src).0).unwrap();
    check_returns_param(&s, 1, "");
    check_does_not_return_param(&s, 0, "");
}

#[test]
fn call_arg_flows_through_return() {
    let src = r"
        int tgt(Rando x) {
            return x.f1;
        }
        int top(Rando y) {
            int v = tgt(y);
            return v;
        }";
    let (summary, _si) = get_summary(program_from_string(src).0).unwrap();
    check_returns_param(&summary, 0, ".f1");
}

#[test]
fn unbraced_if_branch_flows_to_return() {
    let src = r"
        int f(int y, int z) {
            int x = 5;
            if(x == 3)
                x = z;
            return x;
        }";
    let (summary, _si) = get_summary(program_from_string(src).0).unwrap();
    check_returns_param(&summary, 1, "");
}

#[test]
fn unbraced_if_returns_param_field() {
    let src = r"
        int f(Foobar *fb) {
            if(fb->ct == 3)
                return fb->unbraced;
            return x;
        }";
    let (summary, _si) = get_summary(program_from_string(src).0).unwrap();
    check_returns_param(&summary, 0, ".unbraced");
}

#[test]
fn field_write_flows() {
    let src = r"
        int field_access(Donkey v, Burro* b, int x, int y) {
            v.f2 = x;
            v.f2.nf1.y = b->f2.f3->f4;
            v.f5 = b->fa + b->fb;
            v.f3 = x + y + z;
            v.f1 = b.xyz;
            return v.f1;
        }";
    let (s, _si) = get_summary(program_from_string(src).0).unwrap();
    check_flow(&s, 2, "", 0, ".f2");
    check_flow(&s, 1, ".f2.f3.f4", 0, ".f2.nf1.y");
    check_flow(&s, 1, ".fa", 0, ".f5");
    check_flow(&s, 1, ".fb", 0, ".f5");
    check_flow(&s, 2, "", 0, ".f3");
    check_flow(&s, 3, "", 0, ".f3");
    check_flow(&s, 1, ".xyz", 0, ".f1");
    check_returns_param(&s, 0, ".f1");
    check_returns_param(&s, 1, ".xyz");
}

#[test]
fn if_both_branches_can_return_params() {
    let src = r"
        int f(int x, int y) {
            if(x) {
                return x;
            }
            return y;
        }";
    let (s, _si) = get_summary(program_from_string(src).0).unwrap();
    check_returns_param(&s, 0, "");
    check_returns_param(&s, 1, "");
}

#[test]
fn do_while_body_flows() {
    let src = r"
        int f(int p) {
            int x = 0;
            do {
                x = p;
            } while(x);
            return x;
        }";
    let (s, _si) = get_summary(program_from_string(src).0).unwrap();
    check_returns_param(&s, 0, "");
}

#[test]
fn address_of_element_composes_with_callee_index() {
    let flows = r"
        void transfer(int *a, int b) { a[1] = b; }
        int f(int s) {
            int x[3];
            transfer(&x[1], s);
            return x[2];
        }";
    let (summary, si) = get_summary(program_from_string(flows).0).unwrap();
    check_returns_param_in(&summary, &si, "f", 0, "");

    let precise = r"
        void transfer(int *a, int b) { a[1] = b; }
        int f(int s) {
            int x[3];
            transfer(&x[1], s);
            return x[1];
        }";
    let (summary, si) = get_summary(program_from_string(precise).0).unwrap();
    check_does_not_return_param_in(&summary, &si, "f", 0, "");
}

#[test]
fn store_through_element_address_alias_flows() {
    let src = r"
        int f(int s) {
            int x[3];
            int *p = &x[1];
            *p = s;
            return x[1];
        }";
    let (summary, _si) = get_summary(program_from_string(src).0).unwrap();
    check_returns_param(&summary, 0, "");
}

#[test]
fn array_declaration_element_flows_to_return() {
    // An explicit array *declaration* `int arr[3];`. Taint written to an element flows back
    // out when the same element is read: `b` (@p1) -> arr.[1] -> return.
    let src = r"
        int f(int a, int b) {
            int arr[3];
            arr[1] = b;
            return arr[1];
        }";
    let (summary, _si) = get_summary(program_from_string(src).0).unwrap();
    check_returns_param(&summary, 1, "");
}

#[test]
fn array_of_struct_field_is_index_and_field_sensitive() {
    let same = r"
        struct pt { int x; int y; };
        int f(int b) {
            struct pt a[3];
            a[1].y = b;
            return a[1].y;
        }";
    let (s, _si) = get_summary(program_from_string(same).0).unwrap();
    check_returns_param(&s, 0, "");

    let other_field = r"
        struct pt { int x; int y; };
        int f(int b) {
            struct pt a[3];
            a[1].y = b;
            return a[1].x;
        }";
    let (s, _si) = get_summary(program_from_string(other_field).0).unwrap();
    check_does_not_return_param(&s, 0, "");

    let other_index = r"
        struct pt { int x; int y; };
        int f(int b) {
            struct pt a[3];
            a[1].y = b;
            return a[0].y;
        }";
    let (s, _si) = get_summary(program_from_string(other_index).0).unwrap();
    check_does_not_return_param(&s, 0, "");
}

#[test]
fn field_blend_into_field_update() {
    let src = r"
        void f(Donkey *v) {
            int a = b = v->f1 + v->f3;
            int x = v->f4 = v->f5 + b;
        }";
    let (s, _si) = get_summary(program_from_string(src).0).unwrap();
    check_flow(&s, 0, ".f5", 0, ".f4");
    check_flow(&s, 0, ".f1", 0, ".f4");
    check_flow(&s, 0, ".f3", 0, ".f4");
}

#[test]
fn nested_blend_operands_flow() {
    let src = r"
        int f(int a, int b, int c, int d, int e) {
            int x = a + b + c + (d + e);
            return x;
        }";
    let (s, _si) = get_summary(program_from_string(src).0).unwrap();
    for p in 0..5 {
        check_returns_param(&s, p, "");
    }
}

#[test]
fn returned_blend_operands_flow() {
    let src = r"
        int g(int a, int x) {
            return a + x;
        }";
    let (s, _si) = get_summary(program_from_string(src).0).unwrap();
    check_returns_param(&s, 0, "");
    check_returns_param(&s, 1, "");
}

#[test]
fn implicit_return() {
    let src = r"
            int foo() {
            //no explicit_return
            }
        ";
    get_summary(program_from_string(src).0).expect("Verify probably bonked");
}

#[test]
fn simple_else() {
    let src = r"
             int simple_else() {
                int x = 55;
                int v_if;
                if(x){
                    v_if = x;
                } else {
                    int v_else = x;
                }
                return 0;
            }
        ";
    let (program, _dump) = program_from_string(src);

    check_assign_or_update(&program, "v_if", ["x"], Some(1));
    check_assign_or_update(&program, "v_else", ["x"], Some(3));

    check_successors(&program, 0, &[1, 3]);
    check_successors(&program, 1, &[2]);
    check_successors(&program, 3, &[2]);
    check_successors(&program, 2, &[]);
}

#[test]
fn unbraced_if_else_branches_flow() {
    let src = r"
        int f(int y, int z) {
            int x = 1;
            if(x == 1)
                x = y;
            else
                x = z;
            return x;
        }";
    let (s, _si) = get_summary(program_from_string(src).0).unwrap();
    check_returns_param(&s, 0, "");
    check_returns_param(&s, 1, "");
}

#[test]
fn switch_case_flows_to_return() {
    let src = r"
        int f(int a, int b) {
            int x = 0;
            switch (a) {
                case 1:
                    x = b;
                    break;
                default:
                    x = 0;
                    break;
            }
            return x;
        }";
    let (summary, _si) = get_summary(program_from_string(src).0).unwrap();
    check_returns_param(&summary, 1, "");
}

#[test]
fn switch_default_flows_to_return() {
    let src = r"
        int f(int a, int b) {
            int x = 0;
            switch (a) {
                case 1:
                    x = 0;
                    break;
                default:
                    x = b;
                    break;
            }
            return x;
        }";
    let (summary, _si) = get_summary(program_from_string(src).0).unwrap();
    check_returns_param(&summary, 1, "");
}

#[test]
fn switch_fallthrough_flows_to_return() {
    let src = r"
        int f(int a, int b) {
            int x = 0;
            int y = 0;
            switch (a) {
                case 1:
                    x = b;
                case 2:
                    y = x;
                    break;
                default:
                    break;
            }
            return y;
        }";
    let (summary, _si) = get_summary(program_from_string(src).0).unwrap();
    check_returns_param(&summary, 1, "");
}

#[test]
fn break_exits_loop_flows_to_return() {
    let src = r"
        int f(int a, int b) {
            int x = 0;
            while (a) {
                x = b;
                break;
            }
            return x;
        }";
    let (summary, _si) = get_summary(program_from_string(src).0).unwrap();
    check_returns_param(&summary, 1, "");
}

#[test]
fn continue_in_loop_flows_to_return() {
    let src = r"
        int f(int a, int b) {
            int x = 0;
            while (a) {
                x = b;
                continue;
            }
            return x;
        }";
    let (summary, _si) = get_summary(program_from_string(src).0).unwrap();
    check_returns_param(&summary, 1, "");
}

#[test]
fn goto_backward_loop_flows_to_return() {
    let src = r"
        int f(int a, int b) {
            int x = 0;
        loop:
            x = b;
            if (a) goto loop;
            return x;
        }";
    let (summary, _si) = get_summary(program_from_string(src).0).unwrap();
    check_returns_param(&summary, 1, "");
}

#[test]
fn goto_forward_jump_flows_to_return() {
    let src = r"
        int f(int a, int b) {
            int x = b;
            goto done;
            x = 0;
        done:
            return x;
        }";
    let (summary, _si) = get_summary(program_from_string(src).0).unwrap();
    check_returns_param(&summary, 1, "");
}

#[test]
fn taint_flows_through_direct_call() {
    let src = r"
        int id(int p) { return p; }
        int wrap(int a, int b) {
            return id(b);
        }";
    let (summary, _si) = get_summary(program_from_string(src).0).unwrap();
    check_returns_param(&summary, 1, "");
}

#[test]
fn taint_flows_through_indirect_call() {
    let src = r"
        int id(int p) { return p; }
        int wrap(int a, int b) {
            int (*fp)(int) = id;
            return fp(b);
        }";
    let (summary, _si) = get_summary(program_from_string(src).0).unwrap();
    check_returns_param(&summary, 1, "");
}

#[test]
fn taint_flows_through_indirect_call_separate_assign() {
    let src = r"
        int id(int p) { return p; }
        int wrap(int a, int b) {
            int (*fp)(int);
            fp = id;
            return fp(b);
        }";
    let (summary, _si) = get_summary(program_from_string(src).0).unwrap();
    check_returns_param(&summary, 1, "");
}

#[test]
fn taint_flows_through_indirect_call_forward_decl() {
    let src = r"
        int wrap(int a, int b) {
            int (*fp)(int) = later;
            return fp(b);
        }
        int later(int p) { return p; }";
    let (summary, _si) = get_summary(program_from_string(src).0).unwrap();
    check_returns_param(&summary, 1, "");
}

#[test]
fn taint_flows_through_funcptr_param() {
    let src = r"
        int id(int p) { return p; }
        int apply(int (*f)(int), int x) { return f(x); }
        int wrap(int a, int b) {
            return apply(id, b);
        }";
    let (summary, _si) = get_summary(program_from_string(src).0).unwrap();
    check_returns_param(&summary, 1, "");
}

#[test]
fn taint_flows_through_funcptr_in_struct() {
    let src = r"
        int id(int p) { return p; }
        struct S { int (*op)(int); };
        int wrap(int a, int b) {
            struct S o;
            o.op = id;
            return o.op(b);
        }";
    let (summary, _si) = get_summary(program_from_string(src).0).unwrap();
    check_returns_param(&summary, 1, "");
}

#[test]
fn nested_aggregate_initializer_lowers_recursively() {
    let src = r"
        int f() {
            int s = source();
            int m[2][2] = { { s, 0 }, { 0, 0 } };
            return m[0][0];
        }";
    let prog = program_from_string(src).0;
    let dump = rendered(&prog);
    check_loads(&prog, "m.deref");
    let s = local_render(&prog, "f", "s");
    assert!(
        dump.contains(&format!(".deref := {s}")),
        "nested tainted element should store `{s}` (= `s`) into a `.deref` field:\n{dump}"
    );
}

#[test]
fn unsupported_expression_warns_and_recovers() {
    let src = r#"
        struct S { int m; };
        int f(int a) {
            offsetof(struct S, m);
            return a;
        }"#;
    let (summary, _si) = get_summary(program_from_string(src).0).unwrap();
    check_returns_param(&summary, 0, "");
}

#[test]
fn stray_break_continue_goto_warn_and_recover() {
    let src = r"
        int f(int a) {
            break;
            continue;
            goto nowhere;
            return a;
        }";
    let (summary, _si) = get_summary(program_from_string(src).0).unwrap();
    check_returns_param(&summary, 0, "");
}

#[test]
fn if_chain_then_bare_block_then_if_recovers() {
    let src = r"
        void teardown(int exitcode) {
            int add_delay = 0;
            if (early) { log(1); }
            else if (authed) { log(2); }
            else { log(3); add_delay = 1; }
            { cleanup(); }
            if (key) { release(key); }
        }";
    let prog = parse_c_program(src, true)
        .expect("the chain + bare block + if shape must not gap in strict mode")
        .program;
    assert!(
        function_named(&prog, "teardown").is_some(),
        "program should still define teardown\n{prog:?}"
    );
    check_has_direct_call(&prog, "teardown", "cleanup");
    check_has_direct_call(&prog, "teardown", "release");
    get_summary(prog).expect("CFG must verify and index");
}

#[test]
fn bare_block_then_if_preserves_flow() {
    let src = r"
        int f(int a) {
            int r = 0;
            { r = 0; }
            if (a) { r = a; }
            return r;
        }";
    let prog = program_from_string(src).0;
    let (s, _si) = get_summary(prog).unwrap();
    check_returns_param(&s, 0, "");
}

#[test]
fn bare_block_shadow_does_not_leak() {
    let src = r"
        int f(int a, int b) {
            int r = b;
            { int r = a; }
            return r;
        }";
    let prog = program_from_string(src).0;
    let (s, _si) = get_summary(prog).unwrap();
    check_returns_param(&s, 1, "");
    check_does_not_return_param(&s, 0, "");
}

#[test]
fn bare_block_with_return_diverges() {
    let src = r"
        void h(void);
        void f(void) {
            { return; }
            h();
        }";
    let prog = parse_c_program(src, true)
        .expect("a diverging bare block must not gap in strict mode")
        .program;
    check_successors(&prog, 0, &[]);
    check_block_count(&prog, 2);
    check_successors(&prog, 1, &[]);
    check_has_direct_call(&prog, "f", "h");
    get_summary(prog).expect("CFG must verify and index");
}

#[test]
fn goto_label_after_return_lowers() {
    let src = r"
        void f(void) {
            if (c) goto out;
            return;
        out:
            cleanup();
        }";
    let prog = program_from_string(src).0;
    assert!(
        function_named(&prog, "f").is_some(),
        "program should define f\n{prog:?}"
    );
    check_has_direct_call(&prog, "f", "cleanup");
    get_summary(prog).expect("CFG must verify and index");
}

#[test]
fn label_after_return_dataflow() {
    let src = r"
        int g;
        void f(int a) {
            if (c) goto out;
            return;
        out:
            g = a;
        }";
    let prog = parse_c_program(src, true)
        .expect("goto-cleanup must not gap in strict mode")
        .program;
    let (s, si) = get_summary(prog).unwrap();
    check_param_into_global_in(&s, &si, "f", 0, ".g");
}

#[test]
fn statements_after_return_still_import() {
    let src = r"
        int g;
        void f(int a) {
            g = a;
            return;
            cleanup();
        }";
    let prog = parse_c_program(src, true)
        .expect("unreachable trailing code must not gap")
        .program;
    let (s, si) = get_summary(prog).unwrap();
    check_param_into_global_in(&s, &si, "f", 0, ".g");
}

#[test]
fn duplicate_label_orphan_block_terminated() {
    let src = r"
        int f(void) {
            goto l;
        l:  a();
        l:  b();
        }";
    get_summary(program_from_string(src).0).expect("orphaned label block must get a terminator");
}

#[test]
fn label_in_an_unevaluated_sizeof_operand_strands_no_block() {
    let src = r"
        int g;
        int f(int a) {
            g = a;
            int n = sizeof(({ int t = a; lbl: t; }));
            return n;
        }";
    let prog = parse_c_program(src, true)
        .expect("an unevaluated operand's label must not gap")
        .program;
    let (summary, si) = get_summary(prog).unwrap();
    check_param_into_global_in(&summary, &si, "f", 0, ".g");
}

#[test]
fn a_nested_functions_label_is_not_the_enclosing_functions() {
    let src = r"
        int outer(int a) {
            int inner(int b) {
                if (b) goto out;
                return 0;
            out:
                return b;
            }
            return a;
        }";
    let reports = reports_for(src);
    assert!(
        !reports
            .iter()
            .any(|(_, m)| m.contains("without a terminator")),
        "the enclosing function must not be charged for the nested one's label: {reports:?}"
    );
    assert_eq!(
        reports.len(),
        1,
        "expected only the nested-function gap: {reports:?}"
    );
    assert!(
        reports[0]
            .1
            .contains("Unsupported expression type: function_definition"),
        "unexpected report: {reports:?}"
    );

    let prog = parse_c_program(src, false).expect("ingestion recovers").program;
    let (summary, si) = get_summary(prog).unwrap();
    check_returns_param_in(&summary, &si, "inner", 0, "");
}

#[test]
fn a_label_stranded_in_recovery_output_is_not_a_frontend_gap() {
    let src = r"
        int g;
        void f(int a) {
            g = a;
            case 1 ... 3:
        out:
            g = a;
        }";
    let reports = reports_for(src);
    for (attribution, msg) in &reports {
        assert_ne!(
            *attribution, "frontend gap",
            "a label the recovery swallowed is not a frontend gap: {msg}"
        );
    }
    assert!(
        reports.iter().any(|(_, m)| m.contains("not analyzed")),
        "the loss must still be stated once, against the source: {reports:?}"
    );

    let prog = parse_c_program(src, false).expect("ingestion recovers").program;
    let (summary, si) = get_summary(prog).unwrap();
    check_param_into_global_in(&summary, &si, "f", 0, ".g");
}

#[test]
fn a_goto_still_resolves_in_a_damaged_body() {
    let src = r"
        int g;
        void f(int a) {
            switch (a) { case 1 ... 3: break; }
            if (a) goto out;
            return;
        out:
            g = a;
        }";
    let reports = reports_for(src);
    for (attribution, msg) in &reports {
        assert_ne!(
            *attribution, "frontend gap",
            "nothing here is the frontend's fault: {msg}"
        );
    }
    let prog = parse_c_program(src, false).expect("ingestion recovers").program;
    let (summary, si) = get_summary(prog).unwrap();
    check_param_into_global_in(&summary, &si, "f", 0, ".g");
}

#[test]
fn compound_assign_accumulates() {
    let src = r"
        int f(int a, int b) {
            int y = a;
            y += b;
            return y;
        }";
    let (s, _si) = get_summary(program_from_string(src).0).unwrap();
    check_returns_param(&s, 0, "");
    check_returns_param(&s, 1, "");
}

#[test]
fn funcptr_single_store_flows() {
    let src = r"
        int id(int p) { return p; }
        struct Ops { int (*f)(int); };
        int wrap(int a, int b) {
            struct Ops o;
            o.f = id;
            return o.f(b);
        }";
    let (summary, _si) = get_summary(program_from_string(src).0).unwrap();
    check_returns_param(&summary, 1, "");
}

#[test]
fn funcptr_struct_multistore_flows() {
    let src = r"
        int id(int p) { return p; }
        struct Ops { int (*f)(int); int (*g)(int); };
        int wrap(int a, int b) {
            struct Ops o;
            o.f = id;
            o.g = id;
            return o.f(b);
        }";
    let (summary, _si) = get_summary(program_from_string(src).0).unwrap();
    check_returns_param(&summary, 1, "");
}

#[test]
fn funcptr_array_multistore_flows() {
    let src = r"
        int id(int p) { return p; }
        int wrap(int a, int b) {
            int (*fps[2])(int);
            fps[0] = id;
            fps[1] = id;
            return fps[0](b);
        }";
    let (summary, _si) = get_summary(program_from_string(src).0).unwrap();
    check_returns_param(&summary, 1, "");
}

#[test]
fn field_non_interference() {
    let src = r"
        int f(Donkey s, int x) {
            s.a = x;
            return s.b;
        }";
    let (s, _si) = get_summary(program_from_string(src).0).unwrap();
    check_flow(&s, 1, "", 0, ".a");
    check_returns_param(&s, 0, ".b");
    check_no_flow(&s, 1, "", 0, ".b");
    check_does_not_return_param(&s, 1, "");
}

#[test]
fn arrow_field_returns_param() {
    let src = r"
        int f(Field *p) {
            return p->x;
        }";
    let (s, _si) = get_summary(program_from_string(src).0).unwrap();
    check_returns_param(&s, 0, ".x");
}

#[test]
fn deref_paren_field_equivalent() {
    let src = r"
        int f(Field *p) {
            return (*p).x;
        }";
    let (s, _si) = get_summary(program_from_string(src).0).unwrap();
    check_returns_param(&s, 0, ".x");
}

#[test]
fn ternary_both_arms_flow() {
    let src = r"
        int f(int a, int b, int c) {
            return a ? b : c;
        }";
    let (s, _si) = get_summary(program_from_string(src).0).unwrap();
    check_returns_param(&s, 1, "");
    check_returns_param(&s, 2, "");
}

#[test]
fn elvis_ternary_both_arms_flow() {
    let src = r"
        int f(int a, int c) {
            return a ?: c;
        }";
    let (s, _si) = get_summary(program_from_string(src).0).unwrap();
    check_returns_param(&s, 0, "");
    check_returns_param(&s, 1, "");
}

#[test]
fn elvis_ternary_is_not_a_frontend_gap() {
    let src = r"
        int f(int a, int c) {
            return a ?: c;
        }";
    let (s, _si) = get_summary(strict_program(src).0).unwrap();
    check_returns_param(&s, 0, "");
    check_returns_param(&s, 1, "");
}

#[test]
fn elvis_ternary_propagates_struct_field() {
    let src = r"
        typedef struct Field { int x; } Field;
        int f(Field *p, int c) {
            return p->x ?: c;
        }";
    let (s, _si) = get_summary(program_from_string(src).0).unwrap();
    check_returns_param(&s, 0, ".x");
    check_returns_param(&s, 1, "");
}

#[test]
fn cast_passthrough() {
    let src = r"
        int f(int a) {
            return (long)a;
        }";
    let (s, _si) = get_summary(program_from_string(src).0).unwrap();
    check_returns_param(&s, 0, "");
}

#[test]
fn sizeof_does_not_evaluate() {
    let src = r"
        int f(int *p) {
            return sizeof(*p);
        }";
    let (s, _si) = get_summary(program_from_string(src).0).unwrap();
    check_does_not_return_param(&s, 0, "");
}

#[test]
fn alignof_does_not_carry_operand_taint() {
    let src = r"
        int f(int a) {
            return __alignof__(a);
        }";
    let (s, _si) = get_summary(program_from_string(src).0).unwrap();
    check_does_not_return_param(&s, 0, "");
}

#[test]
fn whole_struct_copy_carries_field() {
    let src = r"
        int f(Donkey s) {
            Donkey t;
            t = s;
            return t.a;
        }";
    let (s, _si) = get_summary(program_from_string(src).0).unwrap();
    check_returns_param(&s, 0, ".a");
}

#[test]
fn nested_field_depth_returns() {
    let src = r"
        int f(Thing v) {
            return v.a.b.c;
        }";
    let (s, _si) = get_summary(program_from_string(src).0).unwrap();
    check_returns_param(&s, 0, ".a.b.c");
}

#[test]
fn field_store_then_load_roundtrips() {
    let src = r"
        int f(Box v, int x) {
            v.inner.val = x;
            int y = v.inner.val;
            return y;
        }";
    let (s, _si) = get_summary(program_from_string(src).0).unwrap();
    check_returns_param(&s, 1, "");
}

#[test]
fn out_param_write_propagates() {
    let src = r"
        void f(int *out, int src) {
            *out = src;
        }";
    let (s, _si) = get_summary(program_from_string(src).0).unwrap();
    check_flow(&s, 1, "", 0, "");
}

#[test]
fn address_of_local_aliases() {
    let src = r"
        int f(int x, int src) {
            int *p = &x;
            *p = src;
            return x;
        }";
    let (s, _si) = get_summary(program_from_string(src).0).unwrap();
    check_returns_param(&s, 1, "");
}

#[test]
fn for_loop_body_flows() {
    let src = r"
        int f(int src) {
            int x = 0;
            for (int i = 0; i < 10; i++) {
                x = src;
            }
            return x;
        }";
    let (s, _si) = get_summary(program_from_string(src).0).unwrap();
    check_returns_param(&s, 0, "");
}

#[test]
fn recursion_returns_param() {
    let src = r"
        int f(int src) {
            if (src) return f(src);
            return src;
        }";
    let (s, _si) = get_summary(program_from_string(src).0).unwrap();
    check_returns_param(&s, 0, "");
}

#[test]
fn struct_by_value_through_call() {
    let src = r"
        int callee(Donkey p) {
            return p.a;
        }
        int caller(Donkey s) {
            return callee(s);
        }";
    let (s, si) = get_summary(program_from_string(src).0).unwrap();
    check_returns_param_in(&s, &si, "callee", 0, ".a");
    check_returns_param_in(&s, &si, "caller", 0, ".a");
}

#[test]
fn unary_ops_blend_through() {
    for op in ["-", "~", "!"] {
        let src = format!("int f(int x) {{ return {op}x; }}");
        let (s, _si) = get_summary(program_from_string(&src).0).unwrap();
        check_returns_param(&s, 0, "");
    }
}

#[test]
fn constant_index_field_precision() {
    let src = r"
        int f(Thing v, int src) {
            v.a[0] = src;
            return v.a[1];
        }";
    let (s, _si) = get_summary(program_from_string(src).0).unwrap();
    check_flow(&s, 1, "", 0, ".a.deref");
    check_returns_param(&s, 0, ".a.[1].deref");
    check_does_not_return_param(&s, 1, "");
}

#[test]
fn mutual_recursion_returns_param() {
    let src = r"
        int g(int y);
        int f(int x) { if (x > 0) return g(x); return x; }
        int g(int y) { if (y > 0) return f(y); return y; }";
    let (s, si) = get_summary(program_from_string(src).0).unwrap();
    check_returns_param_in(&s, &si, "f", 0, "");
    check_returns_param_in(&s, &si, "g", 0, "");
}

#[test]
fn struct_by_value_non_interference_through_call() {
    let src = r"
        int callee(Donkey p) {
            return p.a;
        }
        int caller(Donkey s, int src) {
            s.b = src;
            return callee(s);
        }";
    let (s, si) = get_summary(program_from_string(src).0).unwrap();
    check_returns_param_in(&s, &si, "caller", 0, ".a");
    check_does_not_return_param_in(&s, &si, "caller", 1, "");
}

#[test]
fn for_init_clause_flows() {
    let src = r"
        int f(int src) {
            int x = 0;
            for (x = src; x < 10; x++) {}
            return x;
        }";
    let (s, _si) = get_summary(program_from_string(src).0).unwrap();
    check_returns_param(&s, 0, "");
}

#[test]
fn post_increment_value_is_operand() {
    let src = r"
        int f(int y) {
            int x = y++;
            return x;
        }";
    let (s, _si) = get_summary(program_from_string(src).0).unwrap();
    check_returns_param(&s, 0, "");
}

#[test]
fn nonconstant_subscript_may_alias_constant() {
    let src = r"
        int f(int *a, int src, int n) {
            a[n] = src;
            return a[0];
        }";
    let (s, _si) = get_summary(program_from_string(src).0).unwrap();
    check_returns_param(&s, 1, "");
}

#[test]
fn designated_initializer_flows() {
    let src = r"
        int f(int src) {
            Thing v = {.a = src};
            return v.a;
        }";
    let (s, _si) = get_summary(program_from_string(src).0).unwrap();
    check_returns_param(&s, 0, "");
}

#[test]
fn global_flows_across_functions() {
    let src = r"
        int g;
        void set(int src) { g = src; }
        int get() { return g; }";
    let (s, si) = get_summary(program_from_string(src).0).unwrap();
    check_param_into_global_in(&s, &si, "set", 0, ".g");
    check_returns_global_in(&s, &si, "get", ".g");
}

#[test]
fn transitive_call_depth_returns_param() {
    let src = r"
        int c(int z) { return z; }
        int b(int y) { return c(y); }
        int a(int x) { return b(x); }";
    let (s, si) = get_summary(program_from_string(src).0).unwrap();
    check_returns_param_in(&s, &si, "c", 0, "");
    check_returns_param_in(&s, &si, "b", 0, "");
    check_returns_param_in(&s, &si, "a", 0, "");
}

#[test]
fn comma_operator_yields_rhs() {
    let src = r"
        int f(int a, int b) {
            return (a, b);
        }";
    let (s, _si) = get_summary(program_from_string(src).0).unwrap();
    check_returns_param(&s, 1, "");
    check_does_not_return_param(&s, 0, "");
}

#[test]
fn short_circuit_both_operands_flow() {
    let src = r"
        int f(int a, int b) {
            return a && b;
        }";
    let (s, _si) = get_summary(program_from_string(src).0).unwrap();
    check_returns_param(&s, 0, "");
    check_returns_param(&s, 1, "");
}

#[test]
fn const_local_flows() {
    let src = r"
        int f(int src) {
            const int x = src;
            return x;
        }";
    let (s, _si) = get_summary(program_from_string(src).0).unwrap();
    check_returns_param(&s, 0, "");
}

#[test]
fn static_local_flows() {
    let src = r"
        int f(int src) {
            static int x;
            x = src;
            return x;
        }";
    let (s, _si) = get_summary(program_from_string(src).0).unwrap();
    check_returns_param(&s, 0, "");
}

#[test]
fn union_member_write_aliases_other_member() {
    let src = r"
        union U { int a; int b; };
        int f(int src) {
            union U u;
            u.a = src;
            return u.b;
        }";
    let prog = program_from_string(src).0;
    check_assign_or_update(&prog, "u.$union", ["@p0"], None);
    assert_eq!(
        count_writes_to(&prog, "u.a"),
        0,
        "union member `.a` must collapse to `$union`, not remain a distinct field"
    );
    let (s, _si) = get_summary(prog).unwrap();
    check_summary_count(&s, 1);
    check_returns_param(&s, 0, "");
}

#[test]
fn struct_members_stay_disjoint() {
    let src = r"
        struct S { int a; int b; };
        int f(int src) {
            struct S s;
            s.a = src;
            return s.b;
        }";
    let prog = program_from_string(src).0;
    check_assign_or_update(&prog, "s.a", ["@p0"], None);
    let (s, _si) = get_summary(prog).unwrap();
    check_summary_count(&s, 0);
}

#[test]
fn char_literal_in_expression_flows() {
    let src = r"
        int f(int s) {
            int x = s + 'a';
            if (x == 'z') { x = s; }
            return x;
        }";
    let (sm, _si) = get_summary(program_from_string(src).0).unwrap();
    check_returns_param(&sm, 0, "");
}

#[test]
fn struct_positional_initializer_maps_onto_members() {
    let src = r"
        struct P { int x; int y; };
        int f(int v) {
            struct P p = { v, 0 };
            return p.x;
        }";
    let prog = program_from_string(src).0;
    check_assign_or_update(&prog, "p.x", ["@p0"], None);
    check_assign_or_update(&prog, "p.y", ["#0"], None);

    let summary = get_summary(prog).unwrap().0;
    check_returns_param(&summary, 0, "");
}

#[test]
fn struct_nested_in_struct_initializer_maps_onto_members() {
    let src = r"
        struct Q { int a; int b; };
        struct R { struct Q q; int z; };
        int f(int v) {
            struct R r = { { v, 0 }, 0 };
            return r.q.a;
        }";
    let prog = program_from_string(src).0;
    let summary = get_summary(prog).unwrap().0;
    check_returns_param(&summary, 0, "");
}

#[test]
fn array_of_structs_initializer_maps_onto_members() {
    let src = r"
        struct Q { int a; int b; };
        int f(int v) {
            struct Q qs[2] = { { v, 0 }, { 0, 0 } };
            return qs[0].a;
        }";
    let prog = program_from_string(src).0;
    let summary = get_summary(prog).unwrap().0;
    check_returns_param(&summary, 0, "");
}

#[test]
fn typedef_struct_initializer_maps_onto_members() {
    let src = r"
        typedef struct { int x; int y; } P;
        int f(int v) {
            P p = { v, 0 };
            return p.x;
        }";
    let prog = program_from_string(src).0;
    check_assign_or_update(&prog, "p.x", ["@p0"], None);

    let summary = get_summary(prog).unwrap().0;
    check_returns_param(&summary, 0, "");
}

#[test]
fn pointer_member_is_not_treated_as_an_inline_record() {
    let src = r"
        struct Q { int a; int b; };
        struct S { struct Q *q; int z; };
        struct N { int v; struct N *next; };
        int f(int v) {
            struct S s = { 0, v };
            struct N n = { v, 0 };
            return s.z;
        }";
    let prog = program_from_string(src).0;
    check_assign_or_update(&prog, "s.z", ["@p0"], None);
    check_assign_or_update(&prog, "n.v", ["@p0"], None);
    let summary = get_summary(prog).unwrap().0;
    check_returns_param(&summary, 0, "");
}

#[test]
fn compound_literal_designated_member_flows() {
    let src = r"
        struct pair { int start; int end; };
        int f(int src) {
            struct pair p = (struct pair){ .start = src, .end = 0 };
            return p.start;
        }";
    let (s, _si) = get_summary(program_from_string(src).0).unwrap();
    check_returns_param(&s, 0, "");
}

#[test]
fn asm_input_flows_to_output() {
    let src = r#"
        int f(int a) {
            int y = 0;
            __asm__ ("nop" : "=r"(y) : "r"(a) : "cc");
            return y;
        }"#;
    let (s, _si) = get_summary(program_from_string(src).0).unwrap();
    check_returns_param(&s, 0, "");
}

#[test]
fn asm_readwrite_operand_keeps_identity_flow() {
    let src = r#"
        int f(int a) {
            int x = a;
            __asm__ ("sarw $15,%0" : "+r"(x) : : "cc");
            return x;
        }"#;
    let (s, _si) = get_summary(program_from_string(src).0).unwrap();
    check_returns_param(&s, 0, "");
}

#[test]
fn asm_multiple_outputs_all_written() {
    let src = r#"
        int f(int i) {
            int eax, ebx, ecx, edx;
            __asm__ ( "cpuid" : "=a"(eax), "=b"(ebx), "=c"(ecx), "=d"(edx) : "a"(i) );
            return eax + ebx + ecx + edx;
        }"#;
    let (prog, _dump) = program_from_string(src);
    for out in ["eax", "ebx", "ecx", "edx"] {
        check_writes_to(&prog, out, 1);
    }
    let (s, _si) = get_summary(prog).unwrap();
    check_returns_param(&s, 0, "");
}

#[test]
fn asm_without_operands_lowers() {
    let src = r#"
        int f(int a) {
            int x = a;
            __asm__ ("pause");
            return x;
        }"#;
    let (s, _si) = get_summary(program_from_string(src).0).unwrap();
    check_returns_param(&s, 0, "");
}

#[test]
fn asm_is_not_a_frontend_gap() {
    let src = r#"
        int f(int a, int b) {
            int x = a;
            int y = 0;
            int z = 0, q = 0;
            __asm__ ("nop" : "=r"(y) : "r"(a) : "cc");
            __asm__ ("sarw $15,%0" : "+r"(x) : : "cc");
            __asm__ ("xorw %0,%0\n cmovew %1,%0" : "=&r"(z), "=&r"(q) : "r"(a), "r"(b) : "cc");
            __asm__ __volatile__ ("mfence" ::: "memory");
            __asm__ ("pause");
            return x + y + z + q;
        }"#;
    let (s, _si) = get_summary(strict_program(src).0).unwrap();
    check_returns_param(&s, 0, "");
    check_returns_param(&s, 1, "");
}

#[test]
fn asm_output_into_struct_field_is_stored() {
    let src = r#"
        struct S { int f; int g; };
        void f(int a, struct S *p) {
            __asm__ ("nop" : "=m"(p->f) : "r"(a) : "memory");
        }"#;
    let (s, _si) = get_summary(program_from_string(src).0).unwrap();
    check_flow(&s, 0, "", 1, ".f");
}

#[test]
fn asm_goto_label_is_reachable() {
    let src = r#"
        int f(int a) {
            int r = 0;
            __asm__ goto ("jmp %l0" : : "r"(a) : : err);
            return r;
        err:
            return a;
        }"#;
    let (prog, _dump) = program_from_string(src);
    check_successors(&prog, 0, &[1, 2]);
    let (s, _si) = get_summary(prog).unwrap();
    check_returns_param(&s, 0, "");
}

#[test]
fn asm_goto_also_falls_through() {
    let src = r#"
        int f(int a) {
            int r = 0;
            __asm__ goto ("" : : "r"(a) : : hit);
            r = a;
            return r;
        hit:
            return 0;
        }"#;
    let (prog, _dump) = program_from_string(src);
    check_successors(&prog, 0, &[1, 2]);
    let (s, _si) = get_summary(prog).unwrap();
    check_returns_param(&s, 0, "");
}

#[test]
fn asm_goto_multiple_labels_all_link() {
    let src = r#"
        int f(int a) {
            int r = 0;
            __asm__ goto ("" : : "r"(a) : : one, two);
            return r;
        one:
            return a;
        two:
            return a + 1;
        }"#;
    let (prog, _dump) = program_from_string(src);
    check_successors(&prog, 0, &[1, 2, 3]);
    let (s, _si) = get_summary(prog).unwrap();
    check_returns_param(&s, 0, "");
}

#[test]
fn asm_goto_is_not_a_frontend_gap() {
    let src = r#"
        int f(int a) {
            __asm__ goto ("" : : "r"(a) : : hit);
            return 0;
        hit:
            return a;
        }"#;
    let (s, _si) = get_summary(strict_program(src).0).unwrap();
    check_returns_param(&s, 0, "");
}

#[test]
fn statement_expression_value_flows() {
    let src = r"
        int f(int a) { int r = ({ int t = a; t; }); return r; }";
    let (s, _si) = get_summary(program_from_string(src).0).unwrap();
    check_returns_param(&s, 0, "");
}

#[test]
fn statement_expression_side_effect_is_observed() {
    let src = r"
        int f(int a) { int o = 0; int r = ({ o = a; 1; }); return o; }";
    let (s, _si) = get_summary(program_from_string(src).0).unwrap();
    check_returns_param(&s, 0, "");
}

#[test]
fn nested_statement_expression_flows() {
    let src = r"
        int f(int a) { return ({ int t = ({ int u = a; u; }); t; }); }";
    let (s, _si) = get_summary(program_from_string(src).0).unwrap();
    check_returns_param(&s, 0, "");
}

#[test]
fn statement_expression_body_block_threads_continuation() {
    let src = r"
        int f(int a) { int r = ({ do { } while (0); a; }); int o = r; return o; }";
    let (s, _si) = get_summary(program_from_string(src).0).unwrap();
    check_returns_param(&s, 0, "");
}

#[test]
fn void_statement_expression_is_not_a_gap() {
    let src = r"
        int f(int a) { ({ do { } while (0); }); return a; }";
    let (s, _si) = get_summary(strict_program(src).0).unwrap();
    check_returns_param(&s, 0, "");
}

#[test]
fn statement_expression_is_not_a_frontend_gap() {
    let src = r"
        int f(int a) { int r = ({ int t = a; t; }); return r; }";
    let (s, _si) = get_summary(strict_program(src).0).unwrap();
    check_returns_param(&s, 0, "");
}

#[test]
fn statement_expression_in_store_position_writes_through() {
    let src = r"
        struct S { int f; };
        void f(struct S *a, int x) { ({ int t = 0; &a[1]; })->f = x; }";
    let (s, _si) = get_summary(strict_program(src).0).unwrap();
    check_flow(&s, 1, "", 0, ".[1].deref.f");
}

#[test]
fn generic_selection_blends_every_arm() {
    let src = r"
        int f(int a) { return _Generic(a, int: a, default: 0); }";
    let (s, _si) = get_summary(program_from_string(src).0).unwrap();
    check_returns_param(&s, 0, "");

    let src = r"
        int f(int a, int b) { return _Generic(a, char: a, default: b); }";
    let (s, _si) = get_summary(program_from_string(src).0).unwrap();
    check_returns_param(&s, 0, "");
    check_returns_param(&s, 1, "");
}

#[test]
fn generic_selection_controlling_expression_is_not_the_value() {
    let src = r"
        int f(int a, int b) { return _Generic(a, default: b); }";
    let (s, _si) = get_summary(program_from_string(src).0).unwrap();
    check_returns_param(&s, 1, "");
    check_does_not_return_param(&s, 0, "");
}

#[test]
fn generic_selection_in_store_position_writes_through() {
    let src = r"
        struct S { int f; };
        void g(struct S *p, int x) { _Generic(p, struct S *: p, default: p)->f = x; }";
    let (s, _si) = get_summary(strict_program(src).0).unwrap();
    check_flow(&s, 1, "", 0, ".f");
}

#[test]
fn declarations_after_a_parse_error_still_import() {
    let src = r"
        void f(int c) {
            switch (c) { case 1 ... 3: return; default: return; }
            int g(int a) { return a; }
        }";
    let lowered = parse_c_program(src, false).expect("ingestion recovers");
    let (prog, has_error) = (lowered.program, lowered.has_error);
    assert!(has_error, "the input is deliberately unparsable");
    assert!(
        function_named(&prog, "g").is_some(),
        "the re-parented definition of `g` must still be collected:\n{prog:?}"
    );
    let (summary, si) = get_summary(prog).unwrap();
    check_returns_param_in(&summary, &si, "g", 0, "");
}

#[test]
fn register_asm_variable_declares_an_ordinary_local() {
    let src = r#"
        int f(int a) {
            register int r asm("eax");
            r = a;
            return r;
        }"#;
    let (s, _si) = get_summary(program_from_string(src).0).unwrap();
    check_returns_param(&s, 0, "");
    assert_eq!(
        reports_for(src),
        vec![],
        "an explicit-register declaration must draw no report at all"
    );

    let realistic = r#"
        int g(int *ufd, int v) {
            register __typeof__(*(ufd)) __val_pu asm("%""rax");
            __val_pu = v;
            *ufd = __val_pu;
            return 0;
        }"#;
    for (attribution, msg) in reports_for(realistic) {
        assert_ne!(
            attribution, "frontend gap",
            "this spelling must not be charged to the frontend: {msg}"
        );
    }
}

#[test]
fn string_literal_subscript_is_a_constant() {
    let src = r#"
        int f(int i) { return "\004\002\006\006"[i & 3]; }"#;
    let lowered = parse_c_program(src, true).expect("a string-literal subscript must not be a frontend gap");
    let (prog, has_error) = (lowered.program, lowered.has_error);
    assert!(!has_error, "this input must parse cleanly");
    let (s, _si) = get_summary(prog).unwrap();
    check_does_not_return_param(&s, 0, "");
}

#[test]
fn a_named_global_still_lowers_to_a_symbolic_field() {
    let src = r"
        unsigned long named;
        unsigned long f(void) { return named; }";
    let (prog, dump) = program_from_string(src);
    assert!(
        field_symbols(&prog).contains(&"named"),
        "a global read must still load `$globals.named`\n{dump}"
    );
}

#[test]
fn fall_off_end_of_nonvoid_verifies() {
    let src = r"int f(int a) { int b = a; }";
    get_summary(program_from_string(src).0)
        .expect("a non-void function that falls off the end of its body must verify");
}

#[test]
fn bare_return_in_nonvoid_verifies() {
    let src = r"int f(int a) { if (a) return; return a; }";
    let (summary, _) = get_summary(program_from_string(src).0)
        .expect("a bare `return;` in a non-void function must verify");
    check_returns_param(&summary, 0, "");
}

#[test]
fn implicit_return_carries_no_taint() {
    let src = r"int f(int a) { int b = a; }";
    let (summary, _) = get_summary(program_from_string(src).0).expect("must verify");
    check_does_not_return_param(&summary, 0, "");
}

#[test]
fn implicit_return_in_a_void_function_is_still_empty() {
    let src = r"void f(int a) { int b = a; }";
    let (prog, dump) = program_from_string(src);
    get_summary(prog).expect("a void function that falls off the end must still verify");
    assert!(
        check_no_match(&dump, "<implicit-return>"),
        "a void function needs no return value\n{dump}"
    );
}

#[test]
fn colliding_definitions_of_one_name_verify() {
    let src = r"
        static void g(int a) { h(a); }
        static int g(int a) { return a; }";
    let (prog, _dump) = program_from_string(src);
    check_return_arity(&prog, "g", 0);
    check_return_arity(&prog, "g$1", 1);
    assert_eq!(
        function_named(&prog, "g")
            .expect("first definition keeps the name")
            .params
            .len(),
        1,
        "each definition keeps its OWN parameter list; the merge concatenated them"
    );
    get_summary(prog)
        .expect("two definitions sharing a name must not produce IR that fails to verify");
}

#[test]
fn taint_follows_the_definition_the_calling_file_holds() {
    let (prog, _dump) = program_from_files(&[
        (
            "one.c",
            r"static int g(int a) { return 0; }
              int ca(int x) { return g(x); }",
        ),
        (
            "two.c",
            r"static int g(int a) { return a; }
              int cb(int x) { return g(x); }",
        ),
    ]);
    let (summary, source_info) = get_summary(prog).expect("must verify");
    check_returns_param_in(&summary, &source_info, "cb", 0, "");
    check_does_not_return_param_in(&summary, &source_info, "ca", 0, "");
}

#[test]
fn a_header_inline_included_twice_is_one_function() {
    let inline = r"static inline int h(int a) { return a; }";
    let (prog, dump) = program_from_files(&[
        (
            "a.c",
            &format!(
                "{inline}
int ua(int x) {{ return h(x); }}"
            ),
        ),
        (
            "b.c",
            &format!(
                "{inline}
int ub(int x) {{ return h(x); }}"
            ),
        ),
    ]);
    assert_eq!(
        function_named(&prog, "h")
            .expect("the one `h`")
            .params
            .len(),
        1,
        "one function, one parameter list\n{dump}"
    );
    assert!(
        function_named(&prog, "h$b.c").is_none(),
        "the second copy is the same function, not a second one\n{dump}"
    );
    check_has_direct_call(&prog, "ua", "h");
    check_has_direct_call(&prog, "ub", "h");
    let (summary, source_info) = get_summary(prog).expect("must verify");
    check_returns_param_in(&summary, &source_info, "ua", 0, "");
    check_returns_param_in(&summary, &source_info, "ub", 0, "");
}

#[test]
fn files_that_share_a_base_name_still_get_distinct_identities() {
    let (prog, _dump) = program_from_files(&[
        (
            "a/util.c",
            r"static int g(int a) { return a; }
              int ca(int x) { return g(x); }",
        ),
        (
            "b/util.c",
            r"static int g(int a) { return 0; }
              int cb(int x) { return g(x); }",
        ),
        (
            "c/util.c",
            r"static int g(int a) { return 1; }
              int cc(int x) { return g(x); }",
        ),
    ]);
    check_has_direct_call(&prog, "ca", "g");
    check_has_direct_call(&prog, "cb", "g$util.c");
    check_has_direct_call(&prog, "cc", "g$util.c#2");
    let (summary, source_info) = get_summary(prog).expect("must verify");
    check_returns_param_in(&summary, &source_info, "ca", 0, "");
    check_does_not_return_param_in(&summary, &source_info, "cb", 0, "");
    check_does_not_return_param_in(&summary, &source_info, "cc", 0, "");
}

#[test]
fn a_function_pointer_reference_resolves_within_its_own_file() {
    let (_prog, dump) = program_from_files(&[
        ("a.c", r"static void g(int a) { }"),
        (
            "b.c",
            r"static void g(int a) { sink(a); }
              void take(void (*fp)(int));
              void b(void) { take(g); }",
        ),
    ]);
    assert!(
        dump.contains("ptr<g$b.c>"),
        "the reference must name b.c's own `g`\n{dump}"
    );
}

#[test]
fn a_store_through_a_literal_address_is_observed_at_a_read() {
    let src = r"int roundtrip(int x) {
                    *(volatile int *)0x2000 = x;
                    return *(volatile int *)0x2000;
                }";
    let (summary, _) = get_summary(program_from_string(src).0).expect("must verify");
    check_returns_param(&summary, 0, "");
}

#[test]
fn a_null_pointer_constant_is_still_a_constant_value() {
    let src = r"void n(void) { int *p; p = (int *)0; }";
    let (prog, dump) = program_from_string(src);
    check_assign_or_update(&prog, "p", ["#0"], None);
    assert!(
        check_no_match(&dump, "<address"),
        "a null pointer constant names no location\n{dump}"
    );
}

#[test]
fn pointer_returning_definition_is_collected() {
    let src = r"char *dup(char *s) { return s; }";
    let (prog, dump) = program_from_string(src);
    assert!(
        function_named(&prog, "dup").is_some(),
        "a `char *` definition must be collected\n{dump}"
    );
    check_return_arity(&prog, "dup", 1);
    check_params(&prog, &[ByRef]);
    check_block_count(&prog, 1);
}

#[test]
fn taint_flows_through_a_pointer_returning_function() {
    let src = r"char *dup(char *s) { return s; }";
    let (summary, _) = get_summary(program_from_string(src).0).expect("must verify");
    check_returns_param(&summary, 0, "");
}

#[test]
fn taint_returns_through_a_call_to_a_pointer_returning_function() {
    let src = r"
        char *dup(char *s) { return s; }
        char *use(char *p) { return dup(p); }";
    let (prog, dump) = program_from_string(src);
    check_has_direct_call(&prog, "use", "dup");
    check_return_arity(&prog, "dup", 1);
    assert!(
        check_no_match(&dump, "define dup(@p0[byref]) -> 0"),
        "`dup` must not be an arity-0 stub\n{dump}"
    );
    let (summary, info) = get_summary(prog).expect("must verify");
    check_returns_param_in(&summary, &info, "use", 0, "");
}

#[test]
fn double_pointer_returning_definition_is_collected() {
    let two = r"char **argv_of(char **v) { return v; }";
    let (prog, dump) = program_from_string(two);
    assert!(
        function_named(&prog, "argv_of").is_some(),
        "a `char **` definition must be collected\n{dump}"
    );
    check_return_arity(&prog, "argv_of", 1);
    check_block_count(&prog, 1);

    let three = r"char ***deep(char ***v) { return v; }";
    let (prog, dump) = program_from_string(three);
    assert!(
        function_named(&prog, "deep").is_some(),
        "a `char ***` definition must be collected\n{dump}"
    );
    check_return_arity(&prog, "deep", 1);
}

#[test]
fn taint_returns_through_a_double_pointer_return() {
    let src = r"
        struct env { char **argv; };
        char **argv_of(struct env *e) { return e->argv; }";
    let (prog, dump) = program_from_string(src);
    assert!(
        function_named(&prog, "argv_of").is_some(),
        "a `char **` definition must be collected\n{dump}"
    );
    check_return_arity(&prog, "argv_of", 1);
    let (summary, _) = get_summary(prog).expect("must verify");
    check_returns_param(&summary, 0, ".argv");
}

#[test]
fn every_spelling_of_a_pointer_return_is_collected() {
    let src = r"
        struct S { int f; };
        int one(int a) { return a; }
        char *d1(char *s) { return s; }
        static char *d2(char *s) { return s; }
        char * d3(char *s) { return s; }
        struct S *d4(struct S *s) { return s; }
        void *d5(void *s) { return s; }
        int two(int a) { return a; }";
    let (prog, dump) = program_from_string(src);
    for name in ["one", "d1", "d2", "d3", "d4", "d5", "two"] {
        assert!(
            function_named(&prog, name).is_some(),
            "`{name}` must be collected\n{dump}"
        );
        check_return_arity(&prog, name, 1);
    }
    let (summary, info) = get_summary(prog).expect("must verify");
    for name in ["d1", "d2", "d3", "d4", "d5"] {
        check_returns_param_in(&summary, &info, name, 0, "");
    }
}

#[test]
fn a_pointer_returning_prototype_is_still_not_a_definition() {
    let (prog, dump) = program_from_files(&[(
        "s.c",
        r"char *strdup(const char *);
          char *caller(char *p) { return strdup(p); }",
    )]);
    check_has_direct_call(&prog, "caller", "strdup");
    let stub = function_named(&prog, "strdup").expect("the extern pass names it");
    assert!(
        stub.blocks.is_empty(),
        "a prototype has no body to collect\n{dump}"
    );
    let defined = function_named(&prog, "caller").expect("a definition is collected");
    assert!(!defined.blocks.is_empty(), "caller has a body\n{dump}");
}

#[test]
fn a_parenthesized_declarator_declares_what_it_wraps() {
    let whole = r"static unsigned (impl_f(unsigned char *msgp)) { return *msgp; }";
    let (prog, dump) = program_from_string(whole);
    assert!(
        function_named(&prog, "impl_f").is_some(),
        "parens around the declarator do not change what it declares\n{dump}"
    );
    check_return_arity(&prog, "impl_f", 1);

    let name_only = r"char *(strdup2)(char *s) { return s; }";
    let (prog, dump) = program_from_string(name_only);
    assert!(
        function_named(&prog, "strdup2").is_some(),
        "parens around the name do not change it either\n{dump}"
    );
    check_return_arity(&prog, "strdup2", 1);
    let (summary, _) = get_summary(prog).expect("must verify");
    check_returns_param(&summary, 0, "");
}

#[test]
fn a_declarator_that_names_no_function_is_reported() {
    let src = r"
        char *(*signal_handler(int sig))(int) { return 0; }
        int ok(int a) { return a; }";
    let reports = reports_for(src);
    assert!(
        reports.iter().any(|(who, msg)| *who == "frontend gap"
            && msg.contains("unsupported declarator in a function definition")),
        "the dropped definition must be reported: {reports:?}"
    );
    let (prog, dump) = program_from_string(src);
    assert!(
        function_named(&prog, "ok").is_some(),
        "recovery must not lose the rest of the file\n{dump}"
    );
}

#[test]
fn pointer_returning_definitions_of_one_name_keep_their_own_bodies() {
    let (prog, dump) = program_from_files(&[
        ("a.c", "static char *fmt(char *s) { return s; }"),
        (
            "b.c",
            "static char *fmt(char *s) { char *t; t = s; return t; }",
        ),
    ]);
    assert!(
        function_named(&prog, "fmt").is_some() && function_named(&prog, "fmt$b.c").is_some(),
        "two pointer-returning definitions of one name are two functions\n{dump}"
    );
    check_return_arity(&prog, "fmt", 1);
    check_return_arity(&prog, "fmt$b.c", 1);
}

#[test]
fn a_double_pointer_parameter_is_bound() {
    let src = r"void f(char **v, char *w) { char **a; char *b; a = v; b = w; }";
    let (prog, dump) = program_from_string(src);
    check_params(&prog, &[ByRef, ByRef]);
    let (a, b) = (local_render(&prog, "f", "a"), local_render(&prog, "f", "b"));
    assert!(
        check_match(&dump, &format!("assign {a} = @p0")),
        "the double pointer is the FIRST parameter\n{dump}"
    );
    assert!(
        check_match(&dump, &format!("assign {b} = @p1")),
        "and the one after it keeps its own index\n{dump}"
    );
}

#[test]
fn main_binds_argc_and_argv_in_that_order() {
    let src = r"int main(int argc, char **argv) { int n; char **a; n = argc; a = argv; }";
    let (prog, dump) = program_from_string(src);
    check_params(&prog, &[ByVal, ByRef]);
    let (n, a) = (
        local_render(&prog, "main", "n"),
        local_render(&prog, "main", "a"),
    );
    assert!(
        check_match(&dump, &format!("assign {n} = @p0"))
            && check_match(&dump, &format!("assign {a} = @p1")),
        "argc is @p0 and argv is @p1\n{dump}"
    );

    let deep = r"void g(char ***v, int n) { char ***a; int b; a = v; b = n; }";
    let (prog, dump) = program_from_string(deep);
    check_params(&prog, &[ByRef, ByVal]);
    let (a, b) = (local_render(&prog, "g", "a"), local_render(&prog, "g", "b"));
    assert!(
        check_match(&dump, &format!("assign {a} = @p0"))
            && check_match(&dump, &format!("assign {b} = @p1")),
        "`char ***` is one parameter at index 0\n{dump}"
    );
}

#[test]
fn taint_flows_through_a_double_pointer_parameter() {
    let src = r"char **argv_of(char **v) { return v; }";
    let (prog, dump) = program_from_string(src);
    check_params(&prog, &[ByRef]);
    check_return_arity(&prog, "argv_of", 1);
    assert!(
        check_match(&dump, "return @p0"),
        "the return reads the parameter, not a global\n{dump}"
    );
    let (summary, _) = get_summary(prog).expect("must verify");
    check_returns_param(&summary, 0, "");
}

#[test]
fn a_parameter_is_by_reference_at_every_depth() {
    for (src, want) in [
        (r"void f(int a) { int x; x = a; }", ByVal),
        (r"void f(char *a) { char *x; x = a; }", ByRef),
        (r"void f(char **a) { char **x; x = a; }", ByRef),
        (r"void f(char ***a) { char ***x; x = a; }", ByRef),
        (r"void f(char *a[]) { char **x; x = a; }", ByRef),
        (r"void f(char a[10][20]) { char *x; x = a[0]; }", ByRef),
        (r"void f(struct S **a) { struct S **x; x = a; }", ByRef),
    ] {
        let (prog, dump) = program_from_string(src);
        let got = get_only_function(&prog)
            .expect("one function")
            .params
                        .as_slice();
        assert_eq!(got, &[want], "wrong parameter type for `{src}`\n{dump}");
    }
}

#[test]
fn a_function_pointer_parameter_is_one_parameter() {
    let src = r"void g(int (*cb)(int a, int b), char *s) { char *t; t = s; }";
    let (prog, dump) = program_from_string(src);
    check_params(&prog, &[ByVal, ByRef]);
    let t = local_render(&prog, "g", "t");
    assert!(
        check_match(&dump, &format!("assign {t} = @p1")),
        "`s` is the second parameter, not the fourth\n{dump}"
    );

    let typed = r"void h(int cb(int a), char *s) { char *t; t = s; }";
    let (prog, dump) = program_from_string(typed);
    check_params(&prog, &[ByVal, ByRef]);
    let t = local_render(&prog, "h", "t");
    assert!(
        check_match(&dump, &format!("assign {t} = @p1")),
        "a function-typed parameter is one parameter\n{dump}"
    );
}

#[test]
fn a_nameless_parameter_holds_its_slot_without_binding_a_name() {
    let src = r"void k(char **, int n) { int x; x = n; }";
    let (prog, dump) = program_from_string(src);
    check_params(&prog, &[ByRef, ByVal]);
    let x = local_render(&prog, "k", "x");
    assert!(
        check_match(&dump, &format!("assign {x} = @p1")),
        "`n` is the second parameter\n{dump}"
    );
}

#[test]
fn a_variadic_marker_is_not_a_parameter() {
    let src = r"void logmsg(const char *fmt, int level, ...) { int x; x = level; }";
    let (prog, dump) = program_from_string(src);
    check_params(&prog, &[ByRef, ByVal]);
    let x = local_render(&prog, "logmsg", "x");
    assert!(
        check_match(&dump, &format!("assign {x} = @p1")),
        "`level` is the second parameter and `...` is not a third\n{dump}"
    );
}

#[test]
fn a_prototype_declares_no_parameters() {
    let (prog, dump) = program_from_files(&[(
        "s.c",
        r"void takes(char **, int, int);
          void caller(char **p) { takes(p); }",
    )]);
    check_has_direct_call(&prog, "caller", "takes");
    let stub = function_named(&prog, "takes").expect("the extern pass names it");
    assert!(
        stub.blocks.is_empty() && stub.params.len() == 1,
        "a prototype's parameter list is not collected\n{dump}"
    );
}

#[test]
fn a_typedef_cast_is_a_value_conversion_not_a_call() {
    let src = r"
        typedef unsigned short width_t;
        int convert(int x) {
            int v;
            v = (( width_t)(x));
            return v;
        }";
    let (prog, dump) = program_from_string(src);
    assert!(
        direct_calls_in(&prog, "convert").is_empty(),
        "a cast is not a call\n{dump}"
    );
    let summary = get_summary(prog).unwrap().0;
    check_returns_param(&summary, 0, "");
}

#[test]
fn a_cast_shaped_call_invents_no_function() {
    let (prog, dump) = program_from_files(&[(
        "convert.c",
        r"typedef unsigned short width_t;
          void store(int *v, int x) { *v = (( width_t)(x)); }",
    )]);
    assert!(
        function_named(&prog, "( width_t)").is_none(),
        "no function is invented for the cast\n{dump}"
    );
    let odd: Vec<&str> = prog
        .functions
        .iter()
        .map(|f| f.name.as_str())
        .filter(|name| !name.starts_with(|c: char| c.is_ascii_alphabetic() || c == '_'))
        .collect();
    assert!(
        odd.is_empty(),
        "invented non-identifier names: {odd:?}\n{dump}"
    );
}

#[test]
fn a_type_name_from_a_system_header_still_reads_as_a_cast() {
    let src = r"
        int convert(u_char *p, int x) {
            int v;
            v = (u_char)(x);
            return v;
        }";
    let (prog, dump) = program_from_string(src);
    assert!(
        direct_calls_in(&prog, "convert").is_empty(),
        "a cast to a type the unit only uses is still a cast\n{dump}"
    );
    let summary = get_summary(prog).unwrap().0;
    check_returns_param(&summary, 1, "");
}

#[test]
fn a_cast_over_a_comma_expression_yields_its_last_operand() {
    let src = r"
        typedef int T;
        int pick(int a, int b) {
            int r;
            r = (T)(a, b);
            return r;
        }";
    let (prog, dump) = program_from_string(src);
    assert!(
        direct_calls_in(&prog, "pick").is_empty(),
        "a cast over a comma expression is not a call\n{dump}"
    );
    let summary = get_summary(prog).unwrap().0;
    check_returns_param(&summary, 1, "");
    check_does_not_return_param(&summary, 0, "");
}

#[test]
fn a_parenthesized_function_name_is_still_a_direct_call() {
    let src = r"
        int cmp_fn(int a, int b) { return a; }
        int find(int a, int b) {
            int c;
            c = (cmp_fn)(a, b);
            return c;
        }";
    let (prog, dump) = program_from_string(src);
    check_has_direct_call(&prog, "find", "cmp_fn");
    assert!(
        function_named(&prog, "(cmp_fn)").is_none(),
        "the parentheses are not part of the name\n{dump}"
    );
}

#[test]
fn a_call_through_a_parenthesized_function_pointer_stays_indirect() {
    let src = r"
        void call_both(void) {
            void (*fp)(int);
            (*fp)(1);
            (fp)(1);
        }";
    let (prog, dump) = program_from_string(src);
    assert!(
        direct_calls_in(&prog, "call_both").is_empty(),
        "neither spelling is a direct call\n{dump}"
    );
    assert_eq!(
        dump.matches("funcptr-call").count(),
        2,
        "both spellings are indirect calls\n{dump}"
    );
}

#[test]
fn a_plain_direct_call_is_unchanged() {
    let src = r"
        void g(int x);
        void caller(int a) { g(a); }";
    let (prog, dump) = program_from_string(src);
    check_direct_call(&prog, "caller", "g", ["@p0"]);
    assert!(
        check_no_match(&dump, "funcptr-call"),
        "still direct\n{dump}"
    );
}

#[test]
fn a_local_that_shadows_a_type_name_is_called_not_cast() {
    let src = r"
        typedef int fp_t;
        void dispatch(int x) {
            void (*fp_t)(int);
            (fp_t)(x);
        }";
    let (prog, dump) = program_from_string(src);
    assert!(
        direct_calls_in(&prog, "dispatch").is_empty(),
        "the local shadows the typedef\n{dump}"
    );
    assert!(
        check_match(&dump, "funcptr-call"),
        "a shadowed type name is a call through the variable\n{dump}"
    );
}

#[test]
fn a_record_tag_is_not_a_type_name() {
    let src = r"
        struct stat { int mode; };
        int stat(char *path, struct stat *buf);
        int probe(char *path, struct stat *buf) { return (stat)(path, buf); }";
    let (prog, dump) = program_from_string(src);
    check_has_direct_call(&prog, "probe", "stat");
    assert!(
        function_named(&prog, "(stat)").is_none(),
        "the parentheses are not part of the name\n{dump}"
    );
}

#[test]
fn a_global_function_pointer_callee_is_not_a_cast() {
    let src = r"
        void (*hook)(int);
        void fire(int x) { (hook)(x); }";
    let (prog, dump) = program_from_string(src);
    check_has_direct_call(&prog, "fire", "hook");
    assert!(
        function_named(&prog, "(hook)").is_none(),
        "the parentheses are not part of the name\n{dump}"
    );
}

#[test]
fn a_statement_expression_callee_is_an_indirect_call() {
    let src = r"
        void target(int x);
        void fire(int x) { ({ target; })(x); }";
    let (prog, dump) = program_from_string(src);
    assert!(
        direct_calls_in(&prog, "fire").is_empty(),
        "a statement expression names no function\n{dump}"
    );
    assert!(
        function_named(&prog, "({ target; })").is_none(),
        "no function is invented for the braces' source text\n{dump}"
    );
    check_loads(&prog, "$globals.target");
    let callee = local_render(&prog, "fire", "<t1>");
    assert!(
        check_match(&dump, &format!("funcptr-call {callee} ")),
        "the callee is the statement expression's loaded value\n{dump}"
    );
}

#[test]
fn a_cast_shaped_call_with_no_evidence_is_reported_and_stays_a_call() {
    let src = r"
        int g(int x) { return (zzz)(x); }";
    let reports = reports_for(src);
    assert_eq!(
        reports.len(),
        1,
        "one report for one undecidable callee, got {reports:?}"
    );
    let (attribution, msg) = &reports[0];
    assert_eq!(*attribution, "frontend gap", "wrong attribution: {msg}");
    assert!(
        msg.contains("(zzz)(x)") && msg.contains("cast"),
        "unexpected message: {msg}"
    );
    let (prog, dump) = program_from_string(src);
    let calls = direct_calls_in(&prog, "g");
    assert_eq!(
        calls.len(),
        1,
        "the shape is lowered as a call, as before\n{dump}"
    );
    assert_eq!(calls[0].0, vec!["zzz".to_string()], "{dump}");
    assert!(
        parse_c_program(src, true).is_err(),
        "strict mode must refuse a callee it cannot tell from a cast"
    );
}

#[test]
fn a_cast_of_nothing_is_a_source_problem_and_stays_a_call() {
    let src = r"
        typedef unsigned short T;
        int f(void) { return (T)(); }";
    let reports = reports_for(src);
    assert_eq!(
        reports.len(),
        1,
        "one report for one cast of nothing, got {reports:?}"
    );
    let (attribution, msg) = &reports[0];
    assert_eq!(*attribution, "source problem", "wrong attribution: {msg}");
    assert!(
        msg.contains("(T)()") && msg.contains("casts nothing"),
        "unexpected message: {msg}"
    );
    let (prog, dump) = program_from_string(src);
    let calls = direct_calls_in(&prog, "f");
    assert_eq!(calls.len(), 1, "still a call\n{dump}");
    assert_eq!(calls[0].0, vec!["T".to_string()], "{dump}");
    assert!(
        parse_c_program(src, true).is_err(),
        "strict mode must refuse a cast of nothing"
    );
}

#[test]
fn a_prototype_makes_a_parenthesized_call_a_call() {
    let src = r"
        void free(void *p);
        void *xmalloc(int n);
        void *f(void *p, int n) { (free)(p); return (xmalloc)(n); }";
    let prog = parse_c_program(src, true).expect("a prototype is evidence enough: no report").program;
    let dump = rendered(&prog);
    let callees: Vec<String> = direct_calls_in(&prog, "f")
        .into_iter()
        .flat_map(|(edges, _)| edges)
        .collect();
    assert_eq!(
        callees,
        vec!["free".to_string(), "xmalloc".to_string()],
        "{dump}"
    );
}

#[test]
fn a_call_through_a_field_of_a_global_is_indirect() {
    let src = r"
        struct ops { void (*f)(int); };
        struct ops g;
        void fire(int x) { g.f(x); }";
    let (prog, dump) = program_from_string(src);
    assert!(
        direct_calls_in(&prog, "fire").is_empty(),
        "a field is not a name\n{dump}"
    );
    assert!(
        function_named(&prog, "g.f").is_none(),
        "no function is invented for the callee's source text\n{dump}"
    );
    check_loads(&prog, "$globals.g");
    check_loads(&prog, "<t1>.f");
    let callee = local_render(&prog, "fire", "<t2>");
    assert!(
        check_match(&dump, &format!("funcptr-call {callee} ")),
        "the callee is the loaded field\n{dump}"
    );
}

#[test]
fn a_call_through_a_field_of_a_global_pointer_is_indirect() {
    let src = r"
        struct ops { void (*f)(int); };
        struct ops *gp;
        void fire(int x) { gp->f(x); }";
    let (prog, dump) = program_from_string(src);
    assert!(
        direct_calls_in(&prog, "fire").is_empty(),
        "a field is not a name\n{dump}"
    );
    assert!(
        function_named(&prog, "gp->f").is_none(),
        "no function is invented for the callee's source text\n{dump}"
    );
    check_loads(&prog, "$globals.gp");
    check_loads(&prog, "<t1>.f");
    let callee = local_render(&prog, "fire", "<t2>");
    assert!(
        check_match(&dump, &format!("funcptr-call {callee} ")),
        "the callee is the loaded field\n{dump}"
    );
}

#[test]
fn a_call_through_a_field_of_a_global_array_element_is_indirect() {
    let src = r"
        struct ops { void (*f)(int); };
        struct ops ga[4];
        void fire(int i, int x) { ga[i].f(x); }";
    let (prog, dump) = program_from_string(src);
    assert!(
        direct_calls_in(&prog, "fire").is_empty(),
        "an element's field is not a name\n{dump}"
    );
    assert!(
        function_named(&prog, "ga[i].f").is_none(),
        "no function is invented for the callee's source text\n{dump}"
    );
    check_loads(&prog, "$globals.ga");
    check_loads(&prog, "<t1>.deref");
    check_loads(&prog, "<t2>.f");
    let callee = local_render(&prog, "fire", "<t3>");
    assert!(
        check_match(&dump, &format!("funcptr-call {callee} ")),
        "the callee is the loaded field\n{dump}"
    );
}

#[test]
fn a_call_through_a_field_of_a_local_or_parameter_is_unchanged() {
    let src = r"
        struct ops { void (*f)(int); };
        void via_local(int x) { struct ops s; s.f(x); }
        void via_param(struct ops *p, int x) { p->f(x); }
        void via_param_elem(struct ops *a, int i, int x) { a[i].f(x); }";
    let (prog, dump) = program_from_string(src);
    for f in ["via_local", "via_param", "via_param_elem"] {
        assert!(
            direct_calls_in(&prog, f).is_empty(),
            "{f}: still indirect\n{dump}"
        );
    }
    assert_eq!(
        dump.matches("funcptr-call").count(),
        3,
        "one indirect call each\n{dump}"
    );
}

#[test]
fn a_bare_global_callee_is_still_a_name() {
    let src = r"
        void (*hook)(int);
        void plain(int x);
        void fire(int x) { hook(x); plain(x); }";
    let (prog, dump) = program_from_string(src);
    check_has_direct_call(&prog, "fire", "hook");
    check_has_direct_call(&prog, "fire", "plain");
    assert!(
        check_no_match(&dump, "funcptr-call"),
        "a bare global name is still a direct call\n{dump}"
    );
}

#[test]
fn taint_crosses_a_call_through_a_field_of_a_global() {
    let src = r"
        int id(int p) { return p; }
        struct Ops { int (*f)(int); };
        struct Ops g;
        int wrap(int a, int b) {
            g.f = id;
            return g.f(b);
        }";
    let (summary, _si) = get_summary(program_from_string(src).0).unwrap();
    check_returns_param(&summary, 1, "");
}

#[test]
fn an_argument_of_a_call_through_a_global_field_reaches_the_callee_parameter() {
    let src = r"
        int taken;
        void store_it(int p) { taken = p; }
        struct Ops { void (*f)(int); };
        struct Ops g;
        void wrap(int a, int b) {
            g.f = store_it;
            g.f(b);
        }";
    let (summary, si) = get_summary(program_from_string(src).0).unwrap();
    check_param_into_global_in(&summary, &si, "wrap", 1, ".taken");
    check_no_flow_in(
        &summary,
        &si,
        "wrap",
        0,
        "",
        GLOBALS_INDEX,
        ".taken",
    );
}

#[test]
fn a_static_call_style_expansion_is_an_indirect_call() {
    let src = r"
        void __real_fn(void);
        void __tramp_fn(void);
        void fire(void) {
            ({ static void *__unique_id_addressable_134 =
                   (void *)&__real_fn;; (&__tramp_fn); })();
        }";
    let (prog, dump) = program_from_string(src);
    assert!(
        direct_calls_in(&prog, "fire").is_empty(),
        "the braces name no function\n{dump}"
    );
    assert!(
        prog.functions
            .iter()
            .all(|f| !f.name.starts_with("({")),
        "no function is invented for the braces' source text\n{dump}"
    );
    check_loads(&prog, "$globals.__tramp_fn");
    assert!(check_match(&dump, "funcptr-call"), "{dump}");
}

#[test]
fn a_statement_expression_callee_lowers_the_braces_effects() {
    let src = r"
        void (*hook)(int);
        int f(int a) { int o = 0; ({ o = a; hook; })(1); return o; }";
    let (s, _si) = get_summary(program_from_string(src).0).unwrap();
    check_returns_param(&s, 0, "");
}

#[test]
fn taint_crosses_a_statement_expression_callee() {
    let src = r"
        int id(int p) { return p; }
        int (*g)(int);
        int wrap(int b) {
            g = id;
            return ({ g; })(b);
        }";
    let (summary, si) = get_summary(program_from_string(src).0).unwrap();
    check_returns_param_in(&summary, &si, "wrap", 0, "");
}

#[test]
fn an_argument_of_a_statement_expression_callee_reaches_the_callee_parameter() {
    let src = r"
        int taken;
        void store_it(int p) { taken = p; }
        void (*g)(int);
        void wrap(int a, int b) {
            g = store_it;
            ({ g; })(b);
        }";
    let (summary, si) = get_summary(program_from_string(src).0).unwrap();
    check_param_into_global_in(&summary, &si, "wrap", 1, ".taken");
    check_no_flow_in(
        &summary,
        &si,
        "wrap",
        0,
        "",
        GLOBALS_INDEX,
        ".taken",
    );
}

#[test]
fn a_static_call_trampoline_carries_no_flow_within_one_unit() {
    let src = r"
        int taken;
        void __tramp_f(int);
        void fire(int x) { ({ (&__tramp_f); })(x); }";
    let (summary, si) = get_summary(program_from_string(src).0).unwrap();
    check_no_flow_in(
        &summary,
        &si,
        "fire",
        0,
        "",
        GLOBALS_INDEX,
        ".taken",
    );
}

#[test]
fn the_other_statement_expression_positions_and_the_call_shapes_are_unchanged() {
    let src = r"
        typedef unsigned short width_t;
        struct S { int f; };
        void (*hook)(int);
        int plain(int x);
        int f(struct S *a, int x) {
            int v = ({ int t = x; t; });     // value position: unchanged
            ({ int t = 0; &a[1]; })->f = v;  // lvalue position: unchanged
            ({ hook; })(v);                  // callee position: the case under test
            return plain((width_t)(x));      // a direct call and a cast: unchanged
        }";
    let (prog, dump) = program_from_string(src);
    let direct: Vec<String> = direct_calls_in(&prog, "f")
        .into_iter()
        .flat_map(|(names, _)| names)
        .collect();
    assert_eq!(direct, vec!["plain".to_string()], "{dump}");
    assert_eq!(
        dump.matches("funcptr-call").count(),
        1,
        "only the callee-position statement expression is indirect\n{dump}"
    );
    let (s, si) = get_summary(prog).unwrap();
    check_flow_in(&s, &si, "f", 1, "", 0, ".[1].deref.f");
}

#[test]
fn func_ptr_simplest() {
    let src = r#"
                    #include <stdio.h>

                    int main() {
                        int (*X)(const char *, ...) = printf;
                        X("Hello, %s!\n", "world");
                        return 0;
                    }
                    "#;

    let (_, dump) = program_from_string(src);
    assert!(check_match(&dump, "funcptr-call"));
}

#[test]
fn func_params() {
    let src = r#"
    void function_param(void (*callback)(char*)) {
        return callback("I once had a dog name foo, he was a great boy");
    }

"#;

    let (_, dump) = program_from_string(src);
    assert!(check_match(&dump, "@p0 <indirect-call"));
}

#[test]
fn indirect_call1() {
    let src = r#"
    #include <stdio.h>

// 1. The callback now expects a string
void say_hello(char* name) {
    printf("Hello, %s! (from inside the callback)\n", name);
}

// 2. The wrapper now takes the function pointer AND the data to pass to it
void execute_callback(void (*callback)(char*), char* name_to_pass) {
    printf("Wrapper: Preparing to call the function...\n");

    // 3. Assigning the callback to a local variable
    // Note how the (char*) signature must match exactly
    void (*local_ptr)(char*) = callback;

    // 4. Execute the local pointer with the argument
    local_ptr(name_to_pass);
}

int main() {
    execute_callback(say_hello, "Gemini");
    return 0;
}
 
"#;

    let (_, dump) = program_from_string(src);
}

#[test]
fn shadowing() {
    let src = r#"
        int x;
        int z;
        void param_shadow_global(int x){
            x = 5;
        }

        void local_shadow_global(int y){
            z = 3;
            z->nn = 3;
            x = z.nn;
            x = 4; 
            y = x;
            int z = 10;
            int x; //assignments have double_declarators, declarations don't
            y = x;
            x = 7;
            
        }

        void local_shadow_param(int y){
            int y = 4;
}
        "#;
    let (_, dump) = program_from_string(src);
}

#[test]
fn simple_for() {
    let src = r"
             int simple_for(int x, int *y) {
                int x;
                for (int a = 0, x = 9; a < 10; a++,x++,y++){
                int b = a;    
                }
                return 0;
            }            
        ";
    let (_, dump) = program_from_string(src);

}

#[test]
fn no_child_while() {
    let src = r"
    // man I hope y is never 5!
            int no_child_while(int y) {
                int x = 5;
                while(x == 5);                    
                return x;
            }            
        ";
    let (_program, dump) = program_from_string(src);
}

#[test]
fn params_and_simple_assign_in_example_2() {
    let src = r#"
        int d;
        int foo(int c, int b) {
          int a;
          a = b;
          a = d;
          return a;
        }
        "#;
    let (program, dump) = program_from_string(src);

    let a = local_render(&program, "foo", "a");
    assert!(check_match(&dump, &format!("return {a}")), "has return a");
    assert!(
        check_match(&dump, &format!("assign {a} = @p1")),
        "has the simplest assign, a=b"
    );
    assert!(
        check_match(&dump, "load $globals.d"),
        "has 2nd simple a=d"
    );
}

#[test]
fn indirect_call_1() {
    let src = r#"
        #include <stdio.h>

        // Two target functions with the same signature
        int add(int a, int b) { return a + b; }
        int sub(int a, int b) { return a - b; }

        int doit(int a) {
            // 1. Declare a function pointer and point it at a target
            //    (could be based on user input, making it tainted!)
            int (*op_func)(int, int) = add;

            // 2. The Indirect Call
            int result = op_func(a, 3);

            // 3. Legacy syntax
            result = (*op_func)(result, a);
            
            printf("Result: %d\n", result);
            return 0;
        }"#;

    let (program, dump) = program_from_string(src);

    get_summary(program).unwrap();

    assert!(check_match(&dump, "indirect-call"));
}

#[test]
fn block_without_return() {
    let src = r"
        void bar(){
            int x = 5;            
        }
        ";
    let (program, dump) = program_from_string(src);
    let x = local_render(&program, "bar", "x");

    get_summary(program).unwrap();

    assert!(check_match(&dump, &format!("assign {x}")));
}
