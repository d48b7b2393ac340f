use movecheck::def::{
    evaluate, ExprDescriptor, ExprResult, Function, Inst, TranslationUnit, TranslationUnitSet,
    Variable,
};
use movecheck::error::CheckError;
use movecheck::table::NameMap;
use movecheck::verify::{eval, process, process_inst, verify, verify_function, Flow, State};

fn borrowed() -> Variable {
    Variable { mutable: true, ownership: false, indirection: 0 }
}

fn owner() -> Variable {
    Variable { mutable: true, ownership: true, indirection: 1 }
}

fn var(name: &str) -> ExprDescriptor {
    ExprDescriptor::LocalVariable(name.to_string())
}

fn call(name: &str, args: Vec<ExprDescriptor>) -> ExprDescriptor {
    ExprDescriptor::FunctionCall(name.to_string(), args)
}

fn decl(name: &str) -> Inst {
    Inst::VarDecl(0, name.to_string(), Variable { mutable: false, ownership: false, indirection: 0 })
}

fn assign(target: &str, rhs: ExprDescriptor) -> Inst {
    Inst::Assign(0, target.to_string(), rhs)
}

fn function(name: &str, param: Vec<(&str, Variable)>, ret_val: Option<Variable>, inst: Vec<Inst>) -> TranslationUnitSet {
    TranslationUnitSet::Function(Function {
        name: name.to_string(),
        param: param.into_iter().map(|(n, v)| (n.to_string(), v)).collect(),
        ret_val,
        inst,
    })
}

fn unit(sub_unit: Vec<TranslationUnitSet>) -> TranslationUnit {
    TranslationUnit { sub_unit }
}

#[test]
fn assignment_from_a_borrowed_parameter_is_accepted() {
    let tl = unit(vec![function(
        "f",
        vec![("x", borrowed())],
        None,
        vec![decl("y"), assign("y", var("x"))],
    )]);
    assert_eq!(verify(&tl), Ok(()));
}

#[test]
fn assignment_into_an_owning_parameter_is_rejected() {
    let tl = unit(vec![function(
        "f",
        vec![("p", owner())],
        None,
        vec![decl("other"), assign("p", var("other"))],
    )]);
    assert_eq!(verify(&tl), Err(CheckError::OwnershipViolation));
}

#[test]
fn local_of_a_then_only_branch_is_not_visible_afterwards() {
    let branch = Inst::If(7, vec![decl("c"), Inst::InstSet(0, vec![decl("z")])]);
    let tl = unit(vec![function("f", vec![], None, vec![branch, Inst::Eval(0, var("z"))])]);
    assert_eq!(verify(&tl), Err(CheckError::UnknownSymbol));
}

#[test]
fn violation_in_a_then_only_branch_does_not_reach_the_continuation() {
    let branch = Inst::If(3, vec![decl("c"), Inst::InstSet(0, vec![assign("p", var("q"))])]);
    let tl = unit(vec![function(
        "f",
        vec![("p", owner()), ("q", borrowed())],
        None,
        vec![branch, Inst::Eval(0, var("p"))],
    )]);
    assert_eq!(verify(&tl), Ok(()));
}

#[test]
fn then_only_branch_leaves_the_bindings_as_they_were() {
    let mut state = State::new();
    state.variables.insert("p".to_string(), owner());
    let branch = Inst::If(3, vec![decl("c"), Inst::InstSet(0, vec![decl("p"), decl("fresh")])]);
    assert_eq!(process_inst(&mut state, &branch), Ok(Flow::Continue));
    assert_eq!(state.variables.get(&"p".to_string()), Some(owner()));
    assert_eq!(state.variables.get(&"fresh".to_string()), None);
}

#[test]
fn failure_in_either_body_is_the_failure_of_the_conditional() {
    let violating = Inst::InstSet(0, vec![assign("p", var("q"))]);
    let harmless = Inst::InstSet(0, vec![decl("t")]);
    let check = |branch: Inst, after: Vec<Inst>| {
        let mut body = vec![branch];
        body.extend(after);
        verify(&unit(vec![function("f", vec![("p", owner()), ("q", borrowed())], None, body)]))
    };

    let then_violates = Inst::If(1, vec![decl("c"), violating.clone(), harmless.clone()]);
    assert_eq!(check(then_violates, vec![]), Err(CheckError::OwnershipViolation));

    let else_violates = Inst::If(1, vec![decl("c"), harmless.clone(), violating.clone()]);
    assert_eq!(check(else_violates, vec![Inst::Eval(0, var("t"))]), Err(CheckError::OwnershipViolation));

    let else_alone = Inst::If(1, vec![decl("c"), Inst::InstSet(0, vec![]), violating.clone()]);
    assert_eq!(check(else_alone, vec![]), Err(CheckError::OwnershipViolation));

    let neither = Inst::If(1, vec![decl("c"), harmless.clone(), Inst::InstSet(0, vec![])]);
    assert_eq!(check(neither, vec![Inst::Eval(0, var("t"))]), Ok(()));

    let then_first = Inst::If(
        1,
        vec![decl("c"), Inst::InstSet(0, vec![Inst::Eval(0, var("nowhere"))]), violating.clone()],
    );
    assert_eq!(check(then_first, vec![]), Err(CheckError::UnknownSymbol));

    let returns_then_violates = Inst::If(
        1,
        vec![decl("c"), Inst::InstSet(0, vec![Inst::ReturnStmt(0, String::new())]), violating],
    );
    assert_eq!(check(returns_then_violates, vec![]), Err(CheckError::OwnershipViolation));
}

#[test]
fn else_body_does_not_see_what_the_then_body_bound() {
    let branch = Inst::If(
        1,
        vec![
            decl("c"),
            Inst::InstSet(0, vec![decl("fresh")]),
            Inst::InstSet(0, vec![Inst::Eval(0, var("fresh"))]),
        ],
    );
    let mut state = State::new();
    assert_eq!(process_inst(&mut state, &branch), Err(CheckError::UnknownSymbol));
    assert!(state.variables.contains_key(&"fresh".to_string()));
    assert_eq!(
        verify(&unit(vec![function("f", vec![], None, vec![branch])])),
        Err(CheckError::UnknownSymbol)
    );

    let redeclared = Inst::If(
        1,
        vec![
            decl("c"),
            Inst::InstSet(0, vec![decl("p")]),
            Inst::InstSet(0, vec![assign("p", var("q"))]),
        ],
    );
    let mut state = State::new();
    state.variables.insert("p".to_string(), owner());
    state.variables.insert("q".to_string(), borrowed());
    assert_eq!(process_inst(&mut state, &redeclared), Err(CheckError::OwnershipViolation));
}

#[test]
fn conditional_ends_as_its_then_body_does() {
    let mut state = State::new();
    let returning = Inst::If(
        1,
        vec![
            decl("c"),
            Inst::InstSet(0, vec![decl("t"), Inst::ReturnStmt(0, String::new())]),
            Inst::InstSet(0, vec![decl("e")]),
        ],
    );
    assert_eq!(process_inst(&mut state, &returning), Ok(Flow::Returned));
    assert!(state.variables.contains_key(&"t".to_string()));
    assert!(!state.variables.contains_key(&"e".to_string()));

    let mut state = State::new();
    let else_returns = Inst::If(
        1,
        vec![
            decl("c"),
            Inst::InstSet(0, vec![decl("t")]),
            Inst::InstSet(0, vec![Inst::ReturnStmt(0, String::new())]),
        ],
    );
    assert_eq!(process_inst(&mut state, &else_returns), Ok(Flow::Continue));
    assert!(state.variables.contains_key(&"t".to_string()));
}

#[test]
fn else_body_runs_on_its_own_copy() {
    let mut state = State::new();
    state.variables.insert("p".to_string(), borrowed());
    let branch = Inst::If(
        1,
        vec![
            decl("c"),
            Inst::InstSet(0, vec![Inst::VarDecl(0, "t".to_string(), owner())]),
            Inst::InstSet(0, vec![Inst::VarDecl(0, "e".to_string(), owner())]),
        ],
    );
    assert_eq!(process_inst(&mut state, &branch), Ok(Flow::Continue));
    assert_eq!(state.variables.get(&"t".to_string()), Some(owner()));
    assert_eq!(state.variables.get(&"e".to_string()), None);
}

#[test]
fn return_in_the_then_body_of_two_ends_the_function() {
    let branch = Inst::If(
        1,
        vec![
            decl("c"),
            Inst::InstSet(0, vec![Inst::ReturnStmt(0, String::new())]),
            Inst::InstSet(0, vec![]),
        ],
    );
    let tl = unit(vec![function(
        "f",
        vec![("p", owner()), ("q", borrowed())],
        None,
        vec![branch, assign("p", var("q"))],
    )]);
    assert_eq!(verify(&tl), Ok(()));
}

#[test]
fn return_ends_the_body_early() {
    let tl = unit(vec![function(
        "f",
        vec![("p", owner()), ("q", borrowed())],
        None,
        vec![
            Inst::InstSet(0, vec![Inst::ReturnStmt(0, String::new())]),
            assign("p", var("q")),
        ],
    )]);
    assert_eq!(verify(&tl), Ok(()));
}

#[test]
fn process_reports_how_a_run_ended() {
    let mut state = State::new();
    assert_eq!(process(&mut state, &vec![decl("a")]), Ok(Flow::Continue));
    assert_eq!(
        process(&mut state, &vec![Inst::ReturnStmt(0, String::new()), decl("b")]),
        Ok(Flow::Returned)
    );
    assert_eq!(state.variables.get(&"a".to_string()), Some(Variable { mutable: false, ownership: false, indirection: 0 }));
    assert_eq!(state.variables.get(&"b".to_string()), None);
}

#[test]
fn unknown_symbol_is_a_failure() {
    let tl = unit(vec![function("f", vec![], None, vec![Inst::Eval(0, var("nowhere"))])]);
    assert_eq!(verify(&tl), Err(CheckError::UnknownSymbol));
}

#[test]
fn unknown_function_is_a_failure() {
    let tl = unit(vec![function("f", vec![], None, vec![Inst::Eval(0, call("g", vec![]))])]);
    assert_eq!(verify(&tl), Err(CheckError::UnknownFunction));
}

#[test]
fn arguments_are_evaluated_before_the_callee_is_looked_up() {
    let tl = unit(vec![function(
        "f",
        vec![],
        None,
        vec![Inst::Eval(0, call("g", vec![var("nowhere")]))],
    )]);
    assert_eq!(verify(&tl), Err(CheckError::UnknownSymbol));
}

#[test]
fn first_failing_argument_is_the_failure_of_the_call() {
    let mut state = State::new();
    state.variables.insert("a".to_string(), borrowed());
    let e = call("g", vec![var("a"), call("h", vec![]), var("nowhere")]);
    assert_eq!(eval(&state, &e), Err(CheckError::UnknownFunction));
}

#[test]
fn forward_reference_to_a_function_is_rejected() {
    let caller = function("f", vec![], None, vec![Inst::Eval(0, call("g", vec![]))]);
    let callee = function("g", vec![], None, vec![]);
    assert_eq!(verify(&unit(vec![caller, callee])), Err(CheckError::UnknownFunction));
    let caller = function("f", vec![], None, vec![Inst::Eval(0, call("g", vec![]))]);
    let callee = function("g", vec![], None, vec![]);
    assert_eq!(verify(&unit(vec![callee, caller])), Ok(()));
}

#[test]
fn call_yields_the_return_descriptor_of_the_callee() {
    let make = function("make", vec![], Some(owner()), vec![]);
    let user = function(
        "user",
        vec![],
        None,
        vec![decl("a"), assign("a", call("make", vec![])), assign("a", call("make", vec![]))],
    );
    assert_eq!(verify(&unit(vec![make, user])), Err(CheckError::OwnershipViolation));

    let mut state = State::new();
    state.functions.insert("make".to_string(), Some(owner()));
    state.functions.insert("nothing".to_string(), None);
    assert_eq!(eval(&state, &call("make", vec![])), Ok(Some(owner())));
    assert_eq!(eval(&state, &call("nothing", vec![])), Ok(None));
}

#[test]
fn assignment_of_a_call_without_a_value_is_malformed() {
    let nothing = function("nothing", vec![], None, vec![]);
    let user = function("user", vec![], None, vec![decl("a"), assign("a", call("nothing", vec![]))]);
    assert_eq!(verify(&unit(vec![nothing, user])), Err(CheckError::MalformedInstruction));
}

#[test]
fn owner_is_checked_before_the_value_is_bound() {
    let nothing = function("nothing", vec![], None, vec![]);
    let user = function(
        "user",
        vec![("p", owner())],
        None,
        vec![assign("p", call("nothing", vec![]))],
    );
    assert_eq!(verify(&unit(vec![nothing, user])), Err(CheckError::OwnershipViolation));
}

#[test]
fn evaluation_of_the_right_side_comes_before_the_owner_check() {
    let user = function("user", vec![("p", owner())], None, vec![assign("p", var("nowhere"))]);
    assert_eq!(verify(&unit(vec![user])), Err(CheckError::UnknownSymbol));
}

#[test]
fn field_declaration_in_a_body_is_malformed() {
    let body = vec![Inst::FieldDecl(0, "x".to_string(), borrowed())];
    assert_eq!(verify(&unit(vec![function("f", vec![], None, body)])), Err(CheckError::MalformedInstruction));
}

#[test]
fn conditional_needs_two_or_three_instructions() {
    let mut state = State::new();
    assert_eq!(process_inst(&mut state, &Inst::If(1, vec![])), Err(CheckError::MalformedInstruction));
    assert_eq!(process_inst(&mut state, &Inst::If(1, vec![decl("c")])), Err(CheckError::MalformedInstruction));
    let four = vec![decl("a"), decl("b"), decl("c"), decl("d")];
    assert_eq!(process_inst(&mut state, &Inst::If(1, four)), Err(CheckError::MalformedInstruction));
}

#[test]
fn condition_of_a_conditional_is_not_evaluated() {
    let branch = Inst::If(1, vec![Inst::Eval(0, var("nowhere")), Inst::InstSet(0, vec![])]);
    assert_eq!(verify(&unit(vec![function("f", vec![], None, vec![branch])])), Ok(()));
    let branch = Inst::If(
        1,
        vec![Inst::Eval(0, var("nowhere")), Inst::InstSet(0, vec![]), Inst::InstSet(0, vec![])],
    );
    assert_eq!(verify(&unit(vec![function("f", vec![], None, vec![branch])])), Ok(()));
}

#[test]
fn redeclaration_in_a_nested_block_replaces_the_binding() {
    let inner = Inst::InstSet(0, vec![Inst::InstSet(0, vec![decl("p")])]);
    let tl = unit(vec![function(
        "f",
        vec![("p", owner()), ("q", borrowed())],
        None,
        vec![inner, assign("p", var("q"))],
    )]);
    assert_eq!(verify(&tl), Ok(()));

    let mut state = State::new();
    state.variables.insert("p".to_string(), owner());
    let inner = Inst::InstSet(0, vec![Inst::InstSet(0, vec![decl("p")])]);
    assert_eq!(process_inst(&mut state, &inner), Ok(Flow::Continue));
    assert_eq!(
        state.variables.get(&"p".to_string()),
        Some(Variable { mutable: false, ownership: false, indirection: 0 })
    );
}

#[test]
fn assignment_binds_what_the_right_side_yields() {
    let mut state = State::new();
    state.variables.insert("src".to_string(), owner());
    assert_eq!(process_inst(&mut state, &assign("dst", var("src"))), Ok(Flow::Continue));
    assert_eq!(state.variables.get(&"dst".to_string()), Some(owner()));
    assert_eq!(process_inst(&mut state, &assign("dst", var("src"))), Err(CheckError::OwnershipViolation));
}

#[test]
fn verdict_is_the_same_when_a_unit_is_checked_twice() {
    let accepted = unit(vec![function(
        "f",
        vec![("x", borrowed())],
        None,
        vec![decl("y"), assign("y", var("x"))],
    )]);
    assert_eq!(verify(&accepted), Ok(()));
    assert_eq!(verify(&accepted), Ok(()));
    let rejected = unit(vec![function(
        "f",
        vec![("p", owner()), ("q", borrowed())],
        None,
        vec![assign("p", var("q"))],
    )]);
    assert_eq!(verify(&rejected), Err(CheckError::OwnershipViolation));
    assert_eq!(verify(&rejected), Err(CheckError::OwnershipViolation));
}

#[test]
fn every_function_starts_from_its_parameters_alone() {
    let first = function("f", vec![("x", borrowed())], None, vec![decl("y")]);
    let second = function("g", vec![], None, vec![Inst::Eval(0, var("y"))]);
    assert_eq!(verify(&unit(vec![first, second])), Err(CheckError::UnknownSymbol));
    let first = function("f", vec![("x", borrowed())], None, vec![decl("y")]);
    let second = function("g", vec![], None, vec![Inst::Eval(0, var("x"))]);
    assert_eq!(verify(&unit(vec![first, second])), Err(CheckError::UnknownSymbol));
}

#[test]
fn first_failure_is_the_verdict_of_the_unit() {
    let bad = function("f", vec![], None, vec![Inst::Eval(0, var("nowhere"))]);
    let worse = function("g", vec![("p", owner())], None, vec![assign("p", var("p"))]);
    assert_eq!(verify(&unit(vec![bad, worse])), Err(CheckError::UnknownSymbol));
    assert_eq!(verify(&unit(vec![])), Ok(()));
}

#[test]
fn later_parameter_of_the_same_name_wins() {
    let tl = unit(vec![function(
        "f",
        vec![("p", owner()), ("p", borrowed()), ("q", borrowed())],
        None,
        vec![assign("p", var("q"))],
    )]);
    assert_eq!(verify(&tl), Ok(()));
}

#[test]
fn failed_function_does_not_enter_the_catalog() {
    let mut state = State::new();
    let bad = Function {
        name: "f".to_string(),
        param: vec![],
        ret_val: Some(owner()),
        inst: vec![Inst::Eval(0, var("nowhere"))],
    };
    assert_eq!(verify_function(&mut state, &bad), Err(CheckError::UnknownSymbol));
    assert_eq!(state.functions.get(&"f".to_string()), None);
    let good = Function { name: "f".to_string(), param: vec![], ret_val: Some(owner()), inst: vec![] };
    assert_eq!(verify_function(&mut state, &good), Ok(()));
    assert_eq!(state.functions.get(&"f".to_string()), Some(Some(owner())));
}

#[test]
fn name_map_keeps_the_last_binding_of_a_name() {
    let mut map: NameMap<u32> = NameMap::new();
    assert_eq!(map.get(&"a".to_string()), None);
    assert!(!map.contains_key(&"a".to_string()));
    map.insert("a".to_string(), 1);
    map.insert("b".to_string(), 2);
    map.insert("a".to_string(), 3);
    assert_eq!(map.get(&"a".to_string()), Some(3));
    assert_eq!(map.get(&"b".to_string()), Some(2));
    assert!(map.contains_key(&"b".to_string()));
}

#[test]
fn copy_of_a_name_map_is_independent() {
    let mut map: NameMap<u32> = NameMap::new();
    map.insert("a".to_string(), 1);
    let mut copy = map.clone();
    copy.insert("a".to_string(), 5);
    copy.insert("c".to_string(), 7);
    assert_eq!(map.get(&"a".to_string()), Some(1));
    assert_eq!(map.get(&"c".to_string()), None);
    assert_eq!(copy.get(&"a".to_string()), Some(5));
    let snapshot = {
        let mut state = State::new();
        state.variables.insert("v".to_string(), owner());
        let s = state.snapshot();
        state.variables.insert("v".to_string(), borrowed());
        s
    };
    assert_eq!(snapshot.variables.get(&"v".to_string()), Some(owner()));
}

#[test]
fn expression_stands_for_a_name_or_for_a_temporary() {
    match evaluate(&var("x")) {
        ExprResult::DeclaredVariable(name) => assert_eq!(name, "x"),
        ExprResult::TemporaryVariable(_) => panic!("a variable stands for itself"),
    }
    match evaluate(&call("f", vec![var("x")])) {
        ExprResult::TemporaryVariable(owns) => assert!(owns),
        ExprResult::DeclaredVariable(_) => panic!("a call stands for a temporary"),
    }
}

#[test]
fn copies_of_instructions_hold_the_same() {
    let inst = Inst::If(
        4,
        vec![decl("c"), Inst::InstSet(0, vec![assign("a", call("f", vec![var("b"), call("g", vec![])]))])],
    );
    assert_eq!(format!("{:?}", inst.clone()), format!("{:?}", inst));
    let f = Function {
        name: "f".to_string(),
        param: vec![("p".to_string(), owner())],
        ret_val: Some(borrowed()),
        inst: vec![inst],
    };
    assert_eq!(format!("{:?}", f.clone()), format!("{:?}", f));
}

#[test]
fn rejected_assignment_leaves_the_bindings_as_they_were() {
    let mut state = State::new();
    let q = Variable { mutable: true, ownership: false, indirection: 1 };
    state.variables.insert("p".to_string(), owner());
    state.variables.insert("q".to_string(), q);
    assert_eq!(process_inst(&mut state, &assign("p", var("q"))), Err(CheckError::OwnershipViolation));
    assert_eq!(state.variables.get(&"p".to_string()), Some(owner()));
    assert_eq!(state.variables.get(&"q".to_string()), Some(q));
    assert_eq!(process_inst(&mut state, &assign("q", var("nowhere"))), Err(CheckError::UnknownSymbol));
    assert_eq!(state.variables.get(&"q".to_string()), Some(q));
    assert_eq!(process_inst(&mut state, &Inst::Eval(0, call("g", vec![]))), Err(CheckError::UnknownFunction));
    assert_eq!(state.variables.get(&"p".to_string()), Some(owner()));
}

#[test]
fn failed_run_ends_in_the_bindings_it_had_reached() {
    let first = vec![decl("a"), Inst::InstSet(0, vec![Inst::VarDecl(0, "b".to_string(), owner())])];
    let second = vec![decl("c"), assign("b", var("a")), decl("d")];
    let mut joined = State::new();
    let mut list = first.clone();
    list.extend(second.clone());
    let joined_result = process(&mut joined, &list);

    let mut stepwise = State::new();
    assert_eq!(process(&mut stepwise, &first), Ok(Flow::Continue));
    let stepwise_result = process(&mut stepwise, &second);

    assert_eq!(joined_result, Err(CheckError::OwnershipViolation));
    assert_eq!(joined_result, stepwise_result);
    for name in ["a", "b", "c", "d"] {
        assert_eq!(joined.variables.get(&name.to_string()), stepwise.variables.get(&name.to_string()));
    }
    assert_eq!(joined.variables.get(&"b".to_string()), Some(owner()));
    assert!(joined.variables.contains_key(&"c".to_string()));
    assert!(!joined.variables.contains_key(&"d".to_string()));
}
