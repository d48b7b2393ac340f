//! The ownership checker: instructions are interpreted against a flat map
//! from names to descriptors, and a binding that still owns a resource must
//! not be assigned to.

use vstd::prelude::*;
use crate::def::{ExprDescriptor, ExprModel, Function, FunctionModel, Inst, InstModel, TranslationUnit, TranslationUnitSet, Variable, expr_views, inst_views, lemma_call_view, lemma_list_view};
use crate::error::CheckError;
use crate::table::NameMap;

verus! {

/// How a run of instructions ended.
#[derive(Debug, Clone, Copy, PartialEq, Eq, Structural)]
pub enum Flow {
    /// The last instruction was executed.
    Continue,
    /// A return statement ended the run early.
    Returned,
}

/// The bindings of the function that is being checked. There is one level
/// only: a declaration in a nested block replaces an outer binding of the
/// same name for the rest of the function.
pub type Env = Map<Seq<char>, Variable>;

/// The functions checked so far, each with its return descriptor.
pub type Catalog = Map<Seq<char>, Option<Variable>>;

/// What the checker knows while it runs.
pub struct State {
    pub variables: NameMap<Variable>,
    pub functions: NameMap<Option<Variable>>,
}

/// The descriptor that an expression yields, `None` for a call of a
/// function that returns nothing. The arguments of a call are evaluated
/// left to right before the callee is looked up, and the first failure is
/// the failure of the call.
pub open spec fn eval_expr(env: Env, cat: Catalog, e: ExprModel) -> Result<
    Option<Variable>,
    CheckError,
>
    decreases e, 0nat,
{
    match e {
        ExprModel::LocalVariable(name) => if env.contains_key(name) {
            Ok(Some(env[name]))
        } else {
            Err(CheckError::UnknownSymbol)
        },
        ExprModel::FunctionCall(callee, args) => match eval_args(env, cat, args) {
            Err(err) => Err(err),
            Ok(_) => if cat.contains_key(callee) {
                Ok(cat[callee])
            } else {
                Err(CheckError::UnknownFunction)
            },
        },
    }
}

/// The first failure among the arguments of a call, left to right.
pub open spec fn eval_args(env: Env, cat: Catalog, args: Seq<ExprModel>) -> Result<(), CheckError>
    decreases args, 1nat,
{
    if args.len() == 0 {
        Ok(())
    } else {
        match eval_expr(env, cat, args[0]) {
            Err(err) => Err(err),
            Ok(_) => eval_args(env, cat, args.drop_first()),
        }
    }
}

/// Where a run of instructions ended: the bindings it had reached, and
/// whether it ran to its end, returned or failed.
pub struct Outcome {
    pub env: Env,
    pub end: Result<Flow, CheckError>,
}

/// What a conditional with two bodies comes to, given what each body comes
/// to from the bindings before the conditional. A failure in the then-body
/// is the failure of the conditional, and otherwise a failure in the
/// else-body is. Where neither fails the conditional ends as the then-body
/// does. The bindings are in every case those that the then-body left:
/// nothing that the else-body binds is kept.
pub open spec fn both_bodies(then_body: Outcome, else_body: Outcome) -> Outcome {
    if then_body.end is Err {
        then_body
    } else if else_body.end is Err {
        Outcome { env: then_body.env, end: else_body.end }
    } else {
        then_body
    }
}

/// The effect of one instruction on the bindings. An instruction that
/// fails leaves the bindings as they were.
///
/// A declaration binds its name, whatever the name was bound to. An
/// assignment evaluates its right side, fails if its target is bound and
/// owns, and binds the target to what the right side yielded. An evaluation
/// evaluates and binds nothing. A block runs its instructions in order. A
/// return ends the run.
///
/// A conditional holds what stands for its condition, which is never
/// evaluated, and one body or two. With one body the bindings stay as they
/// are: the body is explored apart, and neither what it binds nor a failure
/// in it is seen from outside. With two bodies each body runs from the
/// bindings before the conditional, and a failure in either is the failure
/// of the conditional, that of the then-body first. Where neither fails,
/// the conditional ends as its then-body does, in the bindings that the
/// then-body left, and nothing of what the else-body bound is kept.
pub open spec fn exec_inst(env: Env, cat: Catalog, inst: InstModel) -> Outcome
    decreases inst, 0nat,
{
    match inst {
        InstModel::InstSet(_, list) => exec_seq(env, cat, list),
        InstModel::ParamDecl(_, name, var) => Outcome {
            env: env.insert(name, var),
            end: Ok(Flow::Continue),
        },
        InstModel::VarDecl(_, name, var) => Outcome {
            env: env.insert(name, var),
            end: Ok(Flow::Continue),
        },
        InstModel::FieldDecl(_, _, _) => Outcome {
            env,
            end: Err(CheckError::MalformedInstruction),
        },
        InstModel::Assign(_, target, rhs) => match eval_expr(env, cat, rhs) {
            Err(err) => Outcome { env, end: Err(err) },
            Ok(value) => if env.contains_key(target) && env[target].ownership {
                Outcome { env, end: Err(CheckError::OwnershipViolation) }
            } else {
                match value {
                    Some(var) => Outcome { env: env.insert(target, var), end: Ok(Flow::Continue) },
                    None => Outcome { env, end: Err(CheckError::MalformedInstruction) },
                }
            },
        },
        InstModel::Eval(_, e) => match eval_expr(env, cat, e) {
            Err(err) => Outcome { env, end: Err(err) },
            Ok(_) => Outcome { env, end: Ok(Flow::Continue) },
        },
        InstModel::If(_, list) => if list.len() == 2 {
            Outcome { env, end: Ok(Flow::Continue) }
        } else if list.len() == 3 {
            both_bodies(exec_inst(env, cat, list[1]), exec_inst(env, cat, list[2]))
        } else {
            Outcome { env, end: Err(CheckError::MalformedInstruction) }
        },
        InstModel::ReturnStmt(_, _) => Outcome { env, end: Ok(Flow::Returned) },
    }
}

/// The effect of instructions in order. The first failure ends the run, and
/// so does the first return; the bindings are then those that the run had
/// reached.
pub open spec fn exec_seq(env: Env, cat: Catalog, list: Seq<InstModel>) -> Outcome
    decreases list, 1nat,
{
    if list.len() == 0 {
        Outcome { env, end: Ok(Flow::Continue) }
    } else {
        let first = exec_inst(env, cat, list[0]);
        if first.end == Ok::<Flow, CheckError>(Flow::Continue) {
            exec_seq(first.env, cat, list.drop_first())
        } else {
            first
        }
    }
}

/// What running one list after another comes to: the second runs from
/// where the first ended, unless the first failed or returned.
pub open spec fn then_run(first: Outcome, cat: Catalog, second: Seq<InstModel>) -> Outcome {
    if first.end == Ok::<Flow, CheckError>(Flow::Continue) {
        exec_seq(first.env, cat, second)
    } else {
        first
    }
}

/// The bindings that a function body starts from: the parameters, bound in
/// order.
pub open spec fn bind_params(env: Env, params: Seq<(Seq<char>, Variable)>) -> Env
    decreases params.len(),
{
    if params.len() == 0 {
        env
    } else {
        bind_params(env.insert(params[0].0, params[0].1), params.drop_first())
    }
}

/// The catalog after one function has been checked against `cat`: the
/// function is admitted under its name, with its return descriptor, if and
/// only if its body runs to its end or to a return without a failure.
pub open spec fn function_outcome(cat: Catalog, f: FunctionModel) -> Result<Catalog, CheckError> {
    match exec_seq(bind_params(Map::empty(), f.param), cat, f.inst).end {
        Err(err) => Err(err),
        Ok(_) => Ok(cat.insert(f.name, f.ret_val)),
    }
}

/// The catalog after the functions of a unit have been checked in order.
/// The first failure is the outcome of the unit.
pub open spec fn unit_outcome(cat: Catalog, functions: Seq<FunctionModel>) -> Result<
    Catalog,
    CheckError,
>
    decreases functions.len(),
{
    if functions.len() == 0 {
        Ok(cat)
    } else {
        match function_outcome(cat, functions[0]) {
            Err(err) => Err(err),
            Ok(next) => unit_outcome(next, functions.drop_first()),
        }
    }
}

impl State {
    /// No binding and no checked function.
    pub fn new() -> (res: Self)
        ensures
            res.variables@ == Map::<Seq<char>, Variable>::empty(),
            res.functions@ == Map::<Seq<char>, Option<Variable>>::empty(),
    {
        State { variables: NameMap::new(), functions: NameMap::new() }
    }

    /// An independent copy, for the exploration of one branch.
    pub fn snapshot(&self) -> (res: Self)
        ensures
            res.variables@ == self.variables@,
            res.functions@ == self.functions@,
    {
        State { variables: self.variables.clone(), functions: self.functions.clone() }
    }
}

/// Evaluates an expression against the bindings and the catalog.
pub fn eval(state: &State, expr: &ExprDescriptor) -> (res: Result<Option<Variable>, CheckError>)
    ensures
        res == eval_expr(state.variables@, state.functions@, expr@),
    decreases expr,
{
    match expr {
        ExprDescriptor::LocalVariable(name) => match state.variables.get(name) {
            Some(var) => Ok(Some(var)),
            None => Err(CheckError::UnknownSymbol),
        },
        ExprDescriptor::FunctionCall(callee, args) => {
            proof {
                lemma_call_view(*expr);
            }
            let ghost all = expr_views(args@);
            assert(all.skip(0) =~= all);
            let mut i: usize = 0;
            while i < args.len()
                invariant
                    i <= args.len(),
                    expr is FunctionCall && expr->FunctionCall_1 == *args,
                    expr@ == ExprModel::FunctionCall(callee@, all),
                    all == expr_views(args@),
                    eval_args(state.variables@, state.functions@, all) == eval_args(
                        state.variables@,
                        state.functions@,
                        all.skip(i as int),
                    ),
                decreases args.len() - i,
            {
                proof {
                    assert(all.skip(i as int).drop_first() =~= all.skip(i + 1));
                    assert(all.skip(i as int)[0] == args@[i as int]@);
                }
                match eval(state, &args[i]) {
                    Err(err) => {
                        return Err(err);
                    },
                    Ok(_) => {},
                }
                i += 1;
            }
            match state.functions.get(callee) {
                Some(ret) => Ok(ret),
                None => Err(CheckError::UnknownFunction),
            }
        },
    }
}

/// Executes one instruction. The then-body of a conditional without an
/// else-body is explored on a copy of the state, and nothing of what
/// happens there reaches the caller. Of a conditional with two bodies the
/// then-body runs on the state and the else-body on a copy taken before:
/// a failure in either is returned, and the bindings of the else-body are
/// dropped. An instruction that fails leaves the bindings as they were.
pub fn process_inst(state: &mut State, inst: &Inst) -> (res: Result<Flow, CheckError>)
    ensures
        final(state).functions@ == old(state).functions@,
        res == exec_inst(old(state).variables@, old(state).functions@, inst@).end,
        final(state).variables@ == exec_inst(
            old(state).variables@,
            old(state).functions@,
            inst@,
        ).env,
    decreases inst, 0nat,
{
    proof {
        lemma_list_view(*inst);
    }
    match inst {
        Inst::InstSet(_, list) => process(state, list),
        Inst::ParamDecl(_, name, var) => {
            state.variables.insert(name.clone(), *var);
            Ok(Flow::Continue)
        },
        Inst::VarDecl(_, name, var) => {
            state.variables.insert(name.clone(), *var);
            Ok(Flow::Continue)
        },
        Inst::FieldDecl(_, _, _) => Err(CheckError::MalformedInstruction),
        Inst::Assign(_, target, rhs) => {
            match eval(state, rhs) {
                Err(err) => Err(err),
                Ok(value) => {
                    let owned = match state.variables.get(target) {
                        Some(var) => var.ownership,
                        None => false,
                    };
                    if owned {
                        Err(CheckError::OwnershipViolation)
                    } else {
                        match value {
                            Some(var) => {
                                state.variables.insert(target.clone(), var);
                                Ok(Flow::Continue)
                            },
                            None => Err(CheckError::MalformedInstruction),
                        }
                    }
                },
            }
        },
        Inst::Eval(_, e) => {
            match eval(state, e) {
                Err(err) => Err(err),
                Ok(_) => Ok(Flow::Continue),
            }
        },
        Inst::If(_, list) => {
            if list.len() == 2 {
                let mut branch = state.snapshot();
                let _ = process_inst(&mut branch, &list[1]);
                Ok(Flow::Continue)
            } else if list.len() == 3 {
                let mut other = state.snapshot();
                match process_inst(state, &list[1]) {
                    Err(err) => Err(err),
                    Ok(flow) => match process_inst(&mut other, &list[2]) {
                        Err(err) => Err(err),
                        Ok(_) => Ok(flow),
                    },
                }
            } else {
                Err(CheckError::MalformedInstruction)
            }
        },
        Inst::ReturnStmt(_, _) => Ok(Flow::Returned),
    }
}

/// Executes instructions in order, up to the first failure or return. The
/// bindings are then those that the run had reached.
pub fn process(state: &mut State, inst_list: &Vec<Inst>) -> (res: Result<Flow, CheckError>)
    ensures
        final(state).functions@ == old(state).functions@,
        res == exec_seq(
            old(state).variables@,
            old(state).functions@,
            inst_views(inst_list@),
        ).end,
        final(state).variables@ == exec_seq(
            old(state).variables@,
            old(state).functions@,
            inst_views(inst_list@),
        ).env,
    decreases inst_list, 1nat,
{
    let ghost all = inst_views(inst_list@);
    let ghost cat = state.functions@;
    assert(all.skip(0) =~= all);
    let mut i: usize = 0;
    while i < inst_list.len()
        invariant
            i <= inst_list.len(),
            all == inst_views(inst_list@),
            state.functions@ == cat,
            cat == old(state).functions@,
            exec_seq(old(state).variables@, cat, all) == exec_seq(
                state.variables@,
                cat,
                all.skip(i as int),
            ),
        decreases inst_list.len() - i,
    {
        proof {
            assert(all.skip(i as int).drop_first() =~= all.skip(i + 1));
            assert(all.skip(i as int)[0] == inst_list@[i as int]@);
        }
        match process_inst(state, &inst_list[i]) {
            Err(err) => {
                return Err(err);
            },
            Ok(Flow::Returned) => {
                return Ok(Flow::Returned);
            },
            Ok(Flow::Continue) => {},
        }
        i += 1;
    }
    Ok(Flow::Continue)
}

/// Checks one function against the functions checked before it: the
/// bindings start afresh with the parameters, the body is executed, and the
/// function enters the catalog unless the body failed.
pub fn verify_function(state: &mut State, function: &Function) -> (res: Result<(), CheckError>)
    ensures
        match function_outcome(old(state).functions@, function@) {
            Ok(cat) => res is Ok && final(state).functions@ == cat,
            Err(err) => res == Err::<(), CheckError>(err) && final(state).functions@ == old(
                state,
            ).functions@,
        },
        final(state).variables@ == exec_seq(
            bind_params(Map::empty(), function@.param),
            old(state).functions@,
            function@.inst,
        ).env,
{
    state.variables = NameMap::new();
    let ghost params = function@.param;
    assert(params.skip(0) =~= params);
    let mut i: usize = 0;
    while i < function.param.len()
        invariant
            i <= function.param.len(),
            params == function@.param,
            state.functions@ == old(state).functions@,
            bind_params(Map::empty(), params) == bind_params(
                state.variables@,
                params.skip(i as int),
            ),
        decreases function.param.len() - i,
    {
        proof {
            assert(params.skip(i as int).drop_first() =~= params.skip(i + 1));
            assert(params.skip(i as int)[0] == (function.param@[i as int].0@, function.param@[i as int].1));
        }
        state.variables.insert(function.param[i].0.clone(), function.param[i].1);
        i += 1;
    }
    match process(state, &function.inst) {
        Err(err) => Err(err),
        Ok(_) => {
            state.functions.insert(function.name.clone(), function.ret_val);
            Ok(())
        },
    }
}

/// Checks the functions of a unit in order. The unit is accepted if and
/// only if every function is; the first failure ends the run and is the
/// verdict. Nothing is carried over from one call to the next.
pub fn verify(tl: &TranslationUnit) -> (res: Result<(), CheckError>)
    ensures
        match unit_outcome(Map::empty(), tl@) {
            Ok(_) => res is Ok,
            Err(err) => res == Err::<(), CheckError>(err),
        },
{
    let mut state = State::new();
    let ghost all = tl@;
    assert(all.skip(0) =~= all);
    let mut i: usize = 0;
    while i < tl.sub_unit.len()
        invariant
            i <= tl.sub_unit.len(),
            all == tl@,
            unit_outcome(Map::empty(), all) == unit_outcome(state.functions@, all.skip(i as int)),
        decreases tl.sub_unit.len() - i,
    {
        proof {
            assert(all.skip(i as int).drop_first() =~= all.skip(i + 1));
            assert(all.skip(i as int)[0] == tl.sub_unit@[i as int]@);
        }
        match &tl.sub_unit[i] {
            TranslationUnitSet::Function(function) => {
                match verify_function(&mut state, function) {
                    Err(err) => {
                        return Err(err);
                    },
                    Ok(_) => {},
                }
            },
        }
        i += 1;
    }
    Ok(())
}

/// The verdict on a unit depends on the unit alone: units of the same
/// value get the same verdict, however often and in whatever order they are
/// checked.
pub proof fn lemma_verdict_repeatable(first: TranslationUnit, second: TranslationUnit)
    requires
        first@ == second@,
    ensures
        unit_outcome(Map::empty(), first@) == unit_outcome(Map::empty(), second@),
{
}

/// `inst` inside `depth` blocks, one in the other.
pub open spec fn nested(depth: nat, inst: InstModel) -> InstModel
    decreases depth,
{
    if depth == 0 {
        inst
    } else {
        InstModel::InstSet(0, seq![nested((depth - 1) as nat, inst)])
    }
}

/// An empty block changes nothing and does not end the run.
pub proof fn lemma_exec_empty(env: Env, cat: Catalog, line: u64)
    ensures
        exec_seq(env, cat, Seq::empty()) == (Outcome { env, end: Ok(Flow::Continue) }),
        exec_inst(env, cat, InstModel::InstSet(line, Seq::empty())) == (Outcome {
            env,
            end: Ok(Flow::Continue),
        }),
{
    reveal_with_fuel(exec_seq, 2);
}

/// Running a list of one instruction is running the instruction.
pub proof fn lemma_exec_one(env: Env, cat: Catalog, inst: InstModel)
    ensures
        exec_seq(env, cat, seq![inst]) == exec_inst(env, cat, inst),
{
    let one = seq![inst];
    assert(one[0] == inst);
    assert(one.drop_first() =~= Seq::<InstModel>::empty());
    let first = exec_inst(env, cat, inst);
    if first.end == Ok::<Flow, CheckError>(Flow::Continue) {
        assert(exec_seq(first.env, cat, one.drop_first()) == (Outcome {
            env: first.env,
            end: Ok(Flow::Continue),
        }));
    }
}

/// Running two lists joined is running the first and then, unless it failed
/// or returned, the second from the bindings that the first left: each
/// instruction runs once, in order, and nothing runs after a failure or a
/// return.
pub proof fn lemma_exec_concat(env: Env, cat: Catalog, a: Seq<InstModel>, b: Seq<InstModel>)
    ensures
        exec_seq(env, cat, a + b) == then_run(exec_seq(env, cat, a), cat, b),
    decreases a.len(),
{
    if a.len() == 0 {
        assert(a + b =~= b);
    } else {
        assert((a + b)[0] == a[0]);
        assert((a + b).drop_first() =~= a.drop_first() + b);
        let first = exec_inst(env, cat, a[0]);
        if first.end == Ok::<Flow, CheckError>(Flow::Continue) {
            lemma_exec_concat(first.env, cat, a.drop_first(), b);
        }
    }
}

/// An assignment into a binding that owns fails, whatever is assigned, and
/// leaves the bindings as they were.
pub proof fn lemma_owner_is_not_overwritten(
    env: Env,
    cat: Catalog,
    line: u64,
    target: Seq<char>,
    rhs: ExprModel,
)
    requires
        env.contains_key(target),
        env[target].ownership,
    ensures
        exec_inst(env, cat, InstModel::Assign(line, target, rhs)).end is Err,
        eval_expr(env, cat, rhs) is Ok ==> exec_inst(
            env,
            cat,
            InstModel::Assign(line, target, rhs),
        ).end == Err::<Flow, CheckError>(CheckError::OwnershipViolation),
        exec_inst(env, cat, InstModel::Assign(line, target, rhs)).env == env,
{
}

/// There is one level of bindings: a declaration replaces the binding of
/// its name however deep in blocks it stands, and the instructions that
/// follow the outermost of those blocks run against the new binding.
pub proof fn lemma_nested_redeclaration(
    env: Env,
    cat: Catalog,
    depth: nat,
    line: u64,
    name: Seq<char>,
    var: Variable,
    rest: Seq<InstModel>,
)
    ensures
        exec_inst(env, cat, nested(depth, InstModel::VarDecl(line, name, var))) == (Outcome {
            env: env.insert(name, var),
            end: Ok(Flow::Continue),
        }),
        exec_seq(env, cat, seq![nested(depth, InstModel::VarDecl(line, name, var))] + rest)
            == exec_seq(env.insert(name, var), cat, rest),
        eval_expr(env.insert(name, var), cat, ExprModel::LocalVariable(name)) == Ok::<
            Option<Variable>,
            CheckError,
        >(Some(var)),
    decreases depth,
{
    let decl = InstModel::VarDecl(line, name, var);
    if depth > 0 {
        lemma_nested_redeclaration(env, cat, (depth - 1) as nat, line, name, var, rest);
        lemma_exec_one(env, cat, nested((depth - 1) as nat, decl));
    }
    let all = seq![nested(depth, decl)] + rest;
    assert(all[0] == nested(depth, decl));
    assert(all.drop_first() =~= rest);
}

/// What a conditional with a then-body only holds has no effect on what
/// follows it: the bindings after it are those before it, whatever the
/// body declares, assigns or violates.
pub proof fn lemma_then_only_is_isolated(
    env: Env,
    cat: Catalog,
    line: u64,
    condition: InstModel,
    body: InstModel,
)
    ensures
        exec_inst(env, cat, InstModel::If(line, seq![condition, body])) == (Outcome {
            env,
            end: Ok(Flow::Continue),
        }),
{
}

/// Both bodies of a conditional are checked, each from the bindings before
/// the conditional: a body does not see what the other bound, and a
/// failure in either body is the failure of the conditional. Where neither
/// fails, what follows the conditional runs from the bindings that the
/// then-body left.
pub proof fn lemma_both_bodies_are_checked(
    env: Env,
    cat: Catalog,
    line: u64,
    condition: InstModel,
    then_body: InstModel,
    else_body: InstModel,
)
    ensures
        ({
            let whole = exec_inst(
                env,
                cat,
                InstModel::If(line, seq![condition, then_body, else_body]),
            );
            let first = exec_inst(env, cat, then_body);
            let second = exec_inst(env, cat, else_body);
            &&& whole.env == first.env
            &&& whole.end is Ok <==> first.end is Ok && second.end is Ok
            &&& first.end is Err ==> whole.end == first.end
            &&& first.end is Ok && second.end is Err ==> whole.end == second.end
            &&& whole.end is Ok ==> whole == first
        }),
{
}

} // verus!
