//! Straight-line code: bodies without a conditional and without a return.
//! Such a body is accepted exactly when each of its instructions resolves
//! and no assignment in it overwrites a binding that owns at that point.

use vstd::prelude::*;
use crate::def::{FunctionModel, InstModel};
use crate::error::CheckError;
use crate::verify::{
    Catalog, Env, Flow, Outcome, bind_params, eval_expr, exec_inst, exec_seq, function_outcome,
    lemma_exec_concat, lemma_exec_one,
};

verus! {

/// Neither a conditional nor a return, at any depth.
pub open spec fn unbranched(inst: InstModel) -> bool
    decreases inst,
{
    match inst {
        InstModel::InstSet(_, list) => forall|i: int|
            0 <= i < list.len() ==> unbranched(#[trigger] list[i]),
        InstModel::If(_, _) => false,
        InstModel::ReturnStmt(_, _) => false,
        _ => true,
    }
}

/// No conditional and no return in any of the instructions.
pub open spec fn all_unbranched(list: Seq<InstModel>) -> bool {
    forall|i: int| 0 <= i < list.len() ==> unbranched(#[trigger] list[i])
}

/// A declaration, an assignment or an evaluation.
pub open spec fn simple(inst: InstModel) -> bool {
    !(inst is InstSet) && !(inst is If) && !(inst is ReturnStmt)
}

/// The instructions of a block in the order in which they are executed,
/// with every nested block opened up.
pub open spec fn flat_one(inst: InstModel) -> Seq<InstModel>
    decreases inst, 0nat,
{
    match inst {
        InstModel::InstSet(_, list) => flat(list),
        _ => seq![inst],
    }
}

/// The instructions of a list in the order in which they are executed, with
/// every block opened up.
pub open spec fn flat(list: Seq<InstModel>) -> Seq<InstModel>
    decreases list, 1nat,
{
    if list.len() == 0 {
        Seq::empty()
    } else {
        flat_one(list[0]) + flat(list.drop_first())
    }
}

/// The bindings after one instruction, where the instruction is taken to
/// be allowed: a declaration binds, an assignment binds what its right side
/// yields, and nothing else changes anything.
pub open spec fn step(env: Env, cat: Catalog, inst: InstModel) -> Env {
    match inst {
        InstModel::ParamDecl(_, name, var) => env.insert(name, var),
        InstModel::VarDecl(_, name, var) => env.insert(name, var),
        InstModel::Assign(_, target, rhs) => match eval_expr(env, cat, rhs) {
            Ok(Some(var)) => env.insert(target, var),
            _ => env,
        },
        _ => env,
    }
}

/// The bindings at the point of instruction `k` of `steps`: those after the
/// `k` instructions before it.
pub open spec fn env_at(env: Env, cat: Catalog, steps: Seq<InstModel>, k: int) -> Env
    decreases k,
{
    if k <= 0 {
        env
    } else {
        step(env_at(env, cat, steps, k - 1), cat, steps[k - 1])
    }
}

/// The instruction has a rule, and what it evaluates has a value: an
/// assignment assigns a descriptor, and an evaluation names nothing
/// unknown.
pub open spec fn resolves(env: Env, cat: Catalog, inst: InstModel) -> bool {
    match inst {
        InstModel::Assign(_, _, rhs) => eval_expr(env, cat, rhs) matches Ok(Some(_)),
        InstModel::Eval(_, e) => eval_expr(env, cat, e) is Ok,
        InstModel::FieldDecl(_, _, _) => false,
        _ => true,
    }
}

/// The instruction assigns to a binding that owns.
pub open spec fn overwrites_owner(env: Env, inst: InstModel) -> bool {
    inst matches InstModel::Assign(_, target, _) && env.contains_key(target)
        && env[target].ownership
}

/// Instruction `k` of `steps` resolves at its point.
pub open spec fn resolves_at(env: Env, cat: Catalog, steps: Seq<InstModel>, k: int) -> bool {
    resolves(env_at(env, cat, steps, k), cat, steps[k])
}

/// Instruction `k` of `steps` assigns to a binding that owns at its point.
pub open spec fn overwrites_owner_at(env: Env, cat: Catalog, steps: Seq<InstModel>, k: int) -> bool {
    overwrites_owner(env_at(env, cat, steps, k), steps[k])
}

/// Opening up the blocks of a list without conditionals and returns
/// changes nothing of what running it comes to.
pub proof fn lemma_flat(env: Env, cat: Catalog, list: Seq<InstModel>)
    requires
        all_unbranched(list),
    ensures
        exec_seq(env, cat, list) == exec_seq(env, cat, flat(list)),
        forall|k: int| 0 <= k < flat(list).len() ==> simple(#[trigger] flat(list)[k]),
    decreases list, 1nat,
{
    if list.len() > 0 {
        let rest = list.drop_first();
        assert(all_unbranched(rest)) by {
            assert forall|i: int| 0 <= i < rest.len() implies unbranched(#[trigger] rest[i]) by {
                assert(rest[i] == list[i + 1]);
            }
        }
        lemma_flat_one(env, cat, list[0]);
        lemma_exec_concat(env, cat, flat_one(list[0]), flat(rest));
        lemma_flat(exec_inst(env, cat, list[0]).env, cat, rest);
    }
}

/// Opening up a block without conditionals and returns changes nothing of
/// what running it comes to.
pub proof fn lemma_flat_one(env: Env, cat: Catalog, inst: InstModel)
    requires
        unbranched(inst),
    ensures
        exec_inst(env, cat, inst) == exec_seq(env, cat, flat_one(inst)),
        forall|k: int| 0 <= k < flat_one(inst).len() ==> simple(#[trigger] flat_one(inst)[k]),
    decreases inst, 0nat,
{
    match inst {
        InstModel::InstSet(_, list) => {
            lemma_flat(env, cat, list);
        },
        _ => {
            lemma_exec_one(env, cat, inst);
        },
    }
}

/// A simple instruction succeeds exactly when it resolves and does not
/// overwrite a binding that owns, and it then leaves the bindings that
/// `step` gives.
pub proof fn lemma_simple_step(env: Env, cat: Catalog, inst: InstModel)
    requires
        simple(inst),
    ensures
        exec_inst(env, cat, inst).end is Ok <==> resolves(env, cat, inst) && !overwrites_owner(
            env,
            inst,
        ),
        exec_inst(env, cat, inst).end is Ok ==> exec_inst(env, cat, inst) == (Outcome {
            env: step(env, cat, inst),
            end: Ok(Flow::Continue),
        }),
{
}

/// The bindings at a point depend on the instructions before it alone.
pub proof fn lemma_env_at_prefix(env: Env, cat: Catalog, a: Seq<InstModel>, b: Seq<InstModel>, k: int)
    requires
        0 <= k <= a.len(),
        k <= b.len(),
        forall|j: int| 0 <= j < k ==> a[j] == b[j],
    ensures
        env_at(env, cat, a, k) == env_at(env, cat, b, k),
    decreases k,
{
    if k > 0 {
        lemma_env_at_prefix(env, cat, a, b, k - 1);
    }
}

/// A run of simple instructions succeeds exactly when each of them
/// resolves at its point and none overwrites a binding that owns there. It
/// then ends, without a return, in the bindings after the last of them.
pub proof fn lemma_simple_run(env: Env, cat: Catalog, steps: Seq<InstModel>)
    requires
        forall|k: int| 0 <= k < steps.len() ==> simple(#[trigger] steps[k]),
    ensures
        exec_seq(env, cat, steps).end is Ok <==> forall|k: int|
            0 <= k < steps.len() ==> #[trigger] resolves_at(env, cat, steps, k)
                && !overwrites_owner_at(env, cat, steps, k),
        exec_seq(env, cat, steps).end is Ok ==> exec_seq(env, cat, steps) == (Outcome {
            env: env_at(env, cat, steps, steps.len() as int),
            end: Ok(Flow::Continue),
        }),
    decreases steps.len(),
{
    if steps.len() > 0 {
        let n = steps.len() - 1;
        let front = steps.drop_last();
        let last = steps.last();
        assert(steps =~= front + seq![last]);
        lemma_simple_run(env, cat, front);
        lemma_exec_concat(env, cat, front, seq![last]);
        lemma_env_at_prefix(env, cat, front, steps, n);
        let here = env_at(env, cat, steps, n);
        lemma_exec_one(here, cat, last);
        lemma_simple_step(here, cat, last);
        assert forall|k: int| 0 <= k < n implies resolves_at(env, cat, front, k) == resolves_at(
            env,
            cat,
            steps,
            k,
        ) && overwrites_owner_at(env, cat, front, k) == overwrites_owner_at(env, cat, steps, k) by {
            lemma_env_at_prefix(env, cat, front, steps, k);
            assert(front[k] == steps[k]);
        }
        let front_ok = forall|k: int|
            0 <= k < front.len() ==> #[trigger] resolves_at(env, cat, front, k)
                && !overwrites_owner_at(env, cat, front, k);
        let all_ok = forall|k: int|
            0 <= k < steps.len() ==> #[trigger] resolves_at(env, cat, steps, k)
                && !overwrites_owner_at(env, cat, steps, k);
        let last_ok = resolves_at(env, cat, steps, n) && !overwrites_owner_at(env, cat, steps, n);
        assert(all_ok ==> front_ok && last_ok) by {
            if all_ok {
                assert forall|k: int| 0 <= k < front.len() implies #[trigger] resolves_at(
                    env,
                    cat,
                    front,
                    k,
                ) && !overwrites_owner_at(env, cat, front, k) by {
                    assert(resolves_at(env, cat, steps, k));
                }
                assert(resolves_at(env, cat, steps, n));
            }
        }
        assert(front_ok && last_ok ==> all_ok) by {
            if front_ok && last_ok {
                assert forall|k: int| 0 <= k < steps.len() implies #[trigger] resolves_at(
                    env,
                    cat,
                    steps,
                    k,
                ) && !overwrites_owner_at(env, cat, steps, k) by {
                    if k < n {
                        assert(resolves_at(env, cat, front, k));
                    }
                }
            }
        }
        if exec_seq(env, cat, front).end is Ok {
            assert(exec_seq(env, cat, steps) == exec_inst(here, cat, last));
        }
    }
}

/// A body without a conditional and without a return is accepted exactly
/// when each of its instructions, in the order in which they are executed,
/// resolves at its point and none of its assignments overwrites a binding
/// that owns at that point.
pub proof fn lemma_unbranched_verdict(env: Env, cat: Catalog, list: Seq<InstModel>)
    requires
        all_unbranched(list),
    ensures
        exec_seq(env, cat, list).end is Ok <==> forall|k: int|
            0 <= k < flat(list).len() ==> #[trigger] resolves_at(env, cat, flat(list), k)
                && !overwrites_owner_at(env, cat, flat(list), k),
{
    lemma_flat(env, cat, list);
    lemma_simple_run(env, cat, flat(list));
}

/// Where every instruction of a body without a conditional and without a
/// return resolves at its point, the body is accepted if and only if no
/// assignment in it has a target that owns at the point of the assignment.
pub proof fn lemma_accepted_iff_no_owner_overwritten(env: Env, cat: Catalog, list: Seq<InstModel>)
    requires
        all_unbranched(list),
        forall|k: int| 0 <= k < flat(list).len() ==> #[trigger] resolves_at(env, cat, flat(list), k),
    ensures
        exec_seq(env, cat, list).end is Ok <==> forall|k: int|
            0 <= k < flat(list).len() ==> !#[trigger] overwrites_owner_at(env, cat, flat(list), k),
{
    lemma_unbranched_verdict(env, cat, list);
    if forall|k: int|
        0 <= k < flat(list).len() ==> !#[trigger] overwrites_owner_at(env, cat, flat(list), k) {
        assert forall|k: int| 0 <= k < flat(list).len() implies #[trigger] resolves_at(
            env,
            cat,
            flat(list),
            k,
        ) && !overwrites_owner_at(env, cat, flat(list), k) by {}
    }
    if exec_seq(env, cat, list).end is Ok {
        assert forall|k: int| 0 <= k < flat(list).len() implies !#[trigger] overwrites_owner_at(
            env,
            cat,
            flat(list),
            k,
        ) by {
            assert(resolves_at(env, cat, flat(list), k));
        }
    }
}

/// The same of a function: where its body holds no conditional and no
/// return and every instruction resolves at its point, the function enters
/// the catalog if and only if no assignment in it has a target that owns at
/// the point of the assignment. The bindings start from the parameters.
pub proof fn lemma_function_accepted_iff_no_owner_overwritten(cat: Catalog, f: FunctionModel)
    requires
        all_unbranched(f.inst),
        forall|k: int|
            0 <= k < flat(f.inst).len() ==> #[trigger] resolves_at(
                bind_params(Map::empty(), f.param),
                cat,
                flat(f.inst),
                k,
            ),
    ensures
        function_outcome(cat, f) is Ok <==> forall|k: int|
            0 <= k < flat(f.inst).len() ==> !#[trigger] overwrites_owner_at(
                bind_params(Map::empty(), f.param),
                cat,
                flat(f.inst),
                k,
            ),
{
    lemma_accepted_iff_no_owner_overwritten(bind_params(Map::empty(), f.param), cat, f.inst);
}

} // verus!
