//! Lowering: the syntax tree is walked depth first, and each node is
//! reduced to instructions once its children have been. The instructions
//! produced so far wait on a stack until the node that holds them takes
//! them off.

use vstd::prelude::*;
use crate::ast::{AstNode, SourceSpan};
use crate::def::{
    ExprDescriptor, ExprModel, Function, FunctionModel, Inst, InstModel, TranslationUnit,
    TranslationUnitSet, Variable, all_well_formed, clone_insts, inst_views, lemma_call_view,
    lemma_list_view, param_views, unit_well_formed, well_formed,
};
use crate::error::CheckError;
use crate::text::{
    annotation_at, contains_text, contains_token, count_char, count_of,
    extract_annotation_from_source, has_text, has_token, last_word, last_word_of, lines_of,
    same_text, trim_text, trimmed,
};

verus! {

/// What lowering carries from node to node.
pub struct ExecutionState {
    /// The lines of the source text, for the lookup of annotations.
    pub source: Vec<String>,
    /// The literal of the last annotation that no declaration has taken up
    /// yet; empty where there is none.
    pub annotation: String,
    /// The number of local declarations met in the current function.
    pub var_decl: u32,
    /// The instructions that wait for the node that holds them.
    pub inst: Vec<Inst>,
    /// The functions completed so far.
    pub tl: TranslationUnit,
}

/// The mathematical value of an `ExecutionState`.
pub struct LoweringModel {
    pub source: Seq<Seq<char>>,
    pub annotation: Seq<char>,
    pub var_decl: u32,
    pub inst: Seq<InstModel>,
    pub functions: Seq<FunctionModel>,
}

impl View for ExecutionState {
    type V = LoweringModel;

    open spec fn view(&self) -> LoweringModel {
        LoweringModel {
            source: lines_of(self.source@),
            annotation: self.annotation@,
            var_decl: self.var_decl,
            inst: inst_views(self.inst@),
            functions: self.tl@,
        }
    }
}

/// The descriptor that a declared type gives: mutable unless the type
/// holds the qualifier `const` as a token of its own, with one level of
/// indirection for each `*`.
pub open spec fn described(qual_type: Seq<char>, ownership: bool) -> Variable {
    Variable {
        mutable: !has_token(qual_type, "const"@),
        ownership,
        indirection: (count_of(qual_type, '*') % 0x1_0000_0000) as u32,
    }
}

/// The return descriptor that a return type gives: none where the type,
/// but for the white space around it, is `void` and nothing else, and
/// otherwise that of the type, which owns nothing.
pub open spec fn returned(ret_type: Seq<char>) -> Option<Variable> {
    if trimmed(ret_type) == "void"@ {
        None
    } else {
        Some(described(ret_type, false))
    }
}

/// The descriptor of a declaration of type `qual_type`.
pub fn describe(qual_type: &str, ownership: bool) -> (res: Variable)
    ensures
        res == described(qual_type@, ownership),
{
    let stars = count_char(qual_type, '*') as u64;
    Variable {
        mutable: !contains_token(qual_type, "const"),
        ownership,
        indirection: (stars % 0x1_0000_0000) as u32,
    }
}

/// The return descriptor of a function whose return type is `ret_type`.
pub fn return_descriptor(ret_type: &str) -> (res: Option<Variable>)
    ensures
        res == returned(ret_type@),
{
    let bare = trim_text(ret_type);
    if same_text(bare.as_str(), "void") {
        None
    } else {
        Some(describe(ret_type, false))
    }
}

/// Mutability, indirection and name of a declaration written as a type
/// followed by a name: the name is what follows the last space.
pub fn parse_variable(value: String) -> (res: (bool, u32, String))
    ensures
        res.0 == described(value@, false).mutable,
        res.1 == described(value@, false).indirection,
        res.2@ == last_word(value@),
{
    let var = describe(value.as_str(), false);
    (var.mutable, var.indirection, last_word_of(value.as_str()))
}

/// The state with another stack of waiting instructions.
pub open spec fn with_inst(m: LoweringModel, inst: Seq<InstModel>) -> LoweringModel {
    LoweringModel { inst, ..m }
}

/// Puts an instruction on the stack.
fn push_inst(state: &mut ExecutionState, inst: Inst)
    ensures
        final(state)@ == with_inst(old(state)@, old(state)@.inst.push(inst@)),
{
    state.inst.push(inst);
    assert(inst_views(state.inst@) =~= inst_views(old(state).inst@).push(inst@));
}

/// Takes the last instruction off the stack.
fn pop_inst(state: &mut ExecutionState) -> (res: Option<Inst>)
    ensures
        match res {
            Some(inst) => old(state)@.inst.len() > 0 && inst@ == old(state)@.inst.last()
                && final(state)@ == with_inst(old(state)@, old(state)@.inst.drop_last()),
            None => old(state)@.inst.len() == 0 && final(state)@ == old(state)@,
        },
{
    let res = state.inst.pop();
    assert(res is Some ==> inst_views(state.inst@) =~= inst_views(old(state).inst@).drop_last());
    res
}

/// Takes the instructions from position `from` on off the stack.
fn take_from(state: &mut ExecutionState, from: usize) -> (res: Vec<Inst>)
    requires
        from <= old(state)@.inst.len(),
    ensures
        inst_views(res@) == old(state)@.inst.skip(from as int),
        final(state)@ == with_inst(old(state)@, old(state)@.inst.take(from as int)),
{
    let res = state.inst.split_off(from);
    assert(inst_views(res@) =~= inst_views(old(state).inst@).skip(from as int));
    assert(inst_views(state.inst@) =~= inst_views(old(state).inst@).take(from as int));
    res
}

/// A compound statement takes the instructions that its children left,
/// those from position `inst_cnt` on, and leaves one block that holds them
/// in order.
pub open spec fn block_reduced(stack: Seq<InstModel>, inst_cnt: int) -> Result<
    Seq<InstModel>,
    CheckError,
> {
    if 0 <= inst_cnt <= stack.len() {
        Ok(stack.take(inst_cnt).push(InstModel::InstSet(0, stack.skip(inst_cnt))))
    } else {
        Err(CheckError::StructuralLoweringError)
    }
}

/// Reduces a compound statement.
#[allow(non_snake_case)]
pub fn post_CompoundStmt(state: &mut ExecutionState, inst_cnt: usize) -> (res: Result<
    (),
    CheckError,
>)
    ensures
        match block_reduced(old(state)@.inst, inst_cnt as int) {
            Ok(stack) => res is Ok && final(state)@ == with_inst(old(state)@, stack),
            Err(err) => res == Err::<(), CheckError>(err),
        },
        res is Err ==> final(state)@ == old(state)@,
{
    if inst_cnt > state.inst.len() {
        return Err(CheckError::StructuralLoweringError);
    }
    let inst_set = take_from(state, inst_cnt);
    let block = Inst::InstSet(0, inst_set);
    proof {
        lemma_list_view(block);
    }
    push_inst(state, block);
    Ok(())
}

/// Reduces a return statement: one `ReturnStmt` that names nothing.
#[allow(non_snake_case)]
pub fn post_ReturnStmt(state: &mut ExecutionState)
    ensures
        final(state)@ == with_inst(
            old(state)@,
            old(state)@.inst.push(InstModel::ReturnStmt(0, Seq::empty())),
        ),
{
    push_inst(state, Inst::ReturnStmt(0, String::new()));
}

/// The state with one more local declaration counted. The count stops at
/// the largest number it can hold.
pub open spec fn counted(m: LoweringModel) -> LoweringModel {
    LoweringModel {
        var_decl: if m.var_decl < u32::MAX {
            (m.var_decl + 1) as u32
        } else {
            u32::MAX
        },
        ..m
    }
}

/// Counts a local declaration.
#[allow(non_snake_case)]
pub fn post_VarDecl(state: &mut ExecutionState)
    ensures
        final(state)@ == counted(old(state)@),
{
    if state.var_decl < u32::MAX {
        state.var_decl += 1;
    }
}

/// An assignment takes the two instructions that its operands left. The
/// target must have left a `VarDecl`, the assigned value an `Eval`; the
/// assignment replaces both.
pub open spec fn assign_reduced(stack: Seq<InstModel>) -> Result<Seq<InstModel>, CheckError> {
    let n = stack.len();
    if n >= 2 && stack[n - 2] is VarDecl && stack[n - 1] is Eval {
        Ok(
            stack.take(n - 2).push(
                InstModel::Assign(0, stack[n - 2]->VarDecl_1, stack[n - 1]->Eval_1),
            ),
        )
    } else {
        Err(CheckError::StructuralLoweringError)
    }
}

/// Reduces a binary operator, which is taken to be an assignment, whatever
/// the number of its children.
#[allow(non_snake_case)]
pub fn post_BinaryOperator(state: &mut ExecutionState, _children: usize) -> (res: Result<
    (),
    CheckError,
>)
    ensures
        match assign_reduced(old(state)@.inst) {
            Ok(stack) => res is Ok && final(state)@ == with_inst(old(state)@, stack),
            Err(err) => res == Err::<(), CheckError>(err),
        },
        res is Err ==> final(state)@ == old(state)@,
{
    let n = state.inst.len();
    if n < 2 {
        return Err(CheckError::StructuralLoweringError);
    }
    match (&state.inst[n - 2], &state.inst[n - 1]) {
        (Inst::VarDecl(_, _, _), Inst::Eval(_, _)) => {},
        _ => {
            return Err(CheckError::StructuralLoweringError);
        },
    }
    let rhs = pop_inst(state);
    let lhs = pop_inst(state);
    match (lhs, rhs) {
        (Some(Inst::VarDecl(_, label, _)), Some(Inst::Eval(_, expr))) => {
            push_inst(state, Inst::Assign(0, label, expr));
            assert(old(state)@.inst.drop_last().drop_last() =~= old(state)@.inst.take(
                old(state)@.inst.len() - 2,
            ));
            Ok(())
        },
        _ => {
            assert(false);
            Err(CheckError::StructuralLoweringError)
        },
    }
}

/// The expression that a waiting instruction stands for as an operand of a
/// call: a `VarDecl` stands for its name, an evaluated call for the call.
pub open spec fn operand_of(inst: InstModel) -> Option<ExprModel> {
    match inst {
        InstModel::VarDecl(_, name, _) => Some(ExprModel::LocalVariable(name)),
        InstModel::Eval(_, ExprModel::FunctionCall(callee, args)) => Some(
            ExprModel::FunctionCall(callee, args),
        ),
        _ => None,
    }
}

/// A call with `children` children takes the last `children` instructions
/// off: the first of them, a `VarDecl`, names the callee, and the others are
/// the arguments from left to right. One evaluated call replaces them.
pub open spec fn call_reduced(stack: Seq<InstModel>, children: int) -> Result<
    Seq<InstModel>,
    CheckError,
> {
    let base = stack.len() - children;
    if 1 <= children <= stack.len() && stack[base] is VarDecl && (forall|i: int|
        base < i < stack.len() ==> operand_of(#[trigger] stack[i]) is Some) {
        Ok(
            stack.take(base).push(
                InstModel::Eval(
                    0,
                    ExprModel::FunctionCall(
                        stack[base]->VarDecl_1,
                        Seq::new(
                            (children - 1) as nat,
                            |i: int| operand_of(stack[base + 1 + i]).unwrap(),
                        ),
                    ),
                ),
            ),
        )
    } else {
        Err(CheckError::StructuralLoweringError)
    }
}

/// Whether an instruction can stand for an operand of a call.
fn is_operand(inst: &Inst) -> (res: bool)
    ensures
        res == operand_of(inst@) is Some,
{
    match inst {
        Inst::VarDecl(_, _, _) => true,
        Inst::Eval(_, expr) => match expr {
            ExprDescriptor::FunctionCall(_, _) => true,
            _ => false,
        },
        _ => false,
    }
}

/// The operand that an instruction stands for.
fn operand(inst: Inst) -> (res: Option<ExprDescriptor>)
    ensures
        match operand_of(inst@) {
            Some(e) => res matches Some(found) && found@ == e,
            None => res is None,
        },
{
    match inst {
        Inst::VarDecl(_, label, _) => Some(ExprDescriptor::LocalVariable(label)),
        Inst::Eval(_, expr) => match expr {
            ExprDescriptor::FunctionCall(label, aargs) => {
                let call = ExprDescriptor::FunctionCall(label, aargs);
                Some(call)
            },
            _ => None,
        },
        _ => None,
    }
}

/// Reduces a call expression with `children` children. The shape is tested
/// before anything is taken off the stack.
#[allow(non_snake_case)]
pub fn post_process_CallExpr(state: &mut ExecutionState, children: usize) -> (res: Result<
    (),
    CheckError,
>)
    ensures
        match call_reduced(old(state)@.inst, children as int) {
            Ok(stack) => res is Ok && final(state)@ == with_inst(old(state)@, stack),
            Err(err) => res == Err::<(), CheckError>(err),
        },
        res is Err ==> final(state)@ == old(state)@,
{
    if children < 1 || children > state.inst.len() {
        return Err(CheckError::StructuralLoweringError);
    }
    let ghost stack = state@.inst;
    let len = state.inst.len();
    let base: usize = len - children;
    match &state.inst[base] {
        Inst::VarDecl(_, _, _) => {},
        _ => {
            return Err(CheckError::StructuralLoweringError);
        },
    }
    let mut at: usize = base + 1;
    while at < len
        invariant
            base < at <= len,
            len == state.inst.len(),
            len == stack.len(),
            base + children == len,
            *state == *old(state),
            stack == old(state)@.inst,
            forall|i: int| base < i < at ==> operand_of(#[trigger] stack[i]) is Some,
        decreases len - at,
    {
        if !is_operand(&state.inst[at]) {
            assert(operand_of(stack[at as int]) is None);
            return Err(CheckError::StructuralLoweringError);
        }
        at += 1;
    }
    let mut operands = take_from(state, base + 1);
    let mut args: Vec<ExprDescriptor> = Vec::new();
    proof {
        assert(inst_views(operands@).len() == operands@.len());
        assert forall|i: int| 0 <= i < operands.len() implies (#[trigger] operands@[i])@
            == stack[base + 1 + i] by {
            assert(inst_views(operands@)[i] == operands@[i]@);
            assert(stack.skip(base + 1)[i] == stack[base + 1 + i]);
        }
    }
    while operands.len() > 0
        invariant
            1 <= children,
            operands.len() <= children - 1,
            args.len() + operands.len() == children - 1,
            base + children == stack.len(),
            forall|i: int| base < i < stack.len() ==> operand_of(#[trigger] stack[i]) is Some,
            forall|i: int|
                0 <= i < operands.len() ==> (#[trigger] operands@[i])@ == stack[base + 1 + i],
            forall|j: int|
                0 <= j < args.len() ==> operand_of(stack[base + children - 1 - j]) == Some(
                    (#[trigger] args@[j])@,
                ),
        decreases operands.len(),
    {
        let ghost k = operands.len() - 1;
        let inst = operands.pop().unwrap();
        assert(inst@ == stack[base + 1 + k]);
        assert(base + 1 + k == base + children - 1 - args.len());
        match operand(inst) {
            Some(e) => {
                args.push(e);
            },
            None => {
                assert(false);
            },
        }
    }
    // The arguments were taken off last to first.
    let n = args.len();
    let mut ordered: Vec<ExprDescriptor> = Vec::new();
    while args.len() > 0
        invariant
            n == children - 1,
            ordered.len() + args.len() == n,
            base + children == stack.len(),
            forall|i: int|
                0 <= i < args.len() ==> operand_of(stack[base + n - i]) == Some(
                    (#[trigger] args@[i])@,
                ),
            forall|i: int|
                0 <= i < ordered.len() ==> operand_of(stack[base + 1 + i]) == Some(
                    (#[trigger] ordered@[i])@,
                ),
        decreases args.len(),
    {
        let e = args.pop().unwrap();
        ordered.push(e);
    }
    proof {
        assert(stack.take(base + 1).last() == stack[base as int]);
    }
    match pop_inst(state) {
        Some(Inst::VarDecl(_, label, _)) => {
            let call = ExprDescriptor::FunctionCall(label, ordered);
            proof {
                lemma_call_view(call);
                assert(call@->FunctionCall_1 =~= Seq::new(
                    (children - 1) as nat,
                    |i: int| operand_of(stack[base + 1 + i]).unwrap(),
                ));
                assert(stack.take(base + 1).drop_last() =~= stack.take(base as int));
            }
            push_inst(state, Inst::Eval(0, call));
            Ok(())
        },
        _ => {
            assert(false);
            Err(CheckError::StructuralLoweringError)
        },
    }
}

/// A conditional takes the instructions that its children left, those from
/// position `inst_cnt` on, and leaves one `If` that holds them in order and
/// records the line on which the statement starts. The children must have
/// left two instructions or three: what stands for the condition, the
/// then-body and, where there is one, the else-body.
pub open spec fn if_reduced(stack: Seq<InstModel>, inst_cnt: int, line: Option<u64>) -> Result<
    Seq<InstModel>,
    CheckError,
> {
    if 0 <= inst_cnt <= stack.len() && line is Some && (stack.len() - inst_cnt == 2 || stack.len()
        - inst_cnt == 3) {
        Ok(stack.take(inst_cnt).push(InstModel::If(line->0, stack.skip(inst_cnt))))
    } else {
        Err(CheckError::StructuralLoweringError)
    }
}

/// Reduces a conditional.
#[allow(non_snake_case)]
pub fn post_IfStmt(state: &mut ExecutionState, node: &AstNode, inst_cnt: usize) -> (res: Result<
    (),
    CheckError,
>)
    ensures
        match if_reduced(old(state)@.inst, inst_cnt as int, node.line) {
            Ok(stack) => res is Ok && final(state)@ == with_inst(old(state)@, stack),
            Err(err) => res == Err::<(), CheckError>(err),
        },
        res is Err ==> final(state)@ == old(state)@,
{
    let curr_size = state.inst.len();
    if inst_cnt > curr_size {
        return Err(CheckError::StructuralLoweringError);
    }
    if curr_size - inst_cnt != 2 && curr_size - inst_cnt != 3 {
        return Err(CheckError::StructuralLoweringError);
    }
    match node.line {
        None => Err(CheckError::StructuralLoweringError),
        Some(line) => {
            let inst_set = take_from(state, inst_cnt);
            let branch = Inst::If(line, inst_set);
            proof {
                lemma_list_view(branch);
            }
            push_inst(state, branch);
            Ok(())
        },
    }
}

/// A parameter declaration needs a name and a type. It takes up the pending
/// annotation, which is cleared, and owns if and only if that annotation
/// holds `MOVE`.
pub open spec fn param_reduced(m: LoweringModel, node: AstNode) -> Result<
    LoweringModel,
    CheckError,
> {
    match (node.name, node.qual_type) {
        (Some(name), Some(qual_type)) => Ok(
            LoweringModel {
                annotation: Seq::empty(),
                inst: m.inst.push(
                    InstModel::ParamDecl(
                        0,
                        name@,
                        described(qual_type@, has_text(m.annotation, "MOVE"@)),
                    ),
                ),
                ..m
            },
        ),
        _ => Err(CheckError::StructuralLoweringError),
    }
}

/// A field declaration is reduced as a parameter declaration is, but an
/// annotation must be pending.
pub open spec fn field_reduced(m: LoweringModel, node: AstNode) -> Result<
    LoweringModel,
    CheckError,
> {
    if m.annotation.len() == 0 {
        Err(CheckError::AnnotationMissing)
    } else {
        match (node.name, node.qual_type) {
            (Some(name), Some(qual_type)) => Ok(
                LoweringModel {
                    annotation: Seq::empty(),
                    inst: m.inst.push(
                        InstModel::FieldDecl(
                            0,
                            name@,
                            described(qual_type@, has_text(m.annotation, "MOVE"@)),
                        ),
                    ),
                    ..m
                },
            ),
            _ => Err(CheckError::StructuralLoweringError),
        }
    }
}

/// A lowered parameter owns if and only if the annotation that was pending
/// when it was lowered holds `MOVE`; the same holds of a lowered field.
pub proof fn lemma_owns_iff_marked(m: LoweringModel, node: AstNode)
    ensures
        param_reduced(m, node) matches Ok(next) ==> (next.inst.last() matches InstModel::ParamDecl(
            _,
            _,
            var,
        ) && (var.ownership <==> has_text(m.annotation, "MOVE"@))),
        field_reduced(m, node) matches Ok(next) ==> (next.inst.last() matches InstModel::FieldDecl(
            _,
            _,
            var,
        ) && (var.ownership <==> has_text(m.annotation, "MOVE"@))),
{
}

/// Reduces a parameter declaration.
#[allow(non_snake_case)]
pub fn post_ParmVarDecl(state: &mut ExecutionState, node: &AstNode) -> (res: Result<
    (),
    CheckError,
>)
    ensures
        match param_reduced(old(state)@, *node) {
            Ok(m) => res is Ok && final(state)@ == m,
            Err(err) => res == Err::<(), CheckError>(err),
        },
        res is Ok ==> (final(state)@.inst.last() matches InstModel::ParamDecl(_, _, var) && (
        var.ownership <==> has_text(old(state)@.annotation, "MOVE"@))),
        res is Err ==> final(state)@ == old(state)@,
{
    match (&node.name, &node.qual_type) {
        (Some(name), Some(qual_type)) => {
            let ownership = contains_text(state.annotation.as_str(), "MOVE");
            state.annotation = String::new();
            let variable = describe(qual_type.as_str(), ownership);
            push_inst(state, Inst::ParamDecl(0, name.clone(), variable));
            Ok(())
        },
        _ => Err(CheckError::StructuralLoweringError),
    }
}

/// Reduces a field declaration.
#[allow(non_snake_case)]
pub fn post_FieldDecl(state: &mut ExecutionState, node: &AstNode) -> (res: Result<(), CheckError>)
    ensures
        match field_reduced(old(state)@, *node) {
            Ok(m) => res is Ok && final(state)@ == m,
            Err(err) => res == Err::<(), CheckError>(err),
        },
        res is Err ==> final(state)@ == old(state)@,
{
    if state.annotation.as_str().is_empty() {
        return Err(CheckError::AnnotationMissing);
    }
    match (&node.name, &node.qual_type) {
        (Some(name), Some(qual_type)) => {
            let ownership = contains_text(state.annotation.as_str(), "MOVE");
            state.annotation = String::new();
            let variable = describe(qual_type.as_str(), ownership);
            push_inst(state, Inst::FieldDecl(0, name.clone(), variable));
            Ok(())
        },
        _ => Err(CheckError::StructuralLoweringError),
    }
}

/// What is left of `text` once every stretch from an opening bracket to the
/// next closing bracket has been taken out of it, from left to right. An
/// opening bracket that no closing bracket follows stays, with all that
/// follows it.
pub open spec fn without_parentheses(text: Seq<char>) -> Seq<char>
    decreases text.len(),
{
    match text.index_of_first('(') {
        None => text,
        Some(open) => match text.skip(open + 1).index_of_first(')') {
            None => text,
            Some(close) => {
                proof {
                    text.index_of_first_ensures('(');
                    text.skip(open + 1).index_of_first_ensures(')');
                }
                text.take(open) + without_parentheses(text.skip(open + close + 2))
            },
        },
    }
}

/// Calls `regex::Regex::replace_all` with the pattern `\([^)]*\)` and the
/// empty replacement. The pattern is fixed and well formed, so
/// `regex::Regex::new` does not fail on it. A match of the pattern starts at
/// an opening bracket and ends at the first closing bracket after it, and
/// `replace_all` takes the matches from left to right, each search starting
/// where the last match ended. The contract says so: the result is the text
/// without those stretches.
#[verifier::external_body]
fn remove_parentheses(s: &str) -> (res: String)
    ensures
        res@ == without_parentheses(s@),
{
    regex::Regex::new("\\([^)]*\\)").unwrap().replace_all(s, "").to_string()
}

/// A text without an opening bracket stays as it is.
pub proof fn lemma_nothing_to_take_out(text: Seq<char>)
    requires
        !text.contains('('),
    ensures
        without_parentheses(text) == text,
{
    text.index_of_first_ensures('(');
}

/// The parameters among the instructions that the children of a function
/// declaration left, in order.
pub open spec fn params_of(entries: Seq<InstModel>) -> Seq<(Seq<char>, Variable)>
    decreases entries.len(),
{
    if entries.len() == 0 {
        Seq::empty()
    } else {
        match entries.last() {
            InstModel::ParamDecl(_, name, var) => params_of(entries.drop_last()).push((name, var)),
            _ => params_of(entries.drop_last()),
        }
    }
}

/// The instructions are parameter declarations but for the one at `at`,
/// which is a block.
pub open spec fn body_at(entries: Seq<InstModel>, at: int) -> bool {
    &&& 0 <= at < entries.len()
    &&& entries[at] is InstSet
    &&& forall|j: int| 0 <= j < entries.len() && j != at ==> (#[trigger] entries[j]) is ParamDecl
}

/// A function declaration needs a name and a type. It takes the
/// instructions that its children left, those from position `inst_cnt` on:
/// parameter declarations, which become its parameters in order, and one
/// block, whose instructions become its body. The return descriptor comes
/// from the type with the parameter list taken out. The function joins the
/// unit, and what was pending of the function is cleared.
pub open spec fn function_reduced(m: LoweringModel, node: AstNode, inst_cnt: int) -> Result<
    LoweringModel,
    CheckError,
> {
    let entries = m.inst.skip(inst_cnt);
    match (node.name, node.qual_type) {
        (Some(name), Some(qual_type)) => if 0 <= inst_cnt <= m.inst.len() && exists|at: int|
            body_at(entries, at) {
            let at = choose|at: int| body_at(entries, at);
            Ok(
                LoweringModel {
                    source: m.source,
                    annotation: Seq::empty(),
                    var_decl: 0,
                    inst: m.inst.take(inst_cnt),
                    functions: m.functions.push(
                        FunctionModel {
                            name: name@,
                            param: params_of(entries),
                            ret_val: returned(without_parentheses(qual_type@)),
                            inst: entries[at]->InstSet_1,
                        },
                    ),
                },
            )
        } else {
            Err(CheckError::StructuralLoweringError)
        },
        _ => Err(CheckError::StructuralLoweringError),
    }
}

/// Reduces a function declaration.
#[allow(non_snake_case)]
pub fn post_FunctionDecl(state: &mut ExecutionState, node: &AstNode, inst_cnt: usize) -> (res:
    Result<(), CheckError>)
    ensures
        match function_reduced(old(state)@, *node, inst_cnt as int) {
            Ok(m) => res is Ok && final(state)@ == m,
            Err(err) => res == Err::<(), CheckError>(err),
        },
        res is Err ==> final(state)@ == old(state)@,
{
    let (name, qual_type) = match (&node.name, &node.qual_type) {
        (Some(name), Some(qual_type)) => (name, qual_type),
        _ => {
            return Err(CheckError::StructuralLoweringError);
        },
    };
    if inst_cnt > state.inst.len() {
        return Err(CheckError::StructuralLoweringError);
    }
    let ret_type = remove_parentheses(qual_type.as_str());
    let return_type = return_descriptor(ret_type.as_str());

    let ghost entries = state@.inst.skip(inst_cnt as int);
    let count = state.inst.len() - inst_cnt;
    let mut inst: Option<Vec<Inst>> = None;
    let ghost mut found: int = -1;
    let mut param: Vec<(String, Variable)> = Vec::new();
    let mut k: usize = 0;
    while k < count
        invariant
            k <= count,
            *state == *old(state),
            count + inst_cnt == state.inst.len(),
            entries.len() == count,
            entries == old(state)@.inst.skip(inst_cnt as int),
            inst_cnt <= old(state)@.inst.len(),
            node.name == Some(*name),
            node.qual_type == Some(*qual_type),
            param_views(param@) == params_of(entries.take(k as int)),
            forall|j: int| 0 <= j < k && j != found ==> (#[trigger] entries[j]) is ParamDecl,
            inst is Some <==> 0 <= found < k,
            inst is None ==> found == -1,
            inst matches Some(body) ==> entries[found] is InstSet && inst_views(body@)
                == entries[found]->InstSet_1,
        decreases count - k,
    {
        proof {
            assert(entries.take(k + 1).drop_last() =~= entries.take(k as int));
            assert(entries[k as int] == state.inst@[inst_cnt + k]@);
            lemma_list_view(state.inst@[inst_cnt + k]);
        }
        match &state.inst[inst_cnt + k] {
            Inst::ParamDecl(_, pname, property) => {
                param.push((pname.clone(), *property));
                assert(param_views(param@) =~= params_of(
                    entries.take(k as int),
                ).push((pname@, *property)));
            },
            Inst::InstSet(_, set) => {
                if inst.is_some() {
                    proof {
                        assert(entries[found] is InstSet);
                        assert(entries[k as int] is InstSet);
                    }
                    return Err(CheckError::StructuralLoweringError);
                }
                inst = Some(clone_insts(set));
                proof {
                    found = k as int;
                }
            },
            _ => {
                proof {
                    assert(!(entries[k as int] is InstSet));
                    assert(!(entries[k as int] is ParamDecl));
                }
                return Err(CheckError::StructuralLoweringError);
            },
        }
        k += 1;
    }
    proof {
        assert(entries.take(entries.len() as int) =~= entries);
    }
    match inst {
        None => Err(CheckError::StructuralLoweringError),
        Some(body) => {
            proof {
                assert(body_at(entries, found));
                let at = choose|at: int| body_at(entries, at);
                assert(at == found);
            }
            let function = Function { name: name.clone(), param, ret_val: return_type, inst: body };
            let _ = take_from(state, inst_cnt);
            state.tl.sub_unit.push(TranslationUnitSet::Function(function));
            state.annotation = String::new();
            state.var_decl = 0;
            assert(state@.functions =~= old(state)@.functions.push(function@));
            Ok(())
        },
    }
}

/// The descriptor of a local declaration and of a referenced name: nothing
/// is known of either.
pub open spec fn plain() -> Variable {
    Variable { mutable: false, ownership: false, indirection: 0 }
}

/// A reference to a declaration leaves a `VarDecl` of the declaration's
/// name, which a call or an assignment can take as an operand. The
/// declaration needs a name.
pub open spec fn reference_prepared(stack: Seq<InstModel>, decl: AstNode) -> Result<
    Seq<InstModel>,
    CheckError,
> {
    match decl.name {
        Some(name) => Ok(stack.push(InstModel::VarDecl(0, name@, plain()))),
        None => Err(CheckError::StructuralLoweringError),
    }
}

/// Prepares a reference to the declaration `decl`.
pub fn pre_process_referenced_decl(state: &mut ExecutionState, decl: &AstNode) -> (res: Result<
    (),
    CheckError,
>)
    ensures
        match reference_prepared(old(state)@.inst, *decl) {
            Ok(stack) => res is Ok && final(state)@ == with_inst(old(state)@, stack),
            Err(err) => res == Err::<(), CheckError>(err),
        },
        res is Err ==> final(state)@ == old(state)@,
{
    match &decl.name {
        Some(name) => {
            let variable = Variable { mutable: false, ownership: false, indirection: 0 };
            push_inst(state, Inst::VarDecl(0, name.clone(), variable));
            Ok(())
        },
        None => Err(CheckError::StructuralLoweringError),
    }
}

/// The literal of the annotation that was spelled in `span`: the span must
/// lie in one line, and the literal stands between the first and the last
/// double quote from the span's first column to its last.
pub open spec fn annotation_of(source: Seq<Seq<char>>, span: SourceSpan) -> Option<Seq<char>> {
    if span.begin.line == span.end.line && span.begin.col >= 1 {
        annotation_at(source, span.begin.line as int, span.begin.col - 1, span.end.col as int)
    } else {
        None
    }
}

/// Looks up the literal of the annotation that was spelled in `span`.
pub fn parse_annotation(state: &ExecutionState, span: &SourceSpan) -> (res: Option<String>)
    ensures
        match annotation_of(state@.source, *span) {
            Some(text) => res matches Some(found) && found@ == text,
            None => res is None,
        },
{
    if span.begin.line != span.end.line || span.begin.col < 1 {
        return None;
    }
    extract_annotation_from_source(&state.source, span.begin.line, span.begin.col - 1, span.end.col)
}

/// What a node does to the state before its children are lowered. A local
/// declaration leaves a `VarDecl` of its name, or of the empty name where
/// it has none. A name reference that points to a declaration leaves a
/// `VarDecl` of that declaration's name. An annotation whose literal can be
/// found becomes the pending annotation. Every other node leaves the state
/// as it is.
pub open spec fn prepared(m: LoweringModel, node: AstNode) -> Result<LoweringModel, CheckError> {
    match node.kind {
        None => Ok(m),
        Some(kind) => if kind@ == "VarDecl"@ {
            let name = match node.name {
                Some(name) => name@,
                None => Seq::empty(),
            };
            Ok(with_inst(m, m.inst.push(InstModel::VarDecl(0, name, plain()))))
        } else if kind@ == "DeclRefExpr"@ {
            match node.referenced_decl {
                Some(decl) => match reference_prepared(m.inst, *decl) {
                    Ok(stack) => Ok(with_inst(m, stack)),
                    Err(err) => Err(err),
                },
                None => Ok(m),
            }
        } else if kind@ == "AnnotateAttr"@ {
            match node.spelling {
                Some(span) => match annotation_of(m.source, span) {
                    Some(text) => Ok(LoweringModel { annotation: text, ..m }),
                    None => Ok(m),
                },
                None => Ok(m),
            }
        } else {
            Ok(m)
        },
    }
}

/// Applies to the state what `node` does before its children are lowered.
pub fn pre_processing(state: &mut ExecutionState, node: &AstNode) -> (res: Result<(), CheckError>)
    ensures
        match prepared(old(state)@, *node) {
            Ok(m) => res is Ok && final(state)@ == m,
            Err(err) => res == Err::<(), CheckError>(err),
        },
        res is Err ==> final(state)@ == old(state)@,
{
    let kind: &str = match &node.kind {
        None => {
            return Ok(());
        },
        Some(kind) => kind.as_str(),
    };
    if same_text(kind, "VarDecl") {
        let name = match &node.name {
            Some(name) => name.clone(),
            None => String::new(),
        };
        let var = Variable { mutable: false, ownership: false, indirection: 0 };
        push_inst(state, Inst::VarDecl(0, name, var));
        Ok(())
    } else if same_text(kind, "DeclRefExpr") {
        match &node.referenced_decl {
            Some(decl) => pre_process_referenced_decl(state, decl),
            None => Ok(()),
        }
    } else if same_text(kind, "AnnotateAttr") {
        match &node.spelling {
            Some(span) => {
                match parse_annotation(state, span) {
                    Some(annotation) => {
                        state.annotation = annotation;
                    },
                    None => {},
                }
                Ok(())
            },
            None => Ok(()),
        }
    } else {
        Ok(())
    }
}

/// The kinds that lowering passes over: they describe types and literals,
/// or hold nothing but other nodes.
pub open spec fn ignored(kind: Seq<char>) -> bool {
    ||| kind == "BuiltinType"@
    ||| kind == "TypedefDecl"@
    ||| kind == "RecordDecl"@
    ||| kind == "RecordType"@
    ||| kind == "PointerType"@
    ||| kind == "ConstantArrayType"@
    ||| kind == "ImplicitCastExpr"@
    ||| kind == "TranslationUnitDecl"@
    ||| kind == "IntegerLiteral"@
}

/// Whether lowering passes over a kind.
pub fn is_ignored(kind: &str) -> (res: bool)
    ensures
        res == ignored(kind@),
{
    same_text(kind, "BuiltinType") || same_text(kind, "TypedefDecl") || same_text(
        kind,
        "RecordDecl",
    ) || same_text(kind, "RecordType") || same_text(kind, "PointerType") || same_text(
        kind,
        "ConstantArrayType",
    ) || same_text(kind, "ImplicitCastExpr") || same_text(kind, "TranslationUnitDecl")
        || same_text(kind, "IntegerLiteral")
}

/// A declaration statement is the declarations it holds: once they have
/// been lowered nothing is left to do.
pub fn parse_decl_stmt(state: &mut ExecutionState)
    ensures
        *final(state) == *old(state),
{
}

/// A name reference has left its operand before its children were lowered:
/// nothing is left to do.
#[allow(non_snake_case)]
pub fn post_DeclRefExpr(state: &mut ExecutionState)
    ensures
        *final(state) == *old(state),
{
}

/// An expression that the front end does not expose is what its children
/// are: once they have been lowered nothing is left to do.
pub fn parse_unexposed_expr(state: &mut ExecutionState)
    ensures
        *final(state) == *old(state),
{
}

/// A parenthesised expression is the expression in the brackets: once it
/// has been lowered nothing is left to do.
pub fn parse_paren_expr(state: &mut ExecutionState)
    ensures
        *final(state) == *old(state),
{
}

/// The state with the stack that a reduction left, or the reduction's
/// failure.
pub open spec fn with_reduced(m: LoweringModel, stack: Result<Seq<InstModel>, CheckError>) -> Result<
    LoweringModel,
    CheckError,
> {
    match stack {
        Ok(stack) => Ok(with_inst(m, stack)),
        Err(err) => Err(err),
    }
}

/// What a node does to the state once its children have been lowered:
/// the reduction of its kind. `children` is the number of its children and
/// `inst_cnt` the height that the stack had before they were lowered. A
/// node without a kind does nothing, and so does a node whose kind is
/// passed over or done with once its children are; any other kind that has
/// no reduction is a failure.
pub open spec fn reduced(m: LoweringModel, node: AstNode, children: int, inst_cnt: int) -> Result<
    LoweringModel,
    CheckError,
> {
    match node.kind {
        None => Ok(m),
        Some(kind) => if kind@ == "FunctionDecl"@ {
            function_reduced(m, node, inst_cnt)
        } else if kind@ == "CallExpr"@ {
            with_reduced(m, call_reduced(m.inst, children))
        } else if kind@ == "ParmVarDecl"@ {
            param_reduced(m, node)
        } else if kind@ == "FieldDecl"@ {
            field_reduced(m, node)
        } else if kind@ == "BinaryOperator"@ {
            with_reduced(m, assign_reduced(m.inst))
        } else if kind@ == "VarDecl"@ {
            Ok(counted(m))
        } else if kind@ == "CompoundStmt"@ {
            with_reduced(m, block_reduced(m.inst, inst_cnt))
        } else if kind@ == "IfStmt"@ {
            with_reduced(m, if_reduced(m.inst, inst_cnt, node.line))
        } else if kind@ == "ReturnStmt"@ {
            Ok(with_inst(m, m.inst.push(InstModel::ReturnStmt(0, Seq::empty()))))
        } else if kind@ == "UnexposedExpr"@ || kind@ == "DeclRefExpr"@ || kind@ == "DeclStmt"@
            || kind@ == "ParenExpr"@ || kind@ == "AnnotateAttr"@ {
            Ok(m)
        } else if ignored(kind@) {
            Ok(m)
        } else {
            Err(CheckError::UnsupportedConstruct)
        },
    }
}

/// Applies to the state what `node` does once its children have been
/// lowered.
pub fn post_processing(
    node: &AstNode,
    state: &mut ExecutionState,
    children: usize,
    inst_cnt: usize,
) -> (res: Result<(), CheckError>)
    ensures
        match reduced(old(state)@, *node, children as int, inst_cnt as int) {
            Ok(m) => res is Ok && final(state)@ == m,
            Err(err) => res == Err::<(), CheckError>(err),
        },
        res is Err ==> final(state)@ == old(state)@,
{
    let kind: &str = match &node.kind {
        None => {
            return Ok(());
        },
        Some(kind) => kind.as_str(),
    };
    if same_text(kind, "FunctionDecl") {
        post_FunctionDecl(state, node, inst_cnt)
    } else if same_text(kind, "CallExpr") {
        post_process_CallExpr(state, children)
    } else if same_text(kind, "ParmVarDecl") {
        post_ParmVarDecl(state, node)
    } else if same_text(kind, "FieldDecl") {
        post_FieldDecl(state, node)
    } else if same_text(kind, "BinaryOperator") {
        post_BinaryOperator(state, children)
    } else if same_text(kind, "VarDecl") {
        post_VarDecl(state);
        Ok(())
    } else if same_text(kind, "CompoundStmt") {
        post_CompoundStmt(state, inst_cnt)
    } else if same_text(kind, "IfStmt") {
        post_IfStmt(state, node, inst_cnt)
    } else if same_text(kind, "ReturnStmt") {
        post_ReturnStmt(state);
        Ok(())
    } else if same_text(kind, "UnexposedExpr") {
        parse_unexposed_expr(state);
        Ok(())
    } else if same_text(kind, "DeclRefExpr") {
        post_DeclRefExpr(state);
        Ok(())
    } else if same_text(kind, "DeclStmt") {
        parse_decl_stmt(state);
        Ok(())
    } else if same_text(kind, "ParenExpr") {
        parse_paren_expr(state);
        Ok(())
    } else if same_text(kind, "AnnotateAttr") {
        Ok(())
    } else if is_ignored(kind) {
        Ok(())
    } else {
        Err(CheckError::UnsupportedConstruct)
    }
}

/// Where lowering ended: the state it had reached, and whether it failed.
pub struct Lowered {
    pub state: LoweringModel,
    pub end: Result<(), CheckError>,
}

/// The state after `node` and everything below it has been lowered: the
/// node is prepared, its children are lowered from left to right, and the
/// node is reduced. The first failure ends lowering, in the state that had
/// been reached: a step that fails changes nothing.
pub open spec fn lowered(m: LoweringModel, node: AstNode) -> Lowered
    decreases node, 0nat,
{
    match prepared(m, node) {
        Err(err) => Lowered { state: m, end: Err(err) },
        Ok(before) => {
            let children = lowered_all(before, node.inner@);
            if children.end is Ok {
                match reduced(
                    children.state,
                    node,
                    node.inner@.len() as int,
                    before.inst.len() as int,
                ) {
                    Ok(after) => Lowered { state: after, end: Ok(()) },
                    Err(err) => Lowered { state: children.state, end: Err(err) },
                }
            } else {
                children
            }
        },
    }
}

/// The state after the nodes have been lowered from left to right, up to
/// the first failure.
pub open spec fn lowered_all(m: LoweringModel, nodes: Seq<AstNode>) -> Lowered
    decreases nodes, 1nat,
{
    if nodes.len() == 0 {
        Lowered { state: m, end: Ok(()) }
    } else {
        let first = lowered(m, nodes[0]);
        if first.end is Ok {
            lowered_all(first.state, nodes.drop_first())
        } else {
            first
        }
    }
}

/// Every instruction that waits and every function that is complete is
/// well formed.
pub open spec fn state_well_formed(m: LoweringModel) -> bool {
    all_well_formed(m.inst) && unit_well_formed(m.functions)
}

/// A call of two references keeps the order in which the references were
/// written.
pub proof fn lemma_call_of_two_references(
    stack: Seq<InstModel>,
    callee: Seq<char>,
    first: Seq<char>,
    second: Seq<char>,
)
    ensures
        call_reduced(
            stack.push(InstModel::VarDecl(0, callee, plain())).push(
                InstModel::VarDecl(0, first, plain()),
            ).push(InstModel::VarDecl(0, second, plain())),
            3,
        ) == Ok::<Seq<InstModel>, CheckError>(
            stack.push(
                InstModel::Eval(
                    0,
                    ExprModel::FunctionCall(
                        callee,
                        seq![ExprModel::LocalVariable(first), ExprModel::LocalVariable(second)],
                    ),
                ),
            ),
        ),
{
    let full = stack.push(InstModel::VarDecl(0, callee, plain())).push(
        InstModel::VarDecl(0, first, plain()),
    ).push(InstModel::VarDecl(0, second, plain()));
    let base = full.len() - 3;
    assert(full.take(base) =~= stack);
    assert(Seq::new(2, |i: int| operand_of(full[base + 1 + i]).unwrap()) =~= seq![
        ExprModel::LocalVariable(first),
        ExprModel::LocalVariable(second),
    ]);
}

/// What a node does before and after its children are lowered keeps the
/// state well formed.
pub proof fn lemma_steps_keep_well_formed(m: LoweringModel, node: AstNode, children: int, inst_cnt: int)
    requires
        state_well_formed(m),
    ensures
        prepared(m, node) matches Ok(next) ==> state_well_formed(next),
        reduced(m, node, children, inst_cnt) matches Ok(next) ==> state_well_formed(next),
{
    if reduced(m, node, children, inst_cnt) is Ok {
        let next = reduced(m, node, children, inst_cnt)->Ok_0;
        let entries = m.inst.skip(inst_cnt);
        if 0 <= inst_cnt <= m.inst.len() {
            assert forall|i: int| 0 <= i < entries.len() implies well_formed(
                #[trigger] entries[i],
            ) by {
                assert(entries[i] == m.inst[inst_cnt + i]);
            }
        }
        assert forall|i: int| 0 <= i < next.inst.len() implies well_formed(
            #[trigger] next.inst[i],
        ) by {
            if i < m.inst.len() && i < next.inst.len() - 1 {
                assert(next.inst[i] == m.inst[i]);
            }
        }
        assert forall|i: int| 0 <= i < next.functions.len() implies all_well_formed(
            (#[trigger] next.functions[i]).inst,
        ) by {
            if i < m.functions.len() {
                assert(next.functions[i] == m.functions[i]);
            } else {
                let at = choose|at: int| body_at(entries, at);
                assert(well_formed(entries[at]));
            }
        }
    }
}

/// Lowering makes well-formed instructions only: whatever it leaves
/// waiting and whatever function it completes holds conditionals of two or
/// three instructions, also where it fails on the way.
pub proof fn lemma_lowered_well_formed(m: LoweringModel, node: AstNode)
    requires
        state_well_formed(m),
    ensures
        state_well_formed(lowered(m, node).state),
    decreases node, 0nat,
{
    lemma_steps_keep_well_formed(m, node, 0, 0);
    if prepared(m, node) is Ok {
        let before = prepared(m, node)->Ok_0;
        lemma_lowered_all_well_formed(before, node.inner@);
        lemma_steps_keep_well_formed(
            lowered_all(before, node.inner@).state,
            node,
            node.inner@.len() as int,
            before.inst.len() as int,
        );
    }
}

/// The same of nodes lowered one after the other.
pub proof fn lemma_lowered_all_well_formed(m: LoweringModel, nodes: Seq<AstNode>)
    requires
        state_well_formed(m),
    ensures
        state_well_formed(lowered_all(m, nodes).state),
    decreases nodes, 1nat,
{
    if nodes.len() > 0 {
        lemma_lowered_well_formed(m, nodes[0]);
        lemma_lowered_all_well_formed(lowered(m, nodes[0]).state, nodes.drop_first());
    }
}

/// Lowers `node` and everything below it. After a failure the state is the
/// one that had been reached when the failing step began.
pub fn traverse_json(state: &mut ExecutionState, node: &AstNode) -> (res: Result<(), CheckError>)
    ensures
        res == lowered(old(state)@, *node).end,
        final(state)@ == lowered(old(state)@, *node).state,
    decreases node,
{
    match pre_processing(state, node) {
        Err(err) => {
            return Err(err);
        },
        Ok(_) => {},
    }
    let inst_count = state.inst.len();
    let ghost before = state@;
    let ghost all = node.inner@;
    assert(all.skip(0) =~= all);
    let mut i: usize = 0;
    while i < node.inner.len()
        invariant
            i <= node.inner.len(),
            all == node.inner@,
            prepared(old(state)@, *node) == Ok::<LoweringModel, CheckError>(before),
            inst_count == before.inst.len(),
            lowered_all(before, all) == lowered_all(state@, all.skip(i as int)),
        decreases node.inner.len() - i,
    {
        proof {
            assert(all.skip(i as int).drop_first() =~= all.skip(i + 1));
            assert(all.skip(i as int)[0] == node.inner@[i as int]);
        }
        match traverse_json(state, &node.inner[i]) {
            Err(err) => {
                return Err(err);
            },
            Ok(_) => {},
        }
        i += 1;
    }
    proof {
        assert(all.skip(all.len() as int) =~= Seq::<AstNode>::empty());
    }
    match post_processing(node, state, node.inner.len(), inst_count) {
        Err(err) => Err(err),
        Ok(_) => Ok(()),
    }
}

/// The state that lowering starts from.
pub open spec fn initial(source: Seq<Seq<char>>) -> LoweringModel {
    LoweringModel {
        source,
        annotation: Seq::empty(),
        var_decl: 0,
        inst: Seq::empty(),
        functions: Seq::empty(),
    }
}

/// Lowers the syntax tree below `root` into one unit. `source` holds the
/// lines of the source text that the tree was made from.
pub fn lower(root: &AstNode, source: Vec<String>) -> (res: Result<TranslationUnit, CheckError>)
    ensures
        match lowered(initial(lines_of(source@)), *root).end {
            Ok(_) => res matches Ok(tl) && tl@ == lowered(
                initial(lines_of(source@)),
                *root,
            ).state.functions,
            Err(err) => res matches Err(e) && e == err,
        },
        res matches Ok(tl) ==> unit_well_formed(tl@),
{
    proof {
        lemma_lowered_well_formed(initial(lines_of(source@)), *root);
    }
    let mut state = ExecutionState {
        source,
        annotation: String::new(),
        var_decl: 0,
        inst: Vec::new(),
        tl: TranslationUnit { sub_unit: Vec::new() },
    };
    assert(state@.inst =~= Seq::empty());
    assert(state@.functions =~= Seq::empty());
    match traverse_json(&mut state, root) {
        Err(err) => Err(err),
        Ok(_) => Ok(state.tl),
    }
}

} // verus!
