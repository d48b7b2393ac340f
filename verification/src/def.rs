//! The intermediate representation: functions, instructions, expressions.

use vstd::prelude::*;

verus! {

/// What is known of one binding.
#[derive(Debug, Clone, Copy, PartialEq, Eq, Structural)]
pub struct Variable {
    /// The declared type carries no `const` qualifier.
    pub mutable: bool,
    /// The binding holds a resource that has to be given up before the
    /// binding may be overwritten.
    pub ownership: bool,
    /// Pointer depth of the declared type. Carried along, never consulted.
    pub indirection: u32,
}

/// An expression: a call or a reference to a binding.
#[derive(Debug)]
pub enum ExprDescriptor {
    /// Callee name and arguments, left to right.
    FunctionCall(String, Vec<ExprDescriptor>),
    /// The name of a binding.
    LocalVariable(String),
}

/// An instruction. The leading number is the source line the instruction
/// was lowered from, or 0 where none was recorded.
#[derive(Debug)]
pub enum Inst {
    /// A compound statement: instructions in order.
    InstSet(u64, Vec<Inst>),
    /// A parameter: its name and its descriptor.
    ParamDecl(u64, String, Variable),
    /// A field of a record: its name and its descriptor.
    FieldDecl(u64, String, Variable),
    /// A local: its name and its descriptor.
    VarDecl(u64, String, Variable),
    /// Target name and the expression assigned to it.
    Assign(u64, String, ExprDescriptor),
    /// An expression that is evaluated for what it may fail on.
    Eval(u64, ExprDescriptor),
    /// What stands for the condition, the then-body and, where there is
    /// one, the else-body.
    If(u64, Vec<Inst>),
    /// The name of what is returned; empty where it is not known.
    ReturnStmt(u64, String),
}

/// A lowered function.
#[derive(Debug)]
pub struct Function {
    pub name: String,
    /// The parameters in order, each with the name it is bound under.
    pub param: Vec<(String, Variable)>,
    /// Absent exactly when the declared return type is `void` with no
    /// pointer in it.
    pub ret_val: Option<Variable>,
    /// The instructions of the body block.
    pub inst: Vec<Inst>,
}

/// A top-level unit.
#[derive(Debug)]
pub enum TranslationUnitSet {
    Function(Function),
}

/// Everything lowered from one document.
#[derive(Debug)]
pub struct TranslationUnit {
    pub sub_unit: Vec<TranslationUnitSet>,
}

/// What an expression stands for where no environment is consulted.
#[derive(Debug)]
pub enum ExprResult {
    /// A named binding.
    DeclaredVariable(String),
    /// An unnamed value, with its ownership flag.
    TemporaryVariable(bool),
}

/// The mathematical value of an expression.
pub enum ExprModel {
    FunctionCall(Seq<char>, Seq<ExprModel>),
    LocalVariable(Seq<char>),
}

/// The mathematical value of an instruction.
pub enum InstModel {
    InstSet(u64, Seq<InstModel>),
    ParamDecl(u64, Seq<char>, Variable),
    FieldDecl(u64, Seq<char>, Variable),
    VarDecl(u64, Seq<char>, Variable),
    Assign(u64, Seq<char>, ExprModel),
    Eval(u64, ExprModel),
    If(u64, Seq<InstModel>),
    ReturnStmt(u64, Seq<char>),
}

/// The mathematical value of a function.
pub struct FunctionModel {
    pub name: Seq<char>,
    pub param: Seq<(Seq<char>, Variable)>,
    pub ret_val: Option<Variable>,
    pub inst: Seq<InstModel>,
}

impl View for ExprDescriptor {
    type V = ExprModel;

    open spec fn view(&self) -> ExprModel
        decreases self,
    {
        match self {
            ExprDescriptor::FunctionCall(name, args) => ExprModel::FunctionCall(
                name@,
                Seq::new(
                    args@.len(),
                    |i: int|
                        if 0 <= i < args@.len() {
                            args@[i].view()
                        } else {
                            ExprModel::LocalVariable(Seq::empty())
                        },
                ),
            ),
            ExprDescriptor::LocalVariable(name) => ExprModel::LocalVariable(name@),
        }
    }
}

/// The values of the instructions that a block or a conditional holds.
pub open spec fn nested_views(list: Vec<Inst>) -> Seq<InstModel>
    decreases list, 0nat,
{
    Seq::new(
        list@.len(),
        |i: int|
            if 0 <= i < list@.len() {
                list@[i].view()
            } else {
                InstModel::ReturnStmt(0, Seq::empty())
            },
    )
}

impl View for Inst {
    type V = InstModel;

    open spec fn view(&self) -> InstModel
        decreases self, 1nat,
    {
        match self {
            Inst::InstSet(line, list) => InstModel::InstSet(*line, nested_views(*list)),
            Inst::ParamDecl(line, name, var) => InstModel::ParamDecl(*line, name@, *var),
            Inst::FieldDecl(line, name, var) => InstModel::FieldDecl(*line, name@, *var),
            Inst::VarDecl(line, name, var) => InstModel::VarDecl(*line, name@, *var),
            Inst::Assign(line, name, expr) => InstModel::Assign(*line, name@, expr@),
            Inst::Eval(line, expr) => InstModel::Eval(*line, expr@),
            Inst::If(line, list) => InstModel::If(*line, nested_views(*list)),
            Inst::ReturnStmt(line, name) => InstModel::ReturnStmt(*line, name@),
        }
    }
}

/// The values of a list of expressions, one for one.
pub open spec fn expr_views(list: Seq<ExprDescriptor>) -> Seq<ExprModel> {
    Seq::new(list.len(), |i: int| list[i]@)
}

/// The values of a list of instructions, one for one.
pub open spec fn inst_views(list: Seq<Inst>) -> Seq<InstModel> {
    Seq::new(list.len(), |i: int| list[i]@)
}

/// The values of a list of named descriptors, one for one.
pub open spec fn param_views(list: Seq<(String, Variable)>) -> Seq<(Seq<char>, Variable)> {
    Seq::new(list.len(), |i: int| (list[i].0@, list[i].1))
}

/// The value of a call is made of the values of its arguments.
pub proof fn lemma_call_view(e: ExprDescriptor)
    requires
        e is FunctionCall,
    ensures
        e@ == ExprModel::FunctionCall(e->FunctionCall_0@, expr_views(e->FunctionCall_1@)),
{
    assert(e@->FunctionCall_1 =~= expr_views(e->FunctionCall_1@));
}

/// The value of a block or a conditional is made of the values of the
/// instructions it holds.
pub proof fn lemma_list_view(inst: Inst)
    ensures
        inst matches Inst::InstSet(line, list) ==> inst@ == InstModel::InstSet(
            line,
            inst_views(list@),
        ),
        inst matches Inst::If(line, list) ==> inst@ == InstModel::If(line, inst_views(list@)),
{
    if inst is InstSet {
        assert(nested_views(inst->InstSet_1) =~= inst_views(inst->InstSet_1@));
    }
    if inst is If {
        assert(nested_views(inst->If_1) =~= inst_views(inst->If_1@));
    }
}

impl View for Function {
    type V = FunctionModel;

    open spec fn view(&self) -> FunctionModel {
        FunctionModel {
            name: self.name@,
            param: param_views(self.param@),
            ret_val: self.ret_val,
            inst: inst_views(self.inst@),
        }
    }
}

impl View for TranslationUnitSet {
    type V = FunctionModel;

    open spec fn view(&self) -> FunctionModel {
        match self {
            TranslationUnitSet::Function(f) => f@,
        }
    }
}

impl View for TranslationUnit {
    type V = Seq<FunctionModel>;

    open spec fn view(&self) -> Seq<FunctionModel> {
        Seq::new(self.sub_unit@.len(), |i: int| self.sub_unit@[i]@)
    }
}

/// Every conditional holds two instructions or three, at any depth.
pub open spec fn well_formed(inst: InstModel) -> bool
    decreases inst,
{
    match inst {
        InstModel::InstSet(_, list) => forall|i: int|
            0 <= i < list.len() ==> well_formed(#[trigger] list[i]),
        InstModel::If(_, list) => (list.len() == 2 || list.len() == 3) && forall|i: int|
            0 <= i < list.len() ==> well_formed(#[trigger] list[i]),
        _ => true,
    }
}

/// Every instruction of the list is well formed.
pub open spec fn all_well_formed(list: Seq<InstModel>) -> bool {
    forall|i: int| 0 <= i < list.len() ==> well_formed(#[trigger] list[i])
}

/// The body of every function of the unit is well formed.
pub open spec fn unit_well_formed(functions: Seq<FunctionModel>) -> bool {
    forall|i: int| 0 <= i < functions.len() ==> all_well_formed((#[trigger] functions[i]).inst)
}

/// An element-by-element copy of a list of expressions.
fn clone_exprs(list: &Vec<ExprDescriptor>) -> (res: Vec<ExprDescriptor>)
    ensures
        expr_views(res@) == expr_views(list@),
    decreases list,
{
    let mut copy: Vec<ExprDescriptor> = Vec::new();
    let mut i: usize = 0;
    while i < list.len()
        invariant
            i <= list.len(),
            copy@.len() == i,
            forall|j: int| 0 <= j < i ==> (#[trigger] copy@[j])@ == list@[j]@,
        decreases list.len() - i,
    {
        let item = list[i].clone();
        copy.push(item);
        i += 1;
    }
    assert(expr_views(copy@) =~= expr_views(list@));
    copy
}

impl Clone for ExprDescriptor {
    fn clone(&self) -> (res: Self)
        ensures
            res@ == self@,
        decreases self,
    {
        proof {
            if self is FunctionCall {
                lemma_call_view(*self);
            }
        }
        match self {
            ExprDescriptor::LocalVariable(name) => ExprDescriptor::LocalVariable(name.clone()),
            ExprDescriptor::FunctionCall(name, args) => {
                let res = ExprDescriptor::FunctionCall(name.clone(), clone_exprs(args));
                proof {
                    lemma_call_view(res);
                }
                res
            },
        }
    }
}

/// An element-by-element copy of a list of instructions.
pub fn clone_insts(list: &Vec<Inst>) -> (res: Vec<Inst>)
    ensures
        inst_views(res@) == inst_views(list@),
    decreases list,
{
    let mut copy: Vec<Inst> = Vec::new();
    let mut i: usize = 0;
    while i < list.len()
        invariant
            i <= list.len(),
            copy@.len() == i,
            forall|j: int| 0 <= j < i ==> (#[trigger] copy@[j])@ == list@[j]@,
        decreases list.len() - i,
    {
        let item = list[i].clone();
        copy.push(item);
        i += 1;
    }
    assert(inst_views(copy@) =~= inst_views(list@));
    copy
}

impl Clone for Inst {
    fn clone(&self) -> (res: Self)
        ensures
            res@ == self@,
        decreases self,
    {
        proof {
            lemma_list_view(*self);
        }
        match self {
            Inst::InstSet(line, list) => {
                let res = Inst::InstSet(*line, clone_insts(list));
                proof {
                    lemma_list_view(res);
                }
                res
            },
            Inst::ParamDecl(line, name, var) => Inst::ParamDecl(*line, name.clone(), *var),
            Inst::FieldDecl(line, name, var) => Inst::FieldDecl(*line, name.clone(), *var),
            Inst::VarDecl(line, name, var) => Inst::VarDecl(*line, name.clone(), *var),
            Inst::Assign(line, name, expr) => Inst::Assign(*line, name.clone(), expr.clone()),
            Inst::Eval(line, expr) => Inst::Eval(*line, expr.clone()),
            Inst::If(line, list) => {
                let res = Inst::If(*line, clone_insts(list));
                proof {
                    lemma_list_view(res);
                }
                res
            },
            Inst::ReturnStmt(line, name) => Inst::ReturnStmt(*line, name.clone()),
        }
    }
}

impl Clone for Function {
    fn clone(&self) -> (res: Self)
        ensures
            res@ == self@,
    {
        let mut param: Vec<(String, Variable)> = Vec::new();
        let mut i: usize = 0;
        while i < self.param.len()
            invariant
                i <= self.param.len(),
                param@.len() == i,
                forall|j: int|
                    0 <= j < i ==> (#[trigger] param@[j]).0@ == self.param@[j].0@ && param@[j].1
                        == self.param@[j].1,
            decreases self.param.len() - i,
        {
            param.push((self.param[i].0.clone(), self.param[i].1));
            i += 1;
        }
        assert(param_views(param@) =~= param_views(self.param@));
        Function {
            name: self.name.clone(),
            param,
            ret_val: self.ret_val,
            inst: clone_insts(&self.inst),
        }
    }
}

/// What an expression stands for where no environment is consulted: a
/// variable stands for itself, and a call for an unnamed value that owns
/// what the call handed out.
pub fn evaluate(rhs: &ExprDescriptor) -> (res: ExprResult)
    ensures
        match rhs {
            ExprDescriptor::LocalVariable(var) => res matches ExprResult::DeclaredVariable(name)
                && name@ == var@,
            ExprDescriptor::FunctionCall(_, _) => res matches ExprResult::TemporaryVariable(owns)
                && owns,
        },
{
    match rhs {
        ExprDescriptor::FunctionCall(_, _) => ExprResult::TemporaryVariable(true),
        ExprDescriptor::LocalVariable(var) => ExprResult::DeclaredVariable(var.clone()),
    }
}

} // verus!
