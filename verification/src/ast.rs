//! The abstract syntax tree the cleanup passes work on.
//!
//! A local is an index into an arena of optional display names (see
//! `local`), so statements that share a local share its index; equality of
//! locals is equality of indices. Nested blocks are owned subtrees: a block
//! has exactly one structural parent.

use vstd::prelude::*;

verus! {

/// A literal value.
pub enum Literal {
    Nil,
    Boolean(bool),
    Number(i64),
    Str(Vec<u8>),
}

/// A binary operator. Short-circuit `and`/`or` are included: the structurer
/// emits them when it collapses chained conditionals.
#[derive(Clone, Copy, PartialEq, Eq, Structural)]
pub enum BinaryOp {
    Add,
    Sub,
    Mul,
    Div,
    Mod,
    Pow,
    Concat,
    Eq,
    Ne,
    Lt,
    Le,
    Gt,
    Ge,
    And,
    Or,
}

/// A unary operator.
#[derive(Clone, Copy, PartialEq, Eq, Structural)]
pub enum UnaryOp {
    Not,
    Neg,
    Len,
}

/// An index expression `base[key]`.
pub struct Index {
    pub left: Box<RValue>,
    pub right: Box<RValue>,
}

/// A call `f(a, b, ...)`; the callee is an arbitrary expression.
pub struct Call {
    pub value: Box<RValue>,
    pub arguments: Vec<RValue>,
}

/// A method call `base:method(a, b, ...)`.
pub struct MethodCall {
    pub value: Box<RValue>,
    pub method: Vec<u8>,
    pub arguments: Vec<RValue>,
}

/// How a closure captures a local of the enclosing frame: by value at
/// creation, or by reference to the shared slot.
#[derive(Clone, Copy, PartialEq, Eq, Structural)]
pub enum Upvalue {
    ByCopy(usize),
    ByRef(usize),
}

/// A closure expression carrying its own function tree.
pub struct Closure {
    pub parameters: Vec<usize>,
    pub is_variadic: bool,
    pub upvalues: Vec<Upvalue>,
    pub body: Block,
}

/// An expression.
pub enum RValue {
    Literal(Literal),
    Local(usize),
    Global(Vec<u8>),
    Field(Box<RValue>, Vec<u8>),
    Index(Index),
    Call(Call),
    MethodCall(MethodCall),
    Binary(Box<RValue>, BinaryOp, Box<RValue>),
    Unary(UnaryOp, Box<RValue>),
    Closure(Closure),
    Varargs,
    Table(Vec<RValue>),
}

/// An assignment target.
pub enum LValue {
    Local(usize),
    Global(Vec<u8>),
    Index(Index),
}

/// A parallel assignment: all right-hand sides are evaluated before any
/// left-hand side is written. `is_declaration` makes it a `local` statement.
pub struct Assign {
    pub left: Vec<LValue>,
    pub right: Vec<RValue>,
    pub is_declaration: bool,
}

/// A conditional with both arms; an absent `else` is an empty block.
pub struct If {
    pub condition: RValue,
    pub then_block: Block,
    pub else_block: Block,
}

pub struct While {
    pub condition: RValue,
    pub block: Block,
}

pub struct Repeat {
    pub block: Block,
    pub condition: RValue,
}

pub struct NumericFor {
    pub counter: usize,
    pub initial: RValue,
    pub limit: RValue,
    pub step: RValue,
    pub block: Block,
}

pub struct GenericFor {
    pub res_locals: Vec<usize>,
    pub right: Vec<RValue>,
    pub block: Block,
}

/// A bulk table store: `values` (and an optional multi-value `tail`) are
/// written into the table held by `object_local` starting at `index`.
pub struct SetList {
    pub object_local: usize,
    pub index: usize,
    pub values: Vec<RValue>,
    pub tail: Option<RValue>,
}

/// A statement.
pub enum Statement {
    Assign(Assign),
    If(If),
    While(While),
    Repeat(Repeat),
    NumericFor(NumericFor),
    GenericFor(GenericFor),
    Return(Vec<RValue>),
    Break,
    Continue,
    Goto(usize),
    Label(usize),
    SetList(SetList),
    Call(Call),
}

/// An ordered sequence of statements.
pub struct Block {
    pub statements: Vec<Statement>,
}

// ---------------------------------------------------------------------------
// Mathematical model. Every contract in the crate speaks of these views:
// a `Vec` becomes a `Seq`, an `i64` an `int`, and each node keeps its shape.
// ---------------------------------------------------------------------------

#[verifier::ext_equal]
pub enum LiteralV {
    Nil,
    Boolean(bool),
    Number(int),
    Str(Seq<u8>),
}

#[verifier::ext_equal]
pub struct IndexV {
    pub left: Box<RValueV>,
    pub right: Box<RValueV>,
}

#[verifier::ext_equal]
pub struct CallV {
    pub value: Box<RValueV>,
    pub arguments: Seq<RValueV>,
}

#[verifier::ext_equal]
pub struct MethodCallV {
    pub value: Box<RValueV>,
    pub method: Seq<u8>,
    pub arguments: Seq<RValueV>,
}

#[verifier::ext_equal]
pub struct ClosureV {
    pub parameters: Seq<nat>,
    pub is_variadic: bool,
    pub upvalues: Seq<Upvalue>,
    pub body: Seq<StatementV>,
}

#[verifier::ext_equal]
pub enum RValueV {
    Literal(LiteralV),
    Local(nat),
    Global(Seq<u8>),
    Field(Box<RValueV>, Seq<u8>),
    Index(IndexV),
    Call(CallV),
    MethodCall(MethodCallV),
    Binary(Box<RValueV>, BinaryOp, Box<RValueV>),
    Unary(UnaryOp, Box<RValueV>),
    Closure(ClosureV),
    Varargs,
    Table(Seq<RValueV>),
}

#[verifier::ext_equal]
pub enum LValueV {
    Local(nat),
    Global(Seq<u8>),
    Index(IndexV),
}

#[verifier::ext_equal]
pub struct AssignV {
    pub left: Seq<LValueV>,
    pub right: Seq<RValueV>,
    pub is_declaration: bool,
}

#[verifier::ext_equal]
pub struct IfV {
    pub condition: RValueV,
    pub then_block: Seq<StatementV>,
    pub else_block: Seq<StatementV>,
}

#[verifier::ext_equal]
pub struct SetListV {
    pub object_local: nat,
    pub index: nat,
    pub values: Seq<RValueV>,
    pub tail: Option<RValueV>,
}

#[verifier::ext_equal]
pub enum StatementV {
    Assign(AssignV),
    If(IfV),
    While { condition: RValueV, block: Seq<StatementV> },
    Repeat { block: Seq<StatementV>, condition: RValueV },
    NumericFor {
        counter: nat,
        initial: RValueV,
        limit: RValueV,
        step: RValueV,
        block: Seq<StatementV>,
    },
    GenericFor { res_locals: Seq<nat>, right: Seq<RValueV>, block: Seq<StatementV> },
    Return(Seq<RValueV>),
    Break,
    Continue,
    Goto(nat),
    Label(nat),
    SetList(SetListV),
    Call(CallV),
}

pub open spec fn lit_view(l: Literal) -> LiteralV {
    match l {
        Literal::Nil => LiteralV::Nil,
        Literal::Boolean(b) => LiteralV::Boolean(b),
        Literal::Number(n) => LiteralV::Number(n as int),
        Literal::Str(s) => LiteralV::Str(s@),
    }
}

pub open spec fn params_view(p: Seq<usize>) -> Seq<nat> {
    p.map_values(|x: usize| x as nat)
}

pub open spec fn rv_view(rv: RValue) -> RValueV
    decreases rv,
{
    match rv {
        RValue::Literal(l) => RValueV::Literal(lit_view(l)),
        RValue::Local(id) => RValueV::Local(id as nat),
        RValue::Global(g) => RValueV::Global(g@),
        RValue::Field(base, name) => RValueV::Field(Box::new(rv_view(*base)), name@),
        RValue::Index(ix) => RValueV::Index(index_view(ix)),
        RValue::Call(c) => RValueV::Call(call_view(c)),
        RValue::MethodCall(mc) => RValueV::MethodCall(method_call_view(mc)),
        RValue::Binary(l, op, r) => RValueV::Binary(
            Box::new(rv_view(*l)),
            op,
            Box::new(rv_view(*r)),
        ),
        RValue::Unary(op, e) => RValueV::Unary(op, Box::new(rv_view(*e))),
        RValue::Closure(c) => RValueV::Closure(
            ClosureV {
                parameters: params_view(c.parameters@),
                is_variadic: c.is_variadic,
                upvalues: c.upvalues@,
                body: stmts_view(c.body.statements@),
            },
        ),
        RValue::Varargs => RValueV::Varargs,
        RValue::Table(items) => RValueV::Table(rvs_view(items@)),
    }
}

pub open spec fn index_view(ix: Index) -> IndexV
    decreases ix,
{
    IndexV { left: Box::new(rv_view(*ix.left)), right: Box::new(rv_view(*ix.right)) }
}

pub open spec fn call_view(c: Call) -> CallV
    decreases c,
{
    CallV { value: Box::new(rv_view(*c.value)), arguments: rvs_view(c.arguments@) }
}

pub open spec fn method_call_view(mc: MethodCall) -> MethodCallV
    decreases mc,
{
    MethodCallV {
        value: Box::new(rv_view(*mc.value)),
        method: mc.method@,
        arguments: rvs_view(mc.arguments@),
    }
}

pub open spec fn rvs_view(s: Seq<RValue>) -> Seq<RValueV>
    decreases s,
{
    if s.len() == 0 {
        Seq::empty()
    } else {
        seq![rv_view(s[0])] + rvs_view(s.subrange(1, s.len() as int))
    }
}

pub open spec fn lv_view(lv: LValue) -> LValueV
    decreases lv,
{
    match lv {
        LValue::Local(id) => LValueV::Local(id as nat),
        LValue::Global(g) => LValueV::Global(g@),
        LValue::Index(ix) => LValueV::Index(index_view(ix)),
    }
}

pub open spec fn lvs_view(s: Seq<LValue>) -> Seq<LValueV>
    decreases s,
{
    if s.len() == 0 {
        Seq::empty()
    } else {
        seq![lv_view(s[0])] + lvs_view(s.subrange(1, s.len() as int))
    }
}

pub open spec fn assign_view(a: Assign) -> AssignV
    decreases a,
{
    AssignV { left: lvs_view(a.left@), right: rvs_view(a.right@), is_declaration: a.is_declaration }
}

pub open spec fn set_list_view(sl: SetList) -> SetListV
    decreases sl,
{
    SetListV {
        object_local: sl.object_local as nat,
        index: sl.index as nat,
        values: rvs_view(sl.values@),
        tail: match sl.tail {
            Option::Some(t) => Option::Some(rv_view(t)),
            Option::None => Option::None,
        },
    }
}

pub open spec fn stmt_view(st: Statement) -> StatementV
    decreases st,
{
    match st {
        Statement::Assign(a) => StatementV::Assign(assign_view(a)),
        Statement::If(f) => StatementV::If(
            IfV {
                condition: rv_view(f.condition),
                then_block: stmts_view(f.then_block.statements@),
                else_block: stmts_view(f.else_block.statements@),
            },
        ),
        Statement::While(w) => StatementV::While {
            condition: rv_view(w.condition),
            block: stmts_view(w.block.statements@),
        },
        Statement::Repeat(r) => StatementV::Repeat {
            block: stmts_view(r.block.statements@),
            condition: rv_view(r.condition),
        },
        Statement::NumericFor(nf) => StatementV::NumericFor {
            counter: nf.counter as nat,
            initial: rv_view(nf.initial),
            limit: rv_view(nf.limit),
            step: rv_view(nf.step),
            block: stmts_view(nf.block.statements@),
        },
        Statement::GenericFor(gf) => StatementV::GenericFor {
            res_locals: params_view(gf.res_locals@),
            right: rvs_view(gf.right@),
            block: stmts_view(gf.block.statements@),
        },
        Statement::Return(rs) => StatementV::Return(rvs_view(rs@)),
        Statement::Break => StatementV::Break,
        Statement::Continue => StatementV::Continue,
        Statement::Goto(l) => StatementV::Goto(l as nat),
        Statement::Label(l) => StatementV::Label(l as nat),
        Statement::SetList(sl) => StatementV::SetList(set_list_view(sl)),
        Statement::Call(c) => StatementV::Call(call_view(c)),
    }
}

pub open spec fn stmts_view(s: Seq<Statement>) -> Seq<StatementV>
    decreases s,
{
    if s.len() == 0 {
        Seq::empty()
    } else {
        seq![stmt_view(s[0])] + stmts_view(s.subrange(1, s.len() as int))
    }
}

impl View for Literal {
    type V = LiteralV;

    open spec fn view(&self) -> LiteralV {
        lit_view(*self)
    }
}

impl View for RValue {
    type V = RValueV;

    open spec fn view(&self) -> RValueV {
        rv_view(*self)
    }
}

impl View for LValue {
    type V = LValueV;

    open spec fn view(&self) -> LValueV {
        lv_view(*self)
    }
}

impl View for Index {
    type V = IndexV;

    open spec fn view(&self) -> IndexV {
        index_view(*self)
    }
}

impl View for Call {
    type V = CallV;

    open spec fn view(&self) -> CallV {
        call_view(*self)
    }
}

impl View for MethodCall {
    type V = MethodCallV;

    open spec fn view(&self) -> MethodCallV {
        method_call_view(*self)
    }
}

impl View for Assign {
    type V = AssignV;

    open spec fn view(&self) -> AssignV {
        assign_view(*self)
    }
}

impl View for SetList {
    type V = SetListV;

    open spec fn view(&self) -> SetListV {
        set_list_view(*self)
    }
}

impl View for Statement {
    type V = StatementV;

    open spec fn view(&self) -> StatementV {
        stmt_view(*self)
    }
}

impl View for Block {
    type V = Seq<StatementV>;

    open spec fn view(&self) -> Seq<StatementV> {
        stmts_view(self.statements@)
    }
}

/// The element views of `rvs_view` line up with the elements.
#[verifier::rlimit(30)]
pub proof fn lemma_rvs_view(s: Seq<RValue>)
    ensures
        rvs_view(s).len() == s.len(),
        forall|i: int| 0 <= i < s.len() ==> rvs_view(s)[i] == rv_view(#[trigger] s[i]),
    decreases s,
{
    if s.len() > 0 {
        let rest = s.subrange(1, s.len() as int);
        lemma_rvs_view(rest);
        assert forall|i: int| 0 <= i < s.len() implies rvs_view(s)[i] == rv_view(#[trigger] s[i]) by {
            if i > 0 {
                assert(rest[i - 1] == s[i]);
            }
        }
    }
}

/// The element views of `lvs_view` line up with the elements.
#[verifier::rlimit(30)]
pub proof fn lemma_lvs_view(s: Seq<LValue>)
    ensures
        lvs_view(s).len() == s.len(),
        forall|i: int| 0 <= i < s.len() ==> lvs_view(s)[i] == lv_view(#[trigger] s[i]),
    decreases s,
{
    if s.len() > 0 {
        let rest = s.subrange(1, s.len() as int);
        lemma_lvs_view(rest);
        assert forall|i: int| 0 <= i < s.len() implies lvs_view(s)[i] == lv_view(#[trigger] s[i]) by {
            if i > 0 {
                assert(rest[i - 1] == s[i]);
            }
        }
    }
}

/// The element views of `stmts_view` line up with the elements.
#[verifier::rlimit(30)]
pub proof fn lemma_stmts_view(s: Seq<Statement>)
    ensures
        stmts_view(s).len() == s.len(),
        forall|i: int| 0 <= i < s.len() ==> stmts_view(s)[i] == stmt_view(#[trigger] s[i]),
    decreases s,
{
    if s.len() > 0 {
        let rest = s.subrange(1, s.len() as int);
        lemma_stmts_view(rest);
        assert forall|i: int| 0 <= i < s.len() implies stmts_view(s)[i] == stmt_view(#[trigger] s[i]) by {
            if i > 0 {
                assert(rest[i - 1] == s[i]);
            }
        }
    }
}

impl Block {
    pub fn new() -> (r: Block)
        ensures
            r@ =~= Seq::<StatementV>::empty(),
    {
        Block { statements: Vec::new() }
    }
}


// ---------------------------------------------------------------------------
// Well-formed parallel assignments. All right-hand sides of an assignment
// are evaluated before any target is written; the two sides line up one to
// one, except that a final call or varargs may produce the missing values.
// ---------------------------------------------------------------------------

/// The two sides of a parallel assignment agree: equal lengths, or a final
/// multi-value right-hand side (a call or varargs).
pub open spec fn parallel_wf(a: AssignV) -> bool {
    a.left.len() == a.right.len() || (a.right.len() > 0 && (a.right.last() is Call
        || a.right.last() is MethodCall || a.right.last() is Varargs))
}

/// Every parallel assignment below the expression is well formed.
pub open spec fn rv_parallel_wf(v: RValueV) -> bool
    decreases v,
{
    match v {
        RValueV::Literal(_) => true,
        RValueV::Local(_) => true,
        RValueV::Global(_) => true,
        RValueV::Field(base, _) => rv_parallel_wf(*base),
        RValueV::Index(ix) => rv_parallel_wf(*ix.left) && rv_parallel_wf(*ix.right),
        RValueV::Call(c) => rv_parallel_wf(*c.value) && rvs_parallel_wf(c.arguments),
        RValueV::MethodCall(mc) => rv_parallel_wf(*mc.value) && rvs_parallel_wf(mc.arguments),
        RValueV::Binary(l, _, r) => rv_parallel_wf(*l) && rv_parallel_wf(*r),
        RValueV::Unary(_, e) => rv_parallel_wf(*e),
        RValueV::Closure(c) => stmts_parallel_wf(c.body),
        RValueV::Varargs => true,
        RValueV::Table(items) => rvs_parallel_wf(items),
    }
}

pub open spec fn rvs_parallel_wf(s: Seq<RValueV>) -> bool
    decreases s,
{
    if s.len() == 0 {
        true
    } else {
        rv_parallel_wf(s[0]) && rvs_parallel_wf(s.subrange(1, s.len() as int))
    }
}

pub open spec fn lv_parallel_wf(lv: LValueV) -> bool
    decreases lv,
{
    match lv {
        LValueV::Local(_) => true,
        LValueV::Global(_) => true,
        LValueV::Index(ix) => rv_parallel_wf(*ix.left) && rv_parallel_wf(*ix.right),
    }
}

pub open spec fn lvs_parallel_wf(s: Seq<LValueV>) -> bool
    decreases s,
{
    if s.len() == 0 {
        true
    } else {
        lv_parallel_wf(s[0]) && lvs_parallel_wf(s.subrange(1, s.len() as int))
    }
}

/// Every parallel assignment below the statement is well formed, the
/// statement itself included.
pub open spec fn stmt_parallel_wf(st: StatementV) -> bool
    decreases st,
{
    match st {
        StatementV::Assign(a) => parallel_wf(a) && lvs_parallel_wf(a.left) && rvs_parallel_wf(
            a.right,
        ),
        StatementV::If(f) => rv_parallel_wf(f.condition) && stmts_parallel_wf(f.then_block)
            && stmts_parallel_wf(f.else_block),
        StatementV::While { condition, block } => rv_parallel_wf(condition) && stmts_parallel_wf(
            block,
        ),
        StatementV::Repeat { block, condition } => stmts_parallel_wf(block) && rv_parallel_wf(
            condition,
        ),
        StatementV::NumericFor { counter: _, initial, limit, step, block } => rv_parallel_wf(
            initial,
        ) && rv_parallel_wf(limit) && rv_parallel_wf(step) && stmts_parallel_wf(block),
        StatementV::GenericFor { res_locals: _, right, block } => rvs_parallel_wf(right)
            && stmts_parallel_wf(block),
        StatementV::Return(rs) => rvs_parallel_wf(rs),
        StatementV::Break => true,
        StatementV::Continue => true,
        StatementV::Goto(_) => true,
        StatementV::Label(_) => true,
        StatementV::SetList(sl) => rvs_parallel_wf(sl.values) && (match sl.tail {
            Option::Some(t) => rv_parallel_wf(t),
            Option::None => true,
        }),
        StatementV::Call(c) => rv_parallel_wf(*c.value) && rvs_parallel_wf(c.arguments),
    }
}

pub open spec fn stmts_parallel_wf(s: Seq<StatementV>) -> bool
    decreases s,
{
    if s.len() == 0 {
        true
    } else {
        stmt_parallel_wf(s[0]) && stmts_parallel_wf(s.subrange(1, s.len() as int))
    }
}

// ---------------------------------------------------------------------------
// Copies. The tree types carry `Vec`s, whose derived `Clone` the verifier
// cannot read, so the passes copy subtrees with these functions; each states
// that the copy has the same view as the original.
// ---------------------------------------------------------------------------

pub fn clone_usizes(v: &Vec<usize>) -> (r: Vec<usize>)
    ensures
        r@ == v@,
{
    let r = v.clone();
    assert(r@ =~= v@);
    r
}

pub fn clone_upvalues(v: &Vec<Upvalue>) -> (r: Vec<Upvalue>)
    ensures
        r@ == v@,
{
    let r = v.clone();
    assert(r@ =~= v@);
    r
}

pub fn clone_literal(l: &Literal) -> (r: Literal)
    ensures
        r@ == l@,
{
    match l {
        Literal::Nil => Literal::Nil,
        Literal::Boolean(b) => Literal::Boolean(*b),
        Literal::Number(n) => Literal::Number(*n),
        Literal::Str(s) => Literal::Str(crate::bytes::clone_bytes(s)),
    }
}

pub fn clone_rvalue(rv: &RValue) -> (r: RValue)
    ensures
        r@ == rv@,
    decreases *rv,
{
    match rv {
        RValue::Literal(l) => RValue::Literal(clone_literal(l)),
        RValue::Local(id) => RValue::Local(*id),
        RValue::Global(g) => RValue::Global(crate::bytes::clone_bytes(g)),
        RValue::Field(base, name) => RValue::Field(
            Box::new(clone_rvalue(base)),
            crate::bytes::clone_bytes(name),
        ),
        RValue::Index(ix) => RValue::Index(clone_index(ix)),
        RValue::Call(c) => RValue::Call(clone_call(c)),
        RValue::MethodCall(mc) => RValue::MethodCall(clone_method_call(mc)),
        RValue::Binary(l, op, r2) => RValue::Binary(
            Box::new(clone_rvalue(l)),
            *op,
            Box::new(clone_rvalue(r2)),
        ),
        RValue::Unary(op, e) => RValue::Unary(*op, Box::new(clone_rvalue(e))),
        RValue::Closure(c) => {
            let r = RValue::Closure(
                Closure {
                    parameters: clone_usizes(&c.parameters),
                    is_variadic: c.is_variadic,
                    upvalues: clone_upvalues(&c.upvalues),
                    body: clone_block(&c.body),
                },
            );
            assert(r@ =~= rv@);
            r
        },
        RValue::Varargs => RValue::Varargs,
        RValue::Table(items) => RValue::Table(clone_rvalues(items)),
    }
}

pub fn clone_rvalues(v: &Vec<RValue>) -> (r: Vec<RValue>)
    ensures
        rvs_view(r@) == rvs_view(v@),
        r@.len() == v@.len(),
    decreases v@,
{
    let mut r: Vec<RValue> = Vec::new();
    let mut i: usize = 0;
    while i < v.len()
        invariant
            i <= v@.len(),
            r@.len() == i,
            forall|j: int| 0 <= j < i ==> r@[j]@ == v@[j]@,
        decreases v@.len() - i,
    {
        assert(v@[i as int] == v[i as int]);
        r.push(clone_rvalue(&v[i]));
        i += 1;
    }
    proof {
        lemma_rvs_view(r@);
        lemma_rvs_view(v@);
        assert forall|k: int| 0 <= k < r@.len() implies rvs_view(r@)[k] == rvs_view(v@)[k] by {
            assert(r@[k]@ == v@[k]@);
        }
        assert(rvs_view(r@) =~= rvs_view(v@));
    }
    r
}

pub fn clone_index(ix: &Index) -> (r: Index)
    ensures
        r@ == ix@,
    decreases *ix,
{
    Index { left: Box::new(clone_rvalue(&ix.left)), right: Box::new(clone_rvalue(&ix.right)) }
}

pub fn clone_call(c: &Call) -> (r: Call)
    ensures
        r@ == c@,
    decreases *c,
{
    let r = Call { value: Box::new(clone_rvalue(&c.value)), arguments: clone_rvalues(&c.arguments) };
    assert(r@ =~= c@);
    r
}

pub fn clone_method_call(mc: &MethodCall) -> (r: MethodCall)
    ensures
        r@ == mc@,
    decreases *mc,
{
    let r = MethodCall {
        value: Box::new(clone_rvalue(&mc.value)),
        method: crate::bytes::clone_bytes(&mc.method),
        arguments: clone_rvalues(&mc.arguments),
    };
    assert(r@ =~= mc@);
    r
}

pub fn clone_lvalue(lv: &LValue) -> (r: LValue)
    ensures
        r@ == lv@,
    decreases *lv,
{
    match lv {
        LValue::Local(id) => LValue::Local(*id),
        LValue::Global(g) => LValue::Global(crate::bytes::clone_bytes(g)),
        LValue::Index(ix) => LValue::Index(clone_index(ix)),
    }
}

pub fn clone_lvalues(v: &Vec<LValue>) -> (r: Vec<LValue>)
    ensures
        lvs_view(r@) == lvs_view(v@),
        r@.len() == v@.len(),
    decreases v@,
{
    let mut r: Vec<LValue> = Vec::new();
    let mut i: usize = 0;
    while i < v.len()
        invariant
            i <= v@.len(),
            r@.len() == i,
            forall|j: int| 0 <= j < i ==> r@[j]@ == v@[j]@,
        decreases v@.len() - i,
    {
        r.push(clone_lvalue(&v[i]));
        i += 1;
    }
    proof {
        lemma_lvs_view(r@);
        lemma_lvs_view(v@);
        assert forall|k: int| 0 <= k < r@.len() implies lvs_view(r@)[k] == lvs_view(v@)[k] by {
            assert(r@[k]@ == v@[k]@);
        }
        assert(lvs_view(r@) =~= lvs_view(v@));
    }
    r
}

pub fn clone_assign(a: &Assign) -> (r: Assign)
    ensures
        r@ == a@,
    decreases *a,
{
    let r = Assign {
        left: clone_lvalues(&a.left),
        right: clone_rvalues(&a.right),
        is_declaration: a.is_declaration,
    };
    assert(r@ =~= a@);
    r
}

pub fn clone_set_list(sl: &SetList) -> (r: SetList)
    ensures
        r@ == sl@,
    decreases *sl,
{
    let tail = match &sl.tail {
        Option::Some(t) => Option::Some(clone_rvalue(t)),
        Option::None => Option::None,
    };
    let r = SetList {
        object_local: sl.object_local,
        index: sl.index,
        values: clone_rvalues(&sl.values),
        tail,
    };
    assert(r@ =~= sl@);
    r
}

pub fn clone_statement(st: &Statement) -> (r: Statement)
    ensures
        r@ == st@,
    decreases *st,
{
    match st {
        Statement::Assign(a) => Statement::Assign(clone_assign(a)),
        Statement::If(f) => {
            let r = Statement::If(
                If {
                    condition: clone_rvalue(&f.condition),
                    then_block: clone_block(&f.then_block),
                    else_block: clone_block(&f.else_block),
                },
            );
            assert(r@ =~= st@);
            r
        },
        Statement::While(w) => {
            let r = Statement::While(
                While { condition: clone_rvalue(&w.condition), block: clone_block(&w.block) },
            );
            assert(r@ =~= st@);
            r
        },
        Statement::Repeat(rp) => {
            let r = Statement::Repeat(
                Repeat { block: clone_block(&rp.block), condition: clone_rvalue(&rp.condition) },
            );
            assert(r@ =~= st@);
            r
        },
        Statement::NumericFor(nf) => {
            let r = Statement::NumericFor(
                NumericFor {
                    counter: nf.counter,
                    initial: clone_rvalue(&nf.initial),
                    limit: clone_rvalue(&nf.limit),
                    step: clone_rvalue(&nf.step),
                    block: clone_block(&nf.block),
                },
            );
            assert(r@ =~= st@);
            r
        },
        Statement::GenericFor(gf) => {
            let r = Statement::GenericFor(
                GenericFor {
                    res_locals: clone_usizes(&gf.res_locals),
                    right: clone_rvalues(&gf.right),
                    block: clone_block(&gf.block),
                },
            );
            assert(r@ =~= st@);
            r
        },
        Statement::Return(rs) => {
            let r = Statement::Return(clone_rvalues(rs));
            assert(r@ =~= st@);
            r
        },
        Statement::Break => Statement::Break,
        Statement::Continue => Statement::Continue,
        Statement::Goto(l) => Statement::Goto(*l),
        Statement::Label(l) => Statement::Label(*l),
        Statement::SetList(sl) => Statement::SetList(clone_set_list(sl)),
        Statement::Call(c) => Statement::Call(clone_call(c)),
    }
}

pub fn clone_stmts(v: &Vec<Statement>) -> (r: Vec<Statement>)
    ensures
        stmts_view(r@) == stmts_view(v@),
        r@.len() == v@.len(),
    decreases v@,
{
    let mut r: Vec<Statement> = Vec::new();
    let mut i: usize = 0;
    while i < v.len()
        invariant
            i <= v@.len(),
            r@.len() == i,
            forall|j: int| 0 <= j < i ==> r@[j]@ == v@[j]@,
        decreases v@.len() - i,
    {
        r.push(clone_statement(&v[i]));
        i += 1;
    }
    proof {
        lemma_stmts_view(r@);
        lemma_stmts_view(v@);
        assert forall|k: int| 0 <= k < r@.len() implies stmts_view(r@)[k] == stmts_view(v@)[k] by {
            assert(r@[k]@ == v@[k]@);
        }
        assert(stmts_view(r@) =~= stmts_view(v@));
    }
    r
}

pub fn clone_block(b: &Block) -> (r: Block)
    ensures
        r@ == b@,
    decreases *b,
{
    Block { statements: clone_stmts(&b.statements) }
}

} // verus!
