//! Substituting locals for locals across a tree, and the guard that rejects
//! unstructured control flow.
//!
//! `replace_locals` maps every occurrence of a local — reads, writes, binder
//! positions and captures, in nested closures too — through a table.
//! `fail_on_goto` is the last gate of the pipeline: structuring must leave
//! no `goto` or `label` behind, and an AST that still holds one is rejected
//! rather than printed.

use vstd::prelude::*;

use crate::ast::{
    Assign, Block, Call, Closure, GenericFor, If, Index, LValue, LValueV, MethodCall, NumericFor,
    RValue, RValueV, Repeat, SetList, Statement, StatementV, Upvalue, While, lemma_lvs_view,
    lemma_rvs_view, lemma_stmts_view, lvs_view, rvs_view, stmts_view,
};
use crate::bytes::clone_bytes;

verus! {

/// Why a decompile is aborted.
pub enum DecompileError {
    /// Structuring reached a fixed point with unstructured control left
    /// in the tree.
    StructuringIncomplete,
}

// ---------------------------------------------------------------------------
// The substitution table: an association list of locals, first match wins.
// ---------------------------------------------------------------------------

pub open spec fn pairs_view(s: Seq<(usize, usize)>) -> Seq<(nat, nat)> {
    s.map_values(|p: (usize, usize)| (p.0 as nat, p.1 as nat))
}

/// The table entry for `id`, if any.
pub open spec fn map_get(m: Seq<(nat, nat)>, id: nat) -> Option<nat>
    decreases m,
{
    if m.len() == 0 {
        Option::None
    } else if m[0].0 == id {
        Option::Some(m[0].1)
    } else {
        map_get(m.subrange(1, m.len() as int), id)
    }
}

/// What `id` becomes under the table: its entry, or itself.
pub open spec fn subst(m: Seq<(nat, nat)>, id: nat) -> nat {
    match map_get(m, id) {
        Option::Some(x) => x,
        Option::None => id,
    }
}

fn map_lookup(map: &Vec<(usize, usize)>, id: usize) -> (r: Option<usize>)
    ensures
        match r {
            Option::Some(x) => map_get(pairs_view(map@), id as nat) == Option::Some(x as nat),
            Option::None => map_get(pairs_view(map@), id as nat) is None,
        },
{
    let ghost m = pairs_view(map@);
    proof {
        assert(m.subrange(0, m.len() as int) =~= m);
    }
    let mut i: usize = 0;
    while i < map.len()
        invariant
            i <= map@.len(),
            m == pairs_view(map@),
            m.len() == map@.len(),
            forall|j: int| 0 <= j < map@.len() ==> m[j] == (map@[j].0 as nat, map@[j].1 as nat),
            map_get(m, id as nat) == map_get(m.subrange(i as int, m.len() as int), id as nat),
        decreases map@.len() - i,
    {
        let ghost tail = m.subrange(i as int, m.len() as int);
        let p = map[i];
        if p.0 == id {
            assert(tail[0] == (p.0 as nat, p.1 as nat));
            return Option::Some(p.1);
        }
        proof {
            assert(tail[0] == (p.0 as nat, p.1 as nat));
            assert(tail.subrange(1, tail.len() as int) =~= m.subrange(
                i + 1,
                m.len() as int,
            ));
        }
        i += 1;
    }
    proof {
        assert(m.subrange(i as int, m.len() as int) =~= Seq::<(nat, nat)>::empty());
    }
    Option::None
}

fn subst_id(map: &Vec<(usize, usize)>, id: usize) -> (r: usize)
    ensures
        r as nat == subst(pairs_view(map@), id as nat),
{
    match map_lookup(map, id) {
        Option::Some(x) => x,
        Option::None => id,
    }
}

// ---------------------------------------------------------------------------
// The substitution itself, stated over views.
// ---------------------------------------------------------------------------

pub open spec fn upv_repl(u: Upvalue, m: Seq<(nat, nat)>) -> Upvalue {
    match u {
        Upvalue::ByCopy(id) => Upvalue::ByCopy(subst(m, id as nat) as usize),
        Upvalue::ByRef(id) => Upvalue::ByRef(subst(m, id as nat) as usize),
    }
}

pub open spec fn ids_repl(s: Seq<nat>, m: Seq<(nat, nat)>) -> Seq<nat> {
    s.map_values(|id: nat| subst(m, id))
}

pub open spec fn rv_repl(v: RValueV, m: Seq<(nat, nat)>) -> RValueV
    decreases v,
{
    match v {
        RValueV::Literal(l) => RValueV::Literal(l),
        RValueV::Local(id) => RValueV::Local(subst(m, id)),
        RValueV::Global(g) => RValueV::Global(g),
        RValueV::Field(base, name) => RValueV::Field(Box::new(rv_repl(*base, m)), name),
        RValueV::Index(ix) => RValueV::Index(
            crate::ast::IndexV {
                left: Box::new(rv_repl(*ix.left, m)),
                right: Box::new(rv_repl(*ix.right, m)),
            },
        ),
        RValueV::Call(c) => RValueV::Call(
            crate::ast::CallV {
                value: Box::new(rv_repl(*c.value, m)),
                arguments: rvs_repl(c.arguments, m),
            },
        ),
        RValueV::MethodCall(mc) => RValueV::MethodCall(
            crate::ast::MethodCallV {
                value: Box::new(rv_repl(*mc.value, m)),
                method: mc.method,
                arguments: rvs_repl(mc.arguments, m),
            },
        ),
        RValueV::Binary(l, op, r) => RValueV::Binary(
            Box::new(rv_repl(*l, m)),
            op,
            Box::new(rv_repl(*r, m)),
        ),
        RValueV::Unary(op, e) => RValueV::Unary(op, Box::new(rv_repl(*e, m))),
        RValueV::Closure(c) => RValueV::Closure(
            crate::ast::ClosureV {
                parameters: ids_repl(c.parameters, m),
                is_variadic: c.is_variadic,
                upvalues: c.upvalues.map_values(|u: Upvalue| upv_repl(u, m)),
                body: stmts_repl(c.body, m),
            },
        ),
        RValueV::Varargs => RValueV::Varargs,
        RValueV::Table(items) => RValueV::Table(rvs_repl(items, m)),
    }
}

pub open spec fn rvs_repl(s: Seq<RValueV>, m: Seq<(nat, nat)>) -> Seq<RValueV>
    decreases s,
{
    if s.len() == 0 {
        Seq::empty()
    } else {
        seq![rv_repl(s[0], m)] + rvs_repl(s.subrange(1, s.len() as int), m)
    }
}

pub open spec fn lv_repl(lv: LValueV, m: Seq<(nat, nat)>) -> LValueV
    decreases lv,
{
    match lv {
        LValueV::Local(id) => LValueV::Local(subst(m, id)),
        LValueV::Global(g) => LValueV::Global(g),
        LValueV::Index(ix) => LValueV::Index(
            crate::ast::IndexV {
                left: Box::new(rv_repl(*ix.left, m)),
                right: Box::new(rv_repl(*ix.right, m)),
            },
        ),
    }
}

pub open spec fn lvs_repl(s: Seq<LValueV>, m: Seq<(nat, nat)>) -> Seq<LValueV>
    decreases s,
{
    if s.len() == 0 {
        Seq::empty()
    } else {
        seq![lv_repl(s[0], m)] + lvs_repl(s.subrange(1, s.len() as int), m)
    }
}

pub open spec fn stmt_repl(st: StatementV, m: Seq<(nat, nat)>) -> StatementV
    decreases st,
{
    match st {
        StatementV::Assign(a) => StatementV::Assign(
            crate::ast::AssignV {
                left: lvs_repl(a.left, m),
                right: rvs_repl(a.right, m),
                is_declaration: a.is_declaration,
            },
        ),
        StatementV::If(f) => StatementV::If(
            crate::ast::IfV {
                condition: rv_repl(f.condition, m),
                then_block: stmts_repl(f.then_block, m),
                else_block: stmts_repl(f.else_block, m),
            },
        ),
        StatementV::While { condition, block } => StatementV::While {
            condition: rv_repl(condition, m),
            block: stmts_repl(block, m),
        },
        StatementV::Repeat { block, condition } => StatementV::Repeat {
            block: stmts_repl(block, m),
            condition: rv_repl(condition, m),
        },
        StatementV::NumericFor { counter, initial, limit, step, block } => StatementV::NumericFor {
            counter: subst(m, counter),
            initial: rv_repl(initial, m),
            limit: rv_repl(limit, m),
            step: rv_repl(step, m),
            block: stmts_repl(block, m),
        },
        StatementV::GenericFor { res_locals, right, block } => StatementV::GenericFor {
            res_locals: ids_repl(res_locals, m),
            right: rvs_repl(right, m),
            block: stmts_repl(block, m),
        },
        StatementV::Return(rs) => StatementV::Return(rvs_repl(rs, m)),
        StatementV::Break => StatementV::Break,
        StatementV::Continue => StatementV::Continue,
        StatementV::Goto(l) => StatementV::Goto(l),
        StatementV::Label(l) => StatementV::Label(l),
        StatementV::SetList(sl) => StatementV::SetList(
            crate::ast::SetListV {
                object_local: subst(m, sl.object_local),
                index: sl.index,
                values: rvs_repl(sl.values, m),
                tail: match sl.tail {
                    Option::Some(t) => Option::Some(rv_repl(t, m)),
                    Option::None => Option::None,
                },
            },
        ),
        StatementV::Call(c) => StatementV::Call(
            crate::ast::CallV {
                value: Box::new(rv_repl(*c.value, m)),
                arguments: rvs_repl(c.arguments, m),
            },
        ),
    }
}

pub open spec fn stmts_repl(s: Seq<StatementV>, m: Seq<(nat, nat)>) -> Seq<StatementV>
    decreases s,
{
    if s.len() == 0 {
        Seq::empty()
    } else {
        seq![stmt_repl(s[0], m)] + stmts_repl(s.subrange(1, s.len() as int), m)
    }
}

/// The element results of `rvs_repl` line up with the elements.
pub proof fn lemma_rvs_repl(s: Seq<RValueV>, m: Seq<(nat, nat)>)
    ensures
        rvs_repl(s, m).len() == s.len(),
        forall|i: int| 0 <= i < s.len() ==> rvs_repl(s, m)[i] == rv_repl(#[trigger] s[i], m),
    decreases s,
{
    if s.len() > 0 {
        let rest = s.subrange(1, s.len() as int);
        lemma_rvs_repl(rest, m);
        assert forall|i: int| 0 <= i < s.len() implies rvs_repl(s, m)[i] == rv_repl(
            #[trigger] s[i],
            m,
        ) by {
            if i > 0 {
                assert(rest[i - 1] == s[i]);
            }
        }
    }
}

/// The element results of `lvs_repl` line up with the elements.
pub proof fn lemma_lvs_repl(s: Seq<LValueV>, m: Seq<(nat, nat)>)
    ensures
        lvs_repl(s, m).len() == s.len(),
        forall|i: int| 0 <= i < s.len() ==> lvs_repl(s, m)[i] == lv_repl(#[trigger] s[i], m),
    decreases s,
{
    if s.len() > 0 {
        let rest = s.subrange(1, s.len() as int);
        lemma_lvs_repl(rest, m);
        assert forall|i: int| 0 <= i < s.len() implies lvs_repl(s, m)[i] == lv_repl(
            #[trigger] s[i],
            m,
        ) by {
            if i > 0 {
                assert(rest[i - 1] == s[i]);
            }
        }
    }
}

/// The element results of `stmts_repl` line up with the elements.
pub proof fn lemma_stmts_repl(s: Seq<StatementV>, m: Seq<(nat, nat)>)
    ensures
        stmts_repl(s, m).len() == s.len(),
        forall|i: int| 0 <= i < s.len() ==> stmts_repl(s, m)[i] == stmt_repl(#[trigger] s[i], m),
    decreases s,
{
    if s.len() > 0 {
        let rest = s.subrange(1, s.len() as int);
        lemma_stmts_repl(rest, m);
        assert forall|i: int| 0 <= i < s.len() implies stmts_repl(s, m)[i] == stmt_repl(
            #[trigger] s[i],
            m,
        ) by {
            if i > 0 {
                assert(rest[i - 1] == s[i]);
            }
        }
    }
}

// ---------------------------------------------------------------------------
// Executable substitution. The functions rebuild the tree, so the old value
// stays whole in the contract.
// ---------------------------------------------------------------------------

fn replace_rvalue(rv: &RValue, map: &Vec<(usize, usize)>) -> (r: RValue)
    ensures
        r@ == rv_repl(rv@, pairs_view(map@)),
    decreases *rv,
{
    let ghost m = pairs_view(map@);
    match rv {
        RValue::Literal(l) => RValue::Literal(crate::ast::clone_literal(l)),
        RValue::Local(id) => RValue::Local(subst_id(map, *id)),
        RValue::Global(g) => RValue::Global(clone_bytes(g)),
        RValue::Field(base, name) => RValue::Field(
            Box::new(replace_rvalue(base, map)),
            clone_bytes(name),
        ),
        RValue::Index(ix) => {
            let left = replace_rvalue(&ix.left, map);
            let right = replace_rvalue(&ix.right, map);
            let r = RValue::Index(Index { left: Box::new(left), right: Box::new(right) });
            proof {
                reveal_with_fuel(crate::ast::rv_view, 3);
                reveal_with_fuel(crate::ast::index_view, 2);
                reveal_with_fuel(crate::ast::call_view, 2);
                reveal_with_fuel(crate::ast::method_call_view, 2);
                reveal_with_fuel(rv_repl, 2);
                assert(rv@ == RValueV::Index(crate::ast::index_view(*ix)));
                assert(r@ =~= rv_repl(rv@, m));
            }
            r
        },
        RValue::Call(c) => {
            let r = RValue::Call(replace_call(c, map));
            proof {
                reveal_with_fuel(crate::ast::rv_view, 3);
                reveal_with_fuel(crate::ast::index_view, 2);
                reveal_with_fuel(crate::ast::call_view, 2);
                reveal_with_fuel(crate::ast::method_call_view, 2);
                reveal_with_fuel(rv_repl, 2);
                assert(rv@ == RValueV::Call(crate::ast::call_view(*c)));
                assert(r@ =~= rv_repl(rv@, m));
            }
            r
        },
        RValue::MethodCall(mc) => {
            let r = RValue::MethodCall(
                MethodCall {
                    value: Box::new(replace_rvalue(&mc.value, map)),
                    method: clone_bytes(&mc.method),
                    arguments: replace_rvalues(&mc.arguments, map),
                },
            );
            proof {
                reveal_with_fuel(crate::ast::rv_view, 3);
                reveal_with_fuel(crate::ast::index_view, 2);
                reveal_with_fuel(crate::ast::call_view, 2);
                reveal_with_fuel(crate::ast::method_call_view, 2);
                reveal_with_fuel(rv_repl, 2);
                assert(rv@ == RValueV::MethodCall(crate::ast::method_call_view(*mc)));
                assert(r@ =~= rv_repl(rv@, m));
            }
            r
        },
        RValue::Binary(l, op, r2) => {
            let nl = replace_rvalue(l, map);
            let nr = replace_rvalue(r2, map);
            let r = RValue::Binary(Box::new(nl), *op, Box::new(nr));
            proof {
                reveal_with_fuel(crate::ast::rv_view, 3);
                reveal_with_fuel(rv_repl, 2);
                assert(r@ =~= rv_repl(rv@, m));
            }
            r
        },
        RValue::Unary(op, e) => RValue::Unary(*op, Box::new(replace_rvalue(e, map))),
        RValue::Closure(c) => {
            let mut parameters: Vec<usize> = Vec::new();
            let mut i: usize = 0;
            while i < c.parameters.len()
                invariant
                    i <= c.parameters@.len(),
                    m == pairs_view(map@),
                    parameters@.len() == i,
                    forall|j: int|
                        0 <= j < i ==> parameters@[j] as nat == subst(
                            m,
                            #[trigger] c.parameters@[j] as nat,
                        ),
                decreases c.parameters@.len() - i,
            {
                parameters.push(subst_id(map, c.parameters[i]));
                i += 1;
            }
            let mut upvalues: Vec<Upvalue> = Vec::new();
            let mut k: usize = 0;
            while k < c.upvalues.len()
                invariant
                    k <= c.upvalues@.len(),
                    m == pairs_view(map@),
                    upvalues@.len() == k,
                    forall|j: int|
                        0 <= j < k ==> upvalues@[j] == upv_repl(#[trigger] c.upvalues@[j], m),
                decreases c.upvalues@.len() - k,
            {
                let u = match c.upvalues[k] {
                    Upvalue::ByCopy(id) => Upvalue::ByCopy(subst_id(map, id)),
                    Upvalue::ByRef(id) => Upvalue::ByRef(subst_id(map, id)),
                };
                upvalues.push(u);
                k += 1;
            }
            let body = Block { statements: replace_stmts(&c.body.statements, map) };
            let r = RValue::Closure(
                Closure { parameters, is_variadic: c.is_variadic, upvalues, body },
            );
            proof {
                assert(crate::ast::params_view(parameters@) =~= crate::ast::params_view(
                    c.parameters@,
                ).map_values(|id: nat| subst(m, id)));
                assert(upvalues@ =~= c.upvalues@.map_values(|u: Upvalue| upv_repl(u, m)));
                assert(r@ =~= rv_repl(rv@, m));
            }
            r
        },
        RValue::Varargs => RValue::Varargs,
        RValue::Table(items) => RValue::Table(replace_rvalues(items, map)),
    }
}

fn replace_call(c: &Call, map: &Vec<(usize, usize)>) -> (r: Call)
    ensures
        crate::ast::call_view(r) == (match rv_repl(
            RValueV::Call(c@),
            pairs_view(map@),
        ) {
            RValueV::Call(cv) => cv,
            _ => c@,
        }),
    decreases *c,
{
    let r = Call {
        value: Box::new(replace_rvalue(&c.value, map)),
        arguments: replace_rvalues(&c.arguments, map),
    };
    assert(crate::ast::call_view(r) =~= (match rv_repl(
        RValueV::Call(c@),
        pairs_view(map@),
    ) {
        RValueV::Call(cv) => cv,
        _ => c@,
    }));
    r
}

fn replace_rvalues(v: &Vec<RValue>, map: &Vec<(usize, usize)>) -> (r: Vec<RValue>)
    ensures
        rvs_view(r@) == rvs_repl(rvs_view(v@), pairs_view(map@)),
    decreases v@,
{
    let ghost m = pairs_view(map@);
    proof {
        lemma_rvs_view(v@);
        lemma_rvs_repl(rvs_view(v@), m);
    }
    let mut r: Vec<RValue> = Vec::new();
    let mut i: usize = 0;
    while i < v.len()
        invariant
            i <= v@.len(),
            m == pairs_view(map@),
            rvs_view(v@).len() == v@.len(),
            forall|j: int| 0 <= j < v@.len() ==> rvs_view(v@)[j] == crate::ast::rv_view(
                #[trigger] v@[j],
            ),
            r@.len() == i,
            forall|j: int| 0 <= j < i ==> r@[j]@ == rv_repl(rvs_view(v@)[j], m),
        decreases v@.len() - i,
    {
        r.push(replace_rvalue(&v[i], map));
        i += 1;
    }
    proof {
        lemma_rvs_view(r@);
        assert forall|k: int| 0 <= k < r@.len() implies rvs_view(r@)[k] == rvs_repl(rvs_view(v@), m)[k] by {
            assert(r@[k]@ == rv_repl(rvs_view(v@)[k], m));
        }
        assert(rvs_view(r@) =~= rvs_repl(rvs_view(v@), m));
    }
    r
}

fn replace_lvalue(lv: &LValue, map: &Vec<(usize, usize)>) -> (r: LValue)
    ensures
        r@ == lv_repl(lv@, pairs_view(map@)),
    decreases *lv,
{
    match lv {
        LValue::Local(id) => LValue::Local(subst_id(map, *id)),
        LValue::Global(g) => LValue::Global(clone_bytes(g)),
        LValue::Index(ix) => {
            let left = replace_rvalue(&ix.left, map);
            let right = replace_rvalue(&ix.right, map);
            let r = LValue::Index(Index { left: Box::new(left), right: Box::new(right) });
            proof {
                reveal_with_fuel(crate::ast::rv_view, 3);
                reveal_with_fuel(crate::ast::index_view, 2);
                reveal_with_fuel(crate::ast::call_view, 2);
                reveal_with_fuel(crate::ast::method_call_view, 2);
                reveal_with_fuel(rv_repl, 2);
                assert(lv@ == LValueV::Index(crate::ast::index_view(*ix)));
                assert(r@ =~= lv_repl(lv@, pairs_view(map@)));
            }
            r
        },
    }
}

fn replace_lvalues(v: &Vec<LValue>, map: &Vec<(usize, usize)>) -> (r: Vec<LValue>)
    ensures
        lvs_view(r@) == lvs_repl(lvs_view(v@), pairs_view(map@)),
    decreases v@,
{
    let ghost m = pairs_view(map@);
    proof {
        lemma_lvs_view(v@);
        lemma_lvs_repl(lvs_view(v@), m);
    }
    let mut r: Vec<LValue> = Vec::new();
    let mut i: usize = 0;
    while i < v.len()
        invariant
            i <= v@.len(),
            m == pairs_view(map@),
            lvs_view(v@).len() == v@.len(),
            forall|j: int| 0 <= j < v@.len() ==> lvs_view(v@)[j] == crate::ast::lv_view(
                #[trigger] v@[j],
            ),
            r@.len() == i,
            forall|j: int| 0 <= j < i ==> r@[j]@ == lv_repl(lvs_view(v@)[j], m),
        decreases v@.len() - i,
    {
        r.push(replace_lvalue(&v[i], map));
        i += 1;
    }
    proof {
        lemma_lvs_view(r@);
        assert forall|k: int| 0 <= k < r@.len() implies lvs_view(r@)[k] == lvs_repl(lvs_view(v@), m)[k] by {
            assert(r@[k]@ == lv_repl(lvs_view(v@)[k], m));
        }
        assert(lvs_view(r@) =~= lvs_repl(lvs_view(v@), m));
    }
    r
}

fn replace_statement(st: &Statement, map: &Vec<(usize, usize)>) -> (r: Statement)
    ensures
        r@ == stmt_repl(st@, pairs_view(map@)),
    decreases *st,
{
    let ghost m = pairs_view(map@);
    match st {
        Statement::Assign(a) => {
            let r = Statement::Assign(
                Assign {
                    left: replace_lvalues(&a.left, map),
                    right: replace_rvalues(&a.right, map),
                    is_declaration: a.is_declaration,
                },
            );
            assert(r@ =~= stmt_repl(st@, m));
            r
        },
        Statement::If(f) => {
            let r = Statement::If(
                If {
                    condition: replace_rvalue(&f.condition, map),
                    then_block: Block { statements: replace_stmts(&f.then_block.statements, map) },
                    else_block: Block { statements: replace_stmts(&f.else_block.statements, map) },
                },
            );
            assert(r@ =~= stmt_repl(st@, m));
            r
        },
        Statement::While(w) => {
            let r = Statement::While(
                While {
                    condition: replace_rvalue(&w.condition, map),
                    block: Block { statements: replace_stmts(&w.block.statements, map) },
                },
            );
            assert(r@ =~= stmt_repl(st@, m));
            r
        },
        Statement::Repeat(rp) => {
            let r = Statement::Repeat(
                Repeat {
                    block: Block { statements: replace_stmts(&rp.block.statements, map) },
                    condition: replace_rvalue(&rp.condition, map),
                },
            );
            assert(r@ =~= stmt_repl(st@, m));
            r
        },
        Statement::NumericFor(nf) => {
            let r = Statement::NumericFor(
                NumericFor {
                    counter: subst_id(map, nf.counter),
                    initial: replace_rvalue(&nf.initial, map),
                    limit: replace_rvalue(&nf.limit, map),
                    step: replace_rvalue(&nf.step, map),
                    block: Block { statements: replace_stmts(&nf.block.statements, map) },
                },
            );
            assert(r@ =~= stmt_repl(st@, m));
            r
        },
        Statement::GenericFor(gf) => {
            let mut res_locals: Vec<usize> = Vec::new();
            let mut i: usize = 0;
            while i < gf.res_locals.len()
                invariant
                    i <= gf.res_locals@.len(),
                    m == pairs_view(map@),
                    res_locals@.len() == i,
                    forall|j: int|
                        0 <= j < i ==> res_locals@[j] as nat == subst(
                            m,
                            #[trigger] gf.res_locals@[j] as nat,
                        ),
                decreases gf.res_locals@.len() - i,
            {
                res_locals.push(subst_id(map, gf.res_locals[i]));
                i += 1;
            }
            let r = Statement::GenericFor(
                GenericFor {
                    res_locals,
                    right: replace_rvalues(&gf.right, map),
                    block: Block { statements: replace_stmts(&gf.block.statements, map) },
                },
            );
            proof {
                assert(crate::ast::params_view(r->GenericFor_0.res_locals@)
                    =~= crate::ast::params_view(gf.res_locals@).map_values(
                    |id: nat| subst(m, id),
                ));
                assert(r@ =~= stmt_repl(st@, m));
            }
            r
        },
        Statement::Return(rs) => {
            let r = Statement::Return(replace_rvalues(rs, map));
            assert(r@ =~= stmt_repl(st@, m));
            r
        },
        Statement::Break => Statement::Break,
        Statement::Continue => Statement::Continue,
        Statement::Goto(l) => Statement::Goto(*l),
        Statement::Label(l) => Statement::Label(*l),
        Statement::SetList(sl) => {
            let tail = match &sl.tail {
                Option::Some(t) => Option::Some(replace_rvalue(t, map)),
                Option::None => Option::None,
            };
            let r = Statement::SetList(
                SetList {
                    object_local: subst_id(map, sl.object_local),
                    index: sl.index,
                    values: replace_rvalues(&sl.values, map),
                    tail,
                },
            );
            assert(r@ =~= stmt_repl(st@, m));
            r
        },
        Statement::Call(c) => {
            let r = Statement::Call(replace_call(c, map));
            assert(r@ =~= stmt_repl(st@, m));
            r
        },
    }
}

fn replace_stmts(v: &Vec<Statement>, map: &Vec<(usize, usize)>) -> (r: Vec<Statement>)
    ensures
        stmts_view(r@) == stmts_repl(stmts_view(v@), pairs_view(map@)),
    decreases v@,
{
    let ghost m = pairs_view(map@);
    proof {
        lemma_stmts_view(v@);
        lemma_stmts_repl(stmts_view(v@), m);
    }
    let mut r: Vec<Statement> = Vec::new();
    let mut i: usize = 0;
    while i < v.len()
        invariant
            i <= v@.len(),
            m == pairs_view(map@),
            stmts_view(v@).len() == v@.len(),
            forall|j: int| 0 <= j < v@.len() ==> stmts_view(v@)[j] == crate::ast::stmt_view(
                #[trigger] v@[j],
            ),
            r@.len() == i,
            forall|j: int| 0 <= j < i ==> r@[j]@ == stmt_repl(stmts_view(v@)[j], m),
        decreases v@.len() - i,
    {
        r.push(replace_statement(&v[i], map));
        i += 1;
    }
    proof {
        lemma_stmts_view(r@);
        assert forall|k: int| 0 <= k < r@.len() implies stmts_view(r@)[k] == stmts_repl(stmts_view(v@), m)[k] by {
            assert(r@[k]@ == stmt_repl(stmts_view(v@)[k], m));
        }
        assert(stmts_view(r@) =~= stmts_repl(stmts_view(v@), m));
    }
    r
}

/// Maps every local in the block through the table: reads, writes, binder
/// positions and captures alike, nested closures included. An entry
/// `(a, b)` turns local `a` into local `b`; locals without an entry stay.
pub fn replace_locals(block: &mut Block, map: &Vec<(usize, usize)>)
    ensures
        final(block)@ == stmts_repl(old(block)@, pairs_view(map@)),
{
    let statements = replace_stmts(&block.statements, map);
    block.statements = statements;
}


// ---------------------------------------------------------------------------
// Substitution keeps every parallel assignment well formed: it maps locals
// one for one and never changes the length or the shape of either side.
// ---------------------------------------------------------------------------

pub proof fn lemma_rv_repl_parallel_wf(v: RValueV, m: Seq<(nat, nat)>)
    requires
        crate::ast::rv_parallel_wf(v),
    ensures
        crate::ast::rv_parallel_wf(rv_repl(v, m)),
    decreases v,
{
    match v {
        RValueV::Field(base, _) => {
            lemma_rv_repl_parallel_wf(*base, m);
        },
        RValueV::Index(ix) => {
            lemma_rv_repl_parallel_wf(*ix.left, m);
            lemma_rv_repl_parallel_wf(*ix.right, m);
        },
        RValueV::Call(c) => {
            lemma_rv_repl_parallel_wf(*c.value, m);
            lemma_rvs_repl_parallel_wf(c.arguments, m);
        },
        RValueV::MethodCall(mc) => {
            lemma_rv_repl_parallel_wf(*mc.value, m);
            lemma_rvs_repl_parallel_wf(mc.arguments, m);
        },
        RValueV::Binary(l, _, r) => {
            lemma_rv_repl_parallel_wf(*l, m);
            lemma_rv_repl_parallel_wf(*r, m);
        },
        RValueV::Unary(_, e) => {
            lemma_rv_repl_parallel_wf(*e, m);
        },
        RValueV::Closure(c) => {
            lemma_stmts_repl_parallel_wf(c.body, m);
        },
        RValueV::Table(items) => {
            lemma_rvs_repl_parallel_wf(items, m);
        },
        _ => {},
    }
}

pub proof fn lemma_rvs_repl_parallel_wf(s: Seq<RValueV>, m: Seq<(nat, nat)>)
    requires
        crate::ast::rvs_parallel_wf(s),
    ensures
        crate::ast::rvs_parallel_wf(rvs_repl(s, m)),
    decreases s,
{
    if s.len() > 0 {
        let rest = s.subrange(1, s.len() as int);
        lemma_rv_repl_parallel_wf(s[0], m);
        lemma_rvs_repl_parallel_wf(rest, m);
        let out = seq![rv_repl(s[0], m)] + rvs_repl(rest, m);
        assert(out[0] == rv_repl(s[0], m));
        assert(out.subrange(1, out.len() as int) =~= rvs_repl(rest, m));
        assert(crate::ast::rvs_parallel_wf(out));
    }
}

pub proof fn lemma_lv_repl_parallel_wf(lv: LValueV, m: Seq<(nat, nat)>)
    requires
        crate::ast::lv_parallel_wf(lv),
    ensures
        crate::ast::lv_parallel_wf(lv_repl(lv, m)),
    decreases lv,
{
    match lv {
        LValueV::Index(ix) => {
            lemma_rv_repl_parallel_wf(*ix.left, m);
            lemma_rv_repl_parallel_wf(*ix.right, m);
            assert(lv_repl(lv, m) == LValueV::Index(
                crate::ast::IndexV {
                    left: Box::new(rv_repl(*ix.left, m)),
                    right: Box::new(rv_repl(*ix.right, m)),
                },
            ));
        },
        _ => {},
    }
}

pub proof fn lemma_lvs_repl_parallel_wf(s: Seq<LValueV>, m: Seq<(nat, nat)>)
    requires
        crate::ast::lvs_parallel_wf(s),
    ensures
        crate::ast::lvs_parallel_wf(lvs_repl(s, m)),
    decreases s,
{
    if s.len() > 0 {
        let rest = s.subrange(1, s.len() as int);
        lemma_lv_repl_parallel_wf(s[0], m);
        lemma_lvs_repl_parallel_wf(rest, m);
        let out = seq![lv_repl(s[0], m)] + lvs_repl(rest, m);
        assert(out[0] == lv_repl(s[0], m));
        assert(out.subrange(1, out.len() as int) =~= lvs_repl(rest, m));
        assert(crate::ast::lvs_parallel_wf(out));
    }
}

pub proof fn lemma_stmt_repl_parallel_wf(st: StatementV, m: Seq<(nat, nat)>)
    requires
        crate::ast::stmt_parallel_wf(st),
    ensures
        crate::ast::stmt_parallel_wf(stmt_repl(st, m)),
    decreases st,
{
    match st {
        StatementV::Assign(a) => {
            lemma_lvs_repl_parallel_wf(a.left, m);
            lemma_rvs_repl_parallel_wf(a.right, m);
            lemma_lvs_repl(a.left, m);
            lemma_rvs_repl(a.right, m);
            if a.left.len() != a.right.len() {
                let last = a.right.len() - 1;
                assert(rvs_repl(a.right, m)[last] == rv_repl(a.right[last], m));
            }
        },
        StatementV::If(f) => {
            lemma_rv_repl_parallel_wf(f.condition, m);
            lemma_stmts_repl_parallel_wf(f.then_block, m);
            lemma_stmts_repl_parallel_wf(f.else_block, m);
        },
        StatementV::While { condition, block } => {
            lemma_rv_repl_parallel_wf(condition, m);
            lemma_stmts_repl_parallel_wf(block, m);
        },
        StatementV::Repeat { block, condition } => {
            lemma_stmts_repl_parallel_wf(block, m);
            lemma_rv_repl_parallel_wf(condition, m);
        },
        StatementV::NumericFor { counter: _, initial, limit, step, block } => {
            lemma_rv_repl_parallel_wf(initial, m);
            lemma_rv_repl_parallel_wf(limit, m);
            lemma_rv_repl_parallel_wf(step, m);
            lemma_stmts_repl_parallel_wf(block, m);
        },
        StatementV::GenericFor { res_locals: _, right, block } => {
            lemma_rvs_repl_parallel_wf(right, m);
            lemma_stmts_repl_parallel_wf(block, m);
        },
        StatementV::Return(rs) => {
            lemma_rvs_repl_parallel_wf(rs, m);
        },
        StatementV::SetList(sl) => {
            lemma_rvs_repl_parallel_wf(sl.values, m);
            match sl.tail {
                Option::Some(t) => {
                    lemma_rv_repl_parallel_wf(t, m);
                },
                Option::None => {},
            }
        },
        StatementV::Call(c) => {
            lemma_rv_repl_parallel_wf(*c.value, m);
            lemma_rvs_repl_parallel_wf(c.arguments, m);
        },
        _ => {},
    }
}

/// Substituting locals keeps every parallel assignment well formed.
pub proof fn lemma_stmts_repl_parallel_wf(s: Seq<StatementV>, m: Seq<(nat, nat)>)
    requires
        crate::ast::stmts_parallel_wf(s),
    ensures
        crate::ast::stmts_parallel_wf(stmts_repl(s, m)),
    decreases s,
{
    if s.len() > 0 {
        let rest = s.subrange(1, s.len() as int);
        lemma_stmt_repl_parallel_wf(s[0], m);
        lemma_stmts_repl_parallel_wf(rest, m);
        let out = seq![stmt_repl(s[0], m)] + stmts_repl(rest, m);
        assert(out[0] == stmt_repl(s[0], m));
        assert(out.subrange(1, out.len() as int) =~= stmts_repl(rest, m));
        assert(crate::ast::stmts_parallel_wf(out));
    }
}

// ---------------------------------------------------------------------------
// The goto guard.
// ---------------------------------------------------------------------------

/// No `goto` and no `label` anywhere below, nested closure bodies included.
pub open spec fn stmt_goto_free(st: StatementV) -> bool
    decreases st,
{
    match st {
        StatementV::Assign(a) => lvs_goto_free(a.left) && rvs_goto_free(a.right),
        StatementV::If(f) => rv_goto_free(f.condition) && stmts_goto_free(f.then_block)
            && stmts_goto_free(f.else_block),
        StatementV::While { condition, block } => rv_goto_free(condition) && stmts_goto_free(block),
        StatementV::Repeat { block, condition } => stmts_goto_free(block) && rv_goto_free(
            condition,
        ),
        StatementV::NumericFor { counter: _, initial, limit, step, block } => rv_goto_free(initial)
            && rv_goto_free(limit) && rv_goto_free(step) && stmts_goto_free(block),
        StatementV::GenericFor { res_locals: _, right, block } => rvs_goto_free(right)
            && stmts_goto_free(block),
        StatementV::Return(rs) => rvs_goto_free(rs),
        StatementV::Break => true,
        StatementV::Continue => true,
        StatementV::Goto(_) => false,
        StatementV::Label(_) => false,
        StatementV::SetList(sl) => rvs_goto_free(sl.values) && (match sl.tail {
            Option::Some(t) => rv_goto_free(t),
            Option::None => true,
        }),
        StatementV::Call(c) => rv_goto_free(*c.value) && rvs_goto_free(c.arguments),
    }
}

pub open spec fn stmts_goto_free(s: Seq<StatementV>) -> bool
    decreases s,
{
    if s.len() == 0 {
        true
    } else {
        stmt_goto_free(s[0]) && stmts_goto_free(s.subrange(1, s.len() as int))
    }
}

pub open spec fn rv_goto_free(v: RValueV) -> bool
    decreases v,
{
    match v {
        RValueV::Literal(_) => true,
        RValueV::Local(_) => true,
        RValueV::Global(_) => true,
        RValueV::Field(base, _) => rv_goto_free(*base),
        RValueV::Index(ix) => rv_goto_free(*ix.left) && rv_goto_free(*ix.right),
        RValueV::Call(c) => rv_goto_free(*c.value) && rvs_goto_free(c.arguments),
        RValueV::MethodCall(mc) => rv_goto_free(*mc.value) && rvs_goto_free(mc.arguments),
        RValueV::Binary(l, _, r) => rv_goto_free(*l) && rv_goto_free(*r),
        RValueV::Unary(_, e) => rv_goto_free(*e),
        RValueV::Closure(c) => stmts_goto_free(c.body),
        RValueV::Varargs => true,
        RValueV::Table(items) => rvs_goto_free(items),
    }
}

pub open spec fn rvs_goto_free(s: Seq<RValueV>) -> bool
    decreases s,
{
    if s.len() == 0 {
        true
    } else {
        rv_goto_free(s[0]) && rvs_goto_free(s.subrange(1, s.len() as int))
    }
}

pub open spec fn lv_goto_free(lv: LValueV) -> bool
    decreases lv,
{
    match lv {
        LValueV::Local(_) => true,
        LValueV::Global(_) => true,
        LValueV::Index(ix) => rv_goto_free(*ix.left) && rv_goto_free(*ix.right),
    }
}

pub open spec fn lvs_goto_free(s: Seq<LValueV>) -> bool
    decreases s,
{
    if s.len() == 0 {
        true
    } else {
        lv_goto_free(s[0]) && lvs_goto_free(s.subrange(1, s.len() as int))
    }
}

#[verifier::rlimit(40)]
fn check_lv_goto_free(lv: &LValue) -> (r: bool)
    ensures
        r == lv_goto_free(lv@),
    decreases *lv,
{
    proof {
        reveal_with_fuel(crate::ast::lv_view, 2);
        reveal_with_fuel(crate::ast::index_view, 2);
    }
    match lv {
        LValue::Local(_) => true,
        LValue::Global(_) => true,
        LValue::Index(ix) => check_rv_goto_free(&ix.left) && check_rv_goto_free(&ix.right),
    }
}

fn check_lvs_goto_free(v: &Vec<LValue>) -> (r: bool)
    ensures
        r == lvs_goto_free(lvs_view(v@)),
    decreases v@,
{
    proof {
        lemma_lvs_view(v@);
    }
    let mut i: usize = 0;
    let ghost sv = lvs_view(v@);
    proof {
        assert(sv.subrange(0, sv.len() as int) =~= sv);
    }
    while i < v.len()
        invariant
            i <= v@.len(),
            sv == lvs_view(v@),
            sv.len() == v@.len(),
            forall|j: int| 0 <= j < v@.len() ==> sv[j] == crate::ast::lv_view(#[trigger] v@[j]),
            lvs_goto_free(sv) == lvs_goto_free(sv.subrange(i as int, sv.len() as int)),
        decreases v@.len() - i,
    {
        let ghost tail = sv.subrange(i as int, sv.len() as int);
        if !check_lv_goto_free(&v[i]) {
            assert(tail[0] == sv[i as int]);
            return false;
        }
        proof {
            assert(tail[0] == sv[i as int]);
            assert(tail.subrange(1, tail.len() as int) =~= sv.subrange(i + 1, sv.len() as int));
        }
        i += 1;
    }
    proof {
        assert(sv.subrange(i as int, sv.len() as int) =~= Seq::<LValueV>::empty());
    }
    true
}

fn check_rv_goto_free(v: &RValue) -> (r: bool)
    ensures
        r == rv_goto_free(v@),
    decreases *v,
{
    proof {
        reveal_with_fuel(crate::ast::rv_view, 3);
        reveal_with_fuel(crate::ast::index_view, 2);
        reveal_with_fuel(crate::ast::call_view, 2);
        reveal_with_fuel(crate::ast::method_call_view, 2);
        reveal_with_fuel(rv_goto_free, 2);
    }
    match v {
        RValue::Literal(_) => true,
        RValue::Local(_) => true,
        RValue::Global(_) => true,
        RValue::Field(base, _) => check_rv_goto_free(base),
        RValue::Index(ix) => check_rv_goto_free(&ix.left) && check_rv_goto_free(&ix.right),
        RValue::Call(c) => check_rv_goto_free(&c.value) && check_rvs_goto_free(&c.arguments),
        RValue::MethodCall(mc) => check_rv_goto_free(&mc.value) && check_rvs_goto_free(
            &mc.arguments,
        ),
        RValue::Binary(l, _, r) => check_rv_goto_free(l) && check_rv_goto_free(r),
        RValue::Unary(_, e) => check_rv_goto_free(e),
        RValue::Closure(c) => check_stmts_goto_free(&c.body.statements),
        RValue::Varargs => true,
        RValue::Table(items) => check_rvs_goto_free(items),
    }
}

fn check_rvs_goto_free(v: &Vec<RValue>) -> (r: bool)
    ensures
        r == rvs_goto_free(rvs_view(v@)),
    decreases v@,
{
    proof {
        lemma_rvs_view(v@);
    }
    let mut i: usize = 0;
    let ghost sv = rvs_view(v@);
    proof {
        assert(sv.subrange(0, sv.len() as int) =~= sv);
    }
    while i < v.len()
        invariant
            i <= v@.len(),
            sv == rvs_view(v@),
            sv.len() == v@.len(),
            forall|j: int| 0 <= j < v@.len() ==> sv[j] == crate::ast::rv_view(#[trigger] v@[j]),
            rvs_goto_free(sv) == rvs_goto_free(sv.subrange(i as int, sv.len() as int)),
        decreases v@.len() - i,
    {
        let ghost tail = sv.subrange(i as int, sv.len() as int);
        if !check_rv_goto_free(&v[i]) {
            assert(tail[0] == sv[i as int]);
            return false;
        }
        proof {
            assert(tail[0] == sv[i as int]);
            assert(tail.subrange(1, tail.len() as int) =~= sv.subrange(i + 1, sv.len() as int));
        }
        i += 1;
    }
    proof {
        assert(sv.subrange(i as int, sv.len() as int) =~= Seq::<RValueV>::empty());
    }
    true
}

fn check_stmt_goto_free(st: &Statement) -> (r: bool)
    ensures
        r == stmt_goto_free(st@),
    decreases *st,
{
    match st {
        Statement::Assign(a) => check_lvs_goto_free(&a.left) && check_rvs_goto_free(&a.right),
        Statement::If(f) => check_rv_goto_free(&f.condition) && check_stmts_goto_free(
            &f.then_block.statements,
        ) && check_stmts_goto_free(&f.else_block.statements),
        Statement::While(w) => check_rv_goto_free(&w.condition) && check_stmts_goto_free(
            &w.block.statements,
        ),
        Statement::Repeat(rp) => check_stmts_goto_free(&rp.block.statements) && check_rv_goto_free(
            &rp.condition,
        ),
        Statement::NumericFor(nf) => check_rv_goto_free(&nf.initial) && check_rv_goto_free(
            &nf.limit,
        ) && check_rv_goto_free(&nf.step) && check_stmts_goto_free(&nf.block.statements),
        Statement::GenericFor(gf) => check_rvs_goto_free(&gf.right) && check_stmts_goto_free(
            &gf.block.statements,
        ),
        Statement::Return(rs) => check_rvs_goto_free(rs),
        Statement::Break => true,
        Statement::Continue => true,
        Statement::Goto(_) => false,
        Statement::Label(_) => false,
        Statement::SetList(sl) => check_rvs_goto_free(&sl.values) && (match &sl.tail {
            Option::Some(t) => check_rv_goto_free(t),
            Option::None => true,
        }),
        Statement::Call(c) => check_rv_goto_free(&c.value) && check_rvs_goto_free(&c.arguments),
    }
}

fn check_stmts_goto_free(v: &Vec<Statement>) -> (r: bool)
    ensures
        r == stmts_goto_free(stmts_view(v@)),
    decreases v@,
{
    proof {
        lemma_stmts_view(v@);
    }
    let mut i: usize = 0;
    let ghost sv = stmts_view(v@);
    proof {
        assert(sv.subrange(0, sv.len() as int) =~= sv);
    }
    while i < v.len()
        invariant
            i <= v@.len(),
            sv == stmts_view(v@),
            sv.len() == v@.len(),
            forall|j: int| 0 <= j < v@.len() ==> sv[j] == crate::ast::stmt_view(#[trigger] v@[j]),
            stmts_goto_free(sv) == stmts_goto_free(sv.subrange(i as int, sv.len() as int)),
        decreases v@.len() - i,
    {
        let ghost tail = sv.subrange(i as int, sv.len() as int);
        if !check_stmt_goto_free(&v[i]) {
            assert(tail[0] == sv[i as int]);
            return false;
        }
        proof {
            assert(tail[0] == sv[i as int]);
            assert(tail.subrange(1, tail.len() as int) =~= sv.subrange(i + 1, sv.len() as int));
        }
        i += 1;
    }
    proof {
        assert(sv.subrange(i as int, sv.len() as int) =~= Seq::<StatementV>::empty());
    }
    true
}

/// The final gate of the pipeline: accepts the block exactly when no `goto`
/// and no `label` statement remains anywhere in it, nested closure bodies
/// included. Structuring that leaves either behind was incomplete, and the
/// tree must not be printed.
pub fn fail_on_goto(block: &Block) -> (r: Result<(), DecompileError>)
    ensures
        r is Ok <==> stmts_goto_free(block@),
        r is Err ==> r == Result::<(), DecompileError>::Err(DecompileError::StructuringIncomplete),
{
    if check_stmts_goto_free(&block.statements) {
        Result::Ok(())
    } else {
        Result::Err(DecompileError::StructuringIncomplete)
    }
}

} // verus!
