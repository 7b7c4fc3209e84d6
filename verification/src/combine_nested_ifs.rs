//! Folding a local that only feeds the next `if` into that `if`'s
//! condition.
//!
//! The pattern is `local x = E` directly followed by `if x then ... end`,
//! where `x` has no other use: it is read neither in the else-branch nor
//! after the `if`. The pair becomes a single `if`
//! with condition `E`; when `x` is still read inside the then-branch, the
//! assignment moves to the top of that branch. The pass recurses into every
//! block-carrying statement, and re-examines a moved assignment against the
//! statements now below it.

use vstd::prelude::*;

use crate::ast::{
    Block, GenericFor, If, LValue, NumericFor, RValue, RValueV, Repeat, Statement, StatementV,
    While, clone_rvalue, lemma_lvs_view, lemma_rvs_view, lemma_stmts_view, stmt_view, stmts_view,
};
use crate::local::{block_reads_local, stmts_read_local_from, stmts_reads};

verus! {

/// The number of statements in a tree, nested blocks included. Conditions
/// and other expressions do not count: the pass never walks into them.
pub open spec fn sv_size(st: StatementV) -> nat
    decreases st,
{
    match st {
        StatementV::If(f) => 1 + svs_size(f.then_block) + svs_size(f.else_block),
        StatementV::While { condition: _, block } => 1 + svs_size(block),
        StatementV::Repeat { block, condition: _ } => 1 + svs_size(block),
        StatementV::NumericFor { counter: _, initial: _, limit: _, step: _, block } => 1
            + svs_size(block),
        StatementV::GenericFor { res_locals: _, right: _, block } => 1 + svs_size(block),
        _ => 1,
    }
}

pub open spec fn svs_size(s: Seq<StatementV>) -> nat
    decreases s,
{
    if s.len() == 0 {
        0
    } else {
        sv_size(s[0]) + svs_size(s.subrange(1, s.len() as int))
    }
}

pub proof fn lemma_sv_size_pos(st: StatementV)
    ensures
        sv_size(st) >= 1,
{
}

/// The local that a fold at the front of `s` would eliminate, if the
/// pattern is there: a single-target, single-value assignment to a local,
/// followed by an `if` on exactly that local, which has no other use —
/// neither in the else-branch nor in any later statement of `s`. (A read
/// in the then-branch is allowed: the assignment moves there.)
pub open spec fn fold_target_of(s: Seq<StatementV>) -> Option<nat> {
    if s.len() >= 2 && s[0] is Assign && s[1] is If {
        let a = s[0]->Assign_0;
        let f = s[1]->If_0;
        if a.left.len() == 1 && a.right.len() == 1 && a.left[0] is Local && f.condition
            == RValueV::Local(a.left[0]->Local_0) && !stmts_reads(f.else_block).contains(
            a.left[0]->Local_0,
        ) && !stmts_reads(s.subrange(2, s.len() as int)).contains(a.left[0]->Local_0) {
            Option::Some(a.left[0]->Local_0)
        } else {
            Option::None
        }
    } else {
        Option::None
    }
}

/// What the pass makes of a statement list. At a fold, the new `if` takes
/// the assigned expression as its condition; the assignment moves to the
/// top of the then-branch when that branch still reads the local, and both
/// branches — the moved assignment included — are processed in turn.
pub open spec fn combine_seq(s: Seq<StatementV>) -> Seq<StatementV>
    decreases svs_size(s), s.len(),
    via combine_seq_decreases
{
    if s.len() == 0 {
        s
    } else if fold_target_of(s) is Some {
        let a = s[0]->Assign_0;
        let f = s[1]->If_0;
        let target = a.left[0]->Local_0;
        let then_in = if stmts_reads(f.then_block).contains(target) {
            seq![StatementV::Assign(a)] + f.then_block
        } else {
            f.then_block
        };
        seq![
            StatementV::If(
                crate::ast::IfV {
                    condition: a.right[0],
                    then_block: combine_seq(then_in),
                    else_block: combine_seq(f.else_block),
                },
            ),
        ] + combine_seq(s.subrange(2, s.len() as int))
    } else {
        seq![combine_stmt(s[0])] + combine_seq(s.subrange(1, s.len() as int))
    }
}

/// The pass on one statement: recurse into every block it carries.
pub open spec fn combine_stmt(st: StatementV) -> StatementV
    decreases sv_size(st), 0nat,
    via combine_stmt_decreases
{
    match st {
        StatementV::If(f) => StatementV::If(
            crate::ast::IfV {
                condition: f.condition,
                then_block: combine_seq(f.then_block),
                else_block: combine_seq(f.else_block),
            },
        ),
        StatementV::While { condition, block } => StatementV::While {
            condition,
            block: combine_seq(block),
        },
        StatementV::Repeat { block, condition } => StatementV::Repeat {
            block: combine_seq(block),
            condition,
        },
        StatementV::NumericFor { counter, initial, limit, step, block } => StatementV::NumericFor {
            counter,
            initial,
            limit,
            step,
            block: combine_seq(block),
        },
        StatementV::GenericFor { res_locals, right, block } => StatementV::GenericFor {
            res_locals,
            right,
            block: combine_seq(block),
        },
        _ => st,
    }
}

#[via_fn]
proof fn combine_seq_decreases(s: Seq<StatementV>) {
    reveal_with_fuel(svs_size, 3);
    if s.len() == 0 {
    } else if fold_target_of(s) is Some {
        let f = s[1]->If_0;
        let rest1 = s.subrange(1, s.len() as int);
        assert(svs_size(s) == sv_size(s[0]) + svs_size(rest1));
        assert(rest1[0] == s[1]);
        assert(rest1.subrange(1, rest1.len() as int) =~= s.subrange(2, s.len() as int));
        assert(svs_size(rest1) == sv_size(s[1]) + svs_size(s.subrange(2, s.len() as int)));
        assert(sv_size(s[0]) >= 1);
        assert(sv_size(s[1]) == 1 + svs_size(f.then_block) + svs_size(f.else_block));
        if stmts_reads(f.then_block).contains(s[0]->Assign_0.left[0]->Local_0) {
            let then_in = seq![StatementV::Assign(s[0]->Assign_0)] + f.then_block;
            assert(then_in.subrange(1, then_in.len() as int) =~= f.then_block);
            assert(then_in[0] == StatementV::Assign(s[0]->Assign_0));
            assert(sv_size(then_in[0]) == 1);
            assert(svs_size(then_in) == 1 + svs_size(f.then_block));
        }
    } else {
        let rest = s.subrange(1, s.len() as int);
        assert(svs_size(s) == sv_size(s[0]) + svs_size(rest));
        assert(sv_size(s[0]) >= 1);
    }
}

#[via_fn]
proof fn combine_stmt_decreases(st: StatementV) {
}

/// Views of a subrange are the subrange of the views.
pub proof fn lemma_stmts_view_subrange(s: Seq<Statement>, i: int, j: int)
    requires
        0 <= i <= j <= s.len(),
    ensures
        stmts_view(s.subrange(i, j)) == stmts_view(s).subrange(i, j),
{
    lemma_stmts_view(s);
    lemma_stmts_view(s.subrange(i, j));
    assert forall|k: int| 0 <= k < j - i implies stmts_view(s.subrange(i, j))[k] == stmts_view(
        s,
    ).subrange(i, j)[k] by {
        assert(s.subrange(i, j)[k] == s[i + k]);
    }
    assert(stmts_view(s.subrange(i, j)) =~= stmts_view(s).subrange(i, j));
}

/// The fold pattern at the front of the list, as the executable pass sees
/// it: the local it would eliminate, or nothing.
fn fold_target_exec(stmts: &Vec<Statement>) -> (r: Option<usize>)
    ensures
        match r {
            Option::Some(t) => fold_target_of(stmts_view(stmts@)) == Option::Some(t as nat),
            Option::None => fold_target_of(stmts_view(stmts@)) is None,
        },
{
    let ghost sv = stmts_view(stmts@);
    proof {
        lemma_stmts_view(stmts@);
    }
    if stmts.len() < 2 {
        return Option::None;
    }
    match &stmts[0] {
        Statement::Assign(a) => {
            proof {
                lemma_lvs_view(a.left@);
                lemma_rvs_view(a.right@);
                assert(sv[0] == StatementV::Assign(crate::ast::assign_view(*a)));
            }
            if a.left.len() != 1 || a.right.len() != 1 {
                return Option::None;
            }
            match &a.left[0] {
                LValue::Local(t) => {
                    match &stmts[1] {
                        Statement::If(f) => {
                            proof {
                                assert(sv[1] == StatementV::If(
                                    crate::ast::IfV {
                                        condition: crate::ast::rv_view(f.condition),
                                        then_block: f.then_block@,
                                        else_block: f.else_block@,
                                    },
                                ));
                            }
                            match &f.condition {
                                RValue::Local(c) => {
                                    if *c == *t {
                                        let read_in_else = block_reads_local(&f.else_block, *t);
                                        let read_after = stmts_read_local_from(stmts, 2, *t);
                                        proof {
                                            lemma_stmts_view_subrange(
                                                stmts@,
                                                2,
                                                stmts@.len() as int,
                                            );
                                        }
                                        if !read_in_else && !read_after {
                                            Option::Some(*t)
                                        } else {
                                            Option::None
                                        }
                                    } else {
                                        Option::None
                                    }
                                },
                                _ => Option::None,
                            }
                        },
                        _ => Option::None,
                    }
                },
                _ => Option::None,
            }
        },
        _ => Option::None,
    }
}

#[verifier::rlimit(60)]
fn combine_stmts_exec(stmts: Vec<Statement>) -> (r: Vec<Statement>)
    ensures
        stmts_view(r@) == combine_seq(stmts_view(stmts@)),
    decreases svs_size(stmts_view(stmts@)), stmts@.len(),
{
    let ghost s0 = stmts@;
    let ghost sv = stmts_view(stmts@);
    proof {
        lemma_stmts_view(stmts@);
    }
    if stmts.len() == 0 {
        return stmts;
    }
    let fold = fold_target_exec(&stmts);
    match fold {
        Option::Some(target) => {
            let ghost a_v = sv[0]->Assign_0;
            let ghost f_v = sv[1]->If_0;
            let mut rest = stmts;
            let first = rest.remove(0);
            let second = rest.remove(0);
            proof {
                assert(rest@ =~= s0.subrange(2, s0.len() as int));
            }
            let a = match first {
                Statement::Assign(a) => a,
                _ => {
                    proof {
                        assert(false);
                    }
                    vstd::pervasive::unreached()
                },
            };
            let f = match second {
                Statement::If(f) => f,
                _ => {
                    proof {
                        assert(false);
                    }
                    vstd::pervasive::unreached()
                },
            };
            proof {
                assert(first == s0[0] && second == s0[1]);
                assert(stmt_view(first) == sv[0]);
                assert(stmt_view(second) == sv[1]);
                lemma_rvs_view(a.right@);
                assert(crate::ast::assign_view(a) == a_v);
                assert(f_v == (crate::ast::IfV {
                    condition: crate::ast::rv_view(f.condition),
                    then_block: stmts_view(f.then_block.statements@),
                    else_block: stmts_view(f.else_block.statements@),
                }));
                assert(a.right@.len() == 1);
                assert((a.right@[0])@ == a_v.right[0]);
            }
            let cond = clone_rvalue(&a.right[0]);
            let used_in_then = block_reads_local(&f.then_block, target);
            let ghost then_in = if stmts_reads(f_v.then_block).contains(target as nat) {
                seq![StatementV::Assign(a_v)] + f_v.then_block
            } else {
                f_v.then_block
            };
            let then_vec: Vec<Statement> = if used_in_then {
                let mut tv = f.then_block.statements;
                let ghost tv0 = tv@;
                tv.insert(0, Statement::Assign(a));
                proof {
                    lemma_stmts_view(tv@);
                    lemma_stmts_view(tv0);
                    assert(tv@ =~= seq![Statement::Assign(a)].add(tv0));
                    assert(stmt_view(Statement::Assign(a)) == StatementV::Assign(
                        crate::ast::assign_view(a),
                    ));
                    assert forall|j: int| 0 <= j < tv@.len() implies stmts_view(tv@)[j]
                        == then_in[j] by {
                        if j == 0 {
                            assert(tv@[0] == Statement::Assign(a));
                        } else {
                            assert(tv@[j] == tv0[j - 1]);
                            assert(then_in[j] == f_v.then_block[j - 1]);
                        }
                    }
                    assert(stmts_view(tv@) =~= then_in);
                }
                tv
            } else {
                f.then_block.statements
            };
            proof {
                assert(stmts_view(then_vec@) == then_in);
                // the recursive calls go below the statement count of the
                // whole list
                reveal_with_fuel(svs_size, 3);
                let rest1 = sv.subrange(1, sv.len() as int);
                assert(svs_size(sv) == sv_size(sv[0]) + svs_size(rest1));
                assert(rest1[0] == sv[1]);
                assert(rest1.subrange(1, rest1.len() as int) =~= sv.subrange(2, sv.len() as int));
                assert(svs_size(rest1) == sv_size(sv[1]) + svs_size(sv.subrange(2, sv.len() as int)));
                assert(sv_size(sv[1]) == 1 + svs_size(f_v.then_block) + svs_size(f_v.else_block));
                if stmts_reads(f_v.then_block).contains(target as nat) {
                    assert(then_in.subrange(1, then_in.len() as int) =~= f_v.then_block);
                    assert(then_in[0] == StatementV::Assign(a_v));
                    assert(svs_size(then_in) == 1 + svs_size(f_v.then_block));
                }
                lemma_stmts_view_subrange(s0, 2, s0.len() as int);
            }
            let then_c = combine_stmts_exec(then_vec);
            let else_c = combine_stmts_exec(f.else_block.statements);
            let rest_c = combine_stmts_exec(rest);
            let new_if = Statement::If(
                If {
                    condition: cond,
                    then_block: Block { statements: then_c },
                    else_block: Block { statements: else_c },
                },
            );
            let mut out = rest_c;
            let ghost out0 = out@;
            out.insert(0, new_if);
            proof {
                lemma_stmts_view(out@);
                lemma_stmts_view(out0);
                assert(out@ =~= seq![new_if].add(out0));
                assert(stmt_view(new_if) == StatementV::If(
                    crate::ast::IfV {
                        condition: a_v.right[0],
                        then_block: combine_seq(then_in),
                        else_block: combine_seq(f_v.else_block),
                    },
                ));
                let tail_v = combine_seq(sv.subrange(2, sv.len() as int));
                assert(combine_seq(sv) == seq![
                    StatementV::If(
                        crate::ast::IfV {
                            condition: a_v.right[0],
                            then_block: combine_seq(then_in),
                            else_block: combine_seq(f_v.else_block),
                        },
                    ),
                ] + tail_v);
                assert forall|j: int| 0 <= j < out@.len() implies stmts_view(out@)[j]
                    == combine_seq(sv)[j] by {
                    if j == 0 {
                        assert(out@[0] == new_if);
                    } else {
                        assert(out@[j] == out0[j - 1]);
                        assert(combine_seq(sv)[j] == tail_v[j - 1]);
                    }
                }
                assert(stmts_view(out@) =~= combine_seq(sv));
            }
            out
        },
        Option::None => {
            let mut rest = stmts;
            let first = rest.remove(0);
            proof {
                assert(first == s0[0]);
                assert(stmt_view(first) == sv[0]);
                assert(rest@ =~= s0.subrange(1, s0.len() as int));
                reveal_with_fuel(svs_size, 2);
                let rest1 = sv.subrange(1, sv.len() as int);
                assert(svs_size(sv) == sv_size(sv[0]) + svs_size(rest1));
                lemma_sv_size_pos(sv[0]);
                lemma_stmts_view_subrange(s0, 1, s0.len() as int);
            }
            let first_c = combine_stmt_exec(first);
            let rest_c = combine_stmts_exec(rest);
            let mut out = rest_c;
            let ghost out0 = out@;
            out.insert(0, first_c);
            proof {
                lemma_stmts_view(out@);
                lemma_stmts_view(out0);
                assert(out@ =~= seq![first_c].add(out0));
                let tail_v = combine_seq(sv.subrange(1, sv.len() as int));
                assert(combine_seq(sv) == seq![combine_stmt(sv[0])] + tail_v);
                assert forall|j: int| 0 <= j < out@.len() implies stmts_view(out@)[j]
                    == combine_seq(sv)[j] by {
                    if j == 0 {
                        assert(out@[0] == first_c);
                    } else {
                        assert(out@[j] == out0[j - 1]);
                        assert(combine_seq(sv)[j] == tail_v[j - 1]);
                    }
                }
                assert(stmts_view(out@) =~= combine_seq(sv));
            }
            out
        },
    }
}

fn combine_stmt_exec(st: Statement) -> (r: Statement)
    ensures
        stmt_view(r) == combine_stmt(stmt_view(st)),
    decreases sv_size(stmt_view(st)), 0int,
{
    let ghost st_v = stmt_view(st);
    match st {
        Statement::If(f) => {
            let r = Statement::If(
                If {
                    condition: f.condition,
                    then_block: Block { statements: combine_stmts_exec(f.then_block.statements) },
                    else_block: Block { statements: combine_stmts_exec(f.else_block.statements) },
                },
            );
            assert(stmt_view(r) =~= combine_stmt(st_v));
            r
        },
        Statement::While(w) => {
            let r = Statement::While(
                While {
                    condition: w.condition,
                    block: Block { statements: combine_stmts_exec(w.block.statements) },
                },
            );
            assert(stmt_view(r) =~= combine_stmt(st_v));
            r
        },
        Statement::Repeat(rp) => {
            let r = Statement::Repeat(
                Repeat {
                    block: Block { statements: combine_stmts_exec(rp.block.statements) },
                    condition: rp.condition,
                },
            );
            assert(stmt_view(r) =~= combine_stmt(st_v));
            r
        },
        Statement::NumericFor(nf) => {
            let r = Statement::NumericFor(
                NumericFor {
                    counter: nf.counter,
                    initial: nf.initial,
                    limit: nf.limit,
                    step: nf.step,
                    block: Block { statements: combine_stmts_exec(nf.block.statements) },
                },
            );
            assert(stmt_view(r) =~= combine_stmt(st_v));
            r
        },
        Statement::GenericFor(gf) => {
            let r = Statement::GenericFor(
                GenericFor {
                    res_locals: gf.res_locals,
                    right: gf.right,
                    block: Block { statements: combine_stmts_exec(gf.block.statements) },
                },
            );
            assert(stmt_view(r) =~= combine_stmt(st_v));
            r
        },
        other => {
            assert(combine_stmt(st_v) == st_v);
            other
        },
    }
}

/// Folds `local x = E; if x then ... end` into `if E then ... end`
/// throughout the block, wherever `x` is not read after the `if`; when the
/// then-branch still reads `x`, the assignment moves to its top instead of
/// vanishing.
pub fn combine_nested_ifs(block: &mut Block)
    ensures
        final(block)@ == combine_seq(old(block)@),
{
    let mut taken = Block { statements: Vec::new() };
    core::mem::swap(block, &mut taken);
    let combined = combine_stmts_exec(taken.statements);
    block.statements = combined;
}


/// One local, substituted by an expression, throughout an expression tree.
/// The replacement itself is not walked again, and closure bodies are left
/// alone: the traversal covers the expression's own children only.
pub open spec fn rv_subst_local(v: RValueV, target: nat, repl: RValueV) -> RValueV
    decreases v,
{
    match v {
        RValueV::Local(id) => if id == target {
            repl
        } else {
            v
        },
        RValueV::Field(base, name) => RValueV::Field(
            Box::new(rv_subst_local(*base, target, repl)),
            name,
        ),
        RValueV::Index(ix) => RValueV::Index(
            crate::ast::IndexV {
                left: Box::new(rv_subst_local(*ix.left, target, repl)),
                right: Box::new(rv_subst_local(*ix.right, target, repl)),
            },
        ),
        RValueV::Call(c) => RValueV::Call(
            crate::ast::CallV {
                value: Box::new(rv_subst_local(*c.value, target, repl)),
                arguments: rvs_subst_local(c.arguments, target, repl),
            },
        ),
        RValueV::MethodCall(mc) => RValueV::MethodCall(
            crate::ast::MethodCallV {
                value: Box::new(rv_subst_local(*mc.value, target, repl)),
                method: mc.method,
                arguments: rvs_subst_local(mc.arguments, target, repl),
            },
        ),
        RValueV::Binary(l, op, r) => RValueV::Binary(
            Box::new(rv_subst_local(*l, target, repl)),
            op,
            Box::new(rv_subst_local(*r, target, repl)),
        ),
        RValueV::Unary(op, e) => RValueV::Unary(op, Box::new(rv_subst_local(*e, target, repl))),
        RValueV::Table(items) => RValueV::Table(rvs_subst_local(items, target, repl)),
        _ => v,
    }
}

pub open spec fn rvs_subst_local(s: Seq<RValueV>, target: nat, repl: RValueV) -> Seq<RValueV>
    decreases s,
{
    if s.len() == 0 {
        Seq::empty()
    } else {
        seq![rv_subst_local(s[0], target, repl)] + rvs_subst_local(
            s.subrange(1, s.len() as int),
            target,
            repl,
        )
    }
}

pub proof fn lemma_rvs_subst_local(s: Seq<RValueV>, target: nat, repl: RValueV)
    ensures
        rvs_subst_local(s, target, repl).len() == s.len(),
        forall|i: int|
            0 <= i < s.len() ==> rvs_subst_local(s, target, repl)[i] == rv_subst_local(
                #[trigger] s[i],
                target,
                repl,
            ),
    decreases s,
{
    if s.len() > 0 {
        let rest = s.subrange(1, s.len() as int);
        lemma_rvs_subst_local(rest, target, repl);
        assert forall|i: int| 0 <= i < s.len() implies rvs_subst_local(s, target, repl)[i]
            == rv_subst_local(#[trigger] s[i], target, repl) by {
            if i > 0 {
                assert(rest[i - 1] == s[i]);
            }
        }
    }
}

fn subst_rvalue(rv: &RValue, target: usize, repl: &RValue) -> (r: RValue)
    ensures
        r@ == rv_subst_local(rv@, target as nat, repl@),
    decreases *rv,
{
    match rv {
        RValue::Local(id) => {
            if *id == target {
                clone_rvalue(repl)
            } else {
                RValue::Local(*id)
            }
        },
        RValue::Field(base, name) => RValue::Field(
            Box::new(subst_rvalue(base, target, repl)),
            crate::bytes::clone_bytes(name),
        ),
        RValue::Index(ix) => {
            let left = subst_rvalue(&ix.left, target, repl);
            let right = subst_rvalue(&ix.right, target, repl);
            let r = RValue::Index(crate::ast::Index { left: Box::new(left), right: Box::new(right) });
            proof {
                reveal_with_fuel(crate::ast::rv_view, 3);
                reveal_with_fuel(crate::ast::index_view, 2);
                reveal_with_fuel(rv_subst_local, 2);
                assert(rv@ == RValueV::Index(crate::ast::index_view(*ix)));
                assert(r@ =~= rv_subst_local(rv@, target as nat, repl@));
            }
            r
        },
        RValue::Call(c) => {
            let r = RValue::Call(
                crate::ast::Call {
                    value: Box::new(subst_rvalue(&c.value, target, repl)),
                    arguments: subst_rvalues(&c.arguments, target, repl),
                },
            );
            proof {
                reveal_with_fuel(crate::ast::rv_view, 3);
                reveal_with_fuel(crate::ast::call_view, 2);
                reveal_with_fuel(rv_subst_local, 2);
                assert(rv@ == RValueV::Call(crate::ast::call_view(*c)));
                assert(r@ =~= rv_subst_local(rv@, target as nat, repl@));
            }
            r
        },
        RValue::MethodCall(mc) => {
            let r = RValue::MethodCall(
                crate::ast::MethodCall {
                    value: Box::new(subst_rvalue(&mc.value, target, repl)),
                    method: crate::bytes::clone_bytes(&mc.method),
                    arguments: subst_rvalues(&mc.arguments, target, repl),
                },
            );
            proof {
                reveal_with_fuel(crate::ast::rv_view, 3);
                reveal_with_fuel(crate::ast::method_call_view, 2);
                reveal_with_fuel(rv_subst_local, 2);
                assert(rv@ == RValueV::MethodCall(crate::ast::method_call_view(*mc)));
                assert(r@ =~= rv_subst_local(rv@, target as nat, repl@));
            }
            r
        },
        RValue::Binary(l, op, r2) => {
            let nl = subst_rvalue(l, target, repl);
            let nr = subst_rvalue(r2, target, repl);
            let r = RValue::Binary(Box::new(nl), *op, Box::new(nr));
            proof {
                reveal_with_fuel(crate::ast::rv_view, 3);
                reveal_with_fuel(rv_subst_local, 2);
                assert(r@ =~= rv_subst_local(rv@, target as nat, repl@));
            }
            r
        },
        RValue::Unary(op, e) => RValue::Unary(*op, Box::new(subst_rvalue(e, target, repl))),
        RValue::Table(items) => RValue::Table(subst_rvalues(items, target, repl)),
        other => {
            let r = clone_rvalue(other);
            assert(r@ == rv_subst_local(rv@, target as nat, repl@));
            r
        },
    }
}

fn subst_rvalues(v: &Vec<RValue>, target: usize, repl: &RValue) -> (r: Vec<RValue>)
    ensures
        crate::ast::rvs_view(r@) == rvs_subst_local(
            crate::ast::rvs_view(v@),
            target as nat,
            repl@,
        ),
    decreases v@,
{
    let ghost sv = crate::ast::rvs_view(v@);
    proof {
        lemma_rvs_view(v@);
        lemma_rvs_subst_local(sv, target as nat, repl@);
    }
    let mut r: Vec<RValue> = Vec::new();
    let mut i: usize = 0;
    while i < v.len()
        invariant
            i <= v@.len(),
            sv == crate::ast::rvs_view(v@),
            sv.len() == v@.len(),
            forall|j: int| 0 <= j < v@.len() ==> sv[j] == crate::ast::rv_view(#[trigger] v@[j]),
            r@.len() == i,
            forall|j: int| 0 <= j < i ==> r@[j]@ == rv_subst_local(sv[j], target as nat, repl@),
        decreases v@.len() - i,
    {
        r.push(subst_rvalue(&v[i], target, repl));
        i += 1;
    }
    proof {
        lemma_rvs_view(r@);
        assert forall|k: int| 0 <= k < r@.len() implies crate::ast::rvs_view(r@)[k]
            == rvs_subst_local(sv, target as nat, repl@)[k] by {
            assert(r@[k]@ == rv_subst_local(sv[k], target as nat, repl@));
        }
        assert(crate::ast::rvs_view(r@) =~= rvs_subst_local(sv, target as nat, repl@));
    }
    r
}

/// Replaces every read of local `target` inside the expression by a copy
/// of `replacement`; what was substituted in is not walked again.
pub fn replace_local_in_rvalue(rvalue: &mut RValue, target: usize, replacement: &RValue)
    ensures
        final(rvalue)@ == rv_subst_local(old(rvalue)@, target as nat, replacement@),
{
    let new_value = subst_rvalue(rvalue, target, replacement);
    *rvalue = new_value;
}


/// Folding keeps every parallel assignment well formed: the pass moves an
/// assignment whole or turns its single right-hand side into a condition,
/// and never changes the two sides of any assignment.
pub proof fn lemma_combine_seq_parallel_wf(s: Seq<StatementV>)
    requires
        crate::ast::stmts_parallel_wf(s),
    ensures
        crate::ast::stmts_parallel_wf(combine_seq(s)),
    decreases svs_size(s), s.len(),
{
    reveal_with_fuel(crate::ast::stmts_parallel_wf, 3);
    reveal_with_fuel(svs_size, 3);
    if s.len() == 0 {
    } else if fold_target_of(s) is Some {
        let a = s[0]->Assign_0;
        let f = s[1]->If_0;
        let target = a.left[0]->Local_0;
        let rest1 = s.subrange(1, s.len() as int);
        let rest2 = s.subrange(2, s.len() as int);
        assert(rest1[0] == s[1]);
        assert(rest1.subrange(1, rest1.len() as int) =~= rest2);
        assert(crate::ast::stmt_parallel_wf(s[0]));
        assert(crate::ast::stmt_parallel_wf(s[1]));
        assert(crate::ast::stmts_parallel_wf(rest2));
        // sizes, to justify the recursion
        assert(svs_size(s) == sv_size(s[0]) + svs_size(rest1));
        assert(svs_size(rest1) == sv_size(s[1]) + svs_size(rest2));
        assert(sv_size(s[0]) >= 1);
        assert(sv_size(s[1]) == 1 + svs_size(f.then_block) + svs_size(f.else_block));
        let then_in = if stmts_reads(f.then_block).contains(target) {
            seq![StatementV::Assign(a)] + f.then_block
        } else {
            f.then_block
        };
        if stmts_reads(f.then_block).contains(target) {
            assert(then_in.subrange(1, then_in.len() as int) =~= f.then_block);
            assert(then_in[0] == StatementV::Assign(a));
            assert(sv_size(then_in[0]) == 1);
            assert(svs_size(then_in) == 1 + svs_size(f.then_block));
            assert(crate::ast::stmts_parallel_wf(then_in));
        }
        lemma_combine_seq_parallel_wf(then_in);
        lemma_combine_seq_parallel_wf(f.else_block);
        lemma_combine_seq_parallel_wf(rest2);
        // the single right-hand side of the folded assignment is itself
        // well formed
        assert(crate::ast::rvs_parallel_wf(a.right));
        assert(crate::ast::rv_parallel_wf(a.right[0])) by {
            reveal_with_fuel(crate::ast::rvs_parallel_wf, 2);
        }
        let folded = StatementV::If(
            crate::ast::IfV {
                condition: a.right[0],
                then_block: combine_seq(then_in),
                else_block: combine_seq(f.else_block),
            },
        );
        assert(crate::ast::stmt_parallel_wf(folded));
        let out = seq![folded] + combine_seq(rest2);
        assert(out[0] == folded);
        assert(out.subrange(1, out.len() as int) =~= combine_seq(rest2));
        assert(crate::ast::stmts_parallel_wf(out));
        assert(combine_seq(s) == out);
    } else {
        let rest = s.subrange(1, s.len() as int);
        assert(svs_size(s) == sv_size(s[0]) + svs_size(rest));
        lemma_sv_size_pos(s[0]);
        assert(crate::ast::stmt_parallel_wf(s[0]));
        lemma_combine_stmt_parallel_wf(s[0]);
        lemma_combine_seq_parallel_wf(rest);
        let out = seq![combine_stmt(s[0])] + combine_seq(rest);
        assert(out[0] == combine_stmt(s[0]));
        assert(out.subrange(1, out.len() as int) =~= combine_seq(rest));
        assert(crate::ast::stmts_parallel_wf(out));
        assert(combine_seq(s) == out);
    }
}

proof fn lemma_combine_stmt_parallel_wf(st: StatementV)
    requires
        crate::ast::stmt_parallel_wf(st),
    ensures
        crate::ast::stmt_parallel_wf(combine_stmt(st)),
    decreases sv_size(st), 0nat,
{
    match st {
        StatementV::If(f) => {
            lemma_combine_seq_parallel_wf(f.then_block);
            lemma_combine_seq_parallel_wf(f.else_block);
        },
        StatementV::While { condition: _, block } => {
            lemma_combine_seq_parallel_wf(block);
        },
        StatementV::Repeat { block, condition: _ } => {
            lemma_combine_seq_parallel_wf(block);
        },
        StatementV::NumericFor { counter: _, initial: _, limit: _, step: _, block } => {
            lemma_combine_seq_parallel_wf(block);
        },
        StatementV::GenericFor { res_locals: _, right: _, block } => {
            lemma_combine_seq_parallel_wf(block);
        },
        _ => {},
    }
}

/// Folding never introduces unstructured control: a tree free of `goto`
/// and `label` stays free of them.
pub proof fn lemma_combine_seq_goto_free(s: Seq<StatementV>)
    requires
        crate::replace_locals::stmts_goto_free(s),
    ensures
        crate::replace_locals::stmts_goto_free(combine_seq(s)),
    decreases svs_size(s), s.len(),
{
    reveal_with_fuel(crate::replace_locals::stmts_goto_free, 3);
    reveal_with_fuel(svs_size, 3);
    if s.len() == 0 {
    } else if fold_target_of(s) is Some {
        let a = s[0]->Assign_0;
        let f = s[1]->If_0;
        let target = a.left[0]->Local_0;
        let rest1 = s.subrange(1, s.len() as int);
        let rest2 = s.subrange(2, s.len() as int);
        assert(rest1[0] == s[1]);
        assert(rest1.subrange(1, rest1.len() as int) =~= rest2);
        assert(crate::replace_locals::stmt_goto_free(s[0]));
        assert(crate::replace_locals::stmt_goto_free(s[1]));
        assert(crate::replace_locals::stmts_goto_free(rest2));
        assert(svs_size(s) == sv_size(s[0]) + svs_size(rest1));
        assert(svs_size(rest1) == sv_size(s[1]) + svs_size(rest2));
        assert(sv_size(s[0]) >= 1);
        assert(sv_size(s[1]) == 1 + svs_size(f.then_block) + svs_size(f.else_block));
        let then_in = if stmts_reads(f.then_block).contains(target) {
            seq![StatementV::Assign(a)] + f.then_block
        } else {
            f.then_block
        };
        if stmts_reads(f.then_block).contains(target) {
            assert(then_in.subrange(1, then_in.len() as int) =~= f.then_block);
            assert(then_in[0] == StatementV::Assign(a));
            assert(sv_size(then_in[0]) == 1);
            assert(svs_size(then_in) == 1 + svs_size(f.then_block));
            assert(crate::replace_locals::stmts_goto_free(then_in));
        }
        lemma_combine_seq_goto_free(then_in);
        lemma_combine_seq_goto_free(f.else_block);
        lemma_combine_seq_goto_free(rest2);
        assert(crate::replace_locals::rvs_goto_free(a.right));
        assert(crate::replace_locals::rv_goto_free(a.right[0])) by {
            reveal_with_fuel(crate::replace_locals::rvs_goto_free, 2);
        }
        let folded = StatementV::If(
            crate::ast::IfV {
                condition: a.right[0],
                then_block: combine_seq(then_in),
                else_block: combine_seq(f.else_block),
            },
        );
        assert(crate::replace_locals::stmt_goto_free(folded));
        let out = seq![folded] + combine_seq(rest2);
        assert(out[0] == folded);
        assert(out.subrange(1, out.len() as int) =~= combine_seq(rest2));
        assert(crate::replace_locals::stmts_goto_free(out));
        assert(combine_seq(s) == out);
    } else {
        let rest = s.subrange(1, s.len() as int);
        assert(svs_size(s) == sv_size(s[0]) + svs_size(rest));
        lemma_sv_size_pos(s[0]);
        assert(crate::replace_locals::stmt_goto_free(s[0]));
        lemma_combine_stmt_goto_free(s[0]);
        lemma_combine_seq_goto_free(rest);
        let out = seq![combine_stmt(s[0])] + combine_seq(rest);
        assert(out[0] == combine_stmt(s[0]));
        assert(out.subrange(1, out.len() as int) =~= combine_seq(rest));
        assert(crate::replace_locals::stmts_goto_free(out));
        assert(combine_seq(s) == out);
    }
}

proof fn lemma_combine_stmt_goto_free(st: StatementV)
    requires
        crate::replace_locals::stmt_goto_free(st),
    ensures
        crate::replace_locals::stmt_goto_free(combine_stmt(st)),
    decreases sv_size(st), 0nat,
{
    match st {
        StatementV::If(f) => {
            lemma_combine_seq_goto_free(f.then_block);
            lemma_combine_seq_goto_free(f.else_block);
        },
        StatementV::While { condition: _, block } => {
            lemma_combine_seq_goto_free(block);
        },
        StatementV::Repeat { block, condition: _ } => {
            lemma_combine_seq_goto_free(block);
        },
        StatementV::NumericFor { counter: _, initial: _, limit: _, step: _, block } => {
            lemma_combine_seq_goto_free(block);
        },
        StatementV::GenericFor { res_locals: _, right: _, block } => {
            lemma_combine_seq_goto_free(block);
        },
        _ => {},
    }
}

} // verus!
