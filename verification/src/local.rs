//! The arena of locals, and the read/reference analysis over the tree.
//!
//! A local is a mutable storage slot shared by every statement that mentions
//! it; here it is an index into the arena, and its display name lives in the
//! arena, so "the same local" means "the same index". Reads are collected in
//! tree order; reference counts saturate at two, because the passes only ask
//! whether a local has more than one reference.

use vstd::prelude::*;

use crate::ast::{Block, LValue, LValueV, RValue, RValueV, Statement, StatementV, Upvalue, lemma_lvs_view, lemma_rvs_view, lemma_stmts_view, lv_view, lvs_view, rv_view, rvs_view, stmt_view, stmts_view};

verus! {

/// The view of a list of local indices.
pub open spec fn ids_view(s: Seq<usize>) -> Seq<nat> {
    s.map_values(|x: usize| x as nat)
}

/// The view of the arena: one optional display name per local.
pub open spec fn names_view(s: Seq<Option<Vec<u8>>>) -> Seq<Option<Seq<u8>>> {
    s.map_values(
        |o: Option<Vec<u8>>|
            match o {
                Option::Some(v) => Option::Some(v@),
                Option::None => Option::<Seq<u8>>::None,
            },
    )
}

/// The arena of locals. Index `i` is local `i`; the entry is its display
/// name, `None` while the local is anonymous.
pub struct Locals {
    pub names: Vec<Option<Vec<u8>>>,
}

impl View for Locals {
    type V = Seq<Option<Seq<u8>>>;

    open spec fn view(&self) -> Seq<Option<Seq<u8>>> {
        names_view(self.names@)
    }
}

impl Locals {
    pub fn new() -> (r: Locals)
        ensures
            r@ =~= Seq::<Option<Seq<u8>>>::empty(),
    {
        Locals { names: Vec::new() }
    }

    pub fn len(&self) -> (r: usize)
        ensures
            r == self@.len(),
    {
        self.names.len()
    }

    /// Mints a fresh anonymous local and returns its index.
    pub fn add(&mut self) -> (id: usize)
        ensures
            id == old(self)@.len(),
            final(self)@ =~= old(self)@.push(Option::None),
    {
        let id = self.names.len();
        self.names.push(Option::None);
        id
    }

    /// The display name of local `id`, if one has been set.
    pub fn name_of(&self, id: usize) -> (r: Option<Vec<u8>>)
        requires
            id < self@.len(),
        ensures
            match r {
                Option::Some(n) => self@[id as int] == Option::Some(n@),
                Option::None => self@[id as int] is None,
            },
    {
        match &self.names[id] {
            Option::Some(n) => Option::Some(crate::bytes::clone_bytes(n)),
            Option::None => Option::None,
        }
    }

    /// Sets the display name of local `id`.
    pub fn set_name(&mut self, id: usize, name: Vec<u8>)
        requires
            id < old(self)@.len(),
        ensures
            final(self)@ =~= old(self)@.update(id as int, Option::Some(name@)),
    {
        self.names.set(id, Option::Some(name));
    }
}

// ---------------------------------------------------------------------------
// Reads. A closure reads each local it captures; its parameters are binders,
// not reads. Assignment targets that are plain locals are writes, not reads,
// but the base and key of an indexed target are read.
// ---------------------------------------------------------------------------

pub open spec fn upvalue_id(u: Upvalue) -> nat {
    match u {
        Upvalue::ByCopy(id) => id as nat,
        Upvalue::ByRef(id) => id as nat,
    }
}

pub open spec fn upvalues_ids(us: Seq<Upvalue>) -> Seq<nat> {
    us.map_values(|u: Upvalue| upvalue_id(u))
}

pub open spec fn rv_reads(v: RValueV) -> Seq<nat>
    decreases v,
{
    match v {
        RValueV::Literal(_) => Seq::empty(),
        RValueV::Local(id) => seq![id],
        RValueV::Global(_) => Seq::empty(),
        RValueV::Field(base, _) => rv_reads(*base),
        RValueV::Index(ix) => rv_reads(*ix.left) + rv_reads(*ix.right),
        RValueV::Call(c) => rv_reads(*c.value) + rvs_reads(c.arguments),
        RValueV::MethodCall(mc) => rv_reads(*mc.value) + rvs_reads(mc.arguments),
        RValueV::Binary(l, _, r) => rv_reads(*l) + rv_reads(*r),
        RValueV::Unary(_, e) => rv_reads(*e),
        RValueV::Closure(c) => upvalues_ids(c.upvalues) + stmts_reads(c.body),
        RValueV::Varargs => Seq::empty(),
        RValueV::Table(items) => rvs_reads(items),
    }
}

pub open spec fn rvs_reads(s: Seq<RValueV>) -> Seq<nat>
    decreases s,
{
    if s.len() == 0 {
        Seq::empty()
    } else {
        rv_reads(s[0]) + rvs_reads(s.subrange(1, s.len() as int))
    }
}

pub open spec fn lv_reads(lv: LValueV) -> Seq<nat>
    decreases lv,
{
    match lv {
        LValueV::Local(_) => Seq::empty(),
        LValueV::Global(_) => Seq::empty(),
        LValueV::Index(ix) => rv_reads(*ix.left) + rv_reads(*ix.right),
    }
}

pub open spec fn lvs_reads(s: Seq<LValueV>) -> Seq<nat>
    decreases s,
{
    if s.len() == 0 {
        Seq::empty()
    } else {
        lv_reads(s[0]) + lvs_reads(s.subrange(1, s.len() as int))
    }
}

pub open spec fn stmt_reads(st: StatementV) -> Seq<nat>
    decreases st,
{
    match st {
        StatementV::Assign(a) => lvs_reads(a.left) + rvs_reads(a.right),
        StatementV::If(f) => rv_reads(f.condition) + stmts_reads(f.then_block) + stmts_reads(
            f.else_block,
        ),
        StatementV::While { condition, block } => rv_reads(condition) + stmts_reads(block),
        StatementV::Repeat { block, condition } => stmts_reads(block) + rv_reads(condition),
        StatementV::NumericFor { counter: _, initial, limit, step, block } => rv_reads(initial)
            + rv_reads(limit) + rv_reads(step) + stmts_reads(block),
        StatementV::GenericFor { res_locals: _, right, block } => rvs_reads(right) + stmts_reads(
            block,
        ),
        StatementV::Return(rs) => rvs_reads(rs),
        StatementV::Break => Seq::empty(),
        StatementV::Continue => Seq::empty(),
        StatementV::Goto(_) => Seq::empty(),
        StatementV::Label(_) => Seq::empty(),
        StatementV::SetList(sl) => seq![sl.object_local] + rvs_reads(sl.values) + (
        match sl.tail {
            Option::Some(t) => rv_reads(t),
            Option::None => Seq::empty(),
        }),
        StatementV::Call(c) => rv_reads(*c.value) + rvs_reads(c.arguments),
    }
}

pub open spec fn stmts_reads(s: Seq<StatementV>) -> Seq<nat>
    decreases s,
{
    if s.len() == 0 {
        Seq::empty()
    } else {
        stmt_reads(s[0]) + stmts_reads(s.subrange(1, s.len() as int))
    }
}

/// `stmts_reads` distributes over appending a statement.
pub proof fn lemma_stmts_reads_push(s: Seq<StatementV>, x: StatementV)
    ensures
        stmts_reads(s.push(x)) == stmts_reads(s) + stmt_reads(x),
    decreases s,
{
    reveal_with_fuel(stmts_reads, 3);
    if s.len() == 0 {
        assert(s.push(x).subrange(1, s.push(x).len() as int) =~= Seq::<StatementV>::empty());
        assert(stmts_reads(s.push(x)) =~= stmts_reads(s) + stmt_reads(x));
    } else {
        let rest = s.subrange(1, s.len() as int);
        lemma_stmts_reads_push(rest, x);
        assert(s.push(x).subrange(1, s.push(x).len() as int) =~= rest.push(x));
        assert(s.push(x)[0] == s[0]);
        assert(stmts_reads(s.push(x)) =~= stmts_reads(s) + stmt_reads(x));
    }
}

/// `rvs_reads` distributes over appending an expression.
pub proof fn lemma_rvs_reads_push(s: Seq<RValueV>, x: RValueV)
    ensures
        rvs_reads(s.push(x)) == rvs_reads(s) + rv_reads(x),
    decreases s,
{
    reveal_with_fuel(rvs_reads, 3);
    if s.len() == 0 {
        assert(s.push(x).subrange(1, s.push(x).len() as int) =~= Seq::<RValueV>::empty());
        assert(rvs_reads(s.push(x)) =~= rvs_reads(s) + rv_reads(x));
    } else {
        let rest = s.subrange(1, s.len() as int);
        lemma_rvs_reads_push(rest, x);
        assert(s.push(x).subrange(1, s.push(x).len() as int) =~= rest.push(x));
        assert(s.push(x)[0] == s[0]);
        assert(rvs_reads(s.push(x)) =~= rvs_reads(s) + rv_reads(x));
    }
}

/// `lvs_reads` distributes over appending a target.
pub proof fn lemma_lvs_reads_push(s: Seq<LValueV>, x: LValueV)
    ensures
        lvs_reads(s.push(x)) == lvs_reads(s) + lv_reads(x),
    decreases s,
{
    reveal_with_fuel(lvs_reads, 3);
    if s.len() == 0 {
        assert(s.push(x).subrange(1, s.push(x).len() as int) =~= Seq::<LValueV>::empty());
        assert(lvs_reads(s.push(x)) =~= lvs_reads(s) + lv_reads(x));
    } else {
        let rest = s.subrange(1, s.len() as int);
        lemma_lvs_reads_push(rest, x);
        assert(s.push(x).subrange(1, s.push(x).len() as int) =~= rest.push(x));
        assert(s.push(x)[0] == s[0]);
        assert(lvs_reads(s.push(x)) =~= lvs_reads(s) + lv_reads(x));
    }
}

// ---------------------------------------------------------------------------
// Executable read collectors, in tree order.
// ---------------------------------------------------------------------------

pub fn collect_rv_reads(rv: &RValue, out: &mut Vec<usize>)
    ensures
        ids_view(final(out)@) == ids_view(old(out)@) + rv_reads(rv@),
    decreases *rv,
{
    match rv {
        RValue::Literal(_) => {
            assert(ids_view(out@) =~= ids_view(out@) + rv_reads(rv@));
        },
        RValue::Local(id) => {
            out.push(*id);
            assert(ids_view(out@) =~= ids_view(old(out)@) + rv_reads(rv@));
        },
        RValue::Global(_) => {
            assert(ids_view(out@) =~= ids_view(out@) + rv_reads(rv@));
        },
        RValue::Field(base, _) => {
            collect_rv_reads(base, out);
        },
        RValue::Index(ix) => {
            let ghost o0 = ids_view(out@);
            collect_rv_reads(&ix.left, out);
            let ghost o1 = ids_view(out@);
            collect_rv_reads(&ix.right, out);
            proof {
                assert(o1 == o0 + rv_reads(ix.left@));
                assert(ids_view(out@) == o1 + rv_reads(ix.right@));
                assert(rv@ == RValueV::Index(crate::ast::index_view(*ix)));
                assert(rv_reads(rv@) == rv_reads(ix.left@) + rv_reads(ix.right@));
                assert(ids_view(out@) =~= o0 + rv_reads(rv@));
            }
        },
        RValue::Call(c) => {
            let ghost o0 = ids_view(out@);
            collect_rv_reads(&c.value, out);
            let ghost o1 = ids_view(out@);
            collect_rvs_reads(&c.arguments, out);
            proof {
                assert(o1 == o0 + rv_reads(c.value@));
                assert(rv@ == RValueV::Call(crate::ast::call_view(*c)));
                assert(rv_reads(rv@) == rv_reads(c.value@) + rvs_reads(rvs_view(c.arguments@)));
                assert(ids_view(out@) =~= o0 + rv_reads(rv@));
            }
        },
        RValue::MethodCall(mc) => {
            let ghost o0 = ids_view(out@);
            collect_rv_reads(&mc.value, out);
            let ghost o1 = ids_view(out@);
            collect_rvs_reads(&mc.arguments, out);
            proof {
                assert(o1 == o0 + rv_reads(mc.value@));
                assert(rv@ == RValueV::MethodCall(crate::ast::method_call_view(*mc)));
                assert(rv_reads(rv@) == rv_reads(mc.value@) + rvs_reads(rvs_view(mc.arguments@)));
                assert(ids_view(out@) =~= o0 + rv_reads(rv@));
            }
        },
        RValue::Binary(l, _, r) => {
            let ghost o0 = ids_view(out@);
            collect_rv_reads(l, out);
            let ghost o1 = ids_view(out@);
            collect_rv_reads(r, out);
            proof {
                assert(o1 == o0 + rv_reads(l@));
                assert(ids_view(out@) =~= o0 + rv_reads(rv@));
            }
        },
        RValue::Unary(_, e) => {
            collect_rv_reads(e, out);
        },
        RValue::Closure(c) => {
            let ghost mid0 = out@;
            let mut i: usize = 0;
            while i < c.upvalues.len()
                invariant
                    i <= c.upvalues@.len(),
                    ids_view(out@) =~= ids_view(mid0) + upvalues_ids(
                        c.upvalues@.subrange(0, i as int),
                    ),
                decreases c.upvalues@.len() - i,
            {
                let id = match c.upvalues[i] {
                    Upvalue::ByCopy(id) => id,
                    Upvalue::ByRef(id) => id,
                };
                let ghost prev = out@;
                out.push(id);
                proof {
                    let us = c.upvalues@;
                    assert(id as nat == upvalue_id(us[i as int]));
                    assert(us.subrange(0, i + 1) =~= us.subrange(0, i as int).push(us[i as int]));
                    assert(upvalues_ids(us.subrange(0, i + 1)) =~= upvalues_ids(
                        us.subrange(0, i as int),
                    ).push(upvalue_id(us[i as int])));
                    assert(out@ == prev.push(id));
                    assert(ids_view(out@) =~= ids_view(prev).push(id as nat));
                    assert(ids_view(out@) =~= ids_view(mid0) + upvalues_ids(
                        us.subrange(0, i + 1),
                    ));
                }
                i += 1;
            }
            proof {
                assert(c.upvalues@.subrange(0, c.upvalues@.len() as int) =~= c.upvalues@);
            }
            collect_stmts_reads(&c.body.statements, out);
            assert(ids_view(out@) =~= ids_view(old(out)@) + rv_reads(rv@));
        },
        RValue::Varargs => {
            assert(ids_view(out@) =~= ids_view(out@) + rv_reads(rv@));
        },
        RValue::Table(items) => {
            collect_rvs_reads(items, out);
        },
    }
}

pub fn collect_rvs_reads(v: &Vec<RValue>, out: &mut Vec<usize>)
    ensures
        ids_view(final(out)@) == ids_view(old(out)@) + rvs_reads(rvs_view(v@)),
    decreases v@,
{
    proof {
        lemma_rvs_view(v@);
    }
    let mut i: usize = 0;
    while i < v.len()
        invariant
            i <= v@.len(),
            rvs_view(v@).len() == v@.len(),
            forall|j: int| 0 <= j < v@.len() ==> rvs_view(v@)[j] == rv_view(#[trigger] v@[j]),
            ids_view(out@) =~= ids_view(old(out)@) + rvs_reads(rvs_view(v@).subrange(0, i as int)),
        decreases v@.len() - i,
    {
        collect_rv_reads(&v[i], out);
        proof {
            let sv = rvs_view(v@);
            assert(sv.subrange(0, i + 1) =~= sv.subrange(0, i as int).push(sv[i as int]));
            lemma_rvs_reads_push(sv.subrange(0, i as int), sv[i as int]);
            assert(ids_view(out@) =~= ids_view(old(out)@) + rvs_reads(sv.subrange(0, i + 1)));
        }
        i += 1;
    }
    proof {
        assert(rvs_view(v@).subrange(0, v@.len() as int) =~= rvs_view(v@));
    }
}

pub fn collect_lv_reads(lv: &LValue, out: &mut Vec<usize>)
    ensures
        ids_view(final(out)@) == ids_view(old(out)@) + lv_reads(lv@),
    decreases *lv,
{
    match lv {
        LValue::Local(_) => {
            assert(ids_view(out@) =~= ids_view(out@) + lv_reads(lv@));
        },
        LValue::Global(_) => {
            assert(ids_view(out@) =~= ids_view(out@) + lv_reads(lv@));
        },
        LValue::Index(ix) => {
            collect_rv_reads(&ix.left, out);
            collect_rv_reads(&ix.right, out);
            assert(ids_view(out@) =~= ids_view(old(out)@) + lv_reads(lv@));
        },
    }
}

pub fn collect_lvs_reads(v: &Vec<LValue>, out: &mut Vec<usize>)
    ensures
        ids_view(final(out)@) == ids_view(old(out)@) + lvs_reads(lvs_view(v@)),
    decreases v@,
{
    proof {
        lemma_lvs_view(v@);
    }
    let mut i: usize = 0;
    while i < v.len()
        invariant
            i <= v@.len(),
            lvs_view(v@).len() == v@.len(),
            forall|j: int| 0 <= j < v@.len() ==> lvs_view(v@)[j] == lv_view(#[trigger] v@[j]),
            ids_view(out@) =~= ids_view(old(out)@) + lvs_reads(lvs_view(v@).subrange(0, i as int)),
        decreases v@.len() - i,
    {
        collect_lv_reads(&v[i], out);
        proof {
            let sv = lvs_view(v@);
            assert(sv.subrange(0, i + 1) =~= sv.subrange(0, i as int).push(sv[i as int]));
            lemma_lvs_reads_push(sv.subrange(0, i as int), sv[i as int]);
            assert(ids_view(out@) =~= ids_view(old(out)@) + lvs_reads(sv.subrange(0, i + 1)));
        }
        i += 1;
    }
    proof {
        assert(lvs_view(v@).subrange(0, v@.len() as int) =~= lvs_view(v@));
    }
}

pub fn collect_stmt_reads(st: &Statement, out: &mut Vec<usize>)
    ensures
        ids_view(final(out)@) == ids_view(old(out)@) + stmt_reads(st@),
    decreases *st,
{
    match st {
        Statement::Assign(a) => {
            collect_lvs_reads(&a.left, out);
            collect_rvs_reads(&a.right, out);
            assert(ids_view(out@) =~= ids_view(old(out)@) + stmt_reads(st@));
        },
        Statement::If(f) => {
            collect_rv_reads(&f.condition, out);
            collect_stmts_reads(&f.then_block.statements, out);
            collect_stmts_reads(&f.else_block.statements, out);
            assert(ids_view(out@) =~= ids_view(old(out)@) + stmt_reads(st@));
        },
        Statement::While(w) => {
            collect_rv_reads(&w.condition, out);
            collect_stmts_reads(&w.block.statements, out);
            assert(ids_view(out@) =~= ids_view(old(out)@) + stmt_reads(st@));
        },
        Statement::Repeat(rp) => {
            collect_stmts_reads(&rp.block.statements, out);
            collect_rv_reads(&rp.condition, out);
            assert(ids_view(out@) =~= ids_view(old(out)@) + stmt_reads(st@));
        },
        Statement::NumericFor(nf) => {
            collect_rv_reads(&nf.initial, out);
            collect_rv_reads(&nf.limit, out);
            collect_rv_reads(&nf.step, out);
            collect_stmts_reads(&nf.block.statements, out);
            assert(ids_view(out@) =~= ids_view(old(out)@) + stmt_reads(st@));
        },
        Statement::GenericFor(gf) => {
            collect_rvs_reads(&gf.right, out);
            collect_stmts_reads(&gf.block.statements, out);
            assert(ids_view(out@) =~= ids_view(old(out)@) + stmt_reads(st@));
        },
        Statement::Return(rs) => {
            collect_rvs_reads(rs, out);
        },
        Statement::Break => {
            assert(ids_view(out@) =~= ids_view(out@) + stmt_reads(st@));
        },
        Statement::Continue => {
            assert(ids_view(out@) =~= ids_view(out@) + stmt_reads(st@));
        },
        Statement::Goto(_) => {
            assert(ids_view(out@) =~= ids_view(out@) + stmt_reads(st@));
        },
        Statement::Label(_) => {
            assert(ids_view(out@) =~= ids_view(out@) + stmt_reads(st@));
        },
        Statement::SetList(sl) => {
            out.push(sl.object_local);
            assert(ids_view(out@) =~= ids_view(old(out)@) + seq![sl.object_local as nat]);
            collect_rvs_reads(&sl.values, out);
            match &sl.tail {
                Option::Some(t) => {
                    collect_rv_reads(t, out);
                },
                Option::None => {},
            }
            assert(ids_view(out@) =~= ids_view(old(out)@) + stmt_reads(st@));
        },
        Statement::Call(c) => {
            collect_rv_reads(&c.value, out);
            collect_rvs_reads(&c.arguments, out);
            assert(ids_view(out@) =~= ids_view(old(out)@) + stmt_reads(st@));
        },
    }
}

pub fn collect_stmts_reads(v: &Vec<Statement>, out: &mut Vec<usize>)
    ensures
        ids_view(final(out)@) == ids_view(old(out)@) + stmts_reads(stmts_view(v@)),
    decreases v@,
{
    proof {
        lemma_stmts_view(v@);
    }
    let mut i: usize = 0;
    while i < v.len()
        invariant
            i <= v@.len(),
            stmts_view(v@).len() == v@.len(),
            forall|j: int| 0 <= j < v@.len() ==> stmts_view(v@)[j] == stmt_view(#[trigger] v@[j]),
            ids_view(out@) =~= ids_view(old(out)@) + stmts_reads(
                stmts_view(v@).subrange(0, i as int),
            ),
        decreases v@.len() - i,
    {
        collect_stmt_reads(&v[i], out);
        proof {
            let sv = stmts_view(v@);
            assert(sv.subrange(0, i + 1) =~= sv.subrange(0, i as int).push(sv[i as int]));
            lemma_stmts_reads_push(sv.subrange(0, i as int), sv[i as int]);
            assert(ids_view(out@) =~= ids_view(old(out)@) + stmts_reads(sv.subrange(0, i + 1)));
        }
        i += 1;
    }
    proof {
        assert(stmts_view(v@).subrange(0, v@.len() as int) =~= stmts_view(v@));
    }
}

/// How often `id` occurs in `s`.
pub open spec fn count_in(s: Seq<nat>, id: nat) -> nat
    decreases s,
{
    if s.len() == 0 {
        0
    } else {
        (if s[0] == id {
            1nat
        } else {
            0nat
        }) + count_in(s.subrange(1, s.len() as int), id)
    }
}

/// A count saturated at two: the naming pass only asks whether a local has
/// more than one use.
pub open spec fn cap2(n: nat) -> nat {
    if n >= 2 {
        2
    } else {
        n
    }
}

pub proof fn lemma_count_in_push(s: Seq<nat>, x: nat, id: nat)
    ensures
        count_in(s.push(x), id) == count_in(s, id) + (if x == id {
            1nat
        } else {
            0nat
        }),
    decreases s,
{
    reveal_with_fuel(count_in, 3);
    if s.len() == 0 {
        assert(s.push(x).subrange(1, s.push(x).len() as int) =~= Seq::<nat>::empty());
    } else {
        let rest = s.subrange(1, s.len() as int);
        lemma_count_in_push(rest, x, id);
        assert(s.push(x).subrange(1, s.push(x).len() as int) =~= rest.push(x));
        assert(s.push(x)[0] == s[0]);
    }
}

/// The table of use counts, saturated at two: entry `id` is how often local
/// `id` is used in the block, where two stands for "two or more".
pub fn count_block_uses(b: &Block, n: usize) -> (counts: Vec<u8>)
    ensures
        counts@.len() == n,
        forall|id: int|
            0 <= id < n ==> counts@[id] == cap2(count_in(stmts_uses(b@), id as nat)),
{
    let mut out: Vec<usize> = Vec::new();
    collect_stmts_uses(&b.statements, &mut out);
    let ghost us = ids_view(out@);
    let mut counts: Vec<u8> = Vec::new();
    let mut k: usize = 0;
    while k < n
        invariant
            counts@.len() == k <= n,
            forall|id: int| 0 <= id < k ==> counts@[id] == 0,
        decreases n - k,
    {
        counts.push(0);
        k += 1;
    }
    let mut i: usize = 0;
    while i < out.len()
        invariant
            i <= out@.len(),
            us == ids_view(out@),
            us.len() == out@.len(),
            counts@.len() == n,
            forall|id: int|
                0 <= id < n ==> counts@[id] == cap2(
                    count_in(us.subrange(0, i as int), id as nat),
                ),
        decreases out@.len() - i,
    {
        let u = out[i];
        proof {
            assert(us.subrange(0, i + 1) =~= us.subrange(0, i as int).push(us[i as int]));
            assert(us[i as int] == u as nat);
            assert forall|id: nat| true implies count_in(us.subrange(0, i + 1), id) == count_in(
                us.subrange(0, i as int),
                id,
            ) + (if u as nat == id {
                1nat
            } else {
                0nat
            }) by {
                lemma_count_in_push(us.subrange(0, i as int), us[i as int], id);
            }
        }
        if u < n {
            let c = counts[u];
            if c < 2 {
                counts.set(u, c + 1);
            }
        }
        i += 1;
    }
    proof {
        assert(us.subrange(0, us.len() as int) =~= us);
    }
    counts
}

/// Whether the statements of `v` from position `from` on read local `id`.
pub fn stmts_read_local_from(v: &Vec<Statement>, from: usize, id: usize) -> (r: bool)
    requires
        from <= v@.len(),
    ensures
        r == stmts_reads(stmts_view(v@).subrange(from as int, stmts_view(v@).len() as int))
            .contains(id as nat),
{
    proof {
        lemma_stmts_view(v@);
    }
    let mut out: Vec<usize> = Vec::new();
    let mut i: usize = from;
    while i < v.len()
        invariant
            from <= i <= v@.len(),
            stmts_view(v@).len() == v@.len(),
            forall|j: int| 0 <= j < v@.len() ==> stmts_view(v@)[j] == stmt_view(#[trigger] v@[j]),
            ids_view(out@) =~= stmts_reads(stmts_view(v@).subrange(from as int, i as int)),
        decreases v@.len() - i,
    {
        collect_stmt_reads(&v[i], &mut out);
        proof {
            let sv = stmts_view(v@);
            assert(sv.subrange(from as int, i + 1) =~= sv.subrange(from as int, i as int).push(
                sv[i as int],
            ));
            lemma_stmts_reads_push(sv.subrange(from as int, i as int), sv[i as int]);
            assert(ids_view(out@) =~= stmts_reads(sv.subrange(from as int, i + 1)));
        }
        i += 1;
    }
    ids_contain(&out, id)
}

/// Whether the statements of block `b` read local `id`.
pub fn block_reads_local(b: &Block, id: usize) -> (r: bool)
    ensures
        r == stmts_reads(b@).contains(id as nat),
{
    let mut out: Vec<usize> = Vec::new();
    collect_stmts_reads(&b.statements, &mut out);
    ids_contain(&out, id)
}

/// Whether `id` occurs in a collected list of locals.
pub(crate) fn ids_contain(v: &Vec<usize>, id: usize) -> (r: bool)
    ensures
        r == ids_view(v@).contains(id as nat),
{
    let mut i: usize = 0;
    while i < v.len()
        invariant
            i <= v@.len(),
            forall|j: int| 0 <= j < i ==> v@[j] != id,
        decreases v@.len() - i,
    {
        if v[i] == id {
            assert(ids_view(v@)[i as int] == id as nat);
            return true;
        }
        i += 1;
    }
    assert forall|j: int| 0 <= j < ids_view(v@).len() implies ids_view(v@)[j] != id as nat by {
        assert(v@[j] != id);
    }
    false
}

// ---------------------------------------------------------------------------
// Uses: reads and writes together, for reference counting. A use is any
// occurrence of the local in a statement: a read, a write target, or a
// capture; binder positions (closure parameters, loop counters, iteration
// result lists) are not uses.
// ---------------------------------------------------------------------------

pub open spec fn rv_uses(v: RValueV) -> Seq<nat>
    decreases v,
{
    match v {
        RValueV::Literal(_) => Seq::empty(),
        RValueV::Local(id) => seq![id],
        RValueV::Global(_) => Seq::empty(),
        RValueV::Field(base, _) => rv_uses(*base),
        RValueV::Index(ix) => rv_uses(*ix.left) + rv_uses(*ix.right),
        RValueV::Call(c) => rv_uses(*c.value) + rvs_uses(c.arguments),
        RValueV::MethodCall(mc) => rv_uses(*mc.value) + rvs_uses(mc.arguments),
        RValueV::Binary(l, _, r) => rv_uses(*l) + rv_uses(*r),
        RValueV::Unary(_, e) => rv_uses(*e),
        RValueV::Closure(c) => upvalues_ids(c.upvalues) + stmts_uses(c.body),
        RValueV::Varargs => Seq::empty(),
        RValueV::Table(items) => rvs_uses(items),
    }
}

pub open spec fn rvs_uses(s: Seq<RValueV>) -> Seq<nat>
    decreases s,
{
    if s.len() == 0 {
        Seq::empty()
    } else {
        rv_uses(s[0]) + rvs_uses(s.subrange(1, s.len() as int))
    }
}

pub open spec fn lv_uses(lv: LValueV) -> Seq<nat>
    decreases lv,
{
    match lv {
        LValueV::Local(id) => seq![id],
        LValueV::Global(_) => Seq::empty(),
        LValueV::Index(ix) => rv_uses(*ix.left) + rv_uses(*ix.right),
    }
}

pub open spec fn lvs_uses(s: Seq<LValueV>) -> Seq<nat>
    decreases s,
{
    if s.len() == 0 {
        Seq::empty()
    } else {
        lv_uses(s[0]) + lvs_uses(s.subrange(1, s.len() as int))
    }
}

pub open spec fn stmt_uses(st: StatementV) -> Seq<nat>
    decreases st,
{
    match st {
        StatementV::Assign(a) => lvs_uses(a.left) + rvs_uses(a.right),
        StatementV::If(f) => rv_uses(f.condition) + stmts_uses(f.then_block) + stmts_uses(
            f.else_block,
        ),
        StatementV::While { condition, block } => rv_uses(condition) + stmts_uses(block),
        StatementV::Repeat { block, condition } => stmts_uses(block) + rv_uses(condition),
        StatementV::NumericFor { counter: _, initial, limit, step, block } => rv_uses(initial)
            + rv_uses(limit) + rv_uses(step) + stmts_uses(block),
        StatementV::GenericFor { res_locals: _, right, block } => rvs_uses(right) + stmts_uses(
            block,
        ),
        StatementV::Return(rs) => rvs_uses(rs),
        StatementV::Break => Seq::empty(),
        StatementV::Continue => Seq::empty(),
        StatementV::Goto(_) => Seq::empty(),
        StatementV::Label(_) => Seq::empty(),
        StatementV::SetList(sl) => seq![sl.object_local] + rvs_uses(sl.values) + (
        match sl.tail {
            Option::Some(t) => rv_uses(t),
            Option::None => Seq::empty(),
        }),
        StatementV::Call(c) => rv_uses(*c.value) + rvs_uses(c.arguments),
    }
}

pub open spec fn stmts_uses(s: Seq<StatementV>) -> Seq<nat>
    decreases s,
{
    if s.len() == 0 {
        Seq::empty()
    } else {
        stmt_uses(s[0]) + stmts_uses(s.subrange(1, s.len() as int))
    }
}

/// `stmts_uses` distributes over appending a statement.
pub proof fn lemma_stmts_uses_push(s: Seq<StatementV>, x: StatementV)
    ensures
        stmts_uses(s.push(x)) == stmts_uses(s) + stmt_uses(x),
    decreases s,
{
    reveal_with_fuel(stmts_uses, 3);
    if s.len() == 0 {
        assert(s.push(x).subrange(1, s.push(x).len() as int) =~= Seq::<StatementV>::empty());
        assert(stmts_uses(s.push(x)) =~= stmts_uses(s) + stmt_uses(x));
    } else {
        let rest = s.subrange(1, s.len() as int);
        lemma_stmts_uses_push(rest, x);
        assert(s.push(x).subrange(1, s.push(x).len() as int) =~= rest.push(x));
        assert(s.push(x)[0] == s[0]);
        assert(stmts_uses(s.push(x)) =~= stmts_uses(s) + stmt_uses(x));
    }
}

/// `rvs_uses` distributes over appending an expression.
pub proof fn lemma_rvs_uses_push(s: Seq<RValueV>, x: RValueV)
    ensures
        rvs_uses(s.push(x)) == rvs_uses(s) + rv_uses(x),
    decreases s,
{
    reveal_with_fuel(rvs_uses, 3);
    if s.len() == 0 {
        assert(s.push(x).subrange(1, s.push(x).len() as int) =~= Seq::<RValueV>::empty());
        assert(rvs_uses(s.push(x)) =~= rvs_uses(s) + rv_uses(x));
    } else {
        let rest = s.subrange(1, s.len() as int);
        lemma_rvs_uses_push(rest, x);
        assert(s.push(x).subrange(1, s.push(x).len() as int) =~= rest.push(x));
        assert(s.push(x)[0] == s[0]);
        assert(rvs_uses(s.push(x)) =~= rvs_uses(s) + rv_uses(x));
    }
}

/// `lvs_uses` distributes over appending a target.
pub proof fn lemma_lvs_uses_push(s: Seq<LValueV>, x: LValueV)
    ensures
        lvs_uses(s.push(x)) == lvs_uses(s) + lv_uses(x),
    decreases s,
{
    reveal_with_fuel(lvs_uses, 3);
    if s.len() == 0 {
        assert(s.push(x).subrange(1, s.push(x).len() as int) =~= Seq::<LValueV>::empty());
        assert(lvs_uses(s.push(x)) =~= lvs_uses(s) + lv_uses(x));
    } else {
        let rest = s.subrange(1, s.len() as int);
        lemma_lvs_uses_push(rest, x);
        assert(s.push(x).subrange(1, s.push(x).len() as int) =~= rest.push(x));
        assert(s.push(x)[0] == s[0]);
        assert(lvs_uses(s.push(x)) =~= lvs_uses(s) + lv_uses(x));
    }
}

// ---------------------------------------------------------------------------
// Executable read collectors, in tree order.
// ---------------------------------------------------------------------------

pub fn collect_rv_uses(rv: &RValue, out: &mut Vec<usize>)
    ensures
        ids_view(final(out)@) == ids_view(old(out)@) + rv_uses(rv@),
    decreases *rv,
{
    match rv {
        RValue::Literal(_) => {
            assert(ids_view(out@) =~= ids_view(out@) + rv_uses(rv@));
        },
        RValue::Local(id) => {
            out.push(*id);
            assert(ids_view(out@) =~= ids_view(old(out)@) + rv_uses(rv@));
        },
        RValue::Global(_) => {
            assert(ids_view(out@) =~= ids_view(out@) + rv_uses(rv@));
        },
        RValue::Field(base, _) => {
            collect_rv_uses(base, out);
        },
        RValue::Index(ix) => {
            let ghost o0 = ids_view(out@);
            collect_rv_uses(&ix.left, out);
            let ghost o1 = ids_view(out@);
            collect_rv_uses(&ix.right, out);
            proof {
                assert(o1 == o0 + rv_uses(ix.left@));
                assert(ids_view(out@) == o1 + rv_uses(ix.right@));
                assert(rv@ == RValueV::Index(crate::ast::index_view(*ix)));
                assert(rv_uses(rv@) == rv_uses(ix.left@) + rv_uses(ix.right@));
                assert(ids_view(out@) =~= o0 + rv_uses(rv@));
            }
        },
        RValue::Call(c) => {
            let ghost o0 = ids_view(out@);
            collect_rv_uses(&c.value, out);
            let ghost o1 = ids_view(out@);
            collect_rvs_uses(&c.arguments, out);
            proof {
                assert(o1 == o0 + rv_uses(c.value@));
                assert(rv@ == RValueV::Call(crate::ast::call_view(*c)));
                assert(rv_uses(rv@) == rv_uses(c.value@) + rvs_uses(rvs_view(c.arguments@)));
                assert(ids_view(out@) =~= o0 + rv_uses(rv@));
            }
        },
        RValue::MethodCall(mc) => {
            let ghost o0 = ids_view(out@);
            collect_rv_uses(&mc.value, out);
            let ghost o1 = ids_view(out@);
            collect_rvs_uses(&mc.arguments, out);
            proof {
                assert(o1 == o0 + rv_uses(mc.value@));
                assert(rv@ == RValueV::MethodCall(crate::ast::method_call_view(*mc)));
                assert(rv_uses(rv@) == rv_uses(mc.value@) + rvs_uses(rvs_view(mc.arguments@)));
                assert(ids_view(out@) =~= o0 + rv_uses(rv@));
            }
        },
        RValue::Binary(l, _, r) => {
            let ghost o0 = ids_view(out@);
            collect_rv_uses(l, out);
            let ghost o1 = ids_view(out@);
            collect_rv_uses(r, out);
            proof {
                assert(o1 == o0 + rv_uses(l@));
                assert(ids_view(out@) =~= o0 + rv_uses(rv@));
            }
        },
        RValue::Unary(_, e) => {
            collect_rv_uses(e, out);
        },
        RValue::Closure(c) => {
            let ghost mid0 = out@;
            let mut i: usize = 0;
            while i < c.upvalues.len()
                invariant
                    i <= c.upvalues@.len(),
                    ids_view(out@) =~= ids_view(mid0) + upvalues_ids(
                        c.upvalues@.subrange(0, i as int),
                    ),
                decreases c.upvalues@.len() - i,
            {
                let id = match c.upvalues[i] {
                    Upvalue::ByCopy(id) => id,
                    Upvalue::ByRef(id) => id,
                };
                let ghost prev = out@;
                out.push(id);
                proof {
                    let us = c.upvalues@;
                    assert(id as nat == upvalue_id(us[i as int]));
                    assert(us.subrange(0, i + 1) =~= us.subrange(0, i as int).push(us[i as int]));
                    assert(upvalues_ids(us.subrange(0, i + 1)) =~= upvalues_ids(
                        us.subrange(0, i as int),
                    ).push(upvalue_id(us[i as int])));
                    assert(out@ == prev.push(id));
                    assert(ids_view(out@) =~= ids_view(prev).push(id as nat));
                    assert(ids_view(out@) =~= ids_view(mid0) + upvalues_ids(
                        us.subrange(0, i + 1),
                    ));
                }
                i += 1;
            }
            proof {
                assert(c.upvalues@.subrange(0, c.upvalues@.len() as int) =~= c.upvalues@);
            }
            collect_stmts_uses(&c.body.statements, out);
            assert(ids_view(out@) =~= ids_view(old(out)@) + rv_uses(rv@));
        },
        RValue::Varargs => {
            assert(ids_view(out@) =~= ids_view(out@) + rv_uses(rv@));
        },
        RValue::Table(items) => {
            collect_rvs_uses(items, out);
        },
    }
}

pub fn collect_rvs_uses(v: &Vec<RValue>, out: &mut Vec<usize>)
    ensures
        ids_view(final(out)@) == ids_view(old(out)@) + rvs_uses(rvs_view(v@)),
    decreases v@,
{
    proof {
        lemma_rvs_view(v@);
    }
    let mut i: usize = 0;
    while i < v.len()
        invariant
            i <= v@.len(),
            rvs_view(v@).len() == v@.len(),
            forall|j: int| 0 <= j < v@.len() ==> rvs_view(v@)[j] == rv_view(#[trigger] v@[j]),
            ids_view(out@) =~= ids_view(old(out)@) + rvs_uses(rvs_view(v@).subrange(0, i as int)),
        decreases v@.len() - i,
    {
        collect_rv_uses(&v[i], out);
        proof {
            let sv = rvs_view(v@);
            assert(sv.subrange(0, i + 1) =~= sv.subrange(0, i as int).push(sv[i as int]));
            lemma_rvs_uses_push(sv.subrange(0, i as int), sv[i as int]);
            assert(ids_view(out@) =~= ids_view(old(out)@) + rvs_uses(sv.subrange(0, i + 1)));
        }
        i += 1;
    }
    proof {
        assert(rvs_view(v@).subrange(0, v@.len() as int) =~= rvs_view(v@));
    }
}

pub fn collect_lv_uses(lv: &LValue, out: &mut Vec<usize>)
    ensures
        ids_view(final(out)@) == ids_view(old(out)@) + lv_uses(lv@),
    decreases *lv,
{
    match lv {
        LValue::Local(id) => {
            out.push(*id);
            assert(ids_view(out@) =~= ids_view(old(out)@) + lv_uses(lv@));
        },
        LValue::Global(_) => {
            assert(ids_view(out@) =~= ids_view(out@) + lv_uses(lv@));
        },
        LValue::Index(ix) => {
            collect_rv_uses(&ix.left, out);
            collect_rv_uses(&ix.right, out);
            assert(ids_view(out@) =~= ids_view(old(out)@) + lv_uses(lv@));
        },
    }
}

pub fn collect_lvs_uses(v: &Vec<LValue>, out: &mut Vec<usize>)
    ensures
        ids_view(final(out)@) == ids_view(old(out)@) + lvs_uses(lvs_view(v@)),
    decreases v@,
{
    proof {
        lemma_lvs_view(v@);
    }
    let mut i: usize = 0;
    while i < v.len()
        invariant
            i <= v@.len(),
            lvs_view(v@).len() == v@.len(),
            forall|j: int| 0 <= j < v@.len() ==> lvs_view(v@)[j] == lv_view(#[trigger] v@[j]),
            ids_view(out@) =~= ids_view(old(out)@) + lvs_uses(lvs_view(v@).subrange(0, i as int)),
        decreases v@.len() - i,
    {
        collect_lv_uses(&v[i], out);
        proof {
            let sv = lvs_view(v@);
            assert(sv.subrange(0, i + 1) =~= sv.subrange(0, i as int).push(sv[i as int]));
            lemma_lvs_uses_push(sv.subrange(0, i as int), sv[i as int]);
            assert(ids_view(out@) =~= ids_view(old(out)@) + lvs_uses(sv.subrange(0, i + 1)));
        }
        i += 1;
    }
    proof {
        assert(lvs_view(v@).subrange(0, v@.len() as int) =~= lvs_view(v@));
    }
}

pub fn collect_stmt_uses(st: &Statement, out: &mut Vec<usize>)
    ensures
        ids_view(final(out)@) == ids_view(old(out)@) + stmt_uses(st@),
    decreases *st,
{
    match st {
        Statement::Assign(a) => {
            collect_lvs_uses(&a.left, out);
            collect_rvs_uses(&a.right, out);
            assert(ids_view(out@) =~= ids_view(old(out)@) + stmt_uses(st@));
        },
        Statement::If(f) => {
            collect_rv_uses(&f.condition, out);
            collect_stmts_uses(&f.then_block.statements, out);
            collect_stmts_uses(&f.else_block.statements, out);
            assert(ids_view(out@) =~= ids_view(old(out)@) + stmt_uses(st@));
        },
        Statement::While(w) => {
            collect_rv_uses(&w.condition, out);
            collect_stmts_uses(&w.block.statements, out);
            assert(ids_view(out@) =~= ids_view(old(out)@) + stmt_uses(st@));
        },
        Statement::Repeat(rp) => {
            collect_stmts_uses(&rp.block.statements, out);
            collect_rv_uses(&rp.condition, out);
            assert(ids_view(out@) =~= ids_view(old(out)@) + stmt_uses(st@));
        },
        Statement::NumericFor(nf) => {
            collect_rv_uses(&nf.initial, out);
            collect_rv_uses(&nf.limit, out);
            collect_rv_uses(&nf.step, out);
            collect_stmts_uses(&nf.block.statements, out);
            assert(ids_view(out@) =~= ids_view(old(out)@) + stmt_uses(st@));
        },
        Statement::GenericFor(gf) => {
            collect_rvs_uses(&gf.right, out);
            collect_stmts_uses(&gf.block.statements, out);
            assert(ids_view(out@) =~= ids_view(old(out)@) + stmt_uses(st@));
        },
        Statement::Return(rs) => {
            collect_rvs_uses(rs, out);
        },
        Statement::Break => {
            assert(ids_view(out@) =~= ids_view(out@) + stmt_uses(st@));
        },
        Statement::Continue => {
            assert(ids_view(out@) =~= ids_view(out@) + stmt_uses(st@));
        },
        Statement::Goto(_) => {
            assert(ids_view(out@) =~= ids_view(out@) + stmt_uses(st@));
        },
        Statement::Label(_) => {
            assert(ids_view(out@) =~= ids_view(out@) + stmt_uses(st@));
        },
        Statement::SetList(sl) => {
            out.push(sl.object_local);
            assert(ids_view(out@) =~= ids_view(old(out)@) + seq![sl.object_local as nat]);
            collect_rvs_uses(&sl.values, out);
            match &sl.tail {
                Option::Some(t) => {
                    collect_rv_uses(t, out);
                },
                Option::None => {},
            }
            assert(ids_view(out@) =~= ids_view(old(out)@) + stmt_uses(st@));
        },
        Statement::Call(c) => {
            collect_rv_uses(&c.value, out);
            collect_rvs_uses(&c.arguments, out);
            assert(ids_view(out@) =~= ids_view(old(out)@) + stmt_uses(st@));
        },
    }
}

pub fn collect_stmts_uses(v: &Vec<Statement>, out: &mut Vec<usize>)
    ensures
        ids_view(final(out)@) == ids_view(old(out)@) + stmts_uses(stmts_view(v@)),
    decreases v@,
{
    proof {
        lemma_stmts_view(v@);
    }
    let mut i: usize = 0;
    while i < v.len()
        invariant
            i <= v@.len(),
            stmts_view(v@).len() == v@.len(),
            forall|j: int| 0 <= j < v@.len() ==> stmts_view(v@)[j] == stmt_view(#[trigger] v@[j]),
            ids_view(out@) =~= ids_view(old(out)@) + stmts_uses(
                stmts_view(v@).subrange(0, i as int),
            ),
        decreases v@.len() - i,
    {
        collect_stmt_uses(&v[i], out);
        proof {
            let sv = stmts_view(v@);
            assert(sv.subrange(0, i + 1) =~= sv.subrange(0, i as int).push(sv[i as int]));
            lemma_stmts_uses_push(sv.subrange(0, i as int), sv[i as int]);
            assert(ids_view(out@) =~= ids_view(old(out)@) + stmts_uses(sv.subrange(0, i + 1)));
        }
        i += 1;
    }
    proof {
        assert(stmts_view(v@).subrange(0, v@.len() as int) =~= stmts_view(v@));
    }
}

// ---------------------------------------------------------------------------
// Captures. The locals a tree captures as upvalues of some closure, nested
// closures included; used by the naming pass to collect the capture set.
// ---------------------------------------------------------------------------

pub open spec fn rv_upvals(v: RValueV) -> Seq<nat>
    decreases v,
{
    match v {
        RValueV::Literal(_) => Seq::empty(),
        RValueV::Local(_) => Seq::empty(),
        RValueV::Global(_) => Seq::empty(),
        RValueV::Field(base, _) => rv_upvals(*base),
        RValueV::Index(ix) => rv_upvals(*ix.left) + rv_upvals(*ix.right),
        RValueV::Call(c) => rv_upvals(*c.value) + rvs_upvals(c.arguments),
        RValueV::MethodCall(mc) => rv_upvals(*mc.value) + rvs_upvals(mc.arguments),
        RValueV::Binary(l, _, r) => rv_upvals(*l) + rv_upvals(*r),
        RValueV::Unary(_, e) => rv_upvals(*e),
        RValueV::Closure(c) => upvalues_ids(c.upvalues) + stmts_upvals(c.body),
        RValueV::Varargs => Seq::empty(),
        RValueV::Table(items) => rvs_upvals(items),
    }
}

pub open spec fn rvs_upvals(s: Seq<RValueV>) -> Seq<nat>
    decreases s,
{
    if s.len() == 0 {
        Seq::empty()
    } else {
        rv_upvals(s[0]) + rvs_upvals(s.subrange(1, s.len() as int))
    }
}

pub open spec fn lv_upvals(lv: LValueV) -> Seq<nat>
    decreases lv,
{
    match lv {
        LValueV::Local(_) => Seq::empty(),
        LValueV::Global(_) => Seq::empty(),
        LValueV::Index(ix) => rv_upvals(*ix.left) + rv_upvals(*ix.right),
    }
}

pub open spec fn lvs_upvals(s: Seq<LValueV>) -> Seq<nat>
    decreases s,
{
    if s.len() == 0 {
        Seq::empty()
    } else {
        lv_upvals(s[0]) + lvs_upvals(s.subrange(1, s.len() as int))
    }
}

pub open spec fn stmt_upvals(st: StatementV) -> Seq<nat>
    decreases st,
{
    match st {
        StatementV::Assign(a) => lvs_upvals(a.left) + rvs_upvals(a.right),
        StatementV::If(f) => rv_upvals(f.condition) + stmts_upvals(f.then_block) + stmts_upvals(
            f.else_block,
        ),
        StatementV::While { condition, block } => rv_upvals(condition) + stmts_upvals(block),
        StatementV::Repeat { block, condition } => stmts_upvals(block) + rv_upvals(condition),
        StatementV::NumericFor { counter: _, initial, limit, step, block } => rv_upvals(initial)
            + rv_upvals(limit) + rv_upvals(step) + stmts_upvals(block),
        StatementV::GenericFor { res_locals: _, right, block } => rvs_upvals(right) + stmts_upvals(
            block,
        ),
        StatementV::Return(rs) => rvs_upvals(rs),
        StatementV::Break => Seq::empty(),
        StatementV::Continue => Seq::empty(),
        StatementV::Goto(_) => Seq::empty(),
        StatementV::Label(_) => Seq::empty(),
        StatementV::SetList(sl) => rvs_upvals(sl.values) + (match sl.tail {
            Option::Some(t) => rv_upvals(t),
            Option::None => Seq::empty(),
        }),
        StatementV::Call(c) => rv_upvals(*c.value) + rvs_upvals(c.arguments),
    }
}

pub open spec fn stmts_upvals(s: Seq<StatementV>) -> Seq<nat>
    decreases s,
{
    if s.len() == 0 {
        Seq::empty()
    } else {
        stmt_upvals(s[0]) + stmts_upvals(s.subrange(1, s.len() as int))
    }
}

/// `stmts_upvals` distributes over appending a statement.
pub proof fn lemma_stmts_upvals_push(s: Seq<StatementV>, x: StatementV)
    ensures
        stmts_upvals(s.push(x)) == stmts_upvals(s) + stmt_upvals(x),
    decreases s,
{
    reveal_with_fuel(stmts_upvals, 3);
    if s.len() == 0 {
        assert(s.push(x).subrange(1, s.push(x).len() as int) =~= Seq::<StatementV>::empty());
        assert(stmts_upvals(s.push(x)) =~= stmts_upvals(s) + stmt_upvals(x));
    } else {
        let rest = s.subrange(1, s.len() as int);
        lemma_stmts_upvals_push(rest, x);
        assert(s.push(x).subrange(1, s.push(x).len() as int) =~= rest.push(x));
        assert(s.push(x)[0] == s[0]);
        assert(stmts_upvals(s.push(x)) =~= stmts_upvals(s) + stmt_upvals(x));
    }
}

/// `rvs_upvals` distributes over appending an expression.
pub proof fn lemma_rvs_upvals_push(s: Seq<RValueV>, x: RValueV)
    ensures
        rvs_upvals(s.push(x)) == rvs_upvals(s) + rv_upvals(x),
    decreases s,
{
    reveal_with_fuel(rvs_upvals, 3);
    if s.len() == 0 {
        assert(s.push(x).subrange(1, s.push(x).len() as int) =~= Seq::<RValueV>::empty());
        assert(rvs_upvals(s.push(x)) =~= rvs_upvals(s) + rv_upvals(x));
    } else {
        let rest = s.subrange(1, s.len() as int);
        lemma_rvs_upvals_push(rest, x);
        assert(s.push(x).subrange(1, s.push(x).len() as int) =~= rest.push(x));
        assert(s.push(x)[0] == s[0]);
        assert(rvs_upvals(s.push(x)) =~= rvs_upvals(s) + rv_upvals(x));
    }
}

/// `lvs_upvals` distributes over appending a target.
pub proof fn lemma_lvs_upvals_push(s: Seq<LValueV>, x: LValueV)
    ensures
        lvs_upvals(s.push(x)) == lvs_upvals(s) + lv_upvals(x),
    decreases s,
{
    reveal_with_fuel(lvs_upvals, 3);
    if s.len() == 0 {
        assert(s.push(x).subrange(1, s.push(x).len() as int) =~= Seq::<LValueV>::empty());
        assert(lvs_upvals(s.push(x)) =~= lvs_upvals(s) + lv_upvals(x));
    } else {
        let rest = s.subrange(1, s.len() as int);
        lemma_lvs_upvals_push(rest, x);
        assert(s.push(x).subrange(1, s.push(x).len() as int) =~= rest.push(x));
        assert(s.push(x)[0] == s[0]);
        assert(lvs_upvals(s.push(x)) =~= lvs_upvals(s) + lv_upvals(x));
    }
}

// ---------------------------------------------------------------------------
// Executable read collectors, in tree order.
// ---------------------------------------------------------------------------

pub fn collect_rv_upvals(rv: &RValue, out: &mut Vec<usize>)
    ensures
        ids_view(final(out)@) == ids_view(old(out)@) + rv_upvals(rv@),
    decreases *rv,
{
    match rv {
        RValue::Literal(_) => {
            assert(ids_view(out@) =~= ids_view(out@) + rv_upvals(rv@));
        },
        RValue::Local(_) => {
            assert(ids_view(out@) =~= ids_view(out@) + rv_upvals(rv@));
        },
        RValue::Global(_) => {
            assert(ids_view(out@) =~= ids_view(out@) + rv_upvals(rv@));
        },
        RValue::Field(base, _) => {
            collect_rv_upvals(base, out);
        },
        RValue::Index(ix) => {
            let ghost o0 = ids_view(out@);
            collect_rv_upvals(&ix.left, out);
            let ghost o1 = ids_view(out@);
            collect_rv_upvals(&ix.right, out);
            proof {
                assert(o1 == o0 + rv_upvals(ix.left@));
                assert(ids_view(out@) == o1 + rv_upvals(ix.right@));
                assert(rv@ == RValueV::Index(crate::ast::index_view(*ix)));
                assert(rv_upvals(rv@) == rv_upvals(ix.left@) + rv_upvals(ix.right@));
                assert(ids_view(out@) =~= o0 + rv_upvals(rv@));
            }
        },
        RValue::Call(c) => {
            let ghost o0 = ids_view(out@);
            collect_rv_upvals(&c.value, out);
            let ghost o1 = ids_view(out@);
            collect_rvs_upvals(&c.arguments, out);
            proof {
                assert(o1 == o0 + rv_upvals(c.value@));
                assert(rv@ == RValueV::Call(crate::ast::call_view(*c)));
                assert(rv_upvals(rv@) == rv_upvals(c.value@) + rvs_upvals(rvs_view(c.arguments@)));
                assert(ids_view(out@) =~= o0 + rv_upvals(rv@));
            }
        },
        RValue::MethodCall(mc) => {
            let ghost o0 = ids_view(out@);
            collect_rv_upvals(&mc.value, out);
            let ghost o1 = ids_view(out@);
            collect_rvs_upvals(&mc.arguments, out);
            proof {
                assert(o1 == o0 + rv_upvals(mc.value@));
                assert(rv@ == RValueV::MethodCall(crate::ast::method_call_view(*mc)));
                assert(rv_upvals(rv@) == rv_upvals(mc.value@) + rvs_upvals(rvs_view(mc.arguments@)));
                assert(ids_view(out@) =~= o0 + rv_upvals(rv@));
            }
        },
        RValue::Binary(l, _, r) => {
            let ghost o0 = ids_view(out@);
            collect_rv_upvals(l, out);
            let ghost o1 = ids_view(out@);
            collect_rv_upvals(r, out);
            proof {
                assert(o1 == o0 + rv_upvals(l@));
                assert(ids_view(out@) =~= o0 + rv_upvals(rv@));
            }
        },
        RValue::Unary(_, e) => {
            collect_rv_upvals(e, out);
        },
        RValue::Closure(c) => {
            let ghost mid0 = out@;
            let mut i: usize = 0;
            while i < c.upvalues.len()
                invariant
                    i <= c.upvalues@.len(),
                    ids_view(out@) =~= ids_view(mid0) + upvalues_ids(
                        c.upvalues@.subrange(0, i as int),
                    ),
                decreases c.upvalues@.len() - i,
            {
                let id = match c.upvalues[i] {
                    Upvalue::ByCopy(id) => id,
                    Upvalue::ByRef(id) => id,
                };
                let ghost prev = out@;
                out.push(id);
                proof {
                    let us = c.upvalues@;
                    assert(id as nat == upvalue_id(us[i as int]));
                    assert(us.subrange(0, i + 1) =~= us.subrange(0, i as int).push(us[i as int]));
                    assert(upvalues_ids(us.subrange(0, i + 1)) =~= upvalues_ids(
                        us.subrange(0, i as int),
                    ).push(upvalue_id(us[i as int])));
                    assert(out@ == prev.push(id));
                    assert(ids_view(out@) =~= ids_view(prev).push(id as nat));
                    assert(ids_view(out@) =~= ids_view(mid0) + upvalues_ids(
                        us.subrange(0, i + 1),
                    ));
                }
                i += 1;
            }
            proof {
                assert(c.upvalues@.subrange(0, c.upvalues@.len() as int) =~= c.upvalues@);
            }
            collect_stmts_upvals(&c.body.statements, out);
            assert(ids_view(out@) =~= ids_view(old(out)@) + rv_upvals(rv@));
        },
        RValue::Varargs => {
            assert(ids_view(out@) =~= ids_view(out@) + rv_upvals(rv@));
        },
        RValue::Table(items) => {
            collect_rvs_upvals(items, out);
        },
    }
}

pub fn collect_rvs_upvals(v: &Vec<RValue>, out: &mut Vec<usize>)
    ensures
        ids_view(final(out)@) == ids_view(old(out)@) + rvs_upvals(rvs_view(v@)),
    decreases v@,
{
    proof {
        lemma_rvs_view(v@);
    }
    let mut i: usize = 0;
    while i < v.len()
        invariant
            i <= v@.len(),
            rvs_view(v@).len() == v@.len(),
            forall|j: int| 0 <= j < v@.len() ==> rvs_view(v@)[j] == rv_view(#[trigger] v@[j]),
            ids_view(out@) =~= ids_view(old(out)@) + rvs_upvals(rvs_view(v@).subrange(0, i as int)),
        decreases v@.len() - i,
    {
        collect_rv_upvals(&v[i], out);
        proof {
            let sv = rvs_view(v@);
            assert(sv.subrange(0, i + 1) =~= sv.subrange(0, i as int).push(sv[i as int]));
            lemma_rvs_upvals_push(sv.subrange(0, i as int), sv[i as int]);
            assert(ids_view(out@) =~= ids_view(old(out)@) + rvs_upvals(sv.subrange(0, i + 1)));
        }
        i += 1;
    }
    proof {
        assert(rvs_view(v@).subrange(0, v@.len() as int) =~= rvs_view(v@));
    }
}

pub fn collect_lv_upvals(lv: &LValue, out: &mut Vec<usize>)
    ensures
        ids_view(final(out)@) == ids_view(old(out)@) + lv_upvals(lv@),
    decreases *lv,
{
    match lv {
        LValue::Local(_) => {
            assert(ids_view(out@) =~= ids_view(out@) + lv_upvals(lv@));
        },
        LValue::Global(_) => {
            assert(ids_view(out@) =~= ids_view(out@) + lv_upvals(lv@));
        },
        LValue::Index(ix) => {
            collect_rv_upvals(&ix.left, out);
            collect_rv_upvals(&ix.right, out);
            assert(ids_view(out@) =~= ids_view(old(out)@) + lv_upvals(lv@));
        },
    }
}

pub fn collect_lvs_upvals(v: &Vec<LValue>, out: &mut Vec<usize>)
    ensures
        ids_view(final(out)@) == ids_view(old(out)@) + lvs_upvals(lvs_view(v@)),
    decreases v@,
{
    proof {
        lemma_lvs_view(v@);
    }
    let mut i: usize = 0;
    while i < v.len()
        invariant
            i <= v@.len(),
            lvs_view(v@).len() == v@.len(),
            forall|j: int| 0 <= j < v@.len() ==> lvs_view(v@)[j] == lv_view(#[trigger] v@[j]),
            ids_view(out@) =~= ids_view(old(out)@) + lvs_upvals(lvs_view(v@).subrange(0, i as int)),
        decreases v@.len() - i,
    {
        collect_lv_upvals(&v[i], out);
        proof {
            let sv = lvs_view(v@);
            assert(sv.subrange(0, i + 1) =~= sv.subrange(0, i as int).push(sv[i as int]));
            lemma_lvs_upvals_push(sv.subrange(0, i as int), sv[i as int]);
            assert(ids_view(out@) =~= ids_view(old(out)@) + lvs_upvals(sv.subrange(0, i + 1)));
        }
        i += 1;
    }
    proof {
        assert(lvs_view(v@).subrange(0, v@.len() as int) =~= lvs_view(v@));
    }
}

pub fn collect_stmt_upvals(st: &Statement, out: &mut Vec<usize>)
    ensures
        ids_view(final(out)@) == ids_view(old(out)@) + stmt_upvals(st@),
    decreases *st,
{
    match st {
        Statement::Assign(a) => {
            collect_lvs_upvals(&a.left, out);
            collect_rvs_upvals(&a.right, out);
            assert(ids_view(out@) =~= ids_view(old(out)@) + stmt_upvals(st@));
        },
        Statement::If(f) => {
            collect_rv_upvals(&f.condition, out);
            collect_stmts_upvals(&f.then_block.statements, out);
            collect_stmts_upvals(&f.else_block.statements, out);
            assert(ids_view(out@) =~= ids_view(old(out)@) + stmt_upvals(st@));
        },
        Statement::While(w) => {
            collect_rv_upvals(&w.condition, out);
            collect_stmts_upvals(&w.block.statements, out);
            assert(ids_view(out@) =~= ids_view(old(out)@) + stmt_upvals(st@));
        },
        Statement::Repeat(rp) => {
            collect_stmts_upvals(&rp.block.statements, out);
            collect_rv_upvals(&rp.condition, out);
            assert(ids_view(out@) =~= ids_view(old(out)@) + stmt_upvals(st@));
        },
        Statement::NumericFor(nf) => {
            collect_rv_upvals(&nf.initial, out);
            collect_rv_upvals(&nf.limit, out);
            collect_rv_upvals(&nf.step, out);
            collect_stmts_upvals(&nf.block.statements, out);
            assert(ids_view(out@) =~= ids_view(old(out)@) + stmt_upvals(st@));
        },
        Statement::GenericFor(gf) => {
            collect_rvs_upvals(&gf.right, out);
            collect_stmts_upvals(&gf.block.statements, out);
            assert(ids_view(out@) =~= ids_view(old(out)@) + stmt_upvals(st@));
        },
        Statement::Return(rs) => {
            collect_rvs_upvals(rs, out);
        },
        Statement::Break => {
            assert(ids_view(out@) =~= ids_view(out@) + stmt_upvals(st@));
        },
        Statement::Continue => {
            assert(ids_view(out@) =~= ids_view(out@) + stmt_upvals(st@));
        },
        Statement::Goto(_) => {
            assert(ids_view(out@) =~= ids_view(out@) + stmt_upvals(st@));
        },
        Statement::Label(_) => {
            assert(ids_view(out@) =~= ids_view(out@) + stmt_upvals(st@));
        },
        Statement::SetList(sl) => {
            collect_rvs_upvals(&sl.values, out);
            match &sl.tail {
                Option::Some(t) => {
                    collect_rv_upvals(t, out);
                },
                Option::None => {},
            }
            assert(ids_view(out@) =~= ids_view(old(out)@) + stmt_upvals(st@));
        },
        Statement::Call(c) => {
            collect_rv_upvals(&c.value, out);
            collect_rvs_upvals(&c.arguments, out);
            assert(ids_view(out@) =~= ids_view(old(out)@) + stmt_upvals(st@));
        },
    }
}

pub fn collect_stmts_upvals(v: &Vec<Statement>, out: &mut Vec<usize>)
    ensures
        ids_view(final(out)@) == ids_view(old(out)@) + stmts_upvals(stmts_view(v@)),
    decreases v@,
{
    proof {
        lemma_stmts_view(v@);
    }
    let mut i: usize = 0;
    while i < v.len()
        invariant
            i <= v@.len(),
            stmts_view(v@).len() == v@.len(),
            forall|j: int| 0 <= j < v@.len() ==> stmts_view(v@)[j] == stmt_view(#[trigger] v@[j]),
            ids_view(out@) =~= ids_view(old(out)@) + stmts_upvals(
                stmts_view(v@).subrange(0, i as int),
            ),
        decreases v@.len() - i,
    {
        collect_stmt_upvals(&v[i], out);
        proof {
            let sv = stmts_view(v@);
            assert(sv.subrange(0, i + 1) =~= sv.subrange(0, i as int).push(sv[i as int]));
            lemma_stmts_upvals_push(sv.subrange(0, i as int), sv[i as int]);
            assert(ids_view(out@) =~= ids_view(old(out)@) + stmts_upvals(sv.subrange(0, i + 1)));
        }
        i += 1;
    }
    proof {
        assert(stmts_view(v@).subrange(0, v@.len() as int) =~= stmts_view(v@));
    }
}

} // verus!
