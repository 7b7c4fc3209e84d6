//! Side-effect classification of expressions.
//!
//! Calls and method calls run arbitrary code; an index or field read may
//! invoke a metamethod on a table that aliases, so it is treated as
//! side-effecting unconditionally. Literals, locals, globals, varargs and
//! closure construction are pure; operators and table constructors are as
//! pure as their operands.

use vstd::prelude::*;

use crate::ast::{RValue, RValueV, lemma_rvs_view, rvs_view};

verus! {

pub open spec fn rv_has_effects(v: RValueV) -> bool
    decreases v,
{
    match v {
        RValueV::Literal(_) => false,
        RValueV::Local(_) => false,
        RValueV::Global(_) => false,
        RValueV::Field(_, _) => true,
        RValueV::Index(_) => true,
        RValueV::Call(_) => true,
        RValueV::MethodCall(_) => true,
        RValueV::Binary(l, _, r) => rv_has_effects(*l) || rv_has_effects(*r),
        RValueV::Unary(_, e) => rv_has_effects(*e),
        RValueV::Closure(_) => false,
        RValueV::Varargs => false,
        RValueV::Table(items) => rvs_have_effects(items),
    }
}

pub open spec fn rvs_have_effects(s: Seq<RValueV>) -> bool
    decreases s,
{
    if s.len() == 0 {
        false
    } else {
        rv_has_effects(s[0]) || rvs_have_effects(s.subrange(1, s.len() as int))
    }
}

pub fn check_rv_has_effects(v: &RValue) -> (r: bool)
    ensures
        r == rv_has_effects(v@),
    decreases *v,
{
    match v {
        RValue::Literal(_) => false,
        RValue::Local(_) => false,
        RValue::Global(_) => false,
        RValue::Field(_, _) => true,
        RValue::Index(_) => true,
        RValue::Call(_) => true,
        RValue::MethodCall(_) => true,
        RValue::Binary(l, _, r) => check_rv_has_effects(l) || check_rv_has_effects(r),
        RValue::Unary(_, e) => check_rv_has_effects(e),
        RValue::Closure(_) => false,
        RValue::Varargs => false,
        RValue::Table(items) => check_rvs_have_effects(items),
    }
}

pub fn check_rvs_have_effects(v: &Vec<RValue>) -> (r: bool)
    ensures
        r == rvs_have_effects(rvs_view(v@)),
    decreases v@,
{
    proof {
        lemma_rvs_view(v@);
    }
    let ghost sv = rvs_view(v@);
    proof {
        assert(sv.subrange(0, sv.len() as int) =~= sv);
    }
    let mut i: usize = 0;
    while i < v.len()
        invariant
            i <= v@.len(),
            sv == rvs_view(v@),
            sv.len() == v@.len(),
            forall|j: int| 0 <= j < v@.len() ==> sv[j] == crate::ast::rv_view(#[trigger] v@[j]),
            rvs_have_effects(sv) == rvs_have_effects(sv.subrange(i as int, sv.len() as int)),
        decreases v@.len() - i,
    {
        let ghost tail = sv.subrange(i as int, sv.len() as int);
        if check_rv_has_effects(&v[i]) {
            assert(tail[0] == sv[i as int]);
            return true;
        }
        proof {
            assert(tail[0] == sv[i as int]);
            assert(tail.subrange(1, tail.len() as int) =~= sv.subrange(i + 1, sv.len() as int));
        }
        i += 1;
    }
    proof {
        assert(sv.subrange(i as int, sv.len() as int) =~= Seq::<RValueV>::empty());
    }
    false
}

} // verus!
