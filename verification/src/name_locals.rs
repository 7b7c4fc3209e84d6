//! Naming the locals of a tree for display.
//!
//! Locals with at most one use get the underscore. Otherwise a meaningful
//! base is derived from the assigned expression — a service-lookup or
//! constructor method with a string argument, a `require`, or a string key —
//! sanitized so it prints as an identifier, and made unique by appending a
//! counter on collision. What is left falls back to a short prefix-based
//! name. Names are assigned in tree order, so the output is deterministic.

use vstd::prelude::*;

use crate::ast::{
    Block, CallV, LValue, LValueV, Literal, LiteralV, MethodCallV, RValue, RValueV, Statement,
    StatementV,
};
use crate::bytes::{
    arr_to_vec, bytes_eq, clone_bytes, dec_digits, u64_to_dec, valid_name,
};
use crate::index::index_key_name;
use crate::local::{Locals, count_block_uses, ids_view, stmts_upvals};
use crate::name_gen::{lemma_sanitize_valid, sanitize_name, sanitize_spec};

verus! {

/// A display name the pass may have produced: a well-formed identifier
/// (the single underscore included).
pub open spec fn name_ok(o: Option<Seq<u8>>) -> bool {
    o matches Option::Some(n) && valid_name(n)
}

/// The binder kind a fallback name is derived from.
pub enum NamePrefix {
    Param,
    Var,
    Index,
    Iter,
}

/// The fallback base for each binder kind.
pub open spec fn fallback_base(p: NamePrefix) -> Seq<u8> {
    match p {
        NamePrefix::Param => seq![97u8, 114u8, 103u8],
        NamePrefix::Iter => seq![105u8, 116u8, 101u8, 114u8],
        NamePrefix::Index => seq![105u8],
        NamePrefix::Var => seq![118u8, 97u8, 114u8],
    }
}

pub proof fn lemma_fallback_valid(p: NamePrefix)
    ensures
        valid_name(fallback_base(p)),
{
    let b = fallback_base(p);
    assert forall|i: int| 0 <= i < b.len() implies crate::bytes::is_ident_byte(
        #[trigger] b[i],
    ) by {
        match p {
            NamePrefix::Param => {
                assert(b == seq![97u8, 114u8, 103u8]);
            },
            NamePrefix::Iter => {
                assert(b == seq![105u8, 116u8, 101u8, 114u8]);
            },
            NamePrefix::Index => {
                assert(b == seq![105u8]);
            },
            NamePrefix::Var => {
                assert(b == seq![118u8, 97u8, 114u8]);
            },
        }
    }
    assert(crate::bytes::is_ident_start_byte(b[0]));
}

/// The base `name_local` hands to the collision table: the meaningful name
/// of the assigned value where one derives, else the binder's fallback.
pub open spec fn chosen_base(
    value: Option<&crate::ast::RValue>,
    ps: Seq<(Seq<u8>, Seq<u8>)>,
    prefix: NamePrefix,
) -> Seq<u8> {
    match value {
        Option::Some(v) => match meaningful_name(v@, ps) {
            Option::Some(b) => b,
            Option::None => fallback_base(prefix),
        },
        Option::None => fallback_base(prefix),
    }
}

// ---------------------------------------------------------------------------
// Cleaning a string argument: quotes trimmed from the ends, spaces removed.
// ---------------------------------------------------------------------------

pub open spec fn is_quote_byte(b: u8) -> bool {
    b == 34 || b == 39
}

pub open spec fn trim_front(s: Seq<u8>) -> Seq<u8>
    decreases s,
{
    if s.len() > 0 && is_quote_byte(s[0]) {
        trim_front(s.subrange(1, s.len() as int))
    } else {
        s
    }
}

pub open spec fn trim_back(s: Seq<u8>) -> Seq<u8>
    decreases s,
{
    if s.len() > 0 && is_quote_byte(s[s.len() - 1]) {
        trim_back(s.subrange(0, s.len() - 1))
    } else {
        s
    }
}

pub open spec fn remove_spaces(s: Seq<u8>) -> Seq<u8>
    decreases s,
{
    if s.len() == 0 {
        Seq::empty()
    } else {
        (if s[0] == 32 {
            Seq::<u8>::empty()
        } else {
            seq![s[0]]
        }) + remove_spaces(s.subrange(1, s.len() as int))
    }
}

/// A string argument, made fit for a name: quotes trimmed from both ends,
/// spaces removed.
pub open spec fn clean_arg(s: Seq<u8>) -> Seq<u8> {
    remove_spaces(trim_back(trim_front(s)))
}

proof fn lemma_remove_spaces_push(s: Seq<u8>, x: u8)
    ensures
        remove_spaces(s.push(x)) == remove_spaces(s) + (if x == 32 {
            Seq::<u8>::empty()
        } else {
            seq![x]
        }),
    decreases s,
{
    reveal_with_fuel(remove_spaces, 3);
    if s.len() == 0 {
        assert(s.push(x).subrange(1, s.push(x).len() as int) =~= Seq::<u8>::empty());
        assert(remove_spaces(s.push(x)) =~= remove_spaces(s) + (if x == 32 {
            Seq::<u8>::empty()
        } else {
            seq![x]
        }));
    } else {
        let rest = s.subrange(1, s.len() as int);
        lemma_remove_spaces_push(rest, x);
        assert(s.push(x).subrange(1, s.push(x).len() as int) =~= rest.push(x));
        assert(s.push(x)[0] == s[0]);
        assert(remove_spaces(s.push(x)) =~= remove_spaces(s) + (if x == 32 {
            Seq::<u8>::empty()
        } else {
            seq![x]
        }));
    }
}

fn clean_arg_exec(s: &Vec<u8>) -> (r: Vec<u8>)
    ensures
        r@ == clean_arg(s@),
{
    proof {
        assert(s@.subrange(0, s@.len() as int) =~= s@);
    }
    let mut lo: usize = 0;
    while lo < s.len() && (s[lo] == 34 || s[lo] == 39)
        invariant
            lo <= s@.len(),
            trim_front(s@) == trim_front(s@.subrange(lo as int, s@.len() as int)),
        decreases s@.len() - lo,
    {
        proof {
            let cur = s@.subrange(lo as int, s@.len() as int);
            assert(cur[0] == s@[lo as int]);
            assert(cur.subrange(1, cur.len() as int) =~= s@.subrange(
                lo + 1,
                s@.len() as int,
            ));
        }
        lo += 1;
    }
    proof {
        let cur = s@.subrange(lo as int, s@.len() as int);
        if cur.len() > 0 {
            assert(cur[0] == s@[lo as int]);
        }
        assert(trim_front(cur) == cur);
    }
    let ghost fronted = s@.subrange(lo as int, s@.len() as int);
    let mut hi: usize = s.len();
    while hi > lo && (s[hi - 1] == 34 || s[hi - 1] == 39)
        invariant
            lo <= hi <= s@.len(),
            trim_back(fronted) == trim_back(s@.subrange(lo as int, hi as int)),
        decreases hi,
    {
        proof {
            let cur = s@.subrange(lo as int, hi as int);
            assert(cur[cur.len() - 1] == s@[hi - 1]);
            assert(cur.subrange(0, cur.len() - 1) =~= s@.subrange(lo as int, hi - 1));
        }
        hi -= 1;
    }
    proof {
        let cur = s@.subrange(lo as int, hi as int);
        if cur.len() > 0 {
            assert(cur[cur.len() - 1] == s@[hi - 1]);
        }
        assert(trim_back(cur) == cur);
    }
    let ghost trimmed = s@.subrange(lo as int, hi as int);
    let mut r: Vec<u8> = Vec::new();
    proof {
        assert(trimmed.subrange(0, 0) =~= Seq::<u8>::empty());
        assert(remove_spaces(trimmed.subrange(0, 0)) =~= Seq::<u8>::empty());
    }
    let mut i: usize = lo;
    while i < hi
        invariant
            lo <= i <= hi <= s@.len(),
            trimmed == s@.subrange(lo as int, hi as int),
            r@ =~= remove_spaces(trimmed.subrange(0, i - lo)),
        decreases hi - i,
    {
        let b = s[i];
        if b != 32 {
            r.push(b);
        }
        proof {
            let k = i - lo;
            assert(trimmed.subrange(0, k + 1) =~= trimmed.subrange(0, k).push(trimmed[k]));
            assert(trimmed[k] == s@[i as int]);
            lemma_remove_spaces_push(trimmed.subrange(0, k), trimmed[k]);
        }
        i += 1;
    }
    proof {
        assert(trimmed.subrange(0, trimmed.len() as int) =~= trimmed);
    }
    r
}

/// The first byte upper-cased, if it is a lower-case letter.
pub open spec fn capitalize(s: Seq<u8>) -> Seq<u8> {
    if s.len() > 0 && 97 <= s[0] && s[0] <= 122 {
        seq![(s[0] - 32) as u8] + s.subrange(1, s.len() as int)
    } else {
        s
    }
}

fn capitalize_exec(s: &Vec<u8>) -> (r: Vec<u8>)
    ensures
        r@ == capitalize(s@),
{
    let mut r = clone_bytes(s);
    if r.len() > 0 {
        let b = r[0];
        if 97 <= b && b <= 122 {
            r.set(0, b - 32);
            assert(r@ =~= capitalize(s@));
        }
    }
    r
}

// ---------------------------------------------------------------------------
// The meaningful-name derivation, stated over views.
// ---------------------------------------------------------------------------

pub open spec fn patterns_view(s: Seq<(Vec<u8>, Vec<u8>)>) -> Seq<(Seq<u8>, Seq<u8>)> {
    s.map_values(|p: (Vec<u8>, Vec<u8>)| (p.0@, p.1@))
}

/// The suffix a naming pattern attaches to a method, if the method is one
/// the pass derives names from.
pub open spec fn pattern_suffix(ps: Seq<(Seq<u8>, Seq<u8>)>, m: Seq<u8>) -> Option<Seq<u8>>
    decreases ps,
{
    if ps.len() == 0 {
        Option::None
    } else if ps[0].0 == m {
        Option::Some(ps[0].1)
    } else {
        pattern_suffix(ps.subrange(1, ps.len() as int), m)
    }
}

/// The method a call goes through, read off its callee: a field access or
/// a string index.
pub open spec fn call_method_name(c: CallV) -> Option<Seq<u8>> {
    match *c.value {
        RValueV::Field(_, f) => Option::Some(f),
        RValueV::Index(ix) => index_key_name(ix),
        RValueV::Global(g) => Option::Some(g),
        _ => Option::None,
    }
}

/// The first argument of a call, if it is a string literal.
pub open spec fn first_string_arg(args: Seq<RValueV>) -> Option<Seq<u8>> {
    if args.len() > 0 {
        match args[0] {
            RValueV::Literal(l) => match l {
                LiteralV::Str(s) => Option::Some(s),
                _ => Option::None,
            },
            _ => Option::None,
        }
    } else {
        Option::None
    }
}

/// The base a method-call receiver contributes when the argument is a
/// local: a string key of the receiver, or the receiver global's name.
pub open spec fn receiver_base_name(v: RValueV) -> Option<Seq<u8>> {
    match v {
        RValueV::Index(ix) => index_key_name(ix),
        RValueV::Global(g) => Option::Some(g),
        _ => Option::None,
    }
}

/// One link of the receiver chain, for a method call.
pub open spec fn mc_step(mc: MethodCallV, ps: Seq<(Seq<u8>, Seq<u8>)>, last: Option<Seq<u8>>)
    -> Option<Seq<u8>> {
    match pattern_suffix(ps, mc.method) {
        Option::Some(suffix) => if mc.arguments.len() > 0 {
            match mc.arguments[0] {
                RValueV::Literal(l) => match l {
                    LiteralV::Str(s) => if clean_arg(s).len() > 0 {
                        Option::Some(sanitize_spec(clean_arg(s) + suffix))
                    } else {
                        last
                    },
                    _ => last,
                },
                RValueV::Local(_) => match receiver_base_name(*mc.value) {
                    Option::Some(base) => Option::Some(
                        sanitize_spec(seq![83u8, 111u8, 109u8, 101u8] + capitalize(base)),
                    ),
                    Option::None => last,
                },
                _ => last,
            }
        } else {
            last
        },
        Option::None => last,
    }
}

/// One link of the receiver chain, for a plain call.
pub open spec fn call_step(c: CallV, ps: Seq<(Seq<u8>, Seq<u8>)>, last: Option<Seq<u8>>)
    -> Option<Seq<u8>> {
    match call_method_name(c) {
        Option::Some(m) => match pattern_suffix(ps, m) {
            Option::Some(suffix) => match first_string_arg(c.arguments) {
                Option::Some(s) => if clean_arg(s).len() > 0 {
                    Option::Some(sanitize_spec(clean_arg(s) + suffix))
                } else {
                    last
                },
                Option::None => last,
            },
            Option::None => last,
        },
        Option::None => last,
    }
}

/// The walk down a chain of calls and method calls: each link that matches
/// a naming pattern overrides the name found so far, so the deepest match
/// wins.
pub open spec fn chain_name(v: RValueV, ps: Seq<(Seq<u8>, Seq<u8>)>, last: Option<Seq<u8>>)
    -> Option<Seq<u8>>
    decreases v,
{
    match v {
        RValueV::Call(c) => chain_name(*c.value, ps, call_step(c, ps, last)),
        RValueV::MethodCall(mc) => chain_name(*mc.value, ps, mc_step(mc, ps, last)),
        _ => last,
    }
}

/// The innermost string or number key of a chain of index expressions.
pub open spec fn innermost_key(v: RValueV, last: Option<Seq<u8>>) -> Option<Seq<u8>>
    decreases v,
{
    match v {
        RValueV::Index(ix) => innermost_key(
            *ix.left,
            match index_key_name(ix) {
                Option::Some(k) => Option::Some(k),
                Option::None => last,
            },
        ),
        _ => last,
    }
}

/// The name derived from a `require(...)` argument, if the expression is
/// such a call: the innermost key of the required path.
pub open spec fn require_name(v: RValueV) -> Option<Seq<u8>> {
    match v {
        RValueV::Call(c) => if call_method_name(c) == Option::Some(seq![114u8, 101u8, 113u8, 117u8, 105u8, 114u8, 101u8])
            && c.arguments.len() > 0 {
            match innermost_key(c.arguments[0], Option::None) {
                Option::Some(k) => if k.len() > 0 {
                    Option::Some(sanitize_spec(k))
                } else {
                    Option::None
                },
                Option::None => Option::None,
            }
        } else {
            Option::None
        },
        _ => Option::None,
    }
}

/// The meaningful base derived from an assigned expression: the deepest
/// naming-pattern match on the call chain; failing that, the innermost key
/// of a `require`; failing that, the expression's own string or number
/// key. Every base is sanitized and non-empty.
pub open spec fn meaningful_name(v: RValueV, ps: Seq<(Seq<u8>, Seq<u8>)>) -> Option<Seq<u8>> {
    match chain_name(v, ps, Option::None) {
        Option::Some(n) => Option::Some(n),
        Option::None => match require_name(v) {
            Option::Some(n) => Option::Some(n),
            Option::None => match v {
                RValueV::Index(ix) => match index_key_name(ix) {
                    Option::Some(k) => if k.len() > 0 {
                        Option::Some(sanitize_spec(k))
                    } else {
                        Option::None
                    },
                    Option::None => Option::None,
                },
                _ => Option::None,
            },
        },
    }
}

/// Every name the derivation can produce is a sanitized non-empty base,
/// hence a well-formed identifier.
pub proof fn lemma_chain_name_valid(v: RValueV, ps: Seq<(Seq<u8>, Seq<u8>)>, last: Option<Seq<u8>>)
    requires
        last matches Option::Some(n) ==> valid_name(n),
    ensures
        chain_name(v, ps, last) matches Option::Some(n) ==> valid_name(n),
    decreases v,
{
    match v {
        RValueV::Call(c) => {
            let stepped = call_step(c, ps, last);
            assert(stepped matches Option::Some(n) ==> valid_name(n)) by {
                if stepped != last {
                    match call_method_name(c) {
                        Option::Some(m) => match pattern_suffix(ps, m) {
                            Option::Some(suffix) => match first_string_arg(c.arguments) {
                                Option::Some(s) => {
                                    if clean_arg(s).len() > 0 {
                                        lemma_sanitize_valid(clean_arg(s) + suffix);
                                    }
                                },
                                Option::None => {},
                            },
                            Option::None => {},
                        },
                        Option::None => {},
                    }
                }
            }
            lemma_chain_name_valid(*c.value, ps, stepped);
        },
        RValueV::MethodCall(mc) => {
            let stepped = mc_step(mc, ps, last);
            assert(stepped matches Option::Some(n) ==> valid_name(n)) by {
                if stepped != last {
                    match pattern_suffix(ps, mc.method) {
                        Option::Some(suffix) => {
                            if mc.arguments.len() > 0 {
                                match mc.arguments[0] {
                                    RValueV::Literal(l) => match l {
                                        LiteralV::Str(s) => {
                                            if clean_arg(s).len() > 0 {
                                                lemma_sanitize_valid(clean_arg(s) + suffix);
                                            }
                                        },
                                        _ => {},
                                    },
                                    RValueV::Local(_) => {
                                        match receiver_base_name(*mc.value) {
                                            Option::Some(base) => {
                                                lemma_sanitize_valid(
                                                    seq![83u8, 111u8, 109u8, 101u8] + capitalize(base),
                                                );
                                            },
                                            Option::None => {},
                                        }
                                    },
                                    _ => {},
                                }
                            }
                        },
                        Option::None => {},
                    }
                }
            }
            lemma_chain_name_valid(*mc.value, ps, stepped);
        },
        _ => {},
    }
}

pub proof fn lemma_meaningful_name_valid(v: RValueV, ps: Seq<(Seq<u8>, Seq<u8>)>)
    ensures
        meaningful_name(v, ps) matches Option::Some(n) ==> valid_name(n),
{
    lemma_chain_name_valid(v, ps, Option::None);
    match require_name(v) {
        Option::Some(_) => {
            match v {
                RValueV::Call(c) => {
                    if call_method_name(c) == Option::Some(seq![114u8, 101u8, 113u8, 117u8, 105u8, 114u8, 101u8])
                        && c.arguments.len() > 0 {
                        match innermost_key(c.arguments[0], Option::None) {
                            Option::Some(k) => {
                                if k.len() > 0 {
                                    lemma_sanitize_valid(k);
                                }
                            },
                            Option::None => {},
                        }
                    }
                },
                _ => {},
            }
        },
        Option::None => {},
    }
    match v {
        RValueV::Index(ix) => {
            match index_key_name(ix) {
                Option::Some(k) => {
                    if k.len() > 0 {
                        lemma_sanitize_valid(k);
                    }
                },
                Option::None => {},
            }
        },
        _ => {},
    }
}

/// The naming patterns the pass starts from: service lookups and
/// constructors keep the argument as the base; `Clone` marks the copy.
pub open spec fn default_patterns() -> Seq<(Seq<u8>, Seq<u8>)> {
    seq![(seq![87u8, 97u8, 105u8, 116u8, 70u8, 111u8, 114u8, 67u8, 104u8, 105u8, 108u8, 100u8], Seq::<u8>::empty()), (seq![70u8, 105u8, 110u8, 100u8, 70u8, 105u8, 114u8, 115u8, 116u8, 67u8, 104u8, 105u8, 108u8, 100u8], Seq::<u8>::empty()), (seq![71u8, 101u8, 116u8, 83u8, 101u8, 114u8, 118u8, 105u8, 99u8, 101u8], Seq::<u8>::empty()), (seq![67u8, 114u8, 101u8, 97u8, 116u8, 101u8], Seq::<u8>::empty()), (seq![67u8, 108u8, 111u8, 110u8, 101u8], seq![67u8, 108u8, 111u8, 110u8, 101u8]), (seq![110u8, 101u8, 119u8], Seq::<u8>::empty())]
}


// ---------------------------------------------------------------------------
// Bound locals: the positions the naming pass visits. Coverage of these is
// what the public contract promises.
// ---------------------------------------------------------------------------

/// The locals bound below an expression: parameters of closures, and every
/// binder inside their bodies.
pub open spec fn rv_binds(v: RValueV) -> Seq<nat>
    decreases v, 0nat,
{
    match v {
        RValueV::Literal(_) => Seq::empty(),
        RValueV::Local(_) => Seq::empty(),
        RValueV::Global(_) => Seq::empty(),
        RValueV::Field(base, _) => rv_binds(*base),
        RValueV::Index(ix) => rv_binds(*ix.left) + rv_binds(*ix.right),
        RValueV::Call(c) => rv_binds(*c.value) + rvs_binds(c.arguments),
        RValueV::MethodCall(mc) => rv_binds(*mc.value) + rvs_binds(mc.arguments),
        RValueV::Binary(l, _, r) => rv_binds(*l) + rv_binds(*r),
        RValueV::Unary(_, e) => rv_binds(*e),
        RValueV::Closure(c) => c.parameters + stmts_binds(c.body),
        RValueV::Varargs => Seq::empty(),
        RValueV::Table(items) => rvs_binds(items),
    }
}

pub open spec fn rvs_binds(s: Seq<RValueV>) -> Seq<nat>
    decreases s, 0nat,
{
    if s.len() == 0 {
        Seq::empty()
    } else {
        rv_binds(s[0]) + rvs_binds(s.subrange(1, s.len() as int))
    }
}

pub open spec fn lv_binds(lv: LValueV) -> Seq<nat>
    decreases lv, 0nat,
{
    match lv {
        LValueV::Local(_) => Seq::empty(),
        LValueV::Global(_) => Seq::empty(),
        LValueV::Index(ix) => rv_binds(*ix.left) + rv_binds(*ix.right),
    }
}

pub open spec fn lvs_binds(s: Seq<LValueV>) -> Seq<nat>
    decreases s, 0nat,
{
    if s.len() == 0 {
        Seq::empty()
    } else {
        lv_binds(s[0]) + lvs_binds(s.subrange(1, s.len() as int))
    }
}

/// The local targets of a declaration's left-hand side.
pub open spec fn decl_target_ids(s: Seq<LValueV>) -> Seq<nat>
    decreases s,
{
    if s.len() == 0 {
        Seq::empty()
    } else {
        (match s[0] {
            LValueV::Local(id) => seq![id],
            _ => Seq::<nat>::empty(),
        }) + decl_target_ids(s.subrange(1, s.len() as int))
    }
}

/// The locals bound inside a statement's own expressions (closures and
/// their bodies), as the expression walk of the pass visits them.
pub open spec fn stmt_expr_binds(st: StatementV) -> Seq<nat>
    decreases st, 0nat,
{
    match st {
        StatementV::Assign(a) => lvs_binds(a.left) + rvs_binds(a.right),
        StatementV::If(f) => rv_binds(f.condition),
        StatementV::While { condition, block: _ } => rv_binds(condition),
        StatementV::Repeat { block: _, condition } => rv_binds(condition),
        StatementV::NumericFor { counter: _, initial, limit, step, block: _ } => rv_binds(initial)
            + rv_binds(limit) + rv_binds(step),
        StatementV::GenericFor { res_locals: _, right, block: _ } => rvs_binds(right),
        StatementV::Return(rs) => rvs_binds(rs),
        StatementV::Break => Seq::empty(),
        StatementV::Continue => Seq::empty(),
        StatementV::Goto(_) => Seq::empty(),
        StatementV::Label(_) => Seq::empty(),
        StatementV::SetList(sl) => rvs_binds(sl.values) + (match sl.tail {
            Option::Some(t) => rv_binds(t),
            Option::None => Seq::empty(),
        }),
        StatementV::Call(c) => rv_binds(*c.value) + rvs_binds(c.arguments),
    }
}

/// Every local the pass names below a statement: binders in its
/// expressions, the targets of a declaration, loop counters and iteration
/// results, and everything bound in its nested blocks.
pub open spec fn stmt_binds(st: StatementV) -> Seq<nat>
    decreases st, 1nat,
{
    stmt_expr_binds(st) + (match st {
        StatementV::Assign(a) => if a.is_declaration {
            decl_target_ids(a.left)
        } else {
            Seq::empty()
        },
        StatementV::If(f) => stmts_binds(f.then_block) + stmts_binds(f.else_block),
        StatementV::While { condition: _, block } => stmts_binds(block),
        StatementV::Repeat { block, condition: _ } => stmts_binds(block),
        StatementV::NumericFor { counter, initial: _, limit: _, step: _, block } => seq![counter]
            + stmts_binds(block),
        StatementV::GenericFor { res_locals, right: _, block } => res_locals + stmts_binds(block),
        _ => Seq::empty(),
    })
}

pub open spec fn stmts_binds(s: Seq<StatementV>) -> Seq<nat>
    decreases s, 0nat,
{
    if s.len() == 0 {
        Seq::empty()
    } else {
        stmt_binds(s[0]) + stmts_binds(s.subrange(1, s.len() as int))
    }
}

/// Coverage: every listed local that exists in the arena, and that the
/// pass may name (renaming, or still anonymous), has a name afterwards.
pub open spec fn covered(
    names0: Seq<Option<Seq<u8>>>,
    names1: Seq<Option<Seq<u8>>>,
    binds: Seq<nat>,
    rename: bool,
) -> bool {
    forall|x: nat|
        #[trigger] binds.contains(x) && x < names0.len() && (rename || names0[x as int] is None)
            ==> names1[x as int] is Some
}

/// Without renaming, names already set are kept as they are.
pub open spec fn kept(
    names0: Seq<Option<Seq<u8>>>,
    names1: Seq<Option<Seq<u8>>>,
    rename: bool,
) -> bool {
    forall|j: int|
        0 <= j < names0.len() && !rename && (#[trigger] names0[j]) is Some ==> names1[j]
            == names0[j]
}

proof fn lemma_contains_add<A>(a: Seq<A>, b: Seq<A>)
    ensures
        forall|x: A| #[trigger] (a + b).contains(x) <==> (a.contains(x) || b.contains(x)),
{
    assert forall|x: A| #[trigger] (a + b).contains(x) implies (a.contains(x) || b.contains(
        x,
    )) by {
        let k = choose|k: int| 0 <= k < (a + b).len() && (a + b)[k] == x;
        if k < a.len() {
            assert(a[k] == x);
        } else {
            assert(b[k - a.len()] == x);
        }
    }
    assert forall|x: A| (a.contains(x) || b.contains(x)) implies #[trigger] (a + b).contains(
        x,
    ) by {
        if a.contains(x) {
            let k = choose|k: int| 0 <= k < a.len() && a[k] == x;
            assert((a + b)[k] == x);
        } else {
            let k = choose|k: int| 0 <= k < b.len() && b[k] == x;
            assert((a + b)[a.len() + k] == x);
        }
    }
}


/// Coverage composes across two steps of the pass: what the first step
/// covered stays named, and what the second step covers was either still
/// anonymous or already named.
proof fn lemma_covered_seq(
    l0: Seq<Option<Seq<u8>>>,
    l1: Seq<Option<Seq<u8>>>,
    l2: Seq<Option<Seq<u8>>>,
    b1: Seq<nat>,
    b2: Seq<nat>,
    rename: bool,
)
    requires
        l0.len() == l1.len() && l1.len() == l2.len(),
        covered(l0, l1, b1, rename),
        covered(l1, l2, b2, rename),
        forall|j: int| 0 <= j < l1.len() ==> #[trigger] l1[j] == l0[j] || name_ok(l1[j]),
        forall|j: int| 0 <= j < l2.len() ==> #[trigger] l2[j] == l1[j] || name_ok(l2[j]),
    ensures
        covered(l0, l2, b1 + b2, rename),
{
    lemma_contains_add(b1, b2);
    assert forall|x: nat|
        #[trigger] (b1 + b2).contains(x) && x < l0.len() && (rename || l0[x as int] is None)
            implies l2[x as int] is Some by {
        if b1.contains(x) {
            assert(l1[x as int] is Some);
        }
    }
}

proof fn lemma_stmts_binds_push(s: Seq<StatementV>, x: StatementV)
    ensures
        stmts_binds(s.push(x)) == stmts_binds(s) + stmt_binds(x),
    decreases s,
{
    reveal_with_fuel(stmts_binds, 3);
    if s.len() == 0 {
        assert(s.push(x).subrange(1, s.push(x).len() as int) =~= Seq::<StatementV>::empty());
        assert(stmts_binds(s.push(x)) =~= stmts_binds(s) + stmt_binds(x));
    } else {
        let rest = s.subrange(1, s.len() as int);
        lemma_stmts_binds_push(rest, x);
        assert(s.push(x).subrange(1, s.push(x).len() as int) =~= rest.push(x));
        assert(s.push(x)[0] == s[0]);
        assert(stmts_binds(s.push(x)) =~= stmts_binds(s) + stmt_binds(x));
    }
}

proof fn lemma_rvs_binds_push(s: Seq<RValueV>, x: RValueV)
    ensures
        rvs_binds(s.push(x)) == rvs_binds(s) + rv_binds(x),
    decreases s,
{
    reveal_with_fuel(rvs_binds, 3);
    if s.len() == 0 {
        assert(s.push(x).subrange(1, s.push(x).len() as int) =~= Seq::<RValueV>::empty());
        assert(rvs_binds(s.push(x)) =~= rvs_binds(s) + rv_binds(x));
    } else {
        let rest = s.subrange(1, s.len() as int);
        lemma_rvs_binds_push(rest, x);
        assert(s.push(x).subrange(1, s.push(x).len() as int) =~= rest.push(x));
        assert(s.push(x)[0] == s[0]);
        assert(rvs_binds(s.push(x)) =~= rvs_binds(s) + rv_binds(x));
    }
}

proof fn lemma_lvs_binds_push(s: Seq<LValueV>, x: LValueV)
    ensures
        lvs_binds(s.push(x)) == lvs_binds(s) + lv_binds(x),
        decl_target_ids(s.push(x)) == decl_target_ids(s) + (match x {
            LValueV::Local(id) => seq![id],
            _ => Seq::<nat>::empty(),
        }),
    decreases s,
{
    reveal_with_fuel(lvs_binds, 3);
    reveal_with_fuel(decl_target_ids, 3);
    if s.len() == 0 {
        assert(s.push(x).subrange(1, s.push(x).len() as int) =~= Seq::<LValueV>::empty());
        assert(lvs_binds(s.push(x)) =~= lvs_binds(s) + lv_binds(x));
        assert(decl_target_ids(s.push(x)) =~= decl_target_ids(s) + (match x {
            LValueV::Local(id) => seq![id],
            _ => Seq::<nat>::empty(),
        }));
    } else {
        let rest = s.subrange(1, s.len() as int);
        lemma_lvs_binds_push(rest, x);
        assert(s.push(x).subrange(1, s.push(x).len() as int) =~= rest.push(x));
        assert(s.push(x)[0] == s[0]);
        assert(lvs_binds(s.push(x)) =~= lvs_binds(s) + lv_binds(x));
        assert(decl_target_ids(s.push(x)) =~= decl_target_ids(s) + (match x {
            LValueV::Local(id) => seq![id],
            _ => Seq::<nat>::empty(),
        }));
    }
}

/// The naming pass's state: whether existing names are overwritten, the
/// saturated use counts, the captured locals, the naming patterns, and the
/// names already handed out with their collision counters.
pub struct Namer {
    pub rename: bool,
    pub counts: Vec<u8>,
    pub upvalues: Vec<usize>,
    pub naming_patterns: Vec<(Vec<u8>, Vec<u8>)>,
    pub used_names: Vec<(Vec<u8>, u64)>,
}


/// The recorded use count of a local, zero when it is out of the table.
pub open spec fn count_of(counts: Seq<u8>, id: nat) -> nat {
    if id < counts.len() {
        counts[id as int] as nat
    } else {
        0
    }
}

/// The view of the collision table: base name to how often it was issued.
pub open spec fn used_view(s: Seq<(Vec<u8>, u64)>) -> Seq<(Seq<u8>, nat)> {
    s.map_values(|p: (Vec<u8>, u64)| (p.0@, p.1 as nat))
}

/// The recorded issue count of a base, if the base was issued before;
/// first match wins.
pub open spec fn used_count(s: Seq<(Seq<u8>, nat)>, base: Seq<u8>) -> Option<nat>
    decreases s,
{
    if s.len() == 0 {
        Option::None
    } else if s[0].0 == base {
        Option::Some(s[0].1)
    } else {
        used_count(s.subrange(1, s.len() as int), base)
    }
}

/// The counter a fresh request for `base` draws: zero for a base never
/// issued, else the recorded count.
pub open spec fn next_counter(s: Seq<(Seq<u8>, nat)>, base: Seq<u8>) -> nat {
    match used_count(s, base) {
        Option::Some(c) => c,
        Option::None => 0,
    }
}

/// The name issued for `base` at counter `c`: the bare base first, then
/// the base with the counter appended.
pub open spec fn counter_name(base: Seq<u8>, c: nat) -> Seq<u8> {
    if c == 0 {
        base
    } else {
        base + seq![95u8] + dec_digits(c)
    }
}

proof fn lemma_used_count_first_match(s: Seq<(Seq<u8>, nat)>, i: int, base: Seq<u8>)
    requires
        0 <= i < s.len(),
        s[i].0 == base,
        forall|j: int| 0 <= j < i ==> (#[trigger] s[j]).0 != base,
    ensures
        used_count(s, base) == Option::Some(s[i].1),
    decreases i,
{
    reveal_with_fuel(used_count, 3);
    if i == 0 {
    } else {
        let rest = s.subrange(1, s.len() as int);
        assert(rest[i - 1] == s[i]);
        assert forall|j: int| 0 <= j < i - 1 implies (#[trigger] rest[j]).0 != base by {
            assert(rest[j] == s[j + 1]);
        }
        lemma_used_count_first_match(rest, i - 1, base);
    }
}

proof fn lemma_used_count_no_match(s: Seq<(Seq<u8>, nat)>, base: Seq<u8>)
    requires
        forall|j: int| 0 <= j < s.len() ==> (#[trigger] s[j]).0 != base,
    ensures
        used_count(s, base) is None,
    decreases s,
{
    reveal_with_fuel(used_count, 3);
    if s.len() > 0 {
        let rest = s.subrange(1, s.len() as int);
        assert forall|j: int| 0 <= j < rest.len() implies (#[trigger] rest[j]).0 != base by {
            assert(rest[j] == s[j + 1]);
        }
        lemma_used_count_no_match(rest, base);
    }
}

/// Changing the value at one entry changes only lookups of that entry's
/// key, and only when that entry is the first match.
proof fn lemma_used_count_update(s: Seq<(Seq<u8>, nat)>, i: int, v: nat, k: Seq<u8>)
    requires
        0 <= i < s.len(),
    ensures
        s[i].0 != k ==> used_count(s.update(i, (s[i].0, v)), k) == used_count(s, k),
        (s[i].0 == k && (forall|j: int| 0 <= j < i ==> (#[trigger] s[j]).0 != k)) ==> used_count(
            s.update(i, (s[i].0, v)),
            k,
        ) == Option::Some(v),
    decreases i,
{
    reveal_with_fuel(used_count, 3);
    let u = s.update(i, (s[i].0, v));
    assert(u.len() == s.len());
    if i == 0 {
        assert(u[0] == (s[0].0, v));
        assert(u.subrange(1, u.len() as int) =~= s.subrange(1, s.len() as int));
    } else {
        assert(u[0] == s[0]);
        let rest = s.subrange(1, s.len() as int);
        assert(u.subrange(1, u.len() as int) =~= rest.update(i - 1, (rest[i - 1].0, v)));
        assert(rest[i - 1] == s[i]);
        if s[i].0 == k && (forall|j: int| 0 <= j < i ==> (#[trigger] s[j]).0 != k) {
            assert forall|j: int| 0 <= j < i - 1 implies (#[trigger] rest[j]).0 != k by {
                assert(rest[j] == s[j + 1]);
            }
        }
        lemma_used_count_update(rest, i - 1, v, k);
    }
}

/// Appending a fresh base: its lookup finds the new entry; other lookups
/// are untouched.
proof fn lemma_used_count_push(s: Seq<(Seq<u8>, nat)>, key: Seq<u8>, v: nat, k: Seq<u8>)
    ensures
        k != key ==> used_count(s.push((key, v)), k) == used_count(s, k),
        ((forall|j: int| 0 <= j < s.len() ==> (#[trigger] s[j]).0 != key) && k == key)
            ==> used_count(s.push((key, v)), k) == Option::Some(v),
    decreases s,
{
    reveal_with_fuel(used_count, 3);
    let u = s.push((key, v));
    if s.len() == 0 {
        assert(u[0] == (key, v));
        assert(u.subrange(1, u.len() as int) =~= Seq::<(Seq<u8>, nat)>::empty());
    } else {
        assert(u[0] == s[0]);
        let rest = s.subrange(1, s.len() as int);
        assert(u.subrange(1, u.len() as int) =~= rest.push((key, v)));
        if forall|j: int| 0 <= j < s.len() ==> (#[trigger] s[j]).0 != key {
            assert forall|j: int| 0 <= j < rest.len() implies (#[trigger] rest[j]).0 != key by {
                assert(rest[j] == s[j + 1]);
            }
        }
        lemma_used_count_push(rest, key, v, k);
    }
}

/// The view of an optional byte string.
pub open spec fn opt_bytes_view(o: Option<Vec<u8>>) -> Option<Seq<u8>> {
    match o {
        Option::Some(v) => Option::Some(v@),
        Option::None => Option::None,
    }
}

/// Appending an underscore and decimal digits to an identifier keeps it
/// an identifier.
pub proof fn lemma_valid_counter(base: Seq<u8>, k: nat)
    requires
        valid_name(base),
    ensures
        valid_name(base + seq![95u8] + dec_digits(k)),
{
    let r = base + seq![95u8] + dec_digits(k);
    crate::bytes::lemma_dec_digits_are_digits(k);
    assert forall|i: int| 0 <= i < r.len() implies crate::bytes::is_ident_byte(
        #[trigger] r[i],
    ) by {
        let bl = base.len() as int;
        if i < bl {
        } else if i == bl {
        } else {
            assert(r[i] == dec_digits(k)[i - bl - 1]);
        }
    }
    assert(r[0] == base[0]);
}

fn concat_bytes(a: Vec<u8>, b: &Vec<u8>) -> (r: Vec<u8>)
    ensures
        r@ == a@ + b@,
{
    let ghost a0 = a@;
    let mut r = a;
    let mut i: usize = 0;
    while i < b.len()
        invariant
            i <= b@.len(),
            r@.len() == a0.len() + i,
            r@.subrange(0, a0.len() as int) == a0,
            forall|j: int| 0 <= j < i ==> r@[a0.len() + j] == b@[j],
        decreases b@.len() - i,
    {
        let ghost pre = r@;
        r.push(b[i]);
        proof {
            assert(r@.subrange(0, a0.len() as int) =~= pre.subrange(0, a0.len() as int));
        }
        i += 1;
    }
    assert(r@ =~= a0 + b@);
    r
}

fn pattern_lookup(ps: &Vec<(Vec<u8>, Vec<u8>)>, m: &Vec<u8>) -> (r: Option<Vec<u8>>)
    ensures
        match r {
            Option::Some(sf) => pattern_suffix(patterns_view(ps@), m@) == Option::Some(sf@),
            Option::None => pattern_suffix(patterns_view(ps@), m@) is None,
        },
{
    let ghost pv = patterns_view(ps@);
    proof {
        assert(pv.subrange(0, pv.len() as int) =~= pv);
    }
    let mut i: usize = 0;
    while i < ps.len()
        invariant
            i <= ps@.len(),
            pv == patterns_view(ps@),
            pv.len() == ps@.len(),
            forall|j: int| 0 <= j < ps@.len() ==> pv[j] == ((#[trigger] ps@[j]).0@, ps@[j].1@),
            pattern_suffix(pv, m@) == pattern_suffix(pv.subrange(i as int, pv.len() as int), m@),
        decreases ps@.len() - i,
    {
        let ghost tail = pv.subrange(i as int, pv.len() as int);
        if bytes_eq(&ps[i].0, m) {
            assert(tail[0] == pv[i as int]);
            return Option::Some(clone_bytes(&ps[i].1));
        }
        proof {
            assert(tail[0] == pv[i as int]);
            assert(tail.subrange(1, tail.len() as int) =~= pv.subrange(i + 1, pv.len() as int));
        }
        i += 1;
    }
    proof {
        assert(pv.subrange(i as int, pv.len() as int) =~= Seq::<(Seq<u8>, Seq<u8>)>::empty());
    }
    Option::None
}

fn call_method_name_exec(c: &crate::ast::Call) -> (r: Option<Vec<u8>>)
    ensures
        match r {
            Option::Some(m) => call_method_name(c@) == Option::Some(m@),
            Option::None => call_method_name(c@) is None,
        },
{
    proof {
        reveal_with_fuel(crate::ast::rv_view, 3);
        reveal_with_fuel(crate::ast::call_view, 2);
        reveal_with_fuel(crate::ast::index_view, 2);
    }
    match &*c.value {
        RValue::Field(_, f) => Option::Some(clone_bytes(f)),
        RValue::Index(ix) => ix.get_key_name(),
        RValue::Global(g) => Option::Some(clone_bytes(g)),
        _ => Option::None,
    }
}

fn first_string_arg_exec(args: &Vec<RValue>) -> (r: Option<Vec<u8>>)
    ensures
        match r {
            Option::Some(s) => first_string_arg(crate::ast::rvs_view(args@)) == Option::Some(s@),
            Option::None => first_string_arg(crate::ast::rvs_view(args@)) is None,
        },
{
    proof {
        crate::ast::lemma_rvs_view(args@);
    }
    if args.len() > 0 {
        match &args[0] {
            RValue::Literal(l) => match l {
                Literal::Str(s) => Option::Some(clone_bytes(s)),
                _ => Option::None,
            },
            _ => Option::None,
        }
    } else {
        Option::None
    }
}

fn receiver_base_name_exec(v: &RValue) -> (r: Option<Vec<u8>>)
    ensures
        match r {
            Option::Some(b) => receiver_base_name(v@) == Option::Some(b@),
            Option::None => receiver_base_name(v@) is None,
        },
{
    proof {
        reveal_with_fuel(crate::ast::rv_view, 3);
        reveal_with_fuel(crate::ast::index_view, 2);
    }
    match v {
        RValue::Index(ix) => ix.get_key_name(),
        RValue::Global(g) => Option::Some(clone_bytes(g)),
        _ => Option::None,
    }
}

fn innermost_key_exec(v: &RValue, last: Option<Vec<u8>>) -> (r: Option<Vec<u8>>)
    ensures
        match r {
            Option::Some(k) => innermost_key(v@, opt_bytes_view(last)) == Option::Some(k@),
            Option::None => innermost_key(v@, opt_bytes_view(last)) is None,
        },
    decreases *v,
{
    proof {
        reveal_with_fuel(crate::ast::rv_view, 3);
        reveal_with_fuel(crate::ast::index_view, 2);
    }
    match v {
        RValue::Index(ix) => {
            let key = ix.get_key_name();
            let next = match key {
                Option::Some(k) => Option::Some(k),
                Option::None => last,
            };
            innermost_key_exec(&ix.left, next)
        },
        _ => last,
    }
}

fn chain_name_exec(
    v: &RValue,
    patterns: &Vec<(Vec<u8>, Vec<u8>)>,
    last: Option<Vec<u8>>,
) -> (r: Option<Vec<u8>>)
    ensures
        match r {
            Option::Some(n) => chain_name(v@, patterns_view(patterns@), opt_bytes_view(last))
                == Option::Some(n@),
            Option::None => chain_name(v@, patterns_view(patterns@), opt_bytes_view(last)) is None,
        },
    decreases *v,
{
    let ghost pv = patterns_view(patterns@);
    proof {
        reveal_with_fuel(crate::ast::rv_view, 3);
        reveal_with_fuel(crate::ast::call_view, 2);
        reveal_with_fuel(crate::ast::method_call_view, 2);
    }
    match v {
        RValue::Call(c) => {
            let ghost last_v = opt_bytes_view(last);
            let stepped: Option<Vec<u8>> = {
                let mut out = last;
                match call_method_name_exec(c) {
                    Option::Some(m) => match pattern_lookup(patterns, &m) {
                        Option::Some(suffix) => match first_string_arg_exec(&c.arguments) {
                            Option::Some(s) => {
                                let cl = clean_arg_exec(&s);
                                if cl.len() > 0 {
                                    let base = concat_bytes(cl, &suffix);
                                    out = Option::Some(sanitize_name(&base));
                                }
                            },
                            Option::None => {},
                        },
                        Option::None => {},
                    },
                    Option::None => {},
                }
                out
            };
            proof {
                assert(opt_bytes_view(stepped) == call_step(
                    crate::ast::call_view(*c),
                    pv,
                    last_v,
                ));
            }
            chain_name_exec(&c.value, patterns, stepped)
        },
        RValue::MethodCall(mc) => {
            let ghost last_v = opt_bytes_view(last);
            let ghost mc_v = crate::ast::method_call_view(*mc);
            let stepped: Option<Vec<u8>> = {
                let mut out = last;
                match pattern_lookup(patterns, &mc.method) {
                    Option::Some(suffix) => {
                        proof {
                            crate::ast::lemma_rvs_view(mc.arguments@);
                        }
                        if mc.arguments.len() > 0 {
                            match &mc.arguments[0] {
                                RValue::Literal(l) => match l {
                                    Literal::Str(s) => {
                                        let cl = clean_arg_exec(s);
                                        if cl.len() > 0 {
                                            let base = concat_bytes(cl, &suffix);
                                            out = Option::Some(sanitize_name(&base));
                                        }
                                    },
                                    _ => {},
                                },
                                RValue::Local(_) => {
                                    match receiver_base_name_exec(&mc.value) {
                                        Option::Some(base) => {
                                            let capped = capitalize_exec(&base);
                                            let some_base = concat_bytes(
                                                arr_to_vec([83u8, 111u8, 109u8, 101u8].as_slice()),
                                                &capped,
                                            );
                                            out = Option::Some(sanitize_name(&some_base));
                                        },
                                        Option::None => {},
                                    }
                                },
                                _ => {},
                            }
                        }
                    },
                    Option::None => {},
                }
                out
            };
            proof {
                assert(opt_bytes_view(stepped) == mc_step(mc_v, pv, last_v));
            }
            chain_name_exec(&mc.value, patterns, stepped)
        },
        _ => last,
    }
}

/// Membership in a sequence with one element appended.
proof fn lemma_push_contains(s: Seq<nat>, e: nat)
    ensures
        forall|x: nat| #[trigger] s.push(e).contains(x) <==> (s.contains(x) || x == e),
{
    assert forall|x: nat| #[trigger] s.push(e).contains(x) implies (s.contains(x) || x == e) by {
        let k = choose|k: int| 0 <= k < s.push(e).len() && s.push(e)[k] == x;
        if k < s.len() {
            assert(s[k] == x);
        }
    }
    assert forall|x: nat| (s.contains(x) || x == e) implies #[trigger] s.push(e).contains(x) by {
        if s.contains(x) {
            let k = choose|k: int| 0 <= k < s.len() && s[k] == x;
            assert(s.push(e)[k] == x);
        } else {
            assert(s.push(e)[s.len() as int] == x);
        }
    }
}

impl Namer {
    /// A fresh namer; with `rename` set it overwrites names already given.
    pub fn new(rename: bool) -> (r: Namer)
        ensures
            r.rename == rename,
            r.counts@.len() == 0,
            r.upvalues@.len() == 0,
            r.used_names@.len() == 0,
            patterns_view(r.naming_patterns@) == default_patterns(),
    {
        let mut naming_patterns: Vec<(Vec<u8>, Vec<u8>)> = Vec::new();
        naming_patterns.push((arr_to_vec([87u8, 97u8, 105u8, 116u8, 70u8, 111u8, 114u8, 67u8, 104u8, 105u8, 108u8, 100u8].as_slice()), Vec::new()));
        naming_patterns.push((arr_to_vec([70u8, 105u8, 110u8, 100u8, 70u8, 105u8, 114u8, 115u8, 116u8, 67u8, 104u8, 105u8, 108u8, 100u8].as_slice()), Vec::new()));
        naming_patterns.push((arr_to_vec([71u8, 101u8, 116u8, 83u8, 101u8, 114u8, 118u8, 105u8, 99u8, 101u8].as_slice()), Vec::new()));
        naming_patterns.push((arr_to_vec([67u8, 114u8, 101u8, 97u8, 116u8, 101u8].as_slice()), Vec::new()));
        naming_patterns.push((arr_to_vec([67u8, 108u8, 111u8, 110u8, 101u8].as_slice()), arr_to_vec([67u8, 108u8, 111u8, 110u8, 101u8].as_slice())));
        naming_patterns.push((arr_to_vec([110u8, 101u8, 119u8].as_slice()), Vec::new()));
        let r = Namer {
            rename,
            counts: Vec::new(),
            upvalues: Vec::new(),
            naming_patterns,
            used_names: Vec::new(),
        };
        proof {
            assert(patterns_view(r.naming_patterns@) =~= default_patterns());
        }
        r
    }

    /// The bare `base` on first use; on collision, `base` with the next
    /// counter value appended. The collision table records one more issue
    /// of `base` and is otherwise untouched.
    fn unique_name(&mut self, base: &Vec<u8>) -> (r: Vec<u8>)
        ensures
            r@ == counter_name(base@, next_counter(used_view(old(self).used_names@), base@)),
            used_count(used_view(final(self).used_names@), base@) == Option::Some(
                {
                    let c = next_counter(used_view(old(self).used_names@), base@);
                    if c < u64::MAX {
                        c + 1
                    } else {
                        c
                    }
                },
            ),
            forall|k: Seq<u8>|
                k != base@ ==> used_count(used_view(final(self).used_names@), k) == used_count(
                    used_view(old(self).used_names@),
                    k,
                ),
            final(self).rename == old(self).rename,
            final(self).counts == old(self).counts,
            final(self).upvalues == old(self).upvalues,
            final(self).naming_patterns == old(self).naming_patterns,
            valid_name(base@) ==> valid_name(r@),
    {
        let ghost uv0 = used_view(self.used_names@);
        let mut i: usize = 0;
        let n = self.used_names.len();
        while i < n
            invariant
                *self == *old(self),
                i <= n == self.used_names@.len(),
                uv0 == used_view(self.used_names@),
                uv0.len() == n,
                forall|j: int| 0 <= j < n ==> uv0[j] == ((#[trigger] self.used_names@[j]).0@,
                    self.used_names@[j].1 as nat),
                forall|j: int| 0 <= j < i ==> (#[trigger] uv0[j]).0 != base@,
            decreases n - i,
        {
            if bytes_eq(&self.used_names[i].0, base) {
                let count = self.used_names[i].1;
                proof {
                    assert(uv0[i as int] == (base@, count as nat));
                    lemma_used_count_first_match(uv0, i as int, base@);
                }
                let name = if count == 0 {
                    clone_bytes(base)
                } else {
                    let mut v = clone_bytes(base);
                    v.push(95);
                    let digits = u64_to_dec(count);
                    let suffixed = concat_bytes(v, &digits);
                    proof {
                        assert(suffixed@ =~= base@ + seq![95u8] + dec_digits(count as nat));
                        if valid_name(base@) {
                            lemma_valid_counter(base@, count as nat);
                        }
                    }
                    suffixed
                };
                let next: u64 = if count < u64::MAX {
                    count + 1
                } else {
                    count
                };
                let key = clone_bytes(base);
                self.used_names.set(i, (key, next));
                proof {
                    let uv1 = used_view(self.used_names@);
                    assert(uv1 =~= uv0.update(i as int, (base@, next as nat)));
                    assert(uv0[i as int].0 == base@);
                    assert forall|k: Seq<u8>| true implies used_count(uv1, k) == (if k == base@ {
                        Option::Some(next as nat)
                    } else {
                        used_count(uv0, k)
                    }) by {
                        lemma_used_count_update(uv0, i as int, next as nat, k);
                    }
                }
                return name;
            }
            i += 1;
        }
        proof {
            lemma_used_count_no_match(uv0, base@);
        }
        self.used_names.push((clone_bytes(base), 1));
        proof {
            let uv1 = used_view(self.used_names@);
            assert(uv1 =~= uv0.push((base@, 1)));
            assert forall|k: Seq<u8>| true implies used_count(uv1, k) == (if k == base@ {
                Option::Some(1nat)
            } else {
                used_count(uv0, k)
            }) by {
                lemma_used_count_push(uv0, base@, 1, k);
            }
        }
        clone_bytes(base)
    }

    /// The meaningful base for a value being assigned, if one can be
    /// derived; always a well-formed identifier.
    fn generate_meaningful_name(&self, value: &RValue) -> (r: Option<Vec<u8>>)
        ensures
            match r {
                Option::Some(n) => meaningful_name(value@, patterns_view(self.naming_patterns@))
                    == Option::Some(n@) && valid_name(n@),
                Option::None => meaningful_name(
                    value@,
                    patterns_view(self.naming_patterns@),
                ) is None,
            },
    {
        let ghost pv = patterns_view(self.naming_patterns@);
        proof {
            lemma_meaningful_name_valid(value@, pv);
            reveal_with_fuel(crate::ast::rv_view, 3);
            reveal_with_fuel(crate::ast::call_view, 2);
            reveal_with_fuel(crate::ast::index_view, 2);
        }
        match chain_name_exec(value, &self.naming_patterns, Option::None) {
            Option::Some(n) => {
                return Option::Some(n);
            },
            Option::None => {},
        }
        match value {
            RValue::Call(c) => {
                let is_require = match call_method_name_exec(c) {
                    Option::Some(m) => bytes_eq(&m, &arr_to_vec([114u8, 101u8, 113u8, 117u8, 105u8, 114u8, 101u8].as_slice())),
                    Option::None => false,
                };
                if is_require && c.arguments.len() > 0 {
                    proof {
                        crate::ast::lemma_rvs_view(c.arguments@);
                    }
                    match innermost_key_exec(&c.arguments[0], Option::None) {
                        Option::Some(k) => {
                            if k.len() > 0 {
                                return Option::Some(sanitize_name(&k));
                            }
                        },
                        Option::None => {},
                    }
                }
                Option::None
            },
            RValue::Index(ix) => {
                match ix.get_key_name() {
                    Option::Some(k) => {
                        if k.len() > 0 {
                            Option::Some(sanitize_name(&k))
                        } else {
                            Option::None
                        }
                    },
                    Option::None => Option::None,
                }
            },
            _ => Option::None,
        }
    }

    /// Names one local, if it is anonymous or renaming is on: the
    /// underscore for at most one use, a meaningful unique name where one
    /// derives from the value, and a prefix-based fallback otherwise.
    fn name_local(
        &mut self,
        locals: &mut Locals,
        prefix: NamePrefix,
        id: usize,
        value: Option<&RValue>,
    )
        ensures
            final(locals)@.len() == old(locals)@.len(),
            final(self).rename == old(self).rename,
            final(self).counts == old(self).counts,
            final(self).naming_patterns == old(self).naming_patterns,
            forall|j: int|
                0 <= j < old(locals)@.len() && j != id as int ==> final(locals)@[j] == old(
                    locals,
                )@[j],
            id < old(locals)@.len() ==> (if old(self).rename || old(locals)@[id as int] is None {
                name_ok(final(locals)@[id as int]) && (if count_of(
                    old(self).counts@,
                    id as nat,
                ) <= 1 {
                    final(locals)@[id as int] == Option::Some(seq![95u8])
                } else {
                    final(locals)@[id as int] == Option::Some(
                        counter_name(
                            chosen_base(
                                value,
                                patterns_view(old(self).naming_patterns@),
                                prefix,
                            ),
                            next_counter(
                                used_view(old(self).used_names@),
                                chosen_base(
                                    value,
                                    patterns_view(old(self).naming_patterns@),
                                    prefix,
                                ),
                            ),
                        ),
                    )
                })
            } else {
                final(locals)@[id as int] == old(locals)@[id as int]
            }),
    {
        if id >= locals.len() {
            return;
        }
        let current = locals.name_of(id);
        if self.rename || current.is_none() {
            let count: u8 = if id < self.counts.len() {
                self.counts[id]
            } else {
                0
            };
            if count <= 1 {
                let underscore = arr_to_vec([95u8].as_slice());
                proof {
                    assert(valid_name(seq![95u8])) by {
                        assert(seq![95u8][0] == 95u8);
                        assert forall|i: int| 0 <= i < seq![95u8].len() implies
                            crate::bytes::is_ident_byte(#[trigger] seq![95u8][i]) by {
                            assert(seq![95u8][i] == 95u8);
                        }
                    }
                }
                locals.set_name(id, underscore);
                return;
            }
            match value {
                Option::Some(v) => {
                    match self.generate_meaningful_name(v) {
                        Option::Some(base) => {
                            let name = self.unique_name(&base);
                            locals.set_name(id, name);
                            return;
                        },
                        Option::None => {},
                    }
                },
                Option::None => {},
            }
            let base = match prefix {
                NamePrefix::Param => arr_to_vec([97u8, 114u8, 103u8].as_slice()),
                NamePrefix::Iter => arr_to_vec([105u8, 116u8, 101u8, 114u8].as_slice()),
                NamePrefix::Index => arr_to_vec([105u8].as_slice()),
                NamePrefix::Var => arr_to_vec([118u8, 97u8, 114u8].as_slice()),
            };
            proof {
                assert(base@ =~= fallback_base(prefix));
                lemma_fallback_valid(prefix);
            }
            let name = self.unique_name(&base);
            locals.set_name(id, name);
        }
    }

    /// Names every closure parameter and every local of every closure body
    /// below the expression.
    fn name_closures_in_rvalue(&mut self, locals: &mut Locals, rv: &RValue)
        ensures
            final(locals)@.len() == old(locals)@.len(),
            forall|j: int|
                0 <= j < old(locals)@.len() ==> final(locals)@[j] == old(locals)@[j] || name_ok(
                    final(locals)@[j],
                ),
            final(self).rename == old(self).rename,
            final(self).counts == old(self).counts,
            final(self).naming_patterns == old(self).naming_patterns,
            kept(old(locals)@, final(locals)@, old(self).rename),
            covered(old(locals)@, final(locals)@, rv_binds(rv@), old(self).rename),
        decreases *rv,
    {
        let ghost r0 = self.rename;
        let ghost l0 = locals@;
        proof {
            reveal_with_fuel(crate::ast::rv_view, 3);
            reveal_with_fuel(crate::ast::index_view, 2);
            reveal_with_fuel(crate::ast::call_view, 2);
            reveal_with_fuel(crate::ast::method_call_view, 2);
        }
        match rv {
            RValue::Field(base, _) => {
                self.name_closures_in_rvalue(locals, base);
            },
            RValue::Index(ix) => {
                self.name_closures_in_rvalue(locals, &ix.left);
                let ghost l1 = locals@;
                self.name_closures_in_rvalue(locals, &ix.right);
                proof {
                    lemma_covered_seq(l0, l1, locals@, rv_binds(ix.left@), rv_binds(ix.right@), r0);
                    assert(rv_binds(rv@) == rv_binds(ix.left@) + rv_binds(ix.right@));
                }
            },
            RValue::Call(c) => {
                self.name_closures_in_rvalue(locals, &c.value);
                let ghost l1 = locals@;
                self.name_closures_in_rvalues(locals, &c.arguments);
                proof {
                    lemma_covered_seq(
                        l0,
                        l1,
                        locals@,
                        rv_binds(c.value@),
                        rvs_binds(crate::ast::rvs_view(c.arguments@)),
                        r0,
                    );
                    assert(rv_binds(rv@) == rv_binds(c.value@) + rvs_binds(
                        crate::ast::rvs_view(c.arguments@),
                    ));
                }
            },
            RValue::MethodCall(mc) => {
                self.name_closures_in_rvalue(locals, &mc.value);
                let ghost l1 = locals@;
                self.name_closures_in_rvalues(locals, &mc.arguments);
                proof {
                    lemma_covered_seq(
                        l0,
                        l1,
                        locals@,
                        rv_binds(mc.value@),
                        rvs_binds(crate::ast::rvs_view(mc.arguments@)),
                        r0,
                    );
                    assert(rv_binds(rv@) == rv_binds(mc.value@) + rvs_binds(
                        crate::ast::rvs_view(mc.arguments@),
                    ));
                }
            },
            RValue::Binary(l, _, r) => {
                self.name_closures_in_rvalue(locals, l);
                let ghost l1 = locals@;
                self.name_closures_in_rvalue(locals, r);
                proof {
                    lemma_covered_seq(l0, l1, locals@, rv_binds(l@), rv_binds(r@), r0);
                    assert(rv_binds(rv@) == rv_binds(l@) + rv_binds(r@));
                }
            },
            RValue::Unary(_, e) => {
                self.name_closures_in_rvalue(locals, e);
            },
            RValue::Table(items) => {
                self.name_closures_in_rvalues(locals, items);
            },
            RValue::Closure(c) => {
                let ghost params = crate::ast::params_view(c.parameters@);
                proof {
                    assert(params.subrange(0, 0) =~= Seq::<nat>::empty());
                }
                let mut i: usize = 0;
                while i < c.parameters.len()
                    invariant
                        i <= c.parameters@.len(),
                        params == crate::ast::params_view(c.parameters@),
                        params.len() == c.parameters@.len(),
                        forall|j: int|
                            0 <= j < c.parameters@.len() ==> params[j] == (
                            #[trigger] c.parameters@[j]) as nat,
                        r0 == self.rename,
                        self.rename == old(self).rename,
                        self.counts == old(self).counts,
                        self.naming_patterns == old(self).naming_patterns,
                        l0 == old(locals)@,
                        locals@.len() == l0.len(),
                        forall|j: int|
                            0 <= j < l0.len() ==> locals@[j] == l0[j] || name_ok(locals@[j]),
                        kept(l0, locals@, r0),
                        covered(l0, locals@, params.subrange(0, i as int), r0),
                    decreases c.parameters@.len() - i,
                {
                    let p = c.parameters[i];
                    let ghost lpre = locals@;
                    self.name_local(locals, NamePrefix::Param, p, Option::None);
                    proof {
                        assert(covered(lpre, locals@, seq![p as nat], r0)) by {
                            assert(seq![p as nat][0] == p as nat);
                        }
                        lemma_covered_seq(
                            l0,
                            lpre,
                            locals@,
                            params.subrange(0, i as int),
                            seq![p as nat],
                            r0,
                        );
                        assert(params.subrange(0, i + 1) =~= params.subrange(0, i as int) + seq![
                            p as nat,
                        ]);
                    }
                    i += 1;
                }
                let ghost l1 = locals@;
                proof {
                    assert(params.subrange(0, params.len() as int) =~= params);
                }
                self.name_locals(locals, &c.body);
                proof {
                    lemma_covered_seq(l0, l1, locals@, params, stmts_binds(c.body@), r0);
                    assert(rv_binds(rv@) == params + stmts_binds(c.body@));
                }
            },
            _ => {},
        }
    }

    fn name_closures_in_rvalues(&mut self, locals: &mut Locals, rvs: &Vec<RValue>)
        ensures
            final(locals)@.len() == old(locals)@.len(),
            forall|j: int|
                0 <= j < old(locals)@.len() ==> final(locals)@[j] == old(locals)@[j] || name_ok(
                    final(locals)@[j],
                ),
            final(self).rename == old(self).rename,
            final(self).counts == old(self).counts,
            final(self).naming_patterns == old(self).naming_patterns,
            kept(old(locals)@, final(locals)@, old(self).rename),
            covered(
                old(locals)@,
                final(locals)@,
                rvs_binds(crate::ast::rvs_view(rvs@)),
                old(self).rename,
            ),
        decreases rvs@,
    {
        let ghost r0 = self.rename;
        let ghost l0 = locals@;
        let ghost sv = crate::ast::rvs_view(rvs@);
        proof {
            crate::ast::lemma_rvs_view(rvs@);
            assert(rvs_binds(sv.subrange(0, 0)) =~= Seq::<nat>::empty());
        }
        let mut i: usize = 0;
        while i < rvs.len()
            invariant
                i <= rvs@.len(),
                sv == crate::ast::rvs_view(rvs@),
                sv.len() == rvs@.len(),
                forall|j: int|
                    0 <= j < rvs@.len() ==> sv[j] == crate::ast::rv_view(#[trigger] rvs@[j]),
                r0 == self.rename,
                self.rename == old(self).rename,
                self.counts == old(self).counts,
                self.naming_patterns == old(self).naming_patterns,
                l0 == old(locals)@,
                locals@.len() == l0.len(),
                forall|j: int| 0 <= j < l0.len() ==> locals@[j] == l0[j] || name_ok(locals@[j]),
                kept(l0, locals@, r0),
                covered(l0, locals@, rvs_binds(sv.subrange(0, i as int)), r0),
            decreases rvs@.len() - i,
        {
            let ghost lpre = locals@;
            self.name_closures_in_rvalue(locals, &rvs[i]);
            proof {
                lemma_covered_seq(
                    l0,
                    lpre,
                    locals@,
                    rvs_binds(sv.subrange(0, i as int)),
                    rv_binds(sv[i as int]),
                    r0,
                );
                assert(sv.subrange(0, i + 1) =~= sv.subrange(0, i as int).push(sv[i as int]));
                lemma_rvs_binds_push(sv.subrange(0, i as int), sv[i as int]);
            }
            i += 1;
        }
        proof {
            assert(sv.subrange(0, sv.len() as int) =~= sv);
        }
    }

    fn name_closures_in_lvalue(&mut self, locals: &mut Locals, lv: &LValue)
        ensures
            final(locals)@.len() == old(locals)@.len(),
            forall|j: int|
                0 <= j < old(locals)@.len() ==> final(locals)@[j] == old(locals)@[j] || name_ok(
                    final(locals)@[j],
                ),
            final(self).rename == old(self).rename,
            final(self).counts == old(self).counts,
            final(self).naming_patterns == old(self).naming_patterns,
            kept(old(locals)@, final(locals)@, old(self).rename),
            covered(old(locals)@, final(locals)@, lv_binds(lv@), old(self).rename),
        decreases *lv,
    {
        let ghost r0 = self.rename;
        let ghost l0 = locals@;
        proof {
            reveal_with_fuel(crate::ast::lv_view, 2);
            reveal_with_fuel(crate::ast::index_view, 2);
        }
        match lv {
            LValue::Index(ix) => {
                self.name_closures_in_rvalue(locals, &ix.left);
                let ghost l1 = locals@;
                self.name_closures_in_rvalue(locals, &ix.right);
                proof {
                    lemma_covered_seq(l0, l1, locals@, rv_binds(ix.left@), rv_binds(ix.right@), r0);
                    assert(lv_binds(lv@) == rv_binds(ix.left@) + rv_binds(ix.right@));
                }
            },
            _ => {},
        }
    }

    fn name_closures_in_lvalues(&mut self, locals: &mut Locals, lvs: &Vec<LValue>)
        ensures
            final(locals)@.len() == old(locals)@.len(),
            forall|j: int|
                0 <= j < old(locals)@.len() ==> final(locals)@[j] == old(locals)@[j] || name_ok(
                    final(locals)@[j],
                ),
            final(self).rename == old(self).rename,
            final(self).counts == old(self).counts,
            final(self).naming_patterns == old(self).naming_patterns,
            kept(old(locals)@, final(locals)@, old(self).rename),
            covered(
                old(locals)@,
                final(locals)@,
                lvs_binds(crate::ast::lvs_view(lvs@)),
                old(self).rename,
            ),
        decreases lvs@,
    {
        let ghost r0 = self.rename;
        let ghost l0 = locals@;
        let ghost sv = crate::ast::lvs_view(lvs@);
        proof {
            crate::ast::lemma_lvs_view(lvs@);
            assert(lvs_binds(sv.subrange(0, 0)) =~= Seq::<nat>::empty());
        }
        let mut i: usize = 0;
        while i < lvs.len()
            invariant
                i <= lvs@.len(),
                sv == crate::ast::lvs_view(lvs@),
                sv.len() == lvs@.len(),
                forall|j: int|
                    0 <= j < lvs@.len() ==> sv[j] == crate::ast::lv_view(#[trigger] lvs@[j]),
                r0 == self.rename,
                self.rename == old(self).rename,
                self.counts == old(self).counts,
                self.naming_patterns == old(self).naming_patterns,
                l0 == old(locals)@,
                locals@.len() == l0.len(),
                forall|j: int| 0 <= j < l0.len() ==> locals@[j] == l0[j] || name_ok(locals@[j]),
                kept(l0, locals@, r0),
                covered(l0, locals@, lvs_binds(sv.subrange(0, i as int)), r0),
            decreases lvs@.len() - i,
        {
            let ghost lpre = locals@;
            self.name_closures_in_lvalue(locals, &lvs[i]);
            proof {
                lemma_covered_seq(
                    l0,
                    lpre,
                    locals@,
                    lvs_binds(sv.subrange(0, i as int)),
                    lv_binds(sv[i as int]),
                    r0,
                );
                assert(sv.subrange(0, i + 1) =~= sv.subrange(0, i as int).push(sv[i as int]));
                lemma_lvs_binds_push(sv.subrange(0, i as int), sv[i as int]);
            }
            i += 1;
        }
        proof {
            assert(sv.subrange(0, sv.len() as int) =~= sv);
        }
    }

    fn name_closures_in_stmt(&mut self, locals: &mut Locals, st: &Statement)
        ensures
            final(locals)@.len() == old(locals)@.len(),
            forall|j: int|
                0 <= j < old(locals)@.len() ==> final(locals)@[j] == old(locals)@[j] || name_ok(
                    final(locals)@[j],
                ),
            final(self).rename == old(self).rename,
            final(self).counts == old(self).counts,
            final(self).naming_patterns == old(self).naming_patterns,
            kept(old(locals)@, final(locals)@, old(self).rename),
            covered(old(locals)@, final(locals)@, stmt_expr_binds(st@), old(self).rename),
        decreases *st,
    {
        let ghost r0 = self.rename;
        let ghost l0 = locals@;
        proof {
            reveal_with_fuel(crate::ast::rv_view, 3);
            reveal_with_fuel(crate::ast::call_view, 2);
        }
        match st {
            Statement::Assign(a) => {
                self.name_closures_in_lvalues(locals, &a.left);
                let ghost l1 = locals@;
                self.name_closures_in_rvalues(locals, &a.right);
                proof {
                    lemma_covered_seq(
                        l0,
                        l1,
                        locals@,
                        lvs_binds(crate::ast::lvs_view(a.left@)),
                        rvs_binds(crate::ast::rvs_view(a.right@)),
                        r0,
                    );
                    assert(stmt_expr_binds(st@) == lvs_binds(crate::ast::lvs_view(a.left@))
                        + rvs_binds(crate::ast::rvs_view(a.right@)));
                }
            },
            Statement::If(f) => {
                self.name_closures_in_rvalue(locals, &f.condition);
            },
            Statement::While(w) => {
                self.name_closures_in_rvalue(locals, &w.condition);
            },
            Statement::Repeat(rp) => {
                self.name_closures_in_rvalue(locals, &rp.condition);
            },
            Statement::NumericFor(nf) => {
                self.name_closures_in_rvalue(locals, &nf.initial);
                let ghost l1 = locals@;
                self.name_closures_in_rvalue(locals, &nf.limit);
                proof {
                    lemma_covered_seq(
                        l0,
                        l1,
                        locals@,
                        rv_binds(nf.initial@),
                        rv_binds(nf.limit@),
                        r0,
                    );
                }
                let ghost l2 = locals@;
                self.name_closures_in_rvalue(locals, &nf.step);
                proof {
                    lemma_covered_seq(
                        l0,
                        l2,
                        locals@,
                        rv_binds(nf.initial@) + rv_binds(nf.limit@),
                        rv_binds(nf.step@),
                        r0,
                    );
                    assert(stmt_expr_binds(st@) == rv_binds(nf.initial@) + rv_binds(nf.limit@)
                        + rv_binds(nf.step@));
                }
            },
            Statement::GenericFor(gf) => {
                self.name_closures_in_rvalues(locals, &gf.right);
            },
            Statement::Return(rs) => {
                self.name_closures_in_rvalues(locals, rs);
            },
            Statement::SetList(sl) => {
                self.name_closures_in_rvalues(locals, &sl.values);
                let ghost l1 = locals@;
                match &sl.tail {
                    Option::Some(t) => {
                        self.name_closures_in_rvalue(locals, t);
                        proof {
                            lemma_covered_seq(
                                l0,
                                l1,
                                locals@,
                                rvs_binds(crate::ast::rvs_view(sl.values@)),
                                rv_binds(t@),
                                r0,
                            );
                            reveal_with_fuel(crate::ast::set_list_view, 2);
                            assert(stmt_expr_binds(st@) == rvs_binds(
                                crate::ast::rvs_view(sl.values@),
                            ) + rv_binds(t@));
                        }
                    },
                    Option::None => {
                        proof {
                            reveal_with_fuel(crate::ast::set_list_view, 2);
                            assert(stmt_expr_binds(st@) =~= rvs_binds(
                                crate::ast::rvs_view(sl.values@),
                            ));
                        }
                    },
                }
            },
            Statement::Call(c) => {
                self.name_closures_in_rvalue(locals, &c.value);
                let ghost l1 = locals@;
                self.name_closures_in_rvalues(locals, &c.arguments);
                proof {
                    lemma_covered_seq(
                        l0,
                        l1,
                        locals@,
                        rv_binds(c.value@),
                        rvs_binds(crate::ast::rvs_view(c.arguments@)),
                        r0,
                    );
                    assert(stmt_expr_binds(st@) == rv_binds(c.value@) + rvs_binds(
                        crate::ast::rvs_view(c.arguments@),
                    ));
                }
            },
            _ => {},
        }
    }

    /// Names the locals of a block in tree order: closures first, then
    /// declared locals, loop counters and iteration results, then the
    /// nested blocks.
    #[verifier::rlimit(100)]
    fn name_locals(&mut self, locals: &mut Locals, block: &Block)
        ensures
            final(locals)@.len() == old(locals)@.len(),
            forall|j: int|
                0 <= j < old(locals)@.len() ==> final(locals)@[j] == old(locals)@[j] || name_ok(
                    final(locals)@[j],
                ),
            final(self).rename == old(self).rename,
            final(self).counts == old(self).counts,
            final(self).naming_patterns == old(self).naming_patterns,
            kept(old(locals)@, final(locals)@, old(self).rename),
            covered(old(locals)@, final(locals)@, stmts_binds(block@), old(self).rename),
        decreases *block,
    {
        let ghost r0 = self.rename;
        let ghost l0 = locals@;
        let ghost bv = block@;
        proof {
            crate::ast::lemma_stmts_view(block.statements@);
            assert(stmts_binds(bv.subrange(0, 0)) =~= Seq::<nat>::empty());
        }
        let mut i: usize = 0;
        while i < block.statements.len()
            invariant
                i <= block.statements@.len(),
                bv == block@,
                bv.len() == block.statements@.len(),
                forall|j: int|
                    0 <= j < block.statements@.len() ==> bv[j] == crate::ast::stmt_view(
                        #[trigger] block.statements@[j],
                    ),
                r0 == self.rename,
                self.rename == old(self).rename,
                self.counts == old(self).counts,
                self.naming_patterns == old(self).naming_patterns,
                l0 == old(locals)@,
                locals@.len() == l0.len(),
                forall|j: int| 0 <= j < l0.len() ==> locals@[j] == l0[j] || name_ok(locals@[j]),
                kept(l0, locals@, r0),
                covered(l0, locals@, stmts_binds(bv.subrange(0, i as int)), r0),
            decreases block.statements@.len() - i,
        {
            let ghost lstart = locals@;
            let st = &block.statements[i];
            let ghost st_v = bv[i as int];
            self.name_closures_in_stmt(locals, st);
            let ghost lexpr = locals@;
            match st {
                Statement::Assign(a) => {
                    proof {
                        assert(st_v == StatementV::Assign(crate::ast::assign_view(*a)));
                        crate::ast::lemma_lvs_view(a.left@);
                        crate::ast::lemma_rvs_view(a.right@);
                        assert(crate::ast::lvs_view(a.left@).subrange(0, 0)
                            =~= Seq::<LValueV>::empty());
                        assert(decl_target_ids(
                            crate::ast::lvs_view(a.left@).subrange(0, 0),
                        ) =~= Seq::<nat>::empty());
                    }
                    let ghost lsv = crate::ast::lvs_view(a.left@);
                    if a.is_declaration {
                        let mut k: usize = 0;
                        while k < a.left.len()
                            invariant
                                k <= a.left@.len(),
                                lsv == crate::ast::lvs_view(a.left@),
                                lsv.len() == a.left@.len(),
                                forall|j: int|
                                    0 <= j < a.left@.len() ==> lsv[j] == crate::ast::lv_view(
                                        #[trigger] a.left@[j],
                                    ),
                                r0 == self.rename,
                                self.rename == old(self).rename,
                                self.counts == old(self).counts,
                                self.naming_patterns == old(self).naming_patterns,
                                l0 == old(locals)@,
                                lexpr.len() == l0.len(),
                                locals@.len() == l0.len(),
                                forall|j: int|
                                    0 <= j < l0.len() ==> locals@[j] == lexpr[j] || name_ok(
                                        locals@[j],
                                    ),
                                forall|j: int|
                                    0 <= j < l0.len() ==> lexpr[j] == l0[j] || name_ok(lexpr[j]),
                                kept(lexpr, locals@, r0),
                                kept(l0, lexpr, r0),
                                covered(lexpr, locals@, decl_target_ids(lsv.subrange(0, k as int)), r0),
                            decreases a.left@.len() - k,
                        {
                            let ghost lpre = locals@;
                            let ghost step_ids = (match lsv[k as int] {
                                LValueV::Local(id) => seq![id],
                                _ => Seq::<nat>::empty(),
                            });
                            match &a.left[k] {
                                LValue::Local(id) => {
                                    if k < a.right.len() {
                                        let value = &a.right[k];
                                        self.name_local(
                                            locals,
                                            NamePrefix::Var,
                                            *id,
                                            Option::Some(value),
                                        );
                                    } else {
                                        self.name_local(locals, NamePrefix::Var, *id, Option::None);
                                    }
                                    proof {
                                        assert(lsv[k as int] == LValueV::Local(*id as nat));
                                        assert(covered(lpre, locals@, step_ids, r0)) by {
                                            assert(step_ids[0] == *id as nat);
                                        }
                                    }
                                },
                                _ => {
                                    proof {
                                        assert(step_ids =~= Seq::<nat>::empty());
                                        assert(covered(lpre, locals@, step_ids, r0));
                                    }
                                },
                            }
                            proof {
                                lemma_covered_seq(
                                    lexpr,
                                    lpre,
                                    locals@,
                                    decl_target_ids(lsv.subrange(0, k as int)),
                                    step_ids,
                                    r0,
                                );
                                assert(lsv.subrange(0, k + 1) =~= lsv.subrange(0, k as int).push(
                                    lsv[k as int],
                                ));
                                lemma_lvs_binds_push(lsv.subrange(0, k as int), lsv[k as int]);
                                assert(decl_target_ids(lsv.subrange(0, k + 1)) =~= decl_target_ids(
                                    lsv.subrange(0, k as int),
                                ) + step_ids);
                            }
                            k += 1;
                        }
                        proof {
                            assert(lsv.subrange(0, lsv.len() as int) =~= lsv);
                            assert(stmt_binds(st_v) =~= stmt_expr_binds(st_v) + decl_target_ids(
                                lsv,
                            ));
                            lemma_covered_seq(
                                lstart,
                                lexpr,
                                locals@,
                                stmt_expr_binds(st_v),
                                decl_target_ids(lsv),
                                r0,
                            );
                        }
                    } else {
                        proof {
                            assert(stmt_binds(st_v) =~= stmt_expr_binds(st_v));
                        }
                    }
                },
                Statement::If(f) => {
                    self.name_locals(locals, &f.then_block);
                    let ghost l1 = locals@;
                    self.name_locals(locals, &f.else_block);
                    proof {
                        lemma_covered_seq(
                            lexpr,
                            l1,
                            locals@,
                            stmts_binds(f.then_block@),
                            stmts_binds(f.else_block@),
                            r0,
                        );
                        lemma_covered_seq(
                            lstart,
                            lexpr,
                            locals@,
                            stmt_expr_binds(st_v),
                            stmts_binds(f.then_block@) + stmts_binds(f.else_block@),
                            r0,
                        );
                        assert(stmt_binds(st_v) == stmt_expr_binds(st_v) + (stmts_binds(
                            f.then_block@,
                        ) + stmts_binds(f.else_block@)));
                    }
                },
                Statement::While(w) => {
                    self.name_locals(locals, &w.block);
                    proof {
                        lemma_covered_seq(
                            lstart,
                            lexpr,
                            locals@,
                            stmt_expr_binds(st_v),
                            stmts_binds(w.block@),
                            r0,
                        );
                        assert(stmt_binds(st_v) == stmt_expr_binds(st_v) + stmts_binds(w.block@));
                    }
                },
                Statement::Repeat(rp) => {
                    self.name_locals(locals, &rp.block);
                    proof {
                        lemma_covered_seq(
                            lstart,
                            lexpr,
                            locals@,
                            stmt_expr_binds(st_v),
                            stmts_binds(rp.block@),
                            r0,
                        );
                        assert(stmt_binds(st_v) == stmt_expr_binds(st_v) + stmts_binds(rp.block@));
                    }
                },
                Statement::NumericFor(nf) => {
                    self.name_local(locals, NamePrefix::Index, nf.counter, Option::None);
                    let ghost l1 = locals@;
                    proof {
                        assert(covered(lexpr, l1, seq![nf.counter as nat], r0)) by {
                            assert(seq![nf.counter as nat][0] == nf.counter as nat);
                        }
                    }
                    self.name_locals(locals, &nf.block);
                    proof {
                        lemma_covered_seq(
                            lexpr,
                            l1,
                            locals@,
                            seq![nf.counter as nat],
                            stmts_binds(nf.block@),
                            r0,
                        );
                        lemma_covered_seq(
                            lstart,
                            lexpr,
                            locals@,
                            stmt_expr_binds(st_v),
                            seq![nf.counter as nat] + stmts_binds(nf.block@),
                            r0,
                        );
                        assert(stmt_binds(st_v) == stmt_expr_binds(st_v) + (seq![
                            nf.counter as nat,
                        ] + stmts_binds(nf.block@)));
                    }
                },
                Statement::GenericFor(gf) => {
                    let ghost res = crate::ast::params_view(gf.res_locals@);
                    proof {
                        assert(res.subrange(0, 0) =~= Seq::<nat>::empty());
                    }
                    let mut k: usize = 0;
                    while k < gf.res_locals.len()
                        invariant
                            k <= gf.res_locals@.len(),
                            res == crate::ast::params_view(gf.res_locals@),
                            res.len() == gf.res_locals@.len(),
                            forall|j: int|
                                0 <= j < gf.res_locals@.len() ==> res[j] == (
                                #[trigger] gf.res_locals@[j]) as nat,
                            r0 == self.rename,
                            self.rename == old(self).rename,
                            self.counts == old(self).counts,
                            self.naming_patterns == old(self).naming_patterns,
                            l0 == old(locals)@,
                            lexpr.len() == l0.len(),
                            locals@.len() == l0.len(),
                            forall|j: int|
                                0 <= j < l0.len() ==> locals@[j] == lexpr[j] || name_ok(locals@[j]),
                            forall|j: int|
                                0 <= j < l0.len() ==> lexpr[j] == l0[j] || name_ok(lexpr[j]),
                            kept(lexpr, locals@, r0),
                            kept(l0, lexpr, r0),
                            covered(lexpr, locals@, res.subrange(0, k as int), r0),
                        decreases gf.res_locals@.len() - k,
                    {
                        let rl = gf.res_locals[k];
                        let ghost lpre = locals@;
                        self.name_local(locals, NamePrefix::Iter, rl, Option::None);
                        proof {
                            assert(covered(lpre, locals@, seq![rl as nat], r0)) by {
                                assert(seq![rl as nat][0] == rl as nat);
                            }
                            lemma_covered_seq(
                                lexpr,
                                lpre,
                                locals@,
                                res.subrange(0, k as int),
                                seq![rl as nat],
                                r0,
                            );
                            assert(res.subrange(0, k + 1) =~= res.subrange(0, k as int) + seq![
                                rl as nat,
                            ]);
                        }
                        k += 1;
                    }
                    let ghost l1 = locals@;
                    proof {
                        assert(res.subrange(0, res.len() as int) =~= res);
                    }
                    self.name_locals(locals, &gf.block);
                    proof {
                        lemma_covered_seq(lexpr, l1, locals@, res, stmts_binds(gf.block@), r0);
                        lemma_covered_seq(
                            lstart,
                            lexpr,
                            locals@,
                            stmt_expr_binds(st_v),
                            res + stmts_binds(gf.block@),
                            r0,
                        );
                        assert(stmt_binds(st_v) == stmt_expr_binds(st_v) + (res + stmts_binds(
                            gf.block@,
                        )));
                    }
                },
                _ => {
                    proof {
                        assert(stmt_binds(st_v) =~= stmt_expr_binds(st_v));
                    }
                },
            }
            proof {
                assert(covered(lstart, locals@, stmt_binds(st_v), r0));
                lemma_covered_seq(
                    l0,
                    lstart,
                    locals@,
                    stmts_binds(bv.subrange(0, i as int)),
                    stmt_binds(st_v),
                    r0,
                );
                assert(bv.subrange(0, i + 1) =~= bv.subrange(0, i as int).push(st_v));
                lemma_stmts_binds_push(bv.subrange(0, i as int), st_v);
            }
            i += 1;
        }
        proof {
            assert(bv.subrange(0, bv.len() as int) =~= bv);
        }
    }

    /// Collects into the namer's capture set every local that some closure
    /// below the block captures as an upvalue. The set records which
    /// locals are shared across frames for callers of the namer; within
    /// the pass itself a capture already counts as a use, which is what
    /// keeps captured locals from the underscore.
    fn find_upvalues(&mut self, block: &Block)
        ensures
            forall|x: nat|
                ids_view(final(self).upvalues@).contains(x) <==> (ids_view(
                    old(self).upvalues@,
                ).contains(x) || stmts_upvals(block@).contains(x)),
            final(self).rename == old(self).rename,
            final(self).counts == old(self).counts,
            final(self).naming_patterns == old(self).naming_patterns,
            final(self).used_names == old(self).used_names,
    {
        let mut raw: Vec<usize> = Vec::new();
        crate::local::collect_stmts_upvals(&block.statements, &mut raw);
        let ghost ups = stmts_upvals(block@);
        let mut i: usize = 0;
        while i < raw.len()
            invariant
                i <= raw@.len(),
                self.rename == old(self).rename,
                self.counts == old(self).counts,
                self.naming_patterns == old(self).naming_patterns,
                self.used_names == old(self).used_names,
                ids_view(raw@) =~= ups,
                forall|x: nat|
                    ids_view(self.upvalues@).contains(x) <==> (ids_view(
                        old(self).upvalues@,
                    ).contains(x) || ids_view(raw@).subrange(0, i as int).contains(x)),
            decreases raw@.len() - i,
        {
            let e = raw[i];
            let mut found = false;
            let mut k: usize = 0;
            while k < self.upvalues.len()
                invariant
                    k <= self.upvalues@.len(),
                    found <==> exists|j: int| 0 <= j < k && self.upvalues@[j] == e,
                decreases self.upvalues@.len() - k,
            {
                if self.upvalues[k] == e {
                    found = true;
                }
                k += 1;
            }
            let ghost pre = self.upvalues@;
            if !found {
                self.upvalues.push(e);
            }
            proof {
                let rv = ids_view(raw@);
                assert(rv.subrange(0, i + 1) =~= rv.subrange(0, i as int).push(rv[i as int]));
                assert(rv[i as int] == e as nat);
                lemma_push_contains(rv.subrange(0, i as int), e as nat);
                if !found {
                    assert(ids_view(self.upvalues@) =~= ids_view(pre).push(e as nat));
                    lemma_push_contains(ids_view(pre), e as nat);
                } else {
                    let j = choose|j: int| 0 <= j < pre.len() && pre[j] == e;
                    assert(ids_view(pre)[j] == e as nat);
                    assert(ids_view(pre).contains(e as nat));
                }
            }
            i += 1;
        }
        proof {
            assert(ids_view(raw@).subrange(0, raw@.len() as int) =~= ids_view(raw@));
        }
    }
}

/// Names every local of the tree for display. The arena keeps its length;
/// every entry either keeps its old value or receives a well-formed
/// identifier; every local bound in the tree — declaration targets, loop
/// counters, iteration results, closure parameters — that is still
/// anonymous (or that renaming may touch) ends up named; and without
/// `rename`, names already set are kept as they are. A use is a read, a
/// write or a capture; a local referenced only at its binding site counts
/// as unreferenced and receives the underscore.
pub fn name_locals(block: &Block, locals: &mut Locals, rename: bool)
    ensures
        final(locals)@.len() == old(locals)@.len(),
        forall|j: int|
            0 <= j < old(locals)@.len() ==> final(locals)@[j] == old(locals)@[j] || name_ok(
                final(locals)@[j],
            ),
        kept(old(locals)@, final(locals)@, rename),
        covered(old(locals)@, final(locals)@, stmts_binds(block@), rename),
{
    let n = locals.len();
    let mut namer = Namer::new(rename);
    namer.counts = count_block_uses(block, n);
    namer.find_upvalues(block);
    namer.name_locals(locals, block);
}

/// On an arena whose locals start anonymous, every name the naming pass
/// leaves behind is the underscore or a match for
/// `[A-Za-z_][A-Za-z0-9_]*`.
pub proof fn lemma_names_valid_from_fresh(pre: Seq<Option<Seq<u8>>>, post: Seq<Option<Seq<u8>>>)
    requires
        pre.len() == post.len(),
        forall|i: int| 0 <= i < pre.len() ==> pre[i] is None,
        forall|i: int| 0 <= i < post.len() ==> post[i] == pre[i] || name_ok(post[i]),
    ensures
        forall|i: int|
            0 <= i < post.len() ==> ((#[trigger] post[i]) matches Option::Some(n) ==> valid_name(
                n,
            )),
{
}

} // verus!
