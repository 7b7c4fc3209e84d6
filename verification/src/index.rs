//! The index expression `base[key]`, and the names the naming pass derives
//! from it.

use vstd::prelude::*;

use crate::ast::{Index, IndexV, Literal, LiteralV, RValue, RValueV};
use crate::bytes::{clone_bytes, i64_to_dec, int_dec};
use crate::local::{Locals, ids_view, rv_reads};

verus! {

/// The display name of an index expression's base: the base local's name if
/// it has one, the global's name, and nothing for a computed base.
pub open spec fn index_base_name(ix: IndexV, names: Seq<Option<Seq<u8>>>) -> Option<Seq<u8>> {
    match *ix.left {
        RValueV::Local(id) => if id < names.len() {
            names[id as int]
        } else {
            Option::None
        },
        RValueV::Global(g) => Option::Some(g),
        _ => Option::None,
    }
}

/// The display name of an index expression's key: a string key itself, a
/// number key in decimal, and nothing for a computed key.
pub open spec fn index_key_name(ix: IndexV) -> Option<Seq<u8>> {
    match *ix.right {
        RValueV::Literal(l) => match l {
            LiteralV::Str(s) => Option::Some(s),
            LiteralV::Number(n) => Option::Some(int_dec(n)),
            _ => Option::None,
        },
        _ => Option::None,
    }
}

impl Index {
    pub fn new(left: RValue, right: RValue) -> (r: Index)
        ensures
            r@ == (IndexV { left: Box::new(left@), right: Box::new(right@) }),
    {
        let r = Index { left: Box::new(left), right: Box::new(right) };
        proof {
            reveal_with_fuel(crate::ast::index_view, 2);
        }
        r
    }

    /// The name of the indexed base, if the base is a named local or a
    /// global.
    pub fn get_base_name(&self, locals: &Locals) -> (r: Option<Vec<u8>>)
        ensures
            match r {
                Option::Some(n) => index_base_name(self@, locals@) == Option::Some(n@),
                Option::None => index_base_name(self@, locals@) is None,
            },
    {
        match &*self.left {
            RValue::Local(id) => {
                if *id < locals.len() {
                    locals.name_of(*id)
                } else {
                    Option::None
                }
            },
            RValue::Global(g) => Option::Some(clone_bytes(g)),
            _ => Option::None,
        }
    }

    /// The name of the key, if the key is a string or number literal.
    pub fn get_key_name(&self) -> (r: Option<Vec<u8>>)
        ensures
            match r {
                Option::Some(n) => index_key_name(self@) == Option::Some(n@),
                Option::None => index_key_name(self@) is None,
            },
    {
        match &*self.right {
            RValue::Literal(l) => match l {
                Literal::Str(s) => Option::Some(clone_bytes(s)),
                Literal::Number(n) => Option::Some(i64_to_dec(*n)),
                _ => Option::None,
            },
            _ => Option::None,
        }
    }

    /// The locals the expression reads, base first, in tree order.
    pub fn values_read(&self) -> (r: Vec<usize>)
        ensures
            ids_view(r@) == rv_reads(*self@.left) + rv_reads(*self@.right),
    {
        let mut out: Vec<usize> = Vec::new();
        crate::local::collect_rv_reads(&self.left, &mut out);
        crate::local::collect_rv_reads(&self.right, &mut out);
        proof {
            assert(ids_view(out@) =~= rv_reads(*self@.left) + rv_reads(*self@.right));
        }
        out
    }

    /// An index read may invoke a metamethod, so it counts as side-effecting
    /// unconditionally, like a method call.
    pub fn has_side_effects(&self) -> (r: bool)
        ensures
            r == crate::effects::rv_has_effects(RValueV::Index(self@)),
    {
        true
    }
}

} // verus!
