//! The bulk table store statement, and the choices the printer contract
//! needs from it.
//!
//! A set-list writes a run of values (and an optional multi-value tail)
//! into the table held by a local. The printer renders it as a table
//! literal exactly when every value is a table constructor and there is no
//! tail; otherwise it renders a sentinel call, flagged with a warning
//! comment when a non-table value slipped in.

use vstd::prelude::*;

use crate::ast::{RValue, RValueV, SetList, SetListV, lemma_rvs_view, rvs_view};
use crate::effects::{check_rv_has_effects, check_rvs_have_effects, rv_has_effects, rvs_have_effects};
use crate::local::{ids_view, rv_reads, rvs_reads};

verus! {

/// Whether every value of the list is a table constructor.
pub open spec fn rvs_all_tables(s: Seq<RValueV>) -> bool {
    forall|i: int| 0 <= i < s.len() ==> (#[trigger] s[i]) is Table
}

/// How the printer renders a set-list.
#[derive(PartialEq, Eq, Structural)]
pub enum SetListStyle {
    /// Every value is a table constructor and there is no tail: a plain
    /// table literal.
    TableLiteral,
    /// Anything else: a sentinel call, with a warning comment when some
    /// value is not a table.
    SentinelCall { warn: bool },
}

impl SetList {
    pub fn new(object_local: usize, index: usize, values: Vec<RValue>, tail: Option<RValue>) -> (r:
        SetList)
        ensures
            r@ == (SetListV {
                object_local: object_local as nat,
                index: index as nat,
                values: rvs_view(values@),
                tail: match tail {
                    Option::Some(t) => Option::Some(t@),
                    Option::None => Option::None,
                },
            }),
    {
        let r = SetList { object_local, index, values, tail };
        proof {
            reveal_with_fuel(crate::ast::set_list_view, 2);
            assert(r@ =~= (SetListV {
                object_local: object_local as nat,
                index: index as nat,
                values: rvs_view(r.values@),
                tail: match r.tail {
                    Option::Some(t) => Option::Some(t@),
                    Option::None => Option::None,
                },
            }));
        }
        r
    }

    /// The locals the statement reads: the table local first, then the
    /// values and the tail, in tree order.
    pub fn values_read(&self) -> (r: Vec<usize>)
        ensures
            ids_view(r@) == seq![self@.object_local] + rvs_reads(self@.values) + (
            match self@.tail {
                Option::Some(t) => rv_reads(t),
                Option::None => Seq::<nat>::empty(),
            }),
    {
        let mut out: Vec<usize> = Vec::new();
        out.push(self.object_local);
        assert(ids_view(out@) =~= seq![self@.object_local]);
        crate::local::collect_rvs_reads(&self.values, &mut out);
        match &self.tail {
            Option::Some(t) => {
                crate::local::collect_rv_reads(t, &mut out);
            },
            Option::None => {},
        }
        proof {
            assert(ids_view(out@) =~= seq![self@.object_local] + rvs_reads(self@.values) + (
            match self@.tail {
                Option::Some(t) => rv_reads(t),
                Option::None => Seq::<nat>::empty(),
            }));
        }
        out
    }

    /// The statement is side-effecting exactly when one of its values or
    /// its tail is.
    pub fn has_side_effects(&self) -> (r: bool)
        ensures
            r == (rvs_have_effects(self@.values) || (match self@.tail {
                Option::Some(t) => rv_has_effects(t),
                Option::None => false,
            })),
    {
        if check_rvs_have_effects(&self.values) {
            return true;
        }
        match &self.tail {
            Option::Some(t) => check_rv_has_effects(t),
            Option::None => false,
        }
    }

    /// Whether every value is a table constructor and no tail follows.
    pub fn all_table_values(&self) -> (r: bool)
        ensures
            r == (self@.tail is None && rvs_all_tables(self@.values)),
    {
        match &self.tail {
            Option::Some(_) => return false,
            Option::None => {},
        }
        proof {
            lemma_rvs_view(self.values@);
        }
        let mut i: usize = 0;
        while i < self.values.len()
            invariant
                i <= self.values@.len(),
                rvs_view(self.values@).len() == self.values@.len(),
                forall|j: int|
                    0 <= j < self.values@.len() ==> rvs_view(self.values@)[j] == crate::ast::rv_view(
                        #[trigger] self.values@[j],
                    ),
                forall|j: int| 0 <= j < i ==> (#[trigger] rvs_view(self.values@)[j]) is Table,
            decreases self.values@.len() - i,
        {
            match &self.values[i] {
                RValue::Table(_) => {},
                _ => {
                    assert(!(rvs_view(self.values@)[i as int] is Table));
                    return false;
                },
            }
            i += 1;
        }
        true
    }

    /// Whether some value is not a table constructor; the printer flags the
    /// sentinel call with a warning comment then.
    pub fn has_non_table_value(&self) -> (r: bool)
        ensures
            r == !rvs_all_tables(self@.values),
    {
        proof {
            lemma_rvs_view(self.values@);
        }
        let mut i: usize = 0;
        while i < self.values.len()
            invariant
                i <= self.values@.len(),
                rvs_view(self.values@).len() == self.values@.len(),
                forall|j: int|
                    0 <= j < self.values@.len() ==> rvs_view(self.values@)[j] == crate::ast::rv_view(
                        #[trigger] self.values@[j],
                    ),
                forall|j: int| 0 <= j < i ==> (#[trigger] rvs_view(self.values@)[j]) is Table,
            decreases self.values@.len() - i,
        {
            match &self.values[i] {
                RValue::Table(_) => {},
                _ => {
                    assert(!(rvs_view(self.values@)[i as int] is Table));
                    return true;
                },
            }
            i += 1;
        }
        false
    }

    /// The rendering the printer contract prescribes for this statement.
    pub fn render_style(&self) -> (r: SetListStyle)
        ensures
            r == (if self@.tail is None && rvs_all_tables(self@.values) {
                SetListStyle::TableLiteral
            } else {
                SetListStyle::SentinelCall { warn: !rvs_all_tables(self@.values) }
            }),
    {
        if self.all_table_values() {
            SetListStyle::TableLiteral
        } else {
            SetListStyle::SentinelCall { warn: self.has_non_table_value() }
        }
    }
}

} // verus!
