//! Names synthesized for locals: sanitizing, the known globals, and the
//! simple hint-based generator.
//!
//! A synthesized name must print as an identifier: `sanitize_name` maps
//! every byte outside `[A-Za-z0-9]` to an underscore and shields a leading
//! digit with one.

use vstd::prelude::*;

use crate::ast::{Literal, LiteralV, RValue, RValueV};
use crate::bytes::{
    arr_to_vec, bytes_eq, clone_bytes, dec_digits, is_digit_byte, is_ident_byte,
    is_ident_start_byte, lemma_dec_digits_are_digits, u64_to_dec, valid_name,
};

verus! {

/// Whether a byte may stay in a sanitized name.
pub open spec fn is_alnum_byte(b: u8) -> bool {
    (65 <= b && b <= 90) || (97 <= b && b <= 122) || (48 <= b && b <= 57)
}

/// What sanitizing makes of a name: every byte outside `[A-Za-z0-9]`
/// becomes an underscore, and a leading digit gets one put in front.
pub open spec fn sanitize_spec(s: Seq<u8>) -> Seq<u8> {
    let mapped = s.map_values(
        |b: u8|
            if is_alnum_byte(b) {
                b
            } else {
                95u8
            },
    );
    if mapped.len() > 0 && is_digit_byte(mapped[0]) {
        seq![95u8] + mapped
    } else {
        mapped
    }
}

/// A sanitized non-empty name is a well-formed identifier.
pub proof fn lemma_sanitize_valid(s: Seq<u8>)
    requires
        s.len() > 0,
    ensures
        valid_name(sanitize_spec(s)),
{
    let r = sanitize_spec(s);
    assert(r.len() > 0);
    assert forall|i: int| 0 <= i < r.len() implies is_ident_byte(#[trigger] r[i]) by {}
    assert(is_ident_start_byte(r[0]));
}

/// Sanitizing never changes an empty name, and appending an underscore and
/// digits to any sanitized name gives a well-formed identifier.
pub proof fn lemma_sanitized_suffixed_valid(s: Seq<u8>, k: nat)
    ensures
        valid_name(sanitize_spec(s) + seq![95u8] + dec_digits(k)),
{
    let r = sanitize_spec(s) + seq![95u8] + dec_digits(k);
    lemma_dec_digits_are_digits(k);
    assert forall|i: int| 0 <= i < r.len() implies is_ident_byte(#[trigger] r[i]) by {
        let sl = sanitize_spec(s).len() as int;
        if i < sl {
        } else if i == sl {
        } else {
            assert(r[i] == dec_digits(k)[i - sl - 1]);
        }
    }
    if sanitize_spec(s).len() == 0 {
        assert(r[0] == 95u8);
    }
    assert(is_ident_start_byte(r[0]));
}

/// Replaces every byte outside `[A-Za-z0-9]` by an underscore and shields a
/// leading digit with one, so the result prints as an identifier.
pub fn sanitize_name(name: &Vec<u8>) -> (r: Vec<u8>)
    ensures
        r@ == sanitize_spec(name@),
        name@.len() > 0 ==> valid_name(r@),
{
    let mut mapped: Vec<u8> = Vec::new();
    let mut i: usize = 0;
    while i < name.len()
        invariant
            i <= name@.len(),
            mapped@.len() == i,
            forall|j: int|
                0 <= j < i ==> mapped@[j] == (if is_alnum_byte(name@[j]) {
                    name@[j]
                } else {
                    95u8
                }),
        decreases name@.len() - i,
    {
        let b = name[i];
        let keep = (65 <= b && b <= 90) || (97 <= b && b <= 122) || (48 <= b && b <= 57);
        mapped.push(if keep {
            b
        } else {
            95
        });
        i += 1;
    }
    let ghost mapped_spec = name@.map_values(
        |b: u8|
            if is_alnum_byte(b) {
                b
            } else {
                95u8
            },
    );
    proof {
        assert(mapped@ =~= mapped_spec);
    }
    if mapped.len() > 0 && 48 <= mapped[0] && mapped[0] <= 57 {
        let mut r: Vec<u8> = Vec::new();
        r.push(95);
        let mut k: usize = 0;
        while k < mapped.len()
            invariant
                k <= mapped@.len(),
                r@.len() == k + 1,
                r@[0] == 95u8,
                forall|j: int| 0 <= j < k ==> r@[j + 1] == mapped@[j],
            decreases mapped@.len() - k,
        {
            r.push(mapped[k]);
            k += 1;
        }
        proof {
            assert(r@ =~= seq![95u8] + mapped_spec);
            lemma_sanitize_valid(name@);
        }
        r
    } else {
        proof {
            if name@.len() > 0 {
                lemma_sanitize_valid(name@);
            }
        }
        mapped
    }
}

/// The globals the generator knows by name.
pub enum Global {
    Game,
    Script,
    Workspace,
    Players,
    ReplicatedStorage,
    StarterGui,
    StarterPlayer,
    TweenService,
    Debris,
}

/// Which known global a name denotes, if any.
pub open spec fn global_of(name: Seq<u8>) -> Option<Global> {
    if false {
        Option::None
    } else if name == seq![103u8, 97u8, 109u8, 101u8] {
        Option::Some(Global::Game)
    } else if name == seq![115u8, 99u8, 114u8, 105u8, 112u8, 116u8] {
        Option::Some(Global::Script)
    } else if name == seq![119u8, 111u8, 114u8, 107u8, 115u8, 112u8, 97u8, 99u8, 101u8] {
        Option::Some(Global::Workspace)
    } else if name == seq![80u8, 108u8, 97u8, 121u8, 101u8, 114u8, 115u8] {
        Option::Some(Global::Players)
    } else if name == seq![82u8, 101u8, 112u8, 108u8, 105u8, 99u8, 97u8, 116u8, 101u8, 100u8, 83u8, 116u8, 111u8, 114u8, 97u8, 103u8, 101u8] {
        Option::Some(Global::ReplicatedStorage)
    } else if name == seq![83u8, 116u8, 97u8, 114u8, 116u8, 101u8, 114u8, 71u8, 117u8, 105u8] {
        Option::Some(Global::StarterGui)
    } else if name == seq![83u8, 116u8, 97u8, 114u8, 116u8, 101u8, 114u8, 80u8, 108u8, 97u8, 121u8, 101u8, 114u8] {
        Option::Some(Global::StarterPlayer)
    } else if name == seq![84u8, 119u8, 101u8, 101u8, 110u8, 83u8, 101u8, 114u8, 118u8, 105u8, 99u8, 101u8] {
        Option::Some(Global::TweenService)
    } else if name == seq![68u8, 101u8, 98u8, 114u8, 105u8, 115u8] {
        Option::Some(Global::Debris)
    } else {
        Option::None
    }
}

/// The display base the generator derives from a known global.
pub open spec fn global_display(g: Global) -> Seq<u8> {
    match g {
        Global::Game => seq![103u8, 97u8, 109u8, 101u8],
        Global::Script => seq![115u8, 99u8, 114u8, 105u8, 112u8, 116u8],
        Global::Workspace => seq![119u8, 111u8, 114u8, 107u8, 115u8, 112u8, 97u8, 99u8, 101u8],
        Global::Players => seq![112u8, 108u8, 97u8, 121u8, 101u8, 114u8, 115u8],
        Global::ReplicatedStorage => seq![114u8, 101u8, 112u8, 108u8, 105u8, 99u8, 97u8, 116u8, 101u8, 100u8, 83u8, 116u8, 111u8, 114u8, 97u8, 103u8, 101u8],
        Global::StarterGui => seq![115u8, 116u8, 97u8, 114u8, 116u8, 101u8, 114u8, 71u8, 117u8, 105u8],
        Global::StarterPlayer => seq![115u8, 116u8, 97u8, 114u8, 116u8, 101u8, 114u8, 80u8, 108u8, 97u8, 121u8, 101u8, 114u8],
        Global::TweenService => seq![116u8, 119u8, 101u8, 101u8, 110u8, 83u8, 101u8, 114u8, 118u8, 105u8, 99u8, 101u8],
        Global::Debris => seq![100u8, 101u8, 98u8, 114u8, 105u8, 115u8],
    }
}

impl Global {
    /// The known global a name denotes, if any.
    pub fn from_name(name: &Vec<u8>) -> (r: Option<Global>)
        ensures
            match r {
                Option::Some(g) => global_of(name@) == Option::Some(g),
                Option::None => global_of(name@) is None,
            },
    {
        if false {
            Option::None
    } else if bytes_eq(name, &arr_to_vec([103u8, 97u8, 109u8, 101u8].as_slice())) {
        proof { assert(name@ == seq![103u8, 97u8, 109u8, 101u8]); }
        Option::Some(Global::Game)
    } else if bytes_eq(name, &arr_to_vec([115u8, 99u8, 114u8, 105u8, 112u8, 116u8].as_slice())) {
        proof { assert(name@ == seq![115u8, 99u8, 114u8, 105u8, 112u8, 116u8]); }
        Option::Some(Global::Script)
    } else if bytes_eq(name, &arr_to_vec([119u8, 111u8, 114u8, 107u8, 115u8, 112u8, 97u8, 99u8, 101u8].as_slice())) {
        proof { assert(name@ == seq![119u8, 111u8, 114u8, 107u8, 115u8, 112u8, 97u8, 99u8, 101u8]); }
        Option::Some(Global::Workspace)
    } else if bytes_eq(name, &arr_to_vec([80u8, 108u8, 97u8, 121u8, 101u8, 114u8, 115u8].as_slice())) {
        proof { assert(name@ == seq![80u8, 108u8, 97u8, 121u8, 101u8, 114u8, 115u8]); }
        Option::Some(Global::Players)
    } else if bytes_eq(name, &arr_to_vec([82u8, 101u8, 112u8, 108u8, 105u8, 99u8, 97u8, 116u8, 101u8, 100u8, 83u8, 116u8, 111u8, 114u8, 97u8, 103u8, 101u8].as_slice())) {
        proof { assert(name@ == seq![82u8, 101u8, 112u8, 108u8, 105u8, 99u8, 97u8, 116u8, 101u8, 100u8, 83u8, 116u8, 111u8, 114u8, 97u8, 103u8, 101u8]); }
        Option::Some(Global::ReplicatedStorage)
    } else if bytes_eq(name, &arr_to_vec([83u8, 116u8, 97u8, 114u8, 116u8, 101u8, 114u8, 71u8, 117u8, 105u8].as_slice())) {
        proof { assert(name@ == seq![83u8, 116u8, 97u8, 114u8, 116u8, 101u8, 114u8, 71u8, 117u8, 105u8]); }
        Option::Some(Global::StarterGui)
    } else if bytes_eq(name, &arr_to_vec([83u8, 116u8, 97u8, 114u8, 116u8, 101u8, 114u8, 80u8, 108u8, 97u8, 121u8, 101u8, 114u8].as_slice())) {
        proof { assert(name@ == seq![83u8, 116u8, 97u8, 114u8, 116u8, 101u8, 114u8, 80u8, 108u8, 97u8, 121u8, 101u8, 114u8]); }
        Option::Some(Global::StarterPlayer)
    } else if bytes_eq(name, &arr_to_vec([84u8, 119u8, 101u8, 101u8, 110u8, 83u8, 101u8, 114u8, 118u8, 105u8, 99u8, 101u8].as_slice())) {
        proof { assert(name@ == seq![84u8, 119u8, 101u8, 101u8, 110u8, 83u8, 101u8, 114u8, 118u8, 105u8, 99u8, 101u8]); }
        Option::Some(Global::TweenService)
    } else if bytes_eq(name, &arr_to_vec([68u8, 101u8, 98u8, 114u8, 105u8, 115u8].as_slice())) {
        proof { assert(name@ == seq![68u8, 101u8, 98u8, 114u8, 105u8, 115u8]); }
        Option::Some(Global::Debris)
        } else {
            Option::None
        }
    }

    /// The display base for this global.
    pub fn display_name(&self) -> (r: Vec<u8>)
        ensures
            r@ == global_display(*self),
    {
        match self {
        Global::Game => arr_to_vec([103u8, 97u8, 109u8, 101u8].as_slice()),
        Global::Script => arr_to_vec([115u8, 99u8, 114u8, 105u8, 112u8, 116u8].as_slice()),
        Global::Workspace => arr_to_vec([119u8, 111u8, 114u8, 107u8, 115u8, 112u8, 97u8, 99u8, 101u8].as_slice()),
        Global::Players => arr_to_vec([112u8, 108u8, 97u8, 121u8, 101u8, 114u8, 115u8].as_slice()),
        Global::ReplicatedStorage => arr_to_vec([114u8, 101u8, 112u8, 108u8, 105u8, 99u8, 97u8, 116u8, 101u8, 100u8, 83u8, 116u8, 111u8, 114u8, 97u8, 103u8, 101u8].as_slice()),
        Global::StarterGui => arr_to_vec([115u8, 116u8, 97u8, 114u8, 116u8, 101u8, 114u8, 71u8, 117u8, 105u8].as_slice()),
        Global::StarterPlayer => arr_to_vec([115u8, 116u8, 97u8, 114u8, 116u8, 101u8, 114u8, 80u8, 108u8, 97u8, 121u8, 101u8, 114u8].as_slice()),
        Global::TweenService => arr_to_vec([116u8, 119u8, 101u8, 101u8, 110u8, 83u8, 101u8, 114u8, 118u8, 105u8, 99u8, 101u8].as_slice()),
        Global::Debris => arr_to_vec([100u8, 101u8, 98u8, 114u8, 105u8, 115u8].as_slice()),
        }
    }
}

/// The hint the default generator reads off an expression: a known
/// global's display name, a string key of an index, or the string argument
/// of a service-lookup call.
pub open spec fn default_hint(v: RValueV) -> Option<Seq<u8>> {
    match v {
        RValueV::Global(g) => match global_of(g) {
            Option::Some(gl) => Option::Some(global_display(gl)),
            Option::None => Option::None,
        },
        RValueV::Index(ix) => match *ix.right {
            RValueV::Literal(l) => match l {
                LiteralV::Str(s) => Option::Some(s),
                _ => Option::None,
            },
            _ => Option::None,
        },
        RValueV::Call(c) => match *c.value {
            RValueV::Field(_, f) => if f == seq![71u8, 101u8, 116u8, 83u8, 101u8, 114u8, 118u8, 105u8, 99u8, 101u8] || f == seq![87u8, 97u8, 105u8, 116u8, 70u8, 111u8, 114u8, 67u8, 104u8, 105u8, 108u8, 100u8]
                || f == seq![70u8, 105u8, 110u8, 100u8, 70u8, 105u8, 114u8, 115u8, 116u8, 67u8, 104u8, 105u8, 108u8, 100u8] {
                if c.arguments.len() > 0 {
                    match c.arguments[0] {
                        RValueV::Literal(l) => match l {
                            LiteralV::Str(s) => Option::Some(s),
                            _ => Option::None,
                        },
                        _ => Option::None,
                    }
                } else {
                    Option::None
                }
            } else {
                Option::None
            },
            _ => Option::None,
        },
        _ => Option::None,
    }
}

/// A source of synthesized local names. An implementation must only hand
/// out well-formed identifiers.
pub trait NameGenerator {
    fn generate_name(&self, rvalue: &RValue, identifier: usize) -> (r: Option<Vec<u8>>)
        ensures
            r matches Option::Some(n) ==> valid_name(n@),
    ;
}

/// The plain generator: a hint from the expression, sanitized, with the
/// identifier number appended.
pub struct DefaultNameGenerator {}

impl NameGenerator for DefaultNameGenerator {
    fn generate_name(&self, rvalue: &RValue, identifier: usize) -> (r: Option<Vec<u8>>)
        ensures
            match default_hint(rvalue@) {
                Option::Some(h) => r matches Option::Some(n) && n@ == sanitize_spec(h)
                    + seq![95u8] + dec_digits(identifier as nat),
                Option::None => r is None,
            },
    {
        let hint: Option<Vec<u8>> = match rvalue {
            RValue::Global(g) => match Global::from_name(g) {
                Option::Some(gl) => Option::Some(gl.display_name()),
                Option::None => Option::None,
            },
            RValue::Index(ix) => match &*ix.right {
                RValue::Literal(l) => match l {
                    Literal::Str(s) => Option::Some(clone_bytes(s)),
                    _ => Option::None,
                },
                _ => Option::None,
            },
            RValue::Call(c) => match &*c.value {
                RValue::Field(_, f) => {
                    let is_service = bytes_eq(f, &arr_to_vec([71u8, 101u8, 116u8, 83u8, 101u8, 114u8, 118u8, 105u8, 99u8, 101u8].as_slice()))
                        || bytes_eq(f, &arr_to_vec([87u8, 97u8, 105u8, 116u8, 70u8, 111u8, 114u8, 67u8, 104u8, 105u8, 108u8, 100u8].as_slice()))
                        || bytes_eq(f, &arr_to_vec([70u8, 105u8, 110u8, 100u8, 70u8, 105u8, 114u8, 115u8, 116u8, 67u8, 104u8, 105u8, 108u8, 100u8].as_slice()));
                    if is_service && c.arguments.len() > 0 {
                        proof {
                            crate::ast::lemma_rvs_view(c.arguments@);
                        }
                        match &c.arguments[0] {
                            RValue::Literal(l) => match l {
                                Literal::Str(s) => Option::Some(clone_bytes(s)),
                                _ => Option::None,
                            },
                            _ => Option::None,
                        }
                    } else {
                        Option::None
                    }
                },
                _ => Option::None,
            },
            _ => Option::None,
        };
        proof {
            reveal_with_fuel(crate::ast::rv_view, 3);
            reveal_with_fuel(crate::ast::index_view, 2);
            reveal_with_fuel(crate::ast::call_view, 2);
        }
        match hint {
            Option::Some(h) => {
                let mut name = sanitize_name(&h);
                name.push(95);
                let mut digits = u64_to_dec(identifier as u64);
                let mut i: usize = 0;
                while i < digits.len()
                    invariant
                        i <= digits@.len(),
                        name@.len() == sanitize_spec(h@).len() + 1 + i,
                        name@.subrange(0, sanitize_spec(h@).len() as int) == sanitize_spec(h@),
                        name@[sanitize_spec(h@).len() as int] == 95u8,
                        forall|j: int|
                            0 <= j < i ==> name@[sanitize_spec(h@).len() + 1 + j] == digits@[j],
                    decreases digits@.len() - i,
                {
                    let ghost pre = name@;
                    name.push(digits[i]);
                    proof {
                        assert(name@.subrange(0, sanitize_spec(h@).len() as int) =~= pre.subrange(
                            0,
                            sanitize_spec(h@).len() as int,
                        ));
                    }
                    i += 1;
                }
                proof {
                    assert(name@ =~= sanitize_spec(h@) + seq![95u8] + dec_digits(
                        identifier as nat,
                    ));
                    lemma_sanitized_suffixed_valid(h@, identifier as nat);
                }
                Option::Some(name)
            },
            Option::None => Option::None,
        }
    }
}

} // verus!
