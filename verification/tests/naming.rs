use lua_ast::ast::{
    Assign, Block, Call, Closure, Index, LValue, Literal, MethodCall, NumericFor, RValue,
    Statement,
};
use lua_ast::bytes::{i64_to_dec, u64_to_dec};
use lua_ast::local::Locals;
use lua_ast::name_gen::{sanitize_name, DefaultNameGenerator, Global, NameGenerator};
use lua_ast::name_locals::name_locals;

fn local(id: usize) -> RValue {
    RValue::Local(id)
}

fn num(n: i64) -> RValue {
    RValue::Literal(Literal::Number(n))
}

fn string(s: &[u8]) -> RValue {
    RValue::Literal(Literal::Str(s.to_vec()))
}

fn decl(id: usize, value: RValue) -> Statement {
    Statement::Assign(Assign {
        left: vec![LValue::Local(id)],
        right: vec![value],
        is_declaration: true,
    })
}

fn get_service(arg: &[u8]) -> RValue {
    RValue::MethodCall(MethodCall {
        value: Box::new(RValue::Global(b"game".to_vec())),
        method: b"GetService".to_vec(),
        arguments: vec![string(arg)],
    })
}

fn arena(n: usize) -> Locals {
    let mut locals = Locals::new();
    let mut i = 0;
    while i < n {
        locals.add();
        i += 1;
    }
    locals
}

fn name_of(locals: &Locals, id: usize) -> Option<Vec<u8>> {
    locals.name_of(id)
}

fn is_identifier(name: &[u8]) -> bool {
    !name.is_empty()
        && (name[0].is_ascii_alphabetic() || name[0] == b'_')
        && name
            .iter()
            .all(|b| b.is_ascii_alphanumeric() || *b == b'_')
}

#[test]
fn get_service_assignment_names_the_local_after_the_service() {
    // local x = game:GetService("RunService"); return x
    let block = Block {
        statements: vec![
            decl(0, get_service(b"RunService")),
            Statement::Return(vec![local(0)]),
        ],
    };
    let mut locals = arena(1);
    name_locals(&block, &mut locals, true);
    assert_eq!(name_of(&locals, 0), Some(b"RunService".to_vec()));
}

#[test]
fn quotes_and_spaces_are_cleaned_out_of_the_argument() {
    let block = Block {
        statements: vec![
            decl(0, get_service(b"'Run Service'")),
            Statement::Return(vec![local(0)]),
        ],
    };
    let mut locals = arena(1);
    name_locals(&block, &mut locals, true);
    assert_eq!(name_of(&locals, 0), Some(b"RunService".to_vec()));
}

#[test]
fn identity_function_parameter_used_once_becomes_underscore() {
    // local f = function(a) return a end
    let closure = RValue::Closure(Closure {
        parameters: vec![0],
        is_variadic: false,
        upvalues: vec![],
        body: Block {
            statements: vec![Statement::Return(vec![local(0)])],
        },
    });
    let block = Block {
        statements: vec![decl(1, closure)],
    };
    let mut locals = arena(2);
    name_locals(&block, &mut locals, true);
    assert_eq!(name_of(&locals, 0), Some(b"_".to_vec()));
}

#[test]
fn parameter_used_twice_gets_the_arg_fallback() {
    // local f = function(a) return a + a end
    let closure = RValue::Closure(Closure {
        parameters: vec![0],
        is_variadic: false,
        upvalues: vec![],
        body: Block {
            statements: vec![Statement::Return(vec![RValue::Binary(
                Box::new(local(0)),
                lua_ast::ast::BinaryOp::Add,
                Box::new(local(0)),
            )])],
        },
    });
    let block = Block {
        statements: vec![decl(1, closure)],
    };
    let mut locals = arena(2);
    name_locals(&block, &mut locals, true);
    assert_eq!(name_of(&locals, 0), Some(b"arg".to_vec()));
}

#[test]
fn numeric_for_counter_uses_the_index_fallback_and_counter() {
    // for i = 1, 10 do print(i + i) end, twice over different counters
    let loop_over = |counter: usize| {
        Statement::NumericFor(NumericFor {
            counter,
            initial: num(1),
            limit: num(10),
            step: num(1),
            block: Block {
                statements: vec![Statement::Call(Call {
                    value: Box::new(RValue::Global(b"print".to_vec())),
                    arguments: vec![RValue::Binary(
                        Box::new(local(counter)),
                        lua_ast::ast::BinaryOp::Add,
                        Box::new(local(counter)),
                    )],
                })],
            },
        })
    };
    let block = Block {
        statements: vec![loop_over(0), loop_over(1)],
    };
    let mut locals = arena(2);
    name_locals(&block, &mut locals, true);
    assert_eq!(name_of(&locals, 0), Some(b"i".to_vec()));
    assert_eq!(name_of(&locals, 1), Some(b"i_1".to_vec()));
}

#[test]
fn unused_local_becomes_underscore() {
    let block = Block {
        statements: vec![decl(0, num(3))],
    };
    let mut locals = arena(1);
    name_locals(&block, &mut locals, true);
    assert_eq!(name_of(&locals, 0), Some(b"_".to_vec()));
}

#[test]
fn without_rename_existing_names_stay() {
    let block = Block {
        statements: vec![decl(0, num(3)), Statement::Return(vec![local(0)])],
    };
    let mut locals = arena(1);
    locals.set_name(0, b"kept".to_vec());
    name_locals(&block, &mut locals, false);
    assert_eq!(name_of(&locals, 0), Some(b"kept".to_vec()));
}

#[test]
fn require_names_after_the_innermost_key() {
    // local m = require(game.ReplicatedStorage.Mod); return m
    let path = RValue::Index(Index::new(
        RValue::Index(Index::new(
            RValue::Global(b"game".to_vec()),
            string(b"ReplicatedStorage"),
        )),
        string(b"Mod"),
    ));
    let require = RValue::Call(Call {
        value: Box::new(RValue::Global(b"require".to_vec())),
        arguments: vec![path],
    });
    let block = Block {
        statements: vec![decl(0, require), Statement::Return(vec![local(0)])],
    };
    let mut locals = arena(1);
    name_locals(&block, &mut locals, true);
    assert_eq!(name_of(&locals, 0), Some(b"ReplicatedStorage".to_vec()));
}

#[test]
fn every_name_the_pass_sets_is_an_identifier() {
    let block = Block {
        statements: vec![
            decl(0, get_service(b"9 weird/name!")),
            Statement::Return(vec![local(0)]),
            decl(1, num(1)),
            Statement::Return(vec![local(1)]),
        ],
    };
    let mut locals = arena(2);
    name_locals(&block, &mut locals, true);
    for id in 0..2 {
        let name = name_of(&locals, id).expect("every encountered local is named");
        assert!(is_identifier(&name), "bad name: {:?}", name);
    }
    assert_eq!(name_of(&locals, 0), Some(b"_9weird_name_".to_vec()));
}

#[test]
fn colliding_meaningful_names_get_counters() {
    let block = Block {
        statements: vec![
            decl(0, get_service(b"Workspace")),
            Statement::Return(vec![local(0)]),
            decl(1, get_service(b"Workspace")),
            Statement::Return(vec![local(1)]),
        ],
    };
    let mut locals = arena(2);
    name_locals(&block, &mut locals, true);
    assert_eq!(name_of(&locals, 0), Some(b"Workspace".to_vec()));
    assert_eq!(name_of(&locals, 1), Some(b"Workspace_1".to_vec()));
}

#[test]
fn sanitize_replaces_and_shields() {
    assert_eq!(sanitize_name(&b"9run service!".to_vec()), b"_9run_service_".to_vec());
    assert_eq!(sanitize_name(&b"RunService".to_vec()), b"RunService".to_vec());
    assert_eq!(sanitize_name(&b"".to_vec()), b"".to_vec());
}

#[test]
fn decimal_digits_render_exactly() {
    assert_eq!(u64_to_dec(0), b"0".to_vec());
    assert_eq!(u64_to_dec(1234), b"1234".to_vec());
    assert_eq!(i64_to_dec(-42), b"-42".to_vec());
    assert_eq!(i64_to_dec(i64::MIN), b"-9223372036854775808".to_vec());
}

#[test]
fn known_globals_round_trip_to_display_names() {
    let g = Global::from_name(&b"Players".to_vec()).expect("known global");
    assert_eq!(g.display_name(), b"players".to_vec());
    assert!(Global::from_name(&b"unknown".to_vec()).is_none());
}

#[test]
fn default_generator_appends_the_identifier() {
    let gen = DefaultNameGenerator {};
    let name = gen.generate_name(&RValue::Global(b"game".to_vec()), 3);
    assert_eq!(name, Some(b"game_3".to_vec()));
    let keyed = RValue::Index(Index::new(
        RValue::Global(b"game".to_vec()),
        string(b"Run Service"),
    ));
    assert_eq!(gen.generate_name(&keyed, 7), Some(b"Run_Service_7".to_vec()));
    assert_eq!(gen.generate_name(&num(1), 0), None);
}

#[test]
fn naming_twice_gives_the_same_names() {
    let build = || Block {
        statements: vec![
            decl(0, get_service(b"Workspace")),
            Statement::Return(vec![local(0)]),
            decl(1, num(2)),
            Statement::Return(vec![local(1)]),
        ],
    };
    let block = build();
    let mut locals = arena(2);
    name_locals(&block, &mut locals, true);
    let first: Vec<Option<Vec<u8>>> = (0..2).map(|id| name_of(&locals, id)).collect();
    name_locals(&block, &mut locals, true);
    let second: Vec<Option<Vec<u8>>> = (0..2).map(|id| name_of(&locals, id)).collect();
    assert_eq!(first, second);
}
