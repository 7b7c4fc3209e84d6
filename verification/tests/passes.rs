use lua_ast::ast::{
    Assign, BinaryOp, Block, Call, If, Index, LValue, Literal, RValue, SetList, Statement,
};
use lua_ast::combine_nested_ifs::{combine_nested_ifs, replace_local_in_rvalue};
use lua_ast::replace_locals::{fail_on_goto, replace_locals, DecompileError};
use lua_ast::set_list::SetListStyle;

fn local(id: usize) -> RValue {
    RValue::Local(id)
}

fn num(n: i64) -> RValue {
    RValue::Literal(Literal::Number(n))
}

fn decl(id: usize, value: RValue) -> Statement {
    Statement::Assign(Assign {
        left: vec![LValue::Local(id)],
        right: vec![value],
        is_declaration: true,
    })
}

fn gt_zero(id: usize) -> RValue {
    RValue::Binary(Box::new(local(id)), BinaryOp::Gt, Box::new(num(0)))
}

fn print_call(arg: RValue) -> Statement {
    Statement::Call(Call {
        value: Box::new(RValue::Global(b"print".to_vec())),
        arguments: vec![arg],
    })
}

#[test]
fn trivial_return_passes_the_goto_guard() {
    let block = Block {
        statements: vec![Statement::Return(vec![])],
    };
    assert!(fail_on_goto(&block).is_ok());
}

#[test]
fn goto_is_rejected_by_the_guard() {
    let block = Block {
        statements: vec![Statement::Goto(1)],
    };
    assert!(matches!(
        fail_on_goto(&block),
        Err(DecompileError::StructuringIncomplete)
    ));
}

#[test]
fn label_nested_in_a_loop_is_rejected() {
    let block = Block {
        statements: vec![Statement::While(lua_ast::ast::While {
            condition: RValue::Literal(Literal::Boolean(true)),
            block: Block {
                statements: vec![Statement::Label(0)],
            },
        })],
    };
    assert!(fail_on_goto(&block).is_err());
}

#[test]
fn nested_if_fold_inlines_the_condition() {
    // local c = x > 0; if c then print(1) end  -- c read nowhere else
    let mut block = Block {
        statements: vec![
            decl(0, gt_zero(1)),
            Statement::If(If {
                condition: local(0),
                then_block: Block {
                    statements: vec![print_call(num(1))],
                },
                else_block: Block { statements: vec![] },
            }),
        ],
    };
    combine_nested_ifs(&mut block);
    assert_eq!(block.statements.len(), 1);
    match &block.statements[0] {
        Statement::If(f) => {
            assert!(matches!(f.condition, RValue::Binary(_, BinaryOp::Gt, _)));
            assert_eq!(f.then_block.statements.len(), 1);
        }
        other => panic!("expected an if, got {:?}", std::mem::discriminant(other)),
    }
}

#[test]
fn nested_if_fold_moves_the_assignment_when_the_branch_reads_it() {
    // local c = x > 0; if c then print(c) end
    let mut block = Block {
        statements: vec![
            decl(0, gt_zero(1)),
            Statement::If(If {
                condition: local(0),
                then_block: Block {
                    statements: vec![print_call(local(0))],
                },
                else_block: Block { statements: vec![] },
            }),
        ],
    };
    combine_nested_ifs(&mut block);
    assert_eq!(block.statements.len(), 1);
    match &block.statements[0] {
        Statement::If(f) => {
            assert!(matches!(f.condition, RValue::Binary(_, BinaryOp::Gt, _)));
            assert_eq!(f.then_block.statements.len(), 2);
            assert!(matches!(f.then_block.statements[0], Statement::Assign(_)));
        }
        _ => panic!("expected an if"),
    }
}

#[test]
fn nested_if_fold_leaves_a_local_that_is_read_later() {
    // local c = x > 0; if c then print(1) end; print(c)
    let mut block = Block {
        statements: vec![
            decl(0, gt_zero(1)),
            Statement::If(If {
                condition: local(0),
                then_block: Block {
                    statements: vec![print_call(num(1))],
                },
                else_block: Block { statements: vec![] },
            }),
            print_call(local(0)),
        ],
    };
    combine_nested_ifs(&mut block);
    assert_eq!(block.statements.len(), 3);
    assert!(matches!(block.statements[0], Statement::Assign(_)));
}

#[test]
fn replace_locals_rewrites_reads_and_writes() {
    let mut block = Block {
        statements: vec![
            decl(0, local(1)),
            Statement::Return(vec![local(0)]),
        ],
    };
    replace_locals(&mut block, &vec![(0, 5), (1, 6)]);
    match &block.statements[0] {
        Statement::Assign(a) => {
            assert!(matches!(a.left[0], LValue::Local(5)));
            assert!(matches!(a.right[0], RValue::Local(6)));
        }
        _ => panic!("expected an assignment"),
    }
    match &block.statements[1] {
        Statement::Return(rs) => assert!(matches!(rs[0], RValue::Local(5))),
        _ => panic!("expected a return"),
    }
}

#[test]
fn replace_local_in_rvalue_substitutes_every_read() {
    let mut rv = RValue::Binary(Box::new(local(0)), BinaryOp::Add, Box::new(local(1)));
    replace_local_in_rvalue(&mut rv, 0, &num(7));
    match rv {
        RValue::Binary(l, BinaryOp::Add, r) => {
            assert!(matches!(*l, RValue::Literal(Literal::Number(7))));
            assert!(matches!(*r, RValue::Local(1)));
        }
        _ => panic!("expected a sum"),
    }
}

#[test]
fn set_list_of_tables_renders_as_a_table_literal() {
    let sl = SetList::new(
        0,
        1,
        vec![RValue::Table(vec![]), RValue::Table(vec![num(3)])],
        None,
    );
    assert!(sl.all_table_values());
    assert!(!sl.has_non_table_value());
    assert!(matches!(sl.render_style(), SetListStyle::TableLiteral));
    assert!(!sl.has_side_effects());
}

#[test]
fn set_list_with_a_non_table_value_warns() {
    let sl = SetList::new(0, 1, vec![num(2)], None);
    assert!(matches!(
        sl.render_style(),
        SetListStyle::SentinelCall { warn: true }
    ));
}

#[test]
fn set_list_with_a_tail_is_a_sentinel_call_without_warning() {
    let sl = SetList::new(0, 1, vec![RValue::Table(vec![])], Some(RValue::Varargs));
    assert!(matches!(
        sl.render_style(),
        SetListStyle::SentinelCall { warn: false }
    ));
}

#[test]
fn set_list_reads_its_table_local_first() {
    let sl = SetList::new(4, 0, vec![local(2)], Some(local(3)));
    assert_eq!(sl.values_read(), vec![4, 2, 3]);
}

#[test]
fn set_list_side_effects_follow_its_values() {
    let call = RValue::Call(Call {
        value: Box::new(RValue::Global(b"f".to_vec())),
        arguments: vec![],
    });
    let sl = SetList::new(0, 0, vec![call], None);
    assert!(sl.has_side_effects());
}

#[test]
fn index_reads_base_then_key() {
    let ix = Index::new(local(3), local(9));
    assert_eq!(ix.values_read(), vec![3, 9]);
    assert!(ix.has_side_effects());
}

#[test]
fn index_key_names_come_from_literals() {
    let ix = Index::new(
        RValue::Global(b"game".to_vec()),
        RValue::Literal(Literal::Str(b"Workspace".to_vec())),
    );
    assert_eq!(ix.get_key_name(), Some(b"Workspace".to_vec()));
    let ix2 = Index::new(local(0), num(-42));
    assert_eq!(ix2.get_key_name(), Some(b"-42".to_vec()));
    let ix3 = Index::new(local(0), local(1));
    assert_eq!(ix3.get_key_name(), None);
}

#[test]
fn index_base_names_come_from_globals_and_named_locals() {
    let mut locals = lua_ast::local::Locals::new();
    let id = locals.add();
    locals.set_name(id, b"part".to_vec());
    let ix = Index::new(local(id), num(1));
    assert_eq!(ix.get_base_name(&locals), Some(b"part".to_vec()));
    let ix2 = Index::new(RValue::Global(b"game".to_vec()), num(1));
    assert_eq!(ix2.get_base_name(&locals), Some(b"game".to_vec()));
    let ix3 = Index::new(num(1), num(1));
    assert_eq!(ix3.get_base_name(&locals), None);
}

#[test]
fn fold_then_guard_stays_structured() {
    let mut block = Block {
        statements: vec![
            decl(0, gt_zero(1)),
            Statement::If(If {
                condition: local(0),
                then_block: Block {
                    statements: vec![Statement::Break],
                },
                else_block: Block { statements: vec![] },
            }),
        ],
    };
    combine_nested_ifs(&mut block);
    assert!(fail_on_goto(&block).is_ok());
}

#[test]
fn nested_if_fold_leaves_a_local_read_in_the_else_branch() {
    // local c = x > 0; if c then print(1) else print(c) end
    let mut block = Block {
        statements: vec![
            decl(0, gt_zero(1)),
            Statement::If(If {
                condition: local(0),
                then_block: Block {
                    statements: vec![print_call(num(1))],
                },
                else_block: Block {
                    statements: vec![print_call(local(0))],
                },
            }),
        ],
    };
    combine_nested_ifs(&mut block);
    assert_eq!(block.statements.len(), 2);
    assert!(matches!(block.statements[0], Statement::Assign(_)));
}

#[test]
fn goto_inside_an_assignment_target_is_rejected() {
    // t[(function() goto l end)()] = nil
    let key_closure = RValue::Closure(lua_ast::ast::Closure {
        parameters: vec![],
        is_variadic: false,
        upvalues: vec![],
        body: Block {
            statements: vec![Statement::Goto(0)],
        },
    });
    let block = Block {
        statements: vec![Statement::Assign(Assign {
            left: vec![LValue::Index(Index::new(local(0), key_closure))],
            right: vec![RValue::Literal(Literal::Nil)],
            is_declaration: false,
        })],
    };
    assert!(matches!(
        fail_on_goto(&block),
        Err(DecompileError::StructuringIncomplete)
    ));
}

#[test]
fn group_map_pairs_each_member_with_its_group() {
    let groups = vec![vec![3usize, 5], vec![], vec![7]];
    let map = lua_ast::pipeline::local_group_map(&groups);
    assert_eq!(map, vec![(3, 0), (5, 0), (7, 2)]);
}

#[test]
fn structuring_progress_is_any_pass_progress() {
    assert!(lua_ast::pipeline::structuring_progress(false, true, false));
    assert!(!lua_ast::pipeline::structuring_progress(false, false, false));
}
