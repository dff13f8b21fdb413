use cargo_danger::analyzer::{
    count_if_in, unsafe_lines_of_file, unsafe_things_of_block, unsafe_things_of_expression,
    unsafe_things_of_implitem, unsafe_things_of_item, unsafe_things_of_statement,
};
use cargo_danger::syntax::{Block, Expr, ImplItem, Item, NodeClass, SourceFile, Stmt};

fn leaves(n: usize) -> Vec<Stmt> {
    let mut stmts = Vec::new();
    for _ in 0..n {
        stmts.push(Stmt::Semi(Expr::Call));
    }
    stmts
}

#[test]
fn leaf_counts_only_when_escalated() {
    assert_eq!(count_if_in(true), 1);
    assert_eq!(count_if_in(false), 0);
    assert_eq!(unsafe_things_of_expression(&Expr::Call, true), 1);
    assert_eq!(unsafe_things_of_expression(&Expr::Call, false), 0);
    assert_eq!(unsafe_things_of_statement(&Stmt::Local, true), 1);
    assert_eq!(unsafe_things_of_statement(&Stmt::Local, false), 0);
}

#[test]
fn elevated_block_of_three_with_two_outside() {
    let mut stmts = vec![Stmt::Local, Stmt::Semi(Expr::MethodCall)];
    stmts.push(Stmt::Expr(Expr::Unsafe(Block { stmts: leaves(3) })));
    let file = SourceFile {
        items: vec![Item::Fn { elevated: false, body: Block { stmts } }],
    };
    assert_eq!(unsafe_lines_of_file(&file), 3);
}

#[test]
fn elevated_declaration_escalates_nested_plain_block() {
    let inner = Expr::Block(Block { stmts: leaves(4) });
    let file = SourceFile {
        items: vec![Item::Fn {
            elevated: true,
            body: Block { stmts: vec![Stmt::Expr(inner)] },
        }],
    };
    assert_eq!(unsafe_lines_of_file(&file), 4);
}

#[test]
fn plain_scopes_hand_the_flag_on() {
    let body = Block { stmts: leaves(2) };
    let looped = Expr::Loop { body };
    assert_eq!(unsafe_things_of_expression(&looped, true), 2);
    assert_eq!(unsafe_things_of_expression(&looped, false), 0);
    let conditional = Expr::If {
        cond: Box::new(Expr::Binary),
        then_branch: Block { stmts: leaves(2) },
        else_branch: Some(Box::new(Expr::Block(Block { stmts: leaves(3) }))),
    };
    assert_eq!(unsafe_things_of_expression(&conditional, true), 6);
    assert_eq!(unsafe_things_of_expression(&conditional, false), 0);
    let repeated = Expr::While { cond: Box::new(Expr::Path), body: Block { stmts: leaves(1) } };
    assert_eq!(unsafe_things_of_expression(&repeated, true), 2);
    let iterated = Expr::ForLoop {
        iterable: Box::new(Expr::Range),
        body: Block { stmts: leaves(5) },
    };
    assert_eq!(unsafe_things_of_expression(&iterated, true), 6);
    let closure = Expr::Closure { body: Box::new(Expr::Lit) };
    assert_eq!(unsafe_things_of_expression(&closure, true), 1);
    assert_eq!(unsafe_things_of_expression(&closure, false), 0);
}

#[test]
fn boxed_and_placement_expressions_are_looked_into() {
    let boxed = Expr::Boxed(Box::new(Expr::Lit));
    assert_eq!(unsafe_things_of_expression(&boxed, true), 1);
    let placed = Expr::InPlace(Box::new(Expr::Path), Box::new(Expr::Call));
    assert_eq!(unsafe_things_of_expression(&placed, true), 2);
    assert_eq!(unsafe_things_of_expression(&placed, false), 0);
}

#[test]
fn elevated_block_inside_plain_branch_counts_only_itself() {
    let elevated = Stmt::Expr(Expr::Unsafe(Block { stmts: leaves(2) }));
    let mut stmts = leaves(3);
    stmts.push(elevated);
    let block = Block { stmts };
    assert_eq!(unsafe_things_of_block(&block, false), 2);
    assert_eq!(unsafe_things_of_block(&block, true), 5);
}

#[test]
fn escalation_is_never_lowered() {
    let nested = Expr::Unsafe(Block {
        stmts: vec![Stmt::Item(Item::Fn { elevated: false, body: Block { stmts: leaves(2) } })],
    });
    assert_eq!(unsafe_things_of_expression(&nested, false), 2);
}

#[test]
fn elevated_impl_escalates_every_member() {
    let members = vec![
        ImplItem::Const,
        ImplItem::Method { elevated: false, body: Block { stmts: leaves(2) } },
        ImplItem::Type,
        ImplItem::Method { elevated: false, body: Block { stmts: leaves(1) } },
    ];
    let item = Item::Impl { elevated: true, items: members };
    assert_eq!(unsafe_things_of_item(&item, false), 3);
}

#[test]
fn elevated_method_in_plain_impl() {
    let plain = ImplItem::Method { elevated: false, body: Block { stmts: leaves(2) } };
    let elevated = ImplItem::Method { elevated: true, body: Block { stmts: leaves(3) } };
    assert_eq!(unsafe_things_of_implitem(&plain, false), 0);
    assert_eq!(unsafe_things_of_implitem(&plain, true), 2);
    assert_eq!(unsafe_things_of_implitem(&elevated, false), 3);
    let item = Item::Impl { elevated: false, items: vec![plain, elevated] };
    assert_eq!(unsafe_things_of_item(&item, false), 3);
}

#[test]
fn modules_neither_escalate_nor_reset() {
    let inner = Item::Fn { elevated: true, body: Block { stmts: leaves(2) } };
    let plain = Item::Fn { elevated: false, body: Block { stmts: leaves(4) } };
    let module = Item::Mod { content: Some(vec![inner, plain, Item::Struct]) };
    assert_eq!(unsafe_things_of_item(&module, false), 2);
    assert_eq!(unsafe_things_of_item(&module, true), 6);
    assert_eq!(unsafe_things_of_item(&Item::Mod { content: None }, true), 0);
}

#[test]
fn opaque_declarations_contribute_nothing() {
    for item in [Item::Use, Item::Struct, Item::Trait, Item::Macro, Item::ForeignMod] {
        assert_eq!(unsafe_things_of_item(&item, true), 0);
        assert!(matches!(item.classify(), NodeClass::Opaque));
    }
}

#[test]
fn policy_table_of_expressions() {
    assert!(matches!(Expr::Call.classify(), NodeClass::Leaf));
    assert!(matches!(Expr::Match.classify(), NodeClass::Leaf));
    assert!(matches!(Expr::Unsafe(Block { stmts: vec![] }).classify(), NodeClass::EscalatingScope));
    assert!(matches!(Expr::Block(Block { stmts: vec![] }).classify(), NodeClass::PlainScope));
    assert!(matches!(Stmt::Local.classify(), NodeClass::Leaf));
}

#[test]
fn counting_twice_gives_the_same_count() {
    let file = SourceFile {
        items: vec![Item::Fn {
            elevated: true,
            body: Block { stmts: leaves(7) },
        }],
    };
    assert_eq!(unsafe_lines_of_file(&file), unsafe_lines_of_file(&file));
    assert_eq!(unsafe_lines_of_file(&file), 7);
}

#[test]
fn wrapping_in_plain_scopes_keeps_the_contribution() {
    let bare = Block { stmts: leaves(3) };
    let wrapped = Expr::Block(Block {
        stmts: vec![Stmt::Expr(Expr::Loop {
            body: Block { stmts: vec![Stmt::Expr(Expr::Block(Block { stmts: leaves(3) }))] },
        })],
    });
    for flag in [false, true] {
        assert_eq!(
            unsafe_things_of_expression(&wrapped, flag),
            unsafe_things_of_block(&bare, flag)
        );
    }
}
