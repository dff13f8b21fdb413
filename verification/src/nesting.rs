//! Laws of the trust-region count under nesting.

use vstd::prelude::*;
use crate::analyzer::{
    block_count, expr_count, expr_inner, impl_item_count, impl_items_count, inner_flag,
    item_count, items_count, leaf_contribution, stmt_count, stmts_count,
};
use crate::syntax::{Block, Expr, ImplItem, Item, NodeClass, Stmt};

verus! {

/// Whether every statement of the sequence is a single leaf construct.
pub open spec fn all_leaves(s: Seq<Stmt>) -> bool {
    forall|i: int| 0 <= i < s.len() ==> (#[trigger] s[i]).class() == NodeClass::Leaf
}

/// Escalation only ever adds to the contribution of an expression.
pub proof fn law_expr_monotone(e: Expr)
    ensures
        expr_count(e, false) <= expr_count(e, true),
    decreases e, 1nat,
{
    if e.class() == NodeClass::PlainScope {
        law_expr_inner_monotone(e);
    }
}

proof fn law_expr_inner_monotone(e: Expr)
    ensures
        expr_inner(e, false) <= expr_inner(e, true),
    decreases e, 0nat,
{
    match e {
        Expr::Boxed(x) => {
            law_expr_monotone(*x);
        },
        Expr::InPlace(place, value) => {
            law_expr_monotone(*place);
            law_expr_monotone(*value);
        },
        Expr::If { cond, then_branch, else_branch } => {
            law_expr_monotone(*cond);
            law_block_monotone(then_branch);
            match else_branch {
                Some(other) => {
                    law_expr_monotone(*other);
                },
                None => {},
            }
        },
        Expr::While { cond, body } => {
            law_expr_monotone(*cond);
            law_block_monotone(body);
        },
        Expr::ForLoop { iterable, body } => {
            law_expr_monotone(*iterable);
            law_block_monotone(body);
        },
        Expr::Loop { body } => {
            law_block_monotone(body);
        },
        Expr::Closure { body } => {
            law_expr_monotone(*body);
        },
        Expr::Unsafe(block) => {
            law_block_monotone(block);
        },
        Expr::Block(block) => {
            law_block_monotone(block);
        },
        _ => {},
    }
}

/// Escalation only ever adds to the contribution of a block.
pub proof fn law_block_monotone(b: Block)
    ensures
        block_count(b, false) <= block_count(b, true),
    decreases b,
{
    law_stmts_monotone(b.stmts@);
}

/// Escalation only ever adds to the contribution of a sequence of statements.
pub proof fn law_stmts_monotone(s: Seq<Stmt>)
    ensures
        stmts_count(s, false) <= stmts_count(s, true),
    decreases s,
{
    if s.len() > 0 {
        law_stmts_monotone(s.drop_last());
        law_stmt_monotone(s.last());
    }
}

/// Escalation only ever adds to the contribution of a statement.
pub proof fn law_stmt_monotone(s: Stmt)
    ensures
        stmt_count(s, false) <= stmt_count(s, true),
    decreases s,
{
    match s {
        Stmt::Local => {},
        Stmt::Item(item) => {
            law_item_monotone(item);
        },
        Stmt::Expr(e) => {
            law_expr_monotone(e);
        },
        Stmt::Semi(e) => {
            law_expr_monotone(e);
        },
    }
}

/// Escalation only ever adds to the contribution of a member of an
/// implementation block.
pub proof fn law_impl_item_monotone(m: ImplItem)
    ensures
        impl_item_count(m, false) <= impl_item_count(m, true),
    decreases m,
{
    match m {
        ImplItem::Method { elevated, body } => {
            law_block_monotone(body);
        },
        _ => {},
    }
}

/// Escalation only ever adds to the contribution of the members of an
/// implementation block.
pub proof fn law_impl_items_monotone(s: Seq<ImplItem>)
    ensures
        impl_items_count(s, false) <= impl_items_count(s, true),
    decreases s,
{
    if s.len() > 0 {
        law_impl_items_monotone(s.drop_last());
        law_impl_item_monotone(s.last());
    }
}

/// Escalation only ever adds to the contribution of a declaration.
pub proof fn law_item_monotone(i: Item)
    ensures
        item_count(i, false) <= item_count(i, true),
    decreases i,
{
    match i {
        Item::Fn { elevated, body } => {
            law_block_monotone(body);
        },
        Item::Mod { content } => {
            match content {
                Some(items) => {
                    law_items_monotone(items@);
                },
                None => {},
            }
        },
        Item::Impl { elevated, items } => {
            law_impl_items_monotone(items@);
        },
        _ => {},
    }
}

/// Escalation only ever adds to the contribution of a sequence of
/// declarations.
pub proof fn law_items_monotone(s: Seq<Item>)
    ensures
        items_count(s, false) <= items_count(s, true),
    decreases s,
{
    if s.len() > 0 {
        law_items_monotone(s.drop_last());
        law_item_monotone(s.last());
    }
}

/// A block that holds one statement contributes what the statement does.
pub proof fn law_single_statement_block(b: Block, s: Stmt, escalated: bool)
    requires
        b.stmts@ == seq![s],
    ensures
        block_count(b, escalated) == stmt_count(s, escalated),
{
    assert(b.stmts@.drop_last() == Seq::<Stmt>::empty());
    assert(stmts_count(b.stmts@.drop_last(), escalated) == 0);
    assert(b.stmts@.last() == s);
}

/// Wrapping statements in a scope that does not escalate leaves their
/// contribution as it was, under either flag: a plain block and a `loop` add
/// nothing, a conditional and a `while` add only what their condition
/// contributes, a `for` only what the iterated expression contributes, and a
/// closure and an unmarked function nothing.
pub proof fn law_plain_scope_keeps_contribution(b: Block, cond: Expr, escalated: bool)
    ensures
        expr_count(Expr::Block(b), escalated) == block_count(b, escalated),
        expr_count(Expr::Loop { body: b }, escalated) == block_count(b, escalated),
        expr_count(Expr::If { cond: Box::new(cond), then_branch: b, else_branch: None }, escalated)
            == expr_count(cond, escalated) + block_count(b, escalated),
        expr_count(Expr::While { cond: Box::new(cond), body: b }, escalated) == expr_count(
            cond,
            escalated,
        ) + block_count(b, escalated),
        expr_count(Expr::ForLoop { iterable: Box::new(cond), body: b }, escalated) == expr_count(
            cond,
            escalated,
        ) + block_count(b, escalated),
        expr_count(Expr::Closure { body: Box::new(Expr::Block(b)) }, escalated) == block_count(
            b,
            escalated,
        ),
        item_count(Item::Fn { elevated: false, body: b }, escalated) == block_count(b, escalated),
{
    let wrapped = Expr::Block(b);
    assert(expr_count(wrapped, escalated) == expr_inner(wrapped, escalated));
    let looped = Expr::Loop { body: b };
    assert(expr_count(looped, escalated) == expr_inner(looped, escalated));
    let branch = Expr::If { cond: Box::new(cond), then_branch: b, else_branch: None };
    assert(expr_count(branch, escalated) == expr_inner(branch, escalated));
    let repeated = Expr::While { cond: Box::new(cond), body: b };
    assert(expr_count(repeated, escalated) == expr_inner(repeated, escalated));
    let iterated = Expr::ForLoop { iterable: Box::new(cond), body: b };
    assert(expr_count(iterated, escalated) == expr_inner(iterated, escalated));
    let closure = Expr::Closure { body: Box::new(wrapped) };
    assert(expr_count(closure, escalated) == expr_inner(closure, escalated));
}

/// An elevated block, an elevated function and an elevated method count their
/// contents as escalated, whatever flag they inherit.
pub proof fn law_elevated_scope_escalates(b: Block, inherited: bool)
    ensures
        expr_count(Expr::Unsafe(b), inherited) == block_count(b, true),
        item_count(Item::Fn { elevated: true, body: b }, inherited) == block_count(b, true),
        impl_item_count(ImplItem::Method { elevated: true, body: b }, inherited) == block_count(
            b,
            true,
        ),
{
    let elevated = Expr::Unsafe(b);
    assert(expr_count(elevated, inherited) == expr_inner(elevated, true));
}

/// Every member of an elevated implementation block is counted as escalated,
/// whatever flag the block inherits.
pub proof fn law_elevated_impl_escalates(members: Vec<ImplItem>, inherited: bool)
    ensures
        item_count(Item::Impl { elevated: true, items: members }, inherited) == impl_items_count(
            members@,
            true,
        ),
{
}

/// A sequence of leaf statements contributes nothing outside an escalated
/// region and one unit per statement inside.
pub proof fn law_leaves_counted_once(s: Seq<Stmt>, escalated: bool)
    requires
        all_leaves(s),
    ensures
        stmts_count(s, escalated) == if escalated {
            s.len()
        } else {
            0
        },
    decreases s.len(),
{
    if s.len() > 0 {
        let front = s.drop_last();
        assert forall|i: int| 0 <= i < front.len() implies (#[trigger] front[i]).class()
            == NodeClass::Leaf by {
            assert(front[i] == s[i]);
        }
        law_leaves_counted_once(front, escalated);
        law_leaf_statement(s.last(), escalated);
    }
}

/// A leaf statement contributes one unit where escalation is inherited and
/// nothing elsewhere.
pub proof fn law_leaf_statement(s: Stmt, escalated: bool)
    requires
        s.class() == NodeClass::Leaf,
    ensures
        stmt_count(s, escalated) == leaf_contribution(escalated),
{
}

/// Wrapping leaf statements that are not escalated into an elevated block or
/// an elevated function raises the total by exactly their number.
pub proof fn law_elevation_adds_the_leaves(b: Block)
    requires
        all_leaves(b.stmts@),
    ensures
        block_count(b, false) == 0,
        expr_count(Expr::Unsafe(b), false) == b.stmts@.len(),
        item_count(Item::Fn { elevated: true, body: b }, false) == b.stmts@.len(),
        impl_item_count(ImplItem::Method { elevated: true, body: b }, false) == b.stmts@.len(),
{
    law_leaves_counted_once(b.stmts@, false);
    law_leaves_counted_once(b.stmts@, true);
    law_elevated_scope_escalates(b, false);
}

} // verus!
