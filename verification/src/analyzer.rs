//! The trust-region analyzer: a depth-first walk of a syntax tree that counts
//! the leaf constructs lying inside trust-escalated regions.
//!
//! Escalation is threaded through the walk as a flag. A scope hands the flag
//! it inherited to its children, an escalating scope hands them `true`, and
//! nothing ever lowers it.

use vstd::prelude::*;
use crate::syntax::{Block, Expr, ImplItem, Item, NodeClass, SourceFile, Stmt};

verus! {

/// What a single leaf construct contributes: one inside an escalated region,
/// nothing outside.
pub open spec fn leaf_contribution(escalated: bool) -> nat {
    if escalated {
        1
    } else {
        0
    }
}

/// The flag that a form of the given class hands to what it encloses.
pub open spec fn inner_flag(class: NodeClass, inherited: bool) -> bool {
    inherited || class == NodeClass::EscalatingScope
}

/// A count as the machine reports it: exact up to `usize::MAX`, pinned there
/// above it.
pub open spec fn saturated(n: nat) -> usize {
    if n <= usize::MAX {
        n as usize
    } else {
        usize::MAX
    }
}

/// The contribution of an expression under the inherited flag.
pub open spec fn expr_count(e: Expr, escalated: bool) -> nat
    decreases e, 1nat,
{
    match e.class() {
        NodeClass::Leaf => leaf_contribution(escalated),
        NodeClass::Opaque => 0,
        _ => expr_inner(e, inner_flag(e.class(), escalated)),
    }
}

/// The sum of the contributions of what a scope-introducing expression
/// encloses, each under the flag `inner`.
pub open spec fn expr_inner(e: Expr, inner: bool) -> nat
    decreases e, 0nat,
{
    match e {
        Expr::Boxed(x) => expr_count(*x, inner),
        Expr::InPlace(place, value) => expr_count(*place, inner) + expr_count(*value, inner),
        Expr::If { cond, then_branch, else_branch } => expr_count(*cond, inner) + block_count(
            then_branch,
            inner,
        ) + match else_branch {
            Some(other) => expr_count(*other, inner),
            None => 0,
        },
        Expr::While { cond, body } => expr_count(*cond, inner) + block_count(body, inner),
        Expr::ForLoop { iterable, body } => expr_count(*iterable, inner) + block_count(
            body,
            inner,
        ),
        Expr::Loop { body } => block_count(body, inner),
        Expr::Closure { body } => expr_count(*body, inner),
        Expr::Unsafe(block) => block_count(block, inner),
        Expr::Block(block) => block_count(block, inner),
        _ => 0,
    }
}

/// The contribution of a block: the sum over its statements.
pub open spec fn block_count(b: Block, escalated: bool) -> nat
    decreases b,
{
    stmts_count(b.stmts@, escalated)
}

/// The sum of the contributions of a sequence of statements.
pub open spec fn stmts_count(s: Seq<Stmt>, escalated: bool) -> nat
    decreases s,
{
    if s.len() == 0 {
        0
    } else {
        stmts_count(s.drop_last(), escalated) + stmt_count(s.last(), escalated)
    }
}

/// The contribution of a statement under the inherited flag.
pub open spec fn stmt_count(s: Stmt, escalated: bool) -> nat
    decreases s,
{
    match s {
        Stmt::Local => leaf_contribution(escalated),
        Stmt::Item(item) => item_count(item, escalated),
        Stmt::Expr(e) => expr_count(e, escalated),
        Stmt::Semi(e) => expr_count(e, escalated),
    }
}

/// The contribution of a member of an implementation block.
pub open spec fn impl_item_count(m: ImplItem, escalated: bool) -> nat
    decreases m,
{
    match m {
        ImplItem::Method { elevated, body } => block_count(body, inner_flag(m.class(), escalated)),
        _ => 0,
    }
}

/// The sum of the contributions of the members of an implementation block.
pub open spec fn impl_items_count(s: Seq<ImplItem>, escalated: bool) -> nat
    decreases s,
{
    if s.len() == 0 {
        0
    } else {
        impl_items_count(s.drop_last(), escalated) + impl_item_count(s.last(), escalated)
    }
}

/// The contribution of a declaration under the inherited flag.
pub open spec fn item_count(i: Item, escalated: bool) -> nat
    decreases i,
{
    match i {
        Item::Fn { elevated, body } => block_count(body, inner_flag(i.class(), escalated)),
        Item::Mod { content } => match content {
            Some(items) => items_count(items@, escalated),
            None => 0,
        },
        Item::Impl { elevated, items } => impl_items_count(
            items@,
            inner_flag(i.class(), escalated),
        ),
        _ => 0,
    }
}

/// The sum of the contributions of a sequence of declarations.
pub open spec fn items_count(s: Seq<Item>, escalated: bool) -> nat
    decreases s,
{
    if s.len() == 0 {
        0
    } else {
        items_count(s.drop_last(), escalated) + item_count(s.last(), escalated)
    }
}

/// The exposure of a source file: its declarations, none of them escalated
/// from outside.
pub open spec fn file_count(f: SourceFile) -> nat {
    items_count(f.items@, false)
}

/// Contribution of one leaf construct under the inherited escalation flag.
pub fn count_if_in(in_unsafe_block: bool) -> (n: usize)
    ensures
        n == leaf_contribution(in_unsafe_block),
{
    if in_unsafe_block {
        1
    } else {
        0
    }
}

/// Counts the escalated leaf constructs of a block.
pub fn unsafe_things_of_block(block: &Block, in_unsafe_block: bool) -> (n: usize)
    ensures
        n == saturated(block_count(*block, in_unsafe_block)),
    decreases block,
{
    let mut total: usize = 0;
    let mut i: usize = 0;
    while i < block.stmts.len()
        invariant
            i <= block.stmts.len(),
            total == saturated(stmts_count(block.stmts@.take(i as int), in_unsafe_block)),
        decreases block.stmts.len() - i,
    {
        let n = unsafe_things_of_statement(&block.stmts[i], in_unsafe_block);
        proof {
            let next = block.stmts@.take(i + 1);
            assert(next.drop_last() == block.stmts@.take(i as int));
            assert(next.last() == block.stmts@[i as int]);
        }
        total = total.saturating_add(n);
        i += 1;
    }
    proof {
        assert(block.stmts@.take(i as int) == block.stmts@);
    }
    total
}

/// Counts the escalated leaf constructs of an expression.
pub fn unsafe_things_of_expression(expr: &Expr, in_unsafe_block: bool) -> (n: usize)
    ensures
        n == saturated(expr_count(*expr, in_unsafe_block)),
    decreases expr,
{
    match expr.classify() {
        NodeClass::Leaf => count_if_in(in_unsafe_block),
        NodeClass::Opaque => 0,
        NodeClass::PlainScope | NodeClass::EscalatingScope => {
            let inner = in_unsafe_block || matches!(expr, Expr::Unsafe(_));
            match expr {
                Expr::Boxed(x) => unsafe_things_of_expression(x, inner),
                Expr::InPlace(place, value) => {
                    let left = unsafe_things_of_expression(place, inner);
                    let right = unsafe_things_of_expression(value, inner);
                    left.saturating_add(right)
                },
                Expr::If { cond, then_branch, else_branch } => {
                    let cond_result = unsafe_things_of_expression(cond, inner);
                    let then_result = unsafe_things_of_block(then_branch, inner);
                    match else_branch {
                        Some(other) => {
                            let else_result = unsafe_things_of_expression(other, inner);
                            cond_result.saturating_add(then_result).saturating_add(else_result)
                        },
                        None => cond_result.saturating_add(then_result),
                    }
                },
                Expr::While { cond, body } => {
                    let cond_result = unsafe_things_of_expression(cond, inner);
                    let body_result = unsafe_things_of_block(body, inner);
                    cond_result.saturating_add(body_result)
                },
                Expr::ForLoop { iterable, body } => {
                    let iterable_result = unsafe_things_of_expression(iterable, inner);
                    let body_result = unsafe_things_of_block(body, inner);
                    iterable_result.saturating_add(body_result)
                },
                Expr::Loop { body } => unsafe_things_of_block(body, inner),
                Expr::Closure { body } => unsafe_things_of_expression(body, inner),
                Expr::Unsafe(block) => unsafe_things_of_block(block, inner),
                Expr::Block(block) => unsafe_things_of_block(block, inner),
                _ => 0,
            }
        },
    }
}

/// Counts the escalated leaf constructs of a statement.
pub fn unsafe_things_of_statement(item: &Stmt, in_unsafe_block: bool) -> (n: usize)
    ensures
        n == saturated(stmt_count(*item, in_unsafe_block)),
    decreases item,
{
    match item {
        Stmt::Local => count_if_in(in_unsafe_block),
        Stmt::Expr(e) => unsafe_things_of_expression(e, in_unsafe_block),
        Stmt::Semi(e) => unsafe_things_of_expression(e, in_unsafe_block),
        Stmt::Item(declaration) => unsafe_things_of_item(declaration, in_unsafe_block),
    }
}

/// Counts the escalated leaf constructs of a member of an implementation block.
pub fn unsafe_things_of_implitem(item: &ImplItem, in_unsafe_block: bool) -> (n: usize)
    ensures
        n == saturated(impl_item_count(*item, in_unsafe_block)),
    decreases item,
{
    match item {
        ImplItem::Method { elevated, body } => unsafe_things_of_block(
            body,
            in_unsafe_block || *elevated,
        ),
        ImplItem::Const | ImplItem::Type | ImplItem::Existential | ImplItem::Macro
        | ImplItem::Verbatim => 0,
    }
}

/// Counts the escalated leaf constructs of the members of an implementation
/// block.
pub fn unsafe_things_of_implitems(items: &Vec<ImplItem>, in_unsafe_block: bool) -> (n: usize)
    ensures
        n == saturated(impl_items_count(items@, in_unsafe_block)),
    decreases items,
{
    let mut total: usize = 0;
    let mut i: usize = 0;
    while i < items.len()
        invariant
            i <= items.len(),
            total == saturated(impl_items_count(items@.take(i as int), in_unsafe_block)),
        decreases items.len() - i,
    {
        let n = unsafe_things_of_implitem(&items[i], in_unsafe_block);
        proof {
            let next = items@.take(i + 1);
            assert(next.drop_last() == items@.take(i as int));
            assert(next.last() == items@[i as int]);
        }
        total = total.saturating_add(n);
        i += 1;
    }
    proof {
        assert(items@.take(i as int) == items@);
    }
    total
}

/// Counts the escalated leaf constructs of a sequence of declarations.
pub fn unsafe_things_of_items(items: &Vec<Item>, in_unsafe_block: bool) -> (n: usize)
    ensures
        n == saturated(items_count(items@, in_unsafe_block)),
    decreases items,
{
    let mut total: usize = 0;
    let mut i: usize = 0;
    while i < items.len()
        invariant
            i <= items.len(),
            total == saturated(items_count(items@.take(i as int), in_unsafe_block)),
        decreases items.len() - i,
    {
        let n = unsafe_things_of_item(&items[i], in_unsafe_block);
        proof {
            let next = items@.take(i + 1);
            assert(next.drop_last() == items@.take(i as int));
            assert(next.last() == items@[i as int]);
        }
        total = total.saturating_add(n);
        i += 1;
    }
    proof {
        assert(items@.take(i as int) == items@);
    }
    total
}

/// Counts the escalated leaf constructs of a declaration and of everything
/// nested in it.
pub fn unsafe_things_of_item(item: &Item, in_unsafe_block: bool) -> (n: usize)
    ensures
        n == saturated(item_count(*item, in_unsafe_block)),
    decreases item,
{
    match item {
        Item::Fn { elevated, body } => unsafe_things_of_block(body, in_unsafe_block || *elevated),
        Item::Mod { content } => match content {
            Some(items) => unsafe_things_of_items(items, in_unsafe_block),
            None => 0,
        },
        Item::Impl { elevated, items } => unsafe_things_of_implitems(
            items,
            in_unsafe_block || *elevated,
        ),
        Item::ExternCrate | Item::Use | Item::Static | Item::Const | Item::ForeignMod
        | Item::Type | Item::Existential | Item::Struct | Item::Enum | Item::Union | Item::Trait
        | Item::TraitAlias | Item::Macro | Item::Macro2 | Item::Verbatim => 0,
    }
}

/// Counts the escalated leaf constructs of a source file.
pub fn unsafe_lines_of_file(file: &SourceFile) -> (n: usize)
    ensures
        n == saturated(file_count(*file)),
{
    unsafe_things_of_items(&file.items, false)
}

} // verus!
