//! The syntax tree that the trust-region analyzer walks.
//!
//! The tree is a closed sum type. It keeps, of every syntactic form, only what
//! the analyzer reads: the nested scopes and whether a declaration is
//! explicitly marked as elevated. Forms that count as a single leaf carry no
//! children.

use vstd::prelude::*;

verus! {

/// A braced sequence of statements.
#[derive(Debug)]
pub struct Block {
    pub stmts: Vec<Stmt>,
}

/// A statement inside a block.
#[derive(Debug)]
pub enum Stmt {
    /// A `let` binding.
    Local,
    /// A declaration in statement position.
    Item(Item),
    /// An expression without a trailing semicolon.
    Expr(Expr),
    /// An expression with a trailing semicolon.
    Semi(Expr),
}

/// An expression.
#[derive(Debug)]
#[allow(inconsistent_fields)]
pub enum Expr {
    /// A boxed expression; it stands for the expression it wraps.
    Boxed(Box<Expr>),
    /// A placement expression: the place and the value.
    InPlace(Box<Expr>, Box<Expr>),
    Array,
    Call,
    MethodCall,
    Tuple,
    Binary,
    Unary,
    Lit,
    Cast,
    Type,
    Let,
    /// A conditional: the condition, the taken branch, and what follows `else`.
    If { cond: Box<Expr>, then_branch: Block, else_branch: Option<Box<Expr>> },
    /// A `while` loop: the condition and the body.
    While { cond: Box<Expr>, body: Block },
    /// A `for` loop: the iterated expression and the body.
    ForLoop { iterable: Box<Expr>, body: Block },
    /// A `loop` without a condition.
    Loop { body: Block },
    Match,
    /// A closure and its body.
    Closure { body: Box<Expr> },
    /// An explicit elevated-trust block.
    Unsafe(Block),
    /// A plain block in expression position.
    Block(Block),
    Assign,
    AssignOp,
    Field,
    Index,
    Range,
    Path,
    Reference,
    Break,
    Continue,
    Return,
    Macro,
    Struct,
    Repeat,
    Paren,
    Group,
    Try,
    Async,
    TryBlock,
    Yield,
    Verbatim,
}

/// A member of an implementation block.
#[derive(Debug)]
#[allow(inconsistent_fields)]
pub enum ImplItem {
    Const,
    /// A method; `elevated` says that the method itself is marked elevated.
    Method { elevated: bool, body: Block },
    Type,
    Existential,
    Macro,
    Verbatim,
}

/// A declaration.
#[derive(Debug)]
#[allow(inconsistent_fields)]
pub enum Item {
    ExternCrate,
    Use,
    Static,
    Const,
    /// A function; `elevated` says that it is marked elevated.
    Fn { elevated: bool, body: Block },
    /// A module; `content` is absent where the module's body lies in another file.
    Mod { content: Option<Vec<Item>> },
    ForeignMod,
    Type,
    Existential,
    Struct,
    Enum,
    Union,
    Trait,
    TraitAlias,
    /// An implementation block; `elevated` says that the block is marked elevated.
    Impl { elevated: bool, items: Vec<ImplItem> },
    Macro,
    Macro2,
    Verbatim,
}

/// A parsed source file: its top-level declarations.
#[derive(Debug)]
pub struct SourceFile {
    pub items: Vec<Item>,
}

/// The role a syntactic form plays in the traversal.
#[derive(Clone, Copy, Debug, PartialEq, Eq, Structural)]
pub enum NodeClass {
    /// Introduces a scope and hands the inherited escalation on unchanged.
    PlainScope,
    /// Introduces a scope whose contents are always escalated.
    EscalatingScope,
    /// Counts as one unit where escalation is inherited.
    Leaf,
    /// Contributes nothing and is not looked into.
    Opaque,
}

impl Expr {
    /// The policy table of expression forms.
    pub open spec fn class(self) -> NodeClass {
        match self {
            Expr::Boxed(_) | Expr::InPlace(_, _) | Expr::If { .. } | Expr::While { .. }
            | Expr::ForLoop { .. } | Expr::Loop { .. } | Expr::Closure { .. } | Expr::Block(
                _,
            ) => NodeClass::PlainScope,
            Expr::Unsafe(_) => NodeClass::EscalatingScope,
            _ => NodeClass::Leaf,
        }
    }

    /// Classifies an expression form.
    pub fn classify(&self) -> (c: NodeClass)
        ensures
            c == self.class(),
    {
        match self {
            Expr::Boxed(_) | Expr::InPlace(_, _) | Expr::If { .. } | Expr::While { .. }
            | Expr::ForLoop { .. } | Expr::Loop { .. } | Expr::Closure { .. } | Expr::Block(
                _,
            ) => NodeClass::PlainScope,
            Expr::Unsafe(_) => NodeClass::EscalatingScope,
            Expr::Array | Expr::Call | Expr::MethodCall | Expr::Tuple | Expr::Binary
            | Expr::Unary | Expr::Lit | Expr::Cast | Expr::Type | Expr::Let | Expr::Match
            | Expr::Assign | Expr::AssignOp | Expr::Field | Expr::Index | Expr::Range
            | Expr::Path | Expr::Reference | Expr::Break | Expr::Continue | Expr::Return
            | Expr::Macro | Expr::Struct | Expr::Repeat | Expr::Paren | Expr::Group | Expr::Try
            | Expr::Async | Expr::TryBlock | Expr::Yield | Expr::Verbatim => NodeClass::Leaf,
        }
    }
}

impl Stmt {
    /// The policy table of statement forms.
    pub open spec fn class(self) -> NodeClass {
        match self {
            Stmt::Local => NodeClass::Leaf,
            Stmt::Item(item) => item.class(),
            Stmt::Expr(e) | Stmt::Semi(e) => e.class(),
        }
    }

    /// Classifies a statement form.
    pub fn classify(&self) -> (c: NodeClass)
        ensures
            c == self.class(),
    {
        match self {
            Stmt::Local => NodeClass::Leaf,
            Stmt::Item(item) => item.classify(),
            Stmt::Expr(e) => e.classify(),
            Stmt::Semi(e) => e.classify(),
        }
    }
}

impl ImplItem {
    /// The policy table of the members of an implementation block.
    pub open spec fn class(self) -> NodeClass {
        match self {
            ImplItem::Method { elevated, .. } => if elevated {
                NodeClass::EscalatingScope
            } else {
                NodeClass::PlainScope
            },
            _ => NodeClass::Opaque,
        }
    }

    /// Classifies a member of an implementation block.
    pub fn classify(&self) -> (c: NodeClass)
        ensures
            c == self.class(),
    {
        match self {
            ImplItem::Method { elevated, .. } => if *elevated {
                NodeClass::EscalatingScope
            } else {
                NodeClass::PlainScope
            },
            ImplItem::Const | ImplItem::Type | ImplItem::Existential | ImplItem::Macro
            | ImplItem::Verbatim => NodeClass::Opaque,
        }
    }
}

impl Item {
    /// The policy table of declarations.
    pub open spec fn class(self) -> NodeClass {
        match self {
            Item::Fn { elevated, .. } | Item::Impl { elevated, .. } => if elevated {
                NodeClass::EscalatingScope
            } else {
                NodeClass::PlainScope
            },
            Item::Mod { .. } => NodeClass::PlainScope,
            _ => NodeClass::Opaque,
        }
    }

    /// Classifies a declaration.
    pub fn classify(&self) -> (c: NodeClass)
        ensures
            c == self.class(),
    {
        match self {
            Item::Fn { elevated, .. } => if *elevated {
                NodeClass::EscalatingScope
            } else {
                NodeClass::PlainScope
            },
            Item::Impl { elevated, .. } => if *elevated {
                NodeClass::EscalatingScope
            } else {
                NodeClass::PlainScope
            },
            Item::Mod { .. } => NodeClass::PlainScope,
            Item::ExternCrate | Item::Use | Item::Static | Item::Const | Item::ForeignMod
            | Item::Type | Item::Existential | Item::Struct | Item::Enum | Item::Union
            | Item::Trait | Item::TraitAlias | Item::Macro | Item::Macro2
            | Item::Verbatim => NodeClass::Opaque,
        }
    }
}

} // verus!
