//! The walk of a chunk that fires the visitor events of a lint plugin.
//!
//! The walk is pre-order: a node's events fire before the walk enters its
//! children.  Scopes (the chunk, branches, loops, `do` blocks, function
//! bodies) are pushed on the ancestor stack before their bodies are
//! walked and popped after, so that a handler can ask for its nearest
//! enclosing scope of a kind.
//!
//! The walk is computed here as the list of things to do, in order: fire
//! an event on a node, push a scope, pop it.  The interpreter performs
//! them (calling the plugin's handlers) against the nodes the ids name.
use vstd::prelude::*;
use crate::error::{LibError, is_runtime, runtime_error};
use crate::io_lib::{lossy_text, utf8_lossy};
use crate::regex_lib::utf8_error_at;
use vstd::utf8::valid_utf8;

verus! {

/// An expression of the lint IR: the interpreter's handle on the node,
/// and its kind.
#[derive(Debug)]
pub struct Expr {
    pub id: usize,
    pub kind: ExprKind,
}

/// The kinds of expression, with what the walk reads of them.  A call
/// carries the handle of its call node (the event payload).
#[derive(Debug)]
pub enum ExprKind {
    MethodCall { call: usize, receiver: Box<Expr>, args: Vec<Expr> },
    FunctionCall { call: usize, callee: Box<Expr>, args: Vec<Expr> },
    Name { name: Vec<u8>, is_global: bool },
    StringLiteral,
    NumberLiteral,
    /// An interpolated string, by its embedded expressions.
    InterpString { exprs: Vec<Expr> },
    BinOp { lhs: Box<Expr>, rhs: Box<Expr> },
    UnOp { operand: Box<Expr> },
    TableConstructor { entries: Vec<TableEntry> },
    FunctionExpr { body: Block },
    Index { target: Box<Expr>, key: Box<Expr> },
    Field { target: Box<Expr> },
    IfExpression { branches: Vec<ExprBranch>, else_expr: Box<Expr> },
    TypeAssertion { expr: Box<Expr> },
    /// `true`, `false`, `nil`, `...`: no event, no children.
    Leaf,
}

/// An entry of a table constructor: a computed key (`[k] = v`) or none.
#[derive(Debug)]
pub struct TableEntry {
    pub key: Option<Expr>,
    pub value: Expr,
}

/// A branch of an `if` expression.
#[derive(Debug)]
pub struct ExprBranch {
    pub cond: Expr,
    pub value: Expr,
}

/// A block of statements.
#[derive(Debug)]
pub struct Block {
    pub stmts: Vec<Stmt>,
}

/// A statement: its handle, whether it carries a `---` doc comment, and
/// its kind.
#[derive(Debug)]
pub struct Stmt {
    pub id: usize,
    pub has_doc: bool,
    pub kind: StmtKind,
}

/// A branch of an `if` statement.
#[derive(Debug)]
pub struct StmtBranch {
    pub cond: Expr,
    pub block: Block,
}

/// The kinds of statement, with what the walk reads of them.  An
/// assignment carries the handle of its assignment node (the event
/// payload); a `const` function is a `LocalFunction`.
#[derive(Debug)]
pub enum StmtKind {
    Assign { assign: usize, targets: Vec<Expr>, values: Vec<Expr> },
    LocalAssign { values: Vec<Expr> },
    CompoundAssign { target: Box<Expr>, value: Box<Expr> },
    ConstAssign { value: Box<Expr> },
    ExprStatement { expr: Box<Expr> },
    If { branches: Vec<StmtBranch>, else_block: Option<Block> },
    While { cond: Box<Expr>, block: Block },
    Repeat { block: Block, cond: Box<Expr> },
    NumericFor { start: Box<Expr>, stop: Box<Expr>, step: Option<Box<Expr>>, block: Block },
    GenericFor { exprs: Vec<Expr>, block: Block },
    DoBlock { block: Block },
    Return { values: Vec<Expr> },
    LocalFunction { body: Block },
    FunctionDecl { body: Block },
    GlobalDecl,
    Break,
    Continue,
    Goto,
    Label,
    TypeAlias,
}

/// A chunk: its handle and its block.
#[derive(Debug)]
pub struct Chunk {
    pub id: usize,
    pub block: Block,
}

/// The visitor events.
#[derive(Debug, Clone, Copy, PartialEq, Eq, Structural)]
pub enum Event {
    ChunkBegin,
    ChunkEnd,
    Statement,
    Assign,
    LocalAssign,
    ExprStatement,
    If,
    While,
    Repeat,
    NumericFor,
    GenericFor,
    DoBlock,
    Return,
    LocalFunction,
    FunctionDecl,
    GlobalDecl,
    Break,
    Continue,
    Goto,
    Label,
    MethodCall,
    FunctionCall,
    Require,
    Name,
    GlobalRead,
    GlobalWrite,
    StringLiteral,
    NumberLiteral,
    InterpString,
    BinOp,
    UnOp,
    TableConstructor,
    FunctionExpr,
}

/// The kinds of scope a handler can ask for.
#[derive(Debug, Clone, Copy, PartialEq, Eq, Structural)]
pub enum AncestorKind {
    Function,
    Loop,
    Branch,
    Chunk,
    DoBlock,
}

/// One thing the walk does: fire an event on a node (with the statement
/// whose doc comment the payload carries, if any), or push or pop a scope
/// (pushed with the node whose span it has).
#[derive(Debug, Clone, Copy, PartialEq, Eq, Structural)]
pub enum Action {
    Fire { event: Event, node: usize, doc: Option<usize> },
    Push { kind: AncestorKind, node: usize },
    Pop,
}

/// Fire `event` on `node`, with no doc comment.
pub open spec fn fire(event: Event, node: usize) -> Action {
    Action::Fire { event, node, doc: None }
}

/// The bytes of `require`.
pub open spec fn require_name() -> Seq<u8> {
    seq![114u8, 101u8, 113u8, 117u8, 105u8, 114u8, 101u8]
}

/// A call of the global `require`.
pub open spec fn is_require(callee: Expr) -> bool {
    callee.kind matches ExprKind::Name { name, is_global } && is_global && name@ == require_name()
}

/// The walk of an expression, under the doc comment `doc`.
pub open spec fn expr_actions(e: Expr, doc: Option<usize>) -> Seq<Action>
    decreases e, 0int,
{
    match e.kind {
        ExprKind::MethodCall { call, receiver, args } => seq![
            Action::Fire { event: Event::MethodCall, node: call, doc },
        ] + expr_actions(*receiver, doc) + exprs_actions(args@, doc, 0),
        ExprKind::FunctionCall { call, callee, args } => seq![
            Action::Fire { event: Event::FunctionCall, node: call, doc },
        ] + (if is_require(*callee) {
            seq![Action::Fire { event: Event::Require, node: call, doc }]
        } else {
            Seq::empty()
        }) + expr_actions(*callee, doc) + exprs_actions(args@, doc, 0),
        ExprKind::Name { is_global, .. } => seq![fire(Event::Name, e.id)] + (if is_global {
            seq![fire(Event::GlobalRead, e.id)]
        } else {
            Seq::empty()
        }),
        ExprKind::StringLiteral => seq![fire(Event::StringLiteral, e.id)],
        ExprKind::NumberLiteral => seq![fire(Event::NumberLiteral, e.id)],
        ExprKind::InterpString { exprs } => seq![fire(Event::InterpString, e.id)] + exprs_actions(
            exprs@,
            doc,
            0,
        ),
        ExprKind::BinOp { lhs, rhs } => seq![fire(Event::BinOp, e.id)] + expr_actions(*lhs, doc)
            + expr_actions(*rhs, doc),
        ExprKind::UnOp { operand } => seq![fire(Event::UnOp, e.id)] + expr_actions(*operand, doc),
        ExprKind::TableConstructor { entries } => seq![fire(Event::TableConstructor, e.id)]
            + entries_actions(entries@, doc, 0),
        ExprKind::FunctionExpr { body } => seq![
            fire(Event::FunctionExpr, e.id),
            Action::Push { kind: AncestorKind::Function, node: e.id },
        ] + block_actions(body, doc) + seq![Action::Pop],
        ExprKind::Index { target, key } => expr_actions(*target, doc) + expr_actions(*key, doc),
        ExprKind::Field { target } => expr_actions(*target, doc),
        ExprKind::IfExpression { branches, else_expr } => ebranches_actions(branches@, doc, 0)
            + expr_actions(*else_expr, doc),
        ExprKind::TypeAssertion { expr } => expr_actions(*expr, doc),
        ExprKind::Leaf => Seq::empty(),
    }
}

/// The walk of the expressions of `es` from index `i` on.
pub open spec fn exprs_actions(es: Seq<Expr>, doc: Option<usize>, i: int) -> Seq<Action>
    decreases es, es.len() - i,
{
    if 0 <= i < es.len() {
        expr_actions(es[i], doc) + exprs_actions(es, doc, i + 1)
    } else {
        Seq::empty()
    }
}

/// The walk of the table entries of `es` from index `i` on: the key, if
/// computed, then the value.
pub open spec fn entries_actions(es: Seq<TableEntry>, doc: Option<usize>, i: int) -> Seq<Action>
    decreases es, es.len() - i,
{
    if 0 <= i < es.len() {
        (match es[i].key {
            Some(k) => expr_actions(k, doc),
            None => Seq::empty(),
        }) + expr_actions(es[i].value, doc) + entries_actions(es, doc, i + 1)
    } else {
        Seq::empty()
    }
}

/// The walk of the branches of an `if` expression from index `i` on.
pub open spec fn ebranches_actions(bs: Seq<ExprBranch>, doc: Option<usize>, i: int) -> Seq<Action>
    decreases bs, bs.len() - i,
{
    if 0 <= i < bs.len() {
        expr_actions(bs[i].cond, doc) + expr_actions(bs[i].value, doc) + ebranches_actions(
            bs,
            doc,
            i + 1,
        )
    } else {
        Seq::empty()
    }
}

/// The walk of an assignment target: a global name is written (and
/// named); any other target is walked as an expression.
pub open spec fn target_actions(t: Expr, doc: Option<usize>) -> Seq<Action>
    decreases t, 1int,
{
    if t.kind matches ExprKind::Name { is_global, .. } && is_global {
        seq![fire(Event::GlobalWrite, t.id), fire(Event::Name, t.id)]
    } else {
        expr_actions(t, doc)
    }
}

/// The walk of the assignment targets of `ts` from index `i` on.
pub open spec fn targets_actions(ts: Seq<Expr>, doc: Option<usize>, i: int) -> Seq<Action>
    decreases ts, ts.len() - i,
{
    if 0 <= i < ts.len() {
        target_actions(ts[i], doc) + targets_actions(ts, doc, i + 1)
    } else {
        Seq::empty()
    }
}

/// The walk of a block.
pub open spec fn block_actions(b: Block, doc: Option<usize>) -> Seq<Action>
    decreases b, 0int,
{
    stmts_actions(b.stmts@, doc, 0)
}

/// The walk of the statements of `ss` from index `i` on.
pub open spec fn stmts_actions(ss: Seq<Stmt>, doc: Option<usize>, i: int) -> Seq<Action>
    decreases ss, ss.len() - i,
{
    if 0 <= i < ss.len() {
        stmt_actions(ss[i], doc) + stmts_actions(ss, doc, i + 1)
    } else {
        Seq::empty()
    }
}

/// The walk of the branches of an `if` statement from index `i` on: the
/// condition, then the block as a branch scope.
pub open spec fn sbranches_actions(bs: Seq<StmtBranch>, doc: Option<usize>, i: int) -> Seq<Action>
    decreases bs, bs.len() - i,
{
    if 0 <= i < bs.len() {
        expr_actions(bs[i].cond, doc) + seq![
            Action::Push { kind: AncestorKind::Branch, node: bs[i].cond.id },
        ] + block_actions(bs[i].block, doc) + seq![Action::Pop] + sbranches_actions(bs, doc, i + 1)
    } else {
        Seq::empty()
    }
}

/// A block walked as a scope of `kind` pushed with `node`.
pub open spec fn scoped(kind: AncestorKind, node: usize, body: Seq<Action>) -> Seq<Action> {
    seq![Action::Push { kind, node }] + body + seq![Action::Pop]
}

/// The walk of a statement under the enclosing doc comment: the
/// `statement` event, then its own event and children.  Inside, the doc
/// comment is the statement's own when it has one.
pub open spec fn stmt_actions(s: Stmt, enclosing: Option<usize>) -> Seq<Action>
    decreases s, 0int,
{
    let doc = if s.has_doc {
        Some(s.id)
    } else {
        enclosing
    };
    let own = if s.has_doc {
        Some(s.id)
    } else {
        None
    };
    seq![fire(Event::Statement, s.id)] + match s.kind {
        StmtKind::Assign { assign, targets, values } => seq![
            Action::Fire { event: Event::Assign, node: assign, doc: own },
        ] + targets_actions(targets@, doc, 0) + exprs_actions(values@, doc, 0),
        StmtKind::LocalAssign { values } => seq![fire(Event::LocalAssign, s.id)] + exprs_actions(
            values@,
            doc,
            0,
        ),
        StmtKind::CompoundAssign { target, value } => target_actions(*target, doc) + expr_actions(
            *value,
            doc,
        ),
        StmtKind::ConstAssign { value } => expr_actions(*value, doc),
        StmtKind::ExprStatement { expr } => seq![fire(Event::ExprStatement, s.id)] + expr_actions(
            *expr,
            doc,
        ),
        StmtKind::If { branches, else_block } => seq![fire(Event::If, s.id)] + sbranches_actions(
            branches@,
            doc,
            0,
        ) + match else_block {
            Some(b) => scoped(AncestorKind::Branch, s.id, block_actions(b, doc)),
            None => Seq::empty(),
        },
        StmtKind::While { cond, block } => seq![fire(Event::While, s.id)] + expr_actions(*cond, doc)
            + scoped(AncestorKind::Loop, s.id, block_actions(block, doc)),
        StmtKind::Repeat { block, cond } => seq![fire(Event::Repeat, s.id)] + scoped(
            AncestorKind::Loop,
            s.id,
            block_actions(block, doc),
        ) + expr_actions(*cond, doc),
        StmtKind::NumericFor { start, stop, step, block } => seq![fire(Event::NumericFor, s.id)]
            + expr_actions(*start, doc) + expr_actions(*stop, doc) + match step {
            Some(st) => expr_actions(*st, doc),
            None => Seq::empty(),
        } + scoped(AncestorKind::Loop, s.id, block_actions(block, doc)),
        StmtKind::GenericFor { exprs, block } => seq![fire(Event::GenericFor, s.id)]
            + exprs_actions(exprs@, doc, 0) + scoped(
            AncestorKind::Loop,
            s.id,
            block_actions(block, doc),
        ),
        StmtKind::DoBlock { block } => seq![fire(Event::DoBlock, s.id)] + scoped(
            AncestorKind::DoBlock,
            s.id,
            block_actions(block, doc),
        ),
        StmtKind::Return { values } => seq![fire(Event::Return, s.id)] + exprs_actions(
            values@,
            doc,
            0,
        ),
        StmtKind::LocalFunction { body } => seq![fire(Event::LocalFunction, s.id)] + scoped(
            AncestorKind::Function,
            s.id,
            block_actions(body, doc),
        ),
        StmtKind::FunctionDecl { body } => seq![fire(Event::FunctionDecl, s.id)] + scoped(
            AncestorKind::Function,
            s.id,
            block_actions(body, doc),
        ),
        StmtKind::GlobalDecl => seq![fire(Event::GlobalDecl, s.id)],
        StmtKind::Break => seq![fire(Event::Break, s.id)],
        StmtKind::Continue => seq![fire(Event::Continue, s.id)],
        StmtKind::Goto => seq![fire(Event::Goto, s.id)],
        StmtKind::Label => seq![fire(Event::Label, s.id)],
        StmtKind::TypeAlias => Seq::empty(),
    }
}

/// The walk of a chunk: the chunk as a scope, `chunk_begin`, its block,
/// `chunk_end`.
pub open spec fn chunk_actions(c: Chunk) -> Seq<Action> {
    seq![
        Action::Push { kind: AncestorKind::Chunk, node: c.id },
        fire(Event::ChunkBegin, c.id),
    ] + block_actions(c.block, None) + seq![fire(Event::ChunkEnd, c.id), Action::Pop]
}

fn push_fire(out: &mut Vec<Action>, event: Event, node: usize)
    ensures
        final(out)@ == old(out)@.push(fire(event, node)),
{
    out.push(Action::Fire { event, node, doc: None });
}

fn is_require_call(callee: &Expr) -> (r: bool)
    ensures
        r == is_require(*callee),
{
    match &callee.kind {
        ExprKind::Name { name, is_global } => {
            if !*is_global || name.len() != 7 {
                return false;
            }
            let r = name[0] == 114 && name[1] == 101 && name[2] == 113 && name[3] == 117 && name[4]
                == 105 && name[5] == 114 && name[6] == 101;
            proof {
                if r {
                    assert(name@ =~= require_name());
                } else if name@ == require_name() {
                    assert(name@[0] == 114u8);
                }
            }
            r
        },
        _ => false,
    }
}

/// Walk an expression (see `expr_actions`).
pub fn walk_expr(e: &Expr, doc: Option<usize>, out: &mut Vec<Action>)
    ensures
        final(out)@ == old(out)@ + expr_actions(*e, doc),
    decreases *e, 0int,
{
    let ghost start = out@;
    match &e.kind {
        ExprKind::MethodCall { call, receiver, args } => {
            out.push(Action::Fire { event: Event::MethodCall, node: *call, doc });
            walk_expr(receiver, doc, out);
            walk_exprs(args, doc, 0, out);
        },
        ExprKind::FunctionCall { call, callee, args } => {
            out.push(Action::Fire { event: Event::FunctionCall, node: *call, doc });
            if is_require_call(callee) {
                out.push(Action::Fire { event: Event::Require, node: *call, doc });
            }
            let ghost mid = out@;
            walk_expr(callee, doc, out);
            walk_exprs(args, doc, 0, out);
            proof {
                if is_require(**callee) {
                    assert(mid == start + seq![
                        Action::Fire { event: Event::FunctionCall, node: *call, doc },
                    ] + seq![Action::Fire { event: Event::Require, node: *call, doc }]);
                } else {
                    assert(mid == start + seq![
                        Action::Fire { event: Event::FunctionCall, node: *call, doc },
                    ] + Seq::<Action>::empty());
                }
            }
        },
        ExprKind::Name { is_global, .. } => {
            push_fire(out, Event::Name, e.id);
            if *is_global {
                push_fire(out, Event::GlobalRead, e.id);
            }
        },
        ExprKind::StringLiteral => {
            push_fire(out, Event::StringLiteral, e.id);
        },
        ExprKind::NumberLiteral => {
            push_fire(out, Event::NumberLiteral, e.id);
        },
        ExprKind::InterpString { exprs } => {
            push_fire(out, Event::InterpString, e.id);
            walk_exprs(exprs, doc, 0, out);
        },
        ExprKind::BinOp { lhs, rhs } => {
            push_fire(out, Event::BinOp, e.id);
            walk_expr(lhs, doc, out);
            walk_expr(rhs, doc, out);
        },
        ExprKind::UnOp { operand } => {
            push_fire(out, Event::UnOp, e.id);
            walk_expr(operand, doc, out);
        },
        ExprKind::TableConstructor { entries } => {
            push_fire(out, Event::TableConstructor, e.id);
            walk_entries(entries, doc, 0, out);
        },
        ExprKind::FunctionExpr { body } => {
            push_fire(out, Event::FunctionExpr, e.id);
            out.push(Action::Push { kind: AncestorKind::Function, node: e.id });
            walk_block(body, doc, out);
            out.push(Action::Pop);
        },
        ExprKind::Index { target, key } => {
            walk_expr(target, doc, out);
            walk_expr(key, doc, out);
        },
        ExprKind::Field { target } => {
            walk_expr(target, doc, out);
        },
        ExprKind::IfExpression { branches, else_expr } => {
            walk_ebranches(branches, doc, 0, out);
            walk_expr(else_expr, doc, out);
        },
        ExprKind::TypeAssertion { expr } => {
            walk_expr(expr, doc, out);
        },
        ExprKind::Leaf => {},
    }
    assert(out@ =~= start + expr_actions(*e, doc));
}

/// Walk the expressions of `es` from index `i` on.
pub fn walk_exprs(es: &Vec<Expr>, doc: Option<usize>, i: usize, out: &mut Vec<Action>)
    requires
        i <= es@.len(),
    ensures
        final(out)@ == old(out)@ + exprs_actions(es@, doc, i as int),
    decreases es@, es@.len() - i,
{
    if i < es.len() {
        walk_expr(&es[i], doc, out);
        walk_exprs(es, doc, i + 1, out);
        assert(out@ =~= old(out)@ + exprs_actions(es@, doc, i as int));
    } else {
        assert(out@ =~= old(out)@ + exprs_actions(es@, doc, i as int));
    }
}

/// Walk the table entries of `es` from index `i` on.
pub fn walk_entries(es: &Vec<TableEntry>, doc: Option<usize>, i: usize, out: &mut Vec<Action>)
    requires
        i <= es@.len(),
    ensures
        final(out)@ == old(out)@ + entries_actions(es@, doc, i as int),
    decreases es@, es@.len() - i,
{
    if i < es.len() {
        let ghost start = out@;
        match &es[i].key {
            Some(k) => walk_expr(k, doc, out),
            None => {},
        }
        let ghost mid = out@;
        walk_expr(&es[i].value, doc, out);
        walk_entries(es, doc, i + 1, out);
        proof {
            match es@[i as int].key {
                Some(k) => assert(mid == start + expr_actions(k, doc)),
                None => assert(mid == start + Seq::<Action>::empty()),
            }
        }
        assert(out@ =~= old(out)@ + entries_actions(es@, doc, i as int));
    } else {
        assert(out@ =~= old(out)@ + entries_actions(es@, doc, i as int));
    }
}

/// Walk the branches of an `if` expression from index `i` on.
pub fn walk_ebranches(bs: &Vec<ExprBranch>, doc: Option<usize>, i: usize, out: &mut Vec<Action>)
    requires
        i <= bs@.len(),
    ensures
        final(out)@ == old(out)@ + ebranches_actions(bs@, doc, i as int),
    decreases bs@, bs@.len() - i,
{
    if i < bs.len() {
        walk_expr(&bs[i].cond, doc, out);
        walk_expr(&bs[i].value, doc, out);
        walk_ebranches(bs, doc, i + 1, out);
        assert(out@ =~= old(out)@ + ebranches_actions(bs@, doc, i as int));
    } else {
        assert(out@ =~= old(out)@ + ebranches_actions(bs@, doc, i as int));
    }
}

/// Walk an assignment target (see `target_actions`).
pub fn walk_target(t: &Expr, doc: Option<usize>, out: &mut Vec<Action>)
    ensures
        final(out)@ == old(out)@ + target_actions(*t, doc),
    decreases *t, 1int,
{
    let global = match &t.kind {
        ExprKind::Name { is_global, .. } => *is_global,
        _ => false,
    };
    if global {
        push_fire(out, Event::GlobalWrite, t.id);
        push_fire(out, Event::Name, t.id);
        assert(out@ =~= old(out)@ + target_actions(*t, doc));
    } else {
        walk_expr(t, doc, out);
    }
}

/// Walk the assignment targets of `ts` from index `i` on.
pub fn walk_targets(ts: &Vec<Expr>, doc: Option<usize>, i: usize, out: &mut Vec<Action>)
    requires
        i <= ts@.len(),
    ensures
        final(out)@ == old(out)@ + targets_actions(ts@, doc, i as int),
    decreases ts@, ts@.len() - i,
{
    if i < ts.len() {
        walk_target(&ts[i], doc, out);
        walk_targets(ts, doc, i + 1, out);
        assert(out@ =~= old(out)@ + targets_actions(ts@, doc, i as int));
    } else {
        assert(out@ =~= old(out)@ + targets_actions(ts@, doc, i as int));
    }
}

/// Walk a block (see `block_actions`).
pub fn walk_block(b: &Block, doc: Option<usize>, out: &mut Vec<Action>)
    ensures
        final(out)@ == old(out)@ + block_actions(*b, doc),
    decreases *b, 0int,
{
    walk_stmts(&b.stmts, doc, 0, out);
}

/// Walk the statements of `ss` from index `i` on.
pub fn walk_stmts(ss: &Vec<Stmt>, doc: Option<usize>, i: usize, out: &mut Vec<Action>)
    requires
        i <= ss@.len(),
    ensures
        final(out)@ == old(out)@ + stmts_actions(ss@, doc, i as int),
    decreases ss@, ss@.len() - i,
{
    if i < ss.len() {
        walk_stmt(&ss[i], doc, out);
        walk_stmts(ss, doc, i + 1, out);
        assert(out@ =~= old(out)@ + stmts_actions(ss@, doc, i as int));
    } else {
        assert(out@ =~= old(out)@ + stmts_actions(ss@, doc, i as int));
    }
}

/// Walk the branches of an `if` statement from index `i` on.
pub fn walk_sbranches(bs: &Vec<StmtBranch>, doc: Option<usize>, i: usize, out: &mut Vec<Action>)
    requires
        i <= bs@.len(),
    ensures
        final(out)@ == old(out)@ + sbranches_actions(bs@, doc, i as int),
    decreases bs@, bs@.len() - i,
{
    if i < bs.len() {
        walk_expr(&bs[i].cond, doc, out);
        out.push(Action::Push { kind: AncestorKind::Branch, node: bs[i].cond.id });
        walk_block(&bs[i].block, doc, out);
        out.push(Action::Pop);
        walk_sbranches(bs, doc, i + 1, out);
        assert(out@ =~= old(out)@ + sbranches_actions(bs@, doc, i as int));
    } else {
        assert(out@ =~= old(out)@ + sbranches_actions(bs@, doc, i as int));
    }
}

/// Walk a block as a scope of `kind` pushed with `node`.
fn walk_scoped(kind: AncestorKind, node: usize, b: &Block, doc: Option<usize>, out: &mut Vec<Action>)
    ensures
        final(out)@ == old(out)@ + scoped(kind, node, block_actions(*b, doc)),
    decreases *b, 1int,
{
    out.push(Action::Push { kind, node });
    walk_block(b, doc, out);
    out.push(Action::Pop);
    assert(out@ =~= old(out)@ + scoped(kind, node, block_actions(*b, doc)));
}

/// Walk a statement (see `stmt_actions`).
#[verifier::rlimit(50)]
pub fn walk_stmt(s: &Stmt, enclosing: Option<usize>, out: &mut Vec<Action>)
    ensures
        final(out)@ == old(out)@ + stmt_actions(*s, enclosing),
    decreases *s, 0int,
{
    let doc = if s.has_doc {
        Some(s.id)
    } else {
        enclosing
    };
    let own = if s.has_doc {
        Some(s.id)
    } else {
        None
    };
    push_fire(out, Event::Statement, s.id);
    let ghost start = out@;
    match &s.kind {
        StmtKind::Assign { assign, targets, values } => {
            out.push(Action::Fire { event: Event::Assign, node: *assign, doc: own });
            walk_targets(targets, doc, 0, out);
            walk_exprs(values, doc, 0, out);
        },
        StmtKind::LocalAssign { values } => {
            push_fire(out, Event::LocalAssign, s.id);
            walk_exprs(values, doc, 0, out);
        },
        StmtKind::CompoundAssign { target, value } => {
            walk_target(target, doc, out);
            walk_expr(value, doc, out);
        },
        StmtKind::ConstAssign { value } => {
            walk_expr(value, doc, out);
        },
        StmtKind::ExprStatement { expr } => {
            push_fire(out, Event::ExprStatement, s.id);
            walk_expr(expr, doc, out);
        },
        StmtKind::If { branches, else_block } => {
            push_fire(out, Event::If, s.id);
            walk_sbranches(branches, doc, 0, out);
            let ghost mid = out@;
            match else_block {
                Some(b) => walk_scoped(AncestorKind::Branch, s.id, b, doc, out),
                None => {},
            }
            proof {
                match else_block {
                    Some(b) => {},
                    None => assert(out@ == mid + Seq::<Action>::empty()),
                }
            }
        },
        StmtKind::While { cond, block } => {
            push_fire(out, Event::While, s.id);
            walk_expr(cond, doc, out);
            walk_scoped(AncestorKind::Loop, s.id, block, doc, out);
        },
        StmtKind::Repeat { block, cond } => {
            push_fire(out, Event::Repeat, s.id);
            walk_scoped(AncestorKind::Loop, s.id, block, doc, out);
            walk_expr(cond, doc, out);
        },
        StmtKind::NumericFor { start: from, stop, step, block } => {
            push_fire(out, Event::NumericFor, s.id);
            walk_expr(from, doc, out);
            walk_expr(stop, doc, out);
            let ghost mid = out@;
            match step {
                Some(st) => walk_expr(st, doc, out),
                None => {},
            }
            proof {
                match step {
                    Some(st) => {},
                    None => assert(out@ == mid + Seq::<Action>::empty()),
                }
            }
            walk_scoped(AncestorKind::Loop, s.id, block, doc, out);
        },
        StmtKind::GenericFor { exprs, block } => {
            push_fire(out, Event::GenericFor, s.id);
            walk_exprs(exprs, doc, 0, out);
            walk_scoped(AncestorKind::Loop, s.id, block, doc, out);
        },
        StmtKind::DoBlock { block } => {
            push_fire(out, Event::DoBlock, s.id);
            walk_scoped(AncestorKind::DoBlock, s.id, block, doc, out);
        },
        StmtKind::Return { values } => {
            push_fire(out, Event::Return, s.id);
            walk_exprs(values, doc, 0, out);
        },
        StmtKind::LocalFunction { body } => {
            push_fire(out, Event::LocalFunction, s.id);
            walk_scoped(AncestorKind::Function, s.id, body, doc, out);
        },
        StmtKind::FunctionDecl { body } => {
            push_fire(out, Event::FunctionDecl, s.id);
            walk_scoped(AncestorKind::Function, s.id, body, doc, out);
        },
        StmtKind::GlobalDecl => push_fire(out, Event::GlobalDecl, s.id),
        StmtKind::Break => push_fire(out, Event::Break, s.id),
        StmtKind::Continue => push_fire(out, Event::Continue, s.id),
        StmtKind::Goto => push_fire(out, Event::Goto, s.id),
        StmtKind::Label => push_fire(out, Event::Label, s.id),
        StmtKind::TypeAlias => {},
    }
    assert(out@ =~= old(out)@ + stmt_actions(*s, enclosing));
}

/// The walk of a chunk (see `chunk_actions`).
pub fn walk_chunk(c: &Chunk) -> (r: Vec<Action>)
    ensures
        r@ == chunk_actions(*c),
{
    let mut out: Vec<Action> = Vec::new();
    out.push(Action::Push { kind: AncestorKind::Chunk, node: c.id });
    push_fire(&mut out, Event::ChunkBegin, c.id);
    walk_block(&c.block, None, &mut out);
    push_fire(&mut out, Event::ChunkEnd, c.id);
    out.push(Action::Pop);
    assert(out@ =~= chunk_actions(*c));
    out
}


/// The ancestor stack after the actions `acts`, from `stack`: a push adds
/// a scope, a pop removes the last one (if any), firing leaves it.
pub open spec fn replay(stack: Seq<(AncestorKind, usize)>, acts: Seq<Action>) -> Seq<(AncestorKind, usize)>
    decreases acts.len(),
{
    if acts.len() == 0 {
        stack
    } else {
        let next = match acts[0] {
            Action::Push { kind, node } => stack.push((kind, node)),
            Action::Pop => if stack.len() > 0 {
                stack.drop_last()
            } else {
                stack
            },
            Action::Fire { .. } => stack,
        };
        replay(next, acts.drop_first())
    }
}

proof fn lemma_replay_cat(s: Seq<(AncestorKind, usize)>, a: Seq<Action>, b: Seq<Action>)
    ensures
        replay(s, a + b) == replay(replay(s, a), b),
    decreases a.len(),
{
    if a.len() == 0 {
        assert(a + b =~= b);
    } else {
        assert((a + b).drop_first() =~= a.drop_first() + b);
        assert((a + b)[0] == a[0]);
        let next = match a[0] {
            Action::Push { kind, node } => s.push((kind, node)),
            Action::Pop => if s.len() > 0 {
                s.drop_last()
            } else {
                s
            },
            Action::Fire { .. } => s,
        };
        lemma_replay_cat(next, a.drop_first(), b);
    }
}

proof fn lemma_replay_fire(s: Seq<(AncestorKind, usize)>, a: Action)
    requires
        a is Fire,
    ensures
        replay(s, seq![a]) == s,
{
    assert(seq![a].drop_first() =~= Seq::<Action>::empty());
    assert(replay(s, Seq::<Action>::empty()) == s);
}

proof fn lemma_replay_scoped(s: Seq<(AncestorKind, usize)>, kind: AncestorKind, node: usize, body: Seq<Action>)
    requires
        replay(s.push((kind, node)), body) == s.push((kind, node)),
    ensures
        replay(s, scoped(kind, node, body)) == s,
{
    let p = seq![Action::Push { kind, node }];
    lemma_replay_cat(s, p + body, seq![Action::Pop]);
    lemma_replay_cat(s, p, body);
    assert(p.drop_first() =~= Seq::<Action>::empty());
    assert(replay(s.push((kind, node)), Seq::<Action>::empty()) == s.push((kind, node)));
    assert(replay(s, p) == s.push((kind, node)));
    assert(seq![Action::Pop].drop_first() =~= Seq::<Action>::empty());
    assert(s.push((kind, node)).drop_last() =~= s);
    assert(replay(s, Seq::<Action>::empty()) == s);
    assert(replay(s.push((kind, node)), seq![Action::Pop]) == s);
}

proof fn lemma_expr_balanced(s: Seq<(AncestorKind, usize)>, e: Expr, doc: Option<usize>)
    ensures
        replay(s, expr_actions(e, doc)) == s,
    decreases e, 0int,
{
    match e.kind {
        ExprKind::MethodCall { call, receiver, args } => {
            let f = seq![Action::Fire { event: Event::MethodCall, node: call, doc }];
            lemma_replay_fire(s, f[0]);
            lemma_expr_balanced(s, *receiver, doc);
            lemma_exprs_balanced(s, args@, doc, 0);
            lemma_replay_cat(s, f + expr_actions(*receiver, doc), exprs_actions(args@, doc, 0));
            lemma_replay_cat(s, f, expr_actions(*receiver, doc));
        },
        ExprKind::FunctionCall { call, callee, args } => {
            let f = seq![Action::Fire { event: Event::FunctionCall, node: call, doc }];
            let q = if is_require(*callee) {
                seq![Action::Fire { event: Event::Require, node: call, doc }]
            } else {
                Seq::empty()
            };
            lemma_replay_fire(s, f[0]);
            if is_require(*callee) {
                lemma_replay_fire(s, q[0]);
            }
            lemma_expr_balanced(s, *callee, doc);
            lemma_exprs_balanced(s, args@, doc, 0);
            lemma_replay_cat(s, f + q + expr_actions(*callee, doc), exprs_actions(args@, doc, 0));
            lemma_replay_cat(s, f + q, expr_actions(*callee, doc));
            lemma_replay_cat(s, f, q);
        },
        ExprKind::Name { is_global, .. } => {
            let f = seq![fire(Event::Name, e.id)];
            let g = if is_global {
                seq![fire(Event::GlobalRead, e.id)]
            } else {
                Seq::empty()
            };
            lemma_replay_fire(s, f[0]);
            if is_global {
                lemma_replay_fire(s, g[0]);
            }
            lemma_replay_cat(s, f, g);
        },
        ExprKind::StringLiteral => lemma_replay_fire(s, fire(Event::StringLiteral, e.id)),
        ExprKind::NumberLiteral => lemma_replay_fire(s, fire(Event::NumberLiteral, e.id)),
        ExprKind::InterpString { exprs } => {
            lemma_replay_fire(s, fire(Event::InterpString, e.id));
            lemma_exprs_balanced(s, exprs@, doc, 0);
            lemma_replay_cat(s, seq![fire(Event::InterpString, e.id)], exprs_actions(exprs@, doc, 0));
        },
        ExprKind::BinOp { lhs, rhs } => {
            let f = seq![fire(Event::BinOp, e.id)];
            lemma_replay_fire(s, f[0]);
            lemma_expr_balanced(s, *lhs, doc);
            lemma_expr_balanced(s, *rhs, doc);
            lemma_replay_cat(s, f + expr_actions(*lhs, doc), expr_actions(*rhs, doc));
            lemma_replay_cat(s, f, expr_actions(*lhs, doc));
        },
        ExprKind::UnOp { operand } => {
            lemma_replay_fire(s, fire(Event::UnOp, e.id));
            lemma_expr_balanced(s, *operand, doc);
            lemma_replay_cat(s, seq![fire(Event::UnOp, e.id)], expr_actions(*operand, doc));
        },
        ExprKind::TableConstructor { entries } => {
            lemma_replay_fire(s, fire(Event::TableConstructor, e.id));
            lemma_entries_balanced(s, entries@, doc, 0);
            lemma_replay_cat(s, seq![fire(Event::TableConstructor, e.id)], entries_actions(entries@, doc, 0));
        },
        ExprKind::FunctionExpr { body } => {
            let p = (AncestorKind::Function, e.id);
            lemma_block_balanced(s.push(p), body, doc);
            lemma_replay_scoped(s, AncestorKind::Function, e.id, block_actions(body, doc));
            lemma_replay_fire(s, fire(Event::FunctionExpr, e.id));
            assert(expr_actions(e, doc) =~= seq![fire(Event::FunctionExpr, e.id)] + scoped(
                AncestorKind::Function,
                e.id,
                block_actions(body, doc),
            ));
            lemma_replay_cat(
                s,
                seq![fire(Event::FunctionExpr, e.id)],
                scoped(AncestorKind::Function, e.id, block_actions(body, doc)),
            );
        },
        ExprKind::Index { target, key } => {
            lemma_expr_balanced(s, *target, doc);
            lemma_expr_balanced(s, *key, doc);
            lemma_replay_cat(s, expr_actions(*target, doc), expr_actions(*key, doc));
        },
        ExprKind::Field { target } => {
            lemma_expr_balanced(s, *target, doc);
        },
        ExprKind::IfExpression { branches, else_expr } => {
            lemma_ebranches_balanced(s, branches@, doc, 0);
            lemma_expr_balanced(s, *else_expr, doc);
            lemma_replay_cat(s, ebranches_actions(branches@, doc, 0), expr_actions(*else_expr, doc));
        },
        ExprKind::TypeAssertion { expr } => {
            lemma_expr_balanced(s, *expr, doc);
        },
        ExprKind::Leaf => {},
    }
}

proof fn lemma_exprs_balanced(s: Seq<(AncestorKind, usize)>, es: Seq<Expr>, doc: Option<usize>, i: int)
    ensures
        replay(s, exprs_actions(es, doc, i)) == s,
    decreases es, es.len() - i,
{
    if 0 <= i < es.len() {
        lemma_expr_balanced(s, es[i], doc);
        lemma_exprs_balanced(s, es, doc, i + 1);
        lemma_replay_cat(s, expr_actions(es[i], doc), exprs_actions(es, doc, i + 1));
    }
}

proof fn lemma_entries_balanced(s: Seq<(AncestorKind, usize)>, es: Seq<TableEntry>, doc: Option<usize>, i: int)
    ensures
        replay(s, entries_actions(es, doc, i)) == s,
    decreases es, es.len() - i,
{
    if 0 <= i < es.len() {
        let k = match es[i].key {
            Some(k) => expr_actions(k, doc),
            None => Seq::empty(),
        };
        match es[i].key {
            Some(kx) => lemma_expr_balanced(s, kx, doc),
            None => {},
        }
        lemma_expr_balanced(s, es[i].value, doc);
        lemma_entries_balanced(s, es, doc, i + 1);
        lemma_replay_cat(s, k + expr_actions(es[i].value, doc), entries_actions(es, doc, i + 1));
        lemma_replay_cat(s, k, expr_actions(es[i].value, doc));
    }
}

proof fn lemma_ebranches_balanced(s: Seq<(AncestorKind, usize)>, bs: Seq<ExprBranch>, doc: Option<usize>, i: int)
    ensures
        replay(s, ebranches_actions(bs, doc, i)) == s,
    decreases bs, bs.len() - i,
{
    if 0 <= i < bs.len() {
        lemma_expr_balanced(s, bs[i].cond, doc);
        lemma_expr_balanced(s, bs[i].value, doc);
        lemma_ebranches_balanced(s, bs, doc, i + 1);
        lemma_replay_cat(
            s,
            expr_actions(bs[i].cond, doc) + expr_actions(bs[i].value, doc),
            ebranches_actions(bs, doc, i + 1),
        );
        lemma_replay_cat(s, expr_actions(bs[i].cond, doc), expr_actions(bs[i].value, doc));
    }
}

proof fn lemma_target_balanced(s: Seq<(AncestorKind, usize)>, t: Expr, doc: Option<usize>)
    ensures
        replay(s, target_actions(t, doc)) == s,
    decreases t, 1int,
{
    if t.kind matches ExprKind::Name { is_global, .. } && is_global {
        lemma_replay_fire(s, fire(Event::GlobalWrite, t.id));
        lemma_replay_fire(s, fire(Event::Name, t.id));
        assert(seq![fire(Event::GlobalWrite, t.id), fire(Event::Name, t.id)] =~= seq![
            fire(Event::GlobalWrite, t.id),
        ] + seq![fire(Event::Name, t.id)]);
        lemma_replay_cat(s, seq![fire(Event::GlobalWrite, t.id)], seq![fire(Event::Name, t.id)]);
    } else {
        lemma_expr_balanced(s, t, doc);
    }
}

proof fn lemma_targets_balanced(s: Seq<(AncestorKind, usize)>, ts: Seq<Expr>, doc: Option<usize>, i: int)
    ensures
        replay(s, targets_actions(ts, doc, i)) == s,
    decreases ts, ts.len() - i,
{
    if 0 <= i < ts.len() {
        lemma_target_balanced(s, ts[i], doc);
        lemma_targets_balanced(s, ts, doc, i + 1);
        lemma_replay_cat(s, target_actions(ts[i], doc), targets_actions(ts, doc, i + 1));
    }
}

proof fn lemma_block_balanced(s: Seq<(AncestorKind, usize)>, b: Block, doc: Option<usize>)
    ensures
        replay(s, block_actions(b, doc)) == s,
    decreases b, 0int,
{
    lemma_stmts_balanced(s, b.stmts@, doc, 0);
}

proof fn lemma_stmts_balanced(s: Seq<(AncestorKind, usize)>, ss: Seq<Stmt>, doc: Option<usize>, i: int)
    ensures
        replay(s, stmts_actions(ss, doc, i)) == s,
    decreases ss, ss.len() - i,
{
    if 0 <= i < ss.len() {
        lemma_stmt_balanced(s, ss[i], doc);
        lemma_stmts_balanced(s, ss, doc, i + 1);
        lemma_replay_cat(s, stmt_actions(ss[i], doc), stmts_actions(ss, doc, i + 1));
    }
}

proof fn lemma_sbranches_balanced(s: Seq<(AncestorKind, usize)>, bs: Seq<StmtBranch>, doc: Option<usize>, i: int)
    ensures
        replay(s, sbranches_actions(bs, doc, i)) == s,
    decreases bs, bs.len() - i,
{
    if 0 <= i < bs.len() {
        let c = expr_actions(bs[i].cond, doc);
        let sc = scoped(AncestorKind::Branch, bs[i].cond.id, block_actions(bs[i].block, doc));
        lemma_expr_balanced(s, bs[i].cond, doc);
        lemma_block_balanced(s.push((AncestorKind::Branch, bs[i].cond.id)), bs[i].block, doc);
        lemma_replay_scoped(s, AncestorKind::Branch, bs[i].cond.id, block_actions(bs[i].block, doc));
        lemma_sbranches_balanced(s, bs, doc, i + 1);
        assert(sbranches_actions(bs, doc, i) =~= c + sc + sbranches_actions(bs, doc, i + 1));
        lemma_replay_cat(s, c + sc, sbranches_actions(bs, doc, i + 1));
        lemma_replay_cat(s, c, sc);
    }
}

proof fn lemma_scoped_block(s: Seq<(AncestorKind, usize)>, kind: AncestorKind, node: usize, b: Block, doc: Option<usize>)
    ensures
        replay(s, scoped(kind, node, block_actions(b, doc))) == s,
    decreases b, 1int,
{
    lemma_block_balanced(s.push((kind, node)), b, doc);
    lemma_replay_scoped(s, kind, node, block_actions(b, doc));
}

proof fn lemma_stmt_balanced(s: Seq<(AncestorKind, usize)>, st: Stmt, enclosing: Option<usize>)
    ensures
        replay(s, stmt_actions(st, enclosing)) == s,
    decreases st, 0int,
{
    let doc = if st.has_doc {
        Some(st.id)
    } else {
        enclosing
    };
    let own = if st.has_doc {
        Some(st.id)
    } else {
        None
    };
    let head = seq![fire(Event::Statement, st.id)];
    lemma_replay_fire(s, head[0]);
    let rest: Seq<Action> = match st.kind {
        StmtKind::Assign { assign, targets, values } => {
            let f = seq![Action::Fire { event: Event::Assign, node: assign, doc: own }];
            lemma_replay_fire(s, f[0]);
            lemma_targets_balanced(s, targets@, doc, 0);
            lemma_exprs_balanced(s, values@, doc, 0);
            lemma_replay_cat(s, f + targets_actions(targets@, doc, 0), exprs_actions(values@, doc, 0));
            lemma_replay_cat(s, f, targets_actions(targets@, doc, 0));
            f + targets_actions(targets@, doc, 0) + exprs_actions(values@, doc, 0)
        },
        StmtKind::LocalAssign { values } => {
            let f = seq![fire(Event::LocalAssign, st.id)];
            lemma_replay_fire(s, f[0]);
            lemma_exprs_balanced(s, values@, doc, 0);
            lemma_replay_cat(s, f, exprs_actions(values@, doc, 0));
            f + exprs_actions(values@, doc, 0)
        },
        StmtKind::CompoundAssign { target, value } => {
            lemma_target_balanced(s, *target, doc);
            lemma_expr_balanced(s, *value, doc);
            lemma_replay_cat(s, target_actions(*target, doc), expr_actions(*value, doc));
            target_actions(*target, doc) + expr_actions(*value, doc)
        },
        StmtKind::ConstAssign { value } => {
            lemma_expr_balanced(s, *value, doc);
            expr_actions(*value, doc)
        },
        StmtKind::ExprStatement { expr } => {
            let f = seq![fire(Event::ExprStatement, st.id)];
            lemma_replay_fire(s, f[0]);
            lemma_expr_balanced(s, *expr, doc);
            lemma_replay_cat(s, f, expr_actions(*expr, doc));
            f + expr_actions(*expr, doc)
        },
        StmtKind::If { branches, else_block } => {
            let f = seq![fire(Event::If, st.id)];
            let e = match else_block {
                Some(b) => scoped(AncestorKind::Branch, st.id, block_actions(b, doc)),
                None => Seq::empty(),
            };
            lemma_replay_fire(s, f[0]);
            lemma_sbranches_balanced(s, branches@, doc, 0);
            match else_block {
                Some(b) => lemma_scoped_block(s, AncestorKind::Branch, st.id, b, doc),
                None => {},
            }
            lemma_replay_cat(s, f + sbranches_actions(branches@, doc, 0), e);
            lemma_replay_cat(s, f, sbranches_actions(branches@, doc, 0));
            f + sbranches_actions(branches@, doc, 0) + e
        },
        StmtKind::While { cond, block } => {
            let f = seq![fire(Event::While, st.id)];
            let sc = scoped(AncestorKind::Loop, st.id, block_actions(block, doc));
            lemma_replay_fire(s, f[0]);
            lemma_expr_balanced(s, *cond, doc);
            lemma_scoped_block(s, AncestorKind::Loop, st.id, block, doc);
            lemma_replay_cat(s, f + expr_actions(*cond, doc), sc);
            lemma_replay_cat(s, f, expr_actions(*cond, doc));
            f + expr_actions(*cond, doc) + sc
        },
        StmtKind::Repeat { block, cond } => {
            let f = seq![fire(Event::Repeat, st.id)];
            let sc = scoped(AncestorKind::Loop, st.id, block_actions(block, doc));
            lemma_replay_fire(s, f[0]);
            lemma_expr_balanced(s, *cond, doc);
            lemma_scoped_block(s, AncestorKind::Loop, st.id, block, doc);
            lemma_replay_cat(s, f + sc, expr_actions(*cond, doc));
            lemma_replay_cat(s, f, sc);
            f + sc + expr_actions(*cond, doc)
        },
        StmtKind::NumericFor { start, stop, step, block } => {
            let f = seq![fire(Event::NumericFor, st.id)];
            let a = expr_actions(*start, doc);
            let b = expr_actions(*stop, doc);
            let c = match step {
                Some(x) => expr_actions(*x, doc),
                None => Seq::empty(),
            };
            let sc = scoped(AncestorKind::Loop, st.id, block_actions(block, doc));
            lemma_replay_fire(s, f[0]);
            lemma_expr_balanced(s, *start, doc);
            lemma_expr_balanced(s, *stop, doc);
            match step {
                Some(x) => lemma_expr_balanced(s, *x, doc),
                None => {},
            }
            lemma_scoped_block(s, AncestorKind::Loop, st.id, block, doc);
            lemma_replay_cat(s, f + a + b + c, sc);
            lemma_replay_cat(s, f + a + b, c);
            lemma_replay_cat(s, f + a, b);
            lemma_replay_cat(s, f, a);
            f + a + b + c + sc
        },
        StmtKind::GenericFor { exprs, block } => {
            let f = seq![fire(Event::GenericFor, st.id)];
            let sc = scoped(AncestorKind::Loop, st.id, block_actions(block, doc));
            lemma_replay_fire(s, f[0]);
            lemma_exprs_balanced(s, exprs@, doc, 0);
            lemma_scoped_block(s, AncestorKind::Loop, st.id, block, doc);
            lemma_replay_cat(s, f + exprs_actions(exprs@, doc, 0), sc);
            lemma_replay_cat(s, f, exprs_actions(exprs@, doc, 0));
            f + exprs_actions(exprs@, doc, 0) + sc
        },
        StmtKind::DoBlock { block } => {
            let f = seq![fire(Event::DoBlock, st.id)];
            let sc = scoped(AncestorKind::DoBlock, st.id, block_actions(block, doc));
            lemma_replay_fire(s, f[0]);
            lemma_scoped_block(s, AncestorKind::DoBlock, st.id, block, doc);
            lemma_replay_cat(s, f, sc);
            f + sc
        },
        StmtKind::Return { values } => {
            let f = seq![fire(Event::Return, st.id)];
            lemma_replay_fire(s, f[0]);
            lemma_exprs_balanced(s, values@, doc, 0);
            lemma_replay_cat(s, f, exprs_actions(values@, doc, 0));
            f + exprs_actions(values@, doc, 0)
        },
        StmtKind::LocalFunction { body } => {
            let f = seq![fire(Event::LocalFunction, st.id)];
            let sc = scoped(AncestorKind::Function, st.id, block_actions(body, doc));
            lemma_replay_fire(s, f[0]);
            lemma_scoped_block(s, AncestorKind::Function, st.id, body, doc);
            lemma_replay_cat(s, f, sc);
            f + sc
        },
        StmtKind::FunctionDecl { body } => {
            let f = seq![fire(Event::FunctionDecl, st.id)];
            let sc = scoped(AncestorKind::Function, st.id, block_actions(body, doc));
            lemma_replay_fire(s, f[0]);
            lemma_scoped_block(s, AncestorKind::Function, st.id, body, doc);
            lemma_replay_cat(s, f, sc);
            f + sc
        },
        StmtKind::GlobalDecl => {
            lemma_replay_fire(s, fire(Event::GlobalDecl, st.id));
            seq![fire(Event::GlobalDecl, st.id)]
        },
        StmtKind::Break => {
            lemma_replay_fire(s, fire(Event::Break, st.id));
            seq![fire(Event::Break, st.id)]
        },
        StmtKind::Continue => {
            lemma_replay_fire(s, fire(Event::Continue, st.id));
            seq![fire(Event::Continue, st.id)]
        },
        StmtKind::Goto => {
            lemma_replay_fire(s, fire(Event::Goto, st.id));
            seq![fire(Event::Goto, st.id)]
        },
        StmtKind::Label => {
            lemma_replay_fire(s, fire(Event::Label, st.id));
            seq![fire(Event::Label, st.id)]
        },
        StmtKind::TypeAlias => Seq::empty(),
    };
    assert(stmt_actions(st, enclosing) =~= head + rest);
    lemma_replay_cat(s, head, rest);
}

/// The walk of a chunk leaves the ancestor stack as it found it: every
/// scope it pushes it pops again.
pub proof fn law_walk_balanced(s: Seq<(AncestorKind, usize)>, c: Chunk)
    ensures
        replay(s, chunk_actions(c)) == s,
{
    let p = (AncestorKind::Chunk, c.id);
    let body = seq![fire(Event::ChunkBegin, c.id)] + block_actions(c.block, None) + seq![
        fire(Event::ChunkEnd, c.id),
    ];
    lemma_replay_fire(s.push(p), fire(Event::ChunkBegin, c.id));
    lemma_replay_fire(s.push(p), fire(Event::ChunkEnd, c.id));
    lemma_block_balanced(s.push(p), c.block, None);
    lemma_replay_cat(
        s.push(p),
        seq![fire(Event::ChunkBegin, c.id)] + block_actions(c.block, None),
        seq![fire(Event::ChunkEnd, c.id)],
    );
    lemma_replay_cat(s.push(p), seq![fire(Event::ChunkBegin, c.id)], block_actions(c.block, None));
    lemma_replay_scoped(s, AncestorKind::Chunk, c.id, body);
    assert(chunk_actions(c) =~= scoped(AncestorKind::Chunk, c.id, body));
}


/// The nearest scope of kind `k` on the stack (the last pushed of that
/// kind), by the node it was pushed with.
pub open spec fn nearest_of(stack: Seq<(AncestorKind, usize)>, k: AncestorKind) -> Option<usize>
    decreases stack.len(),
{
    if stack.len() == 0 {
        None
    } else if stack.last().0 == k {
        Some(stack.last().1)
    } else {
        nearest_of(stack.drop_last(), k)
    }
}

/// The kind a plugin names: `function`, `loop`, `branch`, `chunk`,
/// `do_block`.
pub open spec fn kind_of_name(name: Seq<u8>) -> Option<AncestorKind> {
    if name == seq![102u8, 117u8, 110u8, 99u8, 116u8, 105u8, 111u8, 110u8] {
        Some(AncestorKind::Function)
    } else if name == seq![108u8, 111u8, 111u8, 112u8] {
        Some(AncestorKind::Loop)
    } else if name == seq![98u8, 114u8, 97u8, 110u8, 99u8, 104u8] {
        Some(AncestorKind::Branch)
    } else if name == seq![99u8, 104u8, 117u8, 110u8, 107u8] {
        Some(AncestorKind::Chunk)
    } else if name == seq![100u8, 111u8, 95u8, 98u8, 108u8, 111u8, 99u8, 107u8] {
        Some(AncestorKind::DoBlock)
    } else {
        None
    }
}

fn bytes_eq(a: &[u8], b: &[u8]) -> (r: bool)
    ensures
        r == (a@ == b@),
{
    if a.len() != b.len() {
        return false;
    }
    let r = crate::byte_str::range_eq(a, 0, b);
    proof {
        assert(a@.subrange(0, b@.len() as int) =~= a@);
    }
    r
}

fn kind_named(name: &[u8]) -> (r: Option<AncestorKind>)
    ensures
        r == kind_of_name(name@),
{
    let function: [u8; 8] = [102u8, 117u8, 110u8, 99u8, 116u8, 105u8, 111u8, 110u8];
    let looping: [u8; 4] = [108u8, 111u8, 111u8, 112u8];
    let branch: [u8; 6] = [98u8, 114u8, 97u8, 110u8, 99u8, 104u8];
    let chunk: [u8; 5] = [99u8, 104u8, 117u8, 110u8, 107u8];
    let do_block: [u8; 8] = [100u8, 111u8, 95u8, 98u8, 108u8, 111u8, 99u8, 107u8];
    assert(function@ =~= seq![102u8, 117u8, 110u8, 99u8, 116u8, 105u8, 111u8, 110u8]);
    assert(looping@ =~= seq![108u8, 111u8, 111u8, 112u8]);
    assert(branch@ =~= seq![98u8, 114u8, 97u8, 110u8, 99u8, 104u8]);
    assert(chunk@ =~= seq![99u8, 104u8, 117u8, 110u8, 107u8]);
    assert(do_block@ =~= seq![100u8, 111u8, 95u8, 98u8, 108u8, 111u8, 99u8, 107u8]);
    if bytes_eq(name, &function) {
        Some(AncestorKind::Function)
    } else if bytes_eq(name, &looping) {
        Some(AncestorKind::Loop)
    } else if bytes_eq(name, &branch) {
        Some(AncestorKind::Branch)
    } else if bytes_eq(name, &chunk) {
        Some(AncestorKind::Chunk)
    } else if bytes_eq(name, &do_block) {
        Some(AncestorKind::DoBlock)
    } else {
        None
    }
}

/// The kinds a plugin may name, as the error for an unknown one lists
/// them.
pub open spec fn valid_kinds_text() -> Seq<char> {
    "\"function\", \"loop\", \"branch\", \"chunk\", \"do_block\""@
}

/// `ctx:enclosing(node, kind)`: the nearest scope of the named kind on
/// the ancestor stack, by the node it was pushed with; a kind that is not
/// UTF-8 or not one of the five is a runtime error.
pub fn enclosing(stack: &Vec<(AncestorKind, usize)>, kind: &[u8]) -> (r: Result<Option<usize>, LibError>)
    ensures
        !valid_utf8(kind@) ==> (r matches Err(e) && is_runtime(
            e,
            "ctx:enclosing: kind must be a UTF-8 string"@,
        )),
        valid_utf8(kind@) ==> match kind_of_name(kind@) {
            None => r matches Err(e) && is_runtime(
                e,
                "ctx:enclosing: unknown kind '"@ + utf8_lossy(kind@) + "'; valid kinds are: "@
                    + valid_kinds_text(),
            ),
            Some(k) => r == Ok::<Option<usize>, LibError>(nearest_of(stack@, k)),
        },
{
    match utf8_error_at(kind) {
        Some(_) => {
            return Err(runtime_error(String::from_str("ctx:enclosing: kind must be a UTF-8 string")));
        },
        None => {},
    }
    let k = match kind_named(kind) {
        Some(k) => k,
        None => {
            let mut m = String::from_str("ctx:enclosing: unknown kind '");
            let t = lossy_text(kind);
            m.append(t.as_str());
            m.append("'; valid kinds are: ");
            m.append("\"function\", \"loop\", \"branch\", \"chunk\", \"do_block\"");
            return Err(runtime_error(m));
        },
    };
    let mut i = stack.len();
    assert(stack@.subrange(0, i as int) =~= stack@);
    while i > 0
        invariant
            i <= stack@.len(),
            valid_utf8(kind@),
            kind_of_name(kind@) == Some(k),
            nearest_of(stack@, k) == nearest_of(stack@.subrange(0, i as int), k),
        decreases i,
    {
        let (kk, node) = stack[i - 1];
        assert(stack@.subrange(0, i as int).last() == stack@[i - 1]);
        assert(stack@.subrange(0, i as int).drop_last() =~= stack@.subrange(0, i - 1));
        if kk == k {
            return Ok(Some(node));
        }
        i = i - 1;
    }
    Ok(None)
}


/// The message of the warning that stands for a handler that raised: the
/// plugin's name and the error, so that one buggy handler does not stop
/// the walk.
pub fn handler_error_message(plugin: &str, error: &str) -> (r: String)
    ensures
        r@ == "lint plugin '"@ + plugin@ + "' handler raised: "@ + error@,
{
    let mut m = String::from_str("lint plugin '");
    m.append(plugin);
    m.append("' handler raised: ");
    m.append(error);
    m
}

} // verus!
