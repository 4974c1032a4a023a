//! Tests of the walk that fires the visitor events of a lint plugin.
use shingetsu::error::LibError;
use shingetsu::lint_walk::{
    enclosing, handler_error_message, walk_chunk, Action, AncestorKind, Block, Chunk, Event,
    Expr, ExprKind, Stmt, StmtKind,
};

fn expr(id: usize, kind: ExprKind) -> Expr {
    Expr { id, kind }
}

fn global(id: usize, name: &str) -> Expr {
    expr(id, ExprKind::Name { name: name.as_bytes().to_vec(), is_global: true })
}

fn fire(event: Event, node: usize) -> Action {
    Action::Fire { event, node, doc: None }
}

#[test]
fn local_assignment_of_a_call() {
    // local x = f(1)
    let call = expr(
        3,
        ExprKind::FunctionCall {
            call: 30,
            callee: Box::new(global(2, "f")),
            args: vec![expr(4, ExprKind::NumberLiteral)],
        },
    );
    let stmt = Stmt { id: 1, has_doc: false, kind: StmtKind::LocalAssign { values: vec![call] } };
    let chunk = Chunk { id: 0, block: Block { stmts: vec![stmt] } };
    assert_eq!(
        walk_chunk(&chunk),
        vec![
            Action::Push { kind: AncestorKind::Chunk, node: 0 },
            fire(Event::ChunkBegin, 0),
            fire(Event::Statement, 1),
            fire(Event::LocalAssign, 1),
            fire(Event::FunctionCall, 30),
            fire(Event::Name, 2),
            fire(Event::GlobalRead, 2),
            fire(Event::NumberLiteral, 4),
            fire(Event::ChunkEnd, 0),
            Action::Pop,
        ]
    );
}

#[test]
fn require_and_doc_comments() {
    // --- doc
    // require("m"):go()
    let req = expr(
        3,
        ExprKind::FunctionCall {
            call: 31,
            callee: Box::new(global(2, "require")),
            args: vec![expr(4, ExprKind::StringLiteral)],
        },
    );
    let mc = expr(5, ExprKind::MethodCall { call: 50, receiver: Box::new(req), args: vec![] });
    let stmt = Stmt { id: 1, has_doc: true, kind: StmtKind::ExprStatement { expr: Box::new(mc) } };
    let chunk = Chunk { id: 0, block: Block { stmts: vec![stmt] } };
    let doc = Some(1);
    assert_eq!(
        walk_chunk(&chunk),
        vec![
            Action::Push { kind: AncestorKind::Chunk, node: 0 },
            fire(Event::ChunkBegin, 0),
            fire(Event::Statement, 1),
            fire(Event::ExprStatement, 1),
            Action::Fire { event: Event::MethodCall, node: 50, doc },
            Action::Fire { event: Event::FunctionCall, node: 31, doc },
            Action::Fire { event: Event::Require, node: 31, doc },
            fire(Event::Name, 2),
            fire(Event::GlobalRead, 2),
            fire(Event::StringLiteral, 4),
            fire(Event::ChunkEnd, 0),
            Action::Pop,
        ]
    );
}

#[test]
fn scopes_are_pushed_around_bodies() {
    // while c do g = 1 end
    let assign = Stmt {
        id: 3,
        has_doc: false,
        kind: StmtKind::Assign {
            assign: 33,
            targets: vec![global(4, "g")],
            values: vec![expr(5, ExprKind::NumberLiteral)],
        },
    };
    let w = Stmt {
        id: 1,
        has_doc: false,
        kind: StmtKind::While {
            cond: Box::new(expr(2, ExprKind::Name { name: b"c".to_vec(), is_global: false })),
            block: Block { stmts: vec![assign] },
        },
    };
    let chunk = Chunk { id: 0, block: Block { stmts: vec![w] } };
    let acts = walk_chunk(&chunk);
    assert_eq!(
        acts,
        vec![
            Action::Push { kind: AncestorKind::Chunk, node: 0 },
            fire(Event::ChunkBegin, 0),
            fire(Event::Statement, 1),
            fire(Event::While, 1),
            fire(Event::Name, 2),
            Action::Push { kind: AncestorKind::Loop, node: 1 },
            fire(Event::Statement, 3),
            Action::Fire { event: Event::Assign, node: 33, doc: None },
            fire(Event::GlobalWrite, 4),
            fire(Event::Name, 4),
            fire(Event::NumberLiteral, 5),
            Action::Pop,
            fire(Event::ChunkEnd, 0),
            Action::Pop,
        ]
    );
    // Replaying the walk leaves the ancestor stack empty again.
    let mut stack: Vec<(AncestorKind, usize)> = Vec::new();
    for a in &acts {
        match a {
            Action::Push { kind, node } => stack.push((*kind, *node)),
            Action::Pop => {
                stack.pop();
            },
            Action::Fire { .. } => {},
        }
    }
    assert!(stack.is_empty());
}

#[test]
fn nearest_enclosing_scope() {
    let stack = vec![
        (AncestorKind::Chunk, 0),
        (AncestorKind::Function, 5),
        (AncestorKind::Loop, 7),
        (AncestorKind::Function, 9),
    ];
    assert_eq!(enclosing(&stack, b"function").unwrap(), Some(9));
    assert_eq!(enclosing(&stack, b"loop").unwrap(), Some(7));
    assert_eq!(enclosing(&stack, b"chunk").unwrap(), Some(0));
    assert_eq!(enclosing(&stack, b"branch").unwrap(), None);
    match enclosing(&stack, b"block") {
        Err(LibError::Runtime { message, .. }) => assert_eq!(
            message,
            "ctx:enclosing: unknown kind 'block'; valid kinds are: \"function\", \"loop\", \"branch\", \"chunk\", \"do_block\""
        ),
        other => panic!("unexpected {:?}", other),
    }
    match enclosing(&stack, &[0xff]) {
        Err(LibError::Runtime { message, .. }) => {
            assert_eq!(message, "ctx:enclosing: kind must be a UTF-8 string")
        },
        other => panic!("unexpected {:?}", other),
    }
}

#[test]
fn handler_errors_become_warnings() {
    assert_eq!(
        handler_error_message("no_print", "boom"),
        "lint plugin 'no_print' handler raised: boom"
    );
}
