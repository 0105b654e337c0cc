use vstd::prelude::*;

verus! {

/// An expression as the parser hands it over; identifiers are interned ids.
pub enum ExpressionKind {
    Identifier(usize),
    Null,
    Boolean(bool),
    Integer(i64),
    String(usize),
}

pub struct Expression {
    pub value: ExpressionKind,
}

/// A statement as the parser hands it over.
pub enum StatementKind {
    Let { name: Expression, value: Option<Expression> },
    Function { name: Expression, parameters: Vec<Expression>, body: Vec<Statement> },
    If { condition: Expression, body: Vec<Statement>, alternative: Vec<Statement> },
    For { body: Vec<Statement> },
    While { condition: Expression, body: Vec<Statement> },
    Break,
    Continue,
    Expression(Expression),
}

pub struct Statement {
    pub value: StatementKind,
}

} // verus!
