//! Syntax tree nodes of the statements whose compilation jump control
//! serves.

use vstd::prelude::*;

use crate::bytecompiler::Label;
use crate::interner::{Interner, Sym};
use crate::jump_control::{jumps_within, JumpRecord};

verus! {

/// The `break` statement, with its optional label.
#[derive(Clone, Copy, Debug, PartialEq, Eq, Structural)]
pub struct Break {
    pub label: Option<Sym>,
}

impl Break {
    pub fn new(label: Option<Sym>) -> (r: Self)
        ensures
            r.label == label,
    {
        Break { label }
    }

    pub fn label(&self) -> (r: Option<Sym>)
        ensures
            r == self.label,
    {
        self.label
    }
}

/// The `continue` statement, with its optional label.
#[derive(Clone, Copy, Debug, PartialEq, Eq, Structural)]
pub struct Continue {
    pub label: Option<Sym>,
}

impl Continue {
    pub fn new(label: Option<Sym>) -> (r: Self)
        ensures
            r.label == label,
    {
        Continue { label }
    }

    pub fn label(&self) -> (r: Option<Sym>)
        ensures
            r == self.label,
    {
        self.label
    }
}

/// A literal value.
#[derive(Clone, Copy, Debug, PartialEq, Eq, Structural)]
pub enum Literal {
    String(Sym),
    Bool(bool),
    Null,
    Undefined,
}

/// An expression.
#[derive(Debug)]
pub enum Expression {
    This,
    NewTarget,
    Identifier(Sym),
    Literal(Literal),
    Await(Box<Expression>),
    Yield(Option<Box<Expression>>),
}

/// The syntactic constructs whose presence early errors and function
/// analysis ask about.
#[derive(Clone, Copy, Debug, PartialEq, Eq, Structural)]
pub enum ContainsSymbol {
    This,
    NewTarget,
    AwaitExpression,
    YieldExpression,
}

/// Whether `e` contains the construct `symbol`.
pub open spec fn expression_contains(e: Expression, symbol: ContainsSymbol) -> bool
    decreases e,
{
    match e {
        Expression::This => symbol == ContainsSymbol::This,
        Expression::NewTarget => symbol == ContainsSymbol::NewTarget,
        Expression::Identifier(_) => false,
        Expression::Literal(_) => false,
        Expression::Await(inner) => symbol == ContainsSymbol::AwaitExpression
            || expression_contains(*inner, symbol),
        Expression::Yield(inner) => symbol == ContainsSymbol::YieldExpression || match inner {
            Some(inner) => expression_contains(*inner, symbol),
            None => false,
        },
    }
}

/// Whether `e` refers to `arguments`.
pub open spec fn expression_contains_arguments(e: Expression) -> bool
    decreases e,
{
    match e {
        Expression::Identifier(sym) => sym@ == 2,
        Expression::Await(inner) => expression_contains_arguments(*inner),
        Expression::Yield(inner) => match inner {
            Some(inner) => expression_contains_arguments(*inner),
            None => false,
        },
        _ => false,
    }
}

/// Whether every symbol in `e` names a string of `interner`.
pub open spec fn expression_symbols_known(e: Expression, interner: Interner) -> bool
    decreases e,
{
    match e {
        Expression::Identifier(sym) => interner.knows(sym),
        Expression::Literal(Literal::String(sym)) => interner.knows(sym),
        Expression::Await(inner) => expression_symbols_known(*inner, interner),
        Expression::Yield(inner) => match inner {
            Some(inner) => expression_symbols_known(*inner, interner),
            None => true,
        },
        _ => true,
    }
}

/// The source text of `e`.
pub open spec fn expression_text(e: Expression, interner: Interner) -> Seq<char>
    decreases e,
{
    match e {
        Expression::This => "this"@,
        Expression::NewTarget => "new.target"@,
        Expression::Identifier(sym) => interner.text(sym),
        Expression::Literal(Literal::String(sym)) => "\""@ + interner.text(sym) + "\""@,
        Expression::Literal(Literal::Bool(b)) => if b {
            "true"@
        } else {
            "false"@
        },
        Expression::Literal(Literal::Null) => "null"@,
        Expression::Literal(Literal::Undefined) => "undefined"@,
        Expression::Await(inner) => "await "@ + expression_text(*inner, interner),
        Expression::Yield(inner) => match inner {
            Some(inner) => "yield "@ + expression_text(*inner, interner),
            None => "yield"@,
        },
    }
}

impl Clone for Expression {
    fn clone(&self) -> (r: Self)
        ensures
            r == *self,
        decreases self,
    {
        match self {
            Expression::This => Expression::This,
            Expression::NewTarget => Expression::NewTarget,
            Expression::Identifier(sym) => Expression::Identifier(*sym),
            Expression::Literal(literal) => Expression::Literal(*literal),
            Expression::Await(inner) => Expression::Await(Box::new((**inner).clone())),
            Expression::Yield(inner) => match inner {
                Some(inner) => Expression::Yield(Some(Box::new((**inner).clone()))),
                None => Expression::Yield(None),
            },
        }
    }
}

impl PartialEq for Expression {
    fn eq(&self, other: &Self) -> (r: bool)
        decreases self,
    {
        match (self, other) {
            (Expression::This, Expression::This) => true,
            (Expression::NewTarget, Expression::NewTarget) => true,
            (Expression::Identifier(a), Expression::Identifier(b)) => a == b,
            (Expression::Literal(a), Expression::Literal(b)) => a == b,
            (Expression::Await(a), Expression::Await(b)) => (**a).eq(&**b),
            (Expression::Yield(a), Expression::Yield(b)) => match (a, b) {
                (Some(a), Some(b)) => (**a).eq(&**b),
                (None, None) => true,
                _ => false,
            },
            _ => false,
        }
    }
}

impl vstd::std_specs::cmp::PartialEqSpecImpl for Expression {
    open spec fn obeys_eq_spec() -> bool {
        true
    }

    open spec fn eq_spec(&self, other: &Self) -> bool {
        *self == *other
    }
}

impl Expression {
    /// Whether this expression contains the construct `symbol`.
    pub fn contains(&self, symbol: ContainsSymbol) -> (r: bool)
        ensures
            r == expression_contains(*self, symbol),
        decreases self,
    {
        match self {
            Expression::This => symbol == ContainsSymbol::This,
            Expression::NewTarget => symbol == ContainsSymbol::NewTarget,
            Expression::Identifier(_) => false,
            Expression::Literal(_) => false,
            Expression::Await(inner) => symbol == ContainsSymbol::AwaitExpression || inner.contains(
                symbol,
            ),
            Expression::Yield(inner) => symbol == ContainsSymbol::YieldExpression || match inner {
                Some(inner) => inner.contains(symbol),
                None => false,
            },
        }
    }

    /// Whether this expression refers to `arguments`.
    pub fn contains_arguments(&self) -> (r: bool)
        ensures
            r == expression_contains_arguments(*self),
        decreases self,
    {
        match self {
            Expression::Identifier(sym) => sym.get() == 2,
            Expression::Await(inner) => inner.contains_arguments(),
            Expression::Yield(inner) => match inner {
                Some(inner) => inner.contains_arguments(),
                None => false,
            },
            _ => false,
        }
    }

    /// The source text of this expression.
    pub fn to_interned_string(&self, interner: &Interner) -> (r: String)
        requires
            expression_symbols_known(*self, *interner),
        ensures
            r@ == expression_text(*self, *interner),
        decreases self,
    {
        proof {
            reveal_strlit("this");
            reveal_strlit("new.target");
            reveal_strlit("\"");
            reveal_strlit("true");
            reveal_strlit("false");
            reveal_strlit("null");
            reveal_strlit("undefined");
            reveal_strlit("await ");
            reveal_strlit("yield ");
            reveal_strlit("yield");
        }
        match self {
            Expression::This => String::from_str("this"),
            Expression::NewTarget => String::from_str("new.target"),
            Expression::Identifier(sym) => interner.resolve_expect(*sym).clone(),
            Expression::Literal(Literal::String(sym)) => {
                let mut text = String::from_str("\"");
                text.append(interner.resolve_expect(*sym).as_str());
                text.append("\"");
                text
            },
            Expression::Literal(Literal::Bool(b)) => if *b {
                String::from_str("true")
            } else {
                String::from_str("false")
            },
            Expression::Literal(Literal::Null) => String::from_str("null"),
            Expression::Literal(Literal::Undefined) => String::from_str("undefined"),
            Expression::Await(inner) => {
                let mut text = String::from_str("await ");
                let inner_text = inner.to_interned_string(interner);
                text.append(inner_text.as_str());
                text
            },
            Expression::Yield(inner) => match inner {
                Some(inner) => {
                    let mut text = String::from_str("yield ");
                    let inner_text = inner.to_interned_string(interner);
                    text.append(inner_text.as_str());
                    text
                },
                None => String::from_str("yield"),
            },
        }
    }
}

/// The `throw` statement throws a user-defined exception.
///
/// Syntax: `throw expression;`
///
/// Execution of the current function stops, and control passes to the first
/// catch block in the call stack. If no catch block exists among the caller
/// functions, the program terminates.
#[derive(Debug)]
pub struct Throw {
    pub target: Expression,
}

impl Clone for Throw {
    fn clone(&self) -> (r: Self)
        ensures
            r == *self,
    {
        Throw { target: self.target.clone() }
    }
}

impl PartialEq for Throw {
    fn eq(&self, other: &Self) -> (r: bool) {
        self.target.eq(&other.target)
    }
}

impl vstd::std_specs::cmp::PartialEqSpecImpl for Throw {
    open spec fn obeys_eq_spec() -> bool {
        true
    }

    open spec fn eq_spec(&self, other: &Self) -> bool {
        *self == *other
    }
}

impl Throw {
    /// The target expression of this `throw` statement.
    pub fn target(&self) -> (r: &Expression)
        ensures
            *r == self.target,
    {
        &self.target
    }

    /// Creates a `throw` node.
    pub fn new(target: Expression) -> (r: Self)
        ensures
            r.target == target,
    {
        Throw { target }
    }

    /// Whether the thrown expression refers to `arguments`.
    pub fn contains_arguments(&self) -> (r: bool)
        ensures
            r == expression_contains_arguments(self.target),
    {
        self.target.contains_arguments()
    }

    /// Whether the thrown expression contains the construct `symbol`.
    pub fn contains(&self, symbol: ContainsSymbol) -> (r: bool)
        ensures
            r == expression_contains(self.target, symbol),
    {
        self.target.contains(symbol)
    }

    /// The source text of this statement.
    pub fn to_interned_string(&self, interner: &Interner) -> (r: String)
        requires
            expression_symbols_known(self.target, *interner),
        ensures
            r@ == "throw "@ + expression_text(self.target, *interner),
    {
        let mut text = String::from_str("throw ");
        proof {
            reveal_strlit("throw ");
        }
        let target = self.target.to_interned_string(interner);
        text.append(target.as_str());
        text
    }
}

/// A block of statements, as the code they compile to and the jumps out of
/// it (`break` and `continue`) that its compilation leaves to the statement
/// it is compiled in, each with its operand counted from the block's start.
pub struct Block {
    pub code: Vec<u32>,
    pub jumps: Vec<JumpRecord>,
}

impl Block {
    /// Every jump operand lies in the block's code.
    pub open spec fn well_formed(&self) -> bool {
        jumps_within(self.jumps@, self.code.len() as int)
    }
}

/// The jumps of `block`, compiled at `start`: the same, with their operands
/// moved by `start`.
pub open spec fn block_jumps(block: Block, start: int) -> Seq<JumpRecord> {
    block.jumps@.map_values(
        |r: JumpRecord|
            JumpRecord { address: Label { index: (r.address.index + start) as u32 }, ..r },
    )
}

/// The `catch` clause of a try statement: its optional parameter and its
/// block.
pub struct Catch {
    pub parameter: Option<Sym>,
    pub block: Block,
}

/// The `finally` clause of a try statement.
pub struct Finally {
    pub block: Block,
}

/// The `try` statement: a block, and a `catch` clause, a `finally` clause or
/// both.
pub struct TryStatement {
    pub block: Block,
    pub catch: Option<Catch>,
    pub finally: Option<Finally>,
}

impl TryStatement {
    pub fn new(block: Block, catch: Option<Catch>, finally: Option<Finally>) -> (r: Self)
        ensures
            r.block == block,
            r.catch == catch,
            r.finally == finally,
    {
        TryStatement { block, catch, finally }
    }

    pub fn block(&self) -> (r: &Block)
        ensures
            *r == self.block,
    {
        &self.block
    }

    pub fn catch(&self) -> (r: Option<&Catch>)
        ensures
            r == match &self.catch {
                Some(c) => Some(c),
                None => None::<&Catch>,
            },
    {
        match &self.catch {
            Some(c) => Some(c),
            None => None,
        }
    }

    pub fn finally(&self) -> (r: Option<&Finally>)
        ensures
            r == match &self.finally {
                Some(f) => Some(f),
                None => None::<&Finally>,
            },
    {
        match &self.finally {
            Some(f) => Some(f),
            None => None,
        }
    }
}

/// A statement of the kinds this library compiles or describes.
pub enum Statement {
    Break(Break),
    Continue(Continue),
    Throw(Throw),
    Try(TryStatement),
}

impl From<Throw> for Statement {
    fn from(trw: Throw) -> (r: Statement) {
        Statement::Throw(trw)
    }
}

impl vstd::std_specs::convert::FromSpecImpl<Throw> for Statement {
    open spec fn obeys_from_spec() -> bool {
        true
    }

    open spec fn from_spec(v: Throw) -> Statement {
        Statement::Throw(v)
    }
}

/// An `await` expression contains `AwaitExpression`, and a `yield`
/// expression `YieldExpression`, whatever they wrap.
pub proof fn law_await_and_yield_contain_themselves(e: Expression, inner: Option<Box<Expression>>)
    ensures
        expression_contains(Expression::Await(Box::new(e)), ContainsSymbol::AwaitExpression),
        expression_contains(Expression::Yield(inner), ContainsSymbol::YieldExpression),
{
}

/// Wrapping an expression in `await` or `yield` keeps every construct it
/// contains, and adds only the wrapper's own: what the wrapped expression
/// contains is what the wrapper contains, less the wrapper's own construct.
pub proof fn law_wrapping_keeps_contents(e: Expression, symbol: ContainsSymbol)
    ensures
        expression_contains(e, symbol) ==> expression_contains(Expression::Await(Box::new(e)), symbol),
        expression_contains(e, symbol) ==> expression_contains(
            Expression::Yield(Some(Box::new(e))),
            symbol,
        ),
        symbol != ContainsSymbol::AwaitExpression ==> (expression_contains(
            Expression::Await(Box::new(e)),
            symbol,
        ) == expression_contains(e, symbol)),
        symbol != ContainsSymbol::YieldExpression ==> (expression_contains(
            Expression::Yield(Some(Box::new(e))),
            symbol,
        ) == expression_contains(e, symbol)),
        symbol != ContainsSymbol::YieldExpression ==> !expression_contains(
            Expression::Yield(None),
            symbol,
        ),
        expression_contains_arguments(Expression::Await(Box::new(e))) == expression_contains_arguments(e),
        expression_contains_arguments(Expression::Yield(Some(Box::new(e))))
            == expression_contains_arguments(e),
{
}

/// The leaves: `this` contains only `This`, `new.target` only `NewTarget`,
/// and identifiers and literals contain nothing; of them only the identifier
/// `arguments` refers to `arguments`.
pub proof fn law_leaf_contents(sym: Sym, literal: Literal, symbol: ContainsSymbol)
    ensures
        expression_contains(Expression::This, symbol) == (symbol == ContainsSymbol::This),
        expression_contains(Expression::NewTarget, symbol) == (symbol == ContainsSymbol::NewTarget),
        !expression_contains(Expression::Identifier(sym), symbol),
        !expression_contains(Expression::Literal(literal), symbol),
        expression_contains_arguments(Expression::Identifier(sym)) == (sym@ == 2),
        !expression_contains_arguments(Expression::This),
        !expression_contains_arguments(Expression::NewTarget),
        !expression_contains_arguments(Expression::Literal(literal)),
        !expression_contains_arguments(Expression::Yield(None)),
{
}

} // verus!
