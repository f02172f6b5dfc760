//! The parser: turns a token stream into an abstract syntax tree by
//! recursive descent, with precedence climbing for binary expressions.
//!
//! The parser keeps one token of lookahead in `current_token` and owns the
//! [`Tokenizer`] that drives it. Every parsing method is pinned by a spec
//! function over [`PState`], the mathematical parser state; the spec parser
//! threads a fuel bound through its recursion, and the executable parser
//! mirrors it with an explicit depth bound, failing with
//! [`ParseError::NestingTooDeep`] instead of overflowing the call stack.

use vstd::prelude::*;

use crate::error::ParseError;
use crate::lexer::{tok_step, Tok, Token, Tokenizer};

verus! {

/// How deep the parser's recursion may go before it reports
/// [`ParseError::NestingTooDeep`]. Each nested construct and each further
/// operator or call argument consumes one unit.
pub const MAX_DEPTH: u32 = 1024;

// ------------------------------------------------------------------
// The abstract syntax tree
// ------------------------------------------------------------------

/// A binary operator, with a fixed precedence.
#[derive(Debug, Clone, Copy, PartialEq, Eq, Hash, Structural)]
pub enum Operator {
    Plus,
    Minus,
    Multiply,
    Divide,
}

/// An expression node. Nodes are immutable once constructed and owned by
/// their parent; the numeric value of a literal is kept as its text.
#[derive(Debug, PartialEq)]
pub enum Expression {
    /// A numeric literal, as its text: digits and at most one decimal point.
    NumberExpression(String),
    /// A reference to a variable by name.
    VariableExpression(String),
    /// An application of a binary operator.
    BinaryExpression { operator: Operator, lhs: Box<Expression>, rhs: Box<Expression> },
    /// A call of a named function on ordered arguments.
    CallExpression { callee: String, args: Vec<Expression> },
}

/// A function's name and ordered parameter names, without a body.
#[derive(Debug, PartialEq)]
pub struct Prototype {
    pub name: String,
    pub args: Vec<String>,
}

/// A function definition: a prototype and its body expression. A top-level
/// expression is wrapped as a `Function` with a synthetic anonymous prototype.
#[derive(Debug, PartialEq)]
pub struct Function {
    pub prototype: Prototype,
    pub body: Expression,
}

/// The mathematical form of an [`Expression`], over `Seq<char>`.
pub enum SpecExpr {
    Num(Seq<char>),
    Var(Seq<char>),
    Bin { operator: Operator, lhs: Box<SpecExpr>, rhs: Box<SpecExpr> },
    Call { callee: Seq<char>, args: Seq<SpecExpr> },
}

/// The mathematical form of a [`Prototype`].
pub struct SpecProto {
    pub name: Seq<char>,
    pub args: Seq<Seq<char>>,
}

/// The mathematical form of a [`Function`].
pub struct SpecFunc {
    pub prototype: SpecProto,
    pub body: SpecExpr,
}

/// The mathematical form of an expression tree.
pub open spec fn expr_view(e: Expression) -> SpecExpr
    decreases e,
    via expr_view_decreases
{
    match e {
        Expression::NumberExpression(t) => SpecExpr::Num(t@),
        Expression::VariableExpression(n) => SpecExpr::Var(n@),
        Expression::BinaryExpression { operator, lhs, rhs } => SpecExpr::Bin {
            operator,
            lhs: Box::new(expr_view(*lhs)),
            rhs: Box::new(expr_view(*rhs)),
        },
        Expression::CallExpression { callee, args } => SpecExpr::Call {
            callee: callee@,
            args: exprs_view(args@),
        },
    }
}

/// The mathematical form of a sequence of expressions, element by element.
pub open spec fn exprs_view(es: Seq<Expression>) -> Seq<SpecExpr>
    decreases es,
    via exprs_view_decreases
{
    Seq::new(
        es.len(),
        |i: int|
            if 0 <= i < es.len() {
                expr_view(es[i])
            } else {
                SpecExpr::Num(Seq::empty())
            },
    )
}

/// Termination of [`expr_view`]: each call argument stands below its call
/// node.
#[via_fn]
proof fn expr_view_decreases(e: Expression) {
    broadcast use vstd::std_specs::vec::axiom_vec_decreases_to_view;

    if let Expression::CallExpression { callee, args } = e {
        assert(decreases_to!(e => args));
        assert(decreases_to!(args => args@));
    }
}

/// Termination of [`exprs_view`]: each element stands below its sequence.
#[via_fn]
proof fn exprs_view_decreases(es: Seq<Expression>) {
    broadcast use vstd::seq::axiom_seq_index_decreases;

    assert forall|i: int| 0 <= i < es.len() implies decreases_to!(es => es[i]) by {
        assert(decreases_to!(es => es[i]));
    }
}

/// Appending an expression appends its mathematical form.
pub proof fn lemma_exprs_view_push(es: Seq<Expression>, e: Expression)
    ensures
        exprs_view(es.push(e)) == exprs_view(es).push(expr_view(e)),
{
    assert(exprs_view(es.push(e)) =~= exprs_view(es).push(expr_view(e)));
}

impl View for Expression {
    type V = SpecExpr;

    open spec fn view(&self) -> SpecExpr {
        expr_view(*self)
    }
}

/// The mathematical form of a sequence of parameter names.
pub open spec fn names_view(names: Seq<String>) -> Seq<Seq<char>> {
    names.map_values(|s: String| s@)
}

/// Appending a name appends its character sequence.
pub proof fn lemma_names_view_push(names: Seq<String>, n: String)
    ensures
        names_view(names.push(n)) == names_view(names).push(n@),
{
    assert(names_view(names.push(n)) =~= names_view(names).push(n@));
}

impl View for Prototype {
    type V = SpecProto;

    open spec fn view(&self) -> SpecProto {
        SpecProto { name: self.name@, args: names_view(self.args@) }
    }
}

impl View for Function {
    type V = SpecFunc;

    open spec fn view(&self) -> SpecFunc {
        SpecFunc { prototype: self.prototype@, body: self.body@ }
    }
}

// ------------------------------------------------------------------
// Operators and precedence
// ------------------------------------------------------------------

/// Which operator a symbol character names, if any.
pub open spec fn op_of_sym(c: char) -> Option<Operator> {
    if c == '+' {
        Some(Operator::Plus)
    } else if c == '-' {
        Some(Operator::Minus)
    } else if c == '*' {
        Some(Operator::Multiply)
    } else if c == '/' {
        Some(Operator::Divide)
    } else {
        None
    }
}

/// The fixed precedence of an operator; a higher value binds tighter.
pub open spec fn op_precedence(op: Operator) -> u32 {
    match op {
        Operator::Plus => 20,
        Operator::Minus => 20,
        Operator::Multiply => 30,
        Operator::Divide => 30,
    }
}

/// The precedence of a lookahead token: that of the operator it names, and
/// `0` for every other token, which ends binary-expression parsing.
pub open spec fn tok_precedence(t: Tok) -> u32 {
    match t {
        Tok::Sym(c) => match op_of_sym(c) {
            Some(op) => op_precedence(op),
            None => 0,
        },
        _ => 0,
    }
}

/// Whether a token can begin a primary expression: an identifier, a
/// number, or an opening parenthesis.
pub open spec fn starts_primary(t: Tok) -> bool {
    match t {
        Tok::Ident(_) => true,
        Tok::Num(_) => true,
        Tok::Sym(c) => c == '(',
        _ => false,
    }
}

// ------------------------------------------------------------------
// The mathematical parser
// ------------------------------------------------------------------

/// The mathematical parser state: the source, the cursor of the tokenizer
/// behind the lookahead, and the lookahead token itself.
pub struct PState {
    pub src: Seq<char>,
    pub at: int,
    pub cur: Tok,
}

/// The state after fetching one more token, or the tokenizer's error.
pub open spec fn sp_advance(p: PState) -> Result<(Tok, PState), ParseError> {
    match tok_step(p.src, p.at) {
        Ok((t, j)) => Ok((t, PState { src: p.src, at: j, cur: t })),
        Err(e) => Err(e),
    }
}

/// Parsing a numeric literal: the lookahead must be a number, which becomes
/// a [`SpecExpr::Num`] leaf, and the lookahead moves past it.
pub open spec fn sp_parse_number(p: PState) -> Result<(SpecExpr, PState), ParseError> {
    match p.cur {
        Tok::Num(w) => match sp_advance(p) {
            Ok((t1, p1)) => Ok((SpecExpr::Num(w), p1)),
            Err(e) => Err(e),
        },
        _ => Err(ParseError::UnexpectedToken),
    }
}

/// Parsing a primary expression: a dispatch on the lookahead to an
/// identifier expression, a numeric literal, or a parenthesized expression;
/// any other token cannot start an expression.
pub open spec fn sp_parse_primary(p: PState, fuel: nat) -> Result<(SpecExpr, PState), ParseError>
    decreases fuel,
{
    if fuel == 0 {
        Err(ParseError::NestingTooDeep)
    } else {
        match p.cur {
            Tok::Ident(n) => sp_parse_identifier_expression(p, (fuel - 1) as nat),
            Tok::Num(w) => sp_parse_number(p),
            Tok::Sym(c) => if c == '(' {
                sp_parse_parenthesis(p, (fuel - 1) as nat)
            } else {
                Err(ParseError::UnexpectedToken)
            },
            _ => Err(ParseError::UnexpectedToken),
        }
    }
}

/// Parsing an expression that starts with an identifier: a bare variable
/// reference, unless `(` follows, which begins a call; `()` is an empty
/// argument list, anything else is one or more comma-separated arguments.
pub open spec fn sp_parse_identifier_expression(p: PState, fuel: nat) -> Result<
    (SpecExpr, PState),
    ParseError,
>
    decreases fuel,
{
    if fuel == 0 {
        Err(ParseError::NestingTooDeep)
    } else {
        match p.cur {
            Tok::Ident(name) => match sp_advance(p) {
                Err(e) => Err(e),
                Ok((t1, p1)) => if t1 == Tok::Sym('(') {
                    match sp_advance(p1) {
                        Err(e) => Err(e),
                        Ok((t2, p2)) => if t2 == Tok::Sym(')') {
                            match sp_advance(p2) {
                                Err(e) => Err(e),
                                Ok((t3, p3)) => Ok(
                                    (SpecExpr::Call { callee: name, args: Seq::empty() }, p3),
                                ),
                            }
                        } else {
                            sp_parse_args(p2, name, Seq::empty(), (fuel - 1) as nat)
                        },
                    }
                } else {
                    Ok((SpecExpr::Var(name), p1))
                },
            },
            _ => Err(ParseError::UnexpectedToken),
        }
    }
}

/// Parsing the rest of a call's argument list: one expression, then either
/// `)` closing the call, `,` before a further argument, or an error.
/// `acc` holds the arguments already parsed.
pub open spec fn sp_parse_args(p: PState, callee: Seq<char>, acc: Seq<SpecExpr>, fuel: nat) -> Result<
    (SpecExpr, PState),
    ParseError,
>
    decreases fuel,
{
    if fuel == 0 {
        Err(ParseError::NestingTooDeep)
    } else {
        match sp_parse_expression(p, (fuel - 1) as nat) {
            Err(e) => Err(e),
            Ok((arg, p1)) => match p1.cur {
                Tok::Sym(')') => match sp_advance(p1) {
                    Err(e) => Err(e),
                    Ok((t2, p2)) => Ok((SpecExpr::Call { callee, args: acc.push(arg) }, p2)),
                },
                Tok::Sym(',') => match sp_advance(p1) {
                    Err(e) => Err(e),
                    Ok((t2, p2)) => sp_parse_args(p2, callee, acc.push(arg), (fuel - 1) as nat),
                },
                _ => Err(ParseError::ExpectedArgumentSeparatorOrClose),
            },
        }
    }
}

/// Parsing a parenthesized expression: `(`, a full expression, then `)`,
/// whose absence is an unmatched parenthesis. The inner expression is
/// returned unchanged: grouping produces no node of its own.
pub open spec fn sp_parse_parenthesis(p: PState, fuel: nat) -> Result<
    (SpecExpr, PState),
    ParseError,
>
    decreases fuel,
{
    if fuel == 0 {
        Err(ParseError::NestingTooDeep)
    } else {
        match p.cur {
            Tok::Sym('(') => match sp_advance(p) {
                Err(e) => Err(e),
                Ok((t1, p1)) => match sp_parse_expression(p1, (fuel - 1) as nat) {
                    Err(e) => Err(e),
                    Ok((inner, p2)) => match p2.cur {
                        Tok::Sym(')') => match sp_advance(p2) {
                            Err(e) => Err(e),
                            Ok((t3, p3)) => Ok((inner, p3)),
                        },
                        _ => Err(ParseError::UnmatchedParenthesis),
                    },
                },
            },
            _ => Err(ParseError::UnexpectedToken),
        }
    }
}

/// The precedence-climbing core. While the lookahead is an operator of
/// precedence at least `min`, it is consumed together with a primary
/// right-hand side; a strictly tighter-binding operator after that captures
/// the right-hand side first, and equal precedence binds left-to-right.
pub open spec fn sp_parse_binary_rhs(p: PState, min: int, lhs: SpecExpr, fuel: nat) -> Result<
    (SpecExpr, PState),
    ParseError,
>
    decreases fuel,
{
    if fuel == 0 {
        Err(ParseError::NestingTooDeep)
    } else {
        let prec = tok_precedence(p.cur) as int;
        if prec < min {
            Ok((lhs, p))
        } else {
            match p.cur {
                Tok::Sym(c) => match op_of_sym(c) {
                    Some(op) => match sp_advance(p) {
                        Err(e) => Err(e),
                        Ok((t1, p1)) => match sp_parse_primary(p1, (fuel - 1) as nat) {
                            Err(e) => Err(e),
                            Ok((rhs, p2)) => {
                                let next = tok_precedence(p2.cur) as int;
                                if prec < next {
                                    match sp_parse_binary_rhs(p2, prec + 1, rhs, (fuel - 1) as nat) {
                                        Err(e) => Err(e),
                                        Ok((rhs2, p3)) => sp_parse_binary_rhs(
                                            p3,
                                            min,
                                            SpecExpr::Bin {
                                                operator: op,
                                                lhs: Box::new(lhs),
                                                rhs: Box::new(rhs2),
                                            },
                                            (fuel - 1) as nat,
                                        ),
                                    }
                                } else {
                                    sp_parse_binary_rhs(
                                        p2,
                                        min,
                                        SpecExpr::Bin {
                                            operator: op,
                                            lhs: Box::new(lhs),
                                            rhs: Box::new(rhs),
                                        },
                                        (fuel - 1) as nat,
                                    )
                                }
                            },
                        },
                    },
                    None => Err(ParseError::UnknownOperator),
                },
                _ => Err(ParseError::UnknownOperator),
            }
        }
    }
}

/// Parsing a full expression: a primary expression, then the
/// precedence-climbing loop seeded with minimum precedence `1`, so that any
/// real operator continues it and any other token ends it.
pub open spec fn sp_parse_expression(p: PState, fuel: nat) -> Result<(SpecExpr, PState), ParseError>
    decreases fuel,
{
    if fuel == 0 {
        Err(ParseError::NestingTooDeep)
    } else {
        match sp_parse_primary(p, (fuel - 1) as nat) {
            Err(e) => Err(e),
            Ok((lhs, p1)) => sp_parse_binary_rhs(p1, 1, lhs, (fuel - 1) as nat),
        }
    }
}

/// Parsing a prototype: a name, `(`, zero or more bare parameter names with
/// no separators, then `)`; any deviation is a malformed prototype.
pub open spec fn sp_parse_prototype(p: PState, fuel: nat) -> Result<(SpecProto, PState), ParseError>
    decreases fuel,
{
    if fuel == 0 {
        Err(ParseError::NestingTooDeep)
    } else {
        match p.cur {
            Tok::Ident(name) => match sp_advance(p) {
                Err(e) => Err(e),
                Ok((t1, p1)) => if t1 == Tok::Sym('(') {
                    match sp_advance(p1) {
                        Err(e) => Err(e),
                        Ok((t2, p2)) => sp_parse_params(p2, name, Seq::empty(), (fuel - 1) as nat),
                    }
                } else {
                    Err(ParseError::MalformedPrototype)
                },
            },
            _ => Err(ParseError::MalformedPrototype),
        }
    }
}

/// Parsing the parameter names of a prototype, `acc` holding those already
/// read, until the closing `)`.
pub open spec fn sp_parse_params(p: PState, name: Seq<char>, acc: Seq<Seq<char>>, fuel: nat) -> Result<
    (SpecProto, PState),
    ParseError,
>
    decreases fuel,
{
    if fuel == 0 {
        Err(ParseError::NestingTooDeep)
    } else {
        match p.cur {
            Tok::Ident(a) => match sp_advance(p) {
                Err(e) => Err(e),
                Ok((t1, p1)) => sp_parse_params(p1, name, acc.push(a), (fuel - 1) as nat),
            },
            Tok::Sym(')') => match sp_advance(p) {
                Err(e) => Err(e),
                Ok((t1, p1)) => Ok((SpecProto { name, args: acc }, p1)),
            },
            _ => Err(ParseError::MalformedPrototype),
        }
    }
}

/// Parsing a definition: the `def` keyword, a prototype, and a body
/// expression.
pub open spec fn sp_parse_definition(p: PState, fuel: nat) -> Result<(SpecFunc, PState), ParseError> {
    match p.cur {
        Tok::Def => match sp_advance(p) {
            Err(e) => Err(e),
            Ok((t1, p1)) => match sp_parse_prototype(p1, fuel) {
                Err(e) => Err(e),
                Ok((proto, p2)) => match sp_parse_expression(p2, fuel) {
                    Err(e) => Err(e),
                    Ok((body, p3)) => Ok((SpecFunc { prototype: proto, body }, p3)),
                },
            },
        },
        _ => Err(ParseError::UnexpectedToken),
    }
}

/// Parsing an external declaration: the `extern` keyword and a prototype,
/// with no body.
pub open spec fn sp_parse_extern(p: PState, fuel: nat) -> Result<(SpecProto, PState), ParseError> {
    match p.cur {
        Tok::Extern => match sp_advance(p) {
            Err(e) => Err(e),
            Ok((t1, p1)) => sp_parse_prototype(p1, fuel),
        },
        _ => Err(ParseError::UnexpectedToken),
    }
}

/// Parsing a top-level expression: a bare expression wrapped as a function
/// whose prototype has the reserved synthetic name and no parameters.
pub open spec fn sp_parse_top_level(p: PState, fuel: nat) -> Result<(SpecFunc, PState), ParseError> {
    match sp_parse_expression(p, fuel) {
        Err(e) => Err(e),
        Ok((body, p1)) => Ok(
            (
                SpecFunc {
                    prototype: SpecProto { name: "__anon_expr"@, args: Seq::empty() },
                    body,
                },
                p1,
            ),
        ),
    }
}

// ------------------------------------------------------------------
// The executable parser
// ------------------------------------------------------------------

impl Prototype {
    /// The function's name.
    pub fn get_name(self) -> (r: String)
        ensures
            r@ == self@.name,
    {
        self.name
    }
}

/// The recursive-descent parser: one token of lookahead over an owned
/// [`Tokenizer`].
#[derive(Debug)]
pub struct Parser {
    tokenizer: Tokenizer,
    current_token: Token,
}

impl View for Parser {
    type V = PState;

    closed spec fn view(&self) -> PState {
        PState {
            src: self.tokenizer.src(),
            at: self.tokenizer.at(),
            cur: self.current_token@,
        }
    }
}

impl Parser {
    /// The tokenizer's cursor stands inside the input.
    pub closed spec fn wf(self) -> bool {
        self.tokenizer.wf()
    }

    /// A parser over `string`, with the first token already fetched; the
    /// tokenizer's error if fetching it fails.
    pub fn new(string: String) -> (r: Result<Parser, ParseError>)
        ensures
            match r {
                Ok(p) => {
                    &&& p.wf()
                    &&& p@.src == string@
                    &&& tok_step(string@, 0) == Ok::<(Tok, int), ParseError>((p@.cur, p@.at))
                },
                Err(e) => tok_step(string@, 0) == Err::<(Tok, int), ParseError>(e),
            },
    {
        let mut tokenizer = Tokenizer::new(string.as_str());
        match tokenizer.tokenize() {
            Ok(t) => Ok(Parser { tokenizer, current_token: t }),
            Err(e) => Err(e),
        }
    }

    /// How many characters the tokenizer behind the lookahead has consumed;
    /// after an error this is where the parse stopped, a rough place for a
    /// diagnostic.
    pub fn position(&self) -> (r: usize)
        ensures
            r as int == self@.at,
    {
        self.tokenizer.position()
    }

    /// Fetches the next token into the lookahead and returns it: exactly
    /// [`sp_advance`] on the parser state.
    pub fn get_next_token(&mut self) -> (r: Result<Token, ParseError>)
        requires
            old(self).wf(),
        ensures
            final(self).wf(),
            final(self)@.src == old(self)@.src,
            match r {
                Ok(t) => sp_advance(old(self)@) == Ok::<(Tok, PState), ParseError>(
                    (t@, final(self)@),
                ),
                Err(e) => sp_advance(old(self)@) == Err::<(Tok, PState), ParseError>(e),
            },
    {
        match self.tokenizer.tokenize() {
            Ok(t) => {
                self.current_token = t.duplicate();
                Ok(t)
            },
            Err(e) => Err(e),
        }
    }

    /// Which operator a symbol character names, if any.
    pub fn operator(token: char) -> (r: Option<Operator>)
        ensures
            r == op_of_sym(token),
    {
        if token == '+' {
            Some(Operator::Plus)
        } else if token == '-' {
            Some(Operator::Minus)
        } else if token == '*' {
            Some(Operator::Multiply)
        } else if token == '/' {
            Some(Operator::Divide)
        } else {
            None
        }
    }

    /// The precedence of the lookahead token: that of the operator it
    /// names, and `0` for any other token.
    pub fn get_token_precedence(&self) -> (r: u32)
        ensures
            r == tok_precedence(self@.cur),
    {
        match &self.current_token {
            Token::Other(c) => match Self::operator(*c) {
                Some(op) => match op {
                    Operator::Plus => 20,
                    Operator::Minus => 20,
                    Operator::Multiply => 30,
                    Operator::Divide => 30,
                },
                None => 0,
            },
            _ => 0,
        }
    }

    /// Parses a numeric literal at the lookahead: exactly
    /// [`sp_parse_number`] on the parser state.
    pub fn parse_number_expression(&mut self) -> (r: Result<Expression, ParseError>)
        requires
            old(self).wf(),
        ensures
            final(self).wf(),
            match r {
                Ok(e) => sp_parse_number(old(self)@) == Ok::<(SpecExpr, PState), ParseError>(
                    (e@, final(self)@),
                ),
                Err(er) => sp_parse_number(old(self)@) == Err::<(SpecExpr, PState), ParseError>(er),
            },
            !(old(self)@.cur matches Tok::Num(_)) ==> final(self)@ == old(self)@,
    {
        let text = match &self.current_token {
            Token::Number(t) => t.clone(),
            _ => {
                return Err(ParseError::UnexpectedToken);
            },
        };
        match self.get_next_token() {
            Ok(_) => Ok(Expression::NumberExpression(text)),
            Err(e) => Err(e),
        }
    }

    /// Parses a primary expression, dispatching on the lookahead: exactly
    /// [`sp_parse_primary`] with `depth` as the fuel.
    pub fn parse_primary(&mut self, depth: u32) -> (r: Result<Expression, ParseError>)
        requires
            old(self).wf(),
        ensures
            final(self).wf(),
            match r {
                Ok(e) => sp_parse_primary(old(self)@, depth as nat) == Ok::<
                    (SpecExpr, PState),
                    ParseError,
                >((e@, final(self)@)),
                Err(er) => sp_parse_primary(old(self)@, depth as nat) == Err::<
                    (SpecExpr, PState),
                    ParseError,
                >(er),
            },
            !starts_primary(old(self)@.cur) ==> final(self)@ == old(self)@,
        decreases depth,
    {
        if depth == 0 {
            return Err(ParseError::NestingTooDeep);
        }
        match &self.current_token {
            Token::Identifier(_) => self.parse_identifier_expression(depth - 1),
            Token::Number(_) => self.parse_number_expression(),
            Token::Other(c) => {
                let symbol = *c;
                if symbol == '(' {
                    self.parse_parenthesis_expression(depth - 1)
                } else {
                    Err(ParseError::UnexpectedToken)
                }
            },
            _ => Err(ParseError::UnexpectedToken),
        }
    }

    /// Parses an expression that starts with an identifier, a variable
    /// reference or a call: exactly [`sp_parse_identifier_expression`].
    #[verifier::loop_isolation(false)]
    pub fn parse_identifier_expression(&mut self, depth: u32) -> (r: Result<
        Expression,
        ParseError,
    >)
        requires
            old(self).wf(),
        ensures
            final(self).wf(),
            match r {
                Ok(e) => sp_parse_identifier_expression(old(self)@, depth as nat) == Ok::<
                    (SpecExpr, PState),
                    ParseError,
                >((e@, final(self)@)),
                Err(er) => sp_parse_identifier_expression(old(self)@, depth as nat) == Err::<
                    (SpecExpr, PState),
                    ParseError,
                >(er),
            },
            !(old(self)@.cur matches Tok::Ident(_)) ==> final(self)@ == old(self)@,
        decreases depth,
    {
        if depth == 0 {
            return Err(ParseError::NestingTooDeep);
        }
        let name = match &self.current_token {
            Token::Identifier(n) => n.clone(),
            _ => {
                return Err(ParseError::UnexpectedToken);
            },
        };
        match self.get_next_token() {
            Ok(_) => {},
            Err(e) => {
                return Err(e);
            },
        }
        let is_open = match &self.current_token {
            Token::Other(c) => *c == '(',
            _ => false,
        };
        if !is_open {
            return Ok(Expression::VariableExpression(name));
        }
        match self.get_next_token() {
            Ok(_) => {},
            Err(e) => {
                return Err(e);
            },
        }
        let is_close = match &self.current_token {
            Token::Other(c) => *c == ')',
            _ => false,
        };
        if is_close {
            match self.get_next_token() {
                Ok(_) => {},
                Err(e) => {
                    return Err(e);
                },
            }
            let e = Expression::CallExpression { callee: name, args: Vec::new() };
            proof {
                assert(exprs_view(Seq::<Expression>::empty()) =~= Seq::<SpecExpr>::empty());
            }
            return Ok(e);
        }
        let ghost p_args = self@;
        let ghost fuel0 = (depth - 1) as nat;
        let mut args: Vec<Expression> = Vec::new();
        let mut d: u32 = depth - 1;
        proof {
            assert(exprs_view(Seq::<Expression>::empty()) =~= Seq::<SpecExpr>::empty());
        }
        loop
            invariant
                self.wf(),
                d < depth,
                sp_parse_args(self@, name@, exprs_view(args@), d as nat) == sp_parse_args(
                    p_args,
                    name@,
                    Seq::<SpecExpr>::empty(),
                    fuel0,
                ),
            decreases d,
        {
            if d == 0 {
                return Err(ParseError::NestingTooDeep);
            }
            let arg = match self.parse_expression(d - 1) {
                Ok(x) => x,
                Err(e) => {
                    return Err(e);
                },
            };
            proof {
                lemma_exprs_view_push(args@, arg);
            }
            args.push(arg);
            let is_close_now = match &self.current_token {
                Token::Other(c) => *c == ')',
                _ => false,
            };
            if is_close_now {
                match self.get_next_token() {
                    Ok(_) => {},
                    Err(e) => {
                        return Err(e);
                    },
                }
                return Ok(Expression::CallExpression { callee: name, args });
            }
            let is_comma = match &self.current_token {
                Token::Other(c) => *c == ',',
                _ => false,
            };
            if !is_comma {
                return Err(ParseError::ExpectedArgumentSeparatorOrClose);
            }
            match self.get_next_token() {
                Ok(_) => {},
                Err(e) => {
                    return Err(e);
                },
            }
            d = d - 1;
        }
    }

    /// Parses a parenthesized expression, returning the inner expression
    /// unchanged: exactly [`sp_parse_parenthesis`].
    pub fn parse_parenthesis_expression(&mut self, depth: u32) -> (r: Result<
        Expression,
        ParseError,
    >)
        requires
            old(self).wf(),
        ensures
            final(self).wf(),
            match r {
                Ok(e) => sp_parse_parenthesis(old(self)@, depth as nat) == Ok::<
                    (SpecExpr, PState),
                    ParseError,
                >((e@, final(self)@)),
                Err(er) => sp_parse_parenthesis(old(self)@, depth as nat) == Err::<
                    (SpecExpr, PState),
                    ParseError,
                >(er),
            },
            !(old(self)@.cur matches Tok::Sym('(')) ==> final(self)@ == old(self)@,
        decreases depth,
    {
        if depth == 0 {
            return Err(ParseError::NestingTooDeep);
        }
        let is_open = match &self.current_token {
            Token::Other(c) => *c == '(',
            _ => false,
        };
        if !is_open {
            return Err(ParseError::UnexpectedToken);
        }
        match self.get_next_token() {
            Ok(_) => {},
            Err(e) => {
                return Err(e);
            },
        }
        let inner = match self.parse_expression(depth - 1) {
            Ok(x) => x,
            Err(e) => {
                return Err(e);
            },
        };
        let is_close = match &self.current_token {
            Token::Other(c) => *c == ')',
            _ => false,
        };
        if !is_close {
            return Err(ParseError::UnmatchedParenthesis);
        }
        match self.get_next_token() {
            Ok(_) => {},
            Err(e) => {
                return Err(e);
            },
        }
        Ok(inner)
    }

    /// The precedence-climbing core: exactly [`sp_parse_binary_rhs`] on the
    /// parser state, the minimum precedence, and the left-hand side so far.
    #[verifier::loop_isolation(false)]
    pub fn parse_binary_op_rhs(
        &mut self,
        expression_precedence: u32,
        lhs: Expression,
        depth: u32,
    ) -> (r: Result<Expression, ParseError>)
        requires
            old(self).wf(),
        ensures
            final(self).wf(),
            match r {
                Ok(e) => sp_parse_binary_rhs(
                    old(self)@,
                    expression_precedence as int,
                    expr_view(lhs),
                    depth as nat,
                ) == Ok::<(SpecExpr, PState), ParseError>((e@, final(self)@)),
                Err(er) => sp_parse_binary_rhs(
                    old(self)@,
                    expression_precedence as int,
                    expr_view(lhs),
                    depth as nat,
                ) == Err::<(SpecExpr, PState), ParseError>(er),
            },
        decreases depth,
    {
        let ghost target = sp_parse_binary_rhs(
            old(self)@,
            expression_precedence as int,
            expr_view(lhs),
            depth as nat,
        );
        let mut cur_lhs = lhs;
        let mut d: u32 = depth;
        loop
            invariant
                self.wf(),
                d <= depth,
                sp_parse_binary_rhs(
                    self@,
                    expression_precedence as int,
                    expr_view(cur_lhs),
                    d as nat,
                ) == target,
            decreases d,
        {
            if d == 0 {
                return Err(ParseError::NestingTooDeep);
            }
            let prec = self.get_token_precedence();
            if prec < expression_precedence {
                return Ok(cur_lhs);
            }
            let symbol = match &self.current_token {
                Token::Other(c) => Some(*c),
                _ => None,
            };
            let op = match symbol {
                Some(c) => match Self::operator(c) {
                    Some(op) => op,
                    None => {
                        return Err(ParseError::UnknownOperator);
                    },
                },
                None => {
                    return Err(ParseError::UnknownOperator);
                },
            };
            match self.get_next_token() {
                Ok(_) => {},
                Err(e) => {
                    return Err(e);
                },
            }
            let mut rhs = match self.parse_primary(d - 1) {
                Ok(x) => x,
                Err(e) => {
                    return Err(e);
                },
            };
            let next_prec = self.get_token_precedence();
            if prec < next_prec {
                rhs = match self.parse_binary_op_rhs(prec + 1, rhs, d - 1) {
                    Ok(x) => x,
                    Err(e) => {
                        return Err(e);
                    },
                };
            }
            cur_lhs = Expression::BinaryExpression {
                operator: op,
                lhs: Box::new(cur_lhs),
                rhs: Box::new(rhs),
            };
            d = d - 1;
        }
    }

    /// Parses a full expression, a primary followed by the
    /// precedence-climbing loop: exactly [`sp_parse_expression`].
    pub fn parse_expression(&mut self, depth: u32) -> (r: Result<Expression, ParseError>)
        requires
            old(self).wf(),
        ensures
            final(self).wf(),
            match r {
                Ok(e) => sp_parse_expression(old(self)@, depth as nat) == Ok::<
                    (SpecExpr, PState),
                    ParseError,
                >((e@, final(self)@)),
                Err(er) => sp_parse_expression(old(self)@, depth as nat) == Err::<
                    (SpecExpr, PState),
                    ParseError,
                >(er),
            },
        decreases depth,
    {
        if depth == 0 {
            return Err(ParseError::NestingTooDeep);
        }
        let lhs = match self.parse_primary(depth - 1) {
            Ok(x) => x,
            Err(e) => {
                return Err(e);
            },
        };
        self.parse_binary_op_rhs(1, lhs, depth - 1)
    }

    /// Parses a prototype, a name and parenthesized bare parameter names:
    /// exactly [`sp_parse_prototype`].
    #[verifier::loop_isolation(false)]
    pub fn parse_prototype(&mut self, depth: u32) -> (r: Result<Prototype, ParseError>)
        requires
            old(self).wf(),
        ensures
            final(self).wf(),
            match r {
                Ok(p) => sp_parse_prototype(old(self)@, depth as nat) == Ok::<
                    (SpecProto, PState),
                    ParseError,
                >((p@, final(self)@)),
                Err(er) => sp_parse_prototype(old(self)@, depth as nat) == Err::<
                    (SpecProto, PState),
                    ParseError,
                >(er),
            },
            !(old(self)@.cur matches Tok::Ident(_)) ==> final(self)@ == old(self)@,
        decreases depth,
    {
        if depth == 0 {
            return Err(ParseError::NestingTooDeep);
        }
        let name = match &self.current_token {
            Token::Identifier(n) => n.clone(),
            _ => {
                return Err(ParseError::MalformedPrototype);
            },
        };
        match self.get_next_token() {
            Ok(_) => {},
            Err(e) => {
                return Err(e);
            },
        }
        let is_open = match &self.current_token {
            Token::Other(c) => *c == '(',
            _ => false,
        };
        if !is_open {
            return Err(ParseError::MalformedPrototype);
        }
        match self.get_next_token() {
            Ok(_) => {},
            Err(e) => {
                return Err(e);
            },
        }
        let ghost p_params = self@;
        let ghost fuel0 = (depth - 1) as nat;
        let mut args: Vec<String> = Vec::new();
        let mut d: u32 = depth - 1;
        proof {
            assert(names_view(Seq::<String>::empty()) =~= Seq::<Seq<char>>::empty());
        }
        loop
            invariant
                self.wf(),
                sp_parse_params(self@, name@, names_view(args@), d as nat) == sp_parse_params(
                    p_params,
                    name@,
                    Seq::<Seq<char>>::empty(),
                    fuel0,
                ),
            decreases d,
        {
            if d == 0 {
                return Err(ParseError::NestingTooDeep);
            }
            let param = match &self.current_token {
                Token::Identifier(a) => Some(a.clone()),
                _ => None,
            };
            if let Some(param) = param {
                match self.get_next_token() {
                    Ok(_) => {},
                    Err(e) => {
                        return Err(e);
                    },
                }
                proof {
                    lemma_names_view_push(args@, param);
                }
                args.push(param);
                d = d - 1;
            } else {
                let is_close = match &self.current_token {
                    Token::Other(c) => *c == ')',
                    _ => false,
                };
                if !is_close {
                    return Err(ParseError::MalformedPrototype);
                }
                match self.get_next_token() {
                    Ok(_) => {},
                    Err(e) => {
                        return Err(e);
                    },
                }
                return Ok(Prototype { name, args });
            }
        }
    }

    /// Parses a function definition, `def`, a prototype and a body:
    /// exactly [`sp_parse_definition`] with the parser's full depth bound.
    pub fn parse_definition(&mut self) -> (r: Result<Function, ParseError>)
        requires
            old(self).wf(),
        ensures
            final(self).wf(),
            match r {
                Ok(f) => sp_parse_definition(old(self)@, MAX_DEPTH as nat) == Ok::<
                    (SpecFunc, PState),
                    ParseError,
                >((f@, final(self)@)),
                Err(er) => sp_parse_definition(old(self)@, MAX_DEPTH as nat) == Err::<
                    (SpecFunc, PState),
                    ParseError,
                >(er),
            },
            !(old(self)@.cur matches Tok::Def) ==> final(self)@ == old(self)@,
    {
        let is_def = match &self.current_token {
            Token::Def => true,
            _ => false,
        };
        if !is_def {
            return Err(ParseError::UnexpectedToken);
        }
        match self.get_next_token() {
            Ok(_) => {},
            Err(e) => {
                return Err(e);
            },
        }
        let prototype = match self.parse_prototype(MAX_DEPTH) {
            Ok(p) => p,
            Err(e) => {
                return Err(e);
            },
        };
        let body = match self.parse_expression(MAX_DEPTH) {
            Ok(b) => b,
            Err(e) => {
                return Err(e);
            },
        };
        Ok(Function { prototype, body })
    }

    /// Parses an external declaration, `extern` and a prototype with no
    /// body: exactly [`sp_parse_extern`] with the parser's full depth bound.
    pub fn parse_extern(&mut self) -> (r: Result<Prototype, ParseError>)
        requires
            old(self).wf(),
        ensures
            final(self).wf(),
            match r {
                Ok(p) => sp_parse_extern(old(self)@, MAX_DEPTH as nat) == Ok::<
                    (SpecProto, PState),
                    ParseError,
                >((p@, final(self)@)),
                Err(er) => sp_parse_extern(old(self)@, MAX_DEPTH as nat) == Err::<
                    (SpecProto, PState),
                    ParseError,
                >(er),
            },
            !(old(self)@.cur matches Tok::Extern) ==> final(self)@ == old(self)@,
    {
        let is_extern = match &self.current_token {
            Token::Extern => true,
            _ => false,
        };
        if !is_extern {
            return Err(ParseError::UnexpectedToken);
        }
        match self.get_next_token() {
            Ok(_) => {},
            Err(e) => {
                return Err(e);
            },
        }
        self.parse_prototype(MAX_DEPTH)
    }

    /// Parses a bare top-level expression and wraps it as a function with
    /// the reserved anonymous prototype: exactly [`sp_parse_top_level`]
    /// with the parser's full depth bound.
    pub fn parse_top_level_expression(&mut self) -> (r: Result<Function, ParseError>)
        requires
            old(self).wf(),
        ensures
            final(self).wf(),
            match r {
                Ok(f) => sp_parse_top_level(old(self)@, MAX_DEPTH as nat) == Ok::<
                    (SpecFunc, PState),
                    ParseError,
                >((f@, final(self)@)),
                Err(er) => sp_parse_top_level(old(self)@, MAX_DEPTH as nat) == Err::<
                    (SpecFunc, PState),
                    ParseError,
                >(er),
            },
    {
        let body = match self.parse_expression(MAX_DEPTH) {
            Ok(b) => b,
            Err(e) => {
                return Err(e);
            },
        };
        let prototype = Prototype { name: String::from_str("__anon_expr"), args: Vec::new() };
        proof {
            assert(names_view(Seq::<String>::empty()) =~= Seq::<Seq<char>>::empty());
        }
        Ok(Function { prototype, body })
    }
}

} // verus!
