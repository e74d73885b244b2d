//! AST builder: a recursive-descent consumer of the token sequence. It
//! dispatches on the leading keyword or token shape to build statement nodes,
//! and recursively splits expression token runs into binary, comparison, call
//! and literal leaves.
//!
//! The grammar is modelled by the mutually recursive spec functions
//! [`spec_stmts`], [`spec_stmt`], [`spec_parse_expr`], [`spec_call_params`],
//! [`spec_fn_params`] and [`spec_parse_condition`]; the executable parser is
//! proved to return exactly what the model says. Malformed structure is a
//! fatal parse error carrying the position, the expected construct, and the
//! token actually found; a cursor that runs past the end of the tokens is
//! reported as unexpected end of input.

use vstd::prelude::*;
use vstd::pervasive::unreached;
use crate::lexer;
use crate::lexer::{Token, TokenView, SourceLocation, LocView, Keyword, Type, Operator};
use crate::lexer::{loc_view, toks_view};

verus! {

/// A statement or expression node. The AST is a strict tree: every node is
/// owned exclusively by its parent.
///
/// In `BinaryExpr` and `Comparison` the sub-expression written *before* the
/// operator is stored in `rexpr` and the remainder in `lexpr`; the naming
/// inversion is inherent to the grammar and is kept.
#[derive(Debug, PartialEq)]
pub enum Node {
    Ident(String, SourceLocation),
    Str(String, SourceLocation),
    Int(usize, SourceLocation),

    Nop,

    Comparison {
        rexpr: (Box<Node>, SourceLocation),
        lexpr: (Box<Node>, SourceLocation),
        op: (lexer::Comparison, SourceLocation),
    },
    BinaryExpr {
        rexpr: (Box<Node>, SourceLocation),
        lexpr: (Box<Node>, SourceLocation),
        op: (Operator, SourceLocation),
    },
    Function {
        name: (String, SourceLocation),
        parameters: (Vec<(String, Type, SourceLocation)>, SourceLocation),
        return_type: (Type, SourceLocation),
        body: (Vec<Node>, SourceLocation),
    },
    Return {
        expr: (Box<Node>, SourceLocation),
    },
    Call {
        name: (String, SourceLocation),
        parameters: (Vec<Node>, SourceLocation),
    },
    Variable {
        name: (String, SourceLocation),
        var_type: (Type, SourceLocation),
        expr: (Box<Node>, SourceLocation),
    },
    If {
        test: (Box<Node>, SourceLocation),
        then_body: (Vec<Node>, SourceLocation),
        else_body: (Vec<Node>, SourceLocation),
    },
}

/// The mathematical value of a [`Node`].
pub enum NodeView {
    Ident(Seq<char>, LocView),
    Str(Seq<char>, LocView),
    Int(usize, LocView),
    Nop,
    Comparison {
        rexpr: (Box<NodeView>, LocView),
        lexpr: (Box<NodeView>, LocView),
        op: (lexer::Comparison, LocView),
    },
    BinaryExpr {
        rexpr: (Box<NodeView>, LocView),
        lexpr: (Box<NodeView>, LocView),
        op: (Operator, LocView),
    },
    Function {
        name: (Seq<char>, LocView),
        parameters: (Seq<(Seq<char>, Type, LocView)>, LocView),
        return_type: (Type, LocView),
        body: (Seq<NodeView>, LocView),
    },
    Return {
        expr: (Box<NodeView>, LocView),
    },
    Call {
        name: (Seq<char>, LocView),
        parameters: (Seq<NodeView>, LocView),
    },
    Variable {
        name: (Seq<char>, LocView),
        var_type: (Type, LocView),
        expr: (Box<NodeView>, LocView),
    },
    If {
        test: (Box<NodeView>, LocView),
        then_body: (Seq<NodeView>, LocView),
        else_body: (Seq<NodeView>, LocView),
    },
}

pub open spec fn params_view(s: Seq<(String, Type, SourceLocation)>) -> Seq<
    (Seq<char>, Type, LocView),
> {
    s.map_values(|p: (String, Type, SourceLocation)| (p.0@, p.1, loc_view(p.2)))
}

pub open spec fn node_view(n: Node) -> NodeView
    decreases n,
{
    match n {
        Node::Ident(s, p) => NodeView::Ident(s@, loc_view(p)),
        Node::Str(s, p) => NodeView::Str(s@, loc_view(p)),
        Node::Int(v, p) => NodeView::Int(v, loc_view(p)),
        Node::Nop => NodeView::Nop,
        Node::Comparison { rexpr, lexpr, op } => NodeView::Comparison {
            rexpr: (Box::new(node_view(*rexpr.0)), loc_view(rexpr.1)),
            lexpr: (Box::new(node_view(*lexpr.0)), loc_view(lexpr.1)),
            op: (op.0, loc_view(op.1)),
        },
        Node::BinaryExpr { rexpr, lexpr, op } => NodeView::BinaryExpr {
            rexpr: (Box::new(node_view(*rexpr.0)), loc_view(rexpr.1)),
            lexpr: (Box::new(node_view(*lexpr.0)), loc_view(lexpr.1)),
            op: (op.0, loc_view(op.1)),
        },
        Node::Function { name, parameters, return_type, body } => NodeView::Function {
            name: (name.0@, loc_view(name.1)),
            parameters: (params_view(parameters.0@), loc_view(parameters.1)),
            return_type: (return_type.0, loc_view(return_type.1)),
            body: (nodes_view(body.0@), loc_view(body.1)),
        },
        Node::Return { expr } => NodeView::Return {
            expr: (Box::new(node_view(*expr.0)), loc_view(expr.1)),
        },
        Node::Call { name, parameters } => NodeView::Call {
            name: (name.0@, loc_view(name.1)),
            parameters: (nodes_view(parameters.0@), loc_view(parameters.1)),
        },
        Node::Variable { name, var_type, expr } => NodeView::Variable {
            name: (name.0@, loc_view(name.1)),
            var_type: (var_type.0, loc_view(var_type.1)),
            expr: (Box::new(node_view(*expr.0)), loc_view(expr.1)),
        },
        Node::If { test, then_body, else_body } => NodeView::If {
            test: (Box::new(node_view(*test.0)), loc_view(test.1)),
            then_body: (nodes_view(then_body.0@), loc_view(then_body.1)),
            else_body: (nodes_view(else_body.0@), loc_view(else_body.1)),
        },
    }
}

pub open spec fn nodes_view(s: Seq<Node>) -> Seq<NodeView>
    decreases s,
{
    if s.len() == 0 {
        Seq::empty()
    } else {
        seq![node_view(s[0])] + nodes_view(s.drop_first())
    }
}

pub open spec fn opt_node_view(o: Option<Node>) -> Option<NodeView> {
    match o {
        Some(n) => Some(node_view(n)),
        None => None,
    }
}

/// The construct a failed parse was looking for.
#[derive(Debug, Eq, PartialEq, Copy, Clone, Structural)]
pub enum Expectation {
    Identifier,
    TypeName,
    Colon,
    Equals,
    OpenParen,
    OpenBrace,
    Value,
}

/// A fatal parse error: the pass stops at the first one.
#[derive(Debug, PartialEq)]
pub enum ParseError {
    /// A specific token was required and something else stood there.
    Expected { what: Expectation, got: Token, at: SourceLocation },
    /// The cursor ran past the end of the tokens while expecting more.
    UnexpectedEndOfInput,
}

/// The mathematical value of a [`ParseError`].
pub enum ParseErrorView {
    Expected { what: Expectation, got: TokenView, at: LocView },
    UnexpectedEndOfInput,
}

impl View for ParseError {
    type V = ParseErrorView;

    open spec fn view(&self) -> ParseErrorView {
        match self {
            ParseError::Expected { what, got, at } => ParseErrorView::Expected {
                what: *what,
                got: got@,
                at: loc_view(*at),
            },
            ParseError::UnexpectedEndOfInput => ParseErrorView::UnexpectedEndOfInput,
        }
    }
}

/// A token stream in the mathematical model.
pub type TokStream = Seq<(TokenView, LocView)>;

/// `j` is the first position in `[lo, hi)` whose token satisfies `p`.
pub open spec fn is_first_match(
    t: TokStream,
    lo: int,
    hi: int,
    p: spec_fn(TokenView) -> bool,
    j: int,
) -> bool {
    lo <= j < hi && p(t[j].0) && (forall|k: int| lo <= k < j ==> !p(#[trigger] t[k].0))
}

pub open spec fn first_match(t: TokStream, lo: int, hi: int, p: spec_fn(TokenView) -> bool) -> Option<
    int,
> {
    let j = choose|j: int| is_first_match(t, lo, hi, p, j);
    if is_first_match(t, lo, hi, p, j) {
        Some(j)
    } else {
        None
    }
}

proof fn lemma_first_match_is(t: TokStream, lo: int, hi: int, p: spec_fn(TokenView) -> bool, j: int)
    requires
        is_first_match(t, lo, hi, p, j),
    ensures
        first_match(t, lo, hi, p) == Some(j),
{
    let j2 = choose|j2: int| is_first_match(t, lo, hi, p, j2);
    if j2 < j {
        assert(!p(t[j2].0));
    }
    if j < j2 {
        assert(!p(t[j].0));
    }
}

pub open spec fn newline_p() -> spec_fn(TokenView) -> bool {
    |v: TokenView| v == TokenView::Newline
}

pub open spec fn open_brace_p() -> spec_fn(TokenView) -> bool {
    |v: TokenView| v == TokenView::OpenBrace
}

pub open spec fn operator_p() -> spec_fn(TokenView) -> bool {
    |v: TokenView| v is Operator
}

pub open spec fn comparison_p() -> spec_fn(TokenView) -> bool {
    |v: TokenView| v is Comparison
}

/// Net brace depth of a token slice: `{` counts +1, `}` counts -1.
pub open spec fn brace_depth(s: TokStream) -> int
    decreases s.len(),
{
    if s.len() == 0 {
        0
    } else {
        brace_depth(s.drop_last()) + (if s.last().0 == TokenView::OpenBrace {
            1int
        } else if s.last().0 == TokenView::CloseBrace {
            -1int
        } else {
            0int
        })
    }
}

/// Net parenthesis depth of a token slice.
pub open spec fn paren_depth(s: TokStream) -> int
    decreases s.len(),
{
    if s.len() == 0 {
        0
    } else {
        paren_depth(s.drop_last()) + (if s.last().0 == TokenView::OpenParen {
            1int
        } else if s.last().0 == TokenView::CloseParen {
            -1int
        } else {
            0int
        })
    }
}

/// A depth-zero `}` seen from `lo`: the depth is counted over the tokens
/// strictly before `k`, so the brace itself is excluded.
pub open spec fn close_at(t: TokStream, lo: int, k: int) -> bool {
    t[k].0 == TokenView::CloseBrace && brace_depth(t.subrange(lo, k)) == 0
}

/// `j` is the position of the `}` matching the start of the body at `lo`:
/// the first `}` at net depth zero.
pub open spec fn is_matching_close(t: TokStream, lo: int, hi: int, j: int) -> bool {
    lo <= j < hi && close_at(t, lo, j) && (forall|k: int|
        lo <= k < j ==> !#[trigger] close_at(t, lo, k))
}

pub open spec fn find_close(t: TokStream, lo: int, hi: int) -> Option<int> {
    let j = choose|j: int| is_matching_close(t, lo, hi, j);
    if is_matching_close(t, lo, hi, j) {
        Some(j)
    } else {
        None
    }
}

proof fn lemma_find_close_is(t: TokStream, lo: int, hi: int, j: int)
    requires
        is_matching_close(t, lo, hi, j),
    ensures
        find_close(t, lo, hi) == Some(j),
{
    let j2 = choose|j2: int| is_matching_close(t, lo, hi, j2);
    if j2 < j {
        assert(!close_at(t, lo, j2));
    }
    if j < j2 {
        assert(!close_at(t, lo, j));
    }
}

/// `j` is the next place a call-parameter run ends when scanning from `lo`:
/// the first depth-zero `)` (the end of the parameter list) or depth-zero
/// `,` (the end of one parameter). Depth is the net parenthesis depth of the
/// tokens strictly before `j`.
pub open spec fn delim_at(t: TokStream, lo: int, k: int) -> bool {
    (t[k].0 == TokenView::CloseParen || t[k].0 == TokenView::Comma) && paren_depth(
        t.subrange(lo, k),
    ) == 0
}

pub open spec fn is_param_delim(t: TokStream, lo: int, hi: int, j: int) -> bool {
    lo <= j < hi && delim_at(t, lo, j) && (forall|k: int|
        lo <= k < j ==> !#[trigger] delim_at(t, lo, k))
}

pub open spec fn find_param_delim(t: TokStream, lo: int, hi: int) -> Option<int> {
    let j = choose|j: int| is_param_delim(t, lo, hi, j);
    if is_param_delim(t, lo, hi, j) {
        Some(j)
    } else {
        None
    }
}

proof fn lemma_find_param_delim_is(t: TokStream, lo: int, hi: int, j: int)
    requires
        is_param_delim(t, lo, hi, j),
    ensures
        find_param_delim(t, lo, hi) == Some(j),
{
    let j2 = choose|j2: int| is_param_delim(t, lo, hi, j2);
    if j2 < j {
        assert(!delim_at(t, lo, j2));
    }
    if j < j2 {
        assert(!delim_at(t, lo, j));
    }
}

/// Parse one expression token run `t[lo..hi)`.
///
/// A single token is a literal leaf per its kind. A leading identifier
/// followed by `(` is a call with a balanced, comma-separated parameter list
/// (tokens after the matching `)` are ignored). Anything else splits at the
/// first operator token: the tokens before it become `rexpr`, the tokens
/// after it `lexpr`, each side reduced recursively, with no precedence
/// ordering. An empty run, or a missing operator or operand, is unexpected
/// end of input.
pub open spec fn spec_parse_expr(t: TokStream, lo: int, hi: int) -> Result<NodeView, ParseErrorView>
    decreases hi - lo, 0int,
{
    if hi <= lo {
        Err(ParseErrorView::UnexpectedEndOfInput)
    } else if hi - lo == 1 {
        match t[lo].0 {
            TokenView::Int(v) => Ok(NodeView::Int(v, t[lo].1)),
            TokenView::Str(s) => Ok(NodeView::Str(s, t[lo].1)),
            TokenView::Ident(s) => Ok(NodeView::Ident(s, t[lo].1)),
            _ => Err(ParseErrorView::Expected {
                what: Expectation::Value,
                got: t[lo].0,
                at: t[lo].1,
            }),
        }
    } else if t[lo].0 is Ident && t[lo + 1].0 == TokenView::OpenParen {
        // a call: name ( parameters )
        if lo + 2 >= hi {
            Err(ParseErrorView::UnexpectedEndOfInput)
        } else {
            match spec_call_params(t, lo + 2, hi) {
                Err(e) => Err(e),
                Ok((ps, end)) => Ok(NodeView::Call {
                    name: (t[lo].0->Ident_0, t[lo].1),
                    parameters: (ps, t[lo + 2].1),
                }),
            }
        }
    } else {
        match first_match(t, lo, hi, operator_p()) {
            None => Err(ParseErrorView::UnexpectedEndOfInput),
            Some(oi) => {
                // the side after the operator is reduced first
                match spec_parse_expr(t, oi + 1, hi) {
                    Err(e) => Err(e),
                    Ok(ln) => match spec_parse_expr(t, lo, oi) {
                        Err(e) => Err(e),
                        Ok(rn) => Ok(NodeView::BinaryExpr {
                            rexpr: (Box::new(rn), (0, 0)),
                            lexpr: (Box::new(ln), (0, 0)),
                            op: (t[oi].0->Operator_0, t[oi].1),
                        }),
                    },
                }
            },
        }
    }
}

/// Parse a comma-separated call parameter list starting at `lo`, up to the
/// matching depth-zero `)`. Returns the parameter nodes and the position of
/// that `)`. An empty run between delimiters before a comma is an error; an
/// empty run before the `)` contributes no parameter.
pub open spec fn spec_call_params(t: TokStream, lo: int, hi: int) -> Result<
    (Seq<NodeView>, int),
    ParseErrorView,
>
    decreases hi - lo, 1int,
{
    match find_param_delim(t, lo, hi) {
        None => Err(ParseErrorView::UnexpectedEndOfInput),
        Some(j) => {
            if t[j].0 == TokenView::CloseParen {
                if j == lo {
                    Ok((Seq::empty(), j))
                } else {
                    match spec_parse_expr(t, lo, j) {
                        Err(e) => Err(e),
                        Ok(n) => Ok((seq![n], j)),
                    }
                }
            } else {
                match spec_parse_expr(t, lo, j) {
                    Err(e) => Err(e),
                    Ok(n) => match spec_call_params(t, j + 1, hi) {
                        Err(e) => Err(e),
                        Ok((ns, end)) => Ok((seq![n] + ns, end)),
                    },
                }
            }
        },
    }
}

/// Parse a condition token run: split at the first comparison token; the
/// tokens before it are the left side, the tokens after it the right side,
/// both reduced via [`spec_parse_expr`] (the right side first). Only one
/// comparison per condition is supported.
pub open spec fn spec_parse_condition(t: TokStream, lo: int, hi: int) -> Result<
    NodeView,
    ParseErrorView,
> {
    if lo >= hi {
        Err(ParseErrorView::UnexpectedEndOfInput)
    } else {
        match first_match(t, lo, hi, comparison_p()) {
            None => Err(ParseErrorView::UnexpectedEndOfInput),
            Some(ci) => {
                if ci + 1 >= hi {
                    Err(ParseErrorView::UnexpectedEndOfInput)
                } else {
                    match spec_parse_expr(t, ci + 1, hi) {
                        Err(e) => Err(e),
                        Ok(rn) => match spec_parse_expr(t, lo, ci) {
                            Err(e) => Err(e),
                            Ok(ln) => Ok(NodeView::Comparison {
                                rexpr: (Box::new(rn), t[ci + 1].1),
                                lexpr: (Box::new(ln), t[lo].1),
                                op: (t[ci].0->Comparison_0, t[ci].1),
                            }),
                        },
                    }
                }
            },
        }
    }
}

/// Parse a `fn` parameter list `(type ident[,])*` starting at `lo`, up to
/// the first `)`. Returns the `(name, type, position)` triples and the
/// position of the `)`. The comma between parameters is optional.
pub open spec fn spec_fn_params(t: TokStream, lo: int, hi: int) -> Result<
    (Seq<(Seq<char>, Type, LocView)>, int),
    ParseErrorView,
>
    decreases hi - lo,
{
    if lo >= hi {
        Err(ParseErrorView::UnexpectedEndOfInput)
    } else if t[lo].0 == TokenView::CloseParen {
        Ok((Seq::empty(), lo))
    } else {
        match t[lo].0 {
            TokenView::Type(ty) => {
                if lo + 1 >= hi {
                    Err(ParseErrorView::UnexpectedEndOfInput)
                } else {
                    match t[lo + 1].0 {
                        TokenView::Ident(nm) => {
                            if lo + 2 >= hi {
                                Err(ParseErrorView::UnexpectedEndOfInput)
                            } else {
                                let nxt = if t[lo + 2].0 == TokenView::Comma {
                                    lo + 3
                                } else {
                                    lo + 2
                                };
                                match spec_fn_params(t, nxt, hi) {
                                    Err(e) => Err(e),
                                    Ok((ps, cp)) => Ok(
                                        (seq![(nm, ty, t[lo + 1].1)] + ps, cp),
                                    ),
                                }
                            }
                        },
                        _ => Err(ParseErrorView::Expected {
                            what: Expectation::Identifier,
                            got: t[lo + 1].0,
                            at: t[lo + 1].1,
                        }),
                    }
                }
            },
            _ => Err(ParseErrorView::Expected {
                what: Expectation::TypeName,
                got: t[lo].0,
                at: t[lo].1,
            }),
        }
    }
}

/// Parse one statement starting at `lo` (which must be below `hi`).
/// Returns the node it produces, if any, and the position just past what it
/// consumed.
///
/// Dispatch is on the leading token: `if`, `let`, `return` and `fn` begin
/// their statement forms; anything else is an expression run up to the next
/// `Newline` (an empty run produces no node). An `if` whose closing `}` is
/// immediately followed by `else` is dropped: its condition and body are
/// captured but not parsed, and no node is produced.
pub open spec fn spec_stmt(t: TokStream, lo: int, hi: int) -> Result<
    (Option<NodeView>, int),
    ParseErrorView,
>
    decreases hi - lo, 1int,
{
    match t[lo].0 {
        TokenView::Keyword(Keyword::If) => {
            if lo + 1 >= hi {
                Err(ParseErrorView::UnexpectedEndOfInput)
            } else {
                let cond_loc = t[lo + 1].1;
                match first_match(t, lo + 1, hi, open_brace_p()) {
                    None => Err(ParseErrorView::UnexpectedEndOfInput),
                    Some(ob) => match find_close(t, ob + 1, hi) {
                        None => Err(ParseErrorView::UnexpectedEndOfInput),
                        Some(cb) => {
                            if cb + 1 < hi && t[cb + 1].0 == TokenView::Keyword(Keyword::Else) {
                                // the branch is silently dropped, unparsed
                                Ok((None, cb + 1))
                            } else {
                                match spec_parse_condition(t, lo + 1, ob) {
                                    Err(e) => Err(e),
                                    Ok(test) => match spec_stmts(t, ob + 1, cb) {
                                        Err(e) => Err(e),
                                        Ok(body) => Ok(
                                            (
                                                Some(NodeView::If {
                                                    test: (Box::new(test), cond_loc),
                                                    then_body: (body, (0, 0)),
                                                    else_body: (seq![NodeView::Nop], (0, 0)),
                                                }),
                                                cb + 1,
                                            ),
                                        ),
                                    },
                                }
                            }
                        },
                    },
                }
            }
        },
        TokenView::Keyword(Keyword::Let) => {
            if lo + 1 >= hi {
                Err(ParseErrorView::UnexpectedEndOfInput)
            } else {
                match t[lo + 1].0 {
                    TokenView::Ident(nm) => {
                        if lo + 2 >= hi {
                            Err(ParseErrorView::UnexpectedEndOfInput)
                        } else if !(t[lo + 2].0 == TokenView::Colon) {
                            Err(ParseErrorView::Expected {
                                what: Expectation::Colon,
                                got: t[lo + 2].0,
                                at: t[lo + 2].1,
                            })
                        } else if lo + 3 >= hi {
                            Err(ParseErrorView::UnexpectedEndOfInput)
                        } else {
                            match t[lo + 3].0 {
                                TokenView::Type(ty) => {
                                    if lo + 4 >= hi {
                                        Err(ParseErrorView::UnexpectedEndOfInput)
                                    } else if !(t[lo + 4].0 == TokenView::Equal) {
                                        Err(ParseErrorView::Expected {
                                            what: Expectation::Equals,
                                            got: t[lo + 4].0,
                                            at: t[lo + 4].1,
                                        })
                                    } else if lo + 5 >= hi {
                                        Err(ParseErrorView::UnexpectedEndOfInput)
                                    } else {
                                        match first_match(t, lo + 5, hi, newline_p()) {
                                            None => Err(ParseErrorView::UnexpectedEndOfInput),
                                            Some(nl) => match spec_parse_expr(t, lo + 5, nl) {
                                                Err(e) => Err(e),
                                                Ok(en) => Ok(
                                                    (
                                                        Some(NodeView::Variable {
                                                            name: (nm, t[lo + 1].1),
                                                            var_type: (ty, t[lo + 3].1),
                                                            expr: (Box::new(en), t[lo + 5].1),
                                                        }),
                                                        nl + 1,
                                                    ),
                                                ),
                                            },
                                        }
                                    }
                                },
                                _ => Err(ParseErrorView::Expected {
                                    what: Expectation::TypeName,
                                    got: t[lo + 3].0,
                                    at: t[lo + 3].1,
                                }),
                            }
                        }
                    },
                    _ => Err(ParseErrorView::Expected {
                        what: Expectation::Identifier,
                        got: t[lo + 1].0,
                        at: t[lo + 1].1,
                    }),
                }
            }
        },
        TokenView::Keyword(Keyword::Return) => {
            if lo + 1 >= hi {
                Err(ParseErrorView::UnexpectedEndOfInput)
            } else {
                match first_match(t, lo + 1, hi, newline_p()) {
                    None => Err(ParseErrorView::UnexpectedEndOfInput),
                    Some(nl) => match spec_parse_expr(t, lo + 1, nl) {
                        Err(e) => Err(e),
                        Ok(en) => Ok(
                            (
                                Some(NodeView::Return { expr: (Box::new(en), t[lo + 1].1) }),
                                nl + 1,
                            ),
                        ),
                    },
                }
            }
        },
        TokenView::Keyword(Keyword::Function) => spec_stmt_fn(t, lo, hi),
        _ => {
            match first_match(t, lo, hi, newline_p()) {
                None => Err(ParseErrorView::UnexpectedEndOfInput),
                Some(nl) => {
                    if nl == lo {
                        Ok((None, lo + 1))
                    } else {
                        match spec_parse_expr(t, lo, nl) {
                            Err(e) => Err(e),
                            Ok(n) => Ok((Some(n), nl + 1)),
                        }
                    }
                },
            }
        },
    }
}

/// The `fn` statement form: `fn name ( parameters ) : type { body }`.
pub open spec fn spec_stmt_fn(t: TokStream, lo: int, hi: int) -> Result<
    (Option<NodeView>, int),
    ParseErrorView,
>
    decreases hi - lo, 0int,
{
    if lo + 1 >= hi {
        Err(ParseErrorView::UnexpectedEndOfInput)
    } else {
        match t[lo + 1].0 {
            TokenView::Ident(fname) => {
                if lo + 2 >= hi {
                    Err(ParseErrorView::UnexpectedEndOfInput)
                } else if !(t[lo + 2].0 == TokenView::OpenParen) {
                    Err(ParseErrorView::Expected {
                        what: Expectation::OpenParen,
                        got: t[lo + 2].0,
                        at: t[lo + 2].1,
                    })
                } else if lo + 3 >= hi {
                    Err(ParseErrorView::UnexpectedEndOfInput)
                } else {
                    let params_loc = t[lo + 3].1;
                    match spec_fn_params(t, lo + 3, hi) {
                        Err(e) => Err(e),
                        Ok((ps, cp)) => {
                            // the parameter scan cannot end before it began;
                            // the bound keeps the body recursion well-founded
                            if cp < lo || cp + 1 >= hi {
                                Err(ParseErrorView::UnexpectedEndOfInput)
                            } else if !(t[cp + 1].0 == TokenView::Colon) {
                                Err(ParseErrorView::Expected {
                                    what: Expectation::Colon,
                                    got: t[cp + 1].0,
                                    at: t[cp + 1].1,
                                })
                            } else if cp + 2 >= hi {
                                Err(ParseErrorView::UnexpectedEndOfInput)
                            } else {
                                match t[cp + 2].0 {
                                    TokenView::Type(rt) => {
                                        if cp + 3 >= hi {
                                            Err(ParseErrorView::UnexpectedEndOfInput)
                                        } else if !(t[cp + 3].0 == TokenView::OpenBrace) {
                                            Err(ParseErrorView::Expected {
                                                what: Expectation::OpenBrace,
                                                got: t[cp + 3].0,
                                                at: t[cp + 3].1,
                                            })
                                        } else if cp + 4 >= hi {
                                            Err(ParseErrorView::UnexpectedEndOfInput)
                                        } else {
                                            let body_loc = t[cp + 4].1;
                                            match find_close(t, cp + 4, hi) {
                                                None => Err(
                                                    ParseErrorView::UnexpectedEndOfInput,
                                                ),
                                                Some(cb) => match spec_stmts(t, cp + 4, cb) {
                                                    Err(e) => Err(e),
                                                    Ok(body) => Ok(
                                                        (
                                                            Some(NodeView::Function {
                                                                name: (fname, t[lo + 1].1),
                                                                parameters: (ps, params_loc),
                                                                return_type: (rt, t[cp + 2].1),
                                                                body: (body, body_loc),
                                                            }),
                                                            cb + 1,
                                                        ),
                                                    ),
                                                },
                                            }
                                        }
                                    },
                                    _ => Err(ParseErrorView::Expected {
                                        what: Expectation::TypeName,
                                        got: t[cp + 2].0,
                                        at: t[cp + 2].1,
                                    }),
                                }
                            }
                        },
                    }
                }
            },
            _ => Err(ParseErrorView::Expected {
                what: Expectation::Identifier,
                got: t[lo + 1].0,
                at: t[lo + 1].1,
            }),
        }
    }
}

/// Parse the statements of `t[lo..hi)` in order, front to back.
pub open spec fn spec_stmts(t: TokStream, lo: int, hi: int) -> Result<Seq<NodeView>, ParseErrorView>
    decreases hi - lo, 2int,
{
    if lo >= hi {
        Ok(Seq::empty())
    } else {
        match spec_stmt(t, lo, hi) {
            Err(e) => Err(e),
            Ok((n_opt, nxt)) => {
                // the parser always moves the cursor forward and never past
                // the end; the bounds only keep the recursion well-founded
                let nxt1 = if nxt <= lo {
                    lo + 1
                } else if nxt > hi {
                    hi
                } else {
                    nxt
                };
                match spec_stmts(t, nxt1, hi) {
                    Err(e) => Err(e),
                    Ok(rest) => Ok(
                        match n_opt {
                            Some(n) => seq![n] + rest,
                            None => rest,
                        },
                    ),
                }
            },
        }
    }
}

/// What building the AST of a whole token stream means.
pub open spec fn spec_build_ast(t: TokStream) -> Result<Seq<NodeView>, ParseErrorView> {
    spec_stmts(t, 0, t.len() as int)
}

/// Law: a captured `fn`/`if` body is brace-balanced and excludes the
/// matching closing brace. Whenever the scan that captures a body starting
/// at `lo` finds its closing `}` at `j`, the captured slice `t[lo..j)` has
/// zero net brace depth, and the brace at `j` is not part of it.
pub proof fn lemma_captured_body_balanced(t: TokStream, lo: int, hi: int, j: int)
    requires
        find_close(t, lo, hi) == Some(j),
    ensures
        lo <= j < hi,
        t[j].0 == TokenView::CloseBrace,
        brace_depth(t.subrange(lo, j)) == 0,
{
    assert(is_matching_close(t, lo, hi, choose|j2: int| is_matching_close(t, lo, hi, j2)));
}

proof fn lemma_nodes_view_cons(s: Seq<Node>, n: Node)
    ensures
        nodes_view(s.insert(0, n)) == seq![node_view(n)] + nodes_view(s),
{
    let u = s.insert(0, n);
    assert(u[0] == n);
    assert(u.drop_first() =~= s);
}

proof fn lemma_params_view_cons(s: Seq<(String, Type, SourceLocation)>, e: (String, Type, SourceLocation))
    ensures
        params_view(s.insert(0, e)) == seq![(e.0@, e.1, loc_view(e.2))] + params_view(s),
{
    assert(params_view(s.insert(0, e)) =~= seq![(e.0@, e.1, loc_view(e.2))] + params_view(s));
}

/// Duplicate a token, preserving its value.
fn dup_token(t: &Token) -> (r: Token)
    ensures
        r@ == t@,
{
    match t {
        Token::Keyword(k) => Token::Keyword(*k),
        Token::Type(ty) => Token::Type(*ty),
        Token::Ident(s) => Token::Ident(s.clone()),
        Token::Int(n) => Token::Int(*n),
        Token::Str(s) => Token::Str(s.clone()),
        Token::Operator(o) => Token::Operator(*o),
        Token::Comparison(c) => Token::Comparison(*c),
        Token::OpenBrace => Token::OpenBrace,
        Token::CloseBrace => Token::CloseBrace,
        Token::OpenParen => Token::OpenParen,
        Token::CloseParen => Token::CloseParen,
        Token::OpenBracket => Token::OpenBracket,
        Token::CloseBracket => Token::CloseBracket,
        Token::Semi => Token::Semi,
        Token::Comma => Token::Comma,
        Token::Colon => Token::Colon,
        Token::Equal => Token::Equal,
        Token::Newline => Token::Newline,
    }
}

proof fn lemma_nodes_view_singleton(n: Node)
    ensures
        nodes_view(seq![n]) == seq![node_view(n)],
{
    assert(seq![n].drop_first() =~= Seq::<Node>::empty());
    assert(nodes_view(Seq::<Node>::empty()) == Seq::<NodeView>::empty());
    assert(seq![node_view(n)] + Seq::<NodeView>::empty() =~= seq![node_view(n)]);
}

fn scan_newline(toks: &Vec<(Token, SourceLocation)>, lo: usize, hi: usize) -> (r: Option<usize>)
    requires
        lo <= hi <= toks@.len(),
    ensures
        match r {
            Some(j) => lo <= j < hi && first_match(
                toks_view(toks@),
                lo as int,
                hi as int,
                newline_p(),
            ) == Some(j as int),
            None => first_match(toks_view(toks@), lo as int, hi as int, newline_p()) is None,
        },
{
    let ghost t = toks_view(toks@);
    let mut j = lo;
    while j < hi
        invariant
            lo <= j <= hi <= toks@.len(),
            t == toks_view(toks@),
            forall|k: int| lo <= k < j ==> !((#[trigger] t[k].0) == TokenView::Newline),
        decreases hi - j,
    {
        match &toks[j].0 {
            Token::Newline => {
                proof {
                    lemma_first_match_is(t, lo as int, hi as int, newline_p(), j as int);
                }
                return Some(j);
            },
            _ => {},
        }
        j += 1;
    }
    None
}

fn scan_open_brace(toks: &Vec<(Token, SourceLocation)>, lo: usize, hi: usize) -> (r: Option<usize>)
    requires
        lo <= hi <= toks@.len(),
    ensures
        match r {
            Some(j) => lo <= j < hi && first_match(
                toks_view(toks@),
                lo as int,
                hi as int,
                open_brace_p(),
            ) == Some(j as int),
            None => first_match(toks_view(toks@), lo as int, hi as int, open_brace_p()) is None,
        },
{
    let ghost t = toks_view(toks@);
    let mut j = lo;
    while j < hi
        invariant
            lo <= j <= hi <= toks@.len(),
            t == toks_view(toks@),
            forall|k: int| lo <= k < j ==> !((#[trigger] t[k].0) == TokenView::OpenBrace),
        decreases hi - j,
    {
        match &toks[j].0 {
            Token::OpenBrace => {
                proof {
                    lemma_first_match_is(t, lo as int, hi as int, open_brace_p(), j as int);
                }
                return Some(j);
            },
            _ => {},
        }
        j += 1;
    }
    None
}

fn scan_operator(toks: &Vec<(Token, SourceLocation)>, lo: usize, hi: usize) -> (r: Option<usize>)
    requires
        lo <= hi <= toks@.len(),
    ensures
        match r {
            Some(j) => lo <= j < hi && first_match(
                toks_view(toks@),
                lo as int,
                hi as int,
                operator_p(),
            ) == Some(j as int),
            None => first_match(toks_view(toks@), lo as int, hi as int, operator_p()) is None,
        },
{
    let ghost t = toks_view(toks@);
    let mut j = lo;
    while j < hi
        invariant
            lo <= j <= hi <= toks@.len(),
            t == toks_view(toks@),
            forall|k: int| lo <= k < j ==> !((#[trigger] t[k].0) is Operator),
        decreases hi - j,
    {
        match &toks[j].0 {
            Token::Operator(_) => {
                proof {
                    lemma_first_match_is(t, lo as int, hi as int, operator_p(), j as int);
                }
                return Some(j);
            },
            _ => {},
        }
        j += 1;
    }
    None
}

fn scan_comparison(toks: &Vec<(Token, SourceLocation)>, lo: usize, hi: usize) -> (r: Option<usize>)
    requires
        lo <= hi <= toks@.len(),
    ensures
        match r {
            Some(j) => lo <= j < hi && first_match(
                toks_view(toks@),
                lo as int,
                hi as int,
                comparison_p(),
            ) == Some(j as int),
            None => first_match(toks_view(toks@), lo as int, hi as int, comparison_p()) is None,
        },
{
    let ghost t = toks_view(toks@);
    let mut j = lo;
    while j < hi
        invariant
            lo <= j <= hi <= toks@.len(),
            t == toks_view(toks@),
            forall|k: int| lo <= k < j ==> !((#[trigger] t[k].0) is Comparison),
        decreases hi - j,
    {
        match &toks[j].0 {
            Token::Comparison(_) => {
                proof {
                    lemma_first_match_is(t, lo as int, hi as int, comparison_p(), j as int);
                }
                return Some(j);
            },
            _ => {},
        }
        j += 1;
    }
    None
}

fn scan_close(toks: &Vec<(Token, SourceLocation)>, lo: usize, hi: usize) -> (r: Option<usize>)
    requires
        lo <= hi <= toks@.len(),
    ensures
        match r {
            Some(j) => lo <= j < hi && find_close(toks_view(toks@), lo as int, hi as int) == Some(
                j as int,
            ),
            None => find_close(toks_view(toks@), lo as int, hi as int) is None,
        },
{
    let ghost t = toks_view(toks@);
    let mut j = lo;
    let mut depth: usize = 0;
    while j < hi
        invariant
            lo <= j <= hi <= toks@.len(),
            t == toks_view(toks@),
            depth <= j - lo,
            depth as int == brace_depth(t.subrange(lo as int, j as int)),
            forall|k: int| lo <= k < j ==> !#[trigger] close_at(t, lo as int, k),
        decreases hi - j,
    {
        let is_open = matches!(&toks[j].0, Token::OpenBrace);
        let is_close = matches!(&toks[j].0, Token::CloseBrace);
        if is_close && depth == 0 {
            proof {
                lemma_find_close_is(t, lo as int, hi as int, j as int);
            }
            return Some(j);
        }
        proof {
            assert(t.subrange(lo as int, j as int + 1).drop_last() =~= t.subrange(
                lo as int,
                j as int,
            ));
        }
        if is_open {
            depth += 1;
        } else if is_close {
            depth -= 1;
        }
        j += 1;
    }
    None
}

fn scan_param_delim(toks: &Vec<(Token, SourceLocation)>, lo: usize, hi: usize) -> (r: Option<usize>)
    requires
        lo <= hi <= toks@.len(),
    ensures
        match r {
            Some(j) => lo <= j < hi && find_param_delim(toks_view(toks@), lo as int, hi as int)
                == Some(j as int),
            None => find_param_delim(toks_view(toks@), lo as int, hi as int) is None,
        },
{
    let ghost t = toks_view(toks@);
    let mut j = lo;
    let mut depth: usize = 0;
    while j < hi
        invariant
            lo <= j <= hi <= toks@.len(),
            t == toks_view(toks@),
            depth <= j - lo,
            depth as int == paren_depth(t.subrange(lo as int, j as int)),
            forall|k: int| lo <= k < j ==> !#[trigger] delim_at(t, lo as int, k),
        decreases hi - j,
    {
        let is_open = matches!(&toks[j].0, Token::OpenParen);
        let is_close = matches!(&toks[j].0, Token::CloseParen);
        let is_comma = matches!(&toks[j].0, Token::Comma);
        if (is_close || is_comma) && depth == 0 {
            proof {
                lemma_find_param_delim_is(t, lo as int, hi as int, j as int);
            }
            return Some(j);
        }
        proof {
            assert(t.subrange(lo as int, j as int + 1).drop_last() =~= t.subrange(
                lo as int,
                j as int,
            ));
        }
        if is_open {
            depth += 1;
        } else if is_close {
            depth -= 1;
        }
        j += 1;
    }
    None
}

/// Parse one expression token run `toks[lo..hi)`, per [`spec_parse_expr`].
pub fn parse_expr(toks: &Vec<(Token, SourceLocation)>, lo: usize, hi: usize) -> (r: Result<
    Node,
    ParseError,
>)
    requires
        lo <= hi <= toks@.len(),
    ensures
        match (r, spec_parse_expr(toks_view(toks@), lo as int, hi as int)) {
            (Ok(n), Ok(nv)) => node_view(n) == nv,
            (Err(e), Err(ev)) => e@ == ev,
            _ => false,
        },
    decreases hi - lo, 0int,
{
    if hi <= lo {
        return Err(ParseError::UnexpectedEndOfInput);
    }
    if hi - lo == 1 {
        let (tok, pos) = &toks[lo];
        return match tok {
            Token::Int(v) => Ok(Node::Int(*v, *pos)),
            Token::Str(s) => Ok(Node::Str(s.clone(), *pos)),
            Token::Ident(s) => Ok(Node::Ident(s.clone(), *pos)),
            _ => Err(
                ParseError::Expected { what: Expectation::Value, got: dup_token(tok), at: *pos },
            ),
        };
    }
    let call_name: Option<String> = match (&toks[lo].0, &toks[lo + 1].0) {
        (Token::Ident(name), Token::OpenParen) => Some(name.clone()),
        _ => None,
    };
    match call_name {
        Some(name) => {
            if lo + 2 >= hi {
                return Err(ParseError::UnexpectedEndOfInput);
            }
            match parse_call_params(toks, lo + 2, hi) {
                Err(e) => Err(e),
                Ok((ps, _end)) => Ok(
                    Node::Call { name: (name, toks[lo].1), parameters: (ps, toks[lo + 2].1) },
                ),
            }
        },
        None => {
            match scan_operator(toks, lo, hi) {
                None => Err(ParseError::UnexpectedEndOfInput),
                Some(oi) => {
                    // the side after the operator is reduced first
                    match parse_expr(toks, oi + 1, hi) {
                        Err(e) => Err(e),
                        Ok(ln) => match parse_expr(toks, lo, oi) {
                            Err(e) => Err(e),
                            Ok(rn) => {
                                let op: Operator = match &toks[oi].0 {
                                    Token::Operator(o) => *o,
                                    _ => unreached(),
                                };
                                Ok(Node::BinaryExpr {
                                    rexpr: (Box::new(rn), (0, 0)),
                                    lexpr: (Box::new(ln), (0, 0)),
                                    op: (op, toks[oi].1),
                                })
                            },
                        },
                    }
                },
            }
        },
    }
}

/// Parse a call parameter list, per [`spec_call_params`]. Returns the
/// parameter nodes and the position of the closing `)`.
fn parse_call_params(toks: &Vec<(Token, SourceLocation)>, lo: usize, hi: usize) -> (r: Result<
    (Vec<Node>, usize),
    ParseError,
>)
    requires
        lo <= hi <= toks@.len(),
    ensures
        match (r, spec_call_params(toks_view(toks@), lo as int, hi as int)) {
            (Ok((ns, end)), Ok((vs, send))) => nodes_view(ns@) == vs && end as int == send && lo
                <= end < hi,
            (Err(e), Err(ev)) => e@ == ev,
            _ => false,
        },
    decreases hi - lo, 1int,
{
    match scan_param_delim(toks, lo, hi) {
        None => Err(ParseError::UnexpectedEndOfInput),
        Some(j) => {
            let is_close = matches!(&toks[j].0, Token::CloseParen);
            if is_close {
                if j == lo {
                    Ok((Vec::new(), j))
                } else {
                    match parse_expr(toks, lo, j) {
                        Err(e) => Err(e),
                        Ok(n) => {
                            let mut v: Vec<Node> = Vec::new();
                            v.push(n);
                            proof {
                                assert(v@ =~= seq![v@[0]]);
                                lemma_nodes_view_singleton(v@[0]);
                            }
                            Ok((v, j))
                        },
                    }
                }
            } else {
                match parse_expr(toks, lo, j) {
                    Err(e) => Err(e),
                    Ok(n) => match parse_call_params(toks, j + 1, hi) {
                        Err(e) => Err(e),
                        Ok((rest, end)) => {
                            let mut v = rest;
                            proof {
                                lemma_nodes_view_cons(v@, n);
                            }
                            v.insert(0, n);
                            Ok((v, end))
                        },
                    },
                }
            }
        },
    }
}

/// Parse a condition token run, per [`spec_parse_condition`].
pub fn parse_condition(toks: &Vec<(Token, SourceLocation)>, lo: usize, hi: usize) -> (r: Result<
    Node,
    ParseError,
>)
    requires
        lo <= hi <= toks@.len(),
    ensures
        match (r, spec_parse_condition(toks_view(toks@), lo as int, hi as int)) {
            (Ok(n), Ok(nv)) => node_view(n) == nv,
            (Err(e), Err(ev)) => e@ == ev,
            _ => false,
        },
{
    if lo >= hi {
        return Err(ParseError::UnexpectedEndOfInput);
    }
    match scan_comparison(toks, lo, hi) {
        None => Err(ParseError::UnexpectedEndOfInput),
        Some(ci) => {
            if ci + 1 >= hi {
                return Err(ParseError::UnexpectedEndOfInput);
            }
            match parse_expr(toks, ci + 1, hi) {
                Err(e) => Err(e),
                Ok(rn) => match parse_expr(toks, lo, ci) {
                    Err(e) => Err(e),
                    Ok(ln) => {
                        let op: lexer::Comparison = match &toks[ci].0 {
                            Token::Comparison(c) => *c,
                            _ => unreached(),
                        };
                        Ok(Node::Comparison {
                            rexpr: (Box::new(rn), toks[ci + 1].1),
                            lexpr: (Box::new(ln), toks[lo].1),
                            op: (op, toks[ci].1),
                        })
                    },
                },
            }
        },
    }
}

/// Parse a `fn` parameter list, per [`spec_fn_params`]. Returns the
/// `(name, type, position)` triples and the position of the closing `)`.
fn parse_fn_params(toks: &Vec<(Token, SourceLocation)>, lo: usize, hi: usize) -> (r: Result<
    (Vec<(String, Type, SourceLocation)>, usize),
    ParseError,
>)
    requires
        lo <= hi <= toks@.len(),
    ensures
        match (r, spec_fn_params(toks_view(toks@), lo as int, hi as int)) {
            (Ok((ps, cp)), Ok((vs, scp))) => params_view(ps@) == vs && cp as int == scp && lo <= cp
                < hi,
            (Err(e), Err(ev)) => e@ == ev,
            _ => false,
        },
    decreases hi - lo,
{
    if lo >= hi {
        return Err(ParseError::UnexpectedEndOfInput);
    }
    let entry: (String, Type, SourceLocation) = match (&toks[lo].0) {
        Token::CloseParen => {
            proof {
                assert(params_view(Seq::<(String, Type, SourceLocation)>::empty())
                    =~= Seq::<(Seq<char>, Type, LocView)>::empty());
            }
            return Ok((Vec::new(), lo));
        },
        Token::Type(ty) => {
            if lo + 1 >= hi {
                return Err(ParseError::UnexpectedEndOfInput);
            }
            match &toks[lo + 1].0 {
                Token::Ident(nm) => (nm.clone(), *ty, toks[lo + 1].1),
                got => {
                    return Err(
                        ParseError::Expected {
                            what: Expectation::Identifier,
                            got: dup_token(got),
                            at: toks[lo + 1].1,
                        },
                    );
                },
            }
        },
        got => {
            return Err(
                ParseError::Expected {
                    what: Expectation::TypeName,
                    got: dup_token(got),
                    at: toks[lo].1,
                },
            );
        },
    };
    if lo + 2 >= hi {
        return Err(ParseError::UnexpectedEndOfInput);
    }
    let has_comma = matches!(&toks[lo + 2].0, Token::Comma);
    let nxt = if has_comma {
        lo + 3
    } else {
        lo + 2
    };
    match parse_fn_params(toks, nxt, hi) {
        Err(e) => Err(e),
        Ok((rest, cp)) => {
            let mut v = rest;
            proof {
                lemma_params_view_cons(v@, entry);
            }
            v.insert(0, entry);
            Ok((v, cp))
        },
    }
}

/// Parse one statement starting at `lo`, per [`spec_stmt`]. Returns the node
/// it produces, if any, and the position just past what it consumed.
#[verifier::rlimit(100)]
fn parse_stmt(toks: &Vec<(Token, SourceLocation)>, lo: usize, hi: usize) -> (r: Result<
    (Option<Node>, usize),
    ParseError,
>)
    requires
        lo < hi <= toks@.len(),
    ensures
        match (r, spec_stmt(toks_view(toks@), lo as int, hi as int)) {
            (Ok((n, nxt)), Ok((nv, snxt))) => opt_node_view(n) == nv && nxt as int == snxt && lo
                < nxt <= hi,
            (Err(e), Err(ev)) => e@ == ev,
            _ => false,
        },
    decreases hi - lo, 1int,
{
    match &toks[lo].0 {
        Token::Keyword(Keyword::If) => {
            if lo + 1 >= hi {
                return Err(ParseError::UnexpectedEndOfInput);
            }
            let cond_loc = toks[lo + 1].1;
            match scan_open_brace(toks, lo + 1, hi) {
                None => Err(ParseError::UnexpectedEndOfInput),
                Some(ob) => match scan_close(toks, ob + 1, hi) {
                    None => Err(ParseError::UnexpectedEndOfInput),
                    Some(cb) => {
                        let dropped = cb + 1 < hi && matches!(
                            &toks[cb + 1].0,
                            Token::Keyword(Keyword::Else)
                        );
                        if dropped {
                            // the branch is silently dropped, unparsed
                            Ok((None, cb + 1))
                        } else {
                            match parse_condition(toks, lo + 1, ob) {
                                Err(e) => Err(e),
                                Ok(test) => match parse_stmts(toks, ob + 1, cb) {
                                    Err(e) => Err(e),
                                    Ok(body) => {
                                        let mut eb: Vec<Node> = Vec::new();
                                        eb.push(Node::Nop);
                                        proof {
                                            assert(eb@ =~= seq![Node::Nop]);
                                            lemma_nodes_view_singleton(Node::Nop);
                                        }
                                        Ok(
                                            (
                                                Some(
                                                    Node::If {
                                                        test: (Box::new(test), cond_loc),
                                                        then_body: (body, (0, 0)),
                                                        else_body: (eb, (0, 0)),
                                                    },
                                                ),
                                                cb + 1,
                                            ),
                                        )
                                    },
                                },
                            }
                        }
                    },
                },
            }
        },
        Token::Keyword(Keyword::Let) => {
            if lo + 1 >= hi {
                return Err(ParseError::UnexpectedEndOfInput);
            }
            let nm: String = match &toks[lo + 1].0 {
                Token::Ident(nm) => nm.clone(),
                got => {
                    return Err(
                        ParseError::Expected {
                            what: Expectation::Identifier,
                            got: dup_token(got),
                            at: toks[lo + 1].1,
                        },
                    );
                },
            };
            if lo + 2 >= hi {
                return Err(ParseError::UnexpectedEndOfInput);
            }
            if !matches!(&toks[lo + 2].0, Token::Colon) {
                return Err(
                    ParseError::Expected {
                        what: Expectation::Colon,
                        got: dup_token(&toks[lo + 2].0),
                        at: toks[lo + 2].1,
                    },
                );
            }
            if lo + 3 >= hi {
                return Err(ParseError::UnexpectedEndOfInput);
            }
            let ty: Type = match &toks[lo + 3].0 {
                Token::Type(ty) => *ty,
                got => {
                    return Err(
                        ParseError::Expected {
                            what: Expectation::TypeName,
                            got: dup_token(got),
                            at: toks[lo + 3].1,
                        },
                    );
                },
            };
            if lo + 4 >= hi {
                return Err(ParseError::UnexpectedEndOfInput);
            }
            if !matches!(&toks[lo + 4].0, Token::Equal) {
                return Err(
                    ParseError::Expected {
                        what: Expectation::Equals,
                        got: dup_token(&toks[lo + 4].0),
                        at: toks[lo + 4].1,
                    },
                );
            }
            if lo + 5 >= hi {
                return Err(ParseError::UnexpectedEndOfInput);
            }
            match scan_newline(toks, lo + 5, hi) {
                None => Err(ParseError::UnexpectedEndOfInput),
                Some(nl) => match parse_expr(toks, lo + 5, nl) {
                    Err(e) => Err(e),
                    Ok(en) => Ok(
                        (
                            Some(
                                Node::Variable {
                                    name: (nm, toks[lo + 1].1),
                                    var_type: (ty, toks[lo + 3].1),
                                    expr: (Box::new(en), toks[lo + 5].1),
                                },
                            ),
                            nl + 1,
                        ),
                    ),
                },
            }
        },
        Token::Keyword(Keyword::Return) => {
            if lo + 1 >= hi {
                return Err(ParseError::UnexpectedEndOfInput);
            }
            match scan_newline(toks, lo + 1, hi) {
                None => Err(ParseError::UnexpectedEndOfInput),
                Some(nl) => match parse_expr(toks, lo + 1, nl) {
                    Err(e) => Err(e),
                    Ok(en) => Ok(
                        (Some(Node::Return { expr: (Box::new(en), toks[lo + 1].1) }), nl + 1),
                    ),
                },
            }
        },
        Token::Keyword(Keyword::Function) => parse_stmt_fn(toks, lo, hi),
        _ => {
            match scan_newline(toks, lo, hi) {
                None => Err(ParseError::UnexpectedEndOfInput),
                Some(nl) => {
                    if nl == lo {
                        Ok((None, lo + 1))
                    } else {
                        match parse_expr(toks, lo, nl) {
                            Err(e) => Err(e),
                            Ok(n) => Ok((Some(n), nl + 1)),
                        }
                    }
                },
            }
        },
    }
}

/// The `fn` statement form, per [`spec_stmt_fn`].
fn parse_stmt_fn(toks: &Vec<(Token, SourceLocation)>, lo: usize, hi: usize) -> (r: Result<
    (Option<Node>, usize),
    ParseError,
>)
    requires
        lo < hi <= toks@.len(),
    ensures
        match (r, spec_stmt_fn(toks_view(toks@), lo as int, hi as int)) {
            (Ok((n, nxt)), Ok((nv, snxt))) => opt_node_view(n) == nv && nxt as int == snxt && lo
                < nxt <= hi,
            (Err(e), Err(ev)) => e@ == ev,
            _ => false,
        },
    decreases hi - lo, 0int,
{
    if lo + 1 >= hi {
        return Err(ParseError::UnexpectedEndOfInput);
    }
    let fname: String = match &toks[lo + 1].0 {
        Token::Ident(nm) => nm.clone(),
        got => {
            return Err(
                ParseError::Expected {
                    what: Expectation::Identifier,
                    got: dup_token(got),
                    at: toks[lo + 1].1,
                },
            );
        },
    };
    if lo + 2 >= hi {
        return Err(ParseError::UnexpectedEndOfInput);
    }
    if !matches!(&toks[lo + 2].0, Token::OpenParen) {
        return Err(
            ParseError::Expected {
                what: Expectation::OpenParen,
                got: dup_token(&toks[lo + 2].0),
                at: toks[lo + 2].1,
            },
        );
    }
    if lo + 3 >= hi {
        return Err(ParseError::UnexpectedEndOfInput);
    }
    let params_loc = toks[lo + 3].1;
    match parse_fn_params(toks, lo + 3, hi) {
        Err(e) => Err(e),
        Ok((ps, cp)) => {
            if cp + 1 >= hi {
                return Err(ParseError::UnexpectedEndOfInput);
            }
            if !matches!(&toks[cp + 1].0, Token::Colon) {
                return Err(
                    ParseError::Expected {
                        what: Expectation::Colon,
                        got: dup_token(&toks[cp + 1].0),
                        at: toks[cp + 1].1,
                    },
                );
            }
            if cp + 2 >= hi {
                return Err(ParseError::UnexpectedEndOfInput);
            }
            let rt: Type = match &toks[cp + 2].0 {
                Token::Type(ty) => *ty,
                got => {
                    return Err(
                        ParseError::Expected {
                            what: Expectation::TypeName,
                            got: dup_token(got),
                            at: toks[cp + 2].1,
                        },
                    );
                },
            };
            if cp + 3 >= hi {
                return Err(ParseError::UnexpectedEndOfInput);
            }
            if !matches!(&toks[cp + 3].0, Token::OpenBrace) {
                return Err(
                    ParseError::Expected {
                        what: Expectation::OpenBrace,
                        got: dup_token(&toks[cp + 3].0),
                        at: toks[cp + 3].1,
                    },
                );
            }
            if cp + 4 >= hi {
                return Err(ParseError::UnexpectedEndOfInput);
            }
            let body_loc = toks[cp + 4].1;
            match scan_close(toks, cp + 4, hi) {
                None => Err(ParseError::UnexpectedEndOfInput),
                Some(cb) => match parse_stmts(toks, cp + 4, cb) {
                    Err(e) => Err(e),
                    Ok(body) => Ok(
                        (
                            Some(
                                Node::Function {
                                    name: (fname, toks[lo + 1].1),
                                    parameters: (ps, params_loc),
                                    return_type: (rt, toks[cp + 2].1),
                                    body: (body, body_loc),
                                },
                            ),
                            cb + 1,
                        ),
                    ),
                },
            }
        },
    }
}

/// Parse the statements of `toks[lo..hi)` in order, per [`spec_stmts`].
fn parse_stmts(toks: &Vec<(Token, SourceLocation)>, lo: usize, hi: usize) -> (r: Result<
    Vec<Node>,
    ParseError,
>)
    requires
        lo <= hi <= toks@.len(),
    ensures
        match (r, spec_stmts(toks_view(toks@), lo as int, hi as int)) {
            (Ok(ns), Ok(vs)) => nodes_view(ns@) == vs,
            (Err(e), Err(ev)) => e@ == ev,
            _ => false,
        },
    decreases hi - lo, 2int,
{
    if lo >= hi {
        return Ok(Vec::new());
    }
    match parse_stmt(toks, lo, hi) {
        Err(e) => Err(e),
        Ok((n_opt, nxt)) => match parse_stmts(toks, nxt, hi) {
            Err(e) => Err(e),
            Ok(rest) => match n_opt {
                None => Ok(rest),
                Some(n) => {
                    let mut v = rest;
                    proof {
                        lemma_nodes_view_cons(v@, n);
                    }
                    v.insert(0, n);
                    Ok(v)
                },
            },
        },
    }
}

/// Build the AST of a whole token stream, per [`spec_build_ast`]. Malformed
/// structure is a fatal parse error: the first one is returned and no
/// partial AST is produced.
pub fn build_ast(tokens: Vec<(Token, SourceLocation)>) -> (r: Result<Vec<Node>, ParseError>)
    ensures
        match (r, spec_build_ast(toks_view(tokens@))) {
            (Ok(ns), Ok(vs)) => nodes_view(ns@) == vs,
            (Err(e), Err(ev)) => e@ == ev,
            _ => false,
        },
{
    let n = tokens.len();
    parse_stmts(&tokens, 0, n)
}

} // verus!
