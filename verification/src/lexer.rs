//! Tokenizer: a single-pass character scanner with three modes (plain code,
//! string literal, line comment) that turns source text into a sequence of
//! `(Token, SourceLocation)` pairs.
//!
//! The scanner's behaviour is modelled by the recursive spec function
//! [`spec_lex`]; [`tokenize`] is proved to return exactly what the model says.

use vstd::prelude::*;
use vstd::string::StrSliceExecFns;

verus! {

/// Scanner mode: plain code, inside a string literal, or inside a line comment.
#[derive(Debug, Eq, PartialEq, Copy, Clone, Structural)]
pub enum Mode {
    Normal,
    Str,
    Comment,
}

#[derive(Debug, Eq, PartialEq, Copy, Clone, Structural)]
pub enum Keyword {
    If,
    Let,
    Else,
    While,
    Return,
    Use,
    Function,
}

#[derive(Debug, Eq, PartialEq, Copy, Clone, Structural)]
pub enum Type {
    Void,
    Int,
    Char,
}

#[derive(Debug, Eq, PartialEq, Copy, Clone, Structural)]
pub enum Operator {
    Add,
    Sub,
    Mul,
    Div,
    And,
}

#[derive(Debug, Eq, PartialEq, Copy, Clone, Structural)]
pub enum Comparison {
    Equal,
    NotEqual,
    Bigger,
    Smaller,
    Nop,
}

/// `(line, column)`, both 1-based.
pub type SourceLocation = (usize, usize);

/// A lexical unit. Tokens are immutable once produced.
#[derive(Debug, Eq, PartialEq, Clone)]
pub enum Token {
    Keyword(Keyword),
    Type(Type),
    Ident(String),
    Int(usize),
    Str(String),
    Operator(Operator),
    Comparison(Comparison),

    OpenBrace,
    CloseBrace,

    OpenParen,
    CloseParen,

    OpenBracket,
    CloseBracket,

    Semi,
    Comma,
    Colon,
    Equal,

    Newline,
}

/// The mathematical value of a [`Token`]: owned text becomes a `Seq<char>`.
pub enum TokenView {
    Keyword(Keyword),
    Type(Type),
    Ident(Seq<char>),
    Int(usize),
    Str(Seq<char>),
    Operator(Operator),
    Comparison(Comparison),
    OpenBrace,
    CloseBrace,
    OpenParen,
    CloseParen,
    OpenBracket,
    CloseBracket,
    Semi,
    Comma,
    Colon,
    Equal,
    Newline,
}

impl View for Token {
    type V = TokenView;

    open spec fn view(&self) -> TokenView {
        match self {
            Token::Keyword(k) => TokenView::Keyword(*k),
            Token::Type(t) => TokenView::Type(*t),
            Token::Ident(s) => TokenView::Ident(s@),
            Token::Int(n) => TokenView::Int(*n),
            Token::Str(s) => TokenView::Str(s@),
            Token::Operator(o) => TokenView::Operator(*o),
            Token::Comparison(c) => TokenView::Comparison(*c),
            Token::OpenBrace => TokenView::OpenBrace,
            Token::CloseBrace => TokenView::CloseBrace,
            Token::OpenParen => TokenView::OpenParen,
            Token::CloseParen => TokenView::CloseParen,
            Token::OpenBracket => TokenView::OpenBracket,
            Token::CloseBracket => TokenView::CloseBracket,
            Token::Semi => TokenView::Semi,
            Token::Comma => TokenView::Comma,
            Token::Colon => TokenView::Colon,
            Token::Equal => TokenView::Equal,
            Token::Newline => TokenView::Newline,
        }
    }
}

/// A source position in the mathematical model.
pub type LocView = (int, int);

pub open spec fn loc_view(l: SourceLocation) -> LocView {
    (l.0 as int, l.1 as int)
}

/// View of a token stream: each token with its position.
pub open spec fn toks_view(s: Seq<(Token, SourceLocation)>) -> Seq<(TokenView, LocView)> {
    s.map_values(|p: (Token, SourceLocation)| (p.0@, loc_view(p.1)))
}

/// The one lexical failure: an integer literal that does not fit in `usize`.
#[derive(Debug, Eq, PartialEq, Copy, Clone)]
pub enum LexError {
    IntegerOverflow(SourceLocation),
}

pub open spec fn lex_err_view(e: LexError) -> LocView {
    match e {
        LexError::IntegerOverflow(p) => loc_view(p),
    }
}

/// The single characters that end the pending buffer when seen as lookahead.
pub open spec fn is_delim_char(c: char) -> bool {
    c == '[' || c == ']' || c == '{' || c == '}' || c == '(' || c == ')' || c == ';' || c == ','
        || c == '=' || c == '<' || c == '>' || c == '+' || c == '-' || c == '*' || c == '/'
        || c == ':' || c == '&' || c == '\n' || c == ' '
}

/// The buffer contents that are flushed as soon as they are complete:
/// the punctuation strings, the two-character operators, and the keywords.
pub open spec fn is_trigger_str(s: Seq<char>) -> bool {
    ||| (s.len() == 1 && is_delim_char(s[0]))
    ||| (s.len() == 2 && ((s[0] == '=' && s[1] == '=') || (s[0] == '!' && s[1] == '=') || (s[0]
        == '/' && s[1] == '/') || (s[0] == 'i' && s[1] == 'f') || (s[0] == 'f' && s[1] == 'n')))
    ||| (s.len() == 3 && ((s[0] == 'l' && s[1] == 'e' && s[2] == 't') || (s[0] == 'i' && s[1]
        == 'n' && s[2] == 't')))
    ||| (s.len() == 4 && ((s[0] == 'e' && s[1] == 'l' && s[2] == 's' && s[3] == 'e') || (s[0]
        == 'c' && s[1] == 'h' && s[2] == 'a' && s[3] == 'r') || (s[0] == 'v' && s[1] == 'o'
        && s[2] == 'i' && s[3] == 'd')))
    ||| (s.len() == 5 && ((s[0] == 'w' && s[1] == 'h' && s[2] == 'i' && s[3] == 'l' && s[4]
        == 'e') || (s[0] == '#' && s[1] == 'l' && s[2] == 'i' && s[3] == 'n' && s[4] == 'k')))
    ||| (s.len() == 6 && (s[0] == 'r' && s[1] == 'e' && s[2] == 't' && s[3] == 'u' && s[4] == 'r'
        && s[5] == 'n'))
    ||| (s.len() == 8 && (s[0] == '#' && s[1] == 'i' && s[2] == 'n' && s[3] == 'c' && s[4] == 'l'
        && s[5] == 'u' && s[6] == 'd' && s[7] == 'e'))
}

pub open spec fn is_digit_char(c: char) -> bool {
    48 <= c as u32 && c as u32 <= 57
}

pub open spec fn digit_val(c: char) -> int {
    c as u32 - 48
}

pub open spec fn is_digit_seq(s: Seq<char>) -> bool {
    forall|k: int| 0 <= k < s.len() ==> is_digit_char(#[trigger] s[k])
}

/// Value of a digit string, most significant digit first.
pub open spec fn digits_val(s: Seq<char>) -> int
    decreases s.len(),
{
    if s.len() == 0 {
        0
    } else {
        digits_val(s.drop_last()) * 10 + digit_val(s.last())
    }
}

/// Classification of a completed buffer: exact match against the keyword,
/// type, operator and punctuation strings; otherwise a non-negative integer
/// if it is all digits (`None` when the value does not fit in `usize`);
/// otherwise an identifier.
pub open spec fn classify(s: Seq<char>) -> Option<TokenView> {
    if s.len() == 1 && s[0] == '[' {
        Some(TokenView::OpenBracket)
    } else if s.len() == 1 && s[0] == ']' {
        Some(TokenView::CloseBracket)
    } else if s.len() == 1 && s[0] == '{' {
        Some(TokenView::OpenBrace)
    } else if s.len() == 1 && s[0] == '}' {
        Some(TokenView::CloseBrace)
    } else if s.len() == 1 && s[0] == '(' {
        Some(TokenView::OpenParen)
    } else if s.len() == 1 && s[0] == ')' {
        Some(TokenView::CloseParen)
    } else if s.len() == 1 && s[0] == ';' {
        Some(TokenView::Semi)
    } else if s.len() == 1 && s[0] == ':' {
        Some(TokenView::Colon)
    } else if s.len() == 1 && s[0] == ',' {
        Some(TokenView::Comma)
    } else if s.len() == 1 && s[0] == '=' {
        Some(TokenView::Equal)
    } else if s.len() == 1 && s[0] == '+' {
        Some(TokenView::Operator(Operator::Add))
    } else if s.len() == 1 && s[0] == '-' {
        Some(TokenView::Operator(Operator::Sub))
    } else if s.len() == 1 && s[0] == '*' {
        Some(TokenView::Operator(Operator::Mul))
    } else if s.len() == 1 && s[0] == '/' {
        Some(TokenView::Operator(Operator::Div))
    } else if s.len() == 1 && s[0] == '&' {
        Some(TokenView::Operator(Operator::And))
    } else if s.len() == 1 && s[0] == '<' {
        Some(TokenView::Comparison(Comparison::Smaller))
    } else if s.len() == 1 && s[0] == '>' {
        Some(TokenView::Comparison(Comparison::Bigger))
    } else if s.len() == 2 && s[0] == '=' && s[1] == '=' {
        Some(TokenView::Comparison(Comparison::Equal))
    } else if s.len() == 2 && s[0] == '!' && s[1] == '=' {
        Some(TokenView::Comparison(Comparison::NotEqual))
    } else if s.len() == 2 && s[0] == 'i' && s[1] == 'f' {
        Some(TokenView::Keyword(Keyword::If))
    } else if s.len() == 2 && s[0] == 'f' && s[1] == 'n' {
        Some(TokenView::Keyword(Keyword::Function))
    } else if s.len() == 3 && s[0] == 'l' && s[1] == 'e' && s[2] == 't' {
        Some(TokenView::Keyword(Keyword::Let))
    } else if s.len() == 3 && s[0] == 'u' && s[1] == 's' && s[2] == 'e' {
        Some(TokenView::Keyword(Keyword::Use))
    } else if s.len() == 3 && s[0] == 'i' && s[1] == 'n' && s[2] == 't' {
        Some(TokenView::Type(Type::Int))
    } else if s.len() == 4 && s[0] == 'e' && s[1] == 'l' && s[2] == 's' && s[3] == 'e' {
        Some(TokenView::Keyword(Keyword::Else))
    } else if s.len() == 4 && s[0] == 'c' && s[1] == 'h' && s[2] == 'a' && s[3] == 'r' {
        Some(TokenView::Type(Type::Char))
    } else if s.len() == 4 && s[0] == 'v' && s[1] == 'o' && s[2] == 'i' && s[3] == 'd' {
        Some(TokenView::Type(Type::Void))
    } else if s.len() == 5 && s[0] == 'w' && s[1] == 'h' && s[2] == 'i' && s[3] == 'l' && s[4]
        == 'e' {
        Some(TokenView::Keyword(Keyword::While))
    } else if s.len() == 6 && s[0] == 'r' && s[1] == 'e' && s[2] == 't' && s[3] == 'u' && s[4]
        == 'r' && s[5] == 'n' {
        Some(TokenView::Keyword(Keyword::Return))
    } else if s.len() > 0 && is_digit_seq(s) {
        if digits_val(s) <= usize::MAX as int {
            Some(TokenView::Int(digits_val(s) as usize))
        } else {
            None
        }
    } else {
        Some(TokenView::Ident(s))
    }
}

/// State of the scanner between characters.
pub struct LexState {
    pub mode: Mode,
    /// The pending buffer of characters not yet classified.
    pub buf: Seq<char>,
    pub line: int,
    pub col: int,
    /// Tokens emitted so far.
    pub toks: Seq<(TokenView, LocView)>,
}

pub open spec fn init_lex_state() -> LexState {
    LexState { mode: Mode::Normal, buf: Seq::empty(), line: 1, col: 1, toks: Seq::empty() }
}

/// Flush the pending buffer, if any: classify it and emit it at the column
/// where it began. `consumed` is how many characters past `col` the buffer
/// extends (0 when the flush is caused by a following character, 1 or 2 when
/// it is caused right after appending). Returns the new buffer and token
/// sequence, or the position of an integer literal that overflowed.
pub open spec fn flush_parts(
    buf: Seq<char>,
    toks: Seq<(TokenView, LocView)>,
    line: int,
    col: int,
    consumed: int,
) -> Result<(Seq<char>, Seq<(TokenView, LocView)>), LocView> {
    if buf.len() == 0 {
        Ok((buf, toks))
    } else {
        let pos = (line, col + consumed - buf.len());
        match classify(buf) {
            None => Err(pos),
            Some(t) => Ok((Seq::empty(), toks.push((t, pos)))),
        }
    }
}

/// The scanner, one recursive step per one or two consumed characters.
///
/// In plain mode `==`, `!=` and `//` combine with one character of lookahead;
/// `"` enters string mode discarding the pending buffer; a space ends the
/// buffer without a token of its own; after appending, the buffer is flushed
/// when the next character is a delimiter (end of input counts as one) or the
/// buffer itself is a complete keyword or punctuation string. A physical
/// newline always emits a `Newline` token and advances the line counter; in
/// string mode it is also kept in the literal, and it ends a comment. In
/// string mode `\` followed by `n` collapses to an embedded newline, and `"`
/// ends the literal.
pub open spec fn spec_lex(s: Seq<char>, i: int, st: LexState) -> Result<
    Seq<(TokenView, LocView)>,
    LocView,
>
    decreases s.len() - i,
{
    if i >= s.len() {
        // End of input acts as a delimiter in plain mode; an unterminated
        // string literal or a trailing comment leaves no extra token.
        if st.mode == Mode::Normal {
            match flush_parts(st.buf, st.toks, st.line, st.col, 0) {
                Err(p) => Err(p),
                Ok((b2, t2)) => Ok(t2),
            }
        } else {
            Ok(st.toks)
        }
    } else {
        let c = s[i];
        if c == '\n' {
            match st.mode {
                Mode::Normal => match flush_parts(st.buf, st.toks, st.line, st.col, 0) {
                    Err(p) => Err(p),
                    Ok((b2, t2)) => spec_lex(
                        s,
                        i + 1,
                        LexState {
                            mode: Mode::Normal,
                            buf: b2,
                            line: st.line + 1,
                            col: 1,
                            toks: t2.push((TokenView::Newline, (st.line, st.col))),
                        },
                    ),
                },
                Mode::Str => spec_lex(
                    s,
                    i + 1,
                    LexState {
                        buf: st.buf.push('\n'),
                        line: st.line + 1,
                        col: 1,
                        toks: st.toks.push((TokenView::Newline, (st.line, st.col))),
                        ..st
                    },
                ),
                Mode::Comment => spec_lex(
                    s,
                    i + 1,
                    LexState {
                        mode: Mode::Normal,
                        line: st.line + 1,
                        col: 1,
                        toks: st.toks.push((TokenView::Newline, (st.line, st.col))),
                        ..st
                    },
                ),
            }
        } else {
            match st.mode {
                Mode::Normal => {
                    if c == '"' {
                        spec_lex(
                            s,
                            i + 1,
                            LexState { mode: Mode::Str, buf: Seq::empty(), col: st.col + 1, ..st },
                        )
                    } else if c == ' ' {
                        match flush_parts(st.buf, st.toks, st.line, st.col, 0) {
                            Err(p) => Err(p),
                            Ok((b2, t2)) => spec_lex(
                                s,
                                i + 1,
                                LexState { buf: b2, col: st.col + 1, toks: t2, ..st },
                            ),
                        }
                    } else if c == '/' && i + 1 < s.len() && s[i + 1] == '/' {
                        match flush_parts(st.buf, st.toks, st.line, st.col, 0) {
                            Err(p) => Err(p),
                            Ok((b2, t2)) => spec_lex(
                                s,
                                i + 2,
                                LexState {
                                    mode: Mode::Comment,
                                    buf: b2,
                                    col: st.col + 2,
                                    toks: t2,
                                    ..st
                                },
                            ),
                        }
                    } else {
                        let (buf2, consumed): (Seq<char>, int) = if c == '=' && i + 1 < s.len()
                            && s[i + 1] == '=' {
                            (st.buf.push('=').push('='), 2)
                        } else if c == '!' && i + 1 < s.len() && s[i + 1] == '=' {
                            (st.buf.push('!').push('='), 2)
                        } else {
                            (st.buf.push(c), 1)
                        };
                        if i + consumed >= s.len() || is_delim_char(s[i + consumed])
                            || is_trigger_str(buf2) {
                            match flush_parts(buf2, st.toks, st.line, st.col, consumed) {
                                Err(p) => Err(p),
                                Ok((b2, t2)) => spec_lex(
                                    s,
                                    i + consumed,
                                    LexState { buf: b2, col: st.col + consumed, toks: t2, ..st },
                                ),
                            }
                        } else {
                            spec_lex(
                                s,
                                i + consumed,
                                LexState { buf: buf2, col: st.col + consumed, ..st },
                            )
                        }
                    }
                },
                Mode::Str => {
                    if c == '"' {
                        spec_lex(
                            s,
                            i + 1,
                            LexState {
                                mode: Mode::Normal,
                                buf: Seq::empty(),
                                col: st.col + 1,
                                toks: st.toks.push((TokenView::Str(st.buf), (st.line, st.col))),
                                ..st
                            },
                        )
                    } else if c == '\\' && i + 1 < s.len() && s[i + 1] == 'n' {
                        spec_lex(s, i + 2, LexState { buf: st.buf.push('\n'), col: st.col + 2, ..st })
                    } else {
                        spec_lex(s, i + 1, LexState { buf: st.buf.push(c), col: st.col + 1, ..st })
                    }
                },
                Mode::Comment => spec_lex(s, i + 1, LexState { col: st.col + 1, ..st }),
            }
        }
    }
}

/// What tokenizing a whole text means: run the scanner from the start state.
pub open spec fn spec_tokenize(s: Seq<char>) -> Result<Seq<(TokenView, LocView)>, LocView> {
    spec_lex(s, 0, init_lex_state())
}

/// Relies on `String::push`: appends the character to the end of the string.
pub assume_specification[ String::push ](s: &mut String, c: char)
    ensures
        final(s)@ == old(s)@.push(c),
;

fn chars_to_string(cs: &Vec<char>) -> (r: String)
    ensures
        r@ == cs@,
{
    let mut s = String::new();
    let mut k: usize = 0;
    while k < cs.len()
        invariant
            k <= cs@.len(),
            s@ == cs@.take(k as int),
        decreases cs@.len() - k,
    {
        s.push(cs[k]);
        proof {
            assert(cs@.take(k as int).push(cs@[k as int]) =~= cs@.take(k as int + 1));
        }
        k += 1;
    }
    proof {
        assert(cs@.take(cs@.len() as int) =~= cs@);
    }
    s
}

fn all_digits(cs: &Vec<char>) -> (r: bool)
    ensures
        r == is_digit_seq(cs@),
{
    let mut k: usize = 0;
    while k < cs.len()
        invariant
            k <= cs@.len(),
            forall|j: int| 0 <= j < k ==> is_digit_char(#[trigger] cs@[j]),
        decreases cs@.len() - k,
    {
        let c = cs[k] as u32;
        if !(48 <= c && c <= 57) {
            return false;
        }
        k += 1;
    }
    true
}

/// Parse a digit string into a `usize`, reporting when the value is too big.
fn parse_digits(cs: &Vec<char>) -> (r: Option<usize>)
    requires
        cs@.len() > 0,
        is_digit_seq(cs@),
    ensures
        match r {
            Some(v) => digits_val(cs@) == v as int,
            None => digits_val(cs@) > usize::MAX as int,
        },
{
    let mut val: usize = 0;
    let mut overflowed = false;
    let mut k: usize = 0;
    while k < cs.len()
        invariant
            k <= cs@.len(),
            is_digit_seq(cs@),
            !overflowed ==> val as int == digits_val(cs@.take(k as int)),
            overflowed ==> digits_val(cs@.take(k as int)) > usize::MAX as int,
        decreases cs@.len() - k,
    {
        let d = (cs[k] as u32 - 48) as u128;
        proof {
            assert(is_digit_char(cs@[k as int]));
            assert(cs@.take(k as int + 1).drop_last() =~= cs@.take(k as int));
        }
        if !overflowed {
            let next: u128 = (val as u128) * 10 + d;
            if next > (usize::MAX as u128) {
                overflowed = true;
            } else {
                val = next as usize;
            }
        }
        k += 1;
    }
    proof {
        assert(cs@.take(cs@.len() as int) =~= cs@);
    }
    if overflowed {
        None
    } else {
        Some(val)
    }
}

/// Classify a completed buffer, per [`classify`]. `None` is the one failure:
/// an integer literal that does not fit in `usize`.
fn lex_token(cs: &Vec<char>) -> (r: Option<Token>)
    ensures
        match r {
            Some(t) => classify(cs@) == Some(t@),
            None => classify(cs@) is None,
        },
{
    let n = cs.len();
    if n == 1 {
        let c = cs[0];
        if c == '[' {
            return Some(Token::OpenBracket);
        } else if c == ']' {
            return Some(Token::CloseBracket);
        } else if c == '{' {
            return Some(Token::OpenBrace);
        } else if c == '}' {
            return Some(Token::CloseBrace);
        } else if c == '(' {
            return Some(Token::OpenParen);
        } else if c == ')' {
            return Some(Token::CloseParen);
        } else if c == ';' {
            return Some(Token::Semi);
        } else if c == ':' {
            return Some(Token::Colon);
        } else if c == ',' {
            return Some(Token::Comma);
        } else if c == '=' {
            return Some(Token::Equal);
        } else if c == '+' {
            return Some(Token::Operator(Operator::Add));
        } else if c == '-' {
            return Some(Token::Operator(Operator::Sub));
        } else if c == '*' {
            return Some(Token::Operator(Operator::Mul));
        } else if c == '/' {
            return Some(Token::Operator(Operator::Div));
        } else if c == '&' {
            return Some(Token::Operator(Operator::And));
        } else if c == '<' {
            return Some(Token::Comparison(Comparison::Smaller));
        } else if c == '>' {
            return Some(Token::Comparison(Comparison::Bigger));
        }
    }
    if n == 2 {
        let a = cs[0];
        let b = cs[1];
        if a == '=' && b == '=' {
            return Some(Token::Comparison(Comparison::Equal));
        } else if a == '!' && b == '=' {
            return Some(Token::Comparison(Comparison::NotEqual));
        } else if a == 'i' && b == 'f' {
            return Some(Token::Keyword(Keyword::If));
        } else if a == 'f' && b == 'n' {
            return Some(Token::Keyword(Keyword::Function));
        }
    }
    if n == 3 {
        let a = cs[0];
        let b = cs[1];
        let c = cs[2];
        if a == 'l' && b == 'e' && c == 't' {
            return Some(Token::Keyword(Keyword::Let));
        } else if a == 'u' && b == 's' && c == 'e' {
            return Some(Token::Keyword(Keyword::Use));
        } else if a == 'i' && b == 'n' && c == 't' {
            return Some(Token::Type(Type::Int));
        }
    }
    if n == 4 {
        let a = cs[0];
        let b = cs[1];
        let c = cs[2];
        let d = cs[3];
        if a == 'e' && b == 'l' && c == 's' && d == 'e' {
            return Some(Token::Keyword(Keyword::Else));
        } else if a == 'c' && b == 'h' && c == 'a' && d == 'r' {
            return Some(Token::Type(Type::Char));
        } else if a == 'v' && b == 'o' && c == 'i' && d == 'd' {
            return Some(Token::Type(Type::Void));
        }
    }
    if n == 5 && cs[0] == 'w' && cs[1] == 'h' && cs[2] == 'i' && cs[3] == 'l' && cs[4] == 'e' {
        return Some(Token::Keyword(Keyword::While));
    }
    if n == 6 && cs[0] == 'r' && cs[1] == 'e' && cs[2] == 't' && cs[3] == 'u' && cs[4] == 'r'
        && cs[5] == 'n' {
        return Some(Token::Keyword(Keyword::Return));
    }
    if n > 0 && all_digits(cs) {
        return match parse_digits(cs) {
            Some(v) => Some(Token::Int(v)),
            None => None,
        };
    }
    Some(Token::Ident(chars_to_string(cs)))
}

proof fn lemma_toks_view_push(v: Seq<(Token, SourceLocation)>, t: Token, p: SourceLocation)
    ensures
        toks_view(v.push((t, p))) == toks_view(v).push((t@, loc_view(p))),
{
    assert(toks_view(v.push((t, p))) =~= toks_view(v).push((t@, loc_view(p))));
}

/// Flush the pending buffer into the token vector, per [`flush_parts`].
fn flush(
    buf: &mut Vec<char>,
    toks: &mut Vec<(Token, SourceLocation)>,
    line: usize,
    col: usize,
    consumed: usize,
) -> (r: Option<LexError>)
    requires
        old(buf)@.len() < col + consumed,
        col + consumed <= usize::MAX,
    ensures
        match r {
            None => flush_parts(
                old(buf)@,
                toks_view(old(toks)@),
                line as int,
                col as int,
                consumed as int,
            ) == Ok::<_, LocView>((final(buf)@, toks_view(final(toks)@))),
            Some(e) => flush_parts(
                old(buf)@,
                toks_view(old(toks)@),
                line as int,
                col as int,
                consumed as int,
            ) == Err::<(Seq<char>, Seq<(TokenView, LocView)>), _>(lex_err_view(e)),
        },
{
    if buf.len() == 0 {
        return None;
    }
    let pos: SourceLocation = (line, col + consumed - buf.len());
    match lex_token(buf) {
        None => Some(LexError::IntegerOverflow(pos)),
        Some(t) => {
            proof {
                lemma_toks_view_push(toks@, t, pos);
            }
            toks.push((t, pos));
            buf.clear();
            None
        },
    }
}

/// Tokenize a source text. Produces each token with the 1-based line and
/// column where it begins; fails only when an integer literal does not fit
/// in `usize`, reporting that literal's position.
pub fn tokenize(source: &str) -> (r: Result<Vec<(Token, SourceLocation)>, LexError>)
    requires
        source@.len() < usize::MAX,
    ensures
        match (r, spec_tokenize(source@)) {
            (Ok(toks), Ok(ts)) => toks_view(toks@) == ts,
            (Err(e), Err(p)) => lex_err_view(e) == p,
            _ => false,
        },
{
    let len = source.unicode_len();
    let mut i: usize = 0;
    let mut mode = Mode::Normal;
    let mut buf: Vec<char> = Vec::new();
    let mut line: usize = 1;
    let mut col: usize = 1;
    let mut toks: Vec<(Token, SourceLocation)> = Vec::new();
    proof {
        assert(toks_view(toks@) =~= Seq::<(TokenView, LocView)>::empty());
    }
    while i < len
        invariant
            len == source@.len(),
            len < usize::MAX,
            i <= len,
            1 <= line,
            line <= 1 + i,
            1 <= col,
            col <= 1 + i,
            mode == Mode::Normal ==> buf@.len() < col,
            mode == Mode::Comment ==> buf@.len() == 0,
            spec_tokenize(source@) == spec_lex(
                source@,
                i as int,
                LexState {
                    mode: mode,
                    buf: buf@,
                    line: line as int,
                    col: col as int,
                    toks: toks_view(toks@),
                },
            ),
        decreases len - i,
    {
        let ghost st_pre = LexState {
            mode: mode,
            buf: buf@,
            line: line as int,
            col: col as int,
            toks: toks_view(toks@),
        };
        let ghost i0 = i as int;
        let c = source.get_char(i);
        if c == '\n' {
            if mode == Mode::Normal {
                match flush(&mut buf, &mut toks, line, col, 0) {
                    Some(e) => {
                        return Err(e);
                    },
                    None => {},
                }
            }
            if mode == Mode::Str {
                buf.push('\n');
            }
            proof {
                lemma_toks_view_push(toks@, Token::Newline, (line, col));
            }
            toks.push((Token::Newline, (line, col)));
            if mode == Mode::Comment {
                mode = Mode::Normal;
            }
            line += 1;
            col = 1;
            i += 1;
        } else if mode == Mode::Normal {
            if c == '"' {
                mode = Mode::Str;
                buf = Vec::new();
                col += 1;
                i += 1;
            } else if c == ' ' {
                match flush(&mut buf, &mut toks, line, col, 0) {
                    Some(e) => {
                        return Err(e);
                    },
                    None => {},
                }
                col += 1;
                i += 1;
            } else if c == '/' && i + 1 < len && source.get_char(i + 1) == '/' {
                match flush(&mut buf, &mut toks, line, col, 0) {
                    Some(e) => {
                        return Err(e);
                    },
                    None => {},
                }
                mode = Mode::Comment;
                col += 2;
                i += 2;
            } else {
                let consumed: usize;
                if c == '=' && i + 1 < len && source.get_char(i + 1) == '=' {
                    buf.push('=');
                    buf.push('=');
                    consumed = 2;
                } else if c == '!' && i + 1 < len && source.get_char(i + 1) == '=' {
                    buf.push('!');
                    buf.push('=');
                    consumed = 2;
                } else {
                    buf.push(c);
                    consumed = 1;
                }
                let do_flush = i + consumed >= len || is_delim(source.get_char(i + consumed))
                    || is_trigger(&buf);
                if do_flush {
                    match flush(&mut buf, &mut toks, line, col, consumed) {
                        Some(e) => {
                            return Err(e);
                        },
                        None => {},
                    }
                }
                col += consumed;
                i += consumed;
            }
        } else if mode == Mode::Str {
            if c == '"' {
                let t = Token::Str(chars_to_string(&buf));
                proof {
                    lemma_toks_view_push(toks@, t, (line, col));
                }
                toks.push((t, (line, col)));
                mode = Mode::Normal;
                buf = Vec::new();
                col += 1;
                i += 1;
            } else if c == '\\' && i + 1 < len && source.get_char(i + 1) == 'n' {
                buf.push('\n');
                col += 2;
                i += 2;
            } else {
                buf.push(c);
                col += 1;
                i += 1;
            }
        } else {
            col += 1;
            i += 1;
        }
        proof {
            assert(spec_lex(source@, i0, st_pre) == spec_lex(
                source@,
                i as int,
                LexState {
                    mode: mode,
                    buf: buf@,
                    line: line as int,
                    col: col as int,
                    toks: toks_view(toks@),
                },
            ));
        }
    }
    if mode == Mode::Normal {
        match flush(&mut buf, &mut toks, line, col, 0) {
            Some(e) => {
                return Err(e);
            },
            None => {},
        }
    }
    Ok(toks)
}

/// Number of `Newline` tokens in a token sequence.
pub open spec fn count_newline_toks(ts: Seq<(TokenView, LocView)>) -> int
    decreases ts.len(),
{
    if ts.len() == 0 {
        0
    } else {
        count_newline_toks(ts.drop_last()) + (if ts.last().0 == TokenView::Newline {
            1int
        } else {
            0int
        })
    }
}

/// Number of line-feed characters in `s` from position `i` on.
pub open spec fn count_lf(s: Seq<char>, i: int) -> int
    decreases s.len() - i,
{
    if i < 0 || i >= s.len() {
        0
    } else {
        (if s[i] == '\n' {
            1int
        } else {
            0int
        }) + count_lf(s, i + 1)
    }
}

proof fn lemma_count_push(ts: Seq<(TokenView, LocView)>, t: TokenView, p: LocView)
    ensures
        count_newline_toks(ts.push((t, p))) == count_newline_toks(ts) + (if t
            == TokenView::Newline {
            1int
        } else {
            0int
        }),
{
    assert(ts.push((t, p)).drop_last() =~= ts);
}

proof fn lemma_classify_no_newline(b: Seq<char>)
    ensures
        match classify(b) {
            Some(tv) => !(tv == TokenView::Newline),
            None => true,
        },
{
}

proof fn lemma_flush_count(
    buf: Seq<char>,
    toks: Seq<(TokenView, LocView)>,
    line: int,
    col: int,
    consumed: int,
)
    ensures
        match flush_parts(buf, toks, line, col, consumed) {
            Ok((b2, t2)) => count_newline_toks(t2) == count_newline_toks(toks),
            Err(_) => true,
        },
{
    lemma_classify_no_newline(buf);
    if buf.len() > 0 {
        match classify(buf) {
            Some(t) => {
                lemma_count_push(toks, t, (line, col + consumed - buf.len()));
            },
            None => {},
        }
    }
}

proof fn lemma_lex_counts(s: Seq<char>, i: int, st: LexState)
    requires
        0 <= i,
    ensures
        match spec_lex(s, i, st) {
            Ok(ts) => count_newline_toks(ts) == count_newline_toks(st.toks) + count_lf(s, i),
            Err(_) => true,
        },
    decreases s.len() - i,
{
    if i >= s.len() {
        if st.mode == Mode::Normal {
            lemma_flush_count(st.buf, st.toks, st.line, st.col, 0);
        }
    } else {
        let c = s[i];
        if c == '\n' {
            match st.mode {
                Mode::Normal => {
                    lemma_flush_count(st.buf, st.toks, st.line, st.col, 0);
                    match flush_parts(st.buf, st.toks, st.line, st.col, 0) {
                        Err(_) => {},
                        Ok((b2, t2)) => {
                            lemma_count_push(t2, TokenView::Newline, (st.line, st.col));
                            lemma_lex_counts(
                                s,
                                i + 1,
                                LexState {
                                    mode: Mode::Normal,
                                    buf: b2,
                                    line: st.line + 1,
                                    col: 1,
                                    toks: t2.push((TokenView::Newline, (st.line, st.col))),
                                },
                            );
                        },
                    }
                },
                Mode::Str => {
                    lemma_count_push(st.toks, TokenView::Newline, (st.line, st.col));
                    lemma_lex_counts(
                        s,
                        i + 1,
                        LexState {
                            buf: st.buf.push('\n'),
                            line: st.line + 1,
                            col: 1,
                            toks: st.toks.push((TokenView::Newline, (st.line, st.col))),
                            ..st
                        },
                    );
                },
                Mode::Comment => {
                    lemma_count_push(st.toks, TokenView::Newline, (st.line, st.col));
                    lemma_lex_counts(
                        s,
                        i + 1,
                        LexState {
                            mode: Mode::Normal,
                            line: st.line + 1,
                            col: 1,
                            toks: st.toks.push((TokenView::Newline, (st.line, st.col))),
                            ..st
                        },
                    );
                },
            }
        } else {
            match st.mode {
                Mode::Normal => {
                    if c == '"' {
                        lemma_lex_counts(
                            s,
                            i + 1,
                            LexState { mode: Mode::Str, buf: Seq::empty(), col: st.col + 1, ..st },
                        );
                    } else if c == ' ' {
                        lemma_flush_count(st.buf, st.toks, st.line, st.col, 0);
                        match flush_parts(st.buf, st.toks, st.line, st.col, 0) {
                            Err(_) => {},
                            Ok((b2, t2)) => {
                                lemma_lex_counts(
                                    s,
                                    i + 1,
                                    LexState { buf: b2, col: st.col + 1, toks: t2, ..st },
                                );
                            },
                        }
                    } else if c == '/' && i + 1 < s.len() && s[i + 1] == '/' {
                        reveal_with_fuel(count_lf, 3);
                        assert(count_lf(s, i + 1) == count_lf(s, i + 2));
                        lemma_flush_count(st.buf, st.toks, st.line, st.col, 0);
                        match flush_parts(st.buf, st.toks, st.line, st.col, 0) {
                            Err(_) => {},
                            Ok((b2, t2)) => {
                                lemma_lex_counts(
                                    s,
                                    i + 2,
                                    LexState {
                                        mode: Mode::Comment,
                                        buf: b2,
                                        col: st.col + 2,
                                        toks: t2,
                                        ..st
                                    },
                                );
                            },
                        }
                    } else {
                        let (buf2, consumed): (Seq<char>, int) = if c == '=' && i + 1 < s.len()
                            && s[i + 1] == '=' {
                            (st.buf.push('=').push('='), 2)
                        } else if c == '!' && i + 1 < s.len() && s[i + 1] == '=' {
                            (st.buf.push('!').push('='), 2)
                        } else {
                            (st.buf.push(c), 1)
                        };
                        if consumed == 2 {
                            reveal_with_fuel(count_lf, 3);
                            assert(count_lf(s, i + 1) == count_lf(s, i + 2));
                        }
                        if i + consumed >= s.len() || is_delim_char(s[i + consumed])
                            || is_trigger_str(buf2) {
                            lemma_flush_count(buf2, st.toks, st.line, st.col, consumed);
                            match flush_parts(buf2, st.toks, st.line, st.col, consumed) {
                                Err(_) => {},
                                Ok((b2, t2)) => {
                                    lemma_lex_counts(
                                        s,
                                        i + consumed,
                                        LexState {
                                            buf: b2,
                                            col: st.col + consumed,
                                            toks: t2,
                                            ..st
                                        },
                                    );
                                },
                            }
                        } else {
                            lemma_lex_counts(
                                s,
                                i + consumed,
                                LexState { buf: buf2, col: st.col + consumed, ..st },
                            );
                        }
                    }
                },
                Mode::Str => {
                    if c == '"' {
                        lemma_count_push(st.toks, TokenView::Str(st.buf), (st.line, st.col));
                        lemma_lex_counts(
                            s,
                            i + 1,
                            LexState {
                                mode: Mode::Normal,
                                buf: Seq::empty(),
                                col: st.col + 1,
                                toks: st.toks.push((TokenView::Str(st.buf), (st.line, st.col))),
                                ..st
                            },
                        );
                    } else if c == '\\' && i + 1 < s.len() && s[i + 1] == 'n' {
                        assert(count_lf(s, i + 1) == count_lf(s, i + 2));
                        lemma_lex_counts(
                            s,
                            i + 2,
                            LexState { buf: st.buf.push('\n'), col: st.col + 2, ..st },
                        );
                    } else {
                        lemma_lex_counts(
                            s,
                            i + 1,
                            LexState { buf: st.buf.push(c), col: st.col + 1, ..st },
                        );
                    }
                },
                Mode::Comment => {
                    lemma_lex_counts(s, i + 1, LexState { col: st.col + 1, ..st });
                },
            }
        }
    }
}

/// Law: the number of `Newline` tokens produced equals the number of
/// line-feed characters in the input, regardless of scanner mode, whenever
/// tokenizing succeeds.
pub proof fn lemma_newline_invariant(s: Seq<char>)
    ensures
        match spec_tokenize(s) {
            Ok(ts) => count_newline_toks(ts) == count_lf(s, 0),
            Err(_) => true,
        },
{
    lemma_lex_counts(s, 0, init_lex_state());
}

/// A character with no special scanning behaviour in plain mode: not a
/// delimiter, not a quote, and not `!` (which may combine with `=`).
pub open spec fn plain_char(c: char) -> bool {
    !is_delim_char(c) && c != '"' && c != '!'
}

/// A word that the plain-mode scanner consumes whole: non-empty, made of
/// plain characters, with no proper prefix that is a complete keyword or
/// punctuation string (such a prefix would be flushed early).
pub open spec fn plain_word(w: Seq<char>) -> bool {
    &&& w.len() > 0
    &&& forall|k: int| 0 <= k < w.len() ==> plain_char(#[trigger] w[k])
    &&& forall|k: int| 1 <= k < w.len() ==> !is_trigger_str(#[trigger] w.take(k))
}

/// Scanning a plain word whose characters fill `s[i..]` up to a delimiter
/// or the end of input accumulates it whole and flushes it as one token at
/// the column where it began. `k` is how much of the word is already in the
/// buffer.
proof fn lemma_scan_plain_word(s: Seq<char>, i: int, st: LexState, w: Seq<char>, k: int)
    requires
        st.mode == Mode::Normal,
        plain_word(w),
        0 <= k < w.len(),
        st.buf == w.take(k),
        0 <= i,
        i + (w.len() - k) <= s.len(),
        s.subrange(i, i + (w.len() - k)) == w.skip(k),
        i + (w.len() - k) < s.len() ==> is_delim_char(s[i + (w.len() - k)]),
    ensures
        match classify(w) {
            None => spec_lex(s, i, st) == Err::<Seq<(TokenView, LocView)>, LocView>(
                (st.line, st.col - k),
            ),
            Some(tok) => spec_lex(s, i, st) == spec_lex(
                s,
                i + (w.len() - k),
                LexState {
                    mode: Mode::Normal,
                    buf: Seq::empty(),
                    line: st.line,
                    col: st.col + (w.len() - k),
                    toks: st.toks.push((tok, (st.line, st.col - k))),
                },
            ),
        },
    decreases w.len() - k,
{
    assert(s.subrange(i, i + (w.len() - k))[0] == s[i]);
    let c = s[i];
    assert(c == w[k]);
    assert(plain_char(c));
    assert(st.buf.push(c) =~= w.take(k + 1));
    if k + 1 == w.len() {
        assert(w.take(k + 1) =~= w);
    } else {
        assert(s.subrange(i, i + (w.len() - k))[1] == s[i + 1]);
        assert(s[i + 1] == w[k + 1]);
        assert(plain_char(s[i + 1]));
        assert(!is_trigger_str(w.take(k + 1)));
        let st1 = LexState { buf: w.take(k + 1), col: st.col + 1, ..st };
        assert(s.subrange(i + 1, i + 1 + (w.len() - (k + 1))) =~= w.skip(k + 1)) by {
            assert forall|m: int| 0 <= m < w.len() - k - 1 implies #[trigger] (s.subrange(
                i + 1,
                i + 1 + (w.len() - (k + 1)),
            )[m]) == w.skip(k + 1)[m] by {
                assert(s.subrange(i, i + (w.len() - k))[m + 1] == s[i + 1 + m]);
            }
        };
        lemma_scan_plain_word(s, i + 1, st1, w, k + 1);
    }
}

/// Law (idempotent literal classification, integers): tokenizing the text
/// of an emitted `Int` token again yields the same value. A non-empty digit
/// string whose value fits in `usize` — the texts that [`classify`], the
/// scanner's one path to an `Int`, accepts as one — tokenizes to that
/// single `Int` token.
pub proof fn lemma_int_token_idempotent(w: Seq<char>)
    requires
        w.len() > 0,
        is_digit_seq(w),
        digits_val(w) <= usize::MAX as int,
    ensures
        spec_tokenize(w) == Ok::<Seq<(TokenView, LocView)>, LocView>(
            seq![(TokenView::Int(digits_val(w) as usize), (1int, 1int))],
        ),
{
    assert forall|k: int| 0 <= k < w.len() implies plain_char(#[trigger] w[k]) by {
        assert(is_digit_char(w[k]));
    }
    assert forall|k: int| 1 <= k < w.len() implies !is_trigger_str(#[trigger] w.take(k)) by {
        assert(is_digit_char(w.take(k)[0]));
        if w.take(k).len() >= 2 {
            assert(is_digit_char(w.take(k)[1]));
        }
    }
    assert(is_digit_char(w[0]));
    if w.len() >= 2 {
        assert(is_digit_char(w[1]));
    }
    assert(classify(w) == Some(TokenView::Int(digits_val(w) as usize)));
    assert(init_lex_state().buf =~= w.take(0));
    assert(w.subrange(0, w.len() as int) =~= w.skip(0));
    lemma_scan_plain_word(w, 0, init_lex_state(), w, 0);
    assert(Seq::<(TokenView, LocView)>::empty().push(
        (TokenView::Int(digits_val(w) as usize), (1int, 1int)),
    ) =~= seq![(TokenView::Int(digits_val(w) as usize), (1int, 1int))]);
}

/// Law (idempotent literal classification, identifiers): tokenizing the
/// text of an emitted plain-character `Ident` token again yields the same
/// identifier, never a keyword — the keywords are reserved, and a text that
/// classifies as an identifier cannot collide with them.
pub proof fn lemma_ident_token_idempotent(w: Seq<char>)
    requires
        plain_word(w),
        classify(w) == Some(TokenView::Ident(w)),
    ensures
        spec_tokenize(w) == Ok::<Seq<(TokenView, LocView)>, LocView>(
            seq![(TokenView::Ident(w), (1int, 1int))],
        ),
{
    assert(init_lex_state().buf =~= w.take(0));
    assert(w.subrange(0, w.len() as int) =~= w.skip(0));
    lemma_scan_plain_word(w, 0, init_lex_state(), w, 0);
    assert(Seq::<(TokenView, LocView)>::empty().push((TokenView::Ident(w), (1int, 1int)))
        =~= seq![(TokenView::Ident(w), (1int, 1int))]);
}

/// The text of a token, for the tokens that have exactly one: keywords,
/// types, operators, comparisons, punctuation, and the kinds that carry
/// their own text. An `Int` token has no single text (leading zeros are
/// lost), so it is given the empty sequence here, and the round-trip law
/// does not speak of it; the same holds of the `Nop` comparison.
pub open spec fn token_text(tv: TokenView) -> Seq<char> {
    match tv {
        TokenView::Keyword(Keyword::If) => seq!['i', 'f'],
        TokenView::Keyword(Keyword::Let) => seq!['l', 'e', 't'],
        TokenView::Keyword(Keyword::Else) => seq!['e', 'l', 's', 'e'],
        TokenView::Keyword(Keyword::While) => seq!['w', 'h', 'i', 'l', 'e'],
        TokenView::Keyword(Keyword::Return) => seq!['r', 'e', 't', 'u', 'r', 'n'],
        TokenView::Keyword(Keyword::Use) => seq!['u', 's', 'e'],
        TokenView::Keyword(Keyword::Function) => seq!['f', 'n'],
        TokenView::Type(Type::Void) => seq!['v', 'o', 'i', 'd'],
        TokenView::Type(Type::Int) => seq!['i', 'n', 't'],
        TokenView::Type(Type::Char) => seq!['c', 'h', 'a', 'r'],
        TokenView::Ident(s) => s,
        TokenView::Int(_) => Seq::empty(),
        TokenView::Str(s) => s,
        TokenView::Operator(Operator::Add) => seq!['+'],
        TokenView::Operator(Operator::Sub) => seq!['-'],
        TokenView::Operator(Operator::Mul) => seq!['*'],
        TokenView::Operator(Operator::Div) => seq!['/'],
        TokenView::Operator(Operator::And) => seq!['&'],
        TokenView::Comparison(Comparison::Equal) => seq!['=', '='],
        TokenView::Comparison(Comparison::NotEqual) => seq!['!', '='],
        TokenView::Comparison(Comparison::Bigger) => seq!['>'],
        TokenView::Comparison(Comparison::Smaller) => seq!['<'],
        TokenView::Comparison(Comparison::Nop) => Seq::empty(),
        TokenView::OpenBrace => seq!['{'],
        TokenView::CloseBrace => seq!['}'],
        TokenView::OpenParen => seq!['('],
        TokenView::CloseParen => seq![')'],
        TokenView::OpenBracket => seq!['['],
        TokenView::CloseBracket => seq![']'],
        TokenView::Semi => seq![';'],
        TokenView::Comma => seq![','],
        TokenView::Colon => seq![':'],
        TokenView::Equal => seq!['='],
        TokenView::Newline => seq!['\n'],
    }
}

/// A keyword or punctuation word as the round-trip law admits them: a
/// single punctuation character (not a space, a newline, or a lone comment
/// opener, which have no token of their own), a two-character comparison,
/// or a plain keyword or type word.
pub open spec fn p1_word(w: Seq<char>) -> bool {
    ||| (w.len() == 1 && is_delim_char(w[0]) && w[0] != '\n' && w[0] != ' ')
    ||| (w.len() == 2 && ((w[0] == '=' && w[1] == '=') || (w[0] == '!' && w[1] == '=')))
    ||| (plain_word(w) && (classify(w) matches Some(TokenView::Keyword(_)) || classify(w)
        matches Some(TokenView::Type(_))))
}

/// The token of a recognized word.
pub open spec fn p1_tok(w: Seq<char>) -> TokenView {
    match classify(w) {
        Some(t) => t,
        None => TokenView::Newline,
    }
}

/// The words joined with single spaces.
pub open spec fn join_words(ws: Seq<Seq<char>>) -> Seq<char>
    decreases ws.len(),
{
    if ws.len() == 0 {
        Seq::empty()
    } else if ws.len() == 1 {
        ws[0]
    } else {
        ws[0] + seq![' '] + join_words(ws.drop_first())
    }
}

/// The expected token stream of a word list starting at `(line, col)`:
/// one token per word, at the column where the word begins.
pub open spec fn p1_tokens(ws: Seq<Seq<char>>, line: int, col: int) -> Seq<(TokenView, LocView)>
    decreases ws.len(),
{
    if ws.len() == 0 {
        Seq::empty()
    } else {
        seq![(p1_tok(ws[0]), (line, col))] + p1_tokens(ws.drop_first(), line, col + ws[0].len() + 1)
    }
}

/// Scanning a punctuation word (one delimiter character, `==` or `!=`)
/// followed by a space or the end of input flushes it as one token.
proof fn lemma_scan_punct_word(s: Seq<char>, i: int, st: LexState, w: Seq<char>)
    requires
        st.mode == Mode::Normal,
        st.buf.len() == 0,
        (w.len() == 1 && is_delim_char(w[0]) && w[0] != '\n' && w[0] != ' ') || (w.len() == 2 && ((
        w[0] == '=' && w[1] == '=') || (w[0] == '!' && w[1] == '='))),
        0 <= i,
        i + w.len() <= s.len(),
        s.subrange(i, i + w.len()) == w,
        i + w.len() < s.len() ==> s[i + w.len()] == ' ',
    ensures
        spec_lex(s, i, st) == spec_lex(
            s,
            i + w.len(),
            LexState {
                mode: Mode::Normal,
                buf: Seq::empty(),
                line: st.line,
                col: st.col + w.len(),
                toks: st.toks.push((p1_tok(w), (st.line, st.col))),
            },
        ),
{
    assert(s.subrange(i, i + w.len())[0] == s[i]);
    let c = s[i];
    assert(c == w[0]);
    if w.len() == 1 {
        assert(st.buf.push(c) =~= w);
        if i + 1 < s.len() {
            assert(s[i + 1] == ' ');
        }
    } else {
        assert(s.subrange(i, i + w.len())[1] == s[i + 1]);
        assert(s[i + 1] == w[1]);
        assert(st.buf.push(w[0]).push(w[1]) =~= w);
    }
}

/// One word of the round-trip law, followed by a space or the end of input,
/// scans to exactly its token.
proof fn lemma_scan_p1_word(s: Seq<char>, i: int, st: LexState, w: Seq<char>)
    requires
        st.mode == Mode::Normal,
        st.buf.len() == 0,
        p1_word(w),
        0 <= i,
        i + w.len() <= s.len(),
        s.subrange(i, i + w.len()) == w,
        i + w.len() < s.len() ==> s[i + w.len()] == ' ',
    ensures
        spec_lex(s, i, st) == spec_lex(
            s,
            i + w.len(),
            LexState {
                mode: Mode::Normal,
                buf: Seq::empty(),
                line: st.line,
                col: st.col + w.len(),
                toks: st.toks.push((p1_tok(w), (st.line, st.col))),
            },
        ),
{
    if plain_word(w) && (classify(w) matches Some(TokenView::Keyword(_)) || classify(w)
        matches Some(TokenView::Type(_))) {
        assert(st.buf =~= w.take(0));
        assert(w.skip(0) =~= w);
        lemma_scan_plain_word(s, i, st, w, 0);
    } else {
        lemma_scan_punct_word(s, i, st, w);
    }
}

proof fn lemma_p1_words(s: Seq<char>, i: int, st: LexState, ws: Seq<Seq<char>>)
    requires
        st.mode == Mode::Normal,
        st.buf.len() == 0,
        0 <= i <= s.len(),
        forall|n: int| 0 <= n < ws.len() ==> p1_word(#[trigger] ws[n]),
        s.subrange(i, s.len() as int) == join_words(ws),
    ensures
        spec_lex(s, i, st) == Ok::<Seq<(TokenView, LocView)>, LocView>(
            st.toks + p1_tokens(ws, st.line, st.col),
        ),
    decreases ws.len(),
{
    if ws.len() == 0 {
        assert(s.subrange(i, s.len() as int).len() == 0);
        assert(st.toks + p1_tokens(ws, st.line, st.col) =~= st.toks);
    } else {
        let w = ws[0];
        let rest = ws.drop_first();
        assert(p1_word(w));
        if ws.len() == 1 {
            assert(join_words(ws) == w);
            assert(i + w.len() == s.len());
            lemma_scan_p1_word(s, i, st, w);
            assert(p1_tokens(rest, st.line, st.col + w.len() + 1) == Seq::<(
                TokenView,
                LocView,
            )>::empty());
            assert(st.toks.push((p1_tok(w), (st.line, st.col))) =~= st.toks + p1_tokens(
                ws,
                st.line,
                st.col,
            ));
        } else {
            let jr = join_words(rest);
            assert(join_words(ws) == w + seq![' '] + jr);
            assert(s.subrange(i, s.len() as int).len() == w.len() + 1 + jr.len());
            assert forall|m: int| 0 <= m < w.len() implies #[trigger] s.subrange(
                i,
                i + w.len(),
            )[m] == w[m] by {
                assert(s.subrange(i, s.len() as int)[m] == s[i + m]);
                assert(s.subrange(i, i + w.len())[m] == s[i + m]);
            }
            assert(s.subrange(i, i + w.len()) =~= w);
            assert(s.subrange(i, s.len() as int)[w.len() as int] == s[i + w.len()]);
            assert((w + seq![' '] + jr)[w.len() as int] == ' ');
            assert(s[i + w.len()] == ' ');
            lemma_scan_p1_word(s, i, st, w);
            let st1 = LexState {
                mode: Mode::Normal,
                buf: Seq::empty(),
                line: st.line,
                col: st.col + w.len(),
                toks: st.toks.push((p1_tok(w), (st.line, st.col))),
            };
            let st2 = LexState {
                mode: Mode::Normal,
                buf: Seq::empty(),
                line: st.line,
                col: st.col + w.len() + 1,
                toks: st1.toks,
            };
            assert forall|m: int| 0 <= m < jr.len() implies #[trigger] s.subrange(
                i + w.len() + 1,
                s.len() as int,
            )[m] == jr[m] by {
                assert(s.subrange(i, s.len() as int)[w.len() + 1 + m] == s[i + w.len() + 1 + m]);
                assert((w + seq![' '] + jr)[w.len() + 1 + m] == jr[m]);
                assert(s.subrange(i + w.len() + 1, s.len() as int)[m] == s[i + w.len() + 1 + m]);
            }
            assert(s.subrange(i + w.len() + 1, s.len() as int) =~= jr);
            lemma_p1_words(s, i + w.len() + 1, st2, rest);
            assert(st1.toks + p1_tokens(rest, st.line, st.col + w.len() + 1) =~= st.toks
                + p1_tokens(ws, st.line, st.col));
        }
    }
}

proof fn lemma_p1_word_text(w: Seq<char>)
    requires
        p1_word(w),
    ensures
        token_text(p1_tok(w)) == w,
{
    if w.len() == 1 && is_delim_char(w[0]) && w[0] != '\n' && w[0] != ' ' {
        assert(w =~= seq![w[0]]);
    } else if w.len() == 2 && ((w[0] == '=' && w[1] == '=') || (w[0] == '!' && w[1] == '=')) {
        if w[0] == '=' {
            assert(w =~= seq!['=', '=']);
        } else {
            assert(w =~= seq!['!', '=']);
        }
    } else {
        if classify(w) == Some(TokenView::Keyword(Keyword::If)) {
            assert(w =~= seq!['i', 'f']);
        } else if classify(w) == Some(TokenView::Keyword(Keyword::Let)) {
            assert(w =~= seq!['l', 'e', 't']);
        } else if classify(w) == Some(TokenView::Keyword(Keyword::Else)) {
            assert(w =~= seq!['e', 'l', 's', 'e']);
        } else if classify(w) == Some(TokenView::Keyword(Keyword::While)) {
            assert(w =~= seq!['w', 'h', 'i', 'l', 'e']);
        } else if classify(w) == Some(TokenView::Keyword(Keyword::Return)) {
            assert(w =~= seq!['r', 'e', 't', 'u', 'r', 'n']);
        } else if classify(w) == Some(TokenView::Keyword(Keyword::Use)) {
            assert(w =~= seq!['u', 's', 'e']);
        } else if classify(w) == Some(TokenView::Keyword(Keyword::Function)) {
            assert(w =~= seq!['f', 'n']);
        } else if classify(w) == Some(TokenView::Type(Type::Void)) {
            assert(w =~= seq!['v', 'o', 'i', 'd']);
        } else if classify(w) == Some(TokenView::Type(Type::Int)) {
            assert(w =~= seq!['i', 'n', 't']);
        } else {
            assert(classify(w) == Some(TokenView::Type(Type::Char)));
            assert(w =~= seq!['c', 'h', 'a', 'r']);
        }
    }
}

proof fn lemma_p1_tokens_chars(ws: Seq<Seq<char>>, line: int, col: int)
    requires
        forall|n: int| 0 <= n < ws.len() ==> p1_word(#[trigger] ws[n]),
    ensures
        p1_tokens(ws, line, col).len() == ws.len(),
        forall|n: int|
            0 <= n < ws.len() ==> token_text(#[trigger] p1_tokens(ws, line, col)[n].0) == ws[n],
    decreases ws.len(),
{
    if ws.len() > 0 {
        let rest = ws.drop_first();
        lemma_p1_word_text(ws[0]);
        lemma_p1_tokens_chars(rest, line, col + ws[0].len() + 1);
        assert forall|n: int|
            0 <= n < ws.len() implies token_text(#[trigger] p1_tokens(ws, line, col)[n].0)
            == ws[n] by {
            if n > 0 {
                assert(p1_tokens(ws, line, col)[n] == p1_tokens(rest, line, col + ws[0].len() + 1)[
                    n - 1]);
                assert(rest[n - 1] == ws[n]);
            }
        }
    }
}

/// Law (round-trip token count): for input consisting only of keyword and
/// punctuation words separated by single spaces, tokenizing yields exactly
/// one token per word, in order, and re-joining the tokens' texts
/// reconstructs the words — the non-space structure of the input — exactly.
pub proof fn lemma_round_trip(ws: Seq<Seq<char>>)
    requires
        forall|n: int| 0 <= n < ws.len() ==> p1_word(#[trigger] ws[n]),
    ensures
        match spec_tokenize(join_words(ws)) {
            Ok(ts) => ts.len() == ws.len() && (forall|n: int|
                0 <= n < ws.len() ==> token_text(#[trigger] ts[n].0) == ws[n]),
            Err(_) => false,
        },
{
    let s = join_words(ws);
    assert(s.subrange(0, s.len() as int) =~= s);
    lemma_p1_words(s, 0, init_lex_state(), ws);
    assert(Seq::<(TokenView, LocView)>::empty() + p1_tokens(ws, 1, 1) =~= p1_tokens(ws, 1, 1));
    lemma_p1_tokens_chars(ws, 1, 1);
}

fn is_delim(c: char) -> (r: bool)
    ensures
        r == is_delim_char(c),
{
    c == '[' || c == ']' || c == '{' || c == '}' || c == '(' || c == ')' || c == ';' || c == ','
        || c == '=' || c == '<' || c == '>' || c == '+' || c == '-' || c == '*' || c == '/'
        || c == ':' || c == '&' || c == '\n' || c == ' '
}

fn is_trigger(cs: &Vec<char>) -> (r: bool)
    ensures
        r == is_trigger_str(cs@),
{
    let n = cs.len();
    if n == 1 {
        is_delim(cs[0])
    } else if n == 2 {
        let a = cs[0];
        let b = cs[1];
        (a == '=' && b == '=') || (a == '!' && b == '=') || (a == '/' && b == '/') || (a == 'i'
            && b == 'f') || (a == 'f' && b == 'n')
    } else if n == 3 {
        let a = cs[0];
        let b = cs[1];
        let c = cs[2];
        (a == 'l' && b == 'e' && c == 't') || (a == 'i' && b == 'n' && c == 't')
    } else if n == 4 {
        let a = cs[0];
        let b = cs[1];
        let c = cs[2];
        let d = cs[3];
        (a == 'e' && b == 'l' && c == 's' && d == 'e') || (a == 'c' && b == 'h' && c == 'a' && d
            == 'r') || (a == 'v' && b == 'o' && c == 'i' && d == 'd')
    } else if n == 5 {
        (cs[0] == 'w' && cs[1] == 'h' && cs[2] == 'i' && cs[3] == 'l' && cs[4] == 'e') || (cs[0]
            == '#' && cs[1] == 'l' && cs[2] == 'i' && cs[3] == 'n' && cs[4] == 'k')
    } else if n == 6 {
        cs[0] == 'r' && cs[1] == 'e' && cs[2] == 't' && cs[3] == 'u' && cs[4] == 'r' && cs[5]
            == 'n'
    } else if n == 8 {
        cs[0] == '#' && cs[1] == 'i' && cs[2] == 'n' && cs[3] == 'c' && cs[4] == 'l' && cs[5]
            == 'u' && cs[6] == 'd' && cs[7] == 'e'
    } else {
        false
    }
}

} // verus!

