//! The lexed form of a template: plain text spans and the token
//! streams of output expressions and tag markers. The scanner here
//! stands in for the external lexer the core is specified against.
use vstd::prelude::*;

use crate::error::Error;

verus! {

/// Model of one argument token.
pub enum TokV {
    Ident(Seq<char>),
    IntLit(int),
    StrLit(Seq<char>),
    Pipe,
    Colon,
    Comma,
    LParen,
    RParen,
    DotDot,
    EqEq,
    NotEq,
    Lt,
    Gt,
    Le,
    Ge,
}

/// One token of a tag's or output expression's argument text.
#[derive(Debug)]
pub enum Token {
    Ident(String),
    IntLit(i64),
    StrLit(String),
    Pipe,
    Colon,
    Comma,
    LParen,
    RParen,
    DotDot,
    EqEq,
    NotEq,
    Lt,
    Gt,
    Le,
    Ge,
}

impl View for Token {
    type V = TokV;

    open spec fn view(&self) -> TokV {
        match self {
            Token::Ident(s) => TokV::Ident(s@),
            Token::IntLit(i) => TokV::IntLit(*i as int),
            Token::StrLit(s) => TokV::StrLit(s@),
            Token::Pipe => TokV::Pipe,
            Token::Colon => TokV::Colon,
            Token::Comma => TokV::Comma,
            Token::LParen => TokV::LParen,
            Token::RParen => TokV::RParen,
            Token::DotDot => TokV::DotDot,
            Token::EqEq => TokV::EqEq,
            Token::NotEq => TokV::NotEq,
            Token::Lt => TokV::Lt,
            Token::Gt => TokV::Gt,
            Token::Le => TokV::Le,
            Token::Ge => TokV::Ge,
        }
    }
}

impl Clone for Token {
    /// A copy with the same model.
    fn clone(&self) -> (r: Self)
        ensures
            r@ == self@,
    {
        match self {
            Token::Ident(s) => Token::Ident(s.clone()),
            Token::IntLit(i) => Token::IntLit(*i),
            Token::StrLit(s) => Token::StrLit(s.clone()),
            Token::Pipe => Token::Pipe,
            Token::Colon => Token::Colon,
            Token::Comma => Token::Comma,
            Token::LParen => Token::LParen,
            Token::RParen => Token::RParen,
            Token::DotDot => Token::DotDot,
            Token::EqEq => Token::EqEq,
            Token::NotEq => Token::NotEq,
            Token::Lt => Token::Lt,
            Token::Gt => Token::Gt,
            Token::Le => Token::Le,
            Token::Ge => Token::Ge,
        }
    }
}

/// One element of the lexed template: a plain text span, an output
/// expression, or a tag marker, the latter two already tokenized.
#[derive(Debug)]
pub enum Element {
    Raw(String),
    Output(Vec<Token>),
    Tag(Vec<Token>),
}

/// Whether a character is a letter or an underscore.
fn is_ident_start(c: char) -> (r: bool) {
    let u = c as u32;
    (u >= 97 && u <= 122) || (u >= 65 && u <= 90) || u == 95
}

/// Whether a character may continue an identifier.
fn is_ident_char(c: char) -> (r: bool) {
    let u = c as u32;
    (u >= 97 && u <= 122) || (u >= 65 && u <= 90) || (u >= 48 && u <= 57) || u == 95
}

/// Whether a character is a decimal digit.
fn is_digit(c: char) -> (r: bool)
    ensures
        r == (48 <= c as u32 <= 57),
{
    let u = c as u32;
    u >= 48 && u <= 57
}

/// Tokenizes the argument text of one tag or output expression.
#[verifier::loop_isolation(false)]
pub fn tokenize(s: &str) -> (r: Result<Vec<Token>, Error>)
    ensures
        r matches Err(e) ==> e.kind == crate::error::ErrorKind::Parse,
{
    let n = s.unicode_len();
    let mut out: Vec<Token> = Vec::new();
    let mut i: usize = 0;
    while i < n
        invariant
            0 <= i <= n,
            n == s@.len(),
        decreases n - i,
    {
        let c = s.get_char(i);
        let u = c as u32;
        if u == 32 || u == 9 || u == 10 || u == 13 {
            i += 1;
        } else if c == '|' {
            out.push(Token::Pipe);
            i += 1;
        } else if c == ':' {
            out.push(Token::Colon);
            i += 1;
        } else if c == ',' {
            out.push(Token::Comma);
            i += 1;
        } else if c == '(' {
            out.push(Token::LParen);
            i += 1;
        } else if c == ')' {
            out.push(Token::RParen);
            i += 1;
        } else if c == '.' {
            if i + 1 < n && s.get_char(i + 1) == '.' {
                out.push(Token::DotDot);
                i += 2;
            } else {
                return Err(Error::parse(String::from_str("unexpected character in arguments")));
            }
        } else if c == '=' {
            if i + 1 < n && s.get_char(i + 1) == '=' {
                out.push(Token::EqEq);
                i += 2;
            } else {
                return Err(Error::parse(String::from_str("unexpected character in arguments")));
            }
        } else if c == '!' {
            if i + 1 < n && s.get_char(i + 1) == '=' {
                out.push(Token::NotEq);
                i += 2;
            } else {
                return Err(Error::parse(String::from_str("unexpected character in arguments")));
            }
        } else if c == '<' {
            if i + 1 < n && s.get_char(i + 1) == '=' {
                out.push(Token::Le);
                i += 2;
            } else {
                out.push(Token::Lt);
                i += 1;
            }
        } else if c == '>' {
            if i + 1 < n && s.get_char(i + 1) == '=' {
                out.push(Token::Ge);
                i += 2;
            } else {
                out.push(Token::Gt);
                i += 1;
            }
        } else if c == '"' || c == '\'' {
            let quote = c;
            let mut j = i + 1;
            while j < n && !(s.get_char(j) == quote)
                invariant
                    i + 1 <= j <= n,
                    n == s@.len(),
                decreases n - j,
            {
                j += 1;
            }
            if j >= n {
                return Err(Error::parse(String::from_str("unterminated string literal")));
            }
            let text = s.substring_char(i + 1, j).to_owned();
            out.push(Token::StrLit(text));
            i = j + 1;
        } else if is_digit(c) || c == '-' {
            let negative = c == '-';
            let start = if negative {
                i + 1
            } else {
                i
            };
            if start >= n || !is_digit(s.get_char(start)) {
                return Err(Error::parse(String::from_str("unexpected character in arguments")));
            }
            let mut value: i64 = ((s.get_char(start) as u32) - 48) as i64;
            let mut j = start + 1;
            while j < n && is_digit(s.get_char(j))
                invariant
                    start + 1 <= j <= n,
                    n == s@.len(),
                    0 <= value,
                decreases n - j,
            {
                let d = (s.get_char(j) as u32) - 48;
                if value > (i64::MAX - (d as i64)) / 10 {
                    return Err(Error::parse(String::from_str("integer literal too large")));
                }
                value = value * 10 + (d as i64);
                j += 1;
            }
            out.push(Token::IntLit(if negative {
                -value
            } else {
                value
            }));
            i = j;
        } else if is_ident_start(c) {
            let mut j = i + 1;
            while j < n && is_ident_char(s.get_char(j))
                invariant
                    i + 1 <= j <= n,
                    n == s@.len(),
                decreases n - j,
            {
                j += 1;
            }
            let text = s.substring_char(i, j).to_owned();
            out.push(Token::Ident(text));
            i = j;
        } else {
            return Err(Error::parse(String::from_str("unexpected character in arguments")));
        }
    }
    Ok(out)
}

/// Splits template text into raw spans, output expressions and tag
/// markers, tokenizing the contents of the latter two.
#[verifier::loop_isolation(false)]
pub fn lex_elements(text: &str) -> (r: Result<Vec<Element>, Error>)
    ensures
        r matches Err(e) ==> e.kind == crate::error::ErrorKind::Parse,
{
    let n = text.unicode_len();
    let mut out: Vec<Element> = Vec::new();
    let mut i: usize = 0;
    while i < n
        invariant
            0 <= i <= n,
            n == text@.len(),
        decreases n - i,
    {
        let c = text.get_char(i);
        if c == '{' && i + 1 < n && text.get_char(i + 1) == '{' {
            let mut j = i + 2;
            while j < n && j + 1 < n && !(text.get_char(j) == '}' && text.get_char(j + 1) == '}')
                invariant
                    i + 2 <= j <= n,
                    n == text@.len(),
                decreases n - j,
            {
                j += 1;
            }
            if j >= n || j + 1 >= n {
                return Err(Error::parse(String::from_str("unterminated output expression")));
            }
            let inner = text.substring_char(i + 2, j).to_owned();
            let tokens = tokenize(inner.as_str())?;
            out.push(Element::Output(tokens));
            i = j + 2;
        } else if c == '{' && i + 1 < n && text.get_char(i + 1) == '%' {
            let mut j = i + 2;
            while j < n && j + 1 < n && !(text.get_char(j) == '%' && text.get_char(j + 1) == '}')
                invariant
                    i + 2 <= j <= n,
                    n == text@.len(),
                decreases n - j,
            {
                j += 1;
            }
            if j >= n || j + 1 >= n {
                return Err(Error::parse(String::from_str("unterminated tag marker")));
            }
            let inner = text.substring_char(i + 2, j).to_owned();
            let tokens = tokenize(inner.as_str())?;
            out.push(Element::Tag(tokens));
            i = j + 2;
        } else {
            let mut j = i + 1;
            while j < n && !(text.get_char(j) == '{' && j + 1 < n && (text.get_char(j + 1) == '{'
                || text.get_char(j + 1) == '%'))
                invariant
                    i + 1 <= j <= n,
                    n == text@.len(),
                decreases n - j,
            {
                j += 1;
            }
            let raw = text.substring_char(i, j).to_owned();
            out.push(Element::Raw(raw));
            i = j;
        }
    }
    Ok(out)
}

} // verus!
