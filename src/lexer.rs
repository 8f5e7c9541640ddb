use vstd::prelude::*;
use vstd::string::StrSliceExecFns;

use crate::ast::{LitInterval, Num};

verus! {

/// The tokens of the language.
#[derive(Debug, PartialEq, Eq)]
pub enum Token {
    Id(String),
    Lit(LitInterval),
    True,
    False,
    Skip,
    If,
    Then,
    Else,
    While,
    Do,
    Repeat,
    Until,
    For,
    Assign,
    Plus,
    Minus,
    Mul,
    Div,
    AddAssign,
    SubAssign,
    MulAssign,
    Inc,
    Dec,
    Eq,
    Neq,
    Lt,
    Lte,
    Gt,
    Gte,
    Not,
    And,
    Or,
    Semicolon,
    BracketOpen,
    BracketClose,
    CurlyOpen,
    CurlyClose,
}

/// Line and column of a token, both from 1.
pub type TokenPosition = (usize, usize);

/// Why a program text could not be read.
#[derive(Debug)]
pub enum ParserError {
    UnexpectedEOF,
    UnknownSymbol { pos: TokenPosition, symbol: char },
    UnexpectedToken { pos: TokenPosition, expected: Option<Token>, found: Token },
}

impl Token {

    /// The variant of the token, as a number.
    pub open spec fn kind(&self) -> u8 {
        match self {
                Token::Id(_) => 0,
                Token::Lit(_) => 1,
                Token::True => 2,
                Token::False => 3,
                Token::Skip => 4,
                Token::If => 5,
                Token::Then => 6,
                Token::Else => 7,
                Token::While => 8,
                Token::Do => 9,
                Token::Repeat => 10,
                Token::Until => 11,
                Token::For => 12,
                Token::Assign => 13,
                Token::Plus => 14,
                Token::Minus => 15,
                Token::Mul => 16,
                Token::Div => 17,
                Token::AddAssign => 18,
                Token::SubAssign => 19,
                Token::MulAssign => 20,
                Token::Inc => 21,
                Token::Dec => 22,
                Token::Eq => 23,
                Token::Neq => 24,
                Token::Lt => 25,
                Token::Lte => 26,
                Token::Gt => 27,
                Token::Gte => 28,
                Token::Not => 29,
                Token::And => 30,
                Token::Or => 31,
                Token::Semicolon => 32,
                Token::BracketOpen => 33,
                Token::BracketClose => 34,
                Token::CurlyOpen => 35,
                Token::CurlyClose => 36,
        }
    }

    fn kind_exec(&self) -> (r: u8)
        ensures
            r == self.kind(),
    {
        match self {
                Token::Id(_) => 0,
                Token::Lit(_) => 1,
                Token::True => 2,
                Token::False => 3,
                Token::Skip => 4,
                Token::If => 5,
                Token::Then => 6,
                Token::Else => 7,
                Token::While => 8,
                Token::Do => 9,
                Token::Repeat => 10,
                Token::Until => 11,
                Token::For => 12,
                Token::Assign => 13,
                Token::Plus => 14,
                Token::Minus => 15,
                Token::Mul => 16,
                Token::Div => 17,
                Token::AddAssign => 18,
                Token::SubAssign => 19,
                Token::MulAssign => 20,
                Token::Inc => 21,
                Token::Dec => 22,
                Token::Eq => 23,
                Token::Neq => 24,
                Token::Lt => 25,
                Token::Lte => 26,
                Token::Gt => 27,
                Token::Gte => 28,
                Token::Not => 29,
                Token::And => 30,
                Token::Or => 31,
                Token::Semicolon => 32,
                Token::BracketOpen => 33,
                Token::BracketClose => 34,
                Token::CurlyOpen => 35,
                Token::CurlyClose => 36,
        }
    }

    /// Equality of tokens, names compared by their text.
    pub open spec fn same_spec(&self, o: &Token) -> bool {
        match (*self, *o) {
            (Token::Id(x), Token::Id(y)) => x@ == y@,
            _ => *self == *o,
        }
    }

    /// Whether two tokens are equal.
    pub fn same(&self, o: &Token) -> (r: bool)
        ensures
            r == self.same_spec(o),
    {
        match (self, o) {
            (Token::Id(x), Token::Id(y)) => *x == *y,
            (Token::Lit(m), Token::Lit(n)) => *m == *n,
            (Token::Id(_), _) | (Token::Lit(_), _) => false,
            _ => self.kind_exec() == o.kind_exec(),
        }
    }
    /// A copy of the token.
    pub fn duplicate(&self) -> (r: Token)
        ensures
            r == *self,
    {
        match self {
            Token::Id(x) => Token::Id(x.clone()),
            Token::Lit(n) => Token::Lit(*n),
            Token::True => Token::True,
            Token::False => Token::False,
            Token::Skip => Token::Skip,
            Token::If => Token::If,
            Token::Then => Token::Then,
            Token::Else => Token::Else,
            Token::While => Token::While,
            Token::Do => Token::Do,
            Token::Repeat => Token::Repeat,
            Token::Until => Token::Until,
            Token::For => Token::For,
            Token::Assign => Token::Assign,
            Token::Plus => Token::Plus,
            Token::Minus => Token::Minus,
            Token::Mul => Token::Mul,
            Token::Div => Token::Div,
            Token::AddAssign => Token::AddAssign,
            Token::SubAssign => Token::SubAssign,
            Token::MulAssign => Token::MulAssign,
            Token::Inc => Token::Inc,
            Token::Dec => Token::Dec,
            Token::Eq => Token::Eq,
            Token::Neq => Token::Neq,
            Token::Lt => Token::Lt,
            Token::Lte => Token::Lte,
            Token::Gt => Token::Gt,
            Token::Gte => Token::Gte,
            Token::Not => Token::Not,
            Token::And => Token::And,
            Token::Or => Token::Or,
            Token::Semicolon => Token::Semicolon,
            Token::BracketOpen => Token::BracketOpen,
            Token::BracketClose => Token::BracketClose,
            Token::CurlyOpen => Token::CurlyOpen,
            Token::CurlyClose => Token::CurlyClose,
        }
    }
}

/// The token of a keyword.
fn match_keyword(kw: &String) -> (r: Option<Token>)
    ensures
        r matches Some(t) ==> !(t is Id) && !(t is Lit),
{
    if *kw == "if".to_owned() {
        Some(Token::If)
    } else if *kw == "then".to_owned() {
        Some(Token::Then)
    } else if *kw == "else".to_owned() {
        Some(Token::Else)
    } else if *kw == "while".to_owned() {
        Some(Token::While)
    } else if *kw == "do".to_owned() {
        Some(Token::Do)
    } else if *kw == "repeat".to_owned() {
        Some(Token::Repeat)
    } else if *kw == "until".to_owned() {
        Some(Token::Until)
    } else if *kw == "for".to_owned() {
        Some(Token::For)
    } else if *kw == "skip".to_owned() {
        Some(Token::Skip)
    } else if *kw == "not".to_owned() {
        Some(Token::Not)
    } else if *kw == "and".to_owned() {
        Some(Token::And)
    } else if *kw == "or".to_owned() {
        Some(Token::Or)
    } else if *kw == "true".to_owned() {
        Some(Token::True)
    } else if *kw == "false".to_owned() {
        Some(Token::False)
    } else {
        None
    }
}

/// The token of a two-character symbol.
fn match_symbol2(c1: char, c2: char) -> (r: Option<Token>) {
    match (c1, c2) {
        (':', '=') => Some(Token::Assign),
        ('+', '=') => Some(Token::AddAssign),
        ('-', '=') => Some(Token::SubAssign),
        ('*', '=') => Some(Token::MulAssign),
        ('+', '+') => Some(Token::Inc),
        ('-', '-') => Some(Token::Dec),
        ('=', '=') => Some(Token::Eq),
        ('!', '=') => Some(Token::Neq),
        ('<', '=') => Some(Token::Lte),
        ('>', '=') => Some(Token::Gte),
        _ => None,
    }
}

/// The characters that are a token by themselves.
pub open spec fn single_symbol(c: char) -> bool {
    c == ';' || c == '(' || c == ')' || c == '{' || c == '}' || c == '*' || c == '/' || c == '+' || c == '-'
        || c == '<' || c == '>'
}

/// Characters that never make the lexer fail: blanks, letters, `_` and the
/// one-character symbols.
pub open spec fn plain_char(c: char) -> bool {
    c == ' ' || c == '\t' || c == '\r' || c == '\n' || is_word_start(c) || single_symbol(c)
}

/// The token of a one-character symbol.
fn match_symbol(c: char) -> (r: Option<Token>)
    ensures
        r is Some <==> single_symbol(c),
{
    match c {
        ';' => Some(Token::Semicolon),
        '(' => Some(Token::BracketOpen),
        ')' => Some(Token::BracketClose),
        '{' => Some(Token::CurlyOpen),
        '}' => Some(Token::CurlyClose),
        '*' => Some(Token::Mul),
        '/' => Some(Token::Div),
        '+' => Some(Token::Plus),
        '-' => Some(Token::Minus),
        '<' => Some(Token::Lt),
        '>' => Some(Token::Gt),
        _ => None,
    }
}

pub open spec fn is_digit(c: char) -> bool {
    '0' <= c <= '9'
}

pub open spec fn is_word_start(c: char) -> bool {
    ('a' <= c <= 'z') || ('A' <= c <= 'Z') || c == '_'
}

pub open spec fn is_word_char(c: char) -> bool {
    is_word_start(c) || is_digit(c)
}

/// The text as a list of characters.
pub(crate) fn chars_of(s: &str) -> (r: Vec<char>)
    ensures
        r@ == s@,
{
    let n = s.unicode_len();
    let mut v: Vec<char> = Vec::new();
    let mut i: usize = 0;
    while i < n
        invariant
            n == s@.len(),
            i <= n,
            v@ == s@.take(i as int),
        decreases n - i,
    {
        v.push(s.get_char(i));
        proof {
            assert(s@.take(i + 1) =~= s@.take(i as int).push(s@[i as int]));
        }
        i += 1;
    }
    proof {
        assert(s@.take(n as int) =~= s@);
    }
    v
}

/// Reads the digits from `i` on: their value and the index after them, or `None`
/// when the value leaves `i128`.
fn scan_number(cs: &Vec<char>, i: usize) -> (r: Option<(Num, usize)>)
    requires
        i < cs@.len(),
        is_digit(cs@[i as int]),
    ensures
        r matches Some((n, j)) ==> i < j <= cs@.len() && n >= 0,
{
    let mut v: i128 = 0;
    let mut j = i;
    while j < cs.len() && '0' <= cs[j] && cs[j] <= '9'
        invariant
            i <= j <= cs@.len(),
            v >= 0,
            j == i ==> v == 0,
        decreases cs@.len() - j,
    {
        let d = (cs[j] as u32 - '0' as u32) as i128;
        v = match v.checked_mul(10) {
            Some(t) => match t.checked_add(d) {
                Some(u) => u,
                None => return None,
            },
            None => return None,
        };
        j += 1;
    }
    if j == i {
        return None;
    }
    Some((v, j))
}

/// Reads an optionally negative integer from `i` on.
fn scan_signed(cs: &Vec<char>, i: usize) -> (r: Option<(Num, usize)>)
    requires
        i <= cs@.len(),
    ensures
        r matches Some((n, j)) ==> i < j <= cs@.len(),
{
    if i < cs.len() && cs[i] == '-' {
        if i + 1 < cs.len() && '0' <= cs[i + 1] && cs[i + 1] <= '9' {
            match scan_number(cs, i + 1) {
                Some((n, j)) => Some((-n, j)),
                None => None,
            }
        } else {
            None
        }
    } else if i < cs.len() && '0' <= cs[i] && cs[i] <= '9' {
        scan_number(cs, i)
    } else {
        None
    }
}

/// Splits a program text into tokens with their positions. Whitespace and `//`
/// comments separate tokens; symbols are read longest first; `[l,u]` is an
/// interval literal.
pub fn tokenize(src: &str) -> (r: Result<Vec<(Token, TokenPosition)>, ParserError>)
    ensures
        r matches Err(e) ==> e is UnknownSymbol,
        r matches Err(ParserError::UnknownSymbol { pos, symbol }) ==> src@.contains(symbol) && !plain_char(symbol),
        (forall|j: int| 0 <= j < src@.len() ==> plain_char(#[trigger] src@[j])) ==> r is Ok,
{
    let cs = chars_of(src);
    let mut toks: Vec<(Token, TokenPosition)> = Vec::new();
    let mut i: usize = 0;
    let mut line: usize = 1;
    let mut col: usize = 1;
    while i < cs.len()
        invariant
            i <= cs@.len(),
            cs@ == src@,
        decreases cs@.len() - i,
    {
        let c = cs[i];
        let pos = (line, col);
        if c == '\n' {
            line = if line < usize::MAX { line + 1 } else { line };
            col = 1;
            i += 1;
        } else if c == ' ' || c == '\t' || c == '\r' {
            col = if col < usize::MAX { col + 1 } else { col };
            i += 1;
        } else if c == '/' && i + 1 < cs.len() && cs[i + 1] == '/' {
            let ghost i0 = i;
            i += 2;
            while i < cs.len() && cs[i] != '\n'
                invariant
                    i0 < i <= cs@.len(),
                decreases cs@.len() - i,
            {
                i += 1;
            }
        } else {
            let start = i;
            if '0' <= c && c <= '9' {
                match scan_number(&cs, i) {
                    Some((n, j)) => {
                        toks.push((Token::Lit(LitInterval(n, n)), pos));
                        i = j;
                    },
                    None => return Err(ParserError::UnknownSymbol { pos, symbol: c }),
                }
            } else if ('a' <= c && c <= 'z') || ('A' <= c && c <= 'Z') || c == '_' {
                let mut j = i + 1;
                while j < cs.len() && (('a' <= cs[j] && cs[j] <= 'z') || ('A' <= cs[j] && cs[j] <= 'Z') || cs[j] == '_' || ('0' <= cs[j] && cs[j] <= '9'))
                    invariant
                        i < j <= cs@.len(),
                        cs@ == src@,
                    decreases cs@.len() - j,
                {
                    j += 1;
                }
                let word = src.substring_char(i, j).to_owned();
                let tok = match match_keyword(&word) {
                    Some(t) => t,
                    None => Token::Id(word),
                };
                toks.push((tok, pos));
                i = j;
            } else if c == '[' {
                let lo = scan_signed(&cs, i + 1);
                let (l, j) = match lo {
                    Some(p) => p,
                    None => return Err(ParserError::UnknownSymbol { pos, symbol: c }),
                };
                if !(j < cs.len() && cs[j] == ',') {
                    return Err(ParserError::UnknownSymbol { pos, symbol: c });
                }
                let (u, k) = match scan_signed(&cs, j + 1) {
                    Some(p) => p,
                    None => return Err(ParserError::UnknownSymbol { pos, symbol: c }),
                };
                if !(k < cs.len() && cs[k] == ']') {
                    return Err(ParserError::UnknownSymbol { pos, symbol: c });
                }
                toks.push((Token::Lit(LitInterval(l, u)), pos));
                i = k + 1;
            } else {
                let two = if i + 1 < cs.len() { match_symbol2(c, cs[i + 1]) } else { None };
                match two {
                    Some(t) => {
                        toks.push((t, pos));
                        i += 2;
                    },
                    None => match match_symbol(c) {
                        Some(t) => {
                            toks.push((t, pos));
                            i += 1;
                        },
                        None => return Err(ParserError::UnknownSymbol { pos, symbol: c }),
                    },
                }
            }
            let w = i - start;
            col = if col <= usize::MAX - w { col + w } else { col };
        }
    }
    Ok(toks)
}

} // verus!
