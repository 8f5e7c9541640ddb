use vstd::prelude::*;

use crate::cst::{Aexpr, AssignStatements, Bexpr, BexprAtomic, Factor, Statement, Statements, Term};
use crate::lexer::{ParserError, Token, TokenPosition};

verus! {

/// A recursive-descent parser over a list of tokens.
pub struct ConcreteParser {
    tokens: Vec<(Token, TokenPosition)>,
    pos: usize,
}

impl ConcreteParser {
    pub closed spec fn remaining(&self) -> int {
        self.tokens@.len() - self.pos
    }

    /// The parser is at a token of its list or at its end.
    pub closed spec fn inv(&self) -> bool {
        self.pos <= self.tokens@.len()
    }

    /// Every call that succeeds reads at least one token and keeps the list.
    pub closed spec fn advanced(&self, before: &Self) -> bool {
        self.tokens == before.tokens && self.pos > before.pos && self.inv()
    }

    /// Every call keeps the list of tokens.
    pub closed spec fn same_tokens(&self, before: &Self) -> bool {
        self.tokens == before.tokens && self.inv() && self.pos >= before.pos
    }

    pub fn new(tokens: Vec<(Token, TokenPosition)>) -> (r: Self)
        ensures
            r.inv(),
    {
        ConcreteParser { tokens, pos: 0 }
    }

    fn peek(&self) -> (r: Option<&Token>)
        requires
            self.inv(),
        ensures
            r is Some <==> self.pos < self.tokens@.len(),
            r matches Some(t) ==> *t == self.tokens@[self.pos as int].0,
    {
        if self.pos < self.tokens.len() {
            Some(&self.tokens[self.pos].0)
        } else {
            None
        }
    }

    fn unexpected_error(&self) -> (r: ParserError)
        requires
            self.inv(),
    {
        if self.pos < self.tokens.len() {
            let (tok, pos) = &self.tokens[self.pos];
            ParserError::UnexpectedToken { pos: *pos, expected: None, found: tok.duplicate() }
        } else {
            ParserError::UnexpectedEOF
        }
    }

    /// Reads the token `tok`, or fails.
    fn match_next(&mut self, tok: Token) -> (r: Result<(), ParserError>)
        requires
            old(self).inv(),
        ensures
            r is Ok ==> final(self).advanced(old(self)),
            r is Err ==> final(self).same_tokens(old(self)),
    {
        if self.pos >= self.tokens.len() {
            return Err(ParserError::UnexpectedEOF);
        }
        let (found, pos) = &self.tokens[self.pos];
        if !found.same(&tok) {
            return Err(ParserError::UnexpectedToken { pos: *pos, expected: Some(tok), found: found.duplicate() });
        }
        self.pos = self.pos + 1;
        Ok(())
    }

    fn at(&self, tok: Token) -> (r: bool)
        requires
            self.inv(),
    {
        match self.peek() {
            Some(t) => t.same(&tok),
            None => false,
        }
    }

    /// Parses a whole program: statements up to the end of the tokens.
    pub fn parse(self) -> (r: Result<Statements, ParserError>)
        requires
            self.inv(),
    {
        let mut p = self;
        p.parse_all()
    }

    fn parse_all(&mut self) -> (r: Result<Statements, ParserError>)
        requires
            old(self).inv(),
    {
        let stms = self.parse_statements()?;
        if self.pos < self.tokens.len() {
            Err(self.unexpected_error())
        } else {
            Ok(stms)
        }
    }

    fn parse_statements(&mut self) -> (r: Result<Statements, ParserError>)
        requires
            old(self).inv(),
        ensures
            r is Ok ==> final(self).advanced(old(self)),
            r is Err ==> final(self).same_tokens(old(self)),
        decreases old(self).remaining(), 8nat,
    {
        let s = self.parse_statement()?;
        let mut stms = Statements::Singleton(Box::new(s));
        let ghost start = *old(self);
        loop
            invariant
                self.advanced(&start),
                start == *old(self),
            decreases self.remaining(),
        {
            if self.pos >= self.tokens.len() || self.at(Token::CurlyClose) {
                break;
            }
            let s = self.parse_statement()?;
            stms = Statements::Composition(Box::new(stms), Box::new(s));
        }
        Ok(stms)
    }

    fn parse_statement(&mut self) -> (r: Result<Statement, ParserError>)
        requires
            old(self).inv(),
        ensures
            r is Ok ==> final(self).advanced(old(self)),
            r is Err ==> final(self).same_tokens(old(self)),
        decreases old(self).remaining(), 7nat,
    {
        if self.pos >= self.tokens.len() {
            return Err(ParserError::UnexpectedEOF);
        }
        let ghost start = *old(self);
        if self.at(Token::Skip) {
            self.match_next(Token::Skip)?;
            self.match_next(Token::Semicolon)?;
            Ok(Statement::Skip)
        } else if matches!(self.tokens[self.pos].0, Token::Id(_)) {
            let stm = self.parse_assign_statement()?;
            self.match_next(Token::Semicolon)?;
            Ok(Statement::AssignStm(Box::new(stm)))
        } else if self.at(Token::If) {
            self.match_next(Token::If)?;
            let b = self.parse_bexpr()?;
            self.match_next(Token::Then)?;
            let s1 = self.parse_statement()?;
            self.match_next(Token::Else)?;
            let s2 = self.parse_statement()?;
            Ok(Statement::IfThenElse(Box::new(b), Box::new(s1), Box::new(s2)))
        } else if self.at(Token::While) {
            self.match_next(Token::While)?;
            let b = self.parse_bexpr()?;
            self.match_next(Token::Do)?;
            let s = self.parse_statement()?;
            Ok(Statement::While(Box::new(b), Box::new(s)))
        } else if self.at(Token::Repeat) {
            self.match_next(Token::Repeat)?;
            let s = self.parse_statement()?;
            self.match_next(Token::Until)?;
            let b = self.parse_bexpr()?;
            self.match_next(Token::Semicolon)?;
            Ok(Statement::RepeatUntil(Box::new(s), Box::new(b)))
        } else if self.at(Token::For) {
            self.match_next(Token::For)?;
            self.match_next(Token::BracketOpen)?;
            let x = self.parse_id()?;
            self.match_next(Token::Assign)?;
            let a = self.parse_aexpr()?;
            self.match_next(Token::Semicolon)?;
            let b = self.parse_bexpr()?;
            self.match_next(Token::Semicolon)?;
            let upd = self.parse_assign_statement()?;
            self.match_next(Token::BracketClose)?;
            let s = self.parse_statement()?;
            Ok(Statement::ForLoop(x, Box::new(a), Box::new(b), Box::new(upd), Box::new(s)))
        } else if self.at(Token::CurlyOpen) {
            self.match_next(Token::CurlyOpen)?;
            let stms = self.parse_statements()?;
            self.match_next(Token::CurlyClose)?;
            Ok(Statement::Block(Box::new(stms)))
        } else {
            Err(self.unexpected_error())
        }
    }

    fn parse_assign_statement(&mut self) -> (r: Result<AssignStatements, ParserError>)
        requires
            old(self).inv(),
        ensures
            r is Ok ==> final(self).advanced(old(self)),
            r is Err ==> final(self).same_tokens(old(self)),
        decreases old(self).remaining(), 6nat,
    {
        let x = self.parse_id()?;
        if self.at(Token::Assign) {
            self.match_next(Token::Assign)?;
            let a = self.parse_aexpr()?;
            Ok(AssignStatements::Assign(x, Box::new(a)))
        } else if self.at(Token::AddAssign) {
            self.match_next(Token::AddAssign)?;
            let a = self.parse_aexpr()?;
            Ok(AssignStatements::AddAssign(x, Box::new(a)))
        } else if self.at(Token::SubAssign) {
            self.match_next(Token::SubAssign)?;
            let a = self.parse_aexpr()?;
            Ok(AssignStatements::SubAssign(x, Box::new(a)))
        } else if self.at(Token::MulAssign) {
            self.match_next(Token::MulAssign)?;
            let a = self.parse_aexpr()?;
            Ok(AssignStatements::MulAssign(x, Box::new(a)))
        } else {
            Err(self.unexpected_error())
        }
    }

    fn parse_id(&mut self) -> (r: Result<String, ParserError>)
        requires
            old(self).inv(),
        ensures
            r is Ok ==> final(self).advanced(old(self)),
            r is Err ==> final(self).same_tokens(old(self)),
    {
        if self.pos >= self.tokens.len() {
            return Err(ParserError::UnexpectedEOF);
        }
        match &self.tokens[self.pos].0 {
            Token::Id(x) => {
                let x = x.clone();
                self.pos = self.pos + 1;
                Ok(x)
            },
            _ => Err(self.unexpected_error()),
        }
    }

    fn parse_aexpr(&mut self) -> (r: Result<Aexpr, ParserError>)
        requires
            old(self).inv(),
        ensures
            r is Ok ==> final(self).advanced(old(self)),
            r is Err ==> final(self).same_tokens(old(self)),
        decreases old(self).remaining(), 3nat,
    {
        let ghost start = *old(self);
        if self.at(Token::Minus) {
            self.match_next(Token::Minus)?;
            let f = self.parse_factor()?;
            return Ok(Aexpr::Opposite(Box::new(f)));
        }
        let t = self.parse_term()?;
        let mut a = Aexpr::Term(Box::new(t));
        loop
            invariant
                self.advanced(&start),
                start == *old(self),
            decreases self.remaining(),
        {
            if self.at(Token::Plus) {
                self.match_next(Token::Plus)?;
                let t = self.parse_term()?;
                a = Aexpr::Add(Box::new(a), Box::new(t));
            } else if self.at(Token::Minus) {
                self.match_next(Token::Minus)?;
                let t = self.parse_term()?;
                a = Aexpr::Sub(Box::new(a), Box::new(t));
            } else {
                break;
            }
        }
        Ok(a)
    }

    fn parse_term(&mut self) -> (r: Result<Term, ParserError>)
        requires
            old(self).inv(),
        ensures
            r is Ok ==> final(self).advanced(old(self)),
            r is Err ==> final(self).same_tokens(old(self)),
        decreases old(self).remaining(), 2nat,
    {
        let ghost start = *old(self);
        let f = self.parse_factor()?;
        let mut t = Term::Factor(Box::new(f));
        loop
            invariant
                self.advanced(&start),
                start == *old(self),
            decreases self.remaining(),
        {
            if self.at(Token::Mul) {
                self.match_next(Token::Mul)?;
                let f = self.parse_factor()?;
                t = Term::Mul(Box::new(t), Box::new(f));
            } else if self.at(Token::Div) {
                self.match_next(Token::Div)?;
                let f = self.parse_factor()?;
                t = Term::Div(Box::new(t), Box::new(f));
            } else {
                break;
            }
        }
        Ok(t)
    }

    fn parse_factor(&mut self) -> (r: Result<Factor, ParserError>)
        requires
            old(self).inv(),
        ensures
            r is Ok ==> final(self).advanced(old(self)),
            r is Err ==> final(self).same_tokens(old(self)),
        decreases old(self).remaining(), 1nat,
    {
        if self.pos >= self.tokens.len() {
            return Err(ParserError::UnexpectedEOF);
        }
        let ghost start = *old(self);
        match &self.tokens[self.pos].0 {
            Token::Lit(n) => {
                let n = *n;
                self.pos = self.pos + 1;
                Ok(Factor::Lit(n))
            },
            Token::Id(x) => {
                let x = x.clone();
                self.pos = self.pos + 1;
                if self.at(Token::Inc) {
                    self.match_next(Token::Inc)?;
                    Ok(Factor::PostInc(x))
                } else if self.at(Token::Dec) {
                    self.match_next(Token::Dec)?;
                    Ok(Factor::PostDec(x))
                } else {
                    Ok(Factor::Var(x))
                }
            },
            Token::BracketOpen => {
                self.pos = self.pos + 1;
                let a = self.parse_aexpr()?;
                self.match_next(Token::BracketClose)?;
                Ok(Factor::Aexpr(Box::new(a)))
            },
            Token::Inc => {
                self.pos = self.pos + 1;
                let x = self.parse_id()?;
                Ok(Factor::PreInc(x))
            },
            Token::Dec => {
                self.pos = self.pos + 1;
                let x = self.parse_id()?;
                Ok(Factor::PreDec(x))
            },
            _ => Err(self.unexpected_error()),
        }
    }

    fn parse_bexpr(&mut self) -> (r: Result<Bexpr, ParserError>)
        requires
            old(self).inv(),
        ensures
            r is Ok ==> final(self).advanced(old(self)),
            r is Err ==> final(self).same_tokens(old(self)),
        decreases old(self).remaining(), 5nat,
    {
        let ghost start = *old(self);
        let ba = self.parse_bexpr_atom()?;
        let mut b = Bexpr::Atomic(Box::new(ba));
        loop
            invariant
                self.advanced(&start),
                start == *old(self),
            decreases self.remaining(),
        {
            if self.at(Token::And) {
                self.match_next(Token::And)?;
                let ba = self.parse_bexpr_atom()?;
                b = Bexpr::And(Box::new(b), Box::new(ba));
            } else if self.at(Token::Or) {
                self.match_next(Token::Or)?;
                let ba = self.parse_bexpr_atom()?;
                b = Bexpr::Or(Box::new(b), Box::new(ba));
            } else {
                break;
            }
        }
        Ok(b)
    }

    fn parse_bexpr_atom(&mut self) -> (r: Result<BexprAtomic, ParserError>)
        requires
            old(self).inv(),
        ensures
            r is Ok ==> final(self).advanced(old(self)),
            r is Err ==> final(self).same_tokens(old(self)),
        decreases old(self).remaining(), 4nat,
    {
        if self.pos >= self.tokens.len() {
            return Err(ParserError::UnexpectedEOF);
        }
        let ghost start = *old(self);
        if self.at(Token::True) {
            self.match_next(Token::True)?;
            return Ok(BexprAtomic::True);
        }
        if self.at(Token::False) {
            self.match_next(Token::False)?;
            return Ok(BexprAtomic::False);
        }
        if self.at(Token::Not) {
            self.match_next(Token::Not)?;
            let b = self.parse_bexpr_atom()?;
            return Ok(BexprAtomic::Not(Box::new(b)));
        }
        if self.at(Token::BracketOpen) {
            self.match_next(Token::BracketOpen)?;
            let b = self.parse_bexpr()?;
            self.match_next(Token::BracketClose)?;
            return Ok(BexprAtomic::Bexpr(Box::new(b)));
        }
        let a1 = self.parse_aexpr()?;
        let op = match self.peek() {
            Some(t) => t.duplicate(),
            None => return Err(ParserError::UnexpectedEOF),
        };
        match op {
            Token::Eq | Token::Neq | Token::Lte | Token::Lt | Token::Gte | Token::Gt => {
                self.pos = self.pos + 1;
                let a2 = self.parse_aexpr()?;
                let (x, y) = (Box::new(a1), Box::new(a2));
                Ok(match op {
                    Token::Eq => BexprAtomic::Equal(x, y),
                    Token::Neq => BexprAtomic::NotEqual(x, y),
                    Token::Lte => BexprAtomic::LessEq(x, y),
                    Token::Lt => BexprAtomic::Less(x, y),
                    Token::Gte => BexprAtomic::GreaterEq(x, y),
                    _ => BexprAtomic::Greater(x, y),
                })
            },
            _ => Err(self.unexpected_error()),
        }
    }
}

} // verus!
