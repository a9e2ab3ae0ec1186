use vstd::prelude::*;
use crate::ast::{DataType, Expr, Func, Identifier, Opcode, Program, Statement, Struct, Term,
    Field, local_bindings_ok};
use crate::error::{CompileError, ErrorKind};

verus! {

/// One token of the source text, carrying the character span where it
/// matters for diagnostics.
#[derive(Debug, Clone, PartialEq)]
pub enum Token {
    Ident(String, usize, usize),
    Num(i64, usize, usize),
    KwFn,
    KwLet,
    KwReturn,
    KwIf,
    KwElse,
    KwStruct,
    KwNew,
    KwInt,
    LPar,
    RPar,
    LBrace,
    RBrace,
    Comma,
    Colon,
    Semi,
    Dot,
    Arrow,
    Assign,
    EqEq,
    Geq,
    Plus,
    Minus,
    Star,
    Slash,
}

fn is_alpha(c: char) -> (r: bool)
    ensures
        r == ((97 <= c as u32 <= 122) || (65 <= c as u32 <= 90)),
{
    let u = c as u32;
    (97 <= u && u <= 122) || (65 <= u && u <= 90)
}

fn is_digit(c: char) -> (r: bool)
    ensures
        r == (48 <= c as u32 <= 57),
{
    let u = c as u32;
    48 <= u && u <= 57
}

fn is_space(c: char) -> (r: bool)
    ensures
        r == (c as u32 == 32 || c as u32 == 9 || c as u32 == 10 || c as u32 == 13),
{
    let u = c as u32;
    u == 32 || u == 9 || u == 10 || u == 13
}

fn keyword_token(word: &String) -> (r: Option<Token>) {
    if *word == String::from_str("fn") {
        Some(Token::KwFn)
    } else if *word == String::from_str("let") {
        Some(Token::KwLet)
    } else if *word == String::from_str("return") {
        Some(Token::KwReturn)
    } else if *word == String::from_str("if") {
        Some(Token::KwIf)
    } else if *word == String::from_str("else") {
        Some(Token::KwElse)
    } else if *word == String::from_str("struct") {
        Some(Token::KwStruct)
    } else if *word == String::from_str("new") {
        Some(Token::KwNew)
    } else if *word == String::from_str("int") {
        Some(Token::KwInt)
    } else {
        None
    }
}

/// Cut the source text into tokens.  Identifiers start with a letter and
/// continue with letters and digits; integer literals carry at most
/// eighteen digits; the rest of the alphabet is punctuation.
pub fn tokenize(input: &str) -> (r: Result<Vec<Token>, CompileError>)
    ensures
        r matches Err(e) ==> e.kind matches ErrorKind::SyntaxError(_),
{
    let n = input.unicode_len();
    let mut toks: Vec<Token> = Vec::new();
    let mut i: usize = 0;
    while i < n
        invariant
            n == input@.len(),
            0 <= i <= n,
        decreases n - i,
    {
        let c = input.get_char(i);
        if is_space(c) {
            i = i + 1;
        } else if is_alpha(c) {
            let start = i;
            let mut j = i + 1;
            while j < n
                invariant
                    n == input@.len(),
                    start < j <= n,
                decreases n - j,
            {
                let d = input.get_char(j);
                if is_alpha(d) || is_digit(d) {
                    j = j + 1;
                } else {
                    break ;
                }
            }
            let word = input.substring_char(start, j).to_owned();
            match keyword_token(&word) {
                Some(t) => {
                    toks.push(t);
                },
                None => {
                    toks.push(Token::Ident(word, start, j));
                },
            }
            i = j;
        } else if is_digit(c) {
            let start = i;
            let mut j = i;
            let mut value: i64 = 0;
            while j < n
                invariant
                    n == input@.len(),
                    start <= j <= n,
                    0 <= value < 1000000000000000000i64,
                decreases n - j,
            {
                let d = input.get_char(j);
                if is_digit(d) {
                    if value >= 100000000000000000i64 {
                        return Err(CompileError::new(ErrorKind::SyntaxError(j)));
                    }
                    value = value * 10 + ((d as u32) - 48) as i64;
                    j = j + 1;
                } else {
                    break ;
                }
            }
            toks.push(Token::Num(value, start, j));
            i = if j > i {
                j
            } else {
                i + 1
            };
        } else {
            let u = c as u32;
            if u == 40 {
                toks.push(Token::LPar);
                i = i + 1;
            } else if u == 41 {
                toks.push(Token::RPar);
                i = i + 1;
            } else if u == 123 {
                toks.push(Token::LBrace);
                i = i + 1;
            } else if u == 125 {
                toks.push(Token::RBrace);
                i = i + 1;
            } else if u == 44 {
                toks.push(Token::Comma);
                i = i + 1;
            } else if u == 58 {
                toks.push(Token::Colon);
                i = i + 1;
            } else if u == 59 {
                toks.push(Token::Semi);
                i = i + 1;
            } else if u == 46 {
                toks.push(Token::Dot);
                i = i + 1;
            } else if u == 43 {
                toks.push(Token::Plus);
                i = i + 1;
            } else if u == 42 {
                toks.push(Token::Star);
                i = i + 1;
            } else if u == 47 {
                toks.push(Token::Slash);
                i = i + 1;
            } else if u == 45 {
                // `-` alone subtracts; `->` announces a return type.
                if i + 1 < n && (input.get_char(i + 1) as u32) == 62 {
                    toks.push(Token::Arrow);
                    i = i + 2;
                } else {
                    toks.push(Token::Minus);
                    i = i + 1;
                }
            } else if u == 61 {
                // `=` alone assigns; `==` compares.
                if i + 1 < n && (input.get_char(i + 1) as u32) == 61 {
                    toks.push(Token::EqEq);
                    i = i + 2;
                } else {
                    toks.push(Token::Assign);
                    i = i + 1;
                }
            } else if u == 62 {
                // only `>=` is in the operator alphabet.
                if i + 1 < n && (input.get_char(i + 1) as u32) == 61 {
                    toks.push(Token::Geq);
                    i = i + 2;
                } else {
                    return Err(CompileError::new(ErrorKind::SyntaxError(i)));
                }
            } else {
                return Err(CompileError::new(ErrorKind::SyntaxError(i)));
            }
        }
    }
    Ok(toks)
}


/// Whether two payload-free tokens are the same; identifier and number
/// tokens never compare equal here (the parsers read their payloads
/// directly).
fn tok_eq(a: &Token, b: &Token) -> bool {
    match (a, b) {
        (Token::KwFn, Token::KwFn) => true,
        (Token::KwLet, Token::KwLet) => true,
        (Token::KwReturn, Token::KwReturn) => true,
        (Token::KwIf, Token::KwIf) => true,
        (Token::KwElse, Token::KwElse) => true,
        (Token::KwStruct, Token::KwStruct) => true,
        (Token::KwNew, Token::KwNew) => true,
        (Token::KwInt, Token::KwInt) => true,
        (Token::LPar, Token::LPar) => true,
        (Token::RPar, Token::RPar) => true,
        (Token::LBrace, Token::LBrace) => true,
        (Token::RBrace, Token::RBrace) => true,
        (Token::Comma, Token::Comma) => true,
        (Token::Colon, Token::Colon) => true,
        (Token::Semi, Token::Semi) => true,
        (Token::Dot, Token::Dot) => true,
        (Token::Arrow, Token::Arrow) => true,
        (Token::Assign, Token::Assign) => true,
        (Token::EqEq, Token::EqEq) => true,
        (Token::Geq, Token::Geq) => true,
        (Token::Plus, Token::Plus) => true,
        (Token::Minus, Token::Minus) => true,
        (Token::Star, Token::Star) => true,
        (Token::Slash, Token::Slash) => true,
        _ => false,
    }
}

/// The token cursor the nonterminal parsers share.
pub struct Parser {
    toks: Vec<Token>,
    pos: usize,
}

impl Parser {
    pub closed spec fn wf(&self) -> bool {
        self.pos <= self.toks@.len()
    }

    pub closed spec fn spec_pos(&self) -> int {
        self.pos as int
    }

    pub closed spec fn spec_toks(&self) -> Seq<Token> {
        self.toks@
    }

    fn new(toks: Vec<Token>) -> (r: Parser)
        ensures
            r.wf(),
    {
        Parser { toks, pos: 0 }
    }

    fn eof(&self) -> (r: bool)
        requires
            self.wf(),
        ensures
            r == (self.spec_pos() == self.spec_toks().len()),
    {
        self.pos == self.toks.len()
    }

    fn syntax_error(&self) -> (r: CompileError)
        ensures
            r.kind matches ErrorKind::SyntaxError(_),
    {
        CompileError::new(ErrorKind::SyntaxError(self.pos))
    }

    /// Consume one expected punctuation or keyword token.
    fn expect(&mut self, t: Token) -> (r: Result<(), CompileError>)
        requires
            old(self).wf(),
        ensures
            final(self).wf(),
            final(self).spec_toks() == old(self).spec_toks(),
            old(self).spec_pos() <= final(self).spec_pos(),
            r is Ok ==> final(self).spec_pos() == old(self).spec_pos() + 1,
            r is Err ==> final(self).spec_pos() == old(self).spec_pos(),
    {
        if self.pos < self.toks.len() {
            if tok_eq(&self.toks[self.pos], &t) {
                self.pos = self.pos + 1;
                return Ok(());
            }
        }
        Err(self.syntax_error())
    }

    /// Whether the next token equals the given one, without consuming.
    fn peek_is(&self, t: &Token) -> (r: bool)
        requires
            self.wf(),
    {
        if self.pos < self.toks.len() {
            tok_eq(&self.toks[self.pos], t)
        } else {
            false
        }
    }

    /// Whether the token after the next equals the given one.
    fn peek2_is(&self, t: &Token) -> (r: bool)
        requires
            self.wf(),
    {
        if self.pos < self.toks.len() && self.pos + 1 < self.toks.len() {
            tok_eq(&self.toks[self.pos + 1], t)
        } else {
            false
        }
    }

    /// Consume one identifier token.
    fn parse_identifier(&mut self) -> (r: Result<Identifier, CompileError>)
        requires
            old(self).wf(),
        ensures
            final(self).wf(),
            final(self).spec_toks() == old(self).spec_toks(),
            old(self).spec_pos() <= final(self).spec_pos(),
            r is Ok ==> final(self).spec_pos() == old(self).spec_pos() + 1,
            r matches Ok(id) ==> id.ty is None && id.field is None,
            r is Err ==> final(self).spec_pos() == old(self).spec_pos(),
    {
        if self.pos < self.toks.len() {
            let picked: Option<(String, usize, usize)> = match &self.toks[self.pos] {
                Token::Ident(name, a, b) => Some((name.clone(), *a, *b)),
                _ => None,
            };
            if let Some((name, a, b)) = picked {
                self.pos = self.pos + 1;
                return Ok(Identifier::new(name, a, b, None));
            }
        }
        Err(self.syntax_error())
    }

    /// Consume `base(.field)*`: an identifier with its field-access chain.
    fn parse_ident_chain(&mut self) -> (r: Result<Identifier, CompileError>)
        requires
            old(self).wf(),
        ensures
            final(self).wf(),
            final(self).spec_toks() == old(self).spec_toks(),
            old(self).spec_pos() <= final(self).spec_pos(),
            r is Ok ==> final(self).spec_pos() > old(self).spec_pos(),
    {
        let base = match self.parse_identifier() {
            Ok(x) => x,
            Err(e) => {
                return Err(e);
            },
        };
        let mut names: Vec<Identifier> = Vec::new();
        while self.peek_is(&Token::Dot)
            invariant
                self.wf(),
                self.spec_toks() == old(self).spec_toks(),
                old(self).spec_pos() < self.spec_pos(),
            decreases self.spec_toks().len() - self.spec_pos(),
        {
            match self.expect(Token::Dot) {
                Ok(()) => {},
                Err(e) => {
                    return Err(e);
                },
            }
            let f = match self.parse_identifier() {
                Ok(x) => x,
                Err(e) => {
                    return Err(e);
                },
            };
            names.push(f);
        }
        // Link the chain from the innermost field outwards.
        let mut chain: Option<Identifier> = None;
        let mut k = names.len();
        while k > 0
            invariant
                k <= names@.len(),
            decreases k,
        {
            k = k - 1;
            let f = match names.pop() {
                Some(x) => x,
                None => {
                    proof {
                        assert(false);
                    }
                    return Err(self.syntax_error());
                },
            };
            chain = Some(f.update_field_access(chain));
        }
        Ok(base.update_field_access(chain))
    }

    /// Consume a type: `int` or a struct name.
    fn parse_type(&mut self) -> (r: Result<DataType, CompileError>)
        requires
            old(self).wf(),
        ensures
            final(self).wf(),
            final(self).spec_toks() == old(self).spec_toks(),
            old(self).spec_pos() <= final(self).spec_pos(),
            r is Ok ==> final(self).spec_pos() > old(self).spec_pos(),
    {
        if self.peek_is(&Token::KwInt) {
            match self.expect(Token::KwInt) {
                Ok(()) => Ok(DataType::Int),
                Err(e) => Err(e),
            }
        } else {
            match self.parse_identifier() {
                Ok(id) => Ok(DataType::Struct(Box::new(id))),
                Err(e) => Err(e),
            }
        }
    }

    /// Consume an atomic operand: a literal, a name with its chain, or a
    /// parenthesized term.
    fn parse_term(&mut self) -> (r: Result<Term, CompileError>)
        requires
            old(self).wf(),
        ensures
            final(self).wf(),
            final(self).spec_toks() == old(self).spec_toks(),
            old(self).spec_pos() <= final(self).spec_pos(),
            r is Ok ==> final(self).spec_pos() > old(self).spec_pos(),
        decreases old(self).spec_toks().len() - old(self).spec_pos(),
    {
        if self.pos < self.toks.len() {
            let num: Option<i64> = match &self.toks[self.pos] {
                Token::Num(v, _, _) => Some(*v),
                _ => None,
            };
            if let Some(v) = num {
                self.pos = self.pos + 1;
                return Ok(Term::Num(v));
            }
        }
        if self.peek_is(&Token::LPar) {
            match self.expect(Token::LPar) {
                Ok(()) => {},
                Err(e) => {
                    return Err(e);
                },
            }
            let inner = match self.parse_term() {
                Ok(t) => t,
                Err(e) => {
                    return Err(e);
                },
            };
            match self.expect(Token::RPar) {
                Ok(()) => {},
                Err(e) => {
                    return Err(e);
                },
            }
            return Ok(inner);
        }
        match self.parse_ident_chain() {
            Ok(id) => Ok(Term::Id(id)),
            Err(e) => Err(e),
        }
    }

    /// The binary operator a token denotes, if any.
    fn peek_opcode(&self) -> (r: Option<Opcode>)
        requires
            self.wf(),
        ensures
            r is Some ==> self.spec_pos() < self.spec_toks().len(),
    {
        if self.pos < self.toks.len() {
            match &self.toks[self.pos] {
                Token::Plus => Some(Opcode::Add),
                Token::Minus => Some(Opcode::Sub),
                Token::Star => Some(Opcode::Mul),
                Token::Slash => Some(Opcode::Div),
                Token::EqEq => Some(Opcode::Cmp),
                Token::Geq => Some(Opcode::Geq),
                _ => None,
            }
        } else {
            None
        }
    }

    /// Consume an expression: a fresh record value, a call, a binary
    /// operation on two terms, or a single term.
    fn parse_expr(&mut self) -> (r: Result<Expr, CompileError>)
        requires
            old(self).wf(),
        ensures
            final(self).wf(),
            final(self).spec_toks() == old(self).spec_toks(),
            old(self).spec_pos() <= final(self).spec_pos(),
            r is Ok ==> final(self).spec_pos() > old(self).spec_pos(),
        decreases old(self).spec_toks().len() - old(self).spec_pos(),
    {
        if self.peek_is(&Token::KwNew) {
            match self.expect(Token::KwNew) {
                Ok(()) => {},
                Err(e) => {
                    return Err(e);
                },
            }
            let id = match self.parse_identifier() {
                Ok(x) => x,
                Err(e) => {
                    return Err(e);
                },
            };
            return Ok(Expr::Struct(id));
        }
        let is_call = if self.pos < self.toks.len() {
            let id_here = match &self.toks[self.pos] {
                Token::Ident(_, _, _) => true,
                _ => false,
            };
            id_here && self.peek2_is(&Token::LPar)
        } else {
            false
        };
        if is_call {
            let callee = match self.parse_identifier() {
                Ok(x) => x,
                Err(e) => {
                    return Err(e);
                },
            };
            match self.expect(Token::LPar) {
                Ok(()) => {},
                Err(e) => {
                    return Err(e);
                },
            }
            let mut args: Vec<Expr> = Vec::new();
            if !self.peek_is(&Token::RPar) {
                loop
                    invariant
                        self.wf(),
                        self.spec_toks() == old(self).spec_toks(),
                        old(self).spec_pos() < self.spec_pos(),
                    decreases self.spec_toks().len() - self.spec_pos(),
                {
                    let a = match self.parse_expr() {
                        Ok(x) => x,
                        Err(e) => {
                            return Err(e);
                        },
                    };
                    args.push(a);
                    if self.peek_is(&Token::Comma) {
                        match self.expect(Token::Comma) {
                            Ok(()) => {},
                            Err(e) => {
                                return Err(e);
                            },
                        }
                    } else {
                        break ;
                    }
                }
            }
            match self.expect(Token::RPar) {
                Ok(()) => {},
                Err(e) => {
                    return Err(e);
                },
            }
            return Ok(Expr::Call(callee, args));
        }
        let t1 = match self.parse_term() {
            Ok(x) => x,
            Err(e) => {
                return Err(e);
            },
        };
        match self.peek_opcode() {
            Some(op) => {
                self.pos = self.pos + 1;
                let t2 = match self.parse_term() {
                    Ok(x) => x,
                    Err(e) => {
                        return Err(e);
                    },
                };
                Ok(Expr::Binary(op, Box::new(t1), Box::new(t2)))
            },
            None => Ok(Expr::Term(Box::new(t1))),
        }
    }

    /// Consume one statement.
    fn parse_statement(&mut self) -> (r: Result<Statement, CompileError>)
        requires
            old(self).wf(),
        ensures
            final(self).wf(),
            final(self).spec_toks() == old(self).spec_toks(),
            old(self).spec_pos() <= final(self).spec_pos(),
            r is Ok ==> final(self).spec_pos() > old(self).spec_pos(),
        decreases old(self).spec_toks().len() - old(self).spec_pos(), 1int,
    {
        if self.peek_is(&Token::KwReturn) {
            match self.expect(Token::KwReturn) {
                Ok(()) => {},
                Err(e) => {
                    return Err(e);
                },
            }
            if self.peek_is(&Token::Semi) {
                match self.expect(Token::Semi) {
                    Ok(()) => {},
                    Err(e) => {
                        return Err(e);
                    },
                }
                return Ok(Statement::RetVoid);
            }
            let e = match self.parse_expr() {
                Ok(x) => x,
                Err(e) => {
                    return Err(e);
                },
            };
            match self.expect(Token::Semi) {
                Ok(()) => {},
                Err(e) => {
                    return Err(e);
                },
            }
            return Ok(Statement::Ret(e));
        }
        if self.peek_is(&Token::KwLet) {
            match self.expect(Token::KwLet) {
                Ok(()) => {},
                Err(e) => {
                    return Err(e);
                },
            }
            let mut id = match self.parse_identifier() {
                Ok(x) => x,
                Err(e) => {
                    return Err(e);
                },
            };
            if self.peek_is(&Token::Colon) {
                match self.expect(Token::Colon) {
                    Ok(()) => {},
                    Err(e) => {
                        return Err(e);
                    },
                }
                let ty = match self.parse_type() {
                    Ok(x) => x,
                    Err(e) => {
                        return Err(e);
                    },
                };
                id = id.update_ty(ty);
            }
            match self.expect(Token::Assign) {
                Ok(()) => {},
                Err(e) => {
                    return Err(e);
                },
            }
            let e = match self.parse_expr() {
                Ok(x) => x,
                Err(e) => {
                    return Err(e);
                },
            };
            // `let o = new t;` gives `o` the record type `t`, so that
            // later field accesses on `o` resolve.
            let needs_ty = match &id.ty {
                None => true,
                Some(_) => false,
            };
            if needs_ty {
                if let Expr::Struct(t) = &e {
                    id = id.update_ty(DataType::Struct(Box::new(t.clone())));
                }
            }
            match self.expect(Token::Semi) {
                Ok(()) => {},
                Err(e) => {
                    return Err(e);
                },
            }
            return Ok(Statement::Definition(id, e));
        }
        if self.peek_is(&Token::KwIf) {
            match self.expect(Token::KwIf) {
                Ok(()) => {},
                Err(e) => {
                    return Err(e);
                },
            }
            let cond = match self.parse_expr() {
                Ok(x) => x,
                Err(e) => {
                    return Err(e);
                },
            };
            let then_body = match self.parse_block() {
                Ok(x) => x,
                Err(e) => {
                    return Err(e);
                },
            };
            let else_body: Option<Vec<Statement>> = if self.peek_is(&Token::KwElse) {
                match self.expect(Token::KwElse) {
                    Ok(()) => {},
                    Err(e) => {
                        return Err(e);
                    },
                }
                match self.parse_block() {
                    Ok(x) => Some(x),
                    Err(e) => {
                        return Err(e);
                    },
                }
            } else {
                None
            };
            return Ok(Statement::Conditional(cond, then_body, else_body));
        }
        let id = match self.parse_ident_chain() {
            Ok(x) => x,
            Err(e) => {
                return Err(e);
            },
        };
        match self.expect(Token::Assign) {
            Ok(()) => {},
            Err(e) => {
                return Err(e);
            },
        }
        let e = match self.parse_expr() {
            Ok(x) => x,
            Err(e) => {
                return Err(e);
            },
        };
        match self.expect(Token::Semi) {
            Ok(()) => {},
            Err(e) => {
                return Err(e);
            },
        }
        Ok(Statement::Assign(id, e))
    }

    /// Consume `{ statement* }`.
    fn parse_block(&mut self) -> (r: Result<Vec<Statement>, CompileError>)
        requires
            old(self).wf(),
        ensures
            final(self).wf(),
            final(self).spec_toks() == old(self).spec_toks(),
            old(self).spec_pos() <= final(self).spec_pos(),
            r is Ok ==> final(self).spec_pos() > old(self).spec_pos(),
        decreases old(self).spec_toks().len() - old(self).spec_pos(), 0int,
    {
        match self.expect(Token::LBrace) {
            Ok(()) => {},
            Err(e) => {
                return Err(e);
            },
        }
        let mut stmts: Vec<Statement> = Vec::new();
        while !self.peek_is(&Token::RBrace)
            invariant
                self.wf(),
                self.spec_toks() == old(self).spec_toks(),
                old(self).spec_pos() < self.spec_pos(),
            decreases self.spec_toks().len() - self.spec_pos(),
        {
            let st = match self.parse_statement() {
                Ok(x) => x,
                Err(e) => {
                    return Err(e);
                },
            };
            stmts.push(st);
        }
        match self.expect(Token::RBrace) {
            Ok(()) => {},
            Err(e) => {
                return Err(e);
            },
        }
        Ok(stmts)
    }

    /// Consume a function definition; building the `Func` checks the
    /// binding discipline of its body.
    fn parse_funcdef(&mut self) -> (r: Result<Func, CompileError>)
        requires
            old(self).wf(),
        ensures
            final(self).wf(),
            final(self).spec_toks() == old(self).spec_toks(),
            old(self).spec_pos() <= final(self).spec_pos(),
            r is Ok ==> final(self).spec_pos() > old(self).spec_pos(),
            r matches Ok(f) ==> local_bindings_ok(f.statements@) && f.pars_typed(),
        decreases old(self).spec_toks().len() - old(self).spec_pos(), 1int,
    {
        match self.expect(Token::KwFn) {
            Ok(()) => {},
            Err(e) => {
                return Err(e);
            },
        }
        let name = match self.parse_identifier() {
            Ok(x) => x,
            Err(e) => {
                return Err(e);
            },
        };
        match self.expect(Token::LPar) {
            Ok(()) => {},
            Err(e) => {
                return Err(e);
            },
        }
        let mut pars: Vec<Identifier> = Vec::new();
        if !self.peek_is(&Token::RPar) {
            loop
                invariant
                    self.wf(),
                    self.spec_toks() == old(self).spec_toks(),
                    old(self).spec_pos() < self.spec_pos(),
                    forall|k: int| 0 <= k < pars@.len() ==> (#[trigger] pars@[k]).ty is Some,
                decreases self.spec_toks().len() - self.spec_pos(),
            {
                let ghost before = self.spec_pos();
                let p = match self.parse_identifier() {
                    Ok(x) => x,
                    Err(e) => {
                        return Err(e);
                    },
                };
                match self.expect(Token::Colon) {
                    Ok(()) => {},
                    Err(e) => {
                        return Err(e);
                    },
                }
                let ty = match self.parse_type() {
                    Ok(x) => x,
                    Err(e) => {
                        return Err(e);
                    },
                };
                pars.push(p.update_ty(ty));
                if self.peek_is(&Token::Comma) {
                    match self.expect(Token::Comma) {
                        Ok(()) => {},
                        Err(e) => {
                            return Err(e);
                        },
                    }
                } else {
                    break ;
                }
                proof {
                    assert(self.spec_pos() > before);
                }
            }
        }
        match self.expect(Token::RPar) {
            Ok(()) => {},
            Err(e) => {
                return Err(e);
            },
        }
        let ret_ty: Option<DataType> = if self.peek_is(&Token::Arrow) {
            match self.expect(Token::Arrow) {
                Ok(()) => {},
                Err(e) => {
                    return Err(e);
                },
            }
            match self.parse_type() {
                Ok(t) => Some(t),
                Err(e) => {
                    return Err(e);
                },
            }
        } else {
            None
        };
        let body = match self.parse_block() {
            Ok(x) => x,
            Err(e) => {
                return Err(e);
            },
        };
        Func::new(name, pars, body, ret_ty)
    }

    /// Consume a struct declaration.
    fn parse_structdef(&mut self) -> (r: Result<Struct, CompileError>)
        requires
            old(self).wf(),
        ensures
            final(self).wf(),
            final(self).spec_toks() == old(self).spec_toks(),
            old(self).spec_pos() <= final(self).spec_pos(),
            r is Ok ==> final(self).spec_pos() > old(self).spec_pos(),
    {
        match self.expect(Token::KwStruct) {
            Ok(()) => {},
            Err(e) => {
                return Err(e);
            },
        }
        let name = match self.parse_identifier() {
            Ok(x) => x,
            Err(e) => {
                return Err(e);
            },
        };
        match self.expect(Token::LBrace) {
            Ok(()) => {},
            Err(e) => {
                return Err(e);
            },
        }
        let mut fields: Vec<Field> = Vec::new();
        while !self.peek_is(&Token::RBrace)
            invariant
                self.wf(),
                self.spec_toks() == old(self).spec_toks(),
                old(self).spec_pos() < self.spec_pos(),
            decreases self.spec_toks().len() - self.spec_pos(),
        {
            let fname = match self.parse_identifier() {
                Ok(x) => x,
                Err(e) => {
                    return Err(e);
                },
            };
            match self.expect(Token::Colon) {
                Ok(()) => {},
                Err(e) => {
                    return Err(e);
                },
            }
            let fty = match self.parse_type() {
                Ok(x) => x,
                Err(e) => {
                    return Err(e);
                },
            };
            fields.push(Field::new(fname, fty));
            if self.peek_is(&Token::Comma) {
                match self.expect(Token::Comma) {
                    Ok(()) => {},
                    Err(e) => {
                        return Err(e);
                    },
                }
            }
        }
        match self.expect(Token::RBrace) {
            Ok(()) => {},
            Err(e) => {
                return Err(e);
            },
        }
        match Struct::new(name, fields) {
            Ok(s) => Ok(s),
            Err(e) => Err(e),
        }
    }

    /// Consume a whole program: function and struct declarations in any
    /// order, to the end of the input.
    fn parse_program(&mut self) -> (r: Result<Program, CompileError>)
        requires
            old(self).wf(),
        ensures
            final(self).wf(),
            r matches Ok(p) ==> (forall|k: int|
                0 <= k < p.functions@.len() ==> local_bindings_ok(
                    (#[trigger] p.functions@[k]).statements@,
                ) && p.functions@[k].pars_typed()),
    {
        let mut functions: Vec<Func> = Vec::new();
        let mut structs: Vec<Struct> = Vec::new();
        while !self.eof()
            invariant
                self.wf(),
                self.spec_toks() == old(self).spec_toks(),
                forall|k: int|
                    0 <= k < functions@.len() ==> local_bindings_ok(
                        (#[trigger] functions@[k]).statements@,
                    ) && functions@[k].pars_typed(),
            decreases self.spec_toks().len() - self.spec_pos(),
        {
            if self.peek_is(&Token::KwFn) {
                let f = match self.parse_funcdef() {
                    Ok(x) => x,
                    Err(e) => {
                        return Err(e);
                    },
                };
                functions.push(f);
            } else if self.peek_is(&Token::KwStruct) {
                let st = match self.parse_structdef() {
                    Ok(x) => x,
                    Err(e) => {
                        return Err(e);
                    },
                };
                structs.push(st);
            } else {
                return Err(self.syntax_error());
            }
        }
        Ok(Program { functions, structs })
    }
}


/// Parses one bare identifier.
pub struct IdParser;

impl IdParser {
    pub fn new() -> (r: Self) {
        IdParser
    }

    pub fn parse(&self, input: &str) -> (r: Result<Identifier, CompileError>) {
        let toks = match tokenize(input) {
            Ok(t) => t,
            Err(e) => {
                return Err(e);
            },
        };
        let mut parser = Parser::new(toks);
        let id = match parser.parse_identifier() {
            Ok(x) => x,
            Err(e) => {
                return Err(e);
            },
        };
        if !parser.eof() {
            return Err(parser.syntax_error());
        }
        Ok(id)
    }
}

/// Parses one term.
pub struct TermParser;

impl TermParser {
    pub fn new() -> (r: Self) {
        TermParser
    }

    pub fn parse(&self, input: &str) -> (r: Result<Term, CompileError>) {
        let toks = match tokenize(input) {
            Ok(t) => t,
            Err(e) => {
                return Err(e);
            },
        };
        let mut parser = Parser::new(toks);
        let t = match parser.parse_term() {
            Ok(x) => x,
            Err(e) => {
                return Err(e);
            },
        };
        if !parser.eof() {
            return Err(parser.syntax_error());
        }
        Ok(t)
    }
}

/// Parses one expression.
pub struct ExprParser;

impl ExprParser {
    pub fn new() -> (r: Self) {
        ExprParser
    }

    pub fn parse(&self, input: &str) -> (r: Result<Expr, CompileError>) {
        let toks = match tokenize(input) {
            Ok(t) => t,
            Err(e) => {
                return Err(e);
            },
        };
        let mut parser = Parser::new(toks);
        let e = match parser.parse_expr() {
            Ok(x) => x,
            Err(err) => {
                return Err(err);
            },
        };
        if !parser.eof() {
            return Err(parser.syntax_error());
        }
        Ok(e)
    }
}

/// Parses one statement; a trailing semicolon may be omitted at the end
/// of the input.
pub struct StatementParser;

impl StatementParser {
    pub fn new() -> (r: Self) {
        StatementParser
    }

    pub fn parse(&self, input: &str) -> (r: Result<Statement, CompileError>) {
        let toks = match tokenize(input) {
            Ok(t) => t,
            Err(e) => {
                return Err(e);
            },
        };
        let mut with_semi = toks;
        with_semi.push(Token::Semi);
        let mut parser = Parser::new(with_semi);
        let st = match parser.parse_statement() {
            Ok(x) => x,
            Err(e) => {
                return Err(e);
            },
        };
        if !parser.eof() {
            // The input carried its own semicolon: the appended one is
            // left over.
            match parser.expect(Token::Semi) {
                Ok(()) => {},
                Err(e) => {
                    return Err(e);
                },
            }
            if !parser.eof() {
                return Err(parser.syntax_error());
            }
        }
        Ok(st)
    }
}

/// Parses one function definition.  The body's binding discipline is
/// checked as the function is built.
pub struct FuncdefParser;

impl FuncdefParser {
    pub fn new() -> (r: Self) {
        FuncdefParser
    }

    pub fn parse(&self, input: &str) -> (r: Result<Func, CompileError>)
        ensures
            r matches Ok(f) ==> local_bindings_ok(f.statements@) && f.pars_typed(),
    {
        let toks = match tokenize(input) {
            Ok(t) => t,
            Err(e) => {
                return Err(e);
            },
        };
        let mut parser = Parser::new(toks);
        let f = match parser.parse_funcdef() {
            Ok(x) => x,
            Err(e) => {
                return Err(e);
            },
        };
        if !parser.eof() {
            return Err(parser.syntax_error());
        }
        Ok(f)
    }
}

/// Parses a whole program.  Every function of the result obeys the
/// binding discipline and declares a type for each parameter.
pub struct ProgramParser;

impl ProgramParser {
    pub fn new() -> (r: Self) {
        ProgramParser
    }

    pub fn parse(&self, input: &str) -> (r: Result<Program, CompileError>)
        ensures
            r matches Ok(p) ==> (forall|k: int|
                0 <= k < p.functions@.len() ==> local_bindings_ok(
                    (#[trigger] p.functions@[k]).statements@,
                ) && p.functions@[k].pars_typed()),
            r matches Ok(p) ==> crate::codegen::program_pars_typed(p),
    {
        let toks = match tokenize(input) {
            Ok(t) => t,
            Err(e) => {
                return Err(e);
            },
        };
        let mut parser = Parser::new(toks);
        parser.parse_program()
    }
}

} // verus!
