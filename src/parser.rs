use vstd::prelude::*;
use crate::ast::{
    idents_view, lemma_idents_view_push, lemma_stmts_view_push, stmts_view, ExprView, Expression, Ident, Infix, Literal, Program,
    Statement, StmtView,
};
use crate::error::CompileError;
use crate::lexer::{lemma_scan_advances, prepend_tokens, tokens_from, Lexer};
use crate::token::{precedence_of, Precedence, Token, TokenView};

verus! {

/// The token at `i`; every position past the end holds `Eof`.
pub open spec fn tok(t: Seq<TokenView>, i: int) -> TokenView {
    if 0 <= i < t.len() {
        t[i]
    } else {
        TokenView::Eof
    }
}

pub open spec fn infix_of(t: TokenView) -> Option<Infix> {
    match t {
        TokenView::Plus => Some(Infix::Plus),
        TokenView::Minus => Some(Infix::Minus),
        TokenView::Asterisk => Some(Infix::Asterisk),
        TokenView::Slash => Some(Infix::Slash),
        _ => None,
    }
}

/// A literal or an identifier at `i`.
pub open spec fn primary_at(t: Seq<TokenView>, i: int) -> Result<ExprView, CompileError> {
    match tok(t, i) {
        TokenView::Int(v) => Ok(ExprView::Literal(v)),
        TokenView::Ident(n) => Ok(ExprView::Ident(n)),
        _ => Err(CompileError::ParseFailure),
    }
}

// The parsing functions below take the position of the first token of a
// construct and give the construct with the position of its last token.

/// Precedence climbing: an expression starting at `i` whose operators all bind
/// more tightly than `prec`.
pub open spec fn expression_at(t: Seq<TokenView>, prec: Precedence, i: int) -> Result<(ExprView, int), CompileError>
    decreases t.len() - i, 1nat,
{
    match primary_at(t, i) {
        Err(e) => Err(e),
        Ok(left) => infix_chain(t, prec, left, i),
    }
}

/// Extends `left`, which ends at `i`, by the operators that follow it and bind
/// more tightly than `prec`; each right operand takes its operator's precedence
/// as its bound, so the chain groups to the left.
pub open spec fn infix_chain(t: Seq<TokenView>, prec: Precedence, left: ExprView, i: int) -> Result<(ExprView, int), CompileError>
    decreases t.len() - i, 0nat,
{
    let next = tok(t, i + 1);
    if prec.rank() < precedence_of(next).rank() {
        match infix_of(next) {
            None => Err(CompileError::ParseFailure),
            Some(op) => match expression_at(t, precedence_of(next), i + 2) {
                Err(e) => Err(e),
                Ok((right, j)) => if i < j < t.len() {
                    infix_chain(t, prec, ExprView::Infix(op, Box::new(left), Box::new(right)), j)
                } else {
                    Err(CompileError::ParseFailure)
                },
            },
        }
    } else {
        Ok((left, i))
    }
}

/// An expression, and the semicolon after it if there is one.
pub open spec fn expression_statement_at(t: Seq<TokenView>, i: int) -> Result<(StmtView, int), CompileError>
    decreases t.len() - i, 2nat,
{
    if !(0 <= i < t.len()) {
        Err(CompileError::ParseFailure)
    } else {
        match expression_at(t, Precedence::Lowest, i) {
            Err(e) => Err(e),
            Ok((e, j)) => if tok(t, j + 1) is Semicolon {
                Ok((StmtView::Expression(e), j + 1))
            } else {
                Ok((StmtView::Expression(e), j))
            },
        }
    }
}

pub open spec fn statement_at(t: Seq<TokenView>, i: int) -> Result<(StmtView, int), CompileError>
    decreases t.len() - i, 3nat,
{
    if !(0 <= i < t.len()) {
        Err(CompileError::ParseFailure)
    } else if tok(t, i) is Fn {
        function_at(t, i)
    } else {
        expression_statement_at(t, i)
    }
}

/// `fn name ( params ) { statements }`, starting at the keyword.
pub open spec fn function_at(t: Seq<TokenView>, i: int) -> Result<(StmtView, int), CompileError>
    decreases t.len() - i, 2nat,
{
    match tok(t, i + 1) {
        TokenView::Ident(name) => if tok(t, i + 2) is Lparen {
            match params_at(t, i + 3) {
                Err(e) => Err(e),
                Ok((params, j)) => if tok(t, j + 1) is Lbracket && i < j {
                    match block_at(t, j + 2) {
                        Err(e) => Err(e),
                        Ok((body, k)) => Ok((StmtView::Function { name, params, body }, k)),
                    }
                } else {
                    Err(CompileError::ParseFailure)
                },
            }
        } else {
            Err(CompileError::ParseFailure)
        },
        _ => Err(CompileError::ParseFailure),
    }
}

/// Parameter names up to the closing parenthesis, which ends the result; a
/// comma may follow each name.
pub open spec fn params_at(t: Seq<TokenView>, i: int) -> Result<(Seq<Seq<char>>, int), CompileError>
    decreases t.len() - i,
{
    match tok(t, i) {
        TokenView::Rparen => Ok((Seq::empty(), i)),
        TokenView::Ident(n) => {
            let j = if tok(t, i + 1) is Comma {
                i + 2
            } else {
                i + 1
            };
            match params_at(t, j) {
                Err(e) => Err(e),
                Ok((rest, k)) => Ok((seq![n] + rest, k)),
            }
        },
        _ => Err(CompileError::ParseFailure),
    }
}

/// Statements up to the closing brace, which ends the result.
pub open spec fn block_at(t: Seq<TokenView>, i: int) -> Result<(Seq<StmtView>, int), CompileError>
    decreases t.len() - i, 4nat,
{
    if !(0 <= i < t.len()) {
        Err(CompileError::ParseFailure)
    } else if tok(t, i) is Rbracket {
        Ok((Seq::empty(), i))
    } else {
        match statement_at(t, i) {
            Err(e) => Err(e),
            Ok((s, j)) => if i <= j < t.len() {
                match block_at(t, j + 1) {
                    Err(e) => Err(e),
                    Ok((rest, k)) => Ok((seq![s] + rest, k)),
                }
            } else {
                Err(CompileError::ParseFailure)
            },
        }
    }
}

/// The statements from `i` up to the end of input.
pub open spec fn program_at(t: Seq<TokenView>, i: int) -> Result<Seq<StmtView>, CompileError>
    decreases t.len() - i,
{
    if !(0 <= i < t.len()) || tok(t, i) is Eof {
        Ok(Seq::empty())
    } else {
        match statement_at(t, i) {
            Err(e) => Err(e),
            Ok((s, j)) => if i <= j < t.len() {
                match program_at(t, j + 1) {
                    Err(e) => Err(e),
                    Ok(rest) => Ok(seq![s] + rest),
                }
            } else {
                Err(CompileError::ParseFailure)
            },
        }
    }
}

/// The program that a text denotes, or the first failure in scanning or parsing it.
pub open spec fn parse_source(s: Seq<char>) -> Result<Seq<StmtView>, CompileError> {
    match tokens_from(s, 0) {
        Err(e) => Err(e),
        Ok(t) => program_at(t, 0),
    }
}

pub open spec fn expr_result(r: Result<(Expression, usize), CompileError>) -> Result<(ExprView, int), CompileError> {
    match r {
        Ok((e, j)) => Ok((e@, j as int)),
        Err(e) => Err(e),
    }
}

pub open spec fn stmt_result(r: Result<(Statement, usize), CompileError>) -> Result<(StmtView, int), CompileError> {
    match r {
        Ok((s, j)) => Ok((s@, j as int)),
        Err(e) => Err(e),
    }
}

pub open spec fn params_result(r: Result<(Vec<Ident>, usize), CompileError>) -> Result<(Seq<Seq<char>>, int), CompileError> {
    match r {
        Ok((v, j)) => Ok((idents_view(v@), j as int)),
        Err(e) => Err(e),
    }
}

pub open spec fn block_result(r: Result<(Vec<Statement>, usize), CompileError>) -> Result<(Seq<StmtView>, int), CompileError> {
    match r {
        Ok((v, j)) => Ok((stmts_view(v@), j as int)),
        Err(e) => Err(e),
    }
}

pub open spec fn program_result(r: Result<Program, CompileError>) -> Result<Seq<StmtView>, CompileError> {
    match r {
        Ok(p) => Ok(p@),
        Err(e) => Err(e),
    }
}

pub open spec fn prepend_params(front: Seq<Seq<char>>, r: Result<(Seq<Seq<char>>, int), CompileError>) -> Result<(Seq<Seq<char>>, int), CompileError> {
    match r {
        Ok((rest, k)) => Ok((front + rest, k)),
        Err(e) => Err(e),
    }
}

pub open spec fn prepend_block(front: Seq<StmtView>, r: Result<(Seq<StmtView>, int), CompileError>) -> Result<(Seq<StmtView>, int), CompileError> {
    match r {
        Ok((rest, k)) => Ok((front + rest, k)),
        Err(e) => Err(e),
    }
}

pub open spec fn prepend_program(front: Seq<StmtView>, r: Result<Seq<StmtView>, CompileError>) -> Result<Seq<StmtView>, CompileError> {
    match r {
        Ok(rest) => Ok(front + rest),
        Err(e) => Err(e),
    }
}

/// Builds the syntax tree of a program from its tokens.
pub struct Parser {
    tokens: Vec<Token>,
}

impl Parser {
    /// The token stream being parsed.
    pub closed spec fn tokens(&self) -> Seq<TokenView> {
        self.tokens@.map_values(|t: Token| t@)
    }

    pub closed spec fn wf(&self) -> bool {
        &&& 1 <= self.tokens@.len() <= usize::MAX
        &&& self.tokens@.last()@ is Eof
    }

    /// Scans the rest of the lexer's text, so that any scanning failure is
    /// reported before parsing starts.
    pub fn new(lexer: Lexer) -> (r: Result<Parser, CompileError>)
        requires
            lexer.wf(),
            lexer.position() <= lexer.text().len(),
        ensures
            match tokens_from(lexer.text(), lexer.position()) {
                Ok(ts) => r matches Ok(p) && p.wf() && p.tokens() == ts,
                Err(e) => r == Err::<Parser, CompileError>(e),
            },
    {
        let mut lex = lexer;
        let ghost s = lex.text();
        let ghost p0 = lex.position();
        let mut tokens: Vec<Token> = Vec::new();
        assert(prepend_tokens(Seq::empty(), tokens_from(s, p0)) == tokens_from(s, p0)) by {
            if let Ok(ts) = tokens_from(s, p0) {
                assert(Seq::<TokenView>::empty() + ts =~= ts);
            }
        }
        assert(tokens@.map_values(|t: Token| t@) =~= Seq::<TokenView>::empty());
        loop
            invariant
                lex.wf(),
                lex.text() == s,
                s == lexer.text(),
                p0 == lexer.position(),
                lex.position() <= s.len(),
                tokens_from(s, p0) == prepend_tokens(
                    tokens@.map_values(|t: Token| t@),
                    tokens_from(s, lex.position()),
                ),
            decreases s.len() - lex.position(),
        {
            let ghost before = lex.position();
            let ghost acc = tokens@.map_values(|t: Token| t@);
            proof {
                lemma_scan_advances(s, before);
            }
            match lex.next_token() {
                Err(e) => {
                    assert(tokens_from(s, before) == Err::<Seq<TokenView>, CompileError>(e));
                    assert(tokens_from(s, p0) == Err::<Seq<TokenView>, CompileError>(e));
                    return Err(e);
                },
                Ok(t) => {
                    let is_eof = matches!(t, Token::Eof);
                    let ghost tv = t@;
                    tokens.push(t);
                    assert(tokens@.map_values(|t: Token| t@) =~= acc.push(tv));
                    if is_eof {
                        let count: usize = tokens.len();
                        assert(count == tokens@.len());
                        assert(tokens_from(s, before) == Ok::<Seq<TokenView>, CompileError>(seq![tv]));
                        assert(acc + seq![tv] =~= acc.push(tv));
                        return Ok(Parser { tokens });
                    }
                    proof {
                        if let Ok(rest) = tokens_from(s, lex.position()) {
                            assert(acc + (seq![tv] + rest) =~= acc.push(tv) + rest);
                        }
                    }
                },
            }
        }
    }

    proof fn lemma_token(&self, i: int)
        requires
            self.wf(),
            0 <= i < self.tokens@.len(),
        ensures
            tok(self.tokens(), i) == self.tokens@[i]@,
            self.tokens()[self.tokens@.len() - 1] is Eof,
            self.tokens@[i]@ !is Eof ==> i + 1 < self.tokens@.len(),
    {
    }

    fn parse_expression(&self, precedence: Precedence, i: usize) -> (r: Result<(Expression, usize), CompileError>)
        requires
            self.wf(),
            i < self.tokens@.len(),
        ensures
            expr_result(r) == expression_at(self.tokens(), precedence, i as int),
            r matches Ok((_, j)) ==> i <= j && j + 1 < self.tokens@.len(),
        decreases self.tokens@.len() - i, 1nat,
    {
        proof {
            self.lemma_token(i as int);
        }
        let left = match &self.tokens[i] {
            Token::Int(v) => Expression::Literal(Literal::Int(*v)),
            Token::Ident(s) => Expression::Ident(Ident(s.clone())),
            _ => {
                return Err(CompileError::ParseFailure);
            },
        };
        self.parse_infix_expression(precedence, left, i)
    }

    fn parse_infix_expression(&self, precedence: Precedence, left: Expression, i: usize) -> (r: Result<(Expression, usize), CompileError>)
        requires
            self.wf(),
            i + 1 < self.tokens@.len(),
        ensures
            expr_result(r) == infix_chain(self.tokens(), precedence, left@, i as int),
            r matches Ok((_, j)) ==> i <= j && j + 1 < self.tokens@.len(),
        decreases self.tokens@.len() - i, 0nat,
    {
        proof {
            self.lemma_token(i + 1);
        }
        let next = &self.tokens[i + 1];
        let next_precedence = next.precedence();
        if precedence.is_below(next_precedence) {
            let op = match next {
                Token::Plus => Infix::Plus,
                Token::Minus => Infix::Minus,
                Token::Asterisk => Infix::Asterisk,
                Token::Slash => Infix::Slash,
                _ => {
                    return Err(CompileError::ParseFailure);
                },
            };
            match self.parse_expression(next_precedence, i + 2) {
                Err(e) => Err(e),
                Ok((right, j)) => self.parse_infix_expression(
                    precedence,
                    Expression::Infix(op, Box::new(left), Box::new(right)),
                    j,
                ),
            }
        } else {
            Ok((left, i))
        }
    }

    fn parse_expression_statement(&self, i: usize) -> (r: Result<(Statement, usize), CompileError>)
        requires
            self.wf(),
            i < self.tokens@.len(),
        ensures
            stmt_result(r) == expression_statement_at(self.tokens(), i as int),
            r matches Ok((_, j)) ==> i <= j && j + 1 < self.tokens@.len(),
        decreases self.tokens@.len() - i, 2nat,
    {
        match self.parse_expression(Precedence::Lowest, i) {
            Err(e) => Err(e),
            Ok((e, j)) => {
                proof {
                    self.lemma_token(j + 1);
                }
                if matches!(self.tokens[j + 1], Token::Semicolon) {
                    Ok((Statement::Expression(e), j + 1))
                } else {
                    Ok((Statement::Expression(e), j))
                }
            },
        }
    }

    fn parse_statement(&self, i: usize) -> (r: Result<(Statement, usize), CompileError>)
        requires
            self.wf(),
            i < self.tokens@.len(),
        ensures
            stmt_result(r) == statement_at(self.tokens(), i as int),
            r matches Ok((_, j)) ==> i <= j && j + 1 < self.tokens@.len(),
        decreases self.tokens@.len() - i, 3nat,
    {
        proof {
            self.lemma_token(i as int);
        }
        if matches!(self.tokens[i], Token::Fn) {
            self.parse_fn_statement(i)
        } else {
            self.parse_expression_statement(i)
        }
    }

    fn parse_ident(&self, i: usize) -> (r: Result<Ident, CompileError>)
        requires
            self.wf(),
            i < self.tokens@.len(),
        ensures
            match self.tokens()[i as int] {
                TokenView::Ident(n) => r matches Ok(id) && id@ == n,
                _ => r == Err::<Ident, CompileError>(CompileError::ParseFailure),
            },
    {
        match &self.tokens[i] {
            Token::Ident(s) => Ok(Ident(s.clone())),
            _ => Err(CompileError::ParseFailure),
        }
    }

    fn parse_fn_statement(&self, i: usize) -> (r: Result<(Statement, usize), CompileError>)
        requires
            self.wf(),
            i + 1 < self.tokens@.len(),
        ensures
            stmt_result(r) == function_at(self.tokens(), i as int),
            r matches Ok((_, j)) ==> i <= j && j + 1 < self.tokens@.len(),
        decreases self.tokens@.len() - i, 2nat,
    {
        proof {
            self.lemma_token(i + 1);
        }
        let ident = match self.parse_ident(i + 1) {
            Ok(id) => id,
            Err(e) => {
                return Err(e);
            },
        };
        proof {
            self.lemma_token(i + 2);
        }
        if !matches!(self.tokens[i + 2], Token::Lparen) {
            return Err(CompileError::ParseFailure);
        }
        proof {
            self.lemma_token(i + 3);
        }
        let (args, j) = match self.parse_params(i + 3) {
            Ok(p) => p,
            Err(e) => {
                return Err(e);
            },
        };
        proof {
            self.lemma_token(j + 1);
        }
        if !matches!(self.tokens[j + 1], Token::Lbracket) {
            return Err(CompileError::ParseFailure);
        }
        proof {
            self.lemma_token(j + 2);
        }
        let (blocks, k) = match self.parse_block(j + 2) {
            Ok(b) => b,
            Err(e) => {
                return Err(e);
            },
        };
        Ok((Statement::Fn { ident, args, blocks }, k))
    }

    fn parse_params(&self, i: usize) -> (r: Result<(Vec<Ident>, usize), CompileError>)
        requires
            self.wf(),
            i < self.tokens@.len(),
        ensures
            params_result(r) == params_at(self.tokens(), i as int),
            r matches Ok((_, j)) ==> i <= j && j + 1 < self.tokens@.len(),
    {
        let ghost t = self.tokens();
        let mut args: Vec<Ident> = Vec::new();
        let mut j = i;
        assert(prepend_params(Seq::empty(), params_at(t, i as int)) == params_at(t, i as int)) by {
            if let Ok((rest, k)) = params_at(t, i as int) {
                assert(Seq::<Seq<char>>::empty() + rest =~= rest);
            }
        }
        assert(idents_view(args@) =~= Seq::<Seq<char>>::empty());
        loop
            invariant
                self.wf(),
                t == self.tokens(),
                i <= j < self.tokens@.len(),
                params_at(t, i as int) == prepend_params(idents_view(args@), params_at(t, j as int)),
            decreases self.tokens@.len() - j,
        {
            proof {
                self.lemma_token(j as int);
            }
            match &self.tokens[j] {
                Token::Rparen => {
                    assert(idents_view(args@) + Seq::<Seq<char>>::empty() =~= idents_view(args@));
                    return Ok((args, j));
                },
                Token::Ident(s) => {
                    let ghost acc = idents_view(args@);
                    let ghost n = s@;
                    let id = Ident(s.clone());
                    proof {
                        lemma_idents_view_push(args@, id);
                        self.lemma_token(j + 1);
                    }
                    args.push(id);
                    let next = if matches!(self.tokens[j + 1], Token::Comma) {
                        j + 2
                    } else {
                        j + 1
                    };
                    proof {
                        if let Ok((rest, k)) = params_at(t, next as int) {
                            assert(acc + (seq![n] + rest) =~= acc.push(n) + rest);
                        }
                    }
                    j = next;
                },
                _ => {
                    return Err(CompileError::ParseFailure);
                },
            }
        }
    }

    fn parse_block(&self, i: usize) -> (r: Result<(Vec<Statement>, usize), CompileError>)
        requires
            self.wf(),
            i < self.tokens@.len(),
        ensures
            block_result(r) == block_at(self.tokens(), i as int),
            r matches Ok((_, j)) ==> i <= j && j + 1 < self.tokens@.len(),
        decreases self.tokens@.len() - i, 4nat,
    {
        let ghost t = self.tokens();
        let mut blocks: Vec<Statement> = Vec::new();
        let mut j = i;
        assert(prepend_block(Seq::empty(), block_at(t, i as int)) == block_at(t, i as int)) by {
            if let Ok((rest, k)) = block_at(t, i as int) {
                assert(Seq::<StmtView>::empty() + rest =~= rest);
            }
        }
        loop
            invariant
                self.wf(),
                t == self.tokens(),
                i <= j < self.tokens@.len(),
                block_at(t, i as int) == prepend_block(stmts_view(blocks@), block_at(t, j as int)),
            decreases self.tokens@.len() - j,
        {
            proof {
                self.lemma_token(j as int);
            }
            if matches!(self.tokens[j], Token::Rbracket) {
                assert(stmts_view(blocks@) + Seq::<StmtView>::empty() =~= stmts_view(blocks@));
                return Ok((blocks, j));
            }
            let ghost acc = stmts_view(blocks@);
            match self.parse_statement(j) {
                Err(e) => {
                    return Err(e);
                },
                Ok((s, k)) => {
                    let ghost sv = s@;
                    proof {
                        lemma_stmts_view_push(blocks@, s);
                    }
                    blocks.push(s);
                    proof {
                        if let Ok((rest, m)) = block_at(t, k + 1) {
                            assert(acc + (seq![sv] + rest) =~= acc.push(sv) + rest);
                        }
                    }
                    j = k + 1;
                },
            }
        }
    }

    /// Parses the whole token stream into a program.
    pub fn parse_program(&self) -> (r: Result<Program, CompileError>)
        requires
            self.wf(),
        ensures
            program_result(r) == program_at(self.tokens(), 0),
    {
        let ghost t = self.tokens();
        let mut statements: Vec<Statement> = Vec::new();
        let mut j: usize = 0;
        assert(prepend_program(Seq::empty(), program_at(t, 0)) == program_at(t, 0)) by {
            if let Ok(rest) = program_at(t, 0) {
                assert(Seq::<StmtView>::empty() + rest =~= rest);
            }
        }
        loop
            invariant
                self.wf(),
                t == self.tokens(),
                j < self.tokens@.len(),
                program_at(t, 0) == prepend_program(stmts_view(statements@), program_at(t, j as int)),
            decreases self.tokens@.len() - j,
        {
            proof {
                self.lemma_token(j as int);
            }
            if matches!(self.tokens[j], Token::Eof) {
                assert(stmts_view(statements@) + Seq::<StmtView>::empty() =~= stmts_view(statements@));
                return Ok(Program { statements });
            }
            let ghost acc = stmts_view(statements@);
            match self.parse_statement(j) {
                Err(e) => {
                    return Err(e);
                },
                Ok((s, k)) => {
                    let ghost sv = s@;
                    proof {
                        lemma_stmts_view_push(statements@, s);
                    }
                    statements.push(s);
                    proof {
                        if let Ok(rest) = program_at(t, k + 1) {
                            assert(acc + (seq![sv] + rest) =~= acc.push(sv) + rest);
                        }
                    }
                    j = k + 1;
                },
            }
        }
    }
}

} // verus!
