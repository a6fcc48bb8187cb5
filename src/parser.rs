use vstd::prelude::*;
use crate::ast::{Ast, BinaryOperator, ComparisonOperator, Node, Term, models_all};
use crate::lexer::{
    Lexeme, Token, TokenKind, all_digits, is_digit, lex, lexeme_of, lexemes, text_of, tokenise, words,
};

verus! {

/// Why a parse failed: the token under the cursor was not one of the kinds
/// the grammar allows there, or an integer literal is not a decimal number
/// that fits in an `i64`.
#[derive(Debug)]
pub enum ParseError {
    Unexpected { expected: Vec<TokenKind>, found: TokenKind },
    InvalidInteger { text: String },
}

/// The mathematical form of a `ParseError`.
pub enum Fault {
    Unexpected { expected: Seq<TokenKind>, found: TokenKind },
    InvalidInteger { text: Seq<char> },
}

impl View for ParseError {
    type V = Fault;

    open spec fn view(&self) -> Fault {
        match self {
            ParseError::Unexpected { expected, found } => Fault::Unexpected {
                expected: expected@,
                found: *found,
            },
            ParseError::InvalidInteger { text } => Fault::InvalidInteger { text: text@ },
        }
    }
}

/// The number that a run of decimal digits denotes.
pub open spec fn decimal_value(s: Seq<char>) -> int
    decreases s.len(),
{
    if s.len() == 0 {
        0
    } else {
        decimal_value(s.drop_last()) * 10 + (s.last() as u32 - '0' as u32)
    }
}

/// `s` is a decimal numeral whose value fits in an `i64`.
pub open spec fn is_i64_numeral(s: Seq<char>) -> bool {
    &&& s.len() > 0
    &&& all_digits(s)
    &&& decimal_value(s) <= i64::MAX
}

/// Token sequences the parser works on, as the tokeniser makes them: they
/// end with the end-of-input token, identifiers and integer literals carry
/// text, and an integer literal's text starts with a digit.
pub open spec fn well_formed(toks: Seq<Lexeme>) -> bool {
    &&& toks.len() > 0
    &&& toks.last().kind is Eof
    &&& forall|k: int|
        0 <= k < toks.len() && ((#[trigger] toks[k]).kind is Identifier || toks[k].kind is IntLiteral)
            ==> toks[k].text is Some
    &&& forall|k: int|
        0 <= k < toks.len() && (#[trigger] toks[k]).kind is IntLiteral ==> text_of(toks[k]).len() > 0
            && is_digit(text_of(toks[k])[0])
}

pub open spec fn unexpected<T>(expected: Seq<TokenKind>, found: TokenKind) -> Result<T, Fault> {
    Err(Fault::Unexpected { expected, found })
}

/// An integer literal token read as a number.
pub open spec fn literal(t: Lexeme) -> Result<Term, Fault> {
    if is_i64_numeral(text_of(t)) {
        Ok(Term::IntLiteral { value: decimal_value(text_of(t)) as i64 })
    } else {
        Err(Fault::InvalidInteger { text: text_of(t) })
    }
}

/// An operand: a variable or an integer literal, one token.
pub open spec fn operand(t: Lexeme) -> Result<Term, Fault> {
    match t.kind {
        TokenKind::Identifier => Ok(Term::Variable { name: text_of(t) }),
        TokenKind::IntLiteral => literal(t),
        _ => unexpected(seq![TokenKind::Identifier, TokenKind::IntLiteral], t.kind),
    }
}

/// `lhs (+|-) rhs`, three tokens from `i`.
pub open spec fn statement(toks: Seq<Lexeme>, i: int) -> Result<Term, Fault> {
    match operand(toks[i]) {
        Err(f) => Err(f),
        Ok(lhs) => {
            let k = toks[i + 1].kind;
            if !(k is Plus || k is Minus) {
                unexpected(seq![TokenKind::Plus, TokenKind::Minus], k)
            } else {
                match operand(toks[i + 2]) {
                    Err(f) => Err(f),
                    Ok(rhs) => Ok(
                        Term::BinaryOp {
                            lhs: Box::new(lhs),
                            rhs: Box::new(rhs),
                            op: if k is Plus {
                                BinaryOperator::Plus
                            } else {
                                BinaryOperator::Minus
                            },
                        },
                    ),
                }
            }
        },
    }
}

/// `lhs == rhs`, three tokens from `i`.
pub open spec fn condition(toks: Seq<Lexeme>, i: int) -> Result<Term, Fault> {
    match operand(toks[i]) {
        Err(f) => Err(f),
        Ok(lhs) => {
            let k = toks[i + 1].kind;
            if !(k is DoubleEq) {
                unexpected(seq![TokenKind::DoubleEq], k)
            } else {
                match operand(toks[i + 2]) {
                    Err(f) => Err(f),
                    Ok(rhs) => Ok(
                        Term::ComparisonOp {
                            lhs: Box::new(lhs),
                            rhs: Box::new(rhs),
                            op: ComparisonOperator::Equal,
                        },
                    ),
                }
            }
        },
    }
}

/// `let name = literal`, four tokens from `i`.
pub open spec fn declaration(toks: Seq<Lexeme>, i: int) -> Result<Term, Fault> {
    if !(toks[i].kind is Let) {
        unexpected(seq![TokenKind::Let], toks[i].kind)
    } else if !(toks[i + 1].kind is Identifier) {
        unexpected(seq![TokenKind::Identifier], toks[i + 1].kind)
    } else if !(toks[i + 2].kind is Eq) {
        unexpected(seq![TokenKind::Eq], toks[i + 2].kind)
    } else if !(toks[i + 3].kind is IntLiteral) {
        unexpected(seq![TokenKind::IntLiteral], toks[i + 3].kind)
    } else {
        match literal(toks[i + 3]) {
            Err(f) => Err(f),
            Ok(v) => Ok(Term::Declaration { target: text_of(toks[i + 1]), value: Box::new(v) }),
        }
    }
}

/// `ts` followed by whatever `r` parsed, or the failure of `r`.
pub open spec fn extend(ts: Seq<Term>, r: Result<Seq<Term>, Fault>) -> Result<Seq<Term>, Fault> {
    match r {
        Ok(rest) => Ok(ts + rest),
        Err(f) => Err(f),
    }
}

/// How many tokens are left from position `i`.
pub open spec fn remaining(toks: Seq<Lexeme>, i: int) -> nat {
    if 0 <= i < toks.len() {
        (toks.len() - i) as nat
    } else {
        0
    }
}

/// The statements of a loop body from `i` up to the closing brace.
pub open spec fn body(toks: Seq<Lexeme>, i: int) -> Result<Seq<Term>, Fault>
    decreases remaining(toks, i),
{
    if i < 0 || i >= toks.len() || toks[i].kind is RBrace {
        Ok(seq![])
    } else {
        match statement(toks, i) {
            Err(f) => Err(f),
            Ok(s) => extend(seq![s], body(toks, i + 3)),
        }
    }
}

/// `while condition { statements }` from `i`.
pub open spec fn while_loop(toks: Seq<Lexeme>, i: int) -> Result<Term, Fault> {
    if !(toks[i].kind is While) {
        unexpected(seq![TokenKind::While], toks[i].kind)
    } else {
        match condition(toks, i + 1) {
            Err(f) => Err(f),
            Ok(c) => if !(toks[i + 4].kind is LBrace) {
                unexpected(seq![TokenKind::LBrace], toks[i + 4].kind)
            } else {
                match body(toks, i + 5) {
                    Err(f) => Err(f),
                    Ok(b) => Ok(Term::While { condition: Box::new(c), body: b }),
                }
            },
        }
    }
}

/// Number of tokens that a parsed loop spans, braces included.
pub open spec fn while_width(t: Term) -> int {
    match t {
        Term::While { body, .. } => 6 + 3 * body.len() as int,
        _ => 1,
    }
}

/// The top-level statements from `i` up to the end of input: declarations
/// and while loops.
pub open spec fn program(toks: Seq<Lexeme>, i: int) -> Result<Seq<Term>, Fault>
    decreases remaining(toks, i),
{
    if i < 0 || i >= toks.len() || toks[i].kind is Eof {
        Ok(seq![])
    } else if toks[i].kind is Let {
        match declaration(toks, i) {
            Err(f) => Err(f),
            Ok(d) => extend(seq![d], program(toks, i + 4)),
        }
    } else if toks[i].kind is While {
        match while_loop(toks, i) {
            Err(f) => Err(f),
            Ok(w) => extend(seq![w], program(toks, i + while_width(w))),
        }
    } else {
        unexpected(seq![TokenKind::Let, TokenKind::While], toks[i].kind)
    }
}

/// An executable result agrees with the grammar's result.
pub open spec fn agrees(r: Result<Node, ParseError>, s: Result<Term, Fault>) -> bool {
    match r {
        Ok(n) => s is Ok && n.models(s->Ok_0),
        Err(e) => s == Err::<Term, Fault>(e@),
    }
}

pub open spec fn agrees_all(r: Result<Ast, ParseError>, s: Result<Seq<Term>, Fault>) -> bool {
    match r {
        Ok(a) => s is Ok && models_all(a.nodes@, s->Ok_0),
        Err(e) => s == Err::<Seq<Term>, Fault>(e@),
    }
}

/// Relies on `i64::from_str_radix` in base 10: it accepts an optional sign
/// followed by ASCII digits, and fails when the value does not fit.
#[verifier::external_body]
fn decimal_i64(text: &str) -> (r: Option<i64>)
    requires
        text@.len() > 0,
        is_digit(text@[0]),
    ensures
        match r {
            Some(v) => is_i64_numeral(text@) && v == decimal_value(text@),
            None => !is_i64_numeral(text@),
        },
{
    i64::from_str_radix(text, 10).ok()
}

/// The tokeniser's output is a token sequence the parser can work on.
pub proof fn lemma_lex_well_formed(s: Seq<char>)
    ensures
        well_formed(lex(s)),
{
    let toks = lex(s);
    let ws = words(s);
    assert forall|k: int| 0 <= k < toks.len() - 1 implies #[trigger] toks[k] == lexeme_of(ws[k]) by {
    }
}

proof fn lemma_extend_push(ts: Seq<Term>, t: Term, r: Result<Seq<Term>, Fault>)
    ensures
        extend(ts, extend(seq![t], r)) == extend(ts.push(t), r),
{
    if let Ok(rest) = r {
        assert(ts + (seq![t] + rest) =~= ts.push(t) + rest);
    }
}

proof fn lemma_extend_done(ts: Seq<Term>)
    ensures
        extend(ts, Ok(seq![])) == Ok::<Seq<Term>, Fault>(ts),
{
    assert(ts + seq![] =~= ts);
}

/// A recursive-descent parser over the tokens of one source text, with a
/// cursor that only moves forward.
pub struct Parser {
    tokens: Vec<Token>,
    idx: usize,
}

impl Parser {
    /// The tokens being parsed.
    pub closed spec fn tokens_view(&self) -> Seq<Lexeme> {
        lexemes(self.tokens@)
    }

    /// Where the cursor stands.
    pub closed spec fn position(&self) -> int {
        self.idx as int
    }

    pub closed spec fn wf(&self) -> bool {
        &&& well_formed(self.tokens_view())
        &&& self.idx < self.tokens@.len()
    }

    spec fn current(&self) -> Lexeme {
        self.tokens_view()[self.idx as int]
    }

    /// A parser at the start of the tokens of `source`.
    pub fn new(source: String) -> (p: Parser)
        ensures
            p.wf(),
            p.tokens_view() == lex(source@),
            p.position() == 0,
    {
        let tokens = tokenise(source);
        proof {
            lemma_lex_well_formed(source@);
        }
        Parser { tokens, idx: 0 }
    }

    proof fn lemma_not_last(&self)
        requires
            self.wf(),
            !(self.current().kind is Eof),
        ensures
            self.idx + 1 < self.tokens.len(),
    {
        assert(self.tokens_view().last() == self.tokens_view()[self.tokens@.len() - 1]);
    }

    fn expect(&self, kind: TokenKind) -> (r: Result<(), ParseError>)
        requires
            self.wf(),
        ensures
            r is Ok <==> self.current().kind == kind,
            r is Err ==> r->Err_0@ == (Fault::Unexpected {
                expected: seq![kind],
                found: self.current().kind,
            }),
    {
        let found = self.tokens[self.idx].kind;
        if found != kind {
            let expected = vec![kind];
            assert(expected@ =~= seq![kind]);
            Err(ParseError::Unexpected { expected, found })
        } else {
            Ok(())
        }
    }

    fn expect_multiple(&self, kinds: Vec<TokenKind>) -> (r: Result<(), ParseError>)
        requires
            self.wf(),
        ensures
            r is Ok <==> kinds@.contains(self.current().kind),
            r is Err ==> r->Err_0@ == (Fault::Unexpected {
                expected: kinds@,
                found: self.current().kind,
            }),
    {
        let found = self.tokens[self.idx].kind;
        let mut i: usize = 0;
        while i < kinds.len()
            invariant
                found == self.current().kind,
                i <= kinds@.len(),
                forall|j: int| 0 <= j < i ==> kinds@[j] != found,
            decreases kinds.len() - i,
        {
            if kinds[i] == found {
                assert(kinds@[i as int] == found);
                return Ok(());
            }
            i = i + 1;
        }
        Err(ParseError::Unexpected { expected: kinds, found })
    }

    fn match_single(&self, kind: TokenKind) -> (r: bool)
        requires
            self.wf(),
        ensures
            r == (self.current().kind == kind),
    {
        self.tokens[self.idx].kind == kind
    }

    /// Moves the cursor one token on. The cursor never leaves the end-of-input
    /// token, so it always stands on a token.
    fn advance(&mut self)
        requires
            old(self).wf(),
            !(old(self).current().kind is Eof),
        ensures
            final(self).wf(),
            final(self).tokens == old(self).tokens,
            final(self).idx == old(self).idx + 1,
    {
        proof {
            self.lemma_not_last();
        }
        self.idx = self.idx + 1;
    }

    fn parse_variable(&self) -> (n: Node)
        requires
            self.wf(),
            self.current().kind is Identifier,
        ensures
            n.models(Term::Variable { name: text_of(self.current()) }),
    {
        match &self.tokens[self.idx].value {
            Some(v) => Node::Variable { name: v.clone() },
            None => Node::Variable { name: String::new() },
        }
    }

    fn parse_int_literal(&self) -> (r: Result<Node, ParseError>)
        requires
            self.wf(),
            self.current().kind is IntLiteral,
        ensures
            agrees(r, literal(self.current())),
    {
        match &self.tokens[self.idx].value {
            Some(v) => match decimal_i64(v.as_str()) {
                Some(value) => Ok(Node::IntLiteral { value }),
                None => Err(ParseError::InvalidInteger { text: v.clone() }),
            },
            None => Err(ParseError::InvalidInteger { text: String::new() }),
        }
    }

    /// The variable or integer literal under the cursor, which stays put.
    fn read_operand(&self) -> (r: Result<Node, ParseError>)
        requires
            self.wf(),
        ensures
            agrees(r, operand(self.current())),
            r is Ok ==> !(self.current().kind is Eof),
    {
        let kinds = vec![TokenKind::Identifier, TokenKind::IntLiteral];
        assert(kinds@ =~= seq![TokenKind::Identifier, TokenKind::IntLiteral]);
        self.expect_multiple(kinds)?;
        if self.match_single(TokenKind::Identifier) {
            Ok(self.parse_variable())
        } else {
            self.parse_int_literal()
        }
    }

    /// A variable or an integer literal, with the cursor moved past it.
    fn parse_operand(&mut self) -> (r: Result<Node, ParseError>)
        requires
            old(self).wf(),
        ensures
            final(self).wf(),
            final(self).tokens == old(self).tokens,
            agrees(r, operand(old(self).current())),
            r is Ok ==> final(self).idx == old(self).idx + 1,
    {
        let node = self.read_operand()?;
        self.advance();
        Ok(node)
    }

    /// `let name = literal`.
    fn parse_let(&mut self) -> (r: Result<Node, ParseError>)
        requires
            old(self).wf(),
        ensures
            final(self).wf(),
            final(self).tokens == old(self).tokens,
            agrees(r, declaration(old(self).tokens_view(), old(self).idx as int)),
            r is Ok ==> final(self).idx == old(self).idx + 4,
    {
        self.expect(TokenKind::Let)?;
        self.advance();
        self.expect(TokenKind::Identifier)?;
        let target = match &self.tokens[self.idx].value {
            Some(v) => v.clone(),
            None => String::new(),
        };
        self.advance();
        self.expect(TokenKind::Eq)?;
        self.advance();
        self.expect(TokenKind::IntLiteral)?;
        let value = self.parse_int_literal()?;
        self.advance();
        Ok(Node::Declaration { target, value: Box::new(value) })
    }

    /// `lhs == rhs`, the condition of a loop. The cursor ends on the
    /// condition's last token.
    fn parse_condition(&mut self) -> (r: Result<Node, ParseError>)
        requires
            old(self).wf(),
        ensures
            final(self).wf(),
            final(self).tokens == old(self).tokens,
            agrees(r, condition(old(self).tokens_view(), old(self).idx as int)),
            r is Ok ==> final(self).idx == old(self).idx + 2,
            r is Ok ==> !(final(self).current().kind is Eof),
    {
        let lhs = self.parse_operand()?;
        self.expect(TokenKind::DoubleEq)?;
        let op = ComparisonOperator::Equal;
        self.advance();
        let rhs = self.read_operand()?;
        Ok(Node::ComparisonOp { lhs: Box::new(lhs), rhs: Box::new(rhs), op })
    }

    /// `lhs + rhs` or `lhs - rhs`, a statement of a loop body.
    fn parse_statement(&mut self) -> (r: Result<Node, ParseError>)
        requires
            old(self).wf(),
        ensures
            final(self).wf(),
            final(self).tokens == old(self).tokens,
            agrees(r, statement(old(self).tokens_view(), old(self).idx as int)),
            r is Ok ==> final(self).idx == old(self).idx + 3,
    {
        let lhs = self.parse_operand()?;
        let kinds = vec![TokenKind::Plus, TokenKind::Minus];
        assert(kinds@ =~= seq![TokenKind::Plus, TokenKind::Minus]);
        self.expect_multiple(kinds)?;
        let op = if self.match_single(TokenKind::Plus) {
            BinaryOperator::Plus
        } else {
            BinaryOperator::Minus
        };
        self.advance();
        let rhs = self.parse_operand()?;
        Ok(Node::BinaryOp { lhs: Box::new(lhs), rhs: Box::new(rhs), op })
    }

    /// Statements up to the closing brace of a loop body, which is left
    /// under the cursor.
    fn parse_body(&mut self) -> (r: Result<Vec<Node>, ParseError>)
        requires
            old(self).wf(),
        ensures
            final(self).wf(),
            final(self).tokens == old(self).tokens,
            match r {
                Ok(ns) => {
                    let b = body(old(self).tokens_view(), old(self).idx as int);
                    &&& b is Ok
                    &&& models_all(ns@, b->Ok_0)
                    &&& final(self).idx == old(self).idx + 3 * ns@.len()
                    &&& final(self).current().kind is RBrace
                },
                Err(e) => body(old(self).tokens_view(), old(self).idx as int) == Err::<
                    Seq<Term>,
                    Fault,
                >(e@),
            },
    {
        let ghost toks = self.tokens_view();
        let ghost start = self.idx as int;
        let ghost mut terms: Seq<Term> = seq![];
        let mut nodes: Vec<Node> = Vec::new();
        assert(terms + body(toks, start)->Ok_0 =~= body(toks, start)->Ok_0);
        while !self.match_single(TokenKind::RBrace)
            invariant
                self.wf(),
                self.tokens_view() == toks,
                self.tokens == old(self).tokens,
                toks == old(self).tokens_view(),
                start == old(self).idx,
                self.idx == start + 3 * nodes@.len(),
                models_all(nodes@, terms),
                body(toks, start) == extend(terms, body(toks, self.idx as int)),
            decreases self.tokens@.len() - self.idx,
        {
            let ghost at = self.idx as int;
            let s = self.parse_statement();
            match s {
                Ok(n) => {
                    proof {
                        lemma_extend_push(terms, statement(toks, at)->Ok_0, body(toks, at + 3));
                        terms = terms.push(statement(toks, at)->Ok_0);
                    }
                    nodes.push(n);
                },
                Err(e) => {
                    assert(body(toks, at) == Err::<Seq<Term>, Fault>(e@));
                    return Err(e);
                },
            }
        }
        proof {
            lemma_extend_done(terms);
        }
        Ok(nodes)
    }

    /// `while condition { statements }`, closing brace included.
    fn parse_while(&mut self) -> (r: Result<Node, ParseError>)
        requires
            old(self).wf(),
        ensures
            final(self).wf(),
            final(self).tokens == old(self).tokens,
            agrees(r, while_loop(old(self).tokens_view(), old(self).idx as int)),
            r is Ok ==> final(self).idx == old(self).idx + while_width(
                while_loop(old(self).tokens_view(), old(self).idx as int)->Ok_0,
            ),
    {
        self.expect(TokenKind::While)?;
        self.advance();
        let condition = self.parse_condition()?;
        self.advance();
        self.expect(TokenKind::LBrace)?;
        self.advance();
        let body = self.parse_body()?;
        self.advance();
        Ok(Node::While { condition: Box::new(condition), body: Box::new(body) })
    }

    /// Parses the program from the cursor to the end of input: a sequence of
    /// declarations and while loops. The first grammar violation ends the
    /// parse with an error.
    pub fn parse(&mut self) -> (r: Result<Ast, ParseError>)
        requires
            old(self).wf(),
        ensures
            final(self).wf(),
            final(self).tokens_view() == old(self).tokens_view(),
            agrees_all(r, program(old(self).tokens_view(), old(self).position())),
    {
        let ghost toks = self.tokens_view();
        let ghost start = self.idx as int;
        let ghost mut terms: Seq<Term> = seq![];
        let mut ast = Ast::new();
        assert(terms + program(toks, start)->Ok_0 =~= program(toks, start)->Ok_0);
        while !self.match_single(TokenKind::Eof)
            invariant
                self.wf(),
                self.tokens_view() == toks,
                toks == old(self).tokens_view(),
                start == old(self).idx,
                models_all(ast.nodes@, terms),
                program(toks, start) == extend(terms, program(toks, self.idx as int)),
            decreases self.tokens@.len() - self.idx,
        {
            let ghost at = self.idx as int;
            let kind = self.tokens[self.idx].kind;
            assert(kind == toks[at].kind);
            let node = if kind == TokenKind::Let {
                match self.parse_let() {
                    Ok(n) => n,
                    Err(e) => {
                        assert(program(toks, at) == Err::<Seq<Term>, Fault>(e@));
                        return Err(e);
                    },
                }
            } else if kind == TokenKind::While {
                match self.parse_while() {
                    Ok(n) => n,
                    Err(e) => {
                        assert(program(toks, at) == Err::<Seq<Term>, Fault>(e@));
                        return Err(e);
                    },
                }
            } else {
                let expected = vec![TokenKind::Let, TokenKind::While];
                assert(expected@ =~= seq![TokenKind::Let, TokenKind::While]);
                return Err(ParseError::Unexpected { expected, found: kind });
            };
            proof {
                let t = if kind == TokenKind::Let {
                    declaration(toks, at)->Ok_0
                } else {
                    while_loop(toks, at)->Ok_0
                };
                let next = if kind == TokenKind::Let {
                    at + 4
                } else {
                    at + while_width(t)
                };
                lemma_extend_push(terms, t, program(toks, next));
                terms = terms.push(t);
            }
            ast.nodes.push(node);
        }
        proof {
            lemma_extend_done(terms);
        }
        Ok(ast)
    }
}

/// Tokenises and parses `source`.
pub fn parse(source: String) -> (r: Result<Ast, ParseError>)
    ensures
        agrees_all(r, program(lex(source@), 0)),
{
    let mut parser = Parser::new(source);
    parser.parse()
}

} // verus!
