use vstd::prelude::*;

use crate::scanner::{
    equal_prefix_kind, errors_from, keyword_kind, lemma_step_advances, scan, single_char_kind, step,
    token_views, tokens_from,
};
use crate::token_types::{Token, TokenType, TokenView};

verus! {

broadcast use vstd::std_specs::vec::group_vec_axioms;

/// The value of a literal expression. A number is held as its decimal
/// digits exactly as written.
#[derive(Debug)]
pub enum Constant {
    Nil,
    Bool(bool),
    Str(String),
    Number(String),
}

pub enum ConstantView {
    Nil,
    Bool(bool),
    Str(Seq<char>),
    Number(Seq<char>),
}

impl View for Constant {
    type V = ConstantView;

    open spec fn view(&self) -> ConstantView {
        match self {
            Constant::Nil => ConstantView::Nil,
            Constant::Bool(b) => ConstantView::Bool(*b),
            Constant::Str(s) => ConstantView::Str(s@),
            Constant::Number(d) => ConstantView::Number(d@),
        }
    }
}

/// The prefix operators.
#[derive(Debug, Clone, Copy, PartialEq, Eq, Structural)]
pub enum UnaryOp {
    Invert,
    Not,
}

/// An expression tree. Each node owns its children.
#[derive(Debug)]
pub enum Expr {
    Assign { name: Token, value: Box<Expr> },
    Binary { left: Box<Expr>, operator: Token, right: Box<Expr> },
    Call { callee: Box<Expr>, paren: Token, arguments: Box<Vec<Expr>> },
    Grouping { expression: Box<Expr> },
    Literal { value: Constant },
    UnaryOp { operator: Token, operand: Box<Expr> },
    Error { msg: String },
}

pub enum ExprView {
    Assign { name: TokenView, value: Box<ExprView> },
    Binary { left: Box<ExprView>, operator: TokenView, right: Box<ExprView> },
    Call { callee: Box<ExprView>, paren: TokenView, arguments: Seq<ExprView> },
    Grouping { expression: Box<ExprView> },
    Literal { value: ConstantView },
    UnaryOp { operator: TokenView, operand: Box<ExprView> },
    Error { msg: Seq<char> },
}

pub open spec fn expr_view(e: Expr) -> ExprView
    decreases e,
{
    match e {
        Expr::Assign { name, value } => ExprView::Assign {
            name: name@,
            value: Box::new(expr_view(*value)),
        },
        Expr::Binary { left, operator, right } => ExprView::Binary {
            left: Box::new(expr_view(*left)),
            operator: operator@,
            right: Box::new(expr_view(*right)),
        },
        Expr::Call { callee, paren, arguments } => ExprView::Call {
            callee: Box::new(expr_view(*callee)),
            paren: paren@,
            arguments: arguments_view(*arguments, arguments.len() as int),
        },
        Expr::Grouping { expression } => ExprView::Grouping {
            expression: Box::new(expr_view(*expression)),
        },
        Expr::Literal { value } => ExprView::Literal { value: value@ },
        Expr::UnaryOp { operator, operand } => ExprView::UnaryOp {
            operator: operator@,
            operand: Box::new(expr_view(*operand)),
        },
        Expr::Error { msg } => ExprView::Error { msg: msg@ },
    }
}

/// Views of the first `n` arguments of a call.
pub open spec fn arguments_view(args: Vec<Expr>, n: int) -> Seq<ExprView>
    decreases args, n,
{
    if n <= 0 || n > args.len() {
        Seq::empty()
    } else {
        arguments_view(args, n - 1).push(expr_view(args[n - 1]))
    }
}

impl View for Expr {
    type V = ExprView;

    open spec fn view(&self) -> ExprView {
        expr_view(*self)
    }
}

/// A diagnostic of the parser.
pub struct ParserError {
    pub msg: String,
}

// ---------------------------------------------------------------------------
// The grammar as a function of the tokens
// ---------------------------------------------------------------------------
//
// Precedence levels, from tightest to loosest:
//   0  unary      := ("!" | "-") unary | primary
//   1  factor     := unary (("/" | "*") unary)*
//   2  term       := unary (("+" | "-") factor)*
//   3  comparison := term ((">" | ">=" | "<" | "<=") term)*
//   4  equality   := comparison (("!=" | "==") comparison)*

/// Whether a token of kind `k` is a binary operator of level `level`.
pub open spec fn binary_operator(level: nat, k: TokenType) -> bool {
    ||| level == 1 && (k == TokenType::Slash || k == TokenType::Star)
    ||| level == 2 && (k == TokenType::Minus || k == TokenType::Plus)
    ||| level == 3 && (k == TokenType::Greater || k == TokenType::GreaterEqual
        || k == TokenType::Less || k == TokenType::LessEqual)
    ||| level == 4 && (k == TokenType::BangEqual || k == TokenType::EqualEqual)
}

/// Level of the first operand of a binary level.
pub open spec fn left_level(level: nat) -> nat {
    if level == 2 {
        0
    } else {
        (level - 1) as nat
    }
}

/// Level of the operands after an operator of a binary level.
pub open spec fn right_level(level: nat) -> nat {
    (level - 1) as nat
}

/// The node of a failed primary expression.
pub open spec fn error_node() -> ExprView {
    ExprView::Error { msg: "Expect expression"@ }
}

/// A primary expression at `pos`, and the position after it.
pub open spec fn primary(toks: Seq<TokenView>, pos: int) -> (ExprView, int) {
    let t = toks[pos];
    if t.kind == TokenType::False {
        (ExprView::Literal { value: ConstantView::Bool(false) }, pos + 1)
    } else if t.kind == TokenType::True {
        (ExprView::Literal { value: ConstantView::Bool(true) }, pos + 1)
    } else if t.kind == TokenType::Nil {
        (ExprView::Literal { value: ConstantView::Nil }, pos + 1)
    } else if t.kind == TokenType::Number {
        (ExprView::Literal { value: ConstantView::Number(t.literal->0.number->0) }, pos + 1)
    } else if t.kind == TokenType::String {
        (ExprView::Literal { value: ConstantView::Str(t.literal->0.string->0) }, pos + 1)
    } else {
        (error_node(), pos)
    }
}

/// The expression of level `level` that starts at `pos`, and the position
/// after it.
pub open spec fn parse_level(toks: Seq<TokenView>, level: nat, pos: int) -> (ExprView, int)
    decreases toks.len() - pos, level, 1nat,
{
    if !(0 <= pos < toks.len()) {
        (error_node(), pos)
    } else if level == 0 {
        let k = toks[pos].kind;
        if k == TokenType::Bang || k == TokenType::Minus {
            let (operand, p) = parse_level(toks, 0, pos + 1);
            (ExprView::UnaryOp { operator: toks[pos], operand: Box::new(operand) }, p)
        } else {
            primary(toks, pos)
        }
    } else {
        let (left, p) = parse_level(toks, left_level(level), pos);
        if p < pos || p >= toks.len() {
            (left, p)
        } else {
            binary_rest(toks, level, p, left)
        }
    }
}

/// Folds to the left the operators of level `level` and their operands
/// that follow `left`, from `pos` on.
pub open spec fn binary_rest(toks: Seq<TokenView>, level: nat, pos: int, left: ExprView) -> (
    ExprView,
    int,
)
    decreases toks.len() - pos, level, 0nat,
{
    if 0 <= pos < toks.len() && binary_operator(level, toks[pos].kind) {
        let (right, q) = parse_level(toks, right_level(level), pos + 1);
        let e = ExprView::Binary { left: Box::new(left), operator: toks[pos], right: Box::new(right) };
        if q <= pos || q >= toks.len() {
            (e, q)
        } else {
            binary_rest(toks, level, q, e)
        }
    } else {
        (left, pos)
    }
}

/// The expression that starts at `pos`, and the position after it.
pub open spec fn expression(toks: Seq<TokenView>, pos: int) -> (ExprView, int) {
    parse_level(toks, 4, pos)
}

/// A token whose kind calls for a payload carries it.
pub open spec fn payload_present(t: TokenView) -> bool {
    &&& t.kind == TokenType::Number ==> t.literal is Some && t.literal->0.number is Some
    &&& t.kind == TokenType::String ==> t.literal is Some && t.literal->0.string is Some
}

/// A token sequence the parser accepts: it ends with the end-of-input
/// token, and literal tokens carry their payloads.
pub open spec fn valid_input(toks: Seq<TokenView>) -> bool {
    &&& toks.len() > 0
    &&& toks.last().kind == TokenType::Eof
    &&& forall|i: int| 0 <= i < toks.len() ==> payload_present(#[trigger] toks[i])
}

// ---------------------------------------------------------------------------
// The parser
// ---------------------------------------------------------------------------

/// Parses a token sequence; `current` is the index of the next token.
pub struct Parser {
    pub tokens: Vec<Token>,
    pub current: usize,
}

impl Parser {
    pub open spec fn wf(&self) -> bool {
        valid_input(token_views(self.tokens@)) && self.current < self.tokens.len()
    }

    pub open spec fn input(&self) -> Seq<TokenView> {
        token_views(self.tokens@)
    }

    pub fn new(tokens: Vec<Token>) -> (p: Self)
        ensures
            p.tokens == tokens,
            p.current == 0,
    {
        Self { tokens, current: 0 }
    }

    /// Parses one expression from `current` on, and moves `current` past it.
    pub fn parse(&mut self) -> (r: Expr)
        requires
            old(self).wf(),
        ensures
            final(self).wf(),
            final(self).tokens == old(self).tokens,
            r@ == expression(old(self).input(), old(self).current as int).0,
            final(self).current == expression(old(self).input(), old(self).current as int).1,
    {
        let (e, p) = self.expression(self.current);
        self.current = p;
        e
    }

    fn expression(&self, pos: usize) -> (r: (Expr, usize))
        requires
            self.wf_at(pos),
        ensures
            pos <= r.1 < self.tokens.len(),
            (r.0@, r.1 as int) == expression(self.input(), pos as int),
    {
        self.equality(pos)
    }

    pub open spec fn wf_at(&self, pos: usize) -> bool {
        valid_input(self.input()) && pos < self.tokens.len()
    }

    fn peek(&self, pos: usize) -> (r: &Token)
        requires
            pos < self.tokens.len(),
        ensures
            *r == self.tokens@[pos as int],
    {
        &self.tokens[pos]
    }

    fn is_at_end(&self, pos: usize) -> (r: bool)
        requires
            pos < self.tokens.len(),
        ensures
            r == (self.input()[pos as int].kind == TokenType::Eof),
    {
        self.peek(pos).token_type == TokenType::Eof
    }

    /// Whether the token at `pos` is of kind `kind` and not the end of input.
    fn check(&self, pos: usize, kind: TokenType) -> (r: bool)
        requires
            pos < self.tokens.len(),
        ensures
            r == (self.input()[pos as int].kind != TokenType::Eof && self.input()[pos as int].kind
                == kind),
    {
        if self.is_at_end(pos) {
            false
        } else {
            self.peek(pos).token_type == kind
        }
    }

    /// Whether the token at `pos` is one of `kinds` and not the end of input.
    fn match_token(&self, pos: usize, kinds: &[TokenType]) -> (r: bool)
        requires
            pos < self.tokens.len(),
        ensures
            r == (self.input()[pos as int].kind != TokenType::Eof && kinds@.contains(
                self.input()[pos as int].kind,
            )),
    {
        let mut i: usize = 0;
        while i < kinds.len()
            invariant
                i <= kinds@.len(),
                pos < self.tokens.len(),
                forall|j: int| 0 <= j < i ==> !self.check_spec(pos, kinds@[j]),
            decreases kinds.len() - i,
        {
            if self.check(pos, kinds[i]) {
                return true;
            }
            i = i + 1;
        }
        proof {
            if self.input()[pos as int].kind != TokenType::Eof && kinds@.contains(
                self.input()[pos as int].kind,
            ) {
                let j = choose|j: int|
                    0 <= j < kinds@.len() && kinds@[j] == self.input()[pos as int].kind;
                assert(!self.check_spec(pos, kinds@[j]));
            }
        }
        false
    }

    pub open spec fn check_spec(&self, pos: usize, kind: TokenType) -> bool {
        self.input()[pos as int].kind != TokenType::Eof && self.input()[pos as int].kind == kind
    }

    fn equality(&self, pos: usize) -> (r: (Expr, usize))
        requires
            self.wf_at(pos),
        ensures
            pos <= r.1 < self.tokens.len(),
            (r.0@, r.1 as int) == parse_level(self.input(), 4, pos as int),
        decreases self.tokens.len() - pos, 4nat, 1nat,
    {
        let (mut expr, mut p) = self.comparison(pos);
        while self.match_token(p, &[TokenType::BangEqual, TokenType::EqualEqual])
            invariant
                self.wf_at(p),
                pos <= p,
                binary_rest(self.input(), 4, p as int, expr@) == parse_level(
                    self.input(),
                    4,
                    pos as int,
                ),
            decreases self.tokens.len() - p,
        {
            let ghost before = expr@;
            let operator = self.peek(p).duplicate();
            proof {
                self.lemma_operator_not_last(p);
            }
            let (right, q) = self.comparison(p + 1);
            expr = Expr::Binary { left: Box::new(expr), operator, right: Box::new(right) };
            proof {
                assert(expr@ == ExprView::Binary {
                    left: Box::new(before),
                    operator: self.input()[p as int],
                    right: Box::new(right@),
                });
            }
            p = q;
        }
        (expr, p)
    }

    fn comparison(&self, pos: usize) -> (r: (Expr, usize))
        requires
            self.wf_at(pos),
        ensures
            pos <= r.1 < self.tokens.len(),
            (r.0@, r.1 as int) == parse_level(self.input(), 3, pos as int),
        decreases self.tokens.len() - pos, 3nat, 1nat,
    {
        let (mut expr, mut p) = self.term(pos);
        while self.match_token(
            p,
            &[TokenType::Greater, TokenType::GreaterEqual, TokenType::Less, TokenType::LessEqual],
        )
            invariant
                self.wf_at(p),
                pos <= p,
                binary_rest(self.input(), 3, p as int, expr@) == parse_level(
                    self.input(),
                    3,
                    pos as int,
                ),
            decreases self.tokens.len() - p,
        {
            let ghost before = expr@;
            let operator = self.peek(p).duplicate();
            proof {
                self.lemma_operator_not_last(p);
            }
            let (right, q) = self.term(p + 1);
            expr = Expr::Binary { left: Box::new(expr), operator, right: Box::new(right) };
            proof {
                assert(expr@ == ExprView::Binary {
                    left: Box::new(before),
                    operator: self.input()[p as int],
                    right: Box::new(right@),
                });
            }
            p = q;
        }
        (expr, p)
    }

    fn term(&self, pos: usize) -> (r: (Expr, usize))
        requires
            self.wf_at(pos),
        ensures
            pos <= r.1 < self.tokens.len(),
            (r.0@, r.1 as int) == parse_level(self.input(), 2, pos as int),
        decreases self.tokens.len() - pos, 2nat, 1nat,
    {
        let (mut expr, mut p) = self.unary(pos);
        while self.match_token(p, &[TokenType::Minus, TokenType::Plus])
            invariant
                self.wf_at(p),
                pos <= p,
                binary_rest(self.input(), 2, p as int, expr@) == parse_level(
                    self.input(),
                    2,
                    pos as int,
                ),
            decreases self.tokens.len() - p,
        {
            let ghost before = expr@;
            let operator = self.peek(p).duplicate();
            proof {
                self.lemma_operator_not_last(p);
            }
            let (right, q) = self.factor(p + 1);
            expr = Expr::Binary { left: Box::new(expr), operator, right: Box::new(right) };
            proof {
                assert(expr@ == ExprView::Binary {
                    left: Box::new(before),
                    operator: self.input()[p as int],
                    right: Box::new(right@),
                });
            }
            p = q;
        }
        (expr, p)
    }

    fn factor(&self, pos: usize) -> (r: (Expr, usize))
        requires
            self.wf_at(pos),
        ensures
            pos <= r.1 < self.tokens.len(),
            (r.0@, r.1 as int) == parse_level(self.input(), 1, pos as int),
        decreases self.tokens.len() - pos, 1nat, 1nat,
    {
        let (mut expr, mut p) = self.unary(pos);
        while self.match_token(p, &[TokenType::Slash, TokenType::Star])
            invariant
                self.wf_at(p),
                pos <= p,
                binary_rest(self.input(), 1, p as int, expr@) == parse_level(
                    self.input(),
                    1,
                    pos as int,
                ),
            decreases self.tokens.len() - p,
        {
            let ghost before = expr@;
            let operator = self.peek(p).duplicate();
            proof {
                self.lemma_operator_not_last(p);
            }
            let (right, q) = self.unary(p + 1);
            expr = Expr::Binary { left: Box::new(expr), operator, right: Box::new(right) };
            proof {
                assert(expr@ == ExprView::Binary {
                    left: Box::new(before),
                    operator: self.input()[p as int],
                    right: Box::new(right@),
                });
            }
            p = q;
        }
        (expr, p)
    }

    fn unary(&self, pos: usize) -> (r: (Expr, usize))
        requires
            self.wf_at(pos),
        ensures
            pos <= r.1 < self.tokens.len(),
            (r.0@, r.1 as int) == parse_level(self.input(), 0, pos as int),
        decreases self.tokens.len() - pos, 0nat, 1nat,
    {
        if self.match_token(pos, &[TokenType::Bang, TokenType::Minus]) {
            let operator = self.peek(pos).duplicate();
            proof {
                self.lemma_operator_not_last(pos);
            }
            let (operand, p) = self.unary(pos + 1);
            (Expr::UnaryOp { operator, operand: Box::new(operand) }, p)
        } else {
            self.primary(pos)
        }
    }

    fn primary(&self, pos: usize) -> (r: (Expr, usize))
        requires
            self.wf_at(pos),
        ensures
            pos <= r.1 < self.tokens.len(),
            (r.0@, r.1 as int) == primary(self.input(), pos as int),
    {
        let ghost t = self.input()[pos as int];
        proof {
            assert(payload_present(t));
        }
        let kind = self.peek(pos).token_type;
        if kind != TokenType::Eof {
            proof {
                self.lemma_operator_not_last(pos);
            }
        }
        if kind == TokenType::False {
            (Expr::Literal { value: Constant::Bool(false) }, pos + 1)
        } else if kind == TokenType::True {
            (Expr::Literal { value: Constant::Bool(true) }, pos + 1)
        } else if kind == TokenType::Nil {
            (Expr::Literal { value: Constant::Nil }, pos + 1)
        } else if kind == TokenType::Number {
            let digits = match &self.peek(pos).literal {
                Some(l) => match &l.number {
                    Some(d) => d.clone(),
                    None => String::new(),
                },
                None => String::new(),
            };
            (Expr::Literal { value: Constant::Number(digits) }, pos + 1)
        } else if kind == TokenType::String {
            let text = match &self.peek(pos).literal {
                Some(l) => match &l.string {
                    Some(d) => d.clone(),
                    None => String::new(),
                },
                None => String::new(),
            };
            (Expr::Literal { value: Constant::Str(text) }, pos + 1)
        } else {
            (Expr::Error { msg: "Expect expression".to_owned() }, pos)
        }
    }

    /// A token other than the end of input is not the last one.
    proof fn lemma_operator_not_last(&self, pos: usize)
        requires
            self.wf_at(pos),
            self.input()[pos as int].kind != TokenType::Eof,
        ensures
            pos + 1 < self.tokens.len(),
    {
    }
}

/// Whether `tokens` is an input the parser accepts.
pub fn valid_tokens(tokens: &Vec<Token>) -> (r: bool)
    ensures
        r == valid_input(token_views(tokens@)),
{
    let n = tokens.len();
    if n == 0 {
        return false;
    }
    if tokens[n - 1].token_type != TokenType::Eof {
        return false;
    }
    let mut i: usize = 0;
    while i < n
        invariant
            n == tokens.len(),
            i <= n,
            forall|j: int| 0 <= j < i ==> payload_present(#[trigger] token_views(tokens@)[j]),
        decreases n - i,
    {
        let t = &tokens[i];
        let ok = match t.token_type {
            TokenType::Number => match &t.literal {
                Some(l) => l.number.is_some(),
                None => false,
            },
            TokenType::String => match &t.literal {
                Some(l) => l.string.is_some(),
                None => false,
            },
            _ => true,
        };
        if !ok {
            proof {
                assert(!payload_present(token_views(tokens@)[i as int]));
            }
            return false;
        }
        i = i + 1;
    }
    true
}

// ---------------------------------------------------------------------------
// Laws of the parser
// ---------------------------------------------------------------------------

proof fn lemma_tokens_from_valid(src: Seq<char>, pos: int)
    requires
        0 <= pos <= src.len(),
    ensures
        valid_input(tokens_from(src, pos)),
        forall|i: int|
            0 <= i < tokens_from(src, pos).len() - 1 ==> (#[trigger] tokens_from(src, pos)[i]).kind
                != TokenType::Eof,
    decreases src.len() - pos,
{
    if pos < src.len() {
        lemma_step_advances(src, pos);
        let s = step(src, pos);
        lemma_tokens_from_valid(src, s.next);
        let rest = tokens_from(src, s.next);
        match s.token {
            Some(t) => {
                let c = src[pos];
                let k = keyword_kind(src.subrange(pos, s.next));
                assert(single_char_kind(c) is Some ==> single_char_kind(c)->0 != TokenType::Number
                    && single_char_kind(c)->0 != TokenType::String);
                assert(equal_prefix_kind(c, true) != TokenType::Number);
                assert(equal_prefix_kind(c, false) != TokenType::String);
                assert(k is Some ==> k->0 != TokenType::Number && k->0 != TokenType::String);
                assert(single_char_kind(c) is Some ==> single_char_kind(c)->0 != TokenType::Eof);
                assert(k is Some ==> k->0 != TokenType::Eof);
                assert(payload_present(t) && t.kind != TokenType::Eof);
                let all = seq![t] + rest;
                assert forall|i: int| 0 <= i < all.len() implies payload_present(#[trigger] all[i])
                    && (i < all.len() - 1 ==> all[i].kind != TokenType::Eof) by {
                    if i > 0 {
                        assert(all[i] == rest[i - 1]);
                    }
                }
                assert(all.last() == rest.last());
            },
            None => {},
        }
    }
}

/// The scanner's output on any source text is an input the parser accepts,
/// and its one end-of-input token is its last.
pub proof fn lemma_scan_is_valid_input(src: Seq<char>)
    ensures
        valid_input(scan(src)),
        forall|i: int| 0 <= i < scan(src).len() - 1 ==> (#[trigger] scan(src)[i]).kind != TokenType::Eof,
{
    lemma_tokens_from_valid(src, 0);
}

proof fn lemma_end_only_level(toks: Seq<TokenView>, level: nat, pos: int)
    requires
        0 <= pos < toks.len(),
        forall|i: int| 0 <= i < toks.len() ==> (#[trigger] toks[i]).kind == TokenType::Eof,
        level <= 4,
    ensures
        parse_level(toks, level, pos) == (error_node(), pos),
    decreases level,
{
    assert(toks[pos].kind == TokenType::Eof);
    if level > 0 {
        lemma_end_only_level(toks, left_level(level), pos);
        assert(!binary_operator(level, toks[pos].kind));
        assert(binary_rest(toks, level, pos, error_node()) == (error_node(), pos));
    } else {
        assert(primary(toks, pos) == (error_node(), pos));
    }
}

/// A token sequence made only of end-of-input tokens parses to the error
/// node "Expect expression", and nothing is consumed.
pub proof fn lemma_end_only_is_error(toks: Seq<TokenView>, pos: int)
    requires
        0 <= pos < toks.len(),
        forall|i: int| 0 <= i < toks.len() ==> (#[trigger] toks[i]).kind == TokenType::Eof,
    ensures
        expression(toks, pos) == (ExprView::Error { msg: "Expect expression"@ }, pos),
{
    lemma_end_only_level(toks, 4, pos);
}

} // verus!
