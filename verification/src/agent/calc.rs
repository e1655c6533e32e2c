//! The calculator's tokenizer and recursive-descent parser.
//!
//! Parsing builds an expression tree in which a parse error is a node: the
//! tree stops growing at the first error, so evaluating it from left to right
//! meets the errors (division by zero among them) in the order in which the
//! calculator reports them.
use vstd::prelude::*;

use crate::text::{
    chars_of, digits_value, extend, extend_str, is_ascii_ws, is_digit, is_digit_char, replace,
    string_of,
};

verus! {

// ===================================================================
// Tokens
// ===================================================================

/// A character that continues a number: an ASCII digit or a dot.
pub open spec fn is_num_char(c: char) -> bool {
    is_digit(c) || c == '.'
}

/// One of the operator characters `+-*/%()`.
pub open spec fn is_op_char(c: char) -> bool {
    c == '+' || c == '-' || c == '*' || c == '/' || c == '%' || c == '(' || c == ')'
}

/// The tokens of `s[i..]`, with the number being read so far in `cur`:
/// runs of digits and dots, single operator characters, and ASCII
/// whitespace skipped; any other character is refused.
pub open spec fn tokens_from(s: Seq<char>, i: int, cur: Seq<char>) -> Result<
    Seq<Seq<char>>,
    Seq<char>,
>
    decreases s.len() - i,
{
    if i < 0 || i >= s.len() {
        Ok(if cur.len() > 0 {
            seq![cur]
        } else {
            seq![]
        })
    } else if is_num_char(s[i]) {
        tokens_from(s, i + 1, cur.push(s[i]))
    } else {
        let done = if cur.len() > 0 {
            seq![cur]
        } else {
            Seq::<Seq<char>>::empty()
        };
        if is_ascii_ws(s[i]) {
            match tokens_from(s, i + 1, seq![]) {
                Ok(ts) => Ok(done + ts),
                Err(e) => Err(e),
            }
        } else if is_op_char(s[i]) {
            match tokens_from(s, i + 1, seq![]) {
                Ok(ts) => Ok(done + seq![seq![s[i]]] + ts),
                Err(e) => Err(e),
            }
        } else {
            Err("Bad char: "@.push(s[i]))
        }
    }
}

/// The tokens of an expression, or the message for its first bad character.
pub open spec fn tokens(s: Seq<char>) -> Result<Seq<Seq<char>>, Seq<char>> {
    tokens_from(s, 0, seq![])
}

/// The characters of `s[i..]` other than ASCII whitespace.
pub open spec fn strip_ascii_ws(s: Seq<char>, i: int) -> Seq<char>
    decreases s.len() - i,
{
    if i < 0 || i >= s.len() {
        seq![]
    } else if is_ascii_ws(s[i]) {
        strip_ascii_ws(s, i + 1)
    } else {
        seq![s[i]] + strip_ascii_ws(s, i + 1)
    }
}

/// A token is one operator character or a non-empty run of digits and dots.
pub open spec fn is_token(t: Seq<char>) -> bool {
    (t.len() == 1 && is_op_char(t[0])) || (t.len() > 0 && forall|j: int|
        0 <= j < t.len() ==> is_num_char(#[trigger] t[j]))
}

proof fn lemma_tokens_from(s: Seq<char>, i: int, cur: Seq<char>)
    requires
        0 <= i,
        forall|j: int| 0 <= j < cur.len() ==> is_num_char(#[trigger] cur[j]),
    ensures
        tokens_from(s, i, cur) matches Ok(ts) ==> crate::text::concat_all(ts) == cur + strip_ascii_ws(s, i)
            && forall|k: int| 0 <= k < ts.len() ==> is_token(#[trigger] ts[k]),
    decreases s.len() - i,
{
    let done = if cur.len() > 0 {
        seq![cur]
    } else {
        Seq::<Seq<char>>::empty()
    };
    assert(crate::text::concat_all(done) == cur) by {
        if cur.len() > 0 {
            assert(seq![cur].drop_last() =~= Seq::<Seq<char>>::empty());
            assert(seq![cur].last() == cur);
            assert(crate::text::concat_all(Seq::<Seq<char>>::empty()) == Seq::<char>::empty());
            assert(Seq::<char>::empty() + cur =~= cur);
        } else {
            assert(cur =~= Seq::<char>::empty());
        }
    }
    if i >= s.len() {
        assert(cur + Seq::<char>::empty() =~= cur);
        if cur.len() > 0 {
            assert(done[0] == cur);
        }
    } else if is_num_char(s[i]) {
        let c2 = cur.push(s[i]);
        assert forall|j: int| 0 <= j < c2.len() implies is_num_char(#[trigger] c2[j]) by {
            if j < cur.len() {
                assert(c2[j] == cur[j]);
            }
        }
        lemma_tokens_from(s, i + 1, c2);
        assert(c2 + strip_ascii_ws(s, i + 1) =~= cur + (seq![s[i]] + strip_ascii_ws(s, i + 1)));
    } else {
        lemma_tokens_from(s, i + 1, seq![]);
        let r = tokens_from(s, i + 1, seq![]);
        if let Ok(ts) = r {
            let rest = strip_ascii_ws(s, i + 1);
            assert(crate::text::concat_all(ts) =~= rest);
            if is_ascii_ws(s[i]) {
                crate::text::lemma_concat_append(done, ts);
                assert forall|k: int| 0 <= k < (done + ts).len() implies is_token(
                    #[trigger] (done + ts)[k],
                ) by {
                    if k < done.len() {
                        assert((done + ts)[k] == cur);
                    } else {
                        assert((done + ts)[k] == ts[k - done.len()]);
                    }
                }
            } else if is_op_char(s[i]) {
                let op = seq![seq![s[i]]];
                crate::text::lemma_concat_append(done + op, ts);
                crate::text::lemma_concat_append(done, op);
                assert(crate::text::concat_all(op) == seq![s[i]]) by {
                    assert(op.drop_last() =~= Seq::<Seq<char>>::empty());
                    assert(op.last() == seq![s[i]]);
                    assert(crate::text::concat_all(Seq::<Seq<char>>::empty()) == Seq::<char>::empty());
                    assert(Seq::<char>::empty() + seq![s[i]] =~= seq![s[i]]);
                }
                assert(cur + seq![s[i]] + rest =~= cur + (seq![s[i]] + rest));
                assert forall|k: int| 0 <= k < (done + op + ts).len() implies is_token(
                    #[trigger] (done + op + ts)[k],
                ) by {
                    if k < done.len() {
                        assert((done + op + ts)[k] == cur);
                    } else if k == done.len() {
                        assert((done + op + ts)[k] == seq![s[i]]);
                    } else {
                        assert((done + op + ts)[k] == ts[k - done.len() - 1]);
                    }
                }
            }
        }
    }
}

/// Tokenizing keeps every character but ASCII whitespace, in order, and
/// every token is an operator character or a run of digits and dots.
pub proof fn tokens_keep_all_but_whitespace(s: Seq<char>)
    ensures
        tokens(s) matches Ok(ts) ==> crate::text::concat_all(ts) == strip_ascii_ws(s, 0) && forall|k: int|
            0 <= k < ts.len() ==> is_token(#[trigger] ts[k]),
{
    lemma_tokens_from(s, 0, seq![]);
    assert(Seq::<char>::empty() + strip_ascii_ws(s, 0) =~= strip_ascii_ws(s, 0));
}

fn is_num_ch(c: char) -> (b: bool)
    ensures
        b == is_num_char(c),
{
    is_digit_char(c) || c == '.'
}

fn is_op_ch(c: char) -> (b: bool)
    ensures
        b == is_op_char(c),
{
    c == '+' || c == '-' || c == '*' || c == '/' || c == '%' || c == '(' || c == ')'
}

fn is_ascii_ws_ch(c: char) -> (b: bool)
    ensures
        b == is_ascii_ws(c),
{
    c == ' ' || c == '\t' || c == '\n' || c == '\x0C' || c == '\r'
}

pub open spec fn view_tokens(ts: Seq<Vec<char>>) -> Seq<Seq<char>> {
    ts.map_values(|t: Vec<char>| t@)
}

/// Splits an expression into tokens.
pub fn tokenize(s: &Vec<char>) -> (r: Result<Vec<Vec<char>>, Vec<char>>)
    ensures
        r matches Ok(ts) ==> tokens(s@) == Ok::<Seq<Seq<char>>, Seq<char>>(view_tokens(ts@)),
        r matches Err(e) ==> tokens(s@) == Err::<Seq<Seq<char>>, Seq<char>>(e@),
{
    let mut out: Vec<Vec<char>> = Vec::new();
    let mut cur: Vec<char> = Vec::new();
    let mut i: usize = 0;
    while i < s.len()
        invariant
            i <= s.len(),
            tokens(s@) == (match tokens_from(s@, i as int, cur@) {
                Ok(ts) => Ok(view_tokens(out@) + ts),
                Err(e) => Err(e),
            }),
        decreases s.len() - i,
    {
        let c = s[i];
        let ghost out0 = view_tokens(out@);
        let ghost cur0 = cur@;
        if is_num_ch(c) {
            cur.push(c);
            assert(tokens_from(s@, i as int, cur0) == tokens_from(s@, i + 1, cur@));
            assert(view_tokens(out@) == out0);
            assert(tokens(s@) == (match tokens_from(s@, i + 1, cur@) {
                Ok(ts) => Ok(view_tokens(out@) + ts),
                Err(e) => Err(e),
            }));
        } else {
            let ghost before = view_tokens(out@);
            let ghost old_cur = cur@;
            if cur.len() > 0 {
                out.push(cur);
                cur = Vec::new();
                assert(view_tokens(out@) =~= before + seq![old_cur]);
            } else {
                assert(view_tokens(out@) =~= before + Seq::<Seq<char>>::empty());
            }
            if is_ascii_ws_ch(c) {
                assert(cur@ == Seq::<char>::empty());
                proof {
                    let d = if old_cur.len() > 0 {
                        seq![old_cur]
                    } else {
                        Seq::<Seq<char>>::empty()
                    };
                    assert(tokens_from(s@, i as int, old_cur) == match tokens_from(
                        s@,
                        i + 1,
                        seq![],
                    ) {
                        Ok(ts) => Ok(d + ts),
                        Err(e) => Err(e),
                    });
                    match tokens_from(s@, i + 1, seq![]) {
                        Ok(ts) => {
                            assert(before + ((if old_cur.len() > 0 {
                                seq![old_cur]
                            } else {
                                Seq::<Seq<char>>::empty()
                            }) + ts) =~= view_tokens(out@) + ts);
                        },
                        Err(e) => {},
                    }
                }

                assert(tokens(s@) == (match tokens_from(s@, i + 1, cur@) {
                    Ok(ts) => Ok(view_tokens(out@) + ts),
                    Err(e) => Err(e),
                }));
            } else if is_op_ch(c) {
                assert(cur@ =~= Seq::<char>::empty());
                let mut op: Vec<char> = Vec::new();
                op.push(c);
                let ghost mid = view_tokens(out@);
                out.push(op);
                proof {
                    assert(view_tokens(out@) =~= mid + seq![seq![c]]);
                    let d = if old_cur.len() > 0 {
                        seq![old_cur]
                    } else {
                        Seq::<Seq<char>>::empty()
                    };
                    assert(tokens_from(s@, i as int, old_cur) == match tokens_from(
                        s@,
                        i + 1,
                        seq![],
                    ) {
                        Ok(ts) => Ok(d + seq![seq![c]] + ts),
                        Err(e) => Err(e),
                    });
                    match tokens_from(s@, i + 1, seq![]) {
                        Ok(ts) => {
                            assert(before + ((if old_cur.len() > 0 {
                                seq![old_cur]
                            } else {
                                Seq::<Seq<char>>::empty()
                            }) + seq![seq![c]] + ts) =~= view_tokens(out@) + ts);
                        },
                        Err(e) => {},
                    }
                }

                assert(tokens(s@) == (match tokens_from(s@, i + 1, cur@) {
                    Ok(ts) => Ok(view_tokens(out@) + ts),
                    Err(e) => Err(e),
                }));
            } else {
                let mut e: Vec<char> = Vec::new();
                extend_str(&mut e, "Bad char: ");
                e.push(c);
                return Err(e);
            }
        }
        i = i + 1;
    }
    let ghost before = view_tokens(out@);
    if cur.len() > 0 {
        let ghost c = cur@;
        out.push(cur);
        assert(view_tokens(out@) =~= before + seq![c]);
    } else {
        assert(before + Seq::<Seq<char>>::empty() =~= before);
    }
    Ok(out)
}

// ===================================================================
// Expression trees
// ===================================================================

/// Binary operators, in the calculator's two precedence levels.
#[derive(Clone, Copy, Debug, PartialEq, Eq, Structural)]
pub enum BinOp {
    Add,
    Sub,
    Mul,
    Div,
    Rem,
}

/// A parsed expression.
#[derive(Debug)]
pub enum Expr {
    /// A decimal literal that `f64` parses.
    Num(String),
    /// Unary minus.
    Neg(Box<Expr>),
    Bin(BinOp, Box<Expr>, Box<Expr>),
    /// A parenthesised expression with its closing parenthesis.
    Group(Box<Expr>),
    /// A parenthesised expression whose closing parenthesis is missing:
    /// evaluating it fails with "Missing )" once its content has been evaluated.
    Unclosed(Box<Expr>),
    /// A parse error with its message.
    Fail(String),
}

/// The mathematical model of an expression tree.
pub enum ExprModel {
    Num(Seq<char>),
    Neg(Box<ExprModel>),
    Bin(BinOp, Box<ExprModel>, Box<ExprModel>),
    Group(Box<ExprModel>),
    Unclosed(Box<ExprModel>),
    Fail(Seq<char>),
}

impl Expr {
    pub open spec fn model(&self) -> ExprModel
        decreases self,
    {
        match self {
            Expr::Num(s) => ExprModel::Num(s@),
            Expr::Neg(e) => ExprModel::Neg(Box::new(e.model())),
            Expr::Bin(o, a, b) => ExprModel::Bin(*o, Box::new(a.model()), Box::new(b.model())),
            Expr::Group(e) => ExprModel::Group(Box::new(e.model())),
            Expr::Unclosed(e) => ExprModel::Unclosed(Box::new(e.model())),
            Expr::Fail(s) => ExprModel::Fail(s@),
        }
    }
}

/// The number of dots in a sequence.
pub open spec fn count_dots(s: Seq<char>) -> nat
    decreases s.len(),
{
    if s.len() == 0 {
        0
    } else {
        count_dots(s.drop_last()) + if s.last() == '.' {
            1nat
        } else {
            0nat
        }
    }
}

/// A token that `str::parse::<f64>` accepts: digits with at most one dot and
/// at least one digit ("1.", ".5" and "7" are numbers, "." and "1.2.3" are not).
pub open spec fn is_number(t: Seq<char>) -> bool {
    &&& t.len() > 0
    &&& forall|k: int| 0 <= k < t.len() ==> is_num_char(#[trigger] t[k])
    &&& count_dots(t) <= 1
    &&& exists|k: int| 0 <= k < t.len() && is_digit(#[trigger] t[k])
}

fn number_token(t: &Vec<char>) -> (b: bool)
    ensures
        b == is_number(t@),
{
    if t.len() == 0 {
        return false;
    }
    let mut dots: usize = 0;
    let mut digit = false;
    let mut i: usize = 0;
    while i < t.len()
        invariant
            i <= t.len(),
            dots == count_dots(t@.take(i as int)),
            dots <= 1,
            forall|k: int| 0 <= k < i ==> is_num_char(#[trigger] t@[k]),
            digit == exists|k: int| 0 <= k < i && is_digit(#[trigger] t@[k]),
        decreases t.len() - i,
    {
        let c = t[i];
        if !is_num_ch(c) {
            return false;
        }
        assert(t@.take(i + 1).drop_last() =~= t@.take(i as int));
        if c == '.' {
            dots = dots + 1;
            if dots > 1 {
                proof {
                    lemma_count_dots_prefix(t@, i + 1);
                }
                return false;
            }
        }
        if is_digit_char(c) {
            digit = true;
        }
        i = i + 1;
    }
    assert(t@.take(t.len() as int) =~= t@);
    digit
}

proof fn lemma_count_dots_prefix(s: Seq<char>, i: int)
    requires
        0 <= i <= s.len(),
    ensures
        count_dots(s.take(i)) <= count_dots(s),
    decreases s.len() - i,
{
    if i < s.len() {
        lemma_count_dots_prefix(s, i + 1);
        assert(s.take(i + 1).drop_last() =~= s.take(i));
    } else {
        assert(s.take(i) =~= s);
    }
}

/// A parse result: the tree, the position after it, and whether parsing may go on.
pub type ParseModel = (ExprModel, int, bool);

pub open spec fn tok_is(t: Seq<Seq<char>>, p: int, c: char) -> bool {
    0 <= p < t.len() && t[p] == seq![c]
}

/// `expr := term (('+' | '-') term)*`
pub open spec fn parse_expr(t: Seq<Seq<char>>, p: int) -> ParseModel
    decreases t.len() - p, 3nat,
{
    if p < 0 || p > t.len() {
        (ExprModel::Fail("EOF"@), p, false)
    } else {
        let (r, pp, ok) = parse_term(t, p);
        if !ok || pp <= p || pp > t.len() {
            (r, pp, false)
        } else {
            parse_expr_rest(t, r, pp)
        }
    }
}

/// The `(('+' | '-') term)*` tail of an expression, after `acc`.
pub open spec fn parse_expr_rest(t: Seq<Seq<char>>, acc: ExprModel, pp: int) -> ParseModel
    decreases t.len() - pp, 2nat,
{
    if pp < 0 || pp >= t.len() {
        (acc, pp, true)
    } else if tok_is(t, pp, '+') || tok_is(t, pp, '-') {
        let op = if tok_is(t, pp, '+') {
            BinOp::Add
        } else {
            BinOp::Sub
        };
        let (v, np, ok) = parse_term(t, pp + 1);
        let node = ExprModel::Bin(op, Box::new(acc), Box::new(v));
        if !ok || np <= pp || np > t.len() {
            (node, np, false)
        } else {
            parse_expr_rest(t, node, np)
        }
    } else {
        (acc, pp, true)
    }
}

/// `term := factor (('*' | '/' | '%') factor)*`
pub open spec fn parse_term(t: Seq<Seq<char>>, p: int) -> ParseModel
    decreases t.len() - p, 1nat,
{
    if p < 0 || p > t.len() {
        (ExprModel::Fail("EOF"@), p, false)
    } else {
        let (r, pp, ok) = parse_factor(t, p);
        if !ok || pp <= p || pp > t.len() {
            (r, pp, false)
        } else {
            parse_term_rest(t, r, pp)
        }
    }
}

/// The `(('*' | '/' | '%') factor)*` tail of a term, after `acc`.
pub open spec fn parse_term_rest(t: Seq<Seq<char>>, acc: ExprModel, pp: int) -> ParseModel
    decreases t.len() - pp, 0nat,
{
    if pp < 0 || pp >= t.len() {
        (acc, pp, true)
    } else if tok_is(t, pp, '*') || tok_is(t, pp, '/') || tok_is(t, pp, '%') {
        let op = if tok_is(t, pp, '*') {
            BinOp::Mul
        } else if tok_is(t, pp, '/') {
            BinOp::Div
        } else {
            BinOp::Rem
        };
        let (v, np, ok) = parse_factor(t, pp + 1);
        let node = ExprModel::Bin(op, Box::new(acc), Box::new(v));
        if !ok || np <= pp || np > t.len() {
            (node, np, false)
        } else {
            parse_term_rest(t, node, np)
        }
    } else {
        (acc, pp, true)
    }
}

/// `factor := '(' expr ')' | '-' factor | number`
pub open spec fn parse_factor(t: Seq<Seq<char>>, p: int) -> ParseModel
    decreases t.len() - p, 0nat,
{
    if p < 0 || p >= t.len() {
        (ExprModel::Fail("EOF"@), p, false)
    } else if tok_is(t, p, '(') {
        let (r, np, ok) = parse_expr(t, p + 1);
        if ok && tok_is(t, np, ')') {
            (ExprModel::Group(Box::new(r)), np + 1, true)
        } else {
            (ExprModel::Unclosed(Box::new(r)), np, false)
        }
    } else if tok_is(t, p, '-') {
        let (v, np, ok) = parse_factor(t, p + 1);
        (ExprModel::Neg(Box::new(v)), np, ok)
    } else if is_number(t[p]) {
        (ExprModel::Num(t[p]), p + 1, true)
    } else {
        (ExprModel::Fail("Bad: "@ + t[p]), p + 1, false)
    }
}

/// A token made of decimal digits only.
pub open spec fn is_digits(s: Seq<char>) -> bool {
    s.len() > 0 && forall|k: int| 0 <= k < s.len() ==> is_digit(#[trigger] s[k])
}

/// The whole-number value of a tree, where it has one: numbers written with
/// digits, negation, brackets, sums, differences and products.
pub open spec fn int_value(m: ExprModel) -> Option<int>
    decreases m,
{
    match m {
        ExprModel::Num(s) => if is_digits(s) {
            Some(digits_value(s) as int)
        } else {
            None
        },
        ExprModel::Neg(e) => match int_value(*e) {
            Some(v) => Some(-v),
            None => None,
        },
        ExprModel::Group(e) => int_value(*e),
        ExprModel::Bin(op, a, b) => match (int_value(*a), int_value(*b)) {
            (Some(x), Some(y)) => match op {
                BinOp::Add => Some(x + y),
                BinOp::Sub => Some(x - y),
                BinOp::Mul => Some(x * y),
                _ => None,
            },
            _ => None,
        },
        _ => None,
    }
}

/// Whole numbers joined by `+` and `-`: a number, then pairs of a sign and a
/// number.
pub open spec fn is_sum(t: Seq<Seq<char>>) -> bool {
    &&& t.len() % 2 == 1
    &&& forall|k: int| 0 <= k < t.len() && k % 2 == 0 ==> is_digits(#[trigger] t[k])
    &&& forall|k: int|
        0 <= k < t.len() && k % 2 == 1 ==> #[trigger] t[k] == seq!['+'] || t[k] == seq!['-']
}

/// The arithmetic value of such a sum, worked out from left to right.
pub open spec fn sum_value(t: Seq<Seq<char>>) -> int
    decreases t.len(),
{
    if t.len() < 3 {
        if t.len() == 1 {
            digits_value(t[0]) as int
        } else {
            0
        }
    } else {
        let r = sum_value(t.take(t.len() - 2));
        if t[t.len() - 2] == seq!['+'] {
            r + digits_value(t.last())
        } else {
            r - digits_value(t.last())
        }
    }
}

/// The operator that a one-character token writes.
pub open spec fn op_for(c: char) -> BinOp {
    if c == '+' {
        BinOp::Add
    } else if c == '-' {
        BinOp::Sub
    } else if c == '*' {
        BinOp::Mul
    } else if c == '/' {
        BinOp::Div
    } else {
        BinOp::Rem
    }
}

proof fn lemma_digits_no_dots(s: Seq<char>)
    requires
        forall|k: int| 0 <= k < s.len() ==> is_digit(#[trigger] s[k]),
    ensures
        count_dots(s) == 0,
    decreases s.len(),
{
    if s.len() > 0 {
        let h = s.drop_last();
        assert forall|k: int| 0 <= k < h.len() implies is_digit(#[trigger] h[k]) by {
            assert(h[k] == s[k]);
        }
        lemma_digits_no_dots(h);
        assert(is_digit(s[s.len() - 1]));
    }
}

proof fn lemma_digits_number(s: Seq<char>)
    requires
        is_digits(s),
    ensures
        is_number(s),
        s != seq!['('],
        s != seq!['-'],
        s != seq!['+'],
        s != seq!['*'],
        s != seq!['/'],
        s != seq!['%'],
        s != seq![')'],
{
    lemma_digits_no_dots(s);
    assert(is_digit(s[0]));
    assert forall|k: int| 0 <= k < s.len() implies is_num_char(#[trigger] s[k]) by {
        assert(is_digit(s[k]));
    }
}

proof fn lemma_number_not_op(s: Seq<char>)
    requires
        is_number(s),
    ensures
        s != seq!['('],
        s != seq!['-'],
        s != seq!['+'],
        s != seq!['*'],
        s != seq!['/'],
        s != seq!['%'],
        s != seq![')'],
{
    assert(is_num_char(s[0]));
}

/// A number followed by nothing or by `+` or `-` is a term by itself.
proof fn lemma_number_term(t: Seq<Seq<char>>, p: int)
    requires
        0 <= p < t.len(),
        is_number(t[p]),
        p + 1 == t.len() || t[p + 1] == seq!['+'] || t[p + 1] == seq!['-'],
    ensures
        parse_term(t, p) == (ExprModel::Num(t[p]), p + 1, true),
{
    lemma_number_not_op(t[p]);
    assert(parse_factor(t, p) == (ExprModel::Num(t[p]), p + 1, true));
    if p + 1 < t.len() {
        assert(t[p + 1][0] == '+' || t[p + 1][0] == '-');
        assert(!tok_is(t, p + 1, '*'));
        assert(!tok_is(t, p + 1, '/'));
        assert(!tok_is(t, p + 1, '%'));
    }
}

proof fn lemma_sum_rest(t: Seq<Seq<char>>, acc: ExprModel, pp: int)
    requires
        is_sum(t),
        1 <= pp <= t.len(),
        pp % 2 == 1,
        int_value(acc) == Some(sum_value(t.take(pp))),
    ensures
        parse_expr_rest(t, acc, pp).1 == t.len(),
        parse_expr_rest(t, acc, pp).2,
        int_value(parse_expr_rest(t, acc, pp).0) == Some(sum_value(t)),
    decreases t.len() - pp,
{
    if pp >= t.len() {
        assert(t.take(pp) =~= t);
    } else {
        assert(t[pp] == seq!['+'] || t[pp] == seq!['-']);
        assert(is_digits(t[pp + 1]));
        lemma_digits_number(t[pp + 1]);
        if pp + 2 < t.len() {
            assert(t[pp + 2] == seq!['+'] || t[pp + 2] == seq!['-']);
        }
        lemma_number_term(t, pp + 1);
        let plus = tok_is(t, pp, '+');
        assert(plus <==> t[pp] == seq!['+']);
        assert(t[pp] == seq!['-'] ==> !plus) by {
            if t[pp] == seq!['-'] {
                assert(t[pp][0] == '-');
            }
        }
        let op = if plus {
            BinOp::Add
        } else {
            BinOp::Sub
        };
        let node = ExprModel::Bin(op, Box::new(acc), Box::new(ExprModel::Num(t[pp + 1])));
        let u = t.take(pp + 2);
        assert(u.take(pp) =~= t.take(pp));
        assert(u[u.len() - 2] == t[pp]);
        assert(u.last() == t[pp + 1]);
        assert(u.len() == pp + 2);
        assert(u.take(u.len() - 2) =~= t.take(pp));
        let dv = digits_value(t[pp + 1]) as int;
        assert(int_value(ExprModel::Num(t[pp + 1])) == Some(dv));
        let r = sum_value(t.take(pp));
        if plus {
            assert(int_value(node) == Some(r + dv));
            assert(sum_value(u) == r + dv);
        } else {
            assert(int_value(node) == Some(r - dv));
            assert(sum_value(u) == r - dv);
        }
        lemma_sum_rest(t, node, pp + 2);
    }
}

/// Whole numbers joined by `+` and `-` parse into a tree whose value is the
/// arithmetic sum: each `+` adds the next number and each `-` subtracts it,
/// from left to right, and every token is read. "10 - 3" is worth 7.
pub proof fn sums_parse_to_their_value(t: Seq<Seq<char>>)
    requires
        is_sum(t),
    ensures
        parse_expr(t, 0).1 == t.len(),
        parse_expr(t, 0).2,
        int_value(parse_expr(t, 0).0) == Some(sum_value(t)),
{
    assert(is_digits(t[0]));
    lemma_digits_number(t[0]);
    if t.len() > 1 {
        assert(t[1] == seq!['+'] || t[1] == seq!['-']);
    }
    lemma_number_term(t, 0);
    assert(t.take(1).len() == 1);
    assert(t.take(1)[0] == t[0]);
    lemma_sum_rest(t, ExprModel::Num(t[0]), 1);
}

/// Two numbers around an operator parse into that operator applied to them,
/// the first number on the left.
pub proof fn an_operator_joins_its_two_numbers(x: Seq<char>, c: char, y: Seq<char>)
    requires
        is_number(x),
        is_number(y),
        c == '+' || c == '-' || c == '*' || c == '/' || c == '%',
    ensures
        parse_expr(seq![x, seq![c], y], 0) == (
            ExprModel::Bin(op_for(c), Box::new(ExprModel::Num(x)), Box::new(ExprModel::Num(y))),
            3int,
            true,
        ),
{
    let t = seq![x, seq![c], y];
    lemma_number_not_op(x);
    lemma_number_not_op(y);
    assert(t[0] == x && t[1] == seq![c] && t[2] == y);
    assert(tok_is(t, 1, c));
    assert(forall|d: char| tok_is(t, 1, d) <==> d == c) by {
        assert forall|d: char| tok_is(t, 1, d) implies d == c by {
            assert(t[1][0] == d);
        }
    }
    assert(parse_factor(t, 0) == (ExprModel::Num(x), 1int, true));
    assert(parse_factor(t, 2) == (ExprModel::Num(y), 3int, true));
    assert(parse_term_rest(t, ExprModel::Num(y), 3) == (ExprModel::Num(y), 3int, true));
    if c == '+' || c == '-' {
        lemma_number_term(t, 0);
        lemma_number_term(t, 2);
    } else {
        let node = ExprModel::Bin(op_for(c), Box::new(ExprModel::Num(x)), Box::new(ExprModel::Num(y)));
        assert(parse_term_rest(t, node, 3) == (node, 3int, true));
        assert(parse_term_rest(t, ExprModel::Num(x), 1) == (node, 3int, true));
        assert(parse_term(t, 0) == (node, 3int, true));
        assert(parse_expr_rest(t, node, 3) == (node, 3int, true));
    }
}

/// Products bind before sums: "a - b * c" is worth a - (b × c), and
/// "a * b - c" is worth (a × b) - c.
pub proof fn products_bind_before_sums(a: Seq<char>, b: Seq<char>, c: Seq<char>)
    requires
        is_digits(a),
        is_digits(b),
        is_digits(c),
    ensures
        int_value(parse_expr(seq![a, seq!['-'], b, seq!['*'], c], 0).0) == Some(
            digits_value(a) - digits_value(b) * digits_value(c),
        ),
        int_value(parse_expr(seq![a, seq!['*'], b, seq!['-'], c], 0).0) == Some(
            (digits_value(a) * digits_value(b)) - digits_value(c),
        ),
{
    lemma_digits_number(a);
    lemma_digits_number(b);
    lemma_digits_number(c);
    let (na, nb, nc) = (ExprModel::Num(a), ExprModel::Num(b), ExprModel::Num(c));
    assert(int_value(na) == Some(digits_value(a) as int));
    assert(int_value(nb) == Some(digits_value(b) as int));
    assert(int_value(nc) == Some(digits_value(c) as int));
    let t = seq![a, seq!['-'], b, seq!['*'], c];
    assert(t[0] == a && t[1] == seq!['-'] && t[2] == b && t[3] == seq!['*'] && t[4] == c);
    assert(tok_is(t, 1, '-') && !tok_is(t, 1, '+') && !tok_is(t, 1, '*') && !tok_is(t, 1, '/')
        && !tok_is(t, 1, '%')) by {
        assert(t[1][0] == '-');
    }
    assert(tok_is(t, 3, '*')) by {
        assert(t[3][0] == '*');
    }
    lemma_number_term(t, 0);
    assert(parse_factor(t, 2) == (nb, 3int, true));
    assert(parse_factor(t, 4) == (nc, 5int, true));
    let bc = ExprModel::Bin(BinOp::Mul, Box::new(nb), Box::new(nc));
    assert(parse_term_rest(t, bc, 5) == (bc, 5int, true));
    assert(parse_term_rest(t, nb, 3) == (bc, 5int, true));
    assert(parse_term(t, 2) == (bc, 5int, true));
    let whole = ExprModel::Bin(BinOp::Sub, Box::new(na), Box::new(bc));
    assert(parse_expr_rest(t, whole, 5) == (whole, 5int, true));
    assert(parse_expr_rest(t, na, 1) == (whole, 5int, true));
    assert(int_value(bc) == Some((digits_value(b) * digits_value(c)) as int));

    let u = seq![a, seq!['*'], b, seq!['-'], c];
    assert(u[0] == a && u[1] == seq!['*'] && u[2] == b && u[3] == seq!['-'] && u[4] == c);
    assert(tok_is(u, 1, '*')) by {
        assert(u[1][0] == '*');
    }
    assert(tok_is(u, 3, '-') && !tok_is(u, 3, '+') && !tok_is(u, 3, '*') && !tok_is(u, 3, '/')
        && !tok_is(u, 3, '%')) by {
        assert(u[3][0] == '-');
    }
    assert(parse_factor(u, 0) == (na, 1int, true));
    assert(parse_factor(u, 2) == (nb, 3int, true));
    let ab = ExprModel::Bin(BinOp::Mul, Box::new(na), Box::new(nb));
    assert(parse_term_rest(u, ab, 3) == (ab, 3int, true));
    assert(parse_term_rest(u, na, 1) == (ab, 3int, true));
    assert(parse_term(u, 0) == (ab, 3int, true));
    lemma_number_term(u, 4);
    let whole2 = ExprModel::Bin(BinOp::Sub, Box::new(ab), Box::new(nc));
    assert(parse_expr_rest(u, whole2, 5) == (whole2, 5int, true));
    assert(parse_expr_rest(u, ab, 3) == (whole2, 5int, true));
    assert(int_value(ab) == Some((digits_value(a) * digits_value(b)) as int));
}

fn tok_eq(t: &Vec<Vec<char>>, p: usize, c: char) -> (b: bool)
    ensures
        b == tok_is(view_tokens(t@), p as int, c),
{
    if p >= t.len() {
        return false;
    }
    let tok = &t[p];
    let r = tok.len() == 1 && tok[0] == c;
    proof {
        if r {
            assert(tok@ =~= seq![c]);
        }
        if tok@ == seq![c] {
            assert(tok@[0] == c);
        }
    }
    r
}

fn fail(msg: &str) -> (e: Expr)
    ensures
        e.model() == ExprModel::Fail(msg@),
{
    let c = chars_of(msg);
    Expr::Fail(string_of(&c))
}

/// Parses an expression from token `p` on.
pub fn expr_at(t: &Vec<Vec<char>>, p: usize) -> (r: (Expr, usize, bool))
    requires
        p <= t.len(),
    ensures
        (r.0.model(), r.1 as int, r.2) == parse_expr(view_tokens(t@), p as int),
        r.1 <= t.len(),
        r.1 >= p,
        r.2 ==> r.1 > p,
    decreases t.len() - p, 3nat,
{
    let (r, pp, ok) = term_at(t, p);
    if !ok {
        return (r, pp, false);
    }
    expr_rest(t, r, pp)
}

fn expr_rest(t: &Vec<Vec<char>>, acc: Expr, pp: usize) -> (r: (Expr, usize, bool))
    requires
        pp <= t.len(),
    ensures
        (r.0.model(), r.1 as int, r.2) == parse_expr_rest(view_tokens(t@), acc.model(), pp as int),
        pp <= r.1 <= t.len(),
    decreases t.len() - pp, 2nat,
{
    if pp >= t.len() {
        return (acc, pp, true);
    }
    let plus = tok_eq(t, pp, '+');
    let minus = tok_eq(t, pp, '-');
    if plus || minus {
        let op = if plus {
            BinOp::Add
        } else {
            BinOp::Sub
        };
        let (v, np, ok) = term_at(t, pp + 1);
        let node = Expr::Bin(op, Box::new(acc), Box::new(v));
        if !ok {
            return (node, np, false);
        }
        expr_rest(t, node, np)
    } else {
        (acc, pp, true)
    }
}

/// Parses a term from token `p` on.
pub fn term_at(t: &Vec<Vec<char>>, p: usize) -> (r: (Expr, usize, bool))
    requires
        p <= t.len(),
    ensures
        (r.0.model(), r.1 as int, r.2) == parse_term(view_tokens(t@), p as int),
        r.1 <= t.len(),
        r.1 >= p,
        r.2 ==> r.1 > p,
    decreases t.len() - p, 1nat,
{
    let (r, pp, ok) = factor_at(t, p);
    if !ok {
        return (r, pp, false);
    }
    term_rest(t, r, pp)
}

fn term_rest(t: &Vec<Vec<char>>, acc: Expr, pp: usize) -> (r: (Expr, usize, bool))
    requires
        pp <= t.len(),
    ensures
        (r.0.model(), r.1 as int, r.2) == parse_term_rest(view_tokens(t@), acc.model(), pp as int),
        pp <= r.1 <= t.len(),
    decreases t.len() - pp, 0nat,
{
    if pp >= t.len() {
        return (acc, pp, true);
    }
    let mul = tok_eq(t, pp, '*');
    let div = tok_eq(t, pp, '/');
    let rem = tok_eq(t, pp, '%');
    if mul || div || rem {
        let op = if mul {
            BinOp::Mul
        } else if div {
            BinOp::Div
        } else {
            BinOp::Rem
        };
        let (v, np, ok) = factor_at(t, pp + 1);
        let node = Expr::Bin(op, Box::new(acc), Box::new(v));
        if !ok {
            return (node, np, false);
        }
        term_rest(t, node, np)
    } else {
        (acc, pp, true)
    }
}

/// Parses a factor from token `p` on.
pub fn factor_at(t: &Vec<Vec<char>>, p: usize) -> (r: (Expr, usize, bool))
    requires
        p <= t.len(),
    ensures
        (r.0.model(), r.1 as int, r.2) == parse_factor(view_tokens(t@), p as int),
        r.1 <= t.len(),
        r.1 >= p,
        r.2 ==> r.1 > p,
    decreases t.len() - p, 0nat,
{
    if p >= t.len() {
        return (fail("EOF"), p, false);
    }
    if tok_eq(t, p, '(') {
        let (r, np, ok) = expr_at(t, p + 1);
        if ok && tok_eq(t, np, ')') {
            (Expr::Group(Box::new(r)), np + 1, true)
        } else {
            (Expr::Unclosed(Box::new(r)), np, false)
        }
    } else if tok_eq(t, p, '-') {
        let (v, np, ok) = factor_at(t, p + 1);
        (Expr::Neg(Box::new(v)), np, ok)
    } else if number_token(&t[p]) {
        let s = string_of(&t[p]);
        (Expr::Num(s), p + 1, true)
    } else {
        let mut m: Vec<char> = Vec::new();
        extend_str(&mut m, "Bad: ");
        extend(&mut m, &t[p]);
        (Expr::Fail(string_of(&m)), p + 1, false)
    }
}

// ===================================================================
// From an expression's text to its tree
// ===================================================================

/// The calculator's rewriting of `×`, `÷` and `^` before tokenizing.
pub open spec fn normalize(e: Seq<char>) -> Seq<char> {
    replace(replace(replace(e, "×"@, "*"@), "÷"@, "/"@), "^"@, "**"@)
}

/// The tree that the calculator evaluates for the text `e`: a bad character
/// is an error node of its own, otherwise the expression parsed from the first
/// token (later tokens are ignored).
pub open spec fn calc_tree(e: Seq<char>) -> ExprModel {
    match tokens(normalize(e)) {
        Err(m) => ExprModel::Fail(m),
        Ok(ts) => parse_expr(ts, 0).0,
    }
}

/// Parses the text of a calculation into the tree that the calculator evaluates.
pub fn parse_calculation(e: &Vec<char>) -> (r: Expr)
    ensures
        r.model() == calc_tree(e@),
{
    proof {
        reveal_strlit("×");
        reveal_strlit("÷");
        reveal_strlit("^");
    }
    let a = crate::text::replace_str(e, "×", "*");
    let b = crate::text::replace_str(&a, "÷", "/");
    let c = crate::text::replace_str(&b, "^", "**");
    match tokenize(&c) {
        Err(m) => Expr::Fail(string_of(&m)),
        Ok(ts) => {
            let (r, _, _) = expr_at(&ts, 0);
            r
        },
    }
}

} // verus!
