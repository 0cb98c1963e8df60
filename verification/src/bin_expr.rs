use vstd::prelude::*;
use vstd::string::StringExecFns;

verus! {

broadcast use vstd::seq_lib::group_seq_properties;

/// A binary operator of the expression grammar.
#[derive(Debug, Clone, Copy, PartialEq, Eq, Structural)]
pub enum Op {
    Add,
    Sub,
    Mul,
    Div,
}

/// `expr = expr op expr / term`
#[derive(Debug, PartialEq, Eq)]
pub enum Expr {
    BinOp(Box<Expr>, Op, Box<Expr>),
    Term(Term),
}

/// `term = integer / "(" expr ")"`
#[derive(Debug, PartialEq, Eq)]
pub enum Term {
    Parenthesized(Box<Expr>),
    Integer(usize),
}

/// Outcome of a parser: the value and the position behind it, no match, or
/// an integer literal too large for `usize`.
#[derive(Debug, PartialEq, Eq)]
pub enum Parsed<T> {
    Done(T, usize),
    Miss,
    Overflow,
}

pub open spec fn is_digit(b: u8) -> bool {
    48 <= b && b <= 57
}

pub open spec fn is_op_byte(b: u8) -> bool {
    b == 43 || b == 45 || b == 42 || b == 47
}

/// The operator written as the byte `b`.
pub open spec fn op_of(b: u8) -> Op {
    if b == 43 {
        Op::Add
    } else if b == 45 {
        Op::Sub
    } else if b == 42 {
        Op::Mul
    } else {
        Op::Div
    }
}

/// How tightly an operator binds.
pub open spec fn prec(op: Op) -> nat {
    match op {
        Op::Add | Op::Sub => 1,
        Op::Mul | Op::Div => 2,
    }
}

/// The number written in decimal by the digits `s`.
pub open spec fn digits_value(s: Seq<u8>) -> nat
    decreases s.len(),
{
    if s.len() == 0 {
        0
    } else {
        digits_value(s.drop_last()) * 10 + (s.last() - 48) as nat
    }
}

/// The end of the run of digits that starts at `pos`.
pub open spec fn digit_end(s: Seq<u8>, pos: int) -> int
    decreases s.len() - pos,
{
    if 0 <= pos < s.len() && is_digit(s[pos]) {
        digit_end(s, pos + 1)
    } else {
        pos
    }
}

/// The end of the run of spaces that starts at `pos`.
pub open spec fn space_end(s: Seq<u8>, pos: int) -> int
    decreases s.len() - pos,
{
    if 0 <= pos < s.len() && s[pos] == 32 {
        space_end(s, pos + 1)
    } else {
        pos
    }
}

/// `integer`: the longest run of digits at `pos`, at least one.
pub open spec fn spec_integer(s: Seq<u8>, pos: int) -> Parsed<usize> {
    let e = digit_end(s, pos);
    if e <= pos {
        Parsed::Miss
    } else if digits_value(s.subrange(pos, e)) > usize::MAX {
        Parsed::Overflow
    } else {
        Parsed::Done(digits_value(s.subrange(pos, e)) as usize, e as usize)
    }
}

/// `space`: one space or more at `pos`; the position behind them.
pub open spec fn spec_space(s: Seq<u8>, pos: int) -> Option<usize> {
    if space_end(s, pos) > pos {
        Some(space_end(s, pos) as usize)
    } else {
        None
    }
}

/// `op`: the operator character at `pos`.
pub open spec fn spec_op(s: Seq<u8>, pos: int) -> Option<Op> {
    if 0 <= pos < s.len() && is_op_byte(s[pos]) {
        Some(op_of(s[pos]))
    } else {
        None
    }
}

pub proof fn lemma_digit_end(s: Seq<u8>, pos: int)
    requires
        0 <= pos <= s.len(),
    ensures
        pos <= digit_end(s, pos) <= s.len(),
        forall|i: int| pos <= i < digit_end(s, pos) ==> is_digit(#[trigger] s[i]),
        digit_end(s, pos) == s.len() || !is_digit(s[digit_end(s, pos)]),
    decreases s.len() - pos,
{
    if pos < s.len() && is_digit(s[pos]) {
        lemma_digit_end(s, pos + 1);
    }
}

pub proof fn lemma_space_end(s: Seq<u8>, pos: int)
    requires
        0 <= pos <= s.len(),
    ensures
        pos <= space_end(s, pos) <= s.len(),
        forall|i: int| pos <= i < space_end(s, pos) ==> #[trigger] s[i] == 32,
        space_end(s, pos) == s.len() || s[space_end(s, pos)] != 32,
    decreases s.len() - pos,
{
    if pos < s.len() && s[pos] == 32 {
        lemma_space_end(s, pos + 1);
    }
}

/// A longer run of digits never stands for a smaller number.
pub proof fn lemma_digits_value_prefix(s: Seq<u8>, i: int, j: int)
    requires
        0 <= i <= j <= s.len(),
        forall|k: int| 0 <= k < s.len() ==> is_digit(#[trigger] s[k]),
    ensures
        digits_value(s.take(i)) <= digits_value(s.take(j)),
    decreases j - i,
{
    if i < j {
        lemma_digits_value_prefix(s, i, j - 1);
        assert(s.take(j).drop_last() == s.take(j - 1));
    }
}

/// Reads the operator at `pos`.
pub fn op(s: &[u8], pos: usize) -> (r: Option<Op>)
    ensures
        r == spec_op(s@, pos as int),
        r is Some ==> pos < s@.len(),
{
    if pos < s.len() {
        let b = s[pos];
        if b == 43 {
            Some(Op::Add)
        } else if b == 45 {
            Some(Op::Sub)
        } else if b == 42 {
            Some(Op::Mul)
        } else if b == 47 {
            Some(Op::Div)
        } else {
            None
        }
    } else {
        None
    }
}

/// Skips one space or more at `pos`.
pub fn space(s: &[u8], pos: usize) -> (r: Option<usize>)
    requires
        pos <= s@.len(),
    ensures
        r == spec_space(s@, pos as int),
        r matches Some(e) ==> pos < e <= s@.len(),
{
    let mut i = pos;
    while i < s.len() && s[i] == 32
        invariant
            pos <= i <= s@.len(),
            space_end(s@, pos as int) == space_end(s@, i as int),
        decreases s@.len() - i,
    {
        i = i + 1;
    }
    proof {
        lemma_space_end(s@, pos as int);
    }
    if i > pos {
        Some(i)
    } else {
        None
    }
}

/// Reads the longest run of decimal digits at `pos` as a number.
pub fn integer(s: &[u8], pos: usize) -> (r: Parsed<usize>)
    requires
        pos <= s@.len(),
    ensures
        r == spec_integer(s@, pos as int),
        r matches Parsed::Done(_, e) ==> pos < e <= s@.len(),
{
    let ghost end = digit_end(s@, pos as int);
    proof {
        lemma_digit_end(s@, pos as int);
    }
    let ghost run = s@.subrange(pos as int, end);
    let mut i = pos;
    let mut n: usize = 0;
    while i < s.len() && 48 <= s[i] && s[i] <= 57
        invariant
            pos <= i <= end,
            end <= s@.len(),
            end == digit_end(s@, pos as int),
            end == digit_end(s@, i as int),
            run == s@.subrange(pos as int, end),
            forall|k: int| pos <= k < end ==> is_digit(#[trigger] s@[k]),
            n == digits_value(run.take(i - pos)),
        decreases s@.len() - i,
    {
        proof {
            lemma_digit_end(s@, i + 1);
            assert(digit_end(s@, i as int) == digit_end(s@, i + 1));
        }
        assert(run.take(i - pos + 1).drop_last() == run.take(i - pos));
        assert(run[i - pos] == s@[i as int]);
        let d = (s[i] - 48) as usize;
        match n.checked_mul(10) {
            None => {
                proof {
                    lemma_digits_value_prefix(run, i - pos + 1, run.len() as int);
                    assert(run.take(run.len() as int) == run);
                }
                return Parsed::Overflow;
            },
            Some(m) => match m.checked_add(d) {
                None => {
                    proof {
                        lemma_digits_value_prefix(run, i - pos + 1, run.len() as int);
                        assert(run.take(run.len() as int) == run);
                    }
                    return Parsed::Overflow;
                },
                Some(v) => {
                    n = v;
                },
            },
        }
        i = i + 1;
    }
    assert(i == end);
    assert(run.take(i - pos) == run);
    if i > pos {
        Parsed::Done(n, i)
    } else {
        Parsed::Miss
    }
}

/// The index of the last operator of least precedence: the root of the tree
/// that left-associative precedence parsing builds over `ops`.
pub open spec fn last_min(ops: Seq<Op>) -> int
    decreases ops.len(),
{
    if ops.len() <= 1 {
        0
    } else {
        let k = last_min(ops.drop_last());
        if prec(ops.last()) <= prec(ops[k]) {
            ops.len() - 1
        } else {
            k
        }
    }
}

pub proof fn lemma_last_min(ops: Seq<Op>)
    requires
        ops.len() >= 1,
    ensures
        0 <= last_min(ops) < ops.len(),
        forall|i: int| 0 <= i < ops.len() ==> prec(ops[last_min(ops)]) <= prec(#[trigger] ops[i]),
        forall|i: int| last_min(ops) < i < ops.len() ==> prec(ops[last_min(ops)]) < prec(#[trigger] ops[i]),
    decreases ops.len(),
{
    if ops.len() > 1 {
        let d = ops.drop_last();
        lemma_last_min(d);
        assert forall|i: int| 0 <= i < d.len() implies d[i] == ops[i] by {}
    }
}

/// The expression tree over the operands `terms` and the operators `ops`
/// between them: operators of higher precedence bind tighter, and operators of
/// equal precedence associate to the left.
pub open spec fn tree(terms: Seq<Term>, ops: Seq<Op>) -> Expr
    decreases terms.len(),
{
    let k = last_min(ops);
    if ops.len() == 0 || terms.len() != ops.len() + 1 || !(0 <= k < ops.len()) {
        Expr::Term(terms[0])
    } else {
        Expr::BinOp(
            Box::new(tree(terms.take(k + 1), ops.take(k))),
            ops[k],
            Box::new(tree(terms.skip(k + 1), ops.skip(k + 1))),
        )
    }
}

/// Builds the expression tree over the operands `terms` and the operators
/// `ops` between them.
pub fn build(terms: Vec<Term>, ops: Vec<Op>) -> (r: Expr)
    requires
        terms@.len() == ops@.len() + 1,
    ensures
        r == tree(terms@, ops@),
    decreases terms@.len(),
{
    let mut terms = terms;
    let mut ops = ops;
    if ops.len() == 0 {
        let t = terms.pop().unwrap();
        return Expr::Term(t);
    }
    let mut k: usize = 0;
    let mut i: usize = 1;
    while i < ops.len()
        invariant
            1 <= i <= ops@.len(),
            k < i,
            k == last_min(ops@.take(i as int)),
        decreases ops@.len() - i,
    {
        assert(ops@.take(i + 1).drop_last() == ops@.take(i as int));
        assert(ops@.take(i + 1)[k as int] == ops@[k as int]);
        if ops[i].precedence() <= ops[k].precedence() {
            k = i;
        }
        i = i + 1;
    }
    assert(ops@.take(i as int) == ops@);
    proof {
        lemma_last_min(ops@);
    }
    let ghost all_terms = terms@;
    let ghost all_ops = ops@;
    let right_terms = terms.split_off(k + 1);
    let right_ops = ops.split_off(k + 1);
    let op = ops.pop().unwrap();
    assert(terms@ == all_terms.take(k + 1));
    assert(ops@ == all_ops.take(k as int));
    assert(right_terms@ == all_terms.skip(k + 1));
    assert(right_ops@ == all_ops.skip(k + 1));
    let left = build(terms, ops);
    let right = build(right_terms, right_ops);
    Expr::BinOp(Box::new(left), op, Box::new(right))
}

/// The side to which operators of equal precedence group.
#[derive(Debug, Clone, Copy, PartialEq, Eq)]
pub enum Associativity {
    Left,
    Right,
}

impl From<Term> for Expr {
    fn from(args: Term) -> (r: Self) {
        Expr::Term(args)
    }
}

impl vstd::std_specs::convert::FromSpecImpl<Term> for Expr {
    open spec fn obeys_from_spec() -> bool {
        true
    }

    open spec fn from_spec(v: Term) -> Self {
        Expr::Term(v)
    }
}

impl From<(Expr, Op, Expr)> for Expr {
    fn from(args: (Expr, Op, Expr)) -> (r: Self) {
        let (lhs, op, rhs) = args;
        Expr::BinOp(Box::new(lhs), op, Box::new(rhs))
    }
}

impl vstd::std_specs::convert::FromSpecImpl<(Expr, Op, Expr)> for Expr {
    open spec fn obeys_from_spec() -> bool {
        true
    }

    open spec fn from_spec(v: (Expr, Op, Expr)) -> Self {
        Expr::BinOp(Box::new(v.0), v.1, Box::new(v.2))
    }
}

impl Op {
    /// Every operator of the grammar groups to the left.
    pub fn associativity(&self) -> (r: Associativity)
        ensures
            r == Associativity::Left,
    {
        Associativity::Left
    }

    /// How tightly the operator binds.
    pub fn precedence(&self) -> (r: usize)
        ensures
            r == prec(*self),
    {
        match self {
            Op::Add => 1,
            Op::Sub => 1,
            Op::Mul => 2,
            Op::Div => 2,
        }
    }
}

/// The operands of a chain of operations: the first term, then the term of
/// each `(operator, term)` pair.
pub open spec fn chain_terms(first: Term, rest: Seq<(Op, Term)>) -> Seq<Term> {
    seq![first] + rest.map_values(|p: (Op, Term)| p.1)
}

/// The operators of a chain of operations.
pub open spec fn chain_ops(rest: Seq<(Op, Term)>) -> Seq<Op> {
    rest.map_values(|p: (Op, Term)| p.0)
}

/// `term = integer / "(" expr ")"` at `pos`.
pub open spec fn spec_term(s: Seq<u8>, pos: int) -> Parsed<Term>
    decreases s.len() - pos, 0int,
{
    if !(0 <= pos < s.len()) {
        Parsed::Miss
    } else if is_digit(s[pos]) {
        match spec_integer(s, pos) {
            Parsed::Done(n, e) => Parsed::Done(Term::Integer(n), e),
            Parsed::Miss => Parsed::Miss,
            Parsed::Overflow => Parsed::Overflow,
        }
    } else if s[pos] == 40 {
        match spec_expr(s, pos + 1) {
            Parsed::Done(x, e) => if e < s.len() && s[e as int] == 41 {
                Parsed::Done(Term::Parenthesized(Box::new(x)), (e + 1) as usize)
            } else {
                Parsed::Miss
            },
            Parsed::Miss => Parsed::Miss,
            Parsed::Overflow => Parsed::Overflow,
        }
    } else {
        Parsed::Miss
    }
}

/// One more operation of a chain at `pos`: spaces, an operator, spaces and a
/// term.
pub open spec fn spec_step(s: Seq<u8>, pos: int) -> Parsed<(Op, Term)>
    decreases s.len() - pos, 1int,
{
    match spec_space(s, pos) {
        None => Parsed::Miss,
        Some(a) => match spec_op(s, a as int) {
            None => Parsed::Miss,
            Some(o) => match spec_space(s, a + 1) {
                None => Parsed::Miss,
                Some(b) => if pos < b <= s.len() {
                    match spec_term(s, b as int) {
                        Parsed::Done(t, e) => Parsed::Done((o, t), e),
                        Parsed::Miss => Parsed::Miss,
                        Parsed::Overflow => Parsed::Overflow,
                    }
                } else {
                    Parsed::Miss
                },
            },
        },
    }
}

/// As many operations of a chain as follow at `pos`.
pub open spec fn spec_chain(s: Seq<u8>, pos: int) -> Parsed<Seq<(Op, Term)>>
    decreases s.len() - pos, 2int,
{
    match spec_step(s, pos) {
        Parsed::Done(ot, e) => if pos < e <= s.len() {
            match spec_chain(s, e as int) {
                Parsed::Done(rest, end) => Parsed::Done(seq![ot] + rest, end),
                Parsed::Miss => Parsed::Miss,
                Parsed::Overflow => Parsed::Overflow,
            }
        } else {
            Parsed::Done(Seq::empty(), pos as usize)
        },
        Parsed::Miss => Parsed::Done(Seq::empty(), pos as usize),
        Parsed::Overflow => Parsed::Overflow,
    }
}

/// `expr = expr op expr / term` at `pos`: a term and the operations that
/// follow it, as the tree that their precedence gives.
pub open spec fn spec_expr(s: Seq<u8>, pos: int) -> Parsed<Expr>
    decreases s.len() - pos, 3int,
{
    match spec_term(s, pos) {
        Parsed::Done(t, e) => if pos < e <= s.len() {
            match spec_chain(s, e as int) {
                Parsed::Done(rest, end) => Parsed::Done(
                    tree(chain_terms(t, rest), chain_ops(rest)),
                    end,
                ),
                Parsed::Miss => Parsed::Miss,
                Parsed::Overflow => Parsed::Overflow,
            }
        } else {
            Parsed::Miss
        },
        Parsed::Miss => Parsed::Miss,
        Parsed::Overflow => Parsed::Overflow,
    }
}

/// Parses `term = integer / "(" expr ")"` at `pos`.
pub fn term(s: &[u8], pos: usize) -> (r: Parsed<Term>)
    requires
        pos <= s@.len(),
    ensures
        r == spec_term(s@, pos as int),
        r matches Parsed::Done(_, e) ==> pos < e <= s@.len(),
    decreases s@.len() - pos, 0int,
{
    if pos >= s.len() {
        return Parsed::Miss;
    }
    let b = s[pos];
    if 48 <= b && b <= 57 {
        match integer(s, pos) {
            Parsed::Done(n, e) => Parsed::Done(Term::Integer(n), e),
            Parsed::Miss => Parsed::Miss,
            Parsed::Overflow => Parsed::Overflow,
        }
    } else if b == 40 {
        match expr(s, pos + 1) {
            Parsed::Done(x, e) => {
                if e < s.len() && s[e] == 41 {
                    Parsed::Done(Term::Parenthesized(Box::new(x)), e + 1)
                } else {
                    Parsed::Miss
                }
            },
            Parsed::Miss => Parsed::Miss,
            Parsed::Overflow => Parsed::Overflow,
        }
    } else {
        Parsed::Miss
    }
}

/// Parses one more operation of a chain at `pos`: spaces, an operator,
/// spaces and a term.
pub fn step(s: &[u8], pos: usize) -> (r: Parsed<(Op, Term)>)
    requires
        pos <= s@.len(),
    ensures
        r == spec_step(s@, pos as int),
        r matches Parsed::Done(_, e) ==> pos < e <= s@.len(),
    decreases s@.len() - pos, 1int,
{
    // the input's length fits in `usize`, so `a + 1` below does too
    let n = s.len();
    match space(s, pos) {
        None => Parsed::Miss,
        Some(a) => match op(s, a) {
            None => Parsed::Miss,
            Some(o) => match space(s, a + 1) {
                None => Parsed::Miss,
                Some(b) => match term(s, b) {
                    Parsed::Done(t, e) => Parsed::Done((o, t), e),
                    Parsed::Miss => Parsed::Miss,
                    Parsed::Overflow => Parsed::Overflow,
                },
            },
        },
    }
}

/// Parses `expr = expr op expr / term` at `pos`: a term followed by as many
/// operations as can be read, as the tree that their precedence gives.
pub fn expr(s: &[u8], pos: usize) -> (r: Parsed<Expr>)
    requires
        pos <= s@.len(),
    ensures
        r == spec_expr(s@, pos as int),
        r matches Parsed::Done(_, e) ==> pos < e <= s@.len(),
    decreases s@.len() - pos, 3int,
{
    let first = match term(s, pos) {
        Parsed::Done(t, e) => (t, e),
        Parsed::Miss => {
            return Parsed::Miss;
        },
        Parsed::Overflow => {
            return Parsed::Overflow;
        },
    };
    let (t, e) = first;
    let ghost t0 = t;
    let mut terms: Vec<Term> = Vec::new();
    terms.push(t);
    let mut ops: Vec<Op> = Vec::new();
    let mut p = e;
    let ghost mut pairs: Seq<(Op, Term)> = Seq::empty();
    loop
        invariant
            pos < e <= p <= s@.len(),
            spec_chain(s@, e as int) == prepend(pairs, spec_chain(s@, p as int)),
            terms@ == chain_terms(t0, pairs),
            ops@ == chain_ops(pairs),
            spec_term(s@, pos as int) == Parsed::Done(t0, e),
        ensures
            pos < e <= p <= s@.len(),
            spec_chain(s@, e as int) == Parsed::Done(pairs, p),
            terms@ == chain_terms(t0, pairs),
            ops@ == chain_ops(pairs),
            spec_term(s@, pos as int) == Parsed::Done(t0, e),
        decreases s@.len() - p,
    {
        match step(s, p) {
            Parsed::Done(ot, e2) => {
                let (o, t2) = ot;
                let ghost ot_ghost = (o, t2);
                proof {
                    assert(prepend(pairs, prepend(seq![ot_ghost], spec_chain(s@, e2 as int)))
                        == prepend(pairs.push(ot_ghost), spec_chain(s@, e2 as int))) by {
                        assert(pairs + (seq![ot_ghost] + Seq::<(Op, Term)>::empty()) == pairs.push(ot_ghost));
                        if let Parsed::Done(rest, _) = spec_chain(s@, e2 as int) {
                            assert(pairs + (seq![ot_ghost] + rest) == pairs.push(ot_ghost) + rest);
                        }
                    }
                    pairs = pairs.push(ot_ghost);
                }
                ops.push(o);
                terms.push(t2);
                p = e2;
            },
            Parsed::Miss => {
                assert(spec_chain(s@, p as int) == Parsed::Done(Seq::<(Op, Term)>::empty(), p));
                assert(pairs + Seq::<(Op, Term)>::empty() == pairs);
                break ;
            },
            Parsed::Overflow => {
                assert(spec_chain(s@, p as int) == Parsed::<Seq<(Op, Term)>>::Overflow);
                assert(spec_chain(s@, e as int) == Parsed::<Seq<(Op, Term)>>::Overflow);
                return Parsed::Overflow;
            },
        }
    }
    Parsed::Done(build(terms, ops), p)
}

/// `r` with `pre` put in front of what it read.
pub open spec fn prepend<A>(pre: Seq<A>, r: Parsed<Seq<A>>) -> Parsed<Seq<A>> {
    match r {
        Parsed::Done(x, e) => Parsed::Done(pre + x, e),
        Parsed::Miss => Parsed::Miss,
        Parsed::Overflow => Parsed::Overflow,
    }
}

/// The value of an expression over the integers.
pub open spec fn value(e: Expr) -> int
    decreases e,
{
    match e {
        Expr::BinOp(l, op, r) => match op {
            Op::Add => value(*l) + value(*r),
            Op::Sub => value(*l) - value(*r),
            Op::Mul => value(*l) * value(*r),
            Op::Div => value(*l) / value(*r),
        },
        Expr::Term(Term::Parenthesized(x)) => value(*x),
        Expr::Term(Term::Integer(n)) => n as int,
    }
}

/// Every operation of the expression stays within `usize`: no sum or product
/// above `usize::MAX`, no difference below zero and no division by zero.
pub open spec fn evaluable(e: Expr) -> bool
    decreases e,
{
    match e {
        Expr::BinOp(l, op, r) => evaluable(*l) && evaluable(*r) && match op {
            Op::Add => value(*l) + value(*r) <= usize::MAX,
            Op::Sub => value(*l) >= value(*r),
            Op::Mul => value(*l) * value(*r) <= usize::MAX,
            Op::Div => value(*r) != 0,
        },
        Expr::Term(Term::Parenthesized(x)) => evaluable(*x),
        Expr::Term(Term::Integer(_)) => true,
    }
}

/// Evaluates an expression whose operations all stay within `usize`.
pub fn eval(e: &Expr) -> (r: usize)
    requires
        evaluable(*e),
    ensures
        r == value(*e),
    decreases e,
{
    match e {
        Expr::BinOp(l, op, r) => {
            let a = eval(&**l);
            let b = eval(&**r);
            match op {
                Op::Add => a + b,
                Op::Sub => a - b,
                Op::Mul => a * b,
                Op::Div => a / b,
            }
        },
        Expr::Term(term) => match term {
            Term::Parenthesized(x) => eval(&**x),
            Term::Integer(n) => *n,
        },
    }
}

/// Evaluates an expression, or gives `None` where an operation leaves `usize`.
pub fn checked_eval(e: &Expr) -> (r: Option<usize>)
    ensures
        r is Some <==> evaluable(*e),
        r matches Some(v) ==> v == value(*e),
    decreases e,
{
    match e {
        Expr::BinOp(l, op, r) => {
            let a = match checked_eval(&**l) {
                Some(a) => a,
                None => {
                    return None;
                },
            };
            let b = match checked_eval(&**r) {
                Some(b) => b,
                None => {
                    return None;
                },
            };
            match op {
                Op::Add => a.checked_add(b),
                Op::Sub => a.checked_sub(b),
                Op::Mul => a.checked_mul(b),
                Op::Div => a.checked_div(b),
            }
        },
        Expr::Term(term) => match term {
            Term::Parenthesized(x) => checked_eval(&**x),
            Term::Integer(n) => Some(*n),
        },
    }
}

/// The decimal digits of `n`.
pub open spec fn decimal(n: nat) -> Seq<char>
    decreases n,
{
    if n < 10 {
        seq![(n + 48) as char]
    } else {
        decimal(n / 10).push((n % 10 + 48) as char)
    }
}

/// The text of an operator between its operands.
pub open spec fn op_text(op: Op) -> Seq<char> {
    match op {
        Op::Add => seq![' ', '+', ' '],
        Op::Sub => seq![' ', '-', ' '],
        Op::Mul => seq![' ', '*', ' '],
        Op::Div => seq![' ', '/', ' '],
    }
}

/// An expression written with every operation in parentheses.
pub open spec fn shown(e: Expr) -> Seq<char>
    decreases e,
{
    match e {
        Expr::BinOp(l, op, r) => seq!['('] + shown(*l) + op_text(op) + shown(*r) + seq![')'],
        Expr::Term(Term::Parenthesized(x)) => shown(*x),
        Expr::Term(Term::Integer(n)) => decimal(n as nat),
    }
}

fn digit_text(d: usize) -> (r: &'static str)
    requires
        d < 10,
    ensures
        r@ == seq![(d + 48) as char],
{
    proof {
        reveal_strlit("0");
        reveal_strlit("1");
        reveal_strlit("2");
        reveal_strlit("3");
        reveal_strlit("4");
        reveal_strlit("5");
        reveal_strlit("6");
        reveal_strlit("7");
        reveal_strlit("8");
        reveal_strlit("9");
    }
    if d == 0 {
        "0"
    } else if d == 1 {
        "1"
    } else if d == 2 {
        "2"
    } else if d == 3 {
        "3"
    } else if d == 4 {
        "4"
    } else if d == 5 {
        "5"
    } else if d == 6 {
        "6"
    } else if d == 7 {
        "7"
    } else if d == 8 {
        "8"
    } else {
        "9"
    }
}

fn push_decimal(out: &mut String, n: usize)
    ensures
        final(out)@ == old(out)@ + decimal(n as nat),
    decreases n,
{
    if n >= 10 {
        push_decimal(out, n / 10);
        out.append(digit_text(n % 10));
        assert(decimal(n as nat) == decimal((n / 10) as nat).push((n % 10 + 48) as char));
        assert(out@ == old(out)@ + decimal(n as nat));
    } else {
        out.append(digit_text(n));
    }
}

fn op_str(op: Op) -> (r: &'static str)
    ensures
        r@ == op_text(op),
{
    proof {
        reveal_strlit(" + ");
        reveal_strlit(" - ");
        reveal_strlit(" * ");
        reveal_strlit(" / ");
    }
    match op {
        Op::Add => " + ",
        Op::Sub => " - ",
        Op::Mul => " * ",
        Op::Div => " / ",
    }
}

/// Writes an expression with every operation in parentheses.
pub fn display(e: &Expr) -> (r: String)
    ensures
        r@ == shown(*e),
    decreases e,
{
    match e {
        Expr::BinOp(l, op, r) => {
            let left = display(&**l);
            let right = display(&**r);
            proof {
                reveal_strlit("(");
                reveal_strlit(")");
            }
            let mut out = String::from_str("(");
            out.append(left.as_str());
            out.append(op_str(*op));
            out.append(right.as_str());
            out.append(")");
            out
        },
        Expr::Term(term) => match term {
            Term::Parenthesized(x) => display(&**x),
            Term::Integer(n) => {
                let mut out = String::new();
                push_decimal(&mut out, *n);
                out
            },
        },
    }
}

/// The operands of an expression, left to right.
pub open spec fn leaves(e: Expr) -> Seq<Term>
    decreases e,
{
    match e {
        Expr::BinOp(l, _, r) => leaves(*l) + leaves(*r),
        Expr::Term(t) => seq![t],
    }
}

/// The operators of an expression, left to right.
pub open spec fn operators(e: Expr) -> Seq<Op>
    decreases e,
{
    match e {
        Expr::BinOp(l, op, r) => operators(*l) + seq![op] + operators(*r),
        Expr::Term(_) => Seq::empty(),
    }
}

/// Every operation binds at least as tightly as the one above it: an
/// operation in the left operand of `op` has no lower precedence than `op`,
/// one in the right operand a strictly higher one (left associativity).
pub open spec fn well_nested(e: Expr) -> bool
    decreases e,
{
    match e {
        Expr::BinOp(l, op, r) => {
            &&& well_nested(*l)
            &&& well_nested(*r)
            &&& (match *l {
                Expr::BinOp(_, lop, _) => prec(lop) >= prec(op),
                Expr::Term(_) => true,
            })
            &&& (match *r {
                Expr::BinOp(_, rop, _) => prec(rop) > prec(op),
                Expr::Term(_) => true,
            })
        },
        Expr::Term(_) => true,
    }
}

/// The tree over operands and operators reads back, left to right, as those
/// operands and operators.
pub proof fn law_tree_reads_back(terms: Seq<Term>, ops: Seq<Op>)
    requires
        terms.len() == ops.len() + 1,
    ensures
        leaves(tree(terms, ops)) == terms,
        operators(tree(terms, ops)) == ops,
    decreases terms.len(),
{
    if ops.len() > 0 {
        let k = last_min(ops);
        lemma_last_min(ops);
        law_tree_reads_back(terms.take(k + 1), ops.take(k));
        law_tree_reads_back(terms.skip(k + 1), ops.skip(k + 1));
        assert(terms.take(k + 1) + terms.skip(k + 1) == terms);
        assert(ops.take(k) + seq![ops[k]] + ops.skip(k + 1) == ops);
    } else {
        assert(terms == seq![terms[0]]);
    }
}

/// The operator at the root of a tree over at least one operator is the last
/// one of least precedence.
proof fn lemma_tree_root(terms: Seq<Term>, ops: Seq<Op>)
    requires
        terms.len() == ops.len() + 1,
        ops.len() > 0,
    ensures
        tree(terms, ops) matches Expr::BinOp(_, op, _) && op == ops[last_min(ops)],
{
    lemma_last_min(ops);
}

/// The tree over operands and operators nests its operations by precedence,
/// with operators of equal precedence associating to the left.
pub proof fn law_tree_well_nested(terms: Seq<Term>, ops: Seq<Op>)
    requires
        terms.len() == ops.len() + 1,
    ensures
        well_nested(tree(terms, ops)),
    decreases terms.len(),
{
    if ops.len() > 0 {
        let k = last_min(ops);
        lemma_last_min(ops);
        let lops = ops.take(k);
        let rops = ops.skip(k + 1);
        law_tree_well_nested(terms.take(k + 1), lops);
        law_tree_well_nested(terms.skip(k + 1), rops);
        if lops.len() > 0 {
            lemma_tree_root(terms.take(k + 1), lops);
            lemma_last_min(lops);
            assert(lops[last_min(lops)] == ops[last_min(lops)]);
        }
        if rops.len() > 0 {
            lemma_tree_root(terms.skip(k + 1), rops);
            lemma_last_min(rops);
            assert(rops[last_min(rops)] == ops[k + 1 + last_min(rops)]);
        }
    }
}

/// `+` and `-` bind equally (precedence 1), `*` and `/` bind equally
/// (precedence 2), and the latter bind tighter.
pub proof fn law_precedence_levels()
    ensures
        prec(Op::Add) == 1,
        prec(Op::Sub) == 1,
        prec(Op::Mul) == 2,
        prec(Op::Div) == 2,
        forall|o1: Op, o2: Op|
            (#[trigger] prec(o1) == #[trigger] prec(o2)) <==> ((o1 == Op::Add || o1 == Op::Sub) == (
            o2 == Op::Add || o2 == Op::Sub)),
{
}

/// Whether `op` is `+` or `-`.
pub open spec fn additive(op: Op) -> bool {
    op == Op::Add || op == Op::Sub
}

/// Three operands with two operators: operators of one class (both additive
/// or both multiplicative) group to the left, and a multiplicative operator
/// binds tighter than an additive one on either side.
pub proof fn law_three_operands(a: Term, b: Term, c: Term, o1: Op, o2: Op)
    ensures
        additive(o1) == additive(o2) ==> tree(seq![a, b, c], seq![o1, o2]) == Expr::BinOp(
            Box::new(Expr::BinOp(Box::new(Expr::Term(a)), o1, Box::new(Expr::Term(b)))),
            o2,
            Box::new(Expr::Term(c)),
        ),
        additive(o1) && !additive(o2) ==> tree(seq![a, b, c], seq![o1, o2]) == Expr::BinOp(
            Box::new(Expr::Term(a)),
            o1,
            Box::new(Expr::BinOp(Box::new(Expr::Term(b)), o2, Box::new(Expr::Term(c)))),
        ),
        !additive(o1) && additive(o2) ==> tree(seq![a, b, c], seq![o1, o2]) == Expr::BinOp(
            Box::new(Expr::BinOp(Box::new(Expr::Term(a)), o1, Box::new(Expr::Term(b)))),
            o2,
            Box::new(Expr::Term(c)),
        ),
{
    let terms = seq![a, b, c];
    let ops = seq![o1, o2];
    assert(ops.drop_last() == seq![o1]);
    assert(last_min(seq![o1]) == 0);
    let k = last_min(ops);
    lemma_last_min(ops);
    if k == 1 {
        assert(terms.take(2) == seq![a, b]);
        assert(ops.take(1) == seq![o1]);
        assert(terms.skip(2) == seq![c]);
        assert(ops.skip(2) == Seq::<Op>::empty());
        assert(seq![a, b].take(1) == seq![a]);
        assert(seq![a, b].skip(1) == seq![b]);
        assert(seq![o1].take(0) == Seq::<Op>::empty());
        assert(seq![o1].skip(1) == Seq::<Op>::empty());
        assert(tree(seq![c], Seq::<Op>::empty()) == Expr::Term(c));
        assert(tree(seq![a], Seq::<Op>::empty()) == Expr::Term(a));
        assert(tree(seq![b], Seq::<Op>::empty()) == Expr::Term(b));
        assert(tree(seq![a, b], seq![o1]) == Expr::BinOp(
            Box::new(Expr::Term(a)),
            o1,
            Box::new(Expr::Term(b)),
        ));
        assert(tree(terms, ops) == Expr::BinOp(
            Box::new(tree(seq![a, b], seq![o1])),
            o2,
            Box::new(tree(seq![c], Seq::<Op>::empty())),
        ));
        assert(prec(o2) <= prec(o1));
    } else {
        assert(terms.take(1) == seq![a]);
        assert(ops.take(0) == Seq::<Op>::empty());
        assert(terms.skip(1) == seq![b, c]);
        assert(ops.skip(1) == seq![o2]);
        assert(last_min(seq![o2]) == 0);
        assert(seq![b, c].take(1) == seq![b]);
        assert(seq![b, c].skip(1) == seq![c]);
        assert(seq![o2].take(0) == Seq::<Op>::empty());
        assert(seq![o2].skip(1) == Seq::<Op>::empty());
        assert(tree(seq![c], Seq::<Op>::empty()) == Expr::Term(c));
        assert(tree(seq![a], Seq::<Op>::empty()) == Expr::Term(a));
        assert(tree(seq![b], Seq::<Op>::empty()) == Expr::Term(b));
        assert(tree(seq![b, c], seq![o2]) == Expr::BinOp(
            Box::new(Expr::Term(b)),
            o2,
            Box::new(Expr::Term(c)),
        ));
        assert(tree(terms, ops) == Expr::BinOp(
            Box::new(tree(seq![a], Seq::<Op>::empty())),
            o1,
            Box::new(tree(seq![b, c], seq![o2])),
        ));
        assert(prec(o2) > prec(o1));
    }
}

/// An expression whose operations stay within `usize` has a value that is a
/// `usize`.
pub proof fn lemma_evaluable_in_range(e: Expr)
    requires
        evaluable(e),
    ensures
        0 <= value(e) <= usize::MAX,
    decreases e,
{
    match e {
        Expr::BinOp(l, op, r) => {
            lemma_evaluable_in_range(*l);
            lemma_evaluable_in_range(*r);
            match op {
                Op::Mul => {
                    assert(0 <= value(*l) * value(*r)) by (nonlinear_arith)
                        requires
                            0 <= value(*l),
                            0 <= value(*r),
                    ;
                },
                Op::Div => {
                    let x = value(*l);
                    let d = value(*r);
                    assert(0 <= x / d <= x) by (nonlinear_arith)
                        requires
                            0 <= x,
                            0 < d,
                    ;
                },
                _ => {},
            }
        },
        Expr::Term(Term::Parenthesized(x)) => {
            lemma_evaluable_in_range(*x);
        },
        Expr::Term(Term::Integer(_)) => {},
    }
}

/// An operation's value is that of the integer operation on its operands'
/// values: sum, difference and product, and for `/` the quotient rounded
/// down: the largest `q` with `q * divisor <= dividend`.
pub proof fn law_value_arithmetic(l: Expr, op: Op, r: Expr)
    requires
        evaluable(Expr::BinOp(Box::new(l), op, Box::new(r))),
    ensures
        op == Op::Add ==> value(Expr::BinOp(Box::new(l), op, Box::new(r))) == value(l) + value(r),
        op == Op::Sub ==> value(Expr::BinOp(Box::new(l), op, Box::new(r))) == value(l) - value(r),
        op == Op::Mul ==> value(Expr::BinOp(Box::new(l), op, Box::new(r))) == value(l) * value(r),
        op == Op::Div ==> {
            let q = value(Expr::BinOp(Box::new(l), op, Box::new(r)));
            &&& 0 <= q
            &&& q * value(r) <= value(l)
            &&& value(l) < (q + 1) * value(r)
        },
{
    lemma_evaluable_in_range(l);
    lemma_evaluable_in_range(r);
    if op == Op::Div {
        let x = value(l);
        let d = value(r);
        let q = value(Expr::BinOp(Box::new(l), op, Box::new(r)));
        assert(q == x / d);
        assert(0 <= x / d && (x / d) * d <= x && x < (x / d + 1) * d) by (nonlinear_arith)
            requires
                0 <= x,
                0 < d,
        {
            vstd::arithmetic::div_mod::lemma_fundamental_div_mod(x, d);
            vstd::arithmetic::div_mod::lemma_mod_pos_bound(x, d);
        }
    }
}

/// A literal stands for its number, and parentheses do not change a value.
pub proof fn law_value_of_terms(n: usize, x: Expr)
    ensures
        value(Expr::Term(Term::Integer(n))) == n,
        value(Expr::Term(Term::Parenthesized(Box::new(x)))) == value(x),
{
}

/// Each operator is written as the byte that it is parsed from, with a space
/// on either side.
pub proof fn law_operator_text(b: u8)
    requires
        is_op_byte(b),
    ensures
        op_text(op_of(b)) == seq![' ', b as char, ' '],
{
}

/// The bytes of a text of ASCII characters.
pub open spec fn ascii_bytes(s: Seq<char>) -> Seq<u8> {
    s.map_values(|c: char| c as u8)
}

/// The decimal digits written for a number read back as that number.
pub proof fn law_decimal_reads_back(n: nat)
    ensures
        forall|i: int| 0 <= i < decimal(n).len() ==> is_digit(#[trigger] ascii_bytes(decimal(n))[i]),
        digits_value(ascii_bytes(decimal(n))) == n,
    decreases n,
{
    if n < 10 {
        assert(ascii_bytes(decimal(n)) == seq![(n + 48) as u8]);
        assert(seq![(n + 48) as u8].drop_last() == Seq::<u8>::empty());
        assert(digits_value(seq![(n + 48) as u8]) == digits_value(Seq::<u8>::empty()) * 10 + n);
    } else {
        law_decimal_reads_back(n / 10);
        let d = decimal(n / 10);
        let last = ((n % 10 + 48) as char);
        assert(decimal(n) == d.push(last));
        assert(ascii_bytes(decimal(n)) == ascii_bytes(d).push(last as u8));
        assert(ascii_bytes(d).push(last as u8).drop_last() == ascii_bytes(d));
        assert(last as u8 == n % 10 + 48);
        assert(digits_value(ascii_bytes(decimal(n))) == digits_value(ascii_bytes(d)) * 10 + n % 10);
        vstd::arithmetic::div_mod::lemma_fundamental_div_mod(n as int, 10);
        assert((n / 10) * 10 + n % 10 == n) by (nonlinear_arith)
            requires
                n == 10 * (n / 10) + n % 10,
        ;
        assert forall|i: int| 0 <= i < decimal(n).len() implies is_digit(
            #[trigger] ascii_bytes(decimal(n))[i],
        ) by {
            if i < d.len() {
                assert(ascii_bytes(decimal(n))[i] == ascii_bytes(d)[i]);
            }
        }
    }
}

} // verus!
