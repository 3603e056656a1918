use vstd::prelude::*;
use crate::operand::{Operand, empty_operand};
use crate::operators::{Operator, operator_of};

verus! {

/// One token of a postfix sequence.
#[derive(Debug, Clone, Copy, PartialEq, Eq, Structural)]
pub enum Postfix {
    Operand(Operand),
    Operator(Operator),
}

/// The outcome of parsing: the operator stack of the shunting-yard algorithm
/// and the postfix sequence that it produced.
#[derive(Debug)]
pub struct Expression {
    pub stack: Vec<Operator>,
    pub postfix: Vec<Postfix>,
}

/// Where the parser stands between two characters: its operator stack, the
/// postfix produced so far, and the operand being read.
pub struct ParseState {
    pub stack: Seq<Operator>,
    pub postfix: Seq<Postfix>,
    pub operand: Operand,
}

pub open spec fn initial_state() -> ParseState {
    ParseState { stack: seq![], postfix: seq![], operand: empty_operand() }
}

pub open spec fn is_digit(c: char) -> bool {
    '0' <= c && c <= '9'
}

pub open spec fn digit_value(c: char) -> u32 {
    (c as u32 - '0' as u32) as u32
}

/// The operand being read, if it holds a digit, moves to the postfix.
pub open spec fn flush(st: ParseState) -> ParseState {
    if st.operand.initialized {
        ParseState {
            stack: st.stack,
            postfix: st.postfix.push(Postfix::Operand(st.operand)),
            operand: empty_operand(),
        }
    } else {
        st
    }
}

/// A closing parenthesis: operators move from the stack to the postfix until an
/// opening parenthesis is popped (and dropped) or the stack is empty.
pub open spec fn close_group(stack: Seq<Operator>, postfix: Seq<Postfix>) -> (Seq<Operator>, Seq<Postfix>)
    decreases stack.len(),
{
    if stack.len() == 0 {
        (stack, postfix)
    } else if stack.last() is OpenParenthesis {
        (stack.drop_last(), postfix)
    } else {
        close_group(stack.drop_last(), postfix.push(Postfix::Operator(stack.last())))
    }
}

/// Whether an incoming operator sends the operator on top of the stack to the
/// postfix before it is pushed.
pub open spec fn pops_before(incoming: Operator, top: Operator) -> bool {
    incoming.spec_precedence() < top.spec_precedence() || (incoming.spec_precedence()
        == top.spec_precedence() && incoming.spec_left_associative())
}

/// A binary operator: the stack top moves to the postfix while it binds at
/// least as tightly, then the operator is pushed.
pub open spec fn place_operator(stack: Seq<Operator>, postfix: Seq<Postfix>, op: Operator) -> (
    Seq<Operator>,
    Seq<Postfix>,
)
    decreases stack.len(),
{
    if stack.len() > 0 && pops_before(op, stack.last()) {
        place_operator(stack.drop_last(), postfix.push(Postfix::Operator(stack.last())), op)
    } else {
        (stack.push(op), postfix)
    }
}

/// A character that is neither a digit nor a decimal point.
pub open spec fn read_other(st: ParseState, c: char) -> ParseState {
    let op = operator_of(c);
    let st1 = if op.spec_is_operator() { flush(st) } else { st };
    match op {
        Operator::NotAnOperator => st1,
        Operator::OpenParenthesis => ParseState { stack: st1.stack.push(op), ..st1 },
        Operator::CloseParenthesis => {
            let (stack, postfix) = close_group(st1.stack, st1.postfix);
            ParseState { stack, postfix, operand: st1.operand }
        },
        _ => {
            let (stack, postfix) = place_operator(st1.stack, st1.postfix, op);
            ParseState { stack, postfix, operand: st1.operand }
        },
    }
}

/// One step of the parser.
pub open spec fn read_char(st: ParseState, c: char) -> ParseState {
    if is_digit(c) {
        ParseState { operand: st.operand.with_digit(digit_value(c)), ..st }
    } else if c == '.' {
        ParseState { operand: st.operand.with_point(), ..st }
    } else {
        read_other(st, c)
    }
}

/// The parser after reading every character of `s`, in order.
pub open spec fn read_all(st: ParseState, s: Seq<char>) -> ParseState
    decreases s.len(),
{
    if s.len() == 0 {
        st
    } else {
        read_char(read_all(st, s.drop_last()), s.last())
    }
}

/// At the end of input the stack is popped into the postfix, keeping only the
/// arithmetic operators.
pub open spec fn drain(stack: Seq<Operator>, postfix: Seq<Postfix>) -> Seq<Postfix>
    decreases stack.len(),
{
    if stack.len() == 0 {
        postfix
    } else if stack.last().spec_is_binary() {
        drain(stack.drop_last(), postfix.push(Postfix::Operator(stack.last())))
    } else {
        drain(stack.drop_last(), postfix)
    }
}

/// The postfix sequence of a text.
pub open spec fn postfix_of(s: Seq<char>) -> Seq<Postfix> {
    let st = flush(read_all(initial_state(), s));
    drain(st.stack, st.postfix)
}

/// Every operator on the stack is an opening parenthesis or an arithmetic
/// operator.
pub open spec fn stack_ok(stack: Seq<Operator>) -> bool {
    forall|i: int| 0 <= i < stack.len() ==> (#[trigger] stack[i] is OpenParenthesis || stack[i].spec_is_binary())
}

/// Every operator in the postfix is an arithmetic operator.
pub open spec fn postfix_ok(postfix: Seq<Postfix>) -> bool {
    forall|i: int| 0 <= i < postfix.len() ==> (#[trigger] postfix[i] matches Postfix::Operator(op) ==> op.spec_is_binary())
}

proof fn lemma_close_group_ok(stack: Seq<Operator>, postfix: Seq<Postfix>)
    requires
        stack_ok(stack),
        postfix_ok(postfix),
    ensures
        stack_ok(close_group(stack, postfix).0),
        postfix_ok(close_group(stack, postfix).1),
    decreases stack.len(),
{
    if stack.len() > 0 {
        let t = stack.drop_last();
        assert(stack_ok(t)) by {
            assert forall|i: int| 0 <= i < t.len() implies (#[trigger] t[i] is OpenParenthesis || t[i].spec_is_binary()) by {
                assert(t[i] == stack[i]);
            }
        }
        assert(stack[stack.len() - 1] is OpenParenthesis || stack[stack.len() - 1].spec_is_binary());
        let p = postfix.push(Postfix::Operator(stack.last()));
        if !(stack.last() is OpenParenthesis) {
            assert(postfix_ok(p)) by {
                assert forall|i: int| 0 <= i < p.len() implies (#[trigger] p[i] matches Postfix::Operator(op) ==> op.spec_is_binary()) by {
                    if i < postfix.len() {
                        assert(p[i] == postfix[i]);
                    }
                }
            }
            lemma_close_group_ok(t, p);
        }
    }
}

proof fn lemma_place_operator_ok(stack: Seq<Operator>, postfix: Seq<Postfix>, op: Operator)
    requires
        stack_ok(stack),
        postfix_ok(postfix),
        op.spec_is_binary(),
    ensures
        stack_ok(place_operator(stack, postfix, op).0),
        postfix_ok(place_operator(stack, postfix, op).1),
    decreases stack.len(),
{
    if stack.len() > 0 && pops_before(op, stack.last()) {
        let t = stack.drop_last();
        assert(stack_ok(t)) by {
            assert forall|i: int| 0 <= i < t.len() implies (#[trigger] t[i] is OpenParenthesis || t[i].spec_is_binary()) by {
                assert(t[i] == stack[i]);
            }
        }
        assert(stack[stack.len() - 1] is OpenParenthesis || stack[stack.len() - 1].spec_is_binary());
        let p = postfix.push(Postfix::Operator(stack.last()));
        assert(postfix_ok(p)) by {
            assert forall|i: int| 0 <= i < p.len() implies (#[trigger] p[i] matches Postfix::Operator(o) ==> o.spec_is_binary()) by {
                if i < postfix.len() {
                    assert(p[i] == postfix[i]);
                }
            }
        }
        lemma_place_operator_ok(t, p, op);
    } else {
        let s = stack.push(op);
        assert forall|i: int| 0 <= i < s.len() implies (#[trigger] s[i] is OpenParenthesis || s[i].spec_is_binary()) by {
            if i < stack.len() {
                assert(s[i] == stack[i]);
            }
        }
    }
}

proof fn lemma_read_all_ok(s: Seq<char>)
    ensures
        stack_ok(read_all(initial_state(), s).stack),
        postfix_ok(read_all(initial_state(), s).postfix),
    decreases s.len(),
{
    if s.len() > 0 {
        lemma_read_all_ok(s.drop_last());
        let st = read_all(initial_state(), s.drop_last());
        let c = s.last();
        let st1 = flush(st);
        assert(postfix_ok(st1.postfix)) by {
            assert forall|i: int| 0 <= i < st1.postfix.len() implies (#[trigger] st1.postfix[i] matches Postfix::Operator(o) ==> o.spec_is_binary()) by {
                if i < st.postfix.len() {
                    assert(st1.postfix[i] == st.postfix[i]);
                }
            }
        }
        let op = operator_of(c);
        if !is_digit(c) && c != '.' {
            if op is OpenParenthesis {
                let q = st1.stack.push(op);
                assert forall|i: int| 0 <= i < q.len() implies (#[trigger] q[i] is OpenParenthesis || q[i].spec_is_binary()) by {
                    if i < st1.stack.len() {
                        assert(q[i] == st1.stack[i]);
                    }
                }
            } else if op is CloseParenthesis {
                lemma_close_group_ok(st1.stack, st1.postfix);
            } else if op.spec_is_operator() {
                lemma_place_operator_ok(st1.stack, st1.postfix, op);
            }
        }
    }
}

proof fn lemma_drain_ok(stack: Seq<Operator>, postfix: Seq<Postfix>)
    requires
        postfix_ok(postfix),
    ensures
        postfix_ok(drain(stack, postfix)),
    decreases stack.len(),
{
    if stack.len() > 0 {
        if stack.last().spec_is_binary() {
            let p = postfix.push(Postfix::Operator(stack.last()));
            assert forall|i: int| 0 <= i < p.len() implies (#[trigger] p[i] matches Postfix::Operator(o) ==> o.spec_is_binary()) by {
                if i < postfix.len() {
                    assert(p[i] == postfix[i]);
                }
            }
            lemma_drain_ok(stack.drop_last(), p);
        } else {
            lemma_drain_ok(stack.drop_last(), postfix);
        }
    }
}

/// Parentheses only shape the parse: every operator in the postfix of any text
/// is one of the five arithmetic operators.
pub proof fn lemma_postfix_operators_are_binary(s: Seq<char>)
    ensures
        postfix_ok(postfix_of(s)),
{
    lemma_read_all_ok(s);
    let st = read_all(initial_state(), s);
    let st1 = flush(st);
    assert forall|i: int| 0 <= i < st1.postfix.len() implies (#[trigger] st1.postfix[i] matches Postfix::Operator(o) ==> o.spec_is_binary()) by {
        if i < st.postfix.len() {
            assert(st1.postfix[i] == st.postfix[i]);
        }
    }
    lemma_drain_ok(st1.stack, st1.postfix);
}

impl Expression {
    pub open spec fn state_with(self, operand: Operand) -> ParseState {
        ParseState { stack: self.stack@, postfix: self.postfix@, operand }
    }

    /// Converts infix text to postfix order in one pass. Never fails: digits
    /// and decimal points build operands, the operator characters drive the
    /// shunting-yard algorithm, and every other character is ignored.
    pub fn parse(input: &str) -> (r: Self)
        ensures
            r.stack@ == Seq::<Operator>::empty(),
            r.postfix@ == postfix_of(input@),
    {
        let mut expression = Self::default();
        let mut operand = Operand::default();
        let ghost text = input@;
        proof {
            broadcast use vstd::string::axiom_spec_iter;
        }
        for ch in it: input.chars()
            invariant
                it.seq() == text,
                expression.state_with(operand) == read_all(initial_state(), text.take(it.index())),
        {
            proof {
                assert(text.take(it.index() + 1).drop_last() =~= text.take(it.index()));
            }
            if '0' <= ch && ch <= '9' {
                operand.add_digit(ch as u32 - '0' as u32);
            } else if ch == '.' {
                operand.is_decimal = true;
            } else {
                expression.parse_other_chars(ch, &mut operand);
            }
        }
        proof {
            assert(text.take(text.len() as int) =~= text);
        }
        if operand.initialized {
            expression.postfix.push(Postfix::Operand(operand));
        }
        while expression.stack.len() > 0
            invariant
                drain(expression.stack@, expression.postfix@) == postfix_of(input@),
            decreases expression.stack.len(),
        {
            let op = expression.stack.pop().unwrap();
            if op.is_operator_not_parenthesis() {
                expression.postfix.push(Postfix::Operator(op));
            }
        }
        expression
    }

    fn parse_close_parenthesis(&mut self)
        ensures
            (final(self).stack@, final(self).postfix@) == close_group(
                old(self).stack@,
                old(self).postfix@,
            ),
    {
        loop
            invariant_except_break
                close_group(self.stack@, self.postfix@) == close_group(
                    old(self).stack@,
                    old(self).postfix@,
                ),
            ensures
                (self.stack@, self.postfix@) == close_group(old(self).stack@, old(self).postfix@),
            decreases self.stack.len(),
        {
            match self.stack.pop() {
                None => break,
                Some(op) => {
                    if op == Operator::OpenParenthesis {
                        break;
                    }
                    self.postfix.push(Postfix::Operator(op));
                },
            }
        }
    }

    fn parse_operators(&mut self, operator: Operator)
        ensures
            (final(self).stack@, final(self).postfix@) == place_operator(
                old(self).stack@,
                old(self).postfix@,
                operator,
            ),
    {
        let precedence = operator.precedence();
        loop
            invariant
                place_operator(self.stack@, self.postfix@, operator) == place_operator(
                    old(self).stack@,
                    old(self).postfix@,
                    operator,
                ),
                precedence == operator.spec_precedence(),
            ensures
                (self.stack@.push(operator), self.postfix@) == place_operator(
                    old(self).stack@,
                    old(self).postfix@,
                    operator,
                ),
            decreases self.stack.len(),
        {
            let len = self.stack.len();
            if len == 0 {
                break;
            }
            let other_precedence = self.stack[len - 1].precedence();
            if precedence < other_precedence || (precedence == other_precedence
                && operator.associativity()) {
                let top = self.stack.pop().unwrap();
                self.postfix.push(Postfix::Operator(top));
            } else {
                break;
            }
        }
        self.stack.push(operator);
    }

    fn parse_other_chars(&mut self, ch: char, operand: &mut Operand)
        ensures
            final(self).state_with(*final(operand)) == read_other(old(self).state_with(*old(operand)), ch),
    {
        let operator = Operator::from_char(ch);
        if operator.is_operator() && operand.initialized {
            self.postfix.push(Postfix::Operand(*operand));
            *operand = Operand::default();
        }
        match operator {
            Operator::NotAnOperator => {},
            Operator::OpenParenthesis => self.stack.push(operator),
            Operator::CloseParenthesis => self.parse_close_parenthesis(),
            _ => self.parse_operators(operator),
        }
    }
}

impl Default for Expression {
    fn default() -> (r: Self)
        ensures
            r.stack@ == Seq::<Operator>::empty(),
            r.postfix@ == Seq::<Postfix>::empty(),
    {
        Expression { stack: Vec::new(), postfix: Vec::new() }
    }
}

} // verus!
