use vstd::prelude::*;
use crate::evaluation::{Tree, reduce_all, reduce_token, reduction_of};
use crate::expression::{
    ParseState, Postfix, close_group, digit_value, drain, flush, initial_state, is_digit,
    place_operator, postfix_of, read_all, read_char,
};
use crate::operand::{Operand, empty_operand};
use crate::operators::{Operator, lemma_symbol_round_trip, operator_of};

verus! {

/// A fully parenthesized infix expression: a numeral, or a binary operator
/// applied to two expressions, written `(left op right)`.
pub enum Infix {
    Number(Seq<char>),
    Binary(Operator, Box<Infix>, Box<Infix>),
}

/// A character that the parser does not ignore.
pub open spec fn is_significant(c: char) -> bool {
    is_digit(c) || c == '.' || operator_of(c).spec_is_operator()
}

/// The characters of `s` that the parser does not ignore, in order.
pub open spec fn significant_chars(s: Seq<char>) -> Seq<char>
    decreases s.len(),
{
    if s.len() == 0 {
        s
    } else if is_significant(s.last()) {
        significant_chars(s.drop_last()).push(s.last())
    } else {
        significant_chars(s.drop_last())
    }
}

/// The operand that a run of digits and decimal points builds.
pub open spec fn literal(s: Seq<char>) -> Operand
    decreases s.len(),
{
    if s.len() == 0 {
        empty_operand()
    } else if is_digit(s.last()) {
        literal(s.drop_last()).with_digit(digit_value(s.last()))
    } else {
        literal(s.drop_last()).with_point()
    }
}

/// Digits and decimal points, with at least one digit.
pub open spec fn is_numeral(s: Seq<char>) -> bool {
    &&& forall|i: int| 0 <= i < s.len() ==> is_digit(#[trigger] s[i]) || s[i] == '.'
    &&& exists|i: int| 0 <= i < s.len() && is_digit(#[trigger] s[i])
}

impl Infix {
    pub open spec fn wf(self) -> bool
        decreases self,
    {
        match self {
            Infix::Number(s) => is_numeral(s),
            Infix::Binary(op, l, r) => op.spec_is_binary() && l.wf() && r.wf(),
        }
    }

    /// The text of the expression, with no character between tokens.
    pub open spec fn render(self) -> Seq<char>
        decreases self,
    {
        match self {
            Infix::Number(s) => s,
            Infix::Binary(op, l, r) => seq!['('] + l.render() + seq![op.spec_symbol().unwrap()]
                + r.render() + seq![')'],
        }
    }

    /// The expression in postfix order.
    pub open spec fn postorder(self) -> Seq<Postfix>
        decreases self,
    {
        match self {
            Infix::Number(s) => seq![Postfix::Operand(literal(s))],
            Infix::Binary(op, l, r) => l.postorder() + r.postorder() + seq![Postfix::Operator(op)],
        }
    }

    /// The expression as a tree of operands and operators.
    pub open spec fn tree(self) -> Tree
        decreases self,
    {
        match self {
            Infix::Number(s) => Tree::Leaf(literal(s)),
            Infix::Binary(op, l, r) => Tree::Node(op, Box::new(l.tree()), Box::new(r.tree())),
        }
    }
}

proof fn lemma_read_concat(st: ParseState, a: Seq<char>, b: Seq<char>)
    ensures
        read_all(st, a + b) == read_all(read_all(st, a), b),
    decreases b.len(),
{
    if b.len() == 0 {
        assert(a + b =~= a);
    } else {
        assert((a + b).drop_last() =~= a + b.drop_last());
        lemma_read_concat(st, a, b.drop_last());
    }
}

proof fn lemma_read_push(st: ParseState, a: Seq<char>, c: char)
    ensures
        read_all(st, a + seq![c]) == read_char(read_all(st, a), c),
{
    assert((a + seq![c]).drop_last() =~= a);
}

proof fn lemma_literal_initialized(s: Seq<char>, i: int)
    requires
        0 <= i < s.len(),
        is_digit(s[i]),
    ensures
        literal(s).initialized,
    decreases s.len(),
{
    if i < s.len() - 1 {
        assert(s.drop_last()[i] == s[i]);
        lemma_literal_initialized(s.drop_last(), i);
    }
}

proof fn lemma_read_numeral(st: ParseState, s: Seq<char>)
    requires
        st.operand == empty_operand(),
        forall|i: int| 0 <= i < s.len() ==> is_digit(#[trigger] s[i]) || s[i] == '.',
    ensures
        read_all(st, s) == (ParseState { operand: literal(s), ..st }),
    decreases s.len(),
{
    if s.len() > 0 {
        let t = s.drop_last();
        assert forall|i: int| 0 <= i < t.len() implies is_digit(#[trigger] t[i]) || t[i] == '.' by {
            assert(t[i] == s[i]);
        }
        lemma_read_numeral(st, t);
        assert(is_digit(s[s.len() - 1]) || s[s.len() - 1] == '.');
    }
}

proof fn lemma_read_render(st: ParseState, e: Infix)
    requires
        st.operand == empty_operand(),
        e.wf(),
    ensures
        flush(read_all(st, e.render())) == (ParseState { postfix: st.postfix + e.postorder(), ..st }),
    decreases e,
{
    match e {
        Infix::Number(s) => {
            lemma_read_numeral(st, s);
            let i = choose|i: int| 0 <= i < s.len() && is_digit(#[trigger] s[i]);
            lemma_literal_initialized(s, i);
            assert(st.postfix + e.postorder() =~= st.postfix.push(Postfix::Operand(literal(s))));
        },
        Infix::Binary(op, l, r) => {
            let c = op.spec_symbol().unwrap();
            lemma_symbol_round_trip(op);
            let a = seq!['('];
            let la = a + l.render();
            let lc = la + seq![c];
            let rc = lc + r.render();
            assert(a =~= Seq::<char>::empty() + seq!['(']);
            lemma_read_push(st, Seq::<char>::empty(), '(');
            let st1 = read_all(st, a);
            assert(st1 == ParseState { stack: st.stack.push(Operator::OpenParenthesis), ..st });
            lemma_read_concat(st, a, l.render());
            lemma_read_render(st1, *l);
            let st2 = read_all(st, la);
            lemma_read_push(st, la, c);
            let st3 = read_all(st, lc);
            assert(place_operator(st1.stack, st1.postfix + l.postorder(), op) == (
                st1.stack.push(op),
                st1.postfix + l.postorder(),
            ));
            assert(st3 == ParseState {
                stack: st1.stack.push(op),
                postfix: st.postfix + l.postorder(),
                ..st
            });
            lemma_read_concat(st, lc, r.render());
            lemma_read_render(st3, *r);
            lemma_read_push(st, rc, ')');
            let p = st.postfix + l.postorder() + r.postorder();
            assert(st1.stack.push(op).drop_last() =~= st1.stack);
            assert(st.stack.push(Operator::OpenParenthesis).drop_last() =~= st.stack);
            assert(close_group(st1.stack, p.push(Postfix::Operator(op))) == (
                st.stack,
                p.push(Postfix::Operator(op)),
            ));
            assert(close_group(st1.stack.push(op), p) == (st.stack, p.push(Postfix::Operator(op))));
            assert(st.postfix + e.postorder() =~= p.push(Postfix::Operator(op)));
        },
    }
}

proof fn lemma_reduce_postorder(stack: Seq<Tree>, e: Infix, rest: Seq<Postfix>)
    requires
        e.wf(),
    ensures
        reduce_all(stack, e.postorder() + rest) == reduce_all(stack.push(e.tree()), rest),
    decreases e,
{
    match e {
        Infix::Number(s) => {
            assert((e.postorder() + rest).drop_first() =~= rest);
        },
        Infix::Binary(op, l, r) => {
            let tail = seq![Postfix::Operator(op)] + rest;
            assert(e.postorder() + rest =~= l.postorder() + (r.postorder() + tail));
            lemma_reduce_postorder(stack, *l, r.postorder() + tail);
            lemma_reduce_postorder(stack.push(l.tree()), *r, tail);
            let s2 = stack.push(l.tree()).push(r.tree());
            assert(s2.take(s2.len() - 2) =~= stack);
            assert(tail.drop_first() =~= rest);
            assert(reduce_token(s2, Postfix::Operator(op)) == Ok::<Seq<Tree>, crate::evaluation::EvalError>(
                stack.push(e.tree()),
            ));
        },
    }
}

proof fn lemma_ignored_chars(st: ParseState, s: Seq<char>)
    ensures
        read_all(st, s) == read_all(st, significant_chars(s)),
    decreases s.len(),
{
    if s.len() > 0 {
        lemma_ignored_chars(st, s.drop_last());
        if is_significant(s.last()) {
            assert(significant_chars(s.drop_last()).push(s.last()).drop_last()
                =~= significant_chars(s.drop_last()));
        }
    }
}

/// A fully parenthesized expression parses into its own postfix order and
/// reduces to its own tree, whatever ignored characters (such as whitespace)
/// stand between its characters.
pub proof fn lemma_fully_parenthesized(e: Infix, text: Seq<char>)
    requires
        e.wf(),
        significant_chars(text) == e.render(),
    ensures
        postfix_of(text) == e.postorder(),
        reduction_of(postfix_of(text)) == Ok::<Tree, crate::evaluation::EvalError>(e.tree()),
{
    lemma_ignored_chars(initial_state(), text);
    lemma_read_render(initial_state(), e);
    assert(Seq::<Postfix>::empty() + e.postorder() =~= e.postorder());
    lemma_reduce_postorder(seq![], e, seq![]);
    assert(e.postorder() + Seq::<Postfix>::empty() =~= e.postorder());
    assert(Seq::<Tree>::empty().push(e.tree()).last() == e.tree());
}

} // verus!
