use vstd::prelude::*;
use crate::expression::{Expression, Postfix};
use crate::operand::Operand;
use crate::operators::Operator;

verus! {

/// Why a postfix sequence does not reduce to a value.
#[derive(Debug, Clone, Copy, PartialEq, Eq, Structural)]
pub enum EvalError {
    /// An operator was reached with no value on the stack.
    MissingRightOperand,
    /// An operator was reached with exactly one value on the stack.
    MissingLeftOperand,
    /// The sequence left no value at all.
    NoResult,
}

/// The expression that a postfix sequence denotes: operands at the leaves, each
/// operator applied to its left and right operands.
#[derive(Debug)]
pub enum Tree {
    Leaf(Operand),
    Node(Operator, Box<Tree>, Box<Tree>),
}

/// One postfix token applied to the value stack.
pub open spec fn reduce_token(stack: Seq<Tree>, token: Postfix) -> Result<Seq<Tree>, EvalError> {
    match token {
        Postfix::Operand(o) => Ok(stack.push(Tree::Leaf(o))),
        Postfix::Operator(op) => {
            if stack.len() == 0 {
                Err(EvalError::MissingRightOperand)
            } else if stack.len() == 1 {
                Err(EvalError::MissingLeftOperand)
            } else {
                let n = stack.len();
                Ok(
                    stack.take(n - 2).push(
                        Tree::Node(op, Box::new(stack[n - 2]), Box::new(stack[n - 1])),
                    ),
                )
            }
        },
    }
}

/// The value stack after every token, left to right, or the first error.
pub open spec fn reduce_all(stack: Seq<Tree>, tokens: Seq<Postfix>) -> Result<Seq<Tree>, EvalError>
    decreases tokens.len(),
{
    if tokens.len() == 0 {
        Ok(stack)
    } else {
        match reduce_token(stack, tokens[0]) {
            Ok(next) => reduce_all(next, tokens.drop_first()),
            Err(e) => Err(e),
        }
    }
}

/// What a postfix sequence reduces to: the value left on top of the stack.
/// Values below it are ignored.
pub open spec fn reduction_of(tokens: Seq<Postfix>) -> Result<Tree, EvalError> {
    match reduce_all(seq![], tokens) {
        Ok(stack) => if stack.len() == 0 {
            Err(EvalError::NoResult)
        } else {
            Ok(stack.last())
        },
        Err(e) => Err(e),
    }
}

impl Expression {
    /// Reduces the postfix sequence, left to right, with a stack of values.
    pub fn reduce(&self) -> (r: Result<Tree, EvalError>)
        ensures
            r == reduction_of(self.postfix@),
    {
        let mut stack: Vec<Tree> = Vec::new();
        let n = self.postfix.len();
        let mut i: usize = 0;
        proof {
            assert(self.postfix@.skip(0) =~= self.postfix@);
        }
        while i < n
            invariant
                i <= n,
                n == self.postfix@.len(),
                reduce_all(stack@, self.postfix@.skip(i as int)) == reduce_all(
                    seq![],
                    self.postfix@,
                ),
            decreases n - i,
        {
            proof {
                assert(self.postfix@.skip(i as int).drop_first() =~= self.postfix@.skip(i + 1));
            }
            match self.postfix[i] {
                Postfix::Operand(operand) => stack.push(Tree::Leaf(operand)),
                Postfix::Operator(operator) => {
                    let ghost before = stack@;
                    let right = match stack.pop() {
                        Some(value) => value,
                        None => return Err(EvalError::MissingRightOperand),
                    };
                    let left = match stack.pop() {
                        Some(value) => value,
                        None => return Err(EvalError::MissingLeftOperand),
                    };
                    stack.push(Tree::Node(operator, Box::new(left), Box::new(right)));
                    proof {
                        let m = before.len();
                        assert(stack@ =~= before.take(m - 2).push(
                            Tree::Node(operator, Box::new(before[m - 2]), Box::new(before[m - 1])),
                        ));
                    }
                },
            }
            i = i + 1;
        }
        proof {
            assert(self.postfix@.skip(n as int) =~= Seq::<Postfix>::empty());
        }
        match stack.pop() {
            Some(result) => Ok(result),
            None => Err(EvalError::NoResult),
        }
    }
}

} // verus!
