use vstd::prelude::*;

verus! {

/// A token of the infix language that is not part of a number.
///
/// `NotAnOperator` stands for any character that the language does not
/// recognise as an operator or a parenthesis.
#[derive(Debug, Clone, Copy, PartialEq, Eq, Structural)]
pub enum Operator {
    Add,
    Subtract,
    Multiply,
    Divide,
    Exponent,
    OpenParenthesis,
    CloseParenthesis,
    NotAnOperator,
}

/// The operator that a character denotes.
pub open spec fn operator_of(c: char) -> Operator {
    if c == '+' {
        Operator::Add
    } else if c == '-' {
        Operator::Subtract
    } else if c == '*' {
        Operator::Multiply
    } else if c == '/' {
        Operator::Divide
    } else if c == '^' {
        Operator::Exponent
    } else if c == '(' {
        Operator::OpenParenthesis
    } else if c == ')' {
        Operator::CloseParenthesis
    } else {
        Operator::NotAnOperator
    }
}

impl Operator {
    pub open spec fn spec_precedence(self) -> u8 {
        match self {
            Operator::Add | Operator::Subtract => 1,
            Operator::Multiply | Operator::Divide => 2,
            Operator::Exponent => 3,
            _ => 0,
        }
    }

    /// Whether the operator groups from the left; only the exponent does not.
    pub open spec fn spec_left_associative(self) -> bool {
        !(self is Exponent)
    }

    pub open spec fn spec_is_operator(self) -> bool {
        !(self is NotAnOperator)
    }

    /// One of the five arithmetic operators.
    pub open spec fn spec_is_binary(self) -> bool {
        match self {
            Operator::Add | Operator::Subtract | Operator::Multiply | Operator::Divide
            | Operator::Exponent => true,
            _ => false,
        }
    }

    /// The character that denotes the operator, if any.
    pub open spec fn spec_symbol(self) -> Option<char> {
        match self {
            Operator::Add => Some('+'),
            Operator::Subtract => Some('-'),
            Operator::Multiply => Some('*'),
            Operator::Divide => Some('/'),
            Operator::Exponent => Some('^'),
            Operator::OpenParenthesis => Some('('),
            Operator::CloseParenthesis => Some(')'),
            Operator::NotAnOperator => None,
        }
    }

    pub fn from_char(c: char) -> (r: Operator)
        ensures
            r == operator_of(c),
    {
        match c {
            '+' => Operator::Add,
            '-' => Operator::Subtract,
            '*' => Operator::Multiply,
            '/' => Operator::Divide,
            '^' => Operator::Exponent,
            '(' => Operator::OpenParenthesis,
            ')' => Operator::CloseParenthesis,
            _ => Operator::NotAnOperator,
        }
    }

    pub fn precedence(&self) -> (r: u8)
        ensures
            r == self.spec_precedence(),
    {
        match self {
            Operator::Add | Operator::Subtract => 1,
            Operator::Multiply | Operator::Divide => 2,
            Operator::Exponent => 3,
            _ => 0,
        }
    }

    /// `true` for a left-associative operator, `false` for the exponent.
    pub fn associativity(&self) -> (r: bool)
        ensures
            r == self.spec_left_associative(),
    {
        match self {
            Operator::Exponent => false,
            _ => true,
        }
    }

    pub fn is_operator(&self) -> (r: bool)
        ensures
            r == self.spec_is_operator(),
    {
        !matches!(self, Operator::NotAnOperator)
    }

    pub fn is_operator_not_parenthesis(&self) -> (r: bool)
        ensures
            r == self.spec_is_binary(),
    {
        self.is_operator() && !matches!(self, Operator::OpenParenthesis | Operator::CloseParenthesis)
    }

    pub fn symbol(&self) -> (r: Option<char>)
        ensures
            r == self.spec_symbol(),
    {
        match self {
            Operator::Add => Some('+'),
            Operator::Subtract => Some('-'),
            Operator::Multiply => Some('*'),
            Operator::Divide => Some('/'),
            Operator::Exponent => Some('^'),
            Operator::OpenParenthesis => Some('('),
            Operator::CloseParenthesis => Some(')'),
            Operator::NotAnOperator => None,
        }
    }
}

/// Every operator that has a symbol is read back from it.
pub proof fn lemma_symbol_round_trip(op: Operator)
    ensures
        op.spec_symbol() matches Some(c) ==> operator_of(c) == op,
        op.spec_symbol() is None <==> !op.spec_is_operator(),
{
}

} // verus!
