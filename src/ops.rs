use vstd::prelude::*;

verus! {

/// The operator symbols of the calculator. `Sqrt` is the unary prefix
/// square root, written `s`; all others are binary and left-associative.
#[derive(Clone, Copy, Debug, PartialEq, Eq, Structural)]
pub enum Op {
    Add,
    Sub,
    Mul,
    Div,
    Rem,
    Pow,
    Sqrt,
}

/// The operator written by the character `c`, if any.
pub open spec fn op_of_symbol(c: char) -> Option<Op> {
    if c == '+' {
        Some(Op::Add)
    } else if c == '-' {
        Some(Op::Sub)
    } else if c == '*' {
        Some(Op::Mul)
    } else if c == '/' {
        Some(Op::Div)
    } else if c == '%' {
        Some(Op::Rem)
    } else if c == '^' {
        Some(Op::Pow)
    } else if c == 's' {
        Some(Op::Sqrt)
    } else {
        None
    }
}

/// Binding strength: higher binds tighter.
pub open spec fn prec(op: Op) -> nat {
    match op {
        Op::Sqrt => 4,
        Op::Pow => 3,
        Op::Mul | Op::Div | Op::Rem => 2,
        Op::Add | Op::Sub => 1,
    }
}

/// How many operands the operator consumes.
pub open spec fn arity_of(op: Op) -> nat {
    match op {
        Op::Sqrt => 1,
        _ => 2,
    }
}

impl Op {
    /// The operator written by `c`, or `None` when `c` is no operator symbol.
    pub fn from_symbol(c: char) -> (r: Option<Op>)
        ensures
            r == op_of_symbol(c),
    {
        match c {
            '+' => Some(Op::Add),
            '-' => Some(Op::Sub),
            '*' => Some(Op::Mul),
            '/' => Some(Op::Div),
            '%' => Some(Op::Rem),
            '^' => Some(Op::Pow),
            's' => Some(Op::Sqrt),
            _ => None,
        }
    }

    /// The character that writes this operator.
    pub fn symbol(self) -> (r: char)
        ensures
            op_of_symbol(r) == Some(self),
    {
        match self {
            Op::Add => '+',
            Op::Sub => '-',
            Op::Mul => '*',
            Op::Div => '/',
            Op::Rem => '%',
            Op::Pow => '^',
            Op::Sqrt => 's',
        }
    }

    /// Binding strength of the operator.
    pub fn precedence(self) -> (r: u8)
        ensures
            r as nat == prec(self),
    {
        match self {
            Op::Sqrt => 4,
            Op::Pow => 3,
            Op::Mul | Op::Div | Op::Rem => 2,
            Op::Add | Op::Sub => 1,
        }
    }

    /// Number of operands the operator consumes.
    pub fn arity(self) -> (r: usize)
        ensures
            r as nat == arity_of(self),
    {
        match self {
            Op::Sqrt => 1,
            _ => 2,
        }
    }
}

} // verus!
