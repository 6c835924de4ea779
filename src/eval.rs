use vstd::prelude::*;
use crate::ops::Op;
use crate::lexer::lex;
use crate::compile::{
    Program,
    Step,
    Instr,
    EvalError,
    Fault,
    fault_of,
    compiled,
    compile_text,
    is_numeric_literal,
    view_steps,
    depth_after,
    well_stacked,
    literals_valid,
};

verus! {

/// The text of a literal, as a sequence of characters.
pub type LiteralText = Seq<char>;

/// The number domain an expression is evaluated in. The evaluator decides
/// the order of operations and every structural error; the domain gives
/// literals their values and performs the arithmetic, each a function of
/// its arguments alone.
pub trait Arithmetic: Sized {
    /// The value that a well-formed literal denotes.
    spec fn literal_value(text: LiteralText) -> Self;

    /// The square root of `a`.
    spec fn sqrt_value(a: Self) -> Self;

    /// `a op b` for a binary operator, or the arithmetic fault it meets.
    spec fn binary_value(op: Op, a: Self, b: Self) -> Result<Self, EvalError>;

    /// The value of a well-formed literal.
    fn from_literal(text: &String) -> (r: Self)
        requires
            is_numeric_literal(text@),
        ensures
            r == Self::literal_value(text@),
    ;

    /// The square root of `a`.
    fn sqrt(a: Self) -> (r: Self)
        ensures
            r == Self::sqrt_value(a),
    ;

    /// `a op b` for a binary operator, or the arithmetic fault it meets
    /// (`DivisionByZero`).
    fn binary(op: Op, a: Self, b: Self) -> (r: Result<Self, EvalError>)
        requires
            op != Op::Sqrt,
        ensures
            r == Self::binary_value(op, a, b),
    ;
}

/// The value stack after running the instructions `p` from an empty stack
/// (the first operand pushed is the left one; square root replaces the top
/// value), or the first arithmetic fault met.
pub open spec fn run_values<N: Arithmetic>(p: Seq<Instr>) -> Result<Seq<N>, Fault>
    decreases p.len(),
{
    if p.len() == 0 {
        Ok(Seq::empty())
    } else {
        match run_values::<N>(p.drop_last()) {
            Err(e) => Err(e),
            Ok(vs) => match p.last() {
                Instr::Push(s) => Ok(vs.push(N::literal_value(s))),
                Instr::Apply(op) => if op == Op::Sqrt {
                    Ok(vs.drop_last().push(N::sqrt_value(vs.last())))
                } else {
                    match N::binary_value(op, vs[vs.len() - 2], vs.last()) {
                        Ok(v) => Ok(vs.subrange(0, vs.len() - 2).push(v)),
                        Err(e) => Err(e@),
                    }
                },
            },
        }
    }
}

/// The outcome of a compiled program: the first arithmetic fault, else the
/// program's own fault, else the single value left.
pub open spec fn outcome<N: Arithmetic>(p: Seq<Instr>, fault: Option<Fault>) -> Result<N, Fault> {
    match run_values::<N>(p) {
        Err(e) => Err(e),
        Ok(vs) => match fault {
            Some(f) => Err(f),
            None => Ok(vs.last()),
        },
    }
}

/// An evaluation result with its error seen as a `Fault`.
pub open spec fn result_view<N>(r: Result<N, EvalError>) -> Result<N, Fault> {
    match r {
        Ok(v) => Ok(v),
        Err(e) => Err(e@),
    }
}

proof fn lemma_error_sticks<N: Arithmetic>(p: Seq<Instr>, k: int, m: int)
    requires
        0 <= k <= m <= p.len(),
        run_values::<N>(p.take(k)) is Err,
    ensures
        run_values::<N>(p.take(m)) == run_values::<N>(p.take(k)),
    decreases m - k,
{
    if m > k {
        lemma_error_sticks::<N>(p, k, m - 1);
        assert(p.take(m).drop_last() =~= p.take(m - 1));
    }
}

/// Pushes each literal's value and applies each operator to the values on
/// top, stopping at the first arithmetic fault; then reports the program's
/// own fault, or else the single value left.
pub fn execute<N: Arithmetic>(p: Program) -> (r: Result<N, EvalError>)
    requires
        well_stacked(view_steps(p.steps@)),
        literals_valid(view_steps(p.steps@)),
        p.fault is None ==> depth_after(view_steps(p.steps@)) == 1,
    ensures
        result_view(r) == outcome::<N>(view_steps(p.steps@), fault_of(p.fault)),
{
    let ghost prog = view_steps(p.steps@);
    let mut values: Vec<N> = Vec::new();
    let n = p.steps.len();
    let mut i: usize = 0;
    assert(prog.take(0) =~= Seq::<Instr>::empty());
    assert(values@ =~= Seq::<N>::empty());
    while i < n
        invariant
            n == p.steps@.len(),
            prog == view_steps(p.steps@),
            well_stacked(prog),
            literals_valid(prog),
            i <= n,
            values@.len() == depth_after(prog.take(i as int)),
            run_values::<N>(prog.take(i as int)) == Ok::<Seq<N>, Fault>(values@),
        decreases n - i,
    {
        assert(prog.take(i + 1).drop_last() =~= prog.take(i as int));
        assert(prog[i as int] == p.steps@[i as int]@);
        let ghost vs = values@;
        match &p.steps[i] {
            Step::Push(text) => {
                assert(prog[i as int] == Instr::Push(text@));
                values.push(N::from_literal(text));
            },
            Step::Apply(op) => {
                assert(prog[i as int] == Instr::Apply(*op));
                if *op == Op::Sqrt {
                    let a = values.pop().unwrap();
                    values.push(N::sqrt(a));
                    assert(values@ =~= vs.drop_last().push(N::sqrt_value(vs.last())));
                } else {
                    let b = values.pop().unwrap();
                    let a = values.pop().unwrap();
                    assert(a == vs[vs.len() - 2] && b == vs.last());
                    match N::binary(*op, a, b) {
                        Ok(v) => {
                            values.push(v);
                            assert(values@ =~= vs.subrange(0, vs.len() - 2).push(v));
                        },
                        Err(e) => {
                            proof {
                                lemma_error_sticks::<N>(prog, i + 1, n as int);
                                assert(prog.take(n as int) =~= prog);
                            }
                            return Err(e);
                        },
                    }
                }
            },
        }
        i = i + 1;
    }
    assert(prog.take(n as int) =~= prog);
    match p.fault {
        Some(e) => Err(e),
        None => Ok(values.pop().unwrap()),
    }
}

/// Evaluates the text `input` in the number domain `N`: the compiled
/// program's steps run in order, and the result is the first arithmetic
/// fault, else the fault that compiling met, else the single value left.
pub fn evaluate<N: Arithmetic>(input: &str) -> (r: Result<N, EvalError>)
    ensures
        result_view(r) == outcome::<N>(compiled(lex(input@)).program, compiled(lex(input@)).fault),
{
    let p = compile_text(input);
    execute(p)
}

} // verus!
