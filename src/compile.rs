use vstd::prelude::*;
use crate::ops::{Op, prec, arity_of};
use crate::lexer::{Token, Lexeme, view_tokens, is_digit, is_literal_char, tokenize, lex};

verus! {

/// Why an expression cannot be evaluated.
#[derive(Clone, Debug, PartialEq, Eq)]
pub enum EvalError {
    /// A character outside the calculator's alphabet.
    Lexical(char),
    /// A literal that is not a well-formed number.
    InvalidNumber(String),
    /// An operator lacks operands.
    MissingOperand,
    /// Division with a zero divisor.
    DivisionByZero,
    /// Evaluation left zero or several values.
    IncorrectInput,
    /// A parenthesis without its partner.
    UnbalancedParentheses,
}

/// The mathematical value of an error.
pub enum Fault {
    Lexical(char),
    InvalidNumber(Seq<char>),
    MissingOperand,
    DivisionByZero,
    IncorrectInput,
    UnbalancedParentheses,
}

impl View for EvalError {
    type V = Fault;

    open spec fn view(&self) -> Fault {
        match self {
            EvalError::Lexical(c) => Fault::Lexical(*c),
            EvalError::InvalidNumber(s) => Fault::InvalidNumber(s@),
            EvalError::MissingOperand => Fault::MissingOperand,
            EvalError::DivisionByZero => Fault::DivisionByZero,
            EvalError::IncorrectInput => Fault::IncorrectInput,
            EvalError::UnbalancedParentheses => Fault::UnbalancedParentheses,
        }
    }
}

/// One instruction of a postfix program.
#[derive(Clone, Debug, PartialEq, Eq)]
pub enum Step {
    /// Push the number that the literal denotes.
    Push(String),
    /// Pop the operator's operands, push its result.
    Apply(Op),
}

pub enum Instr {
    Push(Seq<char>),
    Apply(Op),
}

impl View for Step {
    type V = Instr;

    open spec fn view(&self) -> Instr {
        match self {
            Step::Push(s) => Instr::Push(s@),
            Step::Apply(op) => Instr::Apply(*op),
        }
    }
}

pub open spec fn view_steps(ps: Seq<Step>) -> Seq<Instr> {
    ps.map_values(|p: Step| p@)
}

/// An entry of the operator stack: an open-parenthesis barrier or an
/// operator waiting for its right operand.
#[derive(Clone, Copy, Debug, PartialEq, Eq, Structural)]
pub enum Marker {
    Open,
    Pending(Op),
}

/// A literal without its leading minus, if it has one.
pub open spec fn unsigned_part(s: Seq<char>) -> Seq<char> {
    if s.len() > 0 && s[0] == '-' {
        s.drop_first()
    } else {
        s
    }
}

/// A literal accepted as a number: an optional leading minus, then digits
/// and at most one decimal point, with at least one digit.
pub open spec fn is_numeric_literal(s: Seq<char>) -> bool {
    let body = unsigned_part(s);
    &&& forall|i: int| 0 <= i < body.len() ==> is_literal_char(#[trigger] body[i])
    &&& exists|i: int| 0 <= i < body.len() && is_digit(#[trigger] body[i])
    &&& forall|i: int, j: int|
        0 <= i < j < body.len() && #[trigger] body[i] == '.' ==> #[trigger] body[j] != '.'
}

/// How many values an instruction adds to the value stack (negative when
/// it takes more than it gives back).
pub open spec fn effect(x: Instr) -> int {
    match x {
        Instr::Push(_) => 1,
        Instr::Apply(op) => 1 - arity_of(op),
    }
}

/// How many values remain after running `p` on an empty value stack.
pub open spec fn depth_after(p: Seq<Instr>) -> int
    decreases p.len(),
{
    if p.len() == 0 {
        0
    } else {
        depth_after(p.drop_last()) + effect(p.last())
    }
}

/// Every operator of `p` finds its operands on the value stack.
pub open spec fn well_stacked(p: Seq<Instr>) -> bool {
    forall|k: int|
        0 <= k < p.len() ==> (#[trigger] p[k] matches Instr::Apply(op) ==> depth_after(p.take(k))
            >= arity_of(op))
}

/// Every literal that `p` pushes is well-formed.
pub open spec fn literals_valid(p: Seq<Instr>) -> bool {
    forall|k: int| 0 <= k < p.len() ==> (#[trigger] p[k] matches Instr::Push(s) ==> is_numeric_literal(s))
}

proof fn lemma_push(p: Seq<Instr>, x: Instr)
    ensures
        depth_after(p.push(x)) == depth_after(p) + effect(x),
        well_stacked(p) && (x matches Instr::Apply(op) ==> depth_after(p) >= arity_of(op))
            ==> well_stacked(p.push(x)),
        literals_valid(p) && (x matches Instr::Push(s) ==> is_numeric_literal(s))
            ==> literals_valid(p.push(x)),
{
    assert(p.push(x).drop_last() =~= p);
    assert(p.push(x).take(p.len() as int) =~= p);
    assert forall|k: int| 0 <= k < p.len() implies #[trigger] p.push(x).take(k) =~= p.take(k) by {}
}

/// The compiler's state: the instructions emitted, the operator stack,
/// how many values the emitted instructions leave, and the first fault.
pub struct Shunt {
    pub program: Seq<Instr>,
    pub stack: Seq<Marker>,
    pub depth: int,
    pub fault: Option<Fault>,
}

/// Pops the top operator and emits it, or faults when too few values wait.
pub open spec fn apply_top(st: Shunt) -> Shunt {
    let rest = st.stack.drop_last();
    match st.stack.last() {
        Marker::Pending(op) => if st.depth < arity_of(op) {
            Shunt { stack: rest, fault: Some(Fault::MissingOperand), ..st }
        } else {
            Shunt {
                program: st.program.push(Instr::Apply(op)),
                stack: rest,
                depth: st.depth - arity_of(op) + 1,
                fault: None,
            }
        },
        Marker::Open => Shunt { stack: rest, ..st },
    }
}

pub open spec fn top_binds_at_least(st: Shunt, op: Op) -> bool {
    &&& st.stack.len() > 0
    &&& st.stack.last() matches Marker::Pending(t) && prec(t) >= prec(op)
}

/// Applies the stacked operators that bind at least as tightly as `op`.
pub open spec fn reduce_for(st: Shunt, op: Op) -> Shunt
    decreases st.stack.len(),
{
    if st.fault is None && top_binds_at_least(st, op) {
        reduce_for(apply_top(st), op)
    } else {
        st
    }
}

/// Applies operators down to the nearest open parenthesis and drops it.
pub open spec fn close(st: Shunt) -> Shunt
    decreases st.stack.len(),
{
    if st.fault is Some {
        st
    } else if st.stack.len() == 0 {
        Shunt { fault: Some(Fault::UnbalancedParentheses), ..st }
    } else if st.stack.last() is Open {
        Shunt { stack: st.stack.drop_last(), ..st }
    } else {
        close(apply_top(st))
    }
}

/// Applies every remaining operator; an open parenthesis left is a fault.
pub open spec fn drain(st: Shunt) -> Shunt
    decreases st.stack.len(),
{
    if st.fault is Some || st.stack.len() == 0 {
        st
    } else if st.stack.last() is Open {
        Shunt { fault: Some(Fault::UnbalancedParentheses), ..st }
    } else {
        drain(apply_top(st))
    }
}

/// The compiler's state after one more token.
pub open spec fn shift(st: Shunt, t: Lexeme) -> Shunt {
    if st.fault is Some {
        st
    } else {
        match t {
            Lexeme::Number(s) => if is_numeric_literal(s) {
                Shunt { program: st.program.push(Instr::Push(s)), depth: st.depth + 1, ..st }
            } else {
                Shunt { fault: Some(Fault::InvalidNumber(s)), ..st }
            },
            Lexeme::Operator(op) => {
                let r = reduce_for(st, op);
                if r.fault is Some {
                    r
                } else {
                    Shunt { stack: r.stack.push(Marker::Pending(op)), ..r }
                }
            },
            Lexeme::OpenParen => Shunt { stack: st.stack.push(Marker::Open), ..st },
            Lexeme::CloseParen => close(st),
            Lexeme::Invalid(c) => Shunt { fault: Some(Fault::Lexical(c)), ..st },
        }
    }
}

pub open spec fn initial() -> Shunt {
    Shunt { program: Seq::empty(), stack: Seq::empty(), depth: 0, fault: None }
}

/// The compiler's state after the first `n` tokens.
pub open spec fn run(ts: Seq<Lexeme>, n: int) -> Shunt
    decreases n,
{
    if n <= 0 {
        initial()
    } else {
        shift(run(ts, n - 1), ts[n - 1])
    }
}

/// Drains the operator stack and demands that exactly one value remains.
pub open spec fn finish(st: Shunt) -> Shunt {
    let d = drain(st);
    if d.fault is None && d.depth != 1 {
        Shunt { fault: Some(Fault::IncorrectInput), ..d }
    } else {
        d
    }
}

/// The compiled form of a token sequence.
pub open spec fn compiled(ts: Seq<Lexeme>) -> Shunt {
    finish(run(ts, ts.len() as int))
}

proof fn lemma_fault_sticks(ts: Seq<Lexeme>, n: int, m: int)
    requires
        0 <= n <= m,
        run(ts, n).fault is Some,
    ensures
        run(ts, m) == run(ts, n),
    decreases m - n,
{
    if m > n {
        lemma_fault_sticks(ts, n, m - 1);
    }
}

/// Whether `s` is a well-formed numeric literal.
pub fn is_numeric(s: &String) -> (r: bool)
    ensures
        r == is_numeric_literal(s@),
{
    let n = s.unicode_len();
    let start: usize = if n > 0 && s.as_str().get_char(0) == '-' {
        1
    } else {
        0
    };
    let ghost body = unsigned_part(s@);
    assert(body =~= s@.subrange(start as int, n as int));
    let mut digits = false;
    let mut dot = false;
    let mut i: usize = start;
    while i < n
        invariant
            n == s@.len(),
            start <= i <= n,
            body == s@.subrange(start as int, n as int),
            body == unsigned_part(s@),
            forall|k: int| 0 <= k < i - start ==> is_literal_char(#[trigger] body[k]),
            digits == exists|k: int| 0 <= k < i - start && is_digit(#[trigger] body[k]),
            dot == exists|k: int| 0 <= k < i - start && #[trigger] body[k] == '.',
            forall|a: int, b: int|
                0 <= a < b < i - start && #[trigger] body[a] == '.' ==> #[trigger] body[b] != '.',
        decreases n - i,
    {
        let c = s.as_str().get_char(i);
        assert(body[i - start] == c);
        if '0' <= c && c <= '9' {
            digits = true;
        } else if c == '.' {
            if dot {
                let ghost k = choose|k: int| 0 <= k < i - start && #[trigger] body[k] == '.';
                assert(body[k] == '.' && body[i - start] == '.');
                assert(!is_numeric_literal(s@));
                return false;
            }
            dot = true;
        } else {
            assert(!is_literal_char(body[i - start]));
            assert(!is_numeric_literal(s@));
            return false;
        }
        i = i + 1;
    }
    if !digits {
        assert(forall|k: int| 0 <= k < body.len() ==> !is_digit(#[trigger] body[k]));
        assert(!is_numeric_literal(s@));
    } else {
        assert(is_numeric_literal(s@));
    }
    digits
}

/// The instructions emitted, the operator stack, and how many values the
/// emitted instructions leave.
struct Compiler {
    steps: Vec<Step>,
    stack: Vec<Marker>,
    depth: usize,
}

pub open spec fn fault_of(e: Option<EvalError>) -> Option<Fault> {
    match e {
        Some(e) => Some(e@),
        None => None,
    }
}

pub open spec fn err_of(r: Result<(), EvalError>) -> Option<Fault> {
    match r {
        Ok(()) => None,
        Err(e) => Some(e@),
    }
}

impl Compiler {
    spec fn inv(&self) -> bool {
        &&& well_stacked(view_steps(self.steps@))
        &&& literals_valid(view_steps(self.steps@))
        &&& depth_after(view_steps(self.steps@)) == self.depth
    }

    spec fn state(&self, fault: Option<Fault>) -> Shunt {
        Shunt {
            program: view_steps(self.steps@),
            stack: self.stack@,
            depth: self.depth as int,
            fault,
        }
    }

    fn emit(&mut self, step: Step)
        requires
            old(self).inv(),
            step@ matches Instr::Apply(op) ==> old(self).depth >= arity_of(op),
            step@ matches Instr::Push(s) ==> is_numeric_literal(s),
        ensures
            well_stacked(view_steps(final(self).steps@)),
            literals_valid(view_steps(final(self).steps@)),
            depth_after(view_steps(final(self).steps@)) == old(self).depth + effect(step@),
            view_steps(final(self).steps@) == view_steps(old(self).steps@).push(step@),
            final(self).stack == old(self).stack,
            final(self).depth == old(self).depth,
    {
        self.steps.push(step);
        assert(view_steps(self.steps@) =~= view_steps(old(self).steps@).push(step@));
        proof {
            lemma_push(view_steps(old(self).steps@), step@);
        }
    }

    fn apply_top(&mut self) -> (r: Result<(), EvalError>)
        requires
            old(self).inv(),
            old(self).stack@.len() > 0,
            old(self).stack@.last() is Pending,
        ensures
            final(self).inv(),
            final(self).state(err_of(r)) == apply_top(old(self).state(None)),
            final(self).depth <= old(self).depth,
            r is Err ==> r == Err::<(), EvalError>(EvalError::MissingOperand),
    {
        let m = self.stack.pop().unwrap();
        match m {
            Marker::Pending(op) => {
                let k = op.arity();
                if self.depth < k {
                    Err(EvalError::MissingOperand)
                } else {
                    self.emit(Step::Apply(op));
                    self.depth = self.depth - k + 1;
                    Ok(())
                }
            },
            Marker::Open => unreached(),
        }
    }

    fn reduce_for(&mut self, op: Op) -> (r: Result<(), EvalError>)
        requires
            old(self).inv(),
        ensures
            final(self).inv(),
            final(self).state(err_of(r)) == reduce_for(old(self).state(None), op),
            final(self).depth <= old(self).depth,
    {
        while self.stack.len() > 0
            invariant
                self.inv(),
                reduce_for(self.state(None), op) == reduce_for(old(self).state(None), op),
                self.depth <= old(self).depth,
            decreases self.stack@.len(),
        {
            let top = self.stack[self.stack.len() - 1];
            match top {
                Marker::Pending(t) => {
                    if t.precedence() >= op.precedence() {
                        let ghost prev = self.state(None);
                        let r = self.apply_top();
                        assert(reduce_for(prev, op) == reduce_for(apply_top(prev), op));
                        if r.is_err() {
                            assert(reduce_for(self.state(err_of(r)), op) == self.state(
                                err_of(r),
                            ));
                            return r;
                        }
                    } else {
                        return Ok(());
                    }
                },
                Marker::Open => {
                    return Ok(());
                },
            }
        }
        Ok(())
    }

    fn close(&mut self) -> (r: Result<(), EvalError>)
        requires
            old(self).inv(),
        ensures
            final(self).inv(),
            final(self).state(err_of(r)) == close(old(self).state(None)),
            final(self).depth <= old(self).depth,
    {
        while self.stack.len() > 0
            invariant
                self.inv(),
                close(self.state(None)) == close(old(self).state(None)),
                self.depth <= old(self).depth,
            decreases self.stack@.len(),
        {
            let top = self.stack[self.stack.len() - 1];
            match top {
                Marker::Open => {
                    self.stack.pop();
                    return Ok(());
                },
                Marker::Pending(_) => {
                    let ghost prev = self.state(None);
                    let r = self.apply_top();
                    assert(close(prev) == close(apply_top(prev)));
                    if r.is_err() {
                        assert(close(self.state(err_of(r))) == self.state(err_of(r)));
                        return r;
                    }
                },
            }
        }
        Err(EvalError::UnbalancedParentheses)
    }

    fn drain(&mut self) -> (r: Result<(), EvalError>)
        requires
            old(self).inv(),
        ensures
            final(self).inv(),
            final(self).state(err_of(r)) == drain(old(self).state(None)),
    {
        while self.stack.len() > 0
            invariant
                self.inv(),
                drain(self.state(None)) == drain(old(self).state(None)),
            decreases self.stack@.len(),
        {
            let top = self.stack[self.stack.len() - 1];
            match top {
                Marker::Open => {
                    return Err(EvalError::UnbalancedParentheses);
                },
                Marker::Pending(_) => {
                    let ghost prev = self.state(None);
                    let r = self.apply_top();
                    assert(drain(prev) == drain(apply_top(prev)));
                    if r.is_err() {
                        assert(drain(self.state(err_of(r))) == self.state(err_of(r)));
                        return r;
                    }
                },
            }
        }
        Ok(())
    }

    fn shift(&mut self, t: &Token) -> (r: Result<(), EvalError>)
        requires
            old(self).inv(),
            old(self).depth < usize::MAX,
        ensures
            final(self).inv(),
            final(self).state(err_of(r)) == shift(old(self).state(None), t@),
            final(self).depth <= old(self).depth + 1,
    {
        match t {
            Token::Number(s) => {
                if is_numeric(s) {
                    self.emit(Step::Push(s.clone()));
                    self.depth = self.depth + 1;
                    Ok(())
                } else {
                    Err(EvalError::InvalidNumber(s.clone()))
                }
            },
            Token::Operator(op) => {
                let r = self.reduce_for(*op);
                if r.is_ok() {
                    self.stack.push(Marker::Pending(*op));
                }
                r
            },
            Token::OpenParen => {
                self.stack.push(Marker::Open);
                Ok(())
            },
            Token::CloseParen => self.close(),
            Token::Invalid(c) => Err(EvalError::Lexical(*c)),
        }
    }
}

/// A postfix program: the steps to run in order, then the fault that
/// stopped compilation, if any. Running the steps and then reporting the
/// fault gives the same outcome as evaluating the tokens eagerly.
pub struct Program {
    pub steps: Vec<Step>,
    pub fault: Option<EvalError>,
}

/// Compiles tokens into postfix order with the two-stack operator-precedence
/// method. Equal precedence groups to the left; `(` is a barrier. A `)`
/// without its `(`, or a `(` left open at the end, is
/// `UnbalancedParentheses`; an operator short of operands is
/// `MissingOperand`; anything but exactly one value at the end is
/// `IncorrectInput`.
pub fn compile(tokens: &Vec<Token>) -> (p: Program)
    ensures
        view_steps(p.steps@) == compiled(view_tokens(tokens@)).program,
        fault_of(p.fault) == compiled(view_tokens(tokens@)).fault,
        well_stacked(view_steps(p.steps@)),
        literals_valid(view_steps(p.steps@)),
        p.fault is None ==> depth_after(view_steps(p.steps@)) == 1,
{
    let mut c = Compiler { steps: Vec::new(), stack: Vec::new(), depth: 0 };
    let ghost ts = view_tokens(tokens@);
    assert(view_steps(c.steps@) =~= Seq::<Instr>::empty());
    assert(c.state(None) == run(ts, 0));
    assert(c.inv());
    let n = tokens.len();
    let mut i: usize = 0;
    while i < n
        invariant
            n == tokens@.len(),
            ts == view_tokens(tokens@),
            i <= n,
            c.depth <= i,
            c.state(None) == run(ts, i as int),
            c.inv(),
        decreases n - i,
    {
        assert(ts[i as int] == tokens@[i as int]@);
        let r = c.shift(&tokens[i]);
        if let Err(e) = r {
            proof {
                lemma_fault_sticks(ts, i + 1, n as int);
            }
            return Program { steps: c.steps, fault: Some(e) };
        }
        i = i + 1;
    }
    let r = c.drain();
    match r {
        Err(e) => Program { steps: c.steps, fault: Some(e) },
        Ok(()) => {
            if c.depth != 1 {
                Program { steps: c.steps, fault: Some(EvalError::IncorrectInput) }
            } else {
                Program { steps: c.steps, fault: None }
            }
        },
    }
}

/// Tokenizes and compiles the text `input`.
pub fn compile_text(input: &str) -> (p: Program)
    ensures
        view_steps(p.steps@) == compiled(lex(input@)).program,
        fault_of(p.fault) == compiled(lex(input@)).fault,
        well_stacked(view_steps(p.steps@)),
        literals_valid(view_steps(p.steps@)),
        p.fault is None ==> depth_after(view_steps(p.steps@)) == 1,
{
    let tokens = tokenize(input);
    compile(&tokens)
}

} // verus!
