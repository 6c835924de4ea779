use vstd::prelude::*;
use crate::ops::{Op, prec, op_of_symbol};
use crate::lexer::{Lexeme, LexState, lex, scan, is_literal_char, is_white_space};
use crate::eval::{Arithmetic, run_values, outcome};
use crate::compile::{Instr, Marker, Shunt, compiled, run, shift, reduce_for, drain, close, apply_top, is_numeric_literal, initial};

verus! {

pub open spec fn num(s: Seq<char>) -> Lexeme {
    Lexeme::Number(s)
}

pub open spec fn opr(op: Op) -> Lexeme {
    Lexeme::Operator(op)
}

pub open spec fn done(program: Seq<Instr>) -> Shunt {
    Shunt { program, stack: Seq::empty(), depth: 1, fault: None }
}

/// A binary operator between two well-formed literals compiles to pushing
/// both literals, left first, then applying the operator; it never faults.
pub proof fn law_binary(a: Seq<char>, op: Op, b: Seq<char>)
    requires
        is_numeric_literal(a),
        is_numeric_literal(b),
        op != Op::Sqrt,
    ensures
        compiled(seq![num(a), opr(op), num(b)]) == done(
            seq![Instr::Push(a), Instr::Push(b), Instr::Apply(op)],
        ),
{
    let ts = seq![num(a), opr(op), num(b)];
    assert(run(ts, 0) == initial());
    let s1 = run(ts, 1);
    assert(s1 == shift(initial(), num(a)));
    assert(s1.stack.len() == 0);
    assert(reduce_for(s1, op) == s1);
    let s2 = run(ts, 2);
    assert(s2 == shift(s1, opr(op)));
    let s3 = run(ts, 3);
    assert(s3 == shift(s2, num(b)));
    assert(s3.stack == seq![Marker::Pending(op)]);
    let d1 = apply_top(s3);
    assert(d1.stack =~= Seq::<Marker>::empty());
    assert(drain(d1) == d1);
    assert(d1.program =~= seq![Instr::Push(a), Instr::Push(b), Instr::Apply(op)]);
}

/// Of two binary operators between three literals, the one that binds
/// tighter is applied first; with equal binding the left one is, so equal
/// precedence groups to the left.
pub proof fn law_precedence(a: Seq<char>, o1: Op, b: Seq<char>, o2: Op, c: Seq<char>)
    requires
        is_numeric_literal(a),
        is_numeric_literal(b),
        is_numeric_literal(c),
        o1 != Op::Sqrt,
        o2 != Op::Sqrt,
    ensures
        compiled(seq![num(a), opr(o1), num(b), opr(o2), num(c)]) == if prec(o1) >= prec(o2) {
            done(
                seq![Instr::Push(a), Instr::Push(b), Instr::Apply(o1), Instr::Push(c), Instr::Apply(o2)],
            )
        } else {
            done(
                seq![Instr::Push(a), Instr::Push(b), Instr::Push(c), Instr::Apply(o2), Instr::Apply(o1)],
            )
        },
{
    let ts = seq![num(a), opr(o1), num(b), opr(o2), num(c)];
    assert(run(ts, 0) == initial());
    let s1 = run(ts, 1);
    assert(s1 == shift(initial(), num(a)));
    assert(reduce_for(s1, o1) == s1);
    let s2 = run(ts, 2);
    assert(s2 == shift(s1, opr(o1)));
    let s3 = run(ts, 3);
    assert(s3 == shift(s2, num(b)));
    assert(s3.stack == seq![Marker::Pending(o1)]);
    let s4 = run(ts, 4);
    assert(s4 == shift(s3, opr(o2)));
    let s5 = run(ts, 5);
    assert(s5 == shift(s4, num(c)));
    if prec(o1) >= prec(o2) {
        let t = apply_top(s3);
        assert(t.stack =~= Seq::<Marker>::empty());
        assert(reduce_for(t, o2) == t);
        assert(s5.stack =~= seq![Marker::Pending(o2)]);
        let d = apply_top(s5);
        assert(d.stack =~= Seq::<Marker>::empty());
        assert(drain(d) == d);
        assert(d.program =~= seq![
            Instr::Push(a),
            Instr::Push(b),
            Instr::Apply(o1),
            Instr::Push(c),
            Instr::Apply(o2),
        ]);
    } else {
        assert(reduce_for(s3, o2) == s3);
        assert(s5.stack =~= seq![Marker::Pending(o1), Marker::Pending(o2)]);
        let d1 = apply_top(s5);
        assert(d1.stack =~= seq![Marker::Pending(o1)]);
        let d2 = apply_top(d1);
        assert(d2.stack =~= Seq::<Marker>::empty());
        assert(drain(d2) == d2);
        assert(drain(s5) == drain(d1));
        assert(d2.program =~= seq![
            Instr::Push(a),
            Instr::Push(b),
            Instr::Push(c),
            Instr::Apply(o2),
            Instr::Apply(o1),
        ]);
    }
}

/// A parenthesised binary expression is applied before the operator that
/// follows it, whatever the two operators' precedence.
pub proof fn law_parentheses(a: Seq<char>, o1: Op, b: Seq<char>, o2: Op, c: Seq<char>)
    requires
        is_numeric_literal(a),
        is_numeric_literal(b),
        is_numeric_literal(c),
        o1 != Op::Sqrt,
        o2 != Op::Sqrt,
    ensures
        compiled(
            seq![
                Lexeme::OpenParen,
                num(a),
                opr(o1),
                num(b),
                Lexeme::CloseParen,
                opr(o2),
                num(c),
            ],
        ) == done(
            seq![Instr::Push(a), Instr::Push(b), Instr::Apply(o1), Instr::Push(c), Instr::Apply(o2)],
        ),
{
    let ts = seq![
        Lexeme::OpenParen,
        num(a),
        opr(o1),
        num(b),
        Lexeme::CloseParen,
        opr(o2),
        num(c),
    ];
    assert(run(ts, 0) == initial());
    let s1 = run(ts, 1);
    assert(s1 == shift(initial(), Lexeme::OpenParen));
    let s2 = run(ts, 2);
    assert(s2 == shift(s1, num(a)));
    assert(s2.stack == seq![Marker::Open]);
    assert(reduce_for(s2, o1) == s2);
    let s3 = run(ts, 3);
    assert(s3 == shift(s2, opr(o1)));
    let s4 = run(ts, 4);
    assert(s4 == shift(s3, num(b)));
    assert(s4.stack =~= seq![Marker::Open, Marker::Pending(o1)]);
    let t = apply_top(s4);
    assert(t.stack =~= seq![Marker::Open]);
    assert(close(s4) == close(t));
    let s5 = run(ts, 5);
    assert(s5 == shift(s4, Lexeme::CloseParen));
    assert(s5.stack =~= Seq::<Marker>::empty());
    assert(reduce_for(s5, o2) == s5);
    let s6 = run(ts, 6);
    assert(s6 == shift(s5, opr(o2)));
    let s7 = run(ts, 7);
    assert(s7 == shift(s6, num(c)));
    assert(s7.stack =~= seq![Marker::Pending(o2)]);
    let d = apply_top(s7);
    assert(d.stack =~= Seq::<Marker>::empty());
    assert(drain(d) == d);
    assert(d.program =~= seq![
        Instr::Push(a),
        Instr::Push(b),
        Instr::Apply(o1),
        Instr::Push(c),
        Instr::Apply(o2),
    ]);
}

/// Every character of `s` continues a literal (digits and decimal points).
pub open spec fn unsigned_digits(s: Seq<char>) -> bool {
    forall|i: int| 0 <= i < s.len() ==> is_literal_char(#[trigger] s[i])
}

proof fn lemma_scan_literal_run(s: Seq<char>, k: int, m: int)
    requires
        0 <= k,
        0 <= m,
        k + m <= s.len(),
        scan(s, k).bad is None,
        forall|i: int| k <= i < k + m ==> is_literal_char(#[trigger] s[i]),
    ensures
        scan(s, k + m) == (LexState {
            tokens: scan(s, k).tokens,
            pending: scan(s, k).pending + s.subrange(k, k + m),
            bad: None,
        }),
    decreases m,
{
    if m == 0 {
        assert(scan(s, k).pending + s.subrange(k, k) =~= scan(s, k).pending);
    } else {
        lemma_scan_literal_run(s, k, m - 1);
        assert(is_literal_char(s[k + m - 1]));
        assert(scan(s, k).pending + s.subrange(k, k + m) =~= (scan(s, k).pending + s.subrange(
            k,
            k + m - 1,
        )).push(s[k + m - 1]));
    }
}

/// The text `a c b`, with single spaces, where `a` and `b` are unsigned
/// literals and `c` writes a binary operator, tokenizes to the two numbers
/// around the operator and compiles to pushing `a`, pushing `b`, then
/// applying the operator, with no fault.
pub proof fn law_binary_text(a: Seq<char>, c: char, b: Seq<char>)
    requires
        unsigned_digits(a),
        unsigned_digits(b),
        is_numeric_literal(a),
        is_numeric_literal(b),
        op_of_symbol(c) is Some,
        c != 's',
    ensures
        lex(a + seq![' ', c, ' '] + b) == seq![num(a), opr(op_of_symbol(c)->0), num(b)],
        compiled(lex(a + seq![' ', c, ' '] + b)) == done(
            seq![Instr::Push(a), Instr::Push(b), Instr::Apply(op_of_symbol(c)->0)],
        ),
{
    let op = op_of_symbol(c)->0;
    let t = a + seq![' ', c, ' '] + b;
    let n = a.len() as int;
    assert(a.len() > 0 && b.len() > 0);
    assert(t.subrange(0, n) =~= a);
    assert(t.subrange(n + 3, n + 3 + b.len()) =~= b);
    assert forall|i: int| 0 <= i < n implies is_literal_char(#[trigger] t[i]) by {
        assert(t[i] == a[i]);
    }
    assert forall|i: int| n + 3 <= i < n + 3 + b.len() implies is_literal_char(#[trigger] t[i]) by {
        assert(t[i] == b[i - n - 3]);
    }
    assert(scan(t, 0).bad is None);
    lemma_scan_literal_run(t, 0, n);
    assert(Seq::<char>::empty() + a =~= a);
    assert(scan(t, n) == (LexState { tokens: Seq::empty(), pending: a, bad: None }));
    assert(t[n] == ' ' && t[n + 1] == c && t[n + 2] == ' ');
    assert(is_white_space(' '));
    assert(scan(t, n + 1) == (LexState { tokens: seq![num(a)], pending: Seq::empty(), bad: None }));
    assert(c == '-' ==> !(n + 1 == 0 || op_of_symbol(t[n]) is Some || t[n] == '('));
    assert(!is_literal_char(c));
    assert(scan(t, n + 2).tokens =~= seq![num(a), opr(op)]);
    assert(scan(t, n + 2) == (LexState {
        tokens: seq![num(a), opr(op)],
        pending: Seq::empty(),
        bad: None,
    }));
    assert(scan(t, n + 3) == scan(t, n + 2));
    lemma_scan_literal_run(t, n + 3, b.len() as int);
    assert(Seq::<char>::empty() + b =~= b);
    assert(t.len() == n + 3 + b.len());
    assert(lex(t) =~= seq![num(a), opr(op), num(b)]);
    law_binary(a, op, b);
}

/// Evaluating the text `a c b` (as in `law_binary_text`) in any number
/// domain gives the domain's closed form `a c b` of the two literals'
/// values, left operand first, or the fault that operation meets.
pub proof fn law_binary_value<N: Arithmetic>(a: Seq<char>, c: char, b: Seq<char>)
    requires
        unsigned_digits(a),
        unsigned_digits(b),
        is_numeric_literal(a),
        is_numeric_literal(b),
        op_of_symbol(c) is Some,
        c != 's',
    ensures
        outcome::<N>(
            compiled(lex(a + seq![' ', c, ' '] + b)).program,
            compiled(lex(a + seq![' ', c, ' '] + b)).fault,
        ) == match N::binary_value(
            op_of_symbol(c)->0,
            N::literal_value(a),
            N::literal_value(b),
        ) {
            Ok(v) => Ok(v),
            Err(e) => Err(e@),
        },
{
    law_binary_text(a, c, b);
    let op = op_of_symbol(c)->0;
    let p = seq![Instr::Push(a), Instr::Push(b), Instr::Apply(op)];
    assert(p.drop_last().drop_last().drop_last() =~= Seq::<Instr>::empty());
    assert(p.drop_last().drop_last() =~= seq![Instr::Push(a)]);
    assert(p.drop_last() =~= seq![Instr::Push(a), Instr::Push(b)]);
    let p1 = p.drop_last().drop_last();
    assert(p1.drop_last() =~= Seq::<Instr>::empty());
    assert(run_values::<N>(p1.drop_last()) == Ok::<Seq<N>, crate::compile::Fault>(Seq::empty()));
    assert(p1.last() == Instr::Push(a));
    let v1 = Seq::<N>::empty().push(N::literal_value(a));
    assert(run_values::<N>(p.drop_last().drop_last()) == Ok::<Seq<N>, crate::compile::Fault>(v1));
    let v2 = v1.push(N::literal_value(b));
    assert(run_values::<N>(p.drop_last()) == Ok::<Seq<N>, crate::compile::Fault>(v2));
    assert(v2[0] == N::literal_value(a) && v2[1] == N::literal_value(b));
    match N::binary_value(op, N::literal_value(a), N::literal_value(b)) {
        Ok(v) => {
            assert(v2.subrange(0, 0).push(v) =~= seq![v]);
        },
        Err(e) => {},
    }
}

} // verus!
