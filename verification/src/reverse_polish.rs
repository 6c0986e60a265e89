use vstd::prelude::*;

use crate::parser::{Ast, AstKind, BinOp, UniOp};
use crate::parser::{BinOpKind, UniOpKind};
use vstd::string::StringExecFns;

verus! {

/// The decimal digit character of `d`, for `d < 10`.
pub open spec fn digit_char(d: nat) -> char {
    if d == 0 {
        '0'
    } else if d == 1 {
        '1'
    } else if d == 2 {
        '2'
    } else if d == 3 {
        '3'
    } else if d == 4 {
        '4'
    } else if d == 5 {
        '5'
    } else if d == 6 {
        '6'
    } else if d == 7 {
        '7'
    } else if d == 8 {
        '8'
    } else {
        '9'
    }
}

/// The decimal digits of `n`, most significant first, without a sign and
/// without leading zeros (a lone `0` for zero).
pub open spec fn spec_nat_digits(n: nat) -> Seq<char>
    decreases n,
{
    if n < 10 {
        seq![digit_char(n)]
    } else {
        spec_nat_digits(n / 10).push(digit_char(n % 10))
    }
}

/// The symbol of a unary operator.
pub open spec fn spec_uniop_char(k: UniOpKind) -> char {
    match k {
        UniOpKind::Plus => '+',
        UniOpKind::Minus => '-',
    }
}

/// The symbol of a binary operator.
pub open spec fn spec_binop_char(k: BinOpKind) -> char {
    match k {
        BinOpKind::Add => '+',
        BinOpKind::Sub => '-',
        BinOpKind::Mult => '*',
        BinOpKind::Div => '/',
    }
}

/// The postfix rendering of a tree: a number becomes its decimal digits, a
/// unary operator is glued as a sign onto the front of its operand's
/// rendering, and a binary node renders its children left then right,
/// space-separated, with the operator symbol last.
pub open spec fn spec_rpn(a: Ast) -> Seq<char>
    decreases a,
{
    match a.value {
        AstKind::Num(n) => spec_nat_digits(n as nat),
        AstKind::UniOp { op, e } => seq![spec_uniop_char(op.value)] + spec_rpn(*e),
        AstKind::BinOp { op, l, r } => spec_rpn(*l) + seq![' '] + spec_rpn(*r) + seq![' ']
            + seq![spec_binop_char(op.value)],
    }
}

/// Appends the decimal digit `d` to `buf`.
fn push_digit(buf: &mut String, d: u64)
    requires
        d < 10,
    ensures
        final(buf)@ == old(buf)@ + seq![digit_char(d as nat)],
{
    if d == 0 {
        proof {
            reveal_strlit("0");
        }
        buf.append("0");
    } else if d == 1 {
        proof {
            reveal_strlit("1");
        }
        buf.append("1");
    } else if d == 2 {
        proof {
            reveal_strlit("2");
        }
        buf.append("2");
    } else if d == 3 {
        proof {
            reveal_strlit("3");
        }
        buf.append("3");
    } else if d == 4 {
        proof {
            reveal_strlit("4");
        }
        buf.append("4");
    } else if d == 5 {
        proof {
            reveal_strlit("5");
        }
        buf.append("5");
    } else if d == 6 {
        proof {
            reveal_strlit("6");
        }
        buf.append("6");
    } else if d == 7 {
        proof {
            reveal_strlit("7");
        }
        buf.append("7");
    } else if d == 8 {
        proof {
            reveal_strlit("8");
        }
        buf.append("8");
    } else {
        proof {
            reveal_strlit("9");
        }
        buf.append("9");
    }
    proof {
        assert(buf@ =~= old(buf)@ + seq![digit_char(d as nat)]);
    }
}

/// Appends the decimal digits of `n` to `buf`.
fn push_u64(buf: &mut String, n: u64)
    ensures
        final(buf)@ == old(buf)@ + spec_nat_digits(n as nat),
    decreases n,
{
    if n < 10 {
        push_digit(buf, n);
    } else {
        push_u64(buf, n / 10);
        push_digit(buf, n % 10);
        proof {
            assert(buf@ =~= old(buf)@ + spec_nat_digits(n as nat));
        }
    }
}

/// Compiles syntax trees to postfix text; carries no state.
pub struct RpnCompiler;

impl RpnCompiler {
    pub fn new() -> Self {
        RpnCompiler
    }

    /// The space-separated postfix rendering of `expr`. Always succeeds: a
    /// tree is already validated by construction.
    pub fn compile(&mut self, expr: &Ast) -> (r: String)
        ensures
            r@ == spec_rpn(*expr),
    {
        let mut buf = String::new();
        self.compile_inner(expr, &mut buf);
        proof {
            assert(buf@ =~= spec_rpn(*expr));
        }
        buf
    }

    fn compile_inner(&mut self, expr: &Ast, buf: &mut String)
        ensures
            final(buf)@ == old(buf)@ + spec_rpn(*expr),
        decreases *expr,
    {
        match &expr.value {
            AstKind::Num(n) => push_u64(buf, *n),
            AstKind::UniOp { op, e } => {
                self.compile_uniop(op, buf);
                self.compile_inner(&**e, buf);
                proof {
                    assert(buf@ =~= old(buf)@ + spec_rpn(*expr));
                }
            },
            AstKind::BinOp { op, l, r } => {
                self.compile_inner(&**l, buf);
                proof {
                    reveal_strlit(" ");
                }
                buf.append(" ");
                self.compile_inner(&**r, buf);
                buf.append(" ");
                self.compile_binop(op, buf);
                proof {
                    assert(" "@ =~= seq![' ']);
                    assert(buf@ =~= old(buf)@ + spec_rpn(*expr));
                }
            },
        }
    }

    fn compile_uniop(&mut self, op: &UniOp, buf: &mut String)
        ensures
            final(buf)@ == old(buf)@ + seq![spec_uniop_char(op.value)],
    {
        match op.value {
            UniOpKind::Plus => {
                proof {
                    reveal_strlit("+");
                }
                buf.append("+");
            },
            UniOpKind::Minus => {
                proof {
                    reveal_strlit("-");
                }
                buf.append("-");
            },
        }
        proof {
            assert(buf@ =~= old(buf)@ + seq![spec_uniop_char(op.value)]);
        }
    }

    fn compile_binop(&mut self, op: &BinOp, buf: &mut String)
        ensures
            final(buf)@ == old(buf)@ + seq![spec_binop_char(op.value)],
    {
        match op.value {
            BinOpKind::Add => {
                proof {
                    reveal_strlit("+");
                }
                buf.append("+");
            },
            BinOpKind::Sub => {
                proof {
                    reveal_strlit("-");
                }
                buf.append("-");
            },
            BinOpKind::Mult => {
                proof {
                    reveal_strlit("*");
                }
                buf.append("*");
            },
            BinOpKind::Div => {
                proof {
                    reveal_strlit("/");
                }
                buf.append("/");
            },
        }
        proof {
            assert(buf@ =~= old(buf)@ + seq![spec_binop_char(op.value)]);
        }
    }
}

} // verus!

verus! {

// ------------------------------------------------------------------
// A standard stack-based postfix evaluator reads the compiled text back
// to the very value the tree evaluates to.
// ------------------------------------------------------------------

use crate::interpreter::{spec_eval, spec_eval_binop_kind, spec_eval_uniop, widen_u64};
use vstd::wrapping::i64_specs;

/// The first position at or after `pos` holding a space.
pub open spec fn space_pos(s: Seq<char>, pos: int) -> int
    recommends
        0 <= pos <= s.len(),
    decreases s.len() - pos,
{
    if 0 <= pos && pos < s.len() && s[pos] != ' ' {
        space_pos(s, pos + 1)
    } else {
        pos
    }
}

/// `space_pos` finds the first space: nothing before it is one.
proof fn lemma_space_pos(s: Seq<char>, pos: int)
    requires
        0 <= pos <= s.len(),
    ensures
        pos <= space_pos(s, pos) <= s.len(),
        forall|j: int| pos <= j < space_pos(s, pos) ==> s[j] != ' ',
        space_pos(s, pos) < s.len() ==> s[space_pos(s, pos)] == ' ',
    decreases s.len() - pos,
{
    if pos < s.len() && s[pos] != ' ' {
        lemma_space_pos(s, pos + 1);
    }
}

/// A position that ends a run of non-spaces is exactly `space_pos`.
proof fn lemma_space_pos_is(s: Seq<char>, pos: int, end: int)
    requires
        0 <= pos <= end <= s.len(),
        forall|j: int| pos <= j < end ==> s[j] != ' ',
        end == s.len() || s[end] == ' ',
    ensures
        space_pos(s, pos) == end,
    decreases end - pos,
{
    if pos < end {
        lemma_space_pos_is(s, pos + 1, end);
    }
}

/// The space-separated words of `s`, split at every single space.
pub open spec fn split_words(s: Seq<char>) -> Seq<Seq<char>>
    decreases s.len(),
    via split_words_dec
{
    if s.len() == 0 {
        Seq::empty()
    } else {
        let i = space_pos(s, 0);
        if i >= s.len() {
            seq![s]
        } else {
            seq![s.subrange(0, i)] + split_words(s.subrange(i + 1, s.len() as int))
        }
    }
}

#[via_fn]
proof fn split_words_dec(s: Seq<char>) {
    if s.len() != 0 {
        lemma_space_pos(s, 0);
    }
}

/// The binary operator a one-character postfix word denotes, if any.
pub open spec fn op_of_word(w: Seq<char>) -> Option<BinOpKind> {
    if w.len() == 1 && w[0] == '+' {
        Some(BinOpKind::Add)
    } else if w.len() == 1 && w[0] == '-' {
        Some(BinOpKind::Sub)
    } else if w.len() == 1 && w[0] == '*' {
        Some(BinOpKind::Mult)
    } else if w.len() == 1 && w[0] == '/' {
        Some(BinOpKind::Div)
    } else {
        None
    }
}

/// The ten decimal digit characters.
pub open spec fn is_digit_char(c: char) -> bool {
    c == '0' || c == '1' || c == '2' || c == '3' || c == '4' || c == '5' || c == '6' || c == '7'
        || c == '8' || c == '9'
}

/// The value of a decimal digit character.
pub open spec fn char_digit(c: char) -> nat {
    if c == '0' {
        0
    } else if c == '1' {
        1
    } else if c == '2' {
        2
    } else if c == '3' {
        3
    } else if c == '4' {
        4
    } else if c == '5' {
        5
    } else if c == '6' {
        6
    } else if c == '7' {
        7
    } else if c == '8' {
        8
    } else {
        9
    }
}

/// The number a run of decimal digit characters denotes.
pub open spec fn digit_word_val(w: Seq<char>) -> nat
    recommends
        forall|k: int| 0 <= k < w.len() ==> is_digit_char(w[k]),
    decreases w.len(),
{
    if w.len() == 0 {
        0
    } else {
        digit_word_val(w.drop_last()) * 10 + char_digit(w.last())
    }
}

pub open spec fn all_digit_chars(w: Seq<char>) -> bool {
    forall|k: int| 0 <= k < w.len() ==> is_digit_char(w[k])
}

/// The signed 64-bit literal a postfix word denotes, if any: an optional
/// sign glued to a nonempty digit run. The magnitude is read as a `u64` and
/// the sign applied with the evaluator's own wrapping arithmetic.
pub open spec fn lit_of_word(w: Seq<char>) -> Option<i64> {
    let digits = if w.len() > 0 && (w[0] == '-' || w[0] == '+') {
        w.subrange(1, w.len() as int)
    } else {
        w
    };
    if digits.len() > 0 && all_digit_chars(digits) && digit_word_val(digits) <= u64::MAX {
        let m = widen_u64(digit_word_val(digits) as u64);
        Some(
            if w[0] == '-' {
                i64_specs::wrapping_sub(0, m)
            } else {
                m
            },
        )
    } else {
        None
    }
}

/// The standard stack machine on a word sequence: an operator word pops two
/// values and pushes the operation's value, any other word must be a literal
/// and is pushed; a malformed word, a missing operand or a zero divisor
/// fails.
pub open spec fn run_rpn_words(ws: Seq<Seq<char>>, stack: Seq<i64>) -> Option<Seq<i64>>
    decreases ws.len(),
{
    if ws.len() == 0 {
        Some(stack)
    } else {
        match op_of_word(ws[0]) {
            Some(k) => if stack.len() >= 2 {
                match spec_eval_binop_kind(k, stack[stack.len() - 2], stack[stack.len() - 1]) {
                    Ok(v) => run_rpn_words(ws.drop_first(), stack.take(stack.len() - 2).push(v)),
                    Err(_) => None,
                }
            } else {
                None
            },
            None => match lit_of_word(ws[0]) {
                Some(v) => run_rpn_words(ws.drop_first(), stack.push(v)),
                None => None,
            },
        }
    }
}

/// What a standard stack-based postfix evaluator makes of the text `s`:
/// split into space-separated words, run the stack machine from an empty
/// stack, and succeed when exactly one value remains.
pub open spec fn spec_rpn_eval(s: Seq<char>) -> Option<i64> {
    match run_rpn_words(split_words(s), Seq::empty()) {
        Some(st) => if st.len() == 1 {
            Some(st[0])
        } else {
            None
        },
        None => None,
    }
}

/// Every sign in the tree is glued to a number literal: the fragment whose
/// postfix rendering a stack machine can read back. A sign over a compound
/// operand, or a chain of signs, glues onto its operand's first word and is
/// no literal any more.
pub open spec fn signs_on_literals(a: Ast) -> bool
    decreases a,
{
    match a.value {
        AstKind::Num(_) => true,
        AstKind::UniOp { op, e } => (*e).value is Num,
        AstKind::BinOp { op, l, r } => signs_on_literals(*l) && signs_on_literals(*r),
    }
}

/// The digits of `n` are digit characters and read back as `n`.
proof fn lemma_digits_roundtrip(n: nat)
    ensures
        spec_nat_digits(n).len() > 0,
        all_digit_chars(spec_nat_digits(n)),
        digit_word_val(spec_nat_digits(n)) == n,
    decreases n,
{
    if n < 10 {
        let w = spec_nat_digits(n);
        assert(w.drop_last() =~= Seq::<char>::empty());
        assert(digit_word_val(Seq::<char>::empty()) == 0);
        assert(w.last() == digit_char(n));
        assert(char_digit(digit_char(n)) == n);
    } else {
        lemma_digits_roundtrip(n / 10);
        let w = spec_nat_digits(n);
        assert(w.drop_last() =~= spec_nat_digits(n / 10));
        assert(w.last() == digit_char(n % 10));
        assert(char_digit(digit_char(n % 10)) == n % 10);
        assert((n / 10) * 10 + n % 10 == n) by (nonlinear_arith);
        assert(forall|k: int| 0 <= k < w.len() ==> is_digit_char(w[k])) by {
            assert(forall|k: int|
                0 <= k < w.len() - 1 ==> w[k] == spec_nat_digits(n / 10)[k] && is_digit_char(
                    w[k],
                ));
        }
    }
}

/// The postfix rendering is never empty and never ends in a space.
proof fn lemma_rpn_shape(a: Ast)
    ensures
        spec_rpn(a).len() > 0,
        spec_rpn(a).last() != ' ',
    decreases a,
{
    match a.value {
        AstKind::Num(n) => {
            lemma_digits_roundtrip(n as nat);
        },
        AstKind::UniOp { op, e } => {
            lemma_rpn_shape(*e);
            assert(spec_rpn(a).last() == spec_rpn(*e).last());
        },
        AstKind::BinOp { op, l, r } => {
            lemma_rpn_shape(*l);
            lemma_rpn_shape(*r);
        },
    }
}

/// Splitting distributes over a space between two pieces, provided the left
/// piece is a nonempty word list not itself ending in a space.
proof fn lemma_split_concat(x: Seq<char>, y: Seq<char>)
    requires
        x.len() > 0,
        x.last() != ' ',
    ensures
        split_words(x + seq![' '] + y) == split_words(x) + split_words(y),
    decreases x.len(),
{
    let s = x + seq![' '] + y;
    assert(s.len() == x.len() + 1 + y.len());
    assert(s[x.len() as int] == ' ');
    lemma_space_pos(x, 0);
    let i = space_pos(x, 0);
    if i >= x.len() {
        lemma_space_pos_is(s, 0, x.len() as int);
        assert(s.subrange(0, x.len() as int) =~= x);
        assert(s.subrange(x.len() as int + 1, s.len() as int) =~= y);
        assert(split_words(s) == seq![x] + split_words(y));
    } else {
        lemma_space_pos_is(s, 0, i);
        let xr = x.subrange(i + 1, x.len() as int);
        assert(x[x.len() - 1] != ' ' && x[i] == ' ');
        assert(i + 1 < x.len());
        assert(xr.len() > 0 && xr.last() == x.last());
        assert(s.subrange(0, i) =~= x.subrange(0, i));
        assert(s.subrange(i + 1, s.len() as int) =~= xr + seq![' '] + y);
        lemma_split_concat(xr, y);
        assert(split_words(s) == seq![x.subrange(0, i)] + (split_words(xr) + split_words(y)));
        assert(split_words(x) == seq![x.subrange(0, i)] + split_words(xr));
        assert(seq![x.subrange(0, i)] + (split_words(xr) + split_words(y)) =~= (seq![
            x.subrange(0, i),
        ] + split_words(xr)) + split_words(y));
    }
}

/// The stack machine runs a concatenation of word lists in sequence.
proof fn lemma_run_concat(ws1: Seq<Seq<char>>, ws2: Seq<Seq<char>>, stack: Seq<i64>)
    ensures
        run_rpn_words(ws1 + ws2, stack) == (match run_rpn_words(ws1, stack) {
            Some(st) => run_rpn_words(ws2, st),
            None => None,
        }),
    decreases ws1.len(),
{
    if ws1.len() == 0 {
        assert(ws1 + ws2 =~= ws2);
    } else {
        let s = ws1 + ws2;
        assert(s[0] == ws1[0]);
        assert(s.drop_first() =~= ws1.drop_first() + ws2);
        match op_of_word(ws1[0]) {
            Some(k) => {
                if stack.len() >= 2 {
                    match spec_eval_binop_kind(k, stack[stack.len() - 2], stack[stack.len() - 1]) {
                        Ok(v) => {
                            lemma_run_concat(
                                ws1.drop_first(),
                                ws2,
                                stack.take(stack.len() - 2).push(v),
                            );
                        },
                        Err(_) => {},
                    }
                }
            },
            None => {
                match lit_of_word(ws1[0]) {
                    Some(v) => {
                        lemma_run_concat(ws1.drop_first(), ws2, stack.push(v));
                    },
                    None => {},
                }
            },
        }
    }
}

/// A word of digits, optionally signed, splits as one word and pushes the
/// literal it denotes.
proof fn lemma_literal_word(w: Seq<char>, stack: Seq<i64>, v: i64)
    requires
        w.len() > 0,
        forall|j: int| 0 <= j < w.len() ==> w[j] != ' ',
        op_of_word(w) is None,
        lit_of_word(w) == Some(v),
    ensures
        run_rpn_words(split_words(w), stack) == Some(stack.push(v)),
{
    lemma_space_pos_is(w, 0, w.len() as int);
    assert(split_words(w) == seq![w]);
    assert(seq![w].drop_first() =~= Seq::<Seq<char>>::empty());
    assert(run_rpn_words(seq![w].drop_first(), stack.push(v)) == Some(stack.push(v)));
}

/// One operator word pops the two topmost values and pushes the
/// operation's value.
proof fn lemma_op_word_run(k: BinOpKind, opc: char, stack: Seq<i64>, lv: i64, rv: i64, v: i64)
    requires
        op_of_word(seq![opc]) == Some(k),
        spec_eval_binop_kind(k, lv, rv) == Ok::<i64, crate::error::InterpreterErrorKind>(v),
    ensures
        run_rpn_words(seq![seq![opc]], stack.push(lv).push(rv)) == Some(stack.push(v)),
{
    let st2 = stack.push(lv).push(rv);
    assert(st2[st2.len() - 2] == lv && st2[st2.len() - 1] == rv);
    assert(st2.take(st2.len() - 2) =~= stack);
    assert(seq![seq![opc]][0] == seq![opc]);
    assert(seq![seq![opc]].drop_first() =~= Seq::<Seq<char>>::empty());
    assert(run_rpn_words(Seq::<Seq<char>>::empty(), stack.push(v)) == Some(stack.push(v)));
}

/// Running the words of a compiled tree pushes exactly the tree's value.
#[verifier::rlimit(50)]
proof fn lemma_rpn_run(a: Ast, stack: Seq<i64>)
    requires
        signs_on_literals(a),
        spec_eval(a) is Ok,
    ensures
        run_rpn_words(split_words(spec_rpn(a)), stack) == Some(stack.push(spec_eval(a)->Ok_0)),
    decreases a,
{
    match a.value {
        AstKind::Num(n) => {
            let w = spec_rpn(a);
            lemma_digits_roundtrip(n as nat);
            assert(w == spec_nat_digits(n as nat));
            assert(forall|j: int| 0 <= j < w.len() ==> is_digit_char(#[trigger] w[j]) && w[j]
                != ' ');
            assert(op_of_word(w) is None);
            assert(lit_of_word(w) == Some(widen_u64(n)));
            lemma_literal_word(w, stack, widen_u64(n));
            assert(spec_eval(a) == Ok::<i64, crate::error::InterpreterError>(widen_u64(n)));
        },
        AstKind::UniOp { op, e } => {
            match (*e).value {
                AstKind::Num(n) => {
                    let w = spec_rpn(a);
                    let digits = spec_nat_digits(n as nat);
                    lemma_digits_roundtrip(n as nat);
                    assert(spec_rpn(*e) == digits);
                    assert(w == seq![spec_uniop_char(op.value)] + spec_rpn(*e));
                    assert(w =~= seq![spec_uniop_char(op.value)] + digits);
                    assert(w.len() >= 2);
                    assert(forall|j: int| 0 <= j < w.len() ==> w[j] != ' ') by {
                        assert(forall|j: int|
                            1 <= j < w.len() ==> w[j] == digits[j - 1] && is_digit_char(w[j]));
                    }
                    assert(w.subrange(1, w.len() as int) =~= digits);
                    let v = spec_eval_uniop(op, widen_u64(n));
                    assert(lit_of_word(w) == Some(v));
                    lemma_literal_word(w, stack, v);
                    assert(spec_eval(*e) == Ok::<i64, crate::error::InterpreterError>(
                        widen_u64(n),
                    ));
                    assert(spec_eval(a) == Ok::<i64, crate::error::InterpreterError>(v));
                },
                _ => {
                    assert(false);
                },
            }
        },
        AstKind::BinOp { op, l, r } => {
            let rl = spec_rpn(*l);
            let rr = spec_rpn(*r);
            let opc = spec_binop_char(op.value);
            let w = spec_rpn(a);
            lemma_rpn_shape(*l);
            lemma_rpn_shape(*r);
            let lv = spec_eval(*l)->Ok_0;
            let rv = spec_eval(*r)->Ok_0;
            assert(spec_eval(*l) is Ok && spec_eval(*r) is Ok && spec_eval_binop_kind(
                op.value,
                lv,
                rv,
            ) is Ok);
            assert(w =~= rl + seq![' '] + (rr + seq![' '] + seq![opc]));
            lemma_split_concat(rl, rr + seq![' '] + seq![opc]);
            lemma_split_concat(rr, seq![opc]);
            assert(opc != ' ');
            lemma_space_pos_is(seq![opc], 0, 1);
            assert(split_words(seq![opc]) == seq![seq![opc]]);
            assert(split_words(w) == split_words(rl) + (split_words(rr) + seq![seq![opc]]));
            lemma_rpn_run(*l, stack);
            lemma_rpn_run(*r, stack.push(lv));
            lemma_run_concat(split_words(rl), split_words(rr) + seq![seq![opc]], stack);
            lemma_run_concat(split_words(rr), seq![seq![opc]], stack.push(lv));
            assert(op_of_word(seq![opc]) == Some(op.value));
            let v = spec_eval_binop_kind(op.value, lv, rv)->Ok_0;
            lemma_op_word_run(op.value, opc, stack, lv, rv, v);
            assert(spec_eval(a)->Ok_0 == v);
        },
    }
}

/// Round trip: the postfix text a tree compiles to, read back by a standard
/// stack-based postfix evaluator, yields exactly the value the tree itself
/// evaluates to — for trees whose signs are glued to number literals.
pub proof fn lemma_rpn_round_trip(a: Ast)
    requires
        signs_on_literals(a),
        spec_eval(a) is Ok,
    ensures
        spec_rpn_eval(spec_rpn(a)) == Some(spec_eval(a)->Ok_0),
{
    lemma_rpn_run(a, Seq::empty());
    let st = Seq::<i64>::empty().push(spec_eval(a)->Ok_0);
    assert(st.len() == 1 && st[0] == spec_eval(a)->Ok_0);
}

} // verus!
