use vstd::prelude::*;

use crate::utils::{Annot, Loc};
use vstd::string::StringSliceAdditionalSpecFns;

verus! {

/// The smallest lexical units of an expression line.
#[derive(Debug, Clone, Copy, PartialEq, Eq, Hash)]
pub enum TokenKind {
    /// An unsigned decimal literal.
    Number(u64),
    /// `+`
    Plus,
    /// `-`
    Minus,
    /// `*`
    Asterisk,
    /// `/`
    Slash,
    /// `(`
    LParen,
    /// `)`
    RParen,
}

/// A token kind annotated with the byte span it occupied.
pub type Token = Annot<TokenKind>;

impl Token {
    pub fn number(n: u64, loc: Loc) -> (r: Self)
        ensures
            r == (Annot { value: TokenKind::Number(n), loc }),
    {
        Self::new(TokenKind::Number(n), loc)
    }

    pub fn plus(loc: Loc) -> (r: Self)
        ensures
            r == (Annot { value: TokenKind::Plus, loc }),
    {
        Self::new(TokenKind::Plus, loc)
    }

    pub fn minus(loc: Loc) -> (r: Self)
        ensures
            r == (Annot { value: TokenKind::Minus, loc }),
    {
        Self::new(TokenKind::Minus, loc)
    }

    pub fn asterisk(loc: Loc) -> (r: Self)
        ensures
            r == (Annot { value: TokenKind::Asterisk, loc }),
    {
        Self::new(TokenKind::Asterisk, loc)
    }

    pub fn slash(loc: Loc) -> (r: Self)
        ensures
            r == (Annot { value: TokenKind::Slash, loc }),
    {
        Self::new(TokenKind::Slash, loc)
    }

    pub fn lparen(loc: Loc) -> (r: Self)
        ensures
            r == (Annot { value: TokenKind::LParen, loc }),
    {
        Self::new(TokenKind::LParen, loc)
    }

    pub fn rparen(loc: Loc) -> (r: Self)
        ensures
            r == (Annot { value: TokenKind::RParen, loc }),
    {
        Self::new(TokenKind::RParen, loc)
    }
}

/// Why lexing failed.
#[derive(Debug, Clone, Copy, PartialEq, Eq, Hash)]
pub enum LexErrorKind {
    /// A byte that belongs to no recognized token class.
    InvalidChar(char),
    /// The input ended although a sub-scanner expected one more byte.
    Eof,
}

/// A lexing failure annotated with the span of the offending input.
pub type LexError = Annot<LexErrorKind>;

impl LexError {
    pub fn invalid_char(c: char, loc: Loc) -> (r: Self)
        ensures
            r == (Annot { value: LexErrorKind::InvalidChar(c), loc }),
    {
        Self::new(LexErrorKind::InvalidChar(c), loc)
    }

    pub fn eof(loc: Loc) -> (r: Self)
        ensures
            r == (Annot { value: LexErrorKind::Eof, loc }),
    {
        Self::new(LexErrorKind::Eof, loc)
    }
}

/// Bytes the lexer skips: space, tab, newline.
pub open spec fn is_space_byte(b: u8) -> bool {
    b == 32 || b == 9 || b == 10
}

/// ASCII digit bytes `'0'..='9'`.
pub open spec fn is_digit_byte(b: u8) -> bool {
    48 <= b && b <= 57
}

/// The token kind of a single-byte operator or parenthesis, if any.
pub open spec fn byte_token_kind(b: u8) -> Option<TokenKind> {
    if b == 43 {
        Some(TokenKind::Plus)
    } else if b == 45 {
        Some(TokenKind::Minus)
    } else if b == 42 {
        Some(TokenKind::Asterisk)
    } else if b == 47 {
        Some(TokenKind::Slash)
    } else if b == 40 {
        Some(TokenKind::LParen)
    } else if b == 41 {
        Some(TokenKind::RParen)
    } else {
        None
    }
}

/// The end of the maximal run of ASCII digits beginning at `pos`.
pub open spec fn digit_run_end(s: Seq<u8>, pos: int) -> int
    recommends
        0 <= pos <= s.len(),
    decreases s.len() - pos,
{
    if 0 <= pos && pos < s.len() && is_digit_byte(s[pos]) {
        digit_run_end(s, pos + 1)
    } else {
        pos
    }
}

/// `digit_run_end` yields the first position at or after `pos` that does not
/// hold a digit; everything before it in the run is a digit.
pub proof fn lemma_digit_run_end(s: Seq<u8>, pos: int)
    requires
        0 <= pos <= s.len(),
    ensures
        pos <= digit_run_end(s, pos) <= s.len(),
        forall|j: int| pos <= j < digit_run_end(s, pos) ==> is_digit_byte(s[j]),
        digit_run_end(s, pos) < s.len() ==> !is_digit_byte(s[digit_run_end(s, pos)]),
    decreases s.len() - pos,
{
    if pos < s.len() && is_digit_byte(s[pos]) {
        lemma_digit_run_end(s, pos + 1);
    }
}

/// A position that ends a digit run is exactly `digit_run_end`.
pub proof fn lemma_digit_run_end_is(s: Seq<u8>, pos: int, end: int)
    requires
        0 <= pos <= end <= s.len(),
        forall|j: int| pos <= j < end ==> is_digit_byte(s[j]),
        end == s.len() || !is_digit_byte(s[end]),
    ensures
        digit_run_end(s, pos) == end,
    decreases end - pos,
{
    if pos < end {
        lemma_digit_run_end_is(s, pos + 1, end);
    }
}

/// The number denoted by a run of ASCII digit bytes, most significant first.
pub open spec fn digits_val(s: Seq<u8>) -> nat
    recommends
        forall|j: int| 0 <= j < s.len() ==> is_digit_byte(s[j]),
    decreases s.len(),
{
    if s.len() == 0 {
        0
    } else {
        digits_val(s.drop_last()) * 10 + (if is_digit_byte(s.last()) {
            (s.last() - 48) as nat
        } else {
            0
        })
    }
}

/// Digit runs wider than 64 bits saturate at `u64::MAX`.
pub open spec fn sat_u64(v: nat) -> u64 {
    if v > u64::MAX {
        u64::MAX
    } else {
        v as u64
    }
}

/// The number token that a digit run starting at `pos` denotes, with the
/// position just after the run.
pub open spec fn spec_number_token(s: Seq<u8>, pos: int) -> (Token, int)
    recommends
        0 <= pos < s.len(),
        is_digit_byte(s[pos]),
{
    let end = digit_run_end(s, pos + 1);
    (
        Annot {
            value: TokenKind::Number(sat_u64(digits_val(s.subrange(pos, end)))),
            loc: Loc(pos as usize, end as usize),
        },
        end,
    )
}

/// Prepends one token to a stream, keeping a failure as it is.
pub open spec fn cons_token(t: Token, rest: Result<Seq<Token>, LexError>) -> Result<
    Seq<Token>,
    LexError,
> {
    match rest {
        Ok(ts) => Ok(seq![t] + ts),
        Err(e) => Err(e),
    }
}

/// The token stream of the bytes `s` from position `pos` on: the meaning of
/// lexing. A digit run becomes one `Number` token (greedy, saturating at
/// `u64::MAX`), a recognized single byte becomes its token, whitespace is
/// skipped, and any other byte stops the scan with `InvalidChar` at its
/// single-byte span.
pub open spec fn spec_lex_from(s: Seq<u8>, pos: int) -> Result<Seq<Token>, LexError>
    recommends
        0 <= pos <= s.len(),
    decreases s.len() - pos,
    via spec_lex_from_dec
{
    if pos < 0 || pos >= s.len() {
        Ok(Seq::empty())
    } else if is_digit_byte(s[pos]) {
        let (tok, end) = spec_number_token(s, pos);
        cons_token(tok, spec_lex_from(s, end))
    } else if is_space_byte(s[pos]) {
        spec_lex_from(s, pos + 1)
    } else {
        match byte_token_kind(s[pos]) {
            Some(k) => cons_token(
                Annot { value: k, loc: Loc(pos as usize, (pos + 1) as usize) },
                spec_lex_from(s, pos + 1),
            ),
            None => Err(
                Annot {
                    value: LexErrorKind::InvalidChar(s[pos] as char),
                    loc: Loc(pos as usize, (pos + 1) as usize),
                },
            ),
        }
    }
}

#[via_fn]
proof fn spec_lex_from_dec(s: Seq<u8>, pos: int) {
    if 0 <= pos && pos < s.len() && is_digit_byte(s[pos]) {
        lemma_digit_run_end(s, pos + 1);
    }
}

/// The token stream of a whole byte sequence.
pub open spec fn spec_lex(s: Seq<u8>) -> Result<Seq<Token>, LexError> {
    spec_lex_from(s, 0)
}

/// The tokens already emitted, continued from `pos`, agree with lexing the
/// whole input: the executable scanner's loop invariant.
pub open spec fn lexed_so_far(s: Seq<u8>, pos: int, emitted: Seq<Token>) -> bool {
    match spec_lex_from(s, pos) {
        Ok(rest) => spec_lex(s) == Ok::<Seq<Token>, LexError>(emitted + rest),
        Err(e) => spec_lex(s) == Err::<Seq<Token>, LexError>(e),
    }
}

fn is_digit_b(b: u8) -> (r: bool)
    ensures
        r == is_digit_byte(b),
{
    48 <= b && b <= 57
}

fn is_space_b(b: u8) -> (r: bool)
    ensures
        r == is_space_byte(b),
{
    b == 32 || b == 9 || b == 10
}

/// Splits a line of text into its tokens, or reports the first byte that
/// belongs to no token. Every token carries the exact byte span it occupied.
pub fn lex(input: &str) -> (r: Result<Vec<Token>, LexError>)
    ensures
        (match r {
            Ok(tokens) => spec_lex(input.spec_bytes()) == Ok::<Seq<Token>, LexError>(tokens@),
            Err(e) => spec_lex(input.spec_bytes()) == Err::<Seq<Token>, LexError>(e),
        }),
{
    let bytes = input.as_bytes();
    let mut tokens: Vec<Token> = Vec::new();
    let mut pos: usize = 0;
    proof {
        assert(lexed_so_far(bytes@, 0, tokens@)) by {
            assert(tokens@ + spec_lex_from(bytes@, 0)->Ok_0 =~= spec_lex_from(bytes@, 0)->Ok_0);
        }
    }
    while pos < bytes.len()
        invariant
            pos <= bytes@.len(),
            bytes@ == input.spec_bytes(),
            lexed_so_far(bytes@, pos as int, tokens@),
        decreases bytes@.len() - pos,
    {
        let ghost s = bytes@;
        let ghost emitted = tokens@;
        let b = bytes[pos];
        if is_digit_b(b) {
            let (tok, p) = lex_number(bytes, pos)?;
            proof {
                assert(spec_lex_from(s, pos as int) == cons_token(
                    tok,
                    spec_lex_from(s, p as int),
                ));
                lemma_emit(s, pos as int, p as int, emitted, tok);
            }
            tokens.push(tok);
            pos = p;
        } else if is_space_b(b) {
            let ((), p) = skip_spaces(bytes, pos)?;
            pos = p;
        } else {
            let step = if b == 43 {
                lex_plus(bytes, pos)
            } else if b == 45 {
                lex_minus(bytes, pos)
            } else if b == 42 {
                lex_asterisk(bytes, pos)
            } else if b == 47 {
                lex_slash(bytes, pos)
            } else if b == 40 {
                lex_lparen(bytes, pos)
            } else if b == 41 {
                lex_rparen(bytes, pos)
            } else {
                return Err(LexError::invalid_char(b as char, Loc(pos, pos + 1)));
            };
            let (tok, p) = step?;
            proof {
                assert(tok == (Annot {
                    value: byte_token_kind(s[pos as int])->Some_0,
                    loc: Loc(pos, (pos + 1) as usize),
                }));
                assert(spec_lex_from(s, pos as int) == cons_token(
                    tok,
                    spec_lex_from(s, p as int),
                ));
                lemma_emit(s, pos as int, p as int, emitted, tok);
            }
            tokens.push(tok);
            pos = p;
        }
    }
    proof {
        assert(spec_lex(bytes@) == Ok::<Seq<Token>, LexError>(tokens@)) by {
            assert(spec_lex_from(bytes@, pos as int) == Ok::<Seq<Token>, LexError>(Seq::empty()));
            assert(tokens@ + Seq::<Token>::empty() =~= tokens@);
        }
    }
    Ok(tokens)
}

/// After emitting one more token, the tokens emitted so far still agree with
/// lexing the whole input.
proof fn lemma_emit(s: Seq<u8>, pos: int, p: int, emitted: Seq<Token>, tok: Token)
    requires
        lexed_so_far(s, pos, emitted),
        spec_lex_from(s, pos) == cons_token(tok, spec_lex_from(s, p)),
    ensures
        lexed_so_far(s, p, emitted.push(tok)),
{
    let rest = spec_lex_from(s, p);
    if rest is Ok {
        assert(emitted + (seq![tok] + rest->Ok_0) =~= emitted.push(tok) + rest->Ok_0);
    }
}

/// Consumes the byte `b` at `pos`, or reports why it could not: `Eof` past
/// the end of the input, `InvalidChar` on any other byte.
fn consume_byte(input: &[u8], pos: usize, b: u8) -> (r: Result<(u8, usize), LexError>)
    ensures
        (match r {
            Ok((rb, p)) => pos < input@.len() && input@[pos as int] == b && rb == b && p == pos
                + 1,
            Err(e) => if pos >= input@.len() {
                e == (Annot { value: LexErrorKind::Eof, loc: Loc(pos, pos) })
            } else {
                input@[pos as int] != b && e == (Annot {
                    value: LexErrorKind::InvalidChar(input@[pos as int] as char),
                    loc: Loc(pos, (pos + 1) as usize),
                })
            },
        }),
{
    if input.len() <= pos {
        return Err(LexError::eof(Loc(pos, pos)));
    }
    if input[pos] != b {
        return Err(LexError::invalid_char(input[pos] as char, Loc(pos, pos + 1)));
    }
    Ok((b, pos + 1))
}

/// One single-byte token at `start`, as the token stream of the whole input
/// expects it.
spec fn single_byte_token_ok(
    input: Seq<u8>,
    start: usize,
    r: Result<(Token, usize), LexError>,
) -> bool {
    match r {
        Ok((t, p)) => p == start + 1 && byte_token_kind(input[start as int]) == Some(t.value)
            && t.loc == Loc(start, (start + 1) as usize),
        Err(_) => false,
    }
}

fn lex_plus(input: &[u8], start: usize) -> (r: Result<(Token, usize), LexError>)
    requires
        start < input@.len(),
        input@[start as int] == 43,
    ensures
        single_byte_token_ok(input@, start, r),
{
    let (_, end) = consume_byte(input, start, 43)?;
    Ok((Token::plus(Loc(start, end)), end))
}

fn lex_minus(input: &[u8], start: usize) -> (r: Result<(Token, usize), LexError>)
    requires
        start < input@.len(),
        input@[start as int] == 45,
    ensures
        single_byte_token_ok(input@, start, r),
{
    let (_, end) = consume_byte(input, start, 45)?;
    Ok((Token::minus(Loc(start, end)), end))
}

fn lex_asterisk(input: &[u8], start: usize) -> (r: Result<(Token, usize), LexError>)
    requires
        start < input@.len(),
        input@[start as int] == 42,
    ensures
        single_byte_token_ok(input@, start, r),
{
    let (_, end) = consume_byte(input, start, 42)?;
    Ok((Token::asterisk(Loc(start, end)), end))
}

fn lex_slash(input: &[u8], start: usize) -> (r: Result<(Token, usize), LexError>)
    requires
        start < input@.len(),
        input@[start as int] == 47,
    ensures
        single_byte_token_ok(input@, start, r),
{
    let (_, end) = consume_byte(input, start, 47)?;
    Ok((Token::slash(Loc(start, end)), end))
}

fn lex_lparen(input: &[u8], start: usize) -> (r: Result<(Token, usize), LexError>)
    requires
        start < input@.len(),
        input@[start as int] == 40,
    ensures
        single_byte_token_ok(input@, start, r),
{
    let (_, end) = consume_byte(input, start, 40)?;
    Ok((Token::lparen(Loc(start, end)), end))
}

fn lex_rparen(input: &[u8], start: usize) -> (r: Result<(Token, usize), LexError>)
    requires
        start < input@.len(),
        input@[start as int] == 41,
    ensures
        single_byte_token_ok(input@, start, r),
{
    let (_, end) = consume_byte(input, start, 41)?;
    Ok((Token::rparen(Loc(start, end)), end))
}

/// Saturation commutes with appending one digit to a run.
proof fn lemma_sat_step(v: nat, d: nat)
    requires
        d < 10,
    ensures
        sat_u64(v * 10 + d) == (if (sat_u64(v) as nat) * 10 + d > u64::MAX {
            u64::MAX
        } else {
            ((sat_u64(v) as nat) * 10 + d) as u64
        }),
{
    if v > u64::MAX {
        assert(v * 10 + d >= v) by (nonlinear_arith);
    }
}

/// Extending a digit run by one byte multiplies its value by ten and adds
/// the new digit.
proof fn lemma_digits_val_step(s: Seq<u8>, a: int, b: int)
    requires
        0 <= a <= b < s.len(),
        is_digit_byte(s[b]),
    ensures
        digits_val(s.subrange(a, b + 1)) == digits_val(s.subrange(a, b)) * 10 + (s[b] - 48) as nat,
{
    assert(s.subrange(a, b + 1).drop_last() =~= s.subrange(a, b));
    assert(s.subrange(a, b + 1).last() == s[b]);
}

/// Scans the maximal digit run starting at `pos` and turns it into a
/// `Number` token; a run wider than 64 bits saturates at `u64::MAX`.
fn lex_number(input: &[u8], pos: usize) -> (r: Result<(Token, usize), LexError>)
    requires
        pos < input@.len(),
        is_digit_byte(input@[pos as int]),
    ensures
        (match r {
            Ok((t, p)) => pos < p <= input@.len() && t == spec_number_token(input@, pos as int).0
                && p as int == spec_number_token(input@, pos as int).1,
            Err(_) => false,
        }),
{
    let start = pos;
    let mut end = pos;
    while end < input.len() && 48 <= input[end] && input[end] <= 57
        invariant
            pos <= end <= input@.len(),
            forall|j: int| pos <= j < end ==> is_digit_byte(input@[j]),
        decreases input@.len() - end,
    {
        end = end + 1;
    }
    proof {
        lemma_digit_run_end_is(input@, pos as int, end as int);
    }
    let mut n: u64 = 0;
    let mut i = pos;
    proof {
        assert(input@.subrange(pos as int, pos as int) =~= Seq::<u8>::empty());
    }
    while i < end
        invariant
            pos <= i <= end <= input@.len(),
            forall|j: int| pos <= j < end ==> is_digit_byte(input@[j]),
            n == sat_u64(digits_val(input@.subrange(pos as int, i as int))),
        decreases end - i,
    {
        let d = input[i] - 48;
        proof {
            lemma_digits_val_step(input@, pos as int, i as int);
            lemma_sat_step(digits_val(input@.subrange(pos as int, i as int)), d as nat);
        }
        n = match n.checked_mul(10) {
            Some(m) => match m.checked_add(d as u64) {
                Some(v) => v,
                None => u64::MAX,
            },
            None => u64::MAX,
        };
        i = i + 1;
    }
    Ok((Token::number(n, Loc(start, end)), end))
}

/// Advances past the run of whitespace at `pos`; the tokens of the input do
/// not change.
fn skip_spaces(input: &[u8], pos: usize) -> (r: Result<((), usize), LexError>)
    requires
        pos < input@.len(),
        is_space_byte(input@[pos as int]),
    ensures
        (match r {
            Ok((_, p)) => pos < p <= input@.len() && spec_lex_from(input@, pos as int)
                == spec_lex_from(input@, p as int),
            Err(_) => false,
        }),
{
    proof {
        assert(spec_lex_from(input@, pos as int) == spec_lex_from(input@, pos + 1));
    }
    let len = input.len();
    let mut i = pos + 1;
    while i < input.len() && (input[i] == 32 || input[i] == 9 || input[i] == 10)
        invariant
            pos < i <= input@.len(),
            spec_lex_from(input@, pos as int) == spec_lex_from(input@, i as int),
        decreases input@.len() - i,
    {
        proof {
            assert(spec_lex_from(input@, i as int) == spec_lex_from(input@, i + 1));
        }
        i = i + 1;
    }
    Ok(((), i))
}

} // verus!

verus! {

// ------------------------------------------------------------------
// Whitespace does not change what the tokens are, only where they lie.
// ------------------------------------------------------------------

/// `s` with the byte `b` inserted before position `i`.
pub open spec fn insert_byte(s: Seq<u8>, i: int, b: u8) -> Seq<u8> {
    s.subrange(0, i) + seq![b] + s.subrange(i, s.len() as int)
}

/// The token kinds of `s`, spans dropped; a failure keeps only its kind.
pub open spec fn spec_lex_kinds(s: Seq<u8>) -> Result<Seq<TokenKind>, LexErrorKind> {
    match spec_lex(s) {
        Ok(ts) => Ok(ts.map_values(|t: Token| t.value)),
        Err(e) => Err(e.value),
    }
}

/// Two lexing outcomes that agree once every span is dropped.
spec fn same_kinds(a: Result<Seq<Token>, LexError>, b: Result<Seq<Token>, LexError>) -> bool {
    match (a, b) {
        (Ok(x), Ok(y)) => x.len() == y.len() && (forall|k: int|
            0 <= k < x.len() ==> x[k].value == y[k].value),
        (Err(e1), Err(e2)) => e1.value == e2.value,
        _ => false,
    }
}

/// `same_kinds` survives prepending tokens of equal kind.
proof fn lemma_same_kinds_cons(
    t1: Token,
    t2: Token,
    a: Result<Seq<Token>, LexError>,
    b: Result<Seq<Token>, LexError>,
)
    requires
        t1.value == t2.value,
        same_kinds(a, b),
    ensures
        same_kinds(cons_token(t1, a), cons_token(t2, b)),
{
}

/// Inserting a byte keeps the digit runs of the shifted suffix.
proof fn lemma_run_end_shift(s: Seq<u8>, i: int, b: u8, pos: int)
    requires
        0 <= i <= s.len(),
        i <= pos <= s.len(),
    ensures
        digit_run_end(insert_byte(s, i, b), pos + 1) == digit_run_end(s, pos) + 1,
    decreases s.len() - pos,
{
    let t = insert_byte(s, i, b);
    if pos < s.len() && is_digit_byte(s[pos]) {
        assert(t[pos + 1] == s[pos]);
        lemma_run_end_shift(s, i, b, pos + 1);
    }
}

/// Inserting a non-digit byte at or after the end of a digit run keeps the
/// run as it is.
proof fn lemma_run_end_prefix(s: Seq<u8>, i: int, b: u8, pos: int)
    requires
        0 <= pos <= i <= s.len(),
        !is_digit_byte(b),
        digit_run_end(s, pos) <= i,
    ensures
        digit_run_end(insert_byte(s, i, b), pos) == digit_run_end(s, pos),
    decreases i - pos,
{
    let t = insert_byte(s, i, b);
    assert(t.len() == s.len() + 1);
    lemma_digit_run_end(s, pos);
    if pos == i {
        assert(t[pos] == b);
        assert(digit_run_end(t, pos) == pos);
        assert(digit_run_end(s, pos) == pos);
    } else {
        assert(t[pos] == s[pos]);
        if pos < s.len() && is_digit_byte(s[pos]) {
            lemma_digit_run_end(s, pos + 1);
            lemma_run_end_prefix(s, i, b, pos + 1);
        } else {
            assert(digit_run_end(t, pos) == pos);
            assert(digit_run_end(s, pos) == pos);
        }
    }
}

/// Behind the insertion point everything is merely shifted: the token kinds
/// from there on are those of the original input.
proof fn lemma_kinds_shift(s: Seq<u8>, i: int, b: u8, pos: int)
    requires
        0 <= i <= s.len(),
        is_space_byte(b),
        i <= pos <= s.len(),
    ensures
        same_kinds(spec_lex_from(insert_byte(s, i, b), pos + 1), spec_lex_from(s, pos)),
    decreases s.len() - pos,
{
    let t = insert_byte(s, i, b);
    assert(t.len() == s.len() + 1);
    if pos == s.len() {
    } else {
        assert(t[pos + 1] == s[pos]);
        if is_digit_byte(s[pos]) {
            let end = digit_run_end(s, pos + 1);
            lemma_digit_run_end(s, pos + 1);
            lemma_run_end_shift(s, i, b, pos + 1);
            assert(t.subrange(pos + 1, end + 1) =~= s.subrange(pos, end));
            lemma_kinds_shift(s, i, b, end);
            lemma_same_kinds_cons(
                spec_number_token(t, pos + 1).0,
                spec_number_token(s, pos).0,
                spec_lex_from(t, end + 1),
                spec_lex_from(s, end),
            );
        } else if is_space_byte(s[pos]) {
            lemma_kinds_shift(s, i, b, pos + 1);
        } else {
            match byte_token_kind(s[pos]) {
                Some(k) => {
                    lemma_kinds_shift(s, i, b, pos + 1);
                    lemma_same_kinds_cons(
                        Annot { value: k, loc: Loc((pos + 1) as usize, (pos + 2) as usize) },
                        Annot { value: k, loc: Loc(pos as usize, (pos + 1) as usize) },
                        spec_lex_from(t, pos + 2),
                        spec_lex_from(s, pos + 1),
                    );
                },
                None => {},
            }
        }
    }
}

/// Ahead of the insertion point the scan sees the same bytes, and a space
/// inserted at a position that does not split a digit run leaves every token
/// kind as it was.
proof fn lemma_kinds_prefix(s: Seq<u8>, i: int, b: u8, pos: int)
    requires
        0 <= pos <= i <= s.len(),
        is_space_byte(b),
        !(0 < i < s.len() && is_digit_byte(s[i - 1]) && is_digit_byte(s[i])),
    ensures
        same_kinds(spec_lex_from(insert_byte(s, i, b), pos), spec_lex_from(s, pos)),
    decreases i - pos,
{
    let t = insert_byte(s, i, b);
    assert(t.len() == s.len() + 1);
    if pos == i {
        assert(t[pos] == b);
        assert(spec_lex_from(t, pos) == spec_lex_from(t, pos + 1));
        lemma_kinds_shift(s, i, b, pos);
    } else {
        assert(t[pos] == s[pos]);
        if is_digit_byte(s[pos]) {
            let end = digit_run_end(s, pos + 1);
            lemma_digit_run_end(s, pos + 1);
            if end > i {
                assert(is_digit_byte(s[i - 1]));
                assert(is_digit_byte(s[i]));
                assert(false);
            }
            lemma_run_end_prefix(s, i, b, pos + 1);
            assert(t.subrange(pos, end) =~= s.subrange(pos, end));
            lemma_kinds_prefix(s, i, b, end);
            lemma_same_kinds_cons(
                spec_number_token(t, pos).0,
                spec_number_token(s, pos).0,
                spec_lex_from(t, end),
                spec_lex_from(s, end),
            );
        } else if is_space_byte(s[pos]) {
            lemma_kinds_prefix(s, i, b, pos + 1);
        } else {
            match byte_token_kind(s[pos]) {
                Some(k) => {
                    lemma_kinds_prefix(s, i, b, pos + 1);
                    lemma_same_kinds_cons(
                        Annot { value: k, loc: Loc(pos as usize, (pos + 1) as usize) },
                        Annot { value: k, loc: Loc(pos as usize, (pos + 1) as usize) },
                        spec_lex_from(t, pos + 1),
                        spec_lex_from(s, pos + 1),
                    );
                },
                None => {},
            }
        }
    }
}

/// Inserting a whitespace byte anywhere that does not split a digit run —
/// and removing one, read right to left — never changes the token kinds the
/// lexer yields, nor which error it stops on: only the spans move.
pub proof fn lemma_space_insertion_keeps_token_kinds(s: Seq<u8>, i: int, b: u8)
    requires
        0 <= i <= s.len(),
        is_space_byte(b),
        !(0 < i < s.len() && is_digit_byte(s[i - 1]) && is_digit_byte(s[i])),
    ensures
        spec_lex_kinds(insert_byte(s, i, b)) == spec_lex_kinds(s),
{
    lemma_kinds_prefix(s, i, b, 0);
    let a = spec_lex(insert_byte(s, i, b));
    let c = spec_lex(s);
    match (a, c) {
        (Ok(x), Ok(y)) => {
            assert(x.map_values(|t: Token| t.value) =~= y.map_values(|t: Token| t.value));
        },
        _ => {},
    }
}

} // verus!
