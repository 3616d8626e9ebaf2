//! The lexer: source bytes to a token stream.
//!
//! Tokens are the longest match at each position: `..=` before `..` before
//! `.`, `==` and `=>` before `=`, `###` and `##` and `#{` before `#`, and so
//! on. Whitespace separates tokens and is otherwise ignored; there are no
//! comments. A string literal runs from one double quote to the next, with
//! no escapes. A number literal is a run of decimal digits and must fit a
//! 64-bit signed number.

use vstd::prelude::*;
use crate::bytes::{digits_value, is_digit};

verus! {

/// One token.
pub enum Token {
    Num(i64),
    Str(Vec<u8>),
    Ident(Vec<u8>),
    KwFn,
    KwLet,
    KwWhile,
    KwFor,
    KwIf,
    KwElif,
    KwElse,
    KwMatch,
    KwTrue,
    KwFalse,
    KwNil,
    KwAnd,
    KwOr,
    LParen,
    RParen,
    LBrace,
    RBrace,
    LBracket,
    RBracket,
    TableOpen,
    Comma,
    Colon,
    Semi,
    Arrow,
    Assign,
    PlusAssign,
    MinusAssign,
    Plus,
    Minus,
    Star,
    Slash,
    EqEq,
    NotEq,
    Lt,
    Gt,
    Le,
    Ge,
    Dollar,
    DollarDollar,
    Bang,
    Question,
    HashOne,
    HashTwo,
    HashThree,
    Dot,
    DotDot,
    DotDotEq,
    Pipe,
}

/// Model of one token: payloads as byte sequences.
pub enum TokV {
    Num(i64),
    Str(Seq<u8>),
    Ident(Seq<u8>),
    KwFn,
    KwLet,
    KwWhile,
    KwFor,
    KwIf,
    KwElif,
    KwElse,
    KwMatch,
    KwTrue,
    KwFalse,
    KwNil,
    KwAnd,
    KwOr,
    LParen,
    RParen,
    LBrace,
    RBrace,
    LBracket,
    RBracket,
    TableOpen,
    Comma,
    Colon,
    Semi,
    Arrow,
    Assign,
    PlusAssign,
    MinusAssign,
    Plus,
    Minus,
    Star,
    Slash,
    EqEq,
    NotEq,
    Lt,
    Gt,
    Le,
    Ge,
    Dollar,
    DollarDollar,
    Bang,
    Question,
    HashOne,
    HashTwo,
    HashThree,
    Dot,
    DotDot,
    DotDotEq,
    Pipe,
}

impl View for Token {
    type V = TokV;

    open spec fn view(&self) -> TokV {
        match self {
            Token::Num(n) => TokV::Num(*n),
            Token::Str(s) => TokV::Str(s@),
            Token::Ident(s) => TokV::Ident(s@),
            Token::KwFn => TokV::KwFn,
            Token::KwLet => TokV::KwLet,
            Token::KwWhile => TokV::KwWhile,
            Token::KwFor => TokV::KwFor,
            Token::KwIf => TokV::KwIf,
            Token::KwElif => TokV::KwElif,
            Token::KwElse => TokV::KwElse,
            Token::KwMatch => TokV::KwMatch,
            Token::KwTrue => TokV::KwTrue,
            Token::KwFalse => TokV::KwFalse,
            Token::KwNil => TokV::KwNil,
            Token::KwAnd => TokV::KwAnd,
            Token::KwOr => TokV::KwOr,
            Token::LParen => TokV::LParen,
            Token::RParen => TokV::RParen,
            Token::LBrace => TokV::LBrace,
            Token::RBrace => TokV::RBrace,
            Token::LBracket => TokV::LBracket,
            Token::RBracket => TokV::RBracket,
            Token::TableOpen => TokV::TableOpen,
            Token::Comma => TokV::Comma,
            Token::Colon => TokV::Colon,
            Token::Semi => TokV::Semi,
            Token::Arrow => TokV::Arrow,
            Token::Assign => TokV::Assign,
            Token::PlusAssign => TokV::PlusAssign,
            Token::MinusAssign => TokV::MinusAssign,
            Token::Plus => TokV::Plus,
            Token::Minus => TokV::Minus,
            Token::Star => TokV::Star,
            Token::Slash => TokV::Slash,
            Token::EqEq => TokV::EqEq,
            Token::NotEq => TokV::NotEq,
            Token::Lt => TokV::Lt,
            Token::Gt => TokV::Gt,
            Token::Le => TokV::Le,
            Token::Ge => TokV::Ge,
            Token::Dollar => TokV::Dollar,
            Token::DollarDollar => TokV::DollarDollar,
            Token::Bang => TokV::Bang,
            Token::Question => TokV::Question,
            Token::HashOne => TokV::HashOne,
            Token::HashTwo => TokV::HashTwo,
            Token::HashThree => TokV::HashThree,
            Token::Dot => TokV::Dot,
            Token::DotDot => TokV::DotDot,
            Token::DotDotEq => TokV::DotDotEq,
            Token::Pipe => TokV::Pipe,
        }
    }
}

/// The models of a token sequence, element by element.
pub open spec fn toks_view(s: Seq<Token>) -> Seq<TokV> {
    Seq::new(s.len(), |k: int| s[k]@)
}

/// Where lexing stopped and why it could not go on.
pub struct LexError {
    pub pos: usize,
}

/// Whether a byte is an ASCII letter or underscore.
pub open spec fn is_name_start(b: u8) -> bool {
    (65 <= b <= 90) || (97 <= b <= 122) || b == 95
}

/// Whether a byte can continue a name.
pub open spec fn is_name_part(b: u8) -> bool {
    is_name_start(b) || (48 <= b <= 57)
}

/// Whether a byte is blank space between tokens.
pub open spec fn is_ws(b: u8) -> bool {
    b == 32 || b == 9 || b == 10 || b == 13
}

/// The position just past the digit run starting at `i`.
pub open spec fn scan_digits_end(s: Seq<u8>, i: int) -> int
    decreases s.len() - i,
{
    if 0 <= i < s.len() && is_digit(s[i]) {
        scan_digits_end(s, i + 1)
    } else {
        i
    }
}

/// The position just past the name run starting at `i`.
pub open spec fn scan_name_end(s: Seq<u8>, i: int) -> int
    decreases s.len() - i,
{
    if 0 <= i < s.len() && is_name_part(s[i]) {
        scan_name_end(s, i + 1)
    } else {
        i
    }
}

/// The position of the first double quote at or after `j`, if any.
pub open spec fn find_quote(s: Seq<u8>, j: int) -> Option<int>
    decreases s.len() - j,
{
    if j < 0 || j >= s.len() {
        Option::None
    } else if s[j] == 34 {
        Option::Some(j)
    } else {
        find_quote(s, j + 1)
    }
}

/// The token a name denotes: a keyword, or an identifier.
pub open spec fn kw_token(name: Seq<u8>) -> TokV {
    if name == seq![102u8, 110u8] {
        TokV::KwFn
    } else if name == seq![108u8, 101u8, 116u8] {
        TokV::KwLet
    } else if name == seq![119u8, 104u8, 105u8, 108u8, 101u8] {
        TokV::KwWhile
    } else if name == seq![102u8, 111u8, 114u8] {
        TokV::KwFor
    } else if name == seq![105u8, 102u8] {
        TokV::KwIf
    } else if name == seq![101u8, 108u8, 105u8, 102u8] {
        TokV::KwElif
    } else if name == seq![101u8, 108u8, 115u8, 101u8] {
        TokV::KwElse
    } else if name == seq![109u8, 97u8, 116u8, 99u8, 104u8] {
        TokV::KwMatch
    } else if name == seq![116u8, 114u8, 117u8, 101u8] {
        TokV::KwTrue
    } else if name == seq![102u8, 97u8, 108u8, 115u8, 101u8] {
        TokV::KwFalse
    } else if name == seq![110u8, 105u8, 108u8] {
        TokV::KwNil
    } else if name == seq![97u8, 110u8, 100u8] {
        TokV::KwAnd
    } else if name == seq![111u8, 114u8] {
        TokV::KwOr
    } else {
        TokV::Ident(name)
    }
}

/// Lex the source from position `i` on, by the model. As in the parser's
/// model, a step that continues from a scanned position first checks that
/// the position moved forward and stayed in bounds; the executable lexer
/// shows those checks can never fail.
pub open spec fn sp_lex_from(s: Seq<u8>, i: int) -> Result<Seq<TokV>, int>
    decreases s.len() - i,
{
    if i < 0 || i >= s.len() {
        Result::Ok(Seq::empty())
    } else {
        let b = s[i];
        let b2: u8 = if i + 1 < s.len() {
            s[i + 1]
        } else {
            0
        };
        let b3: u8 = if i + 2 < s.len() {
            s[i + 2]
        } else {
            0
        };
        if is_ws(b) {
            sp_lex_from(s, i + 1)
        } else if is_digit(b) {
            let e = scan_digits_end(s, i);
            if e <= i || e > s.len() {
                Result::Err(i)
            } else if digits_value(s.subrange(i, e)) > 0x7fff_ffff_ffff_ffff {
                Result::Err(i)
            } else {
                match sp_lex_from(s, e) {
                    Result::Err(p) => Result::Err(p),
                    Result::Ok(rest) => Result::Ok(
                        seq![TokV::Num(digits_value(s.subrange(i, e)) as i64)] + rest,
                    ),
                }
            }
        } else if b == 34 {
            match find_quote(s, i + 1) {
                Option::None => Result::Err(i),
                Option::Some(q) => if q <= i || q >= s.len() {
                    Result::Err(i)
                } else {
                    match sp_lex_from(s, q + 1) {
                        Result::Err(p) => Result::Err(p),
                        Result::Ok(rest) => Result::Ok(
                            seq![TokV::Str(s.subrange(i + 1, q))] + rest,
                        ),
                    }
                },
            }
        } else if is_name_start(b) {
            let e = scan_name_end(s, i + 1);
            if e <= i || e > s.len() {
                Result::Err(i)
            } else {
                match sp_lex_from(s, e) {
                    Result::Err(p) => Result::Err(p),
                    Result::Ok(rest) => Result::Ok(seq![kw_token(s.subrange(i, e))] + rest),
                }
            }
        } else {
            let step: Option<(TokV, int)> = if b == 61 && b2 == 61 {
                Option::Some((TokV::EqEq, 2))
            } else if b == 61 && b2 == 62 {
                Option::Some((TokV::Arrow, 2))
            } else if b == 61 {
                Option::Some((TokV::Assign, 1))
            } else if b == 33 && b2 == 61 {
                Option::Some((TokV::NotEq, 2))
            } else if b == 33 {
                Option::Some((TokV::Bang, 1))
            } else if b == 60 && b2 == 61 {
                Option::Some((TokV::Le, 2))
            } else if b == 60 {
                Option::Some((TokV::Lt, 1))
            } else if b == 62 && b2 == 61 {
                Option::Some((TokV::Ge, 2))
            } else if b == 62 {
                Option::Some((TokV::Gt, 1))
            } else if b == 43 && b2 == 61 {
                Option::Some((TokV::PlusAssign, 2))
            } else if b == 43 {
                Option::Some((TokV::Plus, 1))
            } else if b == 45 && b2 == 61 {
                Option::Some((TokV::MinusAssign, 2))
            } else if b == 45 {
                Option::Some((TokV::Minus, 1))
            } else if b == 42 {
                Option::Some((TokV::Star, 1))
            } else if b == 47 {
                Option::Some((TokV::Slash, 1))
            } else if b == 36 && b2 == 36 {
                Option::Some((TokV::DollarDollar, 2))
            } else if b == 36 {
                Option::Some((TokV::Dollar, 1))
            } else if b == 35 && b2 == 35 && b3 == 35 {
                Option::Some((TokV::HashThree, 3))
            } else if b == 35 && b2 == 35 {
                Option::Some((TokV::HashTwo, 2))
            } else if b == 35 && b2 == 123 {
                Option::Some((TokV::TableOpen, 2))
            } else if b == 35 {
                Option::Some((TokV::HashOne, 1))
            } else if b == 46 && b2 == 46 && b3 == 61 {
                Option::Some((TokV::DotDotEq, 3))
            } else if b == 46 && b2 == 46 {
                Option::Some((TokV::DotDot, 2))
            } else if b == 46 {
                Option::Some((TokV::Dot, 1))
            } else if b == 63 {
                Option::Some((TokV::Question, 1))
            } else if b == 44 {
                Option::Some((TokV::Comma, 1))
            } else if b == 58 {
                Option::Some((TokV::Colon, 1))
            } else if b == 59 {
                Option::Some((TokV::Semi, 1))
            } else if b == 124 {
                Option::Some((TokV::Pipe, 1))
            } else if b == 40 {
                Option::Some((TokV::LParen, 1))
            } else if b == 41 {
                Option::Some((TokV::RParen, 1))
            } else if b == 123 {
                Option::Some((TokV::LBrace, 1))
            } else if b == 125 {
                Option::Some((TokV::RBrace, 1))
            } else if b == 91 {
                Option::Some((TokV::LBracket, 1))
            } else if b == 93 {
                Option::Some((TokV::RBracket, 1))
            } else {
                Option::None
            };
            match step {
                Option::None => Result::Err(i),
                Option::Some((t, w)) => if i + w > s.len() {
                    Result::Err(i)
                } else {
                    match sp_lex_from(s, i + w) {
                        Result::Err(p) => Result::Err(p),
                        Result::Ok(rest) => Result::Ok(seq![t] + rest),
                    }
                },
            }
        }
    }
}

/// Lex a whole source text, by the model.
pub open spec fn sp_lex(s: Seq<u8>) -> Result<Seq<TokV>, int> {
    sp_lex_from(s, 0)
}

fn name_start(b: u8) -> (r: bool)
    ensures
        r == is_name_start(b),
{
    (65 <= b && b <= 90) || (97 <= b && b <= 122) || b == 95
}

fn name_part(b: u8) -> (r: bool)
    ensures
        r == is_name_part(b),
{
    name_start(b) || (48 <= b && b <= 57)
}

/// Keyword lookup: the token a name denotes, or an identifier token.
fn name_token(name: Vec<u8>) -> (t: Token)
    ensures
        t@ == kw_token(name@),
{
    // "fn" "let" "while" "for" "if" "elif" "else" "match" "true" "false"
    // "nil" "and" "or"
    let kw_fn: Vec<u8> = vec![102, 110];
    let kw_let: Vec<u8> = vec![108, 101, 116];
    let kw_while: Vec<u8> = vec![119, 104, 105, 108, 101];
    let kw_for: Vec<u8> = vec![102, 111, 114];
    let kw_if: Vec<u8> = vec![105, 102];
    let kw_elif: Vec<u8> = vec![101, 108, 105, 102];
    let kw_else: Vec<u8> = vec![101, 108, 115, 101];
    let kw_match: Vec<u8> = vec![109, 97, 116, 99, 104];
    let kw_true: Vec<u8> = vec![116, 114, 117, 101];
    let kw_false: Vec<u8> = vec![102, 97, 108, 115, 101];
    let kw_nil: Vec<u8> = vec![110, 105, 108];
    let kw_and: Vec<u8> = vec![97, 110, 100];
    let kw_or: Vec<u8> = vec![111, 114];
    proof {
        assert(kw_fn@ =~= seq![102u8, 110u8]);
        assert(kw_let@ =~= seq![108u8, 101u8, 116u8]);
        assert(kw_while@ =~= seq![119u8, 104u8, 105u8, 108u8, 101u8]);
        assert(kw_for@ =~= seq![102u8, 111u8, 114u8]);
        assert(kw_if@ =~= seq![105u8, 102u8]);
        assert(kw_elif@ =~= seq![101u8, 108u8, 105u8, 102u8]);
        assert(kw_else@ =~= seq![101u8, 108u8, 115u8, 101u8]);
        assert(kw_match@ =~= seq![109u8, 97u8, 116u8, 99u8, 104u8]);
        assert(kw_true@ =~= seq![116u8, 114u8, 117u8, 101u8]);
        assert(kw_false@ =~= seq![102u8, 97u8, 108u8, 115u8, 101u8]);
        assert(kw_nil@ =~= seq![110u8, 105u8, 108u8]);
        assert(kw_and@ =~= seq![97u8, 110u8, 100u8]);
        assert(kw_or@ =~= seq![111u8, 114u8]);
    }
    if crate::bytes::bytes_eq(&name, &kw_fn) {
        Token::KwFn
    } else if crate::bytes::bytes_eq(&name, &kw_let) {
        Token::KwLet
    } else if crate::bytes::bytes_eq(&name, &kw_while) {
        Token::KwWhile
    } else if crate::bytes::bytes_eq(&name, &kw_for) {
        Token::KwFor
    } else if crate::bytes::bytes_eq(&name, &kw_if) {
        Token::KwIf
    } else if crate::bytes::bytes_eq(&name, &kw_elif) {
        Token::KwElif
    } else if crate::bytes::bytes_eq(&name, &kw_else) {
        Token::KwElse
    } else if crate::bytes::bytes_eq(&name, &kw_match) {
        Token::KwMatch
    } else if crate::bytes::bytes_eq(&name, &kw_true) {
        Token::KwTrue
    } else if crate::bytes::bytes_eq(&name, &kw_false) {
        Token::KwFalse
    } else if crate::bytes::bytes_eq(&name, &kw_nil) {
        Token::KwNil
    } else if crate::bytes::bytes_eq(&name, &kw_and) {
        Token::KwAnd
    } else if crate::bytes::bytes_eq(&name, &kw_or) {
        Token::KwOr
    } else {
        Token::Ident(name)
    }
}

/// How far the lexed prefix carries: the remaining source must lex to the
/// remaining tokens for the whole text's tokens to be the done part plus
/// that rest.
pub open spec fn lex_decomposes(s: Seq<u8>, i: int, done: Seq<TokV>) -> bool {
    match sp_lex_from(s, i) {
        Result::Ok(rest) => sp_lex(s) == Result::<Seq<TokV>, int>::Ok(done + rest),
        Result::Err(p) => sp_lex(s) == Result::<Seq<TokV>, int>::Err(p),
    }
}

proof fn lemma_lex_cons(s: Seq<u8>, i: int, next: int, t: TokV, done: Seq<TokV>)
    requires
        lex_decomposes(s, i, done),
        sp_lex_from(s, i) == (match sp_lex_from(s, next) {
            Result::Ok(rest) => Result::<Seq<TokV>, int>::Ok(seq![t] + rest),
            Result::Err(p) => Result::<Seq<TokV>, int>::Err(p),
        }),
    ensures
        lex_decomposes(s, next, done.push(t)),
{
    match sp_lex_from(s, next) {
        Result::Ok(rest) => {
            assert(done + (seq![t] + rest) =~= done.push(t) + rest);
        }
        Result::Err(_) => {}
    }
}

proof fn lemma_scan_digits_at(s: Seq<u8>, a: int, e: int)
    requires
        0 <= a <= e <= s.len(),
        forall|k: int| a <= k < e ==> is_digit(s[k]),
        e == s.len() || !is_digit(s[e]),
    ensures
        scan_digits_end(s, a) == e,
    decreases e - a,
{
    if a < e {
        lemma_scan_digits_at(s, a + 1, e);
    }
}

proof fn lemma_scan_name_at(s: Seq<u8>, a: int, e: int)
    requires
        0 <= a <= e <= s.len(),
        forall|k: int| a <= k < e ==> is_name_part(s[k]),
        e == s.len() || !is_name_part(s[e]),
    ensures
        scan_name_end(s, a) == e,
    decreases e - a,
{
    if a < e {
        lemma_scan_name_at(s, a + 1, e);
    }
}

proof fn lemma_find_quote_at(s: Seq<u8>, a: int, q: int)
    requires
        0 <= a <= q < s.len(),
        s[q] == 34,
        forall|k: int| a <= k < q ==> s[k] != 34,
    ensures
        find_quote(s, a) == Option::Some(q),
    decreases q - a,
{
    if a < q {
        lemma_find_quote_at(s, a + 1, q);
    }
}

proof fn lemma_find_quote_none(s: Seq<u8>, a: int)
    requires
        0 <= a,
        forall|k: int| a <= k < s.len() ==> s[k] != 34,
    ensures
        find_quote(s, a) is None,
    decreases s.len() - a,
{
    if a < s.len() {
        lemma_find_quote_none(s, a + 1);
    }
}

/// Lex a whole source text; the result is exactly what the mathematical
/// lexer says of the input bytes.
#[verifier::loop_isolation(false)]
#[verifier::spinoff_prover]
#[verifier::rlimit(100)]
pub fn lex(input: &Vec<u8>) -> (r: Result<Vec<Token>, LexError>)
    ensures
        ({
            let o = sp_lex(input@);
            &&& (r matches Ok(ts) ==> o == Result::<Seq<TokV>, int>::Ok(toks_view(ts@)))
            &&& (r matches Err(le) ==> o == Result::<Seq<TokV>, int>::Err(le.pos as int))
        }),
{
    let ghost s = input@;
    let n = input.len();
    let mut toks: Vec<Token> = Vec::new();
    let mut i: usize = 0;
    proof {
        assert(toks_view(toks@) =~= Seq::<TokV>::empty());
        match sp_lex_from(s, 0) {
            Result::Ok(rest) => {
                assert(Seq::<TokV>::empty() + rest =~= rest);
            }
            Result::Err(_) => {}
        }
        assert(lex_decomposes(s, 0, toks_view(toks@)));
    }
    while i < n
        invariant
            n == s.len(),
            i <= n,
            lex_decomposes(s, i as int, toks_view(toks@)),
        decreases n - i,
    {
        let ghost i0 = i as int;
        let ghost done0 = toks_view(toks@);
        let b = input[i];
        // whitespace
        if b == 32 || b == 9 || b == 10 || b == 13 {
            proof {
                assert(sp_lex_from(s, i0) == sp_lex_from(s, i0 + 1));
            }
            i = i + 1;
            continue;
        }
        // number
        if 48 <= b && b <= 57 {
            let start = i;
            let mut acc: u64 = (b - 48) as u64;
            let mut ok = true;
            i = i + 1;
            proof {
                reveal_with_fuel(digits_value, 2);
                assert(s.subrange(start as int, start + 1) =~= seq![b]);
                assert(seq![b].subrange(0, 0) =~= Seq::<u8>::empty());
                assert(digits_value(seq![b]) == (b - 48) as nat);
            }
            while i < n && 48 <= input[i] && input[i] <= 57
                invariant
                    n == s.len(),
                    start < i <= n,
                    forall|k: int| start <= k < i ==> is_digit(s[k]),
                    ok ==> acc == digits_value(s.subrange(start as int, i as int)),
                    !ok ==> digits_value(s.subrange(start as int, i as int))
                        > 0x7fff_ffff_ffff_ffff,
                decreases n - i,
            {
                let d = (input[i] - 48) as u64;
                proof {
                    let pre = s.subrange(start as int, i as int);
                    let cur = s.subrange(start as int, i + 1);
                    assert(cur.subrange(0, cur.len() - 1) =~= pre);
                    assert(cur[cur.len() - 1] == s[i as int]);
                    assert(digits_value(cur) == digits_value(pre) * 10 + (s[i as int] - 48));
                }
                if acc > 0x1999_9999_9999_9999 {
                    // ten times this cannot fit a 64-bit number
                    ok = false;
                    acc = 0;
                } else {
                    acc = acc * 10;
                    if acc > 0xffff_ffff_ffff_ffff - d {
                        ok = false;
                        acc = 0;
                    } else {
                        acc = acc + d;
                    }
                }
                i = i + 1;
            }
            proof {
                lemma_scan_digits_at(s, start as int, i as int);
            }
            if !ok || acc > 0x7fff_ffff_ffff_ffff {
                proof {
                    assert(sp_lex_from(s, start as int) == Result::<Seq<TokV>, int>::Err(
                        start as int,
                    ));
                }
                return Result::Err(LexError { pos: start });
            }
            let t = Token::Num(acc as i64);
            proof {
                assert(t@ == TokV::Num(
                    digits_value(s.subrange(start as int, i as int)) as i64,
                ));
                assert(sp_lex_from(s, start as int) == (match sp_lex_from(s, i as int) {
                    Result::Ok(rest) => Result::<Seq<TokV>, int>::Ok(seq![t@] + rest),
                    Result::Err(p) => Result::<Seq<TokV>, int>::Err(p),
                }));
                lemma_lex_cons(s, start as int, i as int, t@, done0);
            }
            toks.push(t);
            proof {
                assert(toks_view(toks@) =~= done0.push(t@));
            }
            continue;
        }
        // string literal
        if b == 34 {
            let mut j = i + 1;
            let mut text: Vec<u8> = Vec::new();
            let mut closed = false;
            proof {
                assert(text@ =~= s.subrange(i + 1, i + 1));
            }
            while j < n && !closed
                invariant
                    n == s.len(),
                    i < j <= n,
                    !closed ==> text@ == s.subrange(i + 1, j as int),
                    !closed ==> forall|k: int| i + 1 <= k < j ==> s[k] != 34,
                    closed ==> i + 1 <= j - 1 < n && s[j - 1] == 34 && text@ == s.subrange(
                        i + 1,
                        j - 1,
                    ) && (forall|k: int| i + 1 <= k < j - 1 ==> s[k] != 34),
                decreases n - j,
            {
                let c = input[j];
                if c == 34 {
                    closed = true;
                } else {
                    text.push(c);
                    proof {
                        assert(s.subrange(i + 1, j as int).push(s[j as int]) =~= s.subrange(
                            i + 1,
                            j + 1,
                        ));
                    }
                }
                j = j + 1;
            }
            if !closed {
                proof {
                    lemma_find_quote_none(s, i + 1);
                    assert(sp_lex_from(s, i0) == Result::<Seq<TokV>, int>::Err(i0));
                }
                return Result::Err(LexError { pos: i });
            }
            let t = Token::Str(text);
            proof {
                lemma_find_quote_at(s, i + 1, j - 1);
                assert(t@ == TokV::Str(s.subrange(i + 1, j - 1)));
                assert(sp_lex_from(s, i0) == (match sp_lex_from(s, j as int) {
                    Result::Ok(rest) => Result::<Seq<TokV>, int>::Ok(seq![t@] + rest),
                    Result::Err(p) => Result::<Seq<TokV>, int>::Err(p),
                }));
                lemma_lex_cons(s, i0, j as int, t@, done0);
            }
            toks.push(t);
            proof {
                assert(toks_view(toks@) =~= done0.push(t@));
            }
            i = j;
            continue;
        }
        // name or keyword
        if name_start(b) {
            let mut j = i + 1;
            let mut name: Vec<u8> = Vec::new();
            name.push(b);
            proof {
                assert(name@ =~= s.subrange(i0, i + 1));
            }
            while j < n && name_part(input[j])
                invariant
                    n == s.len(),
                    i < j <= n,
                    name@ == s.subrange(i0, j as int),
                    forall|k: int| i + 1 <= k < j ==> is_name_part(s[k]),
                decreases n - j,
            {
                name.push(input[j]);
                proof {
                    assert(s.subrange(i0, j as int).push(s[j as int]) =~= s.subrange(
                        i0,
                        j + 1,
                    ));
                }
                j = j + 1;
            }
            proof {
                lemma_scan_name_at(s, i + 1, j as int);
            }
            let ghost namev = name@;
            let t = name_token(name);
            proof {
                assert(t@ == kw_token(s.subrange(i0, j as int)));
                assert(sp_lex_from(s, i0) == (match sp_lex_from(s, j as int) {
                    Result::Ok(rest) => Result::<Seq<TokV>, int>::Ok(seq![t@] + rest),
                    Result::Err(p) => Result::<Seq<TokV>, int>::Err(p),
                }));
                lemma_lex_cons(s, i0, j as int, t@, done0);
            }
            toks.push(t);
            proof {
                assert(toks_view(toks@) =~= done0.push(t@));
            }
            i = j;
            continue;
        }
        // operators and punctuation; longest match first
        let b2: u8 = if n - i > 1 {
            input[i + 1]
        } else {
            0
        };
        let b3: u8 = if n - i > 2 {
            input[i + 2]
        } else {
            0
        };
        let step: Option<(Token, usize)> = if b == 61 && b2 == 61 {
            Option::Some((Token::EqEq, 2))
        } else if b == 61 && b2 == 62 {
            Option::Some((Token::Arrow, 2))
        } else if b == 61 {
            Option::Some((Token::Assign, 1))
        } else if b == 33 && b2 == 61 {
            Option::Some((Token::NotEq, 2))
        } else if b == 33 {
            Option::Some((Token::Bang, 1))
        } else if b == 60 && b2 == 61 {
            Option::Some((Token::Le, 2))
        } else if b == 60 {
            Option::Some((Token::Lt, 1))
        } else if b == 62 && b2 == 61 {
            Option::Some((Token::Ge, 2))
        } else if b == 62 {
            Option::Some((Token::Gt, 1))
        } else if b == 43 && b2 == 61 {
            Option::Some((Token::PlusAssign, 2))
        } else if b == 43 {
            Option::Some((Token::Plus, 1))
        } else if b == 45 && b2 == 61 {
            Option::Some((Token::MinusAssign, 2))
        } else if b == 45 {
            Option::Some((Token::Minus, 1))
        } else if b == 42 {
            Option::Some((Token::Star, 1))
        } else if b == 47 {
            Option::Some((Token::Slash, 1))
        } else if b == 36 && b2 == 36 {
            Option::Some((Token::DollarDollar, 2))
        } else if b == 36 {
            Option::Some((Token::Dollar, 1))
        } else if b == 35 && b2 == 35 && b3 == 35 {
            Option::Some((Token::HashThree, 3))
        } else if b == 35 && b2 == 35 {
            Option::Some((Token::HashTwo, 2))
        } else if b == 35 && b2 == 123 {
            Option::Some((Token::TableOpen, 2))
        } else if b == 35 {
            Option::Some((Token::HashOne, 1))
        } else if b == 46 && b2 == 46 && b3 == 61 {
            Option::Some((Token::DotDotEq, 3))
        } else if b == 46 && b2 == 46 {
            Option::Some((Token::DotDot, 2))
        } else if b == 46 {
            Option::Some((Token::Dot, 1))
        } else if b == 63 {
            Option::Some((Token::Question, 1))
        } else if b == 44 {
            Option::Some((Token::Comma, 1))
        } else if b == 58 {
            Option::Some((Token::Colon, 1))
        } else if b == 59 {
            Option::Some((Token::Semi, 1))
        } else if b == 124 {
            Option::Some((Token::Pipe, 1))
        } else if b == 40 {
            Option::Some((Token::LParen, 1))
        } else if b == 41 {
            Option::Some((Token::RParen, 1))
        } else if b == 123 {
            Option::Some((Token::LBrace, 1))
        } else if b == 125 {
            Option::Some((Token::RBrace, 1))
        } else if b == 91 {
            Option::Some((Token::LBracket, 1))
        } else if b == 93 {
            Option::Some((Token::RBracket, 1))
        } else {
            Option::None
        };
        match step {
            Option::None => {
                proof {
                    assert(sp_lex_from(s, i0) == Result::<Seq<TokV>, int>::Err(i0));
                }
                return Result::Err(LexError { pos: i });
            }
            Option::Some((t, w)) => {
                proof {
                    assert(i0 + w <= n);
                    assert(sp_lex_from(s, i0) == (match sp_lex_from(s, i0 + w) {
                        Result::Ok(rest) => Result::<Seq<TokV>, int>::Ok(seq![t@] + rest),
                        Result::Err(p) => Result::<Seq<TokV>, int>::Err(p),
                    }));
                    lemma_lex_cons(s, i0, i0 + w, t@, done0);
                }
                toks.push(t);
                proof {
                    assert(toks_view(toks@) =~= done0.push(t@));
                }
                i = i + w;
            }
        }
    }
    let r = Result::Ok(toks);
    proof {
        assert(sp_lex_from(s, i as int) == Result::<Seq<TokV>, int>::Ok(Seq::empty()));
        match sp_lex_from(s, i as int) {
            Result::Ok(rest) => {
                assert(toks_view(toks@) + rest =~= toks_view(toks@));
            }
            Result::Err(_) => {}
        }
    }
    r
}

} // verus!
