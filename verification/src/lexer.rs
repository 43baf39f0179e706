//! The lexer: source text to a token stream with byte spans.

use vstd::prelude::*;
use vstd::string::StrSliceExecFns;
use vstd::string::StringExecFns;

use vstd::std_specs::iter::IteratorSpec;

use crate::diagnostic::Diagnostic;
use crate::diagnostic::Span;
use crate::number::digits_end;
use crate::number::lemma_digits_end_at;
use crate::number::spec_char_digit;
use crate::text::str_eq;

verus! {

/// What a token is, together with its text where it has one.
#[derive(Debug, Clone)]
pub enum TokenKind {
    Ident(String),
    Number(String),
    String(String),
    KwNeuron,
    KwLayer,
    KwConnect,
    KwStimulus,
    KwRun,
    KwFor,
    KwStep,
    KwSeed,
    KwRate,
    LBrace,
    RBrace,
    LBracket,
    RBracket,
    LParen,
    RParen,
    Colon,
    Comma,
    Eq,
    Arrow,
}

/// A token with the byte span it was read from.
#[derive(Debug, Clone)]
pub struct Token {
    pub kind: TokenKind,
    pub span: Span,
}

/// The mathematical content of a [`TokenKind`].
pub enum TokenKindV {
    Ident(Seq<char>),
    Number(Seq<char>),
    StrLit(Seq<char>),
    KwNeuron,
    KwLayer,
    KwConnect,
    KwStimulus,
    KwRun,
    KwFor,
    KwStep,
    KwSeed,
    KwRate,
    LBrace,
    RBrace,
    LBracket,
    RBracket,
    LParen,
    RParen,
    Colon,
    Comma,
    Eq,
    Arrow,
}

/// The mathematical content of a [`Token`]: its kind and its byte span.
pub struct TokenV {
    pub kind: TokenKindV,
    pub start: int,
    pub end: int,
}

impl View for TokenKind {
    type V = TokenKindV;

    open spec fn view(&self) -> TokenKindV {
        match self {
            TokenKind::Ident(s) => TokenKindV::Ident(s@),
            TokenKind::Number(s) => TokenKindV::Number(s@),
            TokenKind::String(s) => TokenKindV::StrLit(s@),
            TokenKind::KwNeuron => TokenKindV::KwNeuron,
            TokenKind::KwLayer => TokenKindV::KwLayer,
            TokenKind::KwConnect => TokenKindV::KwConnect,
            TokenKind::KwStimulus => TokenKindV::KwStimulus,
            TokenKind::KwRun => TokenKindV::KwRun,
            TokenKind::KwFor => TokenKindV::KwFor,
            TokenKind::KwStep => TokenKindV::KwStep,
            TokenKind::KwSeed => TokenKindV::KwSeed,
            TokenKind::KwRate => TokenKindV::KwRate,
            TokenKind::LBrace => TokenKindV::LBrace,
            TokenKind::RBrace => TokenKindV::RBrace,
            TokenKind::LBracket => TokenKindV::LBracket,
            TokenKind::RBracket => TokenKindV::RBracket,
            TokenKind::LParen => TokenKindV::LParen,
            TokenKind::RParen => TokenKindV::RParen,
            TokenKind::Colon => TokenKindV::Colon,
            TokenKind::Comma => TokenKindV::Comma,
            TokenKind::Eq => TokenKindV::Eq,
            TokenKind::Arrow => TokenKindV::Arrow,
        }
    }
}

impl View for Token {
    type V = TokenV;

    open spec fn view(&self) -> TokenV {
        TokenV { kind: self.kind@, start: self.span.start as int, end: self.span.end as int }
    }
}

/// The mathematical content of a diagnostic: its message and byte span.
pub struct DiagV {
    pub message: Seq<char>,
    pub span: Option<(int, int)>,
}

/// The content of a [`Diagnostic`].
pub open spec fn diag_view(d: Diagnostic) -> DiagV {
    DiagV {
        message: d.message@,
        span: match d.span {
            Some(sp) => Some((sp.start as int, sp.end as int)),
            None => None,
        },
    }
}

/// How many bytes the UTF-8 encoding of `c` takes.
pub open spec fn char_size(c: char) -> int {
    if (c as u32) < 0x80 {
        1
    } else if (c as u32) < 0x800 {
        2
    } else if (c as u32) < 0x10000 {
        3
    } else {
        4
    }
}

/// The byte offset of the character at index `i`.
pub open spec fn byte_pos(s: Seq<char>, i: int) -> int
    decreases i,
{
    if i <= 0 {
        0
    } else {
        byte_pos(s, i - 1) + char_size(s[i - 1])
    }
}

/// ASCII whitespace.
pub open spec fn spec_is_ws(c: char) -> bool {
    c == ' ' || c == '\n' || c == '\r' || c == '\t'
}

/// A letter or underscore, the first character of an identifier.
pub open spec fn spec_is_ident_start(c: char) -> bool {
    let u: u32 = c as u32;
    (0x41 <= u <= 0x5a) || (0x61 <= u <= 0x7a) || u == 0x5f
}

/// A letter, underscore or digit.
pub open spec fn spec_is_ident_continue(c: char) -> bool {
    spec_is_ident_start(c) || spec_char_digit(c) >= 0
}

/// The first index at or after `i` whose character does not continue an
/// identifier, or the length.
pub open spec fn ident_end(s: Seq<char>, i: int) -> int
    decreases s.len() - i,
{
    if i < s.len() && spec_is_ident_continue(s[i]) {
        ident_end(s, i + 1)
    } else {
        i
    }
}

pub proof fn lemma_ident_end_at(s: Seq<char>, i: int, j: int)
    requires
        0 <= i <= j <= s.len(),
        forall|k: int| i <= k < j ==> spec_is_ident_continue(#[trigger] s[k]),
        j == s.len() || !spec_is_ident_continue(s[j]),
    ensures
        ident_end(s, i) == j,
    decreases j - i,
{
    if i < j {
        lemma_ident_end_at(s, i + 1, j);
    }
}

/// The index just past a `//` comment that starts before `i`: the first
/// newline at or after `i`, or the length.
pub open spec fn comment_end(s: Seq<char>, i: int) -> int
    decreases s.len() - i,
{
    if i < s.len() && s[i] != '\n' {
        comment_end(s, i + 1)
    } else {
        i
    }
}

pub proof fn lemma_comment_end_bounds(s: Seq<char>, i: int)
    requires
        0 <= i <= s.len(),
    ensures
        i <= comment_end(s, i) <= s.len(),
    decreases s.len() - i,
{
    if i < s.len() && s[i] != '\n' {
        lemma_comment_end_bounds(s, i + 1);
    }
}

pub proof fn lemma_comment_end_at(s: Seq<char>, i: int, j: int)
    requires
        0 <= i <= j <= s.len(),
        forall|k: int| i <= k < j ==> #[trigger] s[k] != '\n',
        j == s.len() || s[j] == '\n',
    ensures
        comment_end(s, i) == j,
    decreases j - i,
{
    if i < j {
        lemma_comment_end_at(s, i + 1, j);
    }
}

/// The first index at or after `i` that starts a token: whitespace and `//`
/// line comments are passed over.
pub open spec fn skip_ws(s: Seq<char>, i: int) -> int
    decreases s.len() - i, 1int,
        when 0 <= i <= s.len()
    via skip_ws_dec
{
    if i < s.len() && spec_is_ws(s[i]) {
        skip_ws(s, i + 1)
    } else if i + 1 < s.len() && s[i] == '/' && s[i + 1] == '/' {
        skip_ws(s, comment_end(s, i + 2))
    } else {
        i
    }
}

#[via_fn]
proof fn skip_ws_dec(s: Seq<char>, i: int) {
    if !(i < s.len() && spec_is_ws(s[i])) && i + 1 < s.len() && s[i] == '/' && s[i + 1] == '/' {
        lemma_comment_end_bounds(s, i + 2);
    }
}

pub proof fn lemma_skip_ws_bounds(s: Seq<char>, i: int)
    requires
        0 <= i <= s.len(),
    ensures
        i <= skip_ws(s, i) <= s.len(),
    decreases s.len() - i, 1int,
{
    if i < s.len() && spec_is_ws(s[i]) {
        lemma_skip_ws_bounds(s, i + 1);
    } else if i + 1 < s.len() && s[i] == '/' && s[i + 1] == '/' {
        lemma_comment_end_bounds(s, i + 2);
        lemma_skip_ws_bounds(s, comment_end(s, i + 2));
    }
}

/// What scanning one string literal yields: its decoded content and the index
/// just past the closing quote, or a diagnostic.
pub enum StrScan {
    SDone(Seq<char>, int),
    SFail(DiagV),
}

/// Scans a string literal body from `j`, given the byte offset `start_b` of
/// the opening quote.  Escapes `\" \\ \n \r \t` are decoded; any other escape
/// or an unterminated literal fails.
pub open spec fn spec_scan_str(s: Seq<char>, start_b: int, j: int) -> StrScan
    decreases s.len() - j,
        when 0 <= j <= s.len()
    via spec_scan_str_dec
{
    if j >= s.len() {
        StrScan::SFail(
            DiagV { message: "unterminated string"@, span: Some((start_b, byte_pos(s, s.len() as int))) },
        )
    } else if s[j] == '"' {
        StrScan::SDone(Seq::empty(), j + 1)
    } else if s[j] == '\\' {
        if j + 1 >= s.len() {
            StrScan::SFail(
                DiagV {
                    message: "unterminated string"@,
                    span: Some((start_b, byte_pos(s, s.len() as int))),
                },
            )
        } else {
            let e: char = s[j + 1];
            let dec: char = if e == '"' {
                '"'
            } else if e == '\\' {
                '\\'
            } else if e == 'n' {
                '\n'
            } else if e == 'r' {
                '\r'
            } else if e == 't' {
                '\t'
            } else {
                ' '
            };
            if e == '"' || e == '\\' || e == 'n' || e == 'r' || e == 't' {
                match spec_scan_str(s, start_b, j + 2) {
                    StrScan::SDone(rest, j2) => StrScan::SDone(seq![dec] + rest, j2),
                    StrScan::SFail(d) => StrScan::SFail(d),
                }
            } else {
                StrScan::SFail(
                    DiagV {
                        message: "invalid string escape"@,
                        span: Some((byte_pos(s, j), byte_pos(s, j) + 2)),
                    },
                )
            }
        }
    } else {
        match spec_scan_str(s, start_b, j + 1) {
            StrScan::SDone(rest, j2) => StrScan::SDone(seq![s[j]] + rest, j2),
            StrScan::SFail(d) => StrScan::SFail(d),
        }
    }
}

#[via_fn]
proof fn spec_scan_str_dec(s: Seq<char>, start_b: int, j: int) {
}

pub proof fn lemma_scan_str_bounds(s: Seq<char>, start_b: int, j: int)
    requires
        0 <= j <= s.len(),
    ensures
        match spec_scan_str(s, start_b, j) {
            StrScan::SDone(_, j2) => j < j2 <= s.len(),
            StrScan::SFail(_) => true,
        },
    decreases s.len() - j,
{
    if j >= s.len() {
    } else if s[j] == '"' {
    } else if s[j] == '\\' {
        if j + 1 < s.len() {
            lemma_scan_str_bounds(s, start_b, j + 2);
        }
    } else {
        lemma_scan_str_bounds(s, start_b, j + 1);
    }
}

/// The keyword a given identifier text stands for, if any.
pub open spec fn kw_kind(t: Seq<char>) -> TokenKindV {
    if t == "neuron"@ {
        TokenKindV::KwNeuron
    } else if t == "layer"@ {
        TokenKindV::KwLayer
    } else if t == "connect"@ {
        TokenKindV::KwConnect
    } else if t == "stimulus"@ {
        TokenKindV::KwStimulus
    } else if t == "run"@ {
        TokenKindV::KwRun
    } else if t == "for"@ {
        TokenKindV::KwFor
    } else if t == "step"@ {
        TokenKindV::KwStep
    } else if t == "seed"@ {
        TokenKindV::KwSeed
    } else if t == "rate"@ {
        TokenKindV::KwRate
    } else {
        TokenKindV::Ident(t)
    }
}

/// What scanning one token yields: the end of the input, a token and the
/// index just past it, or a diagnostic.
pub enum ScanRes {
    Eof,
    Tok(TokenV, int),
    Fail(DiagV),
}

/// A single-character token of the given kind at character index `j`.
pub open spec fn punct_tok(s: Seq<char>, j: int, kind: TokenKindV) -> ScanRes {
    ScanRes::Tok(TokenV { kind, start: byte_pos(s, j), end: byte_pos(s, j) + 1 }, j + 1)
}

/// Scans the next token at or after character index `i`.
pub open spec fn spec_scan(s: Seq<char>, i: int) -> ScanRes
    recommends
        0 <= i <= s.len(),
{
    let j: int = skip_ws(s, i);
    let bj: int = byte_pos(s, j);
    if j >= s.len() {
        ScanRes::Eof
    } else {
        let c: char = s[j];
        if c == '{' {
            punct_tok(s, j, TokenKindV::LBrace)
        } else if c == '}' {
            punct_tok(s, j, TokenKindV::RBrace)
        } else if c == '[' {
            punct_tok(s, j, TokenKindV::LBracket)
        } else if c == ']' {
            punct_tok(s, j, TokenKindV::RBracket)
        } else if c == '(' {
            punct_tok(s, j, TokenKindV::LParen)
        } else if c == ')' {
            punct_tok(s, j, TokenKindV::RParen)
        } else if c == ':' {
            punct_tok(s, j, TokenKindV::Colon)
        } else if c == ',' {
            punct_tok(s, j, TokenKindV::Comma)
        } else if c == '=' {
            punct_tok(s, j, TokenKindV::Eq)
        } else if c == '-' && j + 1 < s.len() && s[j + 1] == '>' {
            ScanRes::Tok(TokenV { kind: TokenKindV::Arrow, start: bj, end: bj + 2 }, j + 2)
        } else if c == '"' {
            match spec_scan_str(s, bj, j + 1) {
                StrScan::SDone(content, j2) => ScanRes::Tok(
                    TokenV { kind: TokenKindV::StrLit(content), start: bj, end: byte_pos(s, j2) },
                    j2,
                ),
                StrScan::SFail(d) => ScanRes::Fail(d),
            }
        } else if c == '-' || spec_char_digit(c) >= 0 {
            if c == '-' && (j + 1 >= s.len() || spec_char_digit(s[j + 1]) < 0) {
                ScanRes::Fail(DiagV { message: "unexpected '-'"@, span: Some((bj, bj + 1)) })
            } else {
                let ds: int = if c == '-' {
                    j + 1
                } else {
                    j
                };
                let de: int = digits_end(s, ds);
                let end: int = if de < s.len() && s[de] == '.' {
                    digits_end(s, de + 1)
                } else {
                    de
                };
                ScanRes::Tok(
                    TokenV {
                        kind: TokenKindV::Number(s.subrange(j, end)),
                        start: bj,
                        end: byte_pos(s, end),
                    },
                    end,
                )
            }
        } else if spec_is_ident_start(c) {
            let e: int = ident_end(s, j + 1);
            ScanRes::Tok(
                TokenV { kind: kw_kind(s.subrange(j, e)), start: bj, end: byte_pos(s, e) },
                e,
            )
        } else {
            ScanRes::Fail(
                DiagV {
                    message: "unexpected character '"@ + seq![c] + "'"@,
                    span: Some((bj, bj + 1)),
                },
            )
        }
    }
}

pub proof fn lemma_digits_end_bounds(s: Seq<char>, i: int)
    requires
        0 <= i <= s.len(),
    ensures
        i <= digits_end(s, i) <= s.len(),
    decreases s.len() - i,
{
    if i < s.len() && spec_char_digit(s[i]) >= 0 {
        lemma_digits_end_bounds(s, i + 1);
    }
}

pub proof fn lemma_ident_end_bounds(s: Seq<char>, i: int)
    requires
        0 <= i <= s.len(),
    ensures
        i <= ident_end(s, i) <= s.len(),
    decreases s.len() - i,
{
    if i < s.len() && spec_is_ident_continue(s[i]) {
        lemma_ident_end_bounds(s, i + 1);
    }
}

/// A scanned token always stands strictly after the scan's starting index.
pub proof fn lemma_scan_advances(s: Seq<char>, i: int)
    requires
        0 <= i <= s.len(),
    ensures
        match spec_scan(s, i) {
            ScanRes::Tok(_, n) => i < n <= s.len(),
            _ => true,
        },
{
    lemma_skip_ws_bounds(s, i);
    let j: int = skip_ws(s, i);
    if j < s.len() {
        let c: char = s[j];
        if c == '"' {
            lemma_scan_str_bounds(s, byte_pos(s, j), j + 1);
        } else if c == '-' || spec_char_digit(c) >= 0 {
            let ds: int = if c == '-' {
                j + 1
            } else {
                j
            };
            if ds <= s.len() {
                lemma_digits_end_bounds(s, ds);
                if ds < s.len() && spec_char_digit(s[ds]) >= 0 {
                    // the first digit is consumed, so the scan advances
                    lemma_digits_end_bounds(s, ds + 1);
                    assert(digits_end(s, ds) == digits_end(s, ds + 1));
                }
                let de: int = digits_end(s, ds);
                if de < s.len() && s[de] == '.' {
                    lemma_digits_end_bounds(s, de + 1);
                }
            }
        } else if spec_is_ident_start(c) {
            lemma_ident_end_bounds(s, j + 1);
        }
    }
}

/// Lexing the whole input from character index `i` on.
pub open spec fn spec_lex_from(s: Seq<char>, i: int) -> Result<Seq<TokenV>, DiagV>
    decreases s.len() - i,
        when 0 <= i <= s.len()
    via spec_lex_from_dec
{
    match spec_scan(s, i) {
        ScanRes::Eof => Ok(Seq::empty()),
        ScanRes::Fail(d) => Err(d),
        ScanRes::Tok(t, n) => match spec_lex_from(s, n) {
            Ok(rest) => Ok(seq![t] + rest),
            Err(d) => Err(d),
        },
    }
}

#[via_fn]
proof fn spec_lex_from_dec(s: Seq<char>, i: int) {
    lemma_scan_advances(s, i);
}

/// What lexing an input yields: its token stream, or the first diagnostic.
pub open spec fn spec_lex(s: Seq<char>) -> Result<Seq<TokenV>, DiagV> {
    spec_lex_from(s, 0)
}

/// The views of a vector of tokens.
pub open spec fn tokens_view(ts: Seq<Token>) -> Seq<TokenV> {
    ts.map(|i: int, t: Token| t@)
}

pub proof fn lemma_byte_pos_bounds(s: Seq<char>, i: int)
    requires
        0 <= i,
    ensures
        i <= byte_pos(s, i) <= 4 * i,
    decreases i,
{
    if i > 0 {
        lemma_byte_pos_bounds(s, i - 1);
    }
}

/// The characters of a string slice, in order.
pub fn collect_chars(input: &str) -> (v: Vec<char>)
    ensures
        v@ == input@,
{
    broadcast use vstd::string::group_string_axioms;

    let mut it = input.chars();
    let mut v: Vec<char> = Vec::new();
    loop
        invariant
            it.obeys_prophetic_iter_laws(),
            v@ + it.remaining() == input@,
        ensures
            v@ == input@,
        decreases input@.len() - v@.len(),
    {
        match it.next() {
            Some(c) => {
                v.push(c);
                proof {
                    assert(v@ + it.remaining() =~= input@);
                }
            },
            None => {
                proof {
                    assert(v@ =~= input@);
                }
                break ;
            },
        }
    }
    v
}

/// How many bytes the UTF-8 encoding of `c` takes.
pub fn char_size_pub(c: char) -> (n: usize)
    ensures
        n == char_size(c),
{
    let u: u32 = c as u32;
    if u < 0x80 {
        1
    } else if u < 0x800 {
        2
    } else if u < 0x10000 {
        3
    } else {
        4
    }
}

fn is_ws_c(c: char) -> (r: bool)
    ensures
        r == spec_is_ws(c),
{
    c == ' ' || c == '\n' || c == '\r' || c == '\t'
}

fn is_ident_start_c(c: char) -> (r: bool)
    ensures
        r == spec_is_ident_start(c),
{
    let u: u32 = c as u32;
    (0x41 <= u && u <= 0x5a) || (0x61 <= u && u <= 0x7a) || u == 0x5f
}

fn is_ident_continue_c(c: char) -> (r: bool)
    ensures
        r == spec_is_ident_continue(c),
{
    is_ident_start_c(c) || is_digit_c(c)
}

fn is_digit_c(c: char) -> (r: bool)
    ensures
        r == (spec_char_digit(c) >= 0),
{
    let u: u32 = c as u32;
    0x30 <= u && u <= 0x39
}

/// Passes over whitespace and `//` comments, keeping the byte offset in step.
fn skip_ws_exec(chars: &Vec<char>, i: usize, b: usize) -> (r: (usize, usize))
    requires
        i <= chars@.len(),
        b == byte_pos(chars@, i as int),
        4 * chars@.len() <= usize::MAX,
    ensures
        r.0 == skip_ws(chars@, i as int),
        i <= r.0 <= chars@.len(),
        r.1 == byte_pos(chars@, r.0 as int),
{
    let ghost s: Seq<char> = chars@;
    let n: usize = chars.len();
    let mut j: usize = i;
    let mut bb: usize = b;
    loop
        invariant
            s == chars@,
            n == s.len(),
            i <= j <= n,
            bb == byte_pos(s, j as int),
            4 * s.len() <= usize::MAX,
            skip_ws(s, i as int) == skip_ws(s, j as int),
        ensures
            j == skip_ws(s, i as int),
            i <= j <= n,
            bb == byte_pos(s, j as int),
        decreases n - j,
    {
        proof {
            lemma_byte_pos_bounds(s, j as int);
        }
        if j < n && is_ws_c(chars[j]) {
            j += 1;
            bb += 1;
        } else if j + 1 < n && chars[j] == '/' && chars[j + 1] == '/' {
            let ghost j0: int = j as int;
            proof {
                assert(byte_pos(s, j0 + 1) == byte_pos(s, j0) + 1);
                assert(byte_pos(s, j0 + 2) == byte_pos(s, j0 + 1) + 1);
            }
            j += 2;
            bb += 2;
            while j < n && chars[j] != '\n'
                invariant
                    s == chars@,
                    n == s.len(),
                    j0 + 2 <= j <= n,
                    bb == byte_pos(s, j as int),
                    4 * s.len() <= usize::MAX,
                    forall|k: int| j0 + 2 <= k < j ==> #[trigger] s[k] != '\n',
                decreases n - j,
            {
                proof {
                    lemma_byte_pos_bounds(s, j as int);
                }
                let sz: usize = char_size_pub(chars[j]);
                j += 1;
                bb += sz;
            }
            proof {
                lemma_comment_end_at(s, j0 + 2, j as int);
            }
        } else {
            break ;
        }
    }
    (j, bb)
}

/// Scans a run of digits, keeping the byte offset in step.
fn scan_digit_run(chars: &Vec<char>, i: usize, b: usize) -> (r: (usize, usize))
    requires
        i <= chars@.len(),
        b == byte_pos(chars@, i as int),
        4 * chars@.len() <= usize::MAX,
    ensures
        r.0 == digits_end(chars@, i as int),
        i <= r.0 <= chars@.len(),
        r.1 == byte_pos(chars@, r.0 as int),
{
    let ghost s: Seq<char> = chars@;
    let n: usize = chars.len();
    let mut j: usize = i;
    let mut bb: usize = b;
    while j < n && is_digit_c(chars[j])
        invariant
            s == chars@,
            n == s.len(),
            i <= j <= n,
            bb == byte_pos(s, j as int),
            4 * s.len() <= usize::MAX,
            forall|k: int| i <= k < j ==> spec_char_digit(#[trigger] s[k]) >= 0,
        decreases n - j,
    {
        proof {
            lemma_byte_pos_bounds(s, j as int);
        }
        j += 1;
        bb += 1;
    }
    proof {
        lemma_digits_end_at(s, i as int, j as int);
    }
    (j, bb)
}

/// Scans a run of identifier characters, keeping the byte offset in step.
fn scan_ident_run(chars: &Vec<char>, i: usize, b: usize) -> (r: (usize, usize))
    requires
        i <= chars@.len(),
        b == byte_pos(chars@, i as int),
        4 * chars@.len() <= usize::MAX,
    ensures
        r.0 == ident_end(chars@, i as int),
        i <= r.0 <= chars@.len(),
        r.1 == byte_pos(chars@, r.0 as int),
{
    let ghost s: Seq<char> = chars@;
    let n: usize = chars.len();
    let mut j: usize = i;
    let mut bb: usize = b;
    while j < n && is_ident_continue_c(chars[j])
        invariant
            s == chars@,
            n == s.len(),
            i <= j <= n,
            bb == byte_pos(s, j as int),
            4 * s.len() <= usize::MAX,
            forall|k: int| i <= k < j ==> spec_is_ident_continue(#[trigger] s[k]),
        decreases n - j,
    {
        proof {
            lemma_byte_pos_bounds(s, j as int);
        }
        j += 1;
        bb += 1;
    }
    proof {
        lemma_ident_end_at(s, i as int, j as int);
    }
    (j, bb)
}

/// Scans a string literal whose opening quote stands at `j0`.
fn scan_string(input: &str, chars: &Vec<char>, j0: usize, b0: usize) -> (r: Result<
    (String, usize, usize),
    Diagnostic,
>)
    requires
        chars@ == input@,
        j0 < chars@.len(),
        chars@[j0 as int] == '"',
        b0 == byte_pos(chars@, j0 as int),
        4 * chars@.len() <= usize::MAX,
    ensures
        match r {
            Ok((content, i2, b2)) => spec_scan_str(chars@, b0 as int, j0 + 1) == StrScan::SDone(
                content@,
                i2 as int,
            ) && j0 < i2 <= chars@.len() && b2 == byte_pos(chars@, i2 as int),
            Err(d) => spec_scan_str(chars@, b0 as int, j0 + 1) == StrScan::SFail(diag_view(d)),
        },
{
    let ghost s: Seq<char> = chars@;
    let n: usize = chars.len();
    proof {
        lemma_byte_pos_bounds(s, j0 as int);
        assert(byte_pos(s, j0 + 1) == byte_pos(s, j0 as int) + 1);
    }
    let mut content: String = String::new();
    let mut j: usize = j0 + 1;
    let mut bb: usize = b0 + 1;
    loop
        invariant
            s == chars@,
            s == input@,
            n == s.len(),
            j0 + 1 <= j <= n,
            j0 < n,
            bb == byte_pos(s, j as int),
            b0 == byte_pos(s, j0 as int),
            s[j0 as int] == '"',
            4 * s.len() <= usize::MAX,
            match spec_scan_str(s, b0 as int, j as int) {
                StrScan::SDone(rest, j2) => spec_scan_str(s, b0 as int, j0 + 1) == StrScan::SDone(
                    content@ + rest,
                    j2,
                ),
                StrScan::SFail(d) => spec_scan_str(s, b0 as int, j0 + 1) == StrScan::SFail(d),
            },
        decreases n - j,
    {
        proof {
            lemma_byte_pos_bounds(s, j as int);
        }
        if j >= n {
            let mut msg: String = String::new();
            proof {
                reveal_strlit("unterminated string");
            }
            msg.append("unterminated string");
            return Err(Diagnostic::new(msg).with_span(Span::new(b0, bb)));
        }
        let c: char = chars[j];
        if c == '"' {
            proof {
                assert(content@ + Seq::<char>::empty() =~= content@);
            }
            return Ok((content, j + 1, bb + 1));
        } else if c == '\\' {
            if j + 1 >= n {
                let mut msg: String = String::new();
                proof {
                    reveal_strlit("unterminated string");
                }
                msg.append("unterminated string");
                return Err(Diagnostic::new(msg).with_span(Span::new(b0, bb + 1)));
            }
            let e: char = chars[j + 1];
            let ghost content0: Seq<char> = content@;
            if e == '"' {
                proof {
                    reveal_strlit("\"");
                }
                content.append("\"");
                proof {
                    assert(content@ =~= content0 + seq!['"']);
                }
            } else if e == '\\' {
                proof {
                    reveal_strlit("\\");
                }
                content.append("\\");
                proof {
                    assert(content@ =~= content0 + seq!['\\']);
                }
            } else if e == 'n' {
                proof {
                    reveal_strlit("\n");
                }
                content.append("\n");
                proof {
                    assert(content@ =~= content0 + seq!['\n']);
                }
            } else if e == 'r' {
                proof {
                    reveal_strlit("\r");
                }
                content.append("\r");
                proof {
                    assert(content@ =~= content0 + seq!['\r']);
                }
            } else if e == 't' {
                proof {
                    reveal_strlit("\t");
                }
                content.append("\t");
                proof {
                    assert(content@ =~= content0 + seq!['\t']);
                }
            } else {
                let mut msg: String = String::new();
                proof {
                    reveal_strlit("invalid string escape");
                }
                msg.append("invalid string escape");
                return Err(Diagnostic::new(msg).with_span(Span::new(bb, bb + 2)));
            }
            proof {
                assert(content@.len() == content0.len() + 1);
                let dec: char = content@[content0.len() as int];
                assert(content@ =~= content0 + seq![dec]);
                match spec_scan_str(s, b0 as int, j + 2) {
                    StrScan::SDone(rest, j2) => {
                        assert(spec_scan_str(s, b0 as int, j as int) == StrScan::SDone(
                            seq![dec] + rest,
                            j2,
                        ));
                        assert((content0 + seq![dec]) + rest =~= content0 + (seq![dec] + rest));
                    },
                    StrScan::SFail(_) => {},
                }
                assert(byte_pos(s, j + 1) == byte_pos(s, j as int) + 1);
                assert(byte_pos(s, j + 2) == byte_pos(s, j + 1) + 1);
            }
            j += 2;
            bb += 2;
        } else {
            let ghost content0: Seq<char> = content@;
            content.append(input.substring_char(j, j + 1));
            proof {
                assert(input@.subrange(j as int, j + 1) =~= seq![s[j as int]]);
                assert(content@ =~= content0 + seq![s[j as int]]);
                match spec_scan_str(s, b0 as int, j + 1) {
                    StrScan::SDone(rest, j2) => {
                        assert(spec_scan_str(s, b0 as int, j as int) == StrScan::SDone(
                            seq![s[j as int]] + rest,
                            j2,
                        ));
                        assert((content0 + seq![s[j as int]]) + rest =~= content0 + (seq![
                            s[j as int],
                        ] + rest));
                    },
                    StrScan::SFail(_) => {},
                }
            }
            let sz: usize = char_size_pub(c);
            j += 1;
            bb += sz;
        }
    }
}

/// Builds a token from a kind and byte span.
fn mk_token(kind: TokenKind, start: usize, end: usize) -> (t: Token)
    ensures
        t@ == (TokenV { kind: kind@, start: start as int, end: end as int }),
{
    Token { kind, span: Span::new(start, end) }
}

/// Scans the next token; `Ok(None)` at the end of the input.
fn next_token(input: &str, chars: &Vec<char>, i: usize, b: usize) -> (r: Result<
    Option<(Token, usize, usize)>,
    Diagnostic,
>)
    requires
        chars@ == input@,
        i <= chars@.len(),
        b == byte_pos(chars@, i as int),
        4 * chars@.len() <= usize::MAX,
    ensures
        match r {
            Ok(None) => spec_scan(chars@, i as int) is Eof,
            Ok(Some((t, i2, b2))) => spec_scan(chars@, i as int) == ScanRes::Tok(t@, i2 as int)
                && i < i2 <= chars@.len() && b2 == byte_pos(chars@, i2 as int),
            Err(d) => spec_scan(chars@, i as int) == ScanRes::Fail(diag_view(d)),
        },
{
    let ghost s: Seq<char> = chars@;
    let n: usize = chars.len();
    let (j, bj): (usize, usize) = skip_ws_exec(chars, i, b);
    if j >= n {
        return Ok(None);
    }
    proof {
        lemma_byte_pos_bounds(s, j as int);
    }
    let c: char = chars[j];
    if c == '{' {
        Ok(Some((mk_token(TokenKind::LBrace, bj, bj + 1), j + 1, bj + 1)))
    } else if c == '}' {
        Ok(Some((mk_token(TokenKind::RBrace, bj, bj + 1), j + 1, bj + 1)))
    } else if c == '[' {
        Ok(Some((mk_token(TokenKind::LBracket, bj, bj + 1), j + 1, bj + 1)))
    } else if c == ']' {
        Ok(Some((mk_token(TokenKind::RBracket, bj, bj + 1), j + 1, bj + 1)))
    } else if c == '(' {
        Ok(Some((mk_token(TokenKind::LParen, bj, bj + 1), j + 1, bj + 1)))
    } else if c == ')' {
        Ok(Some((mk_token(TokenKind::RParen, bj, bj + 1), j + 1, bj + 1)))
    } else if c == ':' {
        Ok(Some((mk_token(TokenKind::Colon, bj, bj + 1), j + 1, bj + 1)))
    } else if c == ',' {
        Ok(Some((mk_token(TokenKind::Comma, bj, bj + 1), j + 1, bj + 1)))
    } else if c == '=' {
        Ok(Some((mk_token(TokenKind::Eq, bj, bj + 1), j + 1, bj + 1)))
    } else if c == '-' && j + 1 < n && chars[j + 1] == '>' {
        proof {
            assert(byte_pos(s, j + 1) == byte_pos(s, j as int) + 1);
            assert(byte_pos(s, j + 2) == byte_pos(s, j + 1) + 1);
        }
        Ok(Some((mk_token(TokenKind::Arrow, bj, bj + 2), j + 2, bj + 2)))
    } else if c == '"' {
        match scan_string(input, chars, j, bj) {
            Ok((content, i2, b2)) => Ok(
                Some((mk_token(TokenKind::String(content), bj, b2), i2, b2)),
            ),
            Err(d) => Err(d),
        }
    } else if c == '-' || is_digit_c(c) {
        if c == '-' && (j + 1 >= n || !is_digit_c(chars[j + 1])) {
            let mut msg: String = String::new();
            proof {
                reveal_strlit("unexpected '-'");
            }
            msg.append("unexpected '-'");
            return Err(Diagnostic::new(msg).with_span(Span::new(bj, bj + 1)));
        }
        let (ds, bs): (usize, usize) = if c == '-' {
            (j + 1, bj + 1)
        } else {
            (j, bj)
        };
        proof {
            if spec_char_digit(c) >= 0 {
                lemma_digits_end_bounds(s, j + 1);
                assert(digits_end(s, j as int) == digits_end(s, j + 1));
            }
        }
        let (de, be): (usize, usize) = scan_digit_run(chars, ds, bs);
        let (end, bend): (usize, usize) = if de < n && chars[de] == '.' {
            proof {
                lemma_byte_pos_bounds(s, de as int);
            }
            scan_digit_run(chars, de + 1, be + 1)
        } else {
            (de, be)
        };
        let text: String = input.substring_char(j, end).to_owned();
        Ok(Some((mk_token(TokenKind::Number(text), bj, bend), end, bend)))
    } else if is_ident_start_c(c) {
        let (e, be): (usize, usize) = scan_ident_run(chars, j + 1, bj + 1);
        let text: &str = input.substring_char(j, e);
        let kind: TokenKind = if str_eq(text, "neuron") {
            TokenKind::KwNeuron
        } else if str_eq(text, "layer") {
            TokenKind::KwLayer
        } else if str_eq(text, "connect") {
            TokenKind::KwConnect
        } else if str_eq(text, "stimulus") {
            TokenKind::KwStimulus
        } else if str_eq(text, "run") {
            TokenKind::KwRun
        } else if str_eq(text, "for") {
            TokenKind::KwFor
        } else if str_eq(text, "step") {
            TokenKind::KwStep
        } else if str_eq(text, "seed") {
            TokenKind::KwSeed
        } else if str_eq(text, "rate") {
            TokenKind::KwRate
        } else {
            TokenKind::Ident(text.to_owned())
        };
        Ok(Some((mk_token(kind, bj, be), e, be)))
    } else {
        let mut msg: String = String::new();
        proof {
            reveal_strlit("unexpected character '");
            reveal_strlit("'");
        }
        msg.append("unexpected character '");
        msg.append(input.substring_char(j, j + 1));
        msg.append("'");
        proof {
            assert(input@.subrange(j as int, j + 1) =~= seq![s[j as int]]);
        }
        Err(Diagnostic::new(msg).with_span(Span::new(bj, bj + 1)))
    }
}

/// Lexes the whole input: its token stream, or the first diagnostic.
///
/// The bound on the length keeps every byte offset within the machine word,
/// whatever the input's characters encode to.
pub fn lex(input: &str) -> (r: Result<Vec<Token>, Diagnostic>)
    requires
        4 * input@.len() <= usize::MAX,
    ensures
        match r {
            Ok(toks) => spec_lex(input@) == Ok::<Seq<TokenV>, DiagV>(tokens_view(toks@)),
            Err(d) => spec_lex(input@) == Err::<Seq<TokenV>, DiagV>(diag_view(d)),
        },
{
    let chars: Vec<char> = collect_chars(input);
    let ghost s: Seq<char> = chars@;
    let mut tokens: Vec<Token> = Vec::new();
    let mut i: usize = 0;
    let mut b: usize = 0;
    loop
        invariant
            s == chars@,
            s == input@,
            i <= s.len(),
            b == byte_pos(s, i as int),
            4 * s.len() <= usize::MAX,
            match spec_lex_from(s, i as int) {
                Ok(rest) => spec_lex_from(s, 0) == Ok::<Seq<TokenV>, DiagV>(
                    tokens_view(tokens@) + rest,
                ),
                Err(e) => spec_lex_from(s, 0) == Err::<Seq<TokenV>, DiagV>(e),
            },
        ensures
            spec_lex_from(s, 0) == Ok::<Seq<TokenV>, DiagV>(tokens_view(tokens@)),
        decreases s.len() - i,
    {
        match next_token(input, &chars, i, b) {
            Ok(None) => {
                proof {
                    assert(tokens_view(tokens@) + Seq::<TokenV>::empty() =~= tokens_view(
                        tokens@,
                    ));
                }
                break ;
            },
            Ok(Some((t, i2, b2))) => {
                let ghost tokens0: Seq<Token> = tokens@;
                tokens.push(t);
                proof {
                    assert(tokens_view(tokens@) =~= tokens_view(tokens0) + seq![t@]);
                    match spec_lex_from(s, i2 as int) {
                        Ok(rest) => {
                            assert(tokens_view(tokens0) + (seq![t@] + rest) =~= tokens_view(
                                tokens@,
                            ) + rest);
                        },
                        Err(e) => {},
                    }
                }
                i = i2;
                b = b2;
            },
            Err(d) => {
                return Err(d);
            },
        }
    }
    Ok(tokens)
}

} // verus!
