//! The parser: token stream to syntax tree, stopping at the first error.

use vstd::prelude::*;
use vstd::string::StrSliceExecFns;
use vstd::string::StringExecFns;

use crate::ast::Assign;
use crate::ast::AssignV;
use crate::ast::Call;
use crate::ast::CallArg;
use crate::ast::CallArgV;
use crate::ast::CallV;
use crate::ast::Expr;
use crate::ast::ExprV;
use crate::ast::Ident;
use crate::ast::IdentV;
use crate::ast::Item;
use crate::ast::ItemV;
use crate::ast::LayerDef;
use crate::ast::NeuronDef;
use crate::ast::ConnectDef;
use crate::ast::Program;
use crate::ast::Quantity;
use crate::ast::QuantityV;
use crate::ast::RunStmt;
use crate::ast::SeedStmt;
use crate::ast::StimulusDef;
use crate::ast::StimulusModel;
use crate::ast::args_match;
use crate::ast::assigns_match;
use crate::ast::call_arg_matches;
use crate::ast::expr_matches;
use crate::ast::item_matches;
use crate::ast::items_match;
use crate::ast::program_matches;
use crate::diagnostic::Diagnostic;
use crate::diagnostic::Span;
use crate::lexer::DiagV;
use crate::lexer::Token;
use crate::lexer::TokenKind;
use crate::lexer::TokenKindV;
use crate::lexer::TokenV;
use crate::lexer::diag_view;
use crate::lexer::lex;
use crate::lexer::spec_lex;
use crate::lexer::tokens_view;
use crate::number::chars_digits;
use crate::number::digits_end;
use crate::number::digits_val;
use crate::number::digits_ok;
use crate::number::lemma_digits_val_prefix;
use crate::number::parse_decimal;
use crate::number::spec_char_digit;
use crate::number::spec_parse_decimal;

verus! {

/// What a parsing step yields: a value and the index just past it, or a
/// diagnostic.
pub enum PRes<T> {
    POk(T, int),
    PErr(DiagV),
}

/// The diagnostic for an expectation that met the end of the input.
pub open spec fn eof_err(what: Seq<char>) -> DiagV {
    DiagV { message: "expected "@ + what + ", found end of input"@, span: None }
}

/// The diagnostic for an expectation that met the wrong token.
pub open spec fn expect_err(what: Seq<char>, t: TokenV) -> DiagV {
    DiagV { message: "expected "@ + what, span: Some((t.start, t.end)) }
}

/// The byte span of a token, as a [`Span`].
pub open spec fn span_of_tok(t: TokenV) -> Span {
    Span { start: t.start as usize, end: t.end as usize }
}

/// The content of a [`Span`], for diagnostics.
pub open spec fn span_pair(s: Span) -> Option<(int, int)> {
    Some((s.start as int, s.end as int))
}

/// Expecting one fixed token kind.
pub open spec fn spec_expect(toks: Seq<TokenV>, i: int, k: TokenKindV, what: Seq<char>) -> PRes<
    TokenV,
> {
    if i >= toks.len() {
        PRes::PErr(eof_err(what))
    } else if toks[i].kind == k {
        PRes::POk(toks[i], i + 1)
    } else {
        PRes::PErr(expect_err(what, toks[i]))
    }
}

/// Parsing an identifier; the keyword `rate` doubles as one.
pub open spec fn spec_parse_ident(toks: Seq<TokenV>, i: int, what: Seq<char>) -> PRes<IdentV> {
    if i >= toks.len() {
        PRes::PErr(eof_err(what))
    } else {
        let t = toks[i];
        match t.kind {
            TokenKindV::Ident(s) => PRes::POk(IdentV { name: s, span: span_of_tok(t) }, i + 1),
            TokenKindV::KwRate => PRes::POk(
                IdentV { name: "rate"@, span: span_of_tok(t) },
                i + 1,
            ),
            _ => PRes::PErr(expect_err(what, t)),
        }
    }
}

/// The value of an unsigned decimal literal, when it has only digits and fits
/// in 64 bits.
pub open spec fn spec_u64_str(t: Seq<char>) -> Option<u64> {
    if t.len() >= 1 && digits_end(t, 0) == t.len() && digits_val(
        chars_digits(t, 0, t.len() as int),
    ) <= u64::MAX {
        Some(digits_val(chars_digits(t, 0, t.len() as int)) as u64)
    } else {
        None
    }
}

/// Parsing an unsigned 64-bit integer.
pub open spec fn spec_parse_u64(toks: Seq<TokenV>, i: int, what: Seq<char>) -> PRes<u64> {
    if i >= toks.len() {
        PRes::PErr(eof_err(what))
    } else {
        let t = toks[i];
        match t.kind {
            TokenKindV::Number(text) => match spec_u64_str(text) {
                Some(v) => PRes::POk(v, i + 1),
                None => PRes::PErr(
                    DiagV {
                        message: "invalid integer for "@ + what,
                        span: Some((t.start, t.end)),
                    },
                ),
            },
            _ => PRes::PErr(expect_err(what, t)),
        }
    }
}

/// Parsing a quantity: a number token, then an optional unit identifier.
pub open spec fn spec_parse_quantity(toks: Seq<TokenV>, i: int, what: Seq<char>) -> PRes<
    QuantityV,
> {
    if i >= toks.len() {
        PRes::PErr(eof_err(what))
    } else {
        let t = toks[i];
        match t.kind {
            TokenKindV::Number(text) => match spec_parse_decimal(text) {
                None => PRes::PErr(
                    DiagV {
                        message: "invalid number for "@ + what,
                        span: Some((t.start, t.end)),
                    },
                ),
                Some(d) => {
                    if i + 1 < toks.len() && toks[i + 1].kind is Ident {
                        let u = toks[i + 1];
                        let uname = u.kind->Ident_0;
                        PRes::POk(
                            QuantityV {
                                value: d,
                                unit: Some(IdentV { name: uname, span: span_of_tok(u) }),
                                span: Span { start: t.start as usize, end: u.end as usize },
                            },
                            i + 2,
                        )
                    } else {
                        PRes::POk(
                            QuantityV { value: d, unit: None, span: span_of_tok(t) },
                            i + 1,
                        )
                    }
                },
            },
            _ => PRes::PErr(expect_err(what, t)),
        }
    }
}

/// The next position after a nested parse, clamped so recursion always
/// advances and stays within the input.
pub open spec fn step_to(len: int, i: int, n: int) -> int {
    if i < n <= len {
        n
    } else if i + 1 <= len {
        i + 1
    } else {
        len
    }
}

/// Parsing one expression.
pub open spec fn spec_parse_expr(toks: Seq<TokenV>, i: int) -> PRes<ExprV>
    decreases toks.len() - i, 0int,
        when 0 <= i <= toks.len()
{
    if i >= toks.len() {
        PRes::PErr(eof_err("expression"@))
    } else {
        let t = toks[i];
        match t.kind {
            TokenKindV::Number(text) => match spec_parse_quantity(toks, i, "number"@) {
                PRes::POk(q, n) => PRes::POk(ExprV::Number(q), n),
                PRes::PErr(d) => PRes::PErr(d),
            },
            TokenKindV::StrLit(s) => PRes::POk(ExprV::StrLit(s), i + 1),
            TokenKindV::Ident(s) => {
                let id = IdentV { name: s, span: span_of_tok(t) };
                if i + 1 < toks.len() && toks[i + 1].kind is LParen {
                    match spec_parse_call_args(toks, i + 2) {
                        PRes::POk(args, n) => PRes::POk(
                            ExprV::Call(CallV { name: id, args }),
                            n,
                        ),
                        PRes::PErr(d) => PRes::PErr(d),
                    }
                } else {
                    PRes::POk(ExprV::Ident(id), i + 1)
                }
            },
            TokenKindV::KwRate => {
                let id = IdentV { name: "rate"@, span: span_of_tok(t) };
                if i + 1 < toks.len() && toks[i + 1].kind is LParen {
                    match spec_parse_call_args(toks, i + 2) {
                        PRes::POk(args, n) => PRes::POk(
                            ExprV::Call(CallV { name: id, args }),
                            n,
                        ),
                        PRes::PErr(d) => PRes::PErr(d),
                    }
                } else {
                    PRes::POk(ExprV::Ident(id), i + 1)
                }
            },
            _ => PRes::PErr(
                DiagV { message: "unexpected token in expression"@, span: Some((t.start, t.end)) },
            ),
        }
    }
}

/// Parsing the arguments of a call, after the opening parenthesis.  An
/// identifier immediately followed by `=` is a named argument; otherwise the
/// token starts a positional expression.
pub open spec fn spec_parse_call_args(toks: Seq<TokenV>, i: int) -> PRes<Seq<CallArgV>>
    decreases toks.len() - i, 2int,
        when 0 <= i <= toks.len()
{
    if i >= toks.len() {
        PRes::POk(Seq::empty(), i)
    } else {
        let t = toks[i];
        match t.kind {
            TokenKindV::RParen => PRes::POk(Seq::empty(), i + 1),
            TokenKindV::Comma => spec_parse_call_args(toks, i + 1),
            TokenKindV::Ident(s) => {
                if i + 1 < toks.len() && toks[i + 1].kind is Eq {
                    let name = IdentV { name: s, span: span_of_tok(t) };
                    match spec_parse_expr(toks, i + 2) {
                        PRes::POk(v, n) => match spec_parse_call_args(
                            toks,
                            step_to(toks.len() as int, i + 2, n),
                        ) {
                            PRes::POk(rest, m) => PRes::POk(
                                seq![CallArgV::Named { name, value: v }] + rest,
                                m,
                            ),
                            PRes::PErr(d) => PRes::PErr(d),
                        },
                        PRes::PErr(d) => PRes::PErr(d),
                    }
                } else {
                    spec_parse_positional(toks, i)
                }
            },
            TokenKindV::KwRate => {
                if i + 1 < toks.len() && toks[i + 1].kind is Eq {
                    let name = IdentV { name: "rate"@, span: span_of_tok(t) };
                    match spec_parse_expr(toks, i + 2) {
                        PRes::POk(v, n) => match spec_parse_call_args(
                            toks,
                            step_to(toks.len() as int, i + 2, n),
                        ) {
                            PRes::POk(rest, m) => PRes::POk(
                                seq![CallArgV::Named { name, value: v }] + rest,
                                m,
                            ),
                            PRes::PErr(d) => PRes::PErr(d),
                        },
                        PRes::PErr(d) => PRes::PErr(d),
                    }
                } else {
                    spec_parse_positional(toks, i)
                }
            },
            _ => spec_parse_positional(toks, i),
        }
    }
}

/// Parsing one positional argument, then the remaining arguments.
pub open spec fn spec_parse_positional(toks: Seq<TokenV>, i: int) -> PRes<Seq<CallArgV>>
    decreases toks.len() - i, 1int,
        when 0 <= i < toks.len()
{
    match spec_parse_expr(toks, i) {
        PRes::POk(v, n) => match spec_parse_call_args(toks, step_to(toks.len() as int, i, n)) {
            PRes::POk(rest, m) => PRes::POk(seq![CallArgV::Positional(v)] + rest, m),
            PRes::PErr(d) => PRes::PErr(d),
        },
        PRes::PErr(d) => PRes::PErr(d),
    }
}

/// Parsing the assignments of a `{ … }` block, commas optional.
pub open spec fn spec_parse_assign_block(toks: Seq<TokenV>, i: int) -> PRes<Seq<AssignV>>
    decreases toks.len() - i, 2int,
        when 0 <= i <= toks.len()
{
    if i >= toks.len() {
        PRes::POk(Seq::empty(), i)
    } else {
        let t = toks[i];
        match t.kind {
            TokenKindV::RBrace => PRes::POk(Seq::empty(), i + 1),
            TokenKindV::Ident(s) => spec_parse_assign_tail(
                toks,
                i,
                IdentV { name: s, span: span_of_tok(t) },
            ),
            TokenKindV::KwRate => spec_parse_assign_tail(
                toks,
                i,
                IdentV { name: "rate"@, span: span_of_tok(t) },
            ),
            _ => PRes::PErr(
                DiagV { message: "unexpected token in block"@, span: Some((t.start, t.end)) },
            ),
        }
    }
}

/// Parsing `= expression ,?` after an assignment key at `i`, then the rest of
/// the block.
pub open spec fn spec_parse_assign_tail(toks: Seq<TokenV>, i: int, key: IdentV) -> PRes<
    Seq<AssignV>,
>
    decreases toks.len() - i, 0int,
        when 0 <= i < toks.len()
{
    match spec_expect(toks, i + 1, TokenKindV::Eq, "`=`"@) {
        PRes::PErr(d) => PRes::PErr(d),
        PRes::POk(_, _) => {
            if i + 2 <= toks.len() {
                match spec_parse_expr(toks, i + 2) {
                    PRes::PErr(d) => PRes::PErr(d),
                    PRes::POk(v, n) => {
                        let n1 = step_to(toks.len() as int, i + 2, n);
                        let n2 = if n1 < toks.len() && toks[n1].kind is Comma {
                            n1 + 1
                        } else {
                            n1
                        };
                        match spec_parse_assign_block(toks, n2) {
                            PRes::POk(rest, m) => PRes::POk(
                                seq![AssignV { key, value: v }] + rest,
                                m,
                            ),
                            PRes::PErr(d) => PRes::PErr(d),
                        }
                    },
                }
            } else {
                PRes::PErr(eof_err("expression"@))
            }
        },
    }
}

/// Parsing `neuron NAME { … }`.
pub open spec fn spec_parse_neuron(toks: Seq<TokenV>, i: int) -> PRes<ItemV> {
    match spec_expect(toks, i, TokenKindV::KwNeuron, "`neuron`"@) {
        PRes::PErr(d) => PRes::PErr(d),
        PRes::POk(_, n0) => match spec_parse_ident(toks, n0, "neuron name"@) {
            PRes::PErr(d) => PRes::PErr(d),
            PRes::POk(name, n1) => match spec_expect(toks, n1, TokenKindV::LBrace, "`{`"@) {
                PRes::PErr(d) => PRes::PErr(d),
                PRes::POk(_, n2) => {
                    // a successful expectation always lands inside the input
                    if 0 <= n2 <= toks.len() {
                        match spec_parse_assign_block(toks, n2) {
                            PRes::PErr(d) => PRes::PErr(d),
                            PRes::POk(body, n3) => PRes::POk(ItemV::Neuron { name, body }, n3),
                        }
                    } else {
                        PRes::PErr(eof_err("`}`"@))
                    }
                },
            },
        },
    }
}

/// Parsing `layer NAME[SIZE] : NEURON`.
pub open spec fn spec_parse_layer(toks: Seq<TokenV>, i: int) -> PRes<ItemV> {
    match spec_expect(toks, i, TokenKindV::KwLayer, "`layer`"@) {
        PRes::PErr(d) => PRes::PErr(d),
        PRes::POk(_, n0) => match spec_parse_ident(toks, n0, "layer name"@) {
            PRes::PErr(d) => PRes::PErr(d),
            PRes::POk(name, n1) => match spec_expect(toks, n1, TokenKindV::LBracket, "`[`"@) {
                PRes::PErr(d) => PRes::PErr(d),
                PRes::POk(_, n2) => match spec_parse_u64(toks, n2, "layer size"@) {
                    PRes::PErr(d) => PRes::PErr(d),
                    PRes::POk(size, n3) => match spec_expect(
                        toks,
                        n3,
                        TokenKindV::RBracket,
                        "`]`"@,
                    ) {
                        PRes::PErr(d) => PRes::PErr(d),
                        PRes::POk(_, n4) => match spec_expect(
                            toks,
                            n4,
                            TokenKindV::Colon,
                            "`:`"@,
                        ) {
                            PRes::PErr(d) => PRes::PErr(d),
                            PRes::POk(_, n5) => match spec_parse_ident(
                                toks,
                                n5,
                                "neuron type"@,
                            ) {
                                PRes::PErr(d) => PRes::PErr(d),
                                PRes::POk(neuron, n6) => PRes::POk(
                                    ItemV::Layer { name, size, neuron },
                                    n6,
                                ),
                            },
                        },
                    },
                },
            },
        },
    }
}

/// Parsing `connect SRC -> DST { … }`.
pub open spec fn spec_parse_connect(toks: Seq<TokenV>, i: int) -> PRes<ItemV> {
    match spec_expect(toks, i, TokenKindV::KwConnect, "`connect`"@) {
        PRes::PErr(d) => PRes::PErr(d),
        PRes::POk(_, n0) => match spec_parse_ident(toks, n0, "source layer"@) {
            PRes::PErr(d) => PRes::PErr(d),
            PRes::POk(src, n1) => match spec_expect(toks, n1, TokenKindV::Arrow, "`->`"@) {
                PRes::PErr(d) => PRes::PErr(d),
                PRes::POk(_, n2) => match spec_parse_ident(toks, n2, "destination layer"@) {
                    PRes::PErr(d) => PRes::PErr(d),
                    PRes::POk(dst, n3) => match spec_expect(toks, n3, TokenKindV::LBrace, "`{`"@) {
                        PRes::PErr(d) => PRes::PErr(d),
                        PRes::POk(_, n4) => {
                            if 0 <= n4 <= toks.len() {
                                match spec_parse_assign_block(toks, n4) {
                                    PRes::PErr(d) => PRes::PErr(d),
                                    PRes::POk(body, n5) => PRes::POk(
                                        ItemV::Connect { src, dst, body },
                                        n5,
                                    ),
                                }
                            } else {
                                PRes::PErr(eof_err("`}`"@))
                            }
                        },
                    },
                },
            },
        },
    }
}

/// Parsing `run for DURATION (step STEP)?`.
pub open spec fn spec_parse_run(toks: Seq<TokenV>, i: int) -> PRes<ItemV> {
    match spec_expect(toks, i, TokenKindV::KwRun, "`run`"@) {
        PRes::PErr(d) => PRes::PErr(d),
        PRes::POk(_, n0) => match spec_expect(toks, n0, TokenKindV::KwFor, "`for`"@) {
            PRes::PErr(d) => PRes::PErr(d),
            PRes::POk(_, n1) => match spec_parse_quantity(toks, n1, "duration"@) {
                PRes::PErr(d) => PRes::PErr(d),
                PRes::POk(duration, n2) => {
                    if n2 < toks.len() && toks[n2].kind is KwStep {
                        match spec_parse_quantity(toks, n2 + 1, "step"@) {
                            PRes::PErr(d) => PRes::PErr(d),
                            PRes::POk(step, n3) => PRes::POk(
                                ItemV::Run { duration, step: Some(step) },
                                n3,
                            ),
                        }
                    } else {
                        PRes::POk(ItemV::Run { duration, step: None }, n2)
                    }
                },
            },
        },
    }
}

/// Parsing `seed VALUE`; the item's span is the keyword's.
pub open spec fn spec_parse_seed(toks: Seq<TokenV>, i: int) -> PRes<ItemV> {
    match spec_expect(toks, i, TokenKindV::KwSeed, "`seed`"@) {
        PRes::PErr(d) => PRes::PErr(d),
        PRes::POk(kw, n0) => match spec_parse_u64(toks, n0, "seed value"@) {
            PRes::PErr(d) => PRes::PErr(d),
            PRes::POk(value, n1) => PRes::POk(
                ItemV::Seed { value, span: span_of_tok(kw) },
                n1,
            ),
        },
    }
}

/// The last `rate = …` argument of a Poisson call, if any; a named `rate`
/// whose value is no quantity fails at once.
pub open spec fn spec_find_rate(args: Seq<CallArgV>, acc: Option<QuantityV>) -> Result<
    Option<QuantityV>,
    DiagV,
>
    decreases args.len(),
{
    if args.len() == 0 {
        Ok(acc)
    } else {
        match args[0] {
            CallArgV::Named { name, value } => {
                if name.name == "rate"@ {
                    match value {
                        ExprV::Number(q) => spec_find_rate(args.drop_first(), Some(q)),
                        _ => Err(
                            DiagV {
                                message: "rate must be a quantity"@,
                                span: span_pair(name.span),
                            },
                        ),
                    }
                } else {
                    spec_find_rate(args.drop_first(), acc)
                }
            },
            _ => spec_find_rate(args.drop_first(), acc),
        }
    }
}

/// Parsing `stimulus LAYER = MODEL(…)`.
pub open spec fn spec_parse_stimulus(toks: Seq<TokenV>, i: int) -> PRes<ItemV> {
    match spec_expect(toks, i, TokenKindV::KwStimulus, "`stimulus`"@) {
        PRes::PErr(d) => PRes::PErr(d),
        PRes::POk(_, n0) => match spec_parse_ident(toks, n0, "layer name"@) {
            PRes::PErr(d) => PRes::PErr(d),
            PRes::POk(layer, n1) => match spec_expect(toks, n1, TokenKindV::Eq, "`=`"@) {
                PRes::PErr(d) => PRes::PErr(d),
                PRes::POk(_, n2) => {
                    if 0 <= n2 <= toks.len() {
                        match spec_parse_expr(toks, n2) {
                            PRes::PErr(d) => PRes::PErr(d),
                            PRes::POk(e, n3) => match e {
                                ExprV::Call(c) => {
                                    if c.name.name == "Poisson"@ {
                                        match spec_find_rate(c.args, None) {
                                            Err(d) => PRes::PErr(d),
                                            Ok(None) => PRes::PErr(
                                                DiagV {
                                                    message: "Poisson stimulus requires rate"@,
                                                    span: span_pair(layer.span),
                                                },
                                            ),
                                            Ok(Some(rate)) => PRes::POk(
                                                ItemV::Stimulus { layer, rate },
                                                n3,
                                            ),
                                        }
                                    } else {
                                        PRes::PErr(
                                            DiagV {
                                                message: "unknown stimulus model"@,
                                                span: span_pair(c.name.span),
                                            },
                                        )
                                    }
                                },
                                _ => PRes::PErr(
                                    DiagV {
                                        message: "expected stimulus model call"@,
                                        span: span_pair(layer.span),
                                    },
                                ),
                            },
                        }
                    } else {
                        PRes::PErr(eof_err("expression"@))
                    }
                },
            },
        },
    }
}

/// Parsing one top-level item, chosen by its first token.
pub open spec fn spec_parse_item(toks: Seq<TokenV>, i: int) -> PRes<ItemV> {
    if i >= toks.len() {
        PRes::PErr(DiagV { message: "unexpected end of input"@, span: None })
    } else {
        let t = toks[i];
        match t.kind {
            TokenKindV::KwNeuron => spec_parse_neuron(toks, i),
            TokenKindV::KwLayer => spec_parse_layer(toks, i),
            TokenKindV::KwConnect => spec_parse_connect(toks, i),
            TokenKindV::KwStimulus => spec_parse_stimulus(toks, i),
            TokenKindV::KwRun => spec_parse_run(toks, i),
            TokenKindV::KwSeed => spec_parse_seed(toks, i),
            _ => PRes::PErr(
                DiagV { message: "unexpected token at top-level"@, span: Some((t.start, t.end)) },
            ),
        }
    }
}

/// Parsing items until the end of the input.
pub open spec fn spec_parse_items(toks: Seq<TokenV>, i: int) -> PRes<Seq<ItemV>>
    decreases toks.len() - i,
        when 0 <= i <= toks.len()
{
    if i >= toks.len() {
        PRes::POk(Seq::empty(), i)
    } else {
        match spec_parse_item(toks, i) {
            PRes::PErr(d) => PRes::PErr(d),
            PRes::POk(it, n) => match spec_parse_items(
                toks,
                step_to(toks.len() as int, i, n),
            ) {
                PRes::POk(rest, m) => PRes::POk(seq![it] + rest, m),
                PRes::PErr(d) => PRes::PErr(d),
            },
        }
    }
}

/// What parsing a whole source text yields: the program's items, or the
/// first diagnostic, be it lexical or syntactic.
pub open spec fn spec_parse_program(src: Seq<char>) -> Result<Seq<ItemV>, DiagV> {
    match spec_lex(src) {
        Err(d) => Err(d),
        Ok(toks) => match spec_parse_items(toks, 0) {
            PRes::POk(items, _) => Ok(items),
            PRes::PErr(d) => Err(d),
        },
    }
}

/// Whether two token kinds are the same, payloads included.
fn kind_eq(a: &TokenKind, b: &TokenKind) -> (r: bool)
    ensures
        r == (a@ == b@),
{
    match (a, b) {
        (TokenKind::Ident(x), TokenKind::Ident(y)) => crate::text::str_eq(x.as_str(), y.as_str()),
        (TokenKind::Number(x), TokenKind::Number(y)) => crate::text::str_eq(
            x.as_str(),
            y.as_str(),
        ),
        (TokenKind::String(x), TokenKind::String(y)) => crate::text::str_eq(
            x.as_str(),
            y.as_str(),
        ),
        (TokenKind::KwNeuron, TokenKind::KwNeuron) => true,
        (TokenKind::KwLayer, TokenKind::KwLayer) => true,
        (TokenKind::KwConnect, TokenKind::KwConnect) => true,
        (TokenKind::KwStimulus, TokenKind::KwStimulus) => true,
        (TokenKind::KwRun, TokenKind::KwRun) => true,
        (TokenKind::KwFor, TokenKind::KwFor) => true,
        (TokenKind::KwStep, TokenKind::KwStep) => true,
        (TokenKind::KwSeed, TokenKind::KwSeed) => true,
        (TokenKind::KwRate, TokenKind::KwRate) => true,
        (TokenKind::LBrace, TokenKind::LBrace) => true,
        (TokenKind::RBrace, TokenKind::RBrace) => true,
        (TokenKind::LBracket, TokenKind::LBracket) => true,
        (TokenKind::RBracket, TokenKind::RBracket) => true,
        (TokenKind::LParen, TokenKind::LParen) => true,
        (TokenKind::RParen, TokenKind::RParen) => true,
        (TokenKind::Colon, TokenKind::Colon) => true,
        (TokenKind::Comma, TokenKind::Comma) => true,
        (TokenKind::Eq, TokenKind::Eq) => true,
        (TokenKind::Arrow, TokenKind::Arrow) => true,
        _ => false,
    }
}

/// The diagnostic for an expectation that met the end of the input.
fn eof_diag(what: &str) -> (d: Diagnostic)
    ensures
        diag_view(d) == eof_err(what@),
{
    let mut m: String = String::new();
    m.append("expected ");
    m.append(what);
    m.append(", found end of input");
    Diagnostic::new(m)
}

/// The diagnostic for an expectation that met the wrong token.
fn expect_diag(what: &str, t: &Token) -> (d: Diagnostic)
    ensures
        diag_view(d) == expect_err(what@, t@),
{
    let mut m: String = String::new();
    m.append("expected ");
    m.append(what);
    Diagnostic::new(m).with_span(t.span)
}

/// Consumes one token of the given kind.
fn expect_tok(toks: &Vec<Token>, i: usize, k: TokenKind, what: &str) -> (r: Result<
    usize,
    Diagnostic,
>)
    requires
        i <= toks@.len(),
    ensures
        match r {
            Ok(n) => spec_expect(tokens_view(toks@), i as int, k@, what@) == PRes::<
                TokenV,
            >::POk(toks@[i as int]@, n as int) && n == i + 1 && i < toks@.len(),
            Err(d) => spec_expect(tokens_view(toks@), i as int, k@, what@) == PRes::<
                TokenV,
            >::PErr(diag_view(d)),
        },
{
    if i >= toks.len() {
        Err(eof_diag(what))
    } else if kind_eq(&toks[i].kind, &k) {
        Ok(i + 1)
    } else {
        Err(expect_diag(what, &toks[i]))
    }
}

/// Parses an identifier; the keyword `rate` doubles as one.
fn parse_ident(toks: &Vec<Token>, i: usize, what: &str) -> (r: Result<(Ident, usize), Diagnostic>)
    requires
        i <= toks@.len(),
    ensures
        match r {
            Ok((id, n)) => spec_parse_ident(tokens_view(toks@), i as int, what@) == PRes::<
                IdentV,
            >::POk(id@, n as int) && i < n <= toks@.len(),
            Err(d) => spec_parse_ident(tokens_view(toks@), i as int, what@) == PRes::<
                IdentV,
            >::PErr(diag_view(d)),
        },
{
    if i >= toks.len() {
        return Err(eof_diag(what));
    }
    let t = &toks[i];
    match &t.kind {
        TokenKind::Ident(s) => Ok((Ident::new(s.clone(), t.span), i + 1)),
        TokenKind::KwRate => Ok((Ident::new("rate".to_owned(), t.span), i + 1)),
        _ => Err(expect_diag(what, t)),
    }
}

/// Appends one digit to a running value, refusing to pass `u64::MAX`.
fn u64_step(acc: u64, d: u8) -> (r: Option<u64>)
    requires
        d < 10,
    ensures
        match r {
            Some(a) => a == acc * 10 + d,
            None => acc * 10 + d > u64::MAX,
        },
{
    proof {
        vstd::arithmetic::div_mod::lemma_fundamental_div_mod((u64::MAX - d) as int, 10);
    }
    if acc > (u64::MAX - d as u64) / 10 {
        None
    } else {
        Some(acc * 10 + d as u64)
    }
}

/// The value of an unsigned decimal literal, when it has only digits and
/// fits in 64 bits.
fn parse_u64_str(text: &str) -> (r: Option<u64>)
    ensures
        r == spec_u64_str(text@),
{
    let ghost s: Seq<char> = text@;
    let n: usize = text.unicode_len();
    if n == 0 {
        return None;
    }
    let mut acc: u64 = 0;
    let mut j: usize = 0;
    while j < n
        invariant
            s == text@,
            n == s.len(),
            j <= n,
            forall|k: int| 0 <= k < j ==> spec_char_digit(#[trigger] s[k]) >= 0,
            acc == digits_val(chars_digits(s, 0, j as int)),
        decreases n - j,
    {
        match crate::number::char_digit(text.get_char(j)) {
            None => {
                proof {
                    crate::number::lemma_digits_end_at(s, 0, j as int);
                }
                return None;
            },
            Some(d) => {
                proof {
                    assert(chars_digits(s, 0, j + 1).drop_last() =~= chars_digits(s, 0, j as int));
                    assert(chars_digits(s, 0, j + 1).last() == d);
                }
                match u64_step(acc, d) {
                    Some(a) => {
                        acc = a;
                    },
                    None => {
                        proof {
                            crate::number::lemma_digits_end_range(s, 0);
                            if digits_end(s, 0) == s.len() {
                                let full: Seq<u8> = chars_digits(s, 0, s.len() as int);
                                assert(digits_ok(full));
                                assert(full.subrange(0, j + 1) =~= chars_digits(s, 0, j + 1));
                                lemma_digits_val_prefix(full, j + 1);
                            }
                        }
                        return None;
                    },
                }
                j += 1;
            },
        }
    }
    proof {
        crate::number::lemma_digits_end_at(s, 0, n as int);
        assert(chars_digits(s, 0, n as int) =~= chars_digits(s, 0, s.len() as int));
    }
    Some(acc)
}

/// Parses an unsigned 64-bit integer.
fn parse_u64(toks: &Vec<Token>, i: usize, what: &str) -> (r: Result<(u64, usize), Diagnostic>)
    requires
        i <= toks@.len(),
    ensures
        match r {
            Ok((v, n)) => spec_parse_u64(tokens_view(toks@), i as int, what@) == PRes::<
                u64,
            >::POk(v, n as int) && i < n <= toks@.len(),
            Err(d) => spec_parse_u64(tokens_view(toks@), i as int, what@) == PRes::<u64>::PErr(
                diag_view(d),
            ),
        },
{
    if i >= toks.len() {
        return Err(eof_diag(what));
    }
    let t = &toks[i];
    match &t.kind {
        TokenKind::Number(text) => match parse_u64_str(text.as_str()) {
            Some(v) => Ok((v, i + 1)),
            None => {
                let mut m: String = String::new();
                m.append("invalid integer for ");
                m.append(what);
                Err(Diagnostic::new(m).with_span(t.span))
            },
        },
        _ => Err(expect_diag(what, t)),
    }
}

/// Parses a quantity: a number, then an optional unit identifier.
fn parse_quantity(toks: &Vec<Token>, i: usize, what: &str) -> (r: Result<
    (Quantity, usize),
    Diagnostic,
>)
    requires
        i <= toks@.len(),
    ensures
        match r {
            Ok((q, n)) => spec_parse_quantity(tokens_view(toks@), i as int, what@) == PRes::<
                QuantityV,
            >::POk(q@, n as int) && i < n <= toks@.len(),
            Err(d) => spec_parse_quantity(tokens_view(toks@), i as int, what@) == PRes::<
                QuantityV,
            >::PErr(diag_view(d)),
        },
{
    if i >= toks.len() {
        return Err(eof_diag(what));
    }
    let t = &toks[i];
    match &t.kind {
        TokenKind::Number(text) => match parse_decimal(text.as_str()) {
            None => {
                let mut m: String = String::new();
                m.append("invalid number for ");
                m.append(what);
                Err(Diagnostic::new(m).with_span(t.span))
            },
            Some(value) => {
                if i + 1 < toks.len() {
                    let u = &toks[i + 1];
                    match &u.kind {
                        TokenKind::Ident(uname) => {
                            let unit = Ident::new(uname.clone(), u.span);
                            let span = Span::new(t.span.start, u.span.end);
                            return Ok((Quantity { value, unit: Some(unit), span }, i + 2));
                        },
                        _ => {},
                    }
                }
                Ok((Quantity { value, unit: None, span: t.span }, i + 1))
            },
        },
        _ => Err(expect_diag(what, t)),
    }
}

/// Parses one expression.
fn parse_expr(toks: &Vec<Token>, i: usize) -> (r: Result<(Expr, usize), Diagnostic>)
    requires
        i <= toks@.len(),
    ensures
        match r {
            Ok((e, n)) => (match spec_parse_expr(tokens_view(toks@), i as int) {
                PRes::POk(ev, sn) => expr_matches(e, ev) && sn == n,
                PRes::PErr(_) => false,
            }) && i < n <= toks@.len(),
            Err(d) => spec_parse_expr(tokens_view(toks@), i as int) == PRes::<ExprV>::PErr(
                diag_view(d),
            ),
        },
    decreases toks@.len() - i, 0int,
{
    if i >= toks.len() {
        return Err(eof_diag("expression"));
    }
    let t = &toks[i];
    match &t.kind {
        TokenKind::Number(_) => match parse_quantity(toks, i, "number") {
            Ok((q, n)) => Ok((Expr::Number(q), n)),
            Err(d) => Err(d),
        },
        TokenKind::String(s) => Ok((Expr::String(s.clone()), i + 1)),
        TokenKind::Ident(s) => {
            let id = Ident::new(s.clone(), t.span);
            if i + 1 < toks.len() && matches!(&toks[i + 1].kind, TokenKind::LParen) {
                match parse_call_args(toks, i + 2) {
                    Ok((args, n)) => Ok((Expr::Call(Call { name: id, args }), n)),
                    Err(d) => Err(d),
                }
            } else {
                Ok((Expr::Ident(id), i + 1))
            }
        },
        TokenKind::KwRate => {
            let id = Ident::new("rate".to_owned(), t.span);
            if i + 1 < toks.len() && matches!(&toks[i + 1].kind, TokenKind::LParen) {
                match parse_call_args(toks, i + 2) {
                    Ok((args, n)) => Ok((Expr::Call(Call { name: id, args }), n)),
                    Err(d) => Err(d),
                }
            } else {
                Ok((Expr::Ident(id), i + 1))
            }
        },
        _ => {
            let mut m: String = String::new();
            m.append("unexpected token in expression");
            Err(Diagnostic::new(m).with_span(t.span))
        },
    }
}

/// Parses the arguments of a call, after the opening parenthesis.
fn parse_call_args(toks: &Vec<Token>, i: usize) -> (r: Result<(Vec<CallArg>, usize), Diagnostic>)
    requires
        i <= toks@.len(),
    ensures
        match r {
            Ok((args, n)) => (match spec_parse_call_args(tokens_view(toks@), i as int) {
                PRes::POk(vs, sn) => args_match(args@, vs) && sn == n,
                PRes::PErr(_) => false,
            }) && i <= n <= toks@.len(),
            Err(d) => spec_parse_call_args(tokens_view(toks@), i as int) == PRes::<
                Seq<CallArgV>,
            >::PErr(diag_view(d)),
        },
    decreases toks@.len() - i, 2int,
{
    if i >= toks.len() {
        return Ok((Vec::new(), i));
    }
    let t = &toks[i];
    match &t.kind {
        TokenKind::RParen => Ok((Vec::new(), i + 1)),
        TokenKind::Comma => parse_call_args(toks, i + 1),
        TokenKind::Ident(s) => {
            if i + 1 < toks.len() && matches!(&toks[i + 1].kind, TokenKind::Eq) {
                let name = Ident::new(s.clone(), t.span);
                match parse_expr(toks, i + 2) {
                    Err(d) => Err(d),
                    Ok((v, n)) => match parse_call_args(toks, n) {
                        Err(d) => Err(d),
                        Ok((mut rest, m)) => {
                            let ghost restv = rest@;
                            rest.insert(0, CallArg::Named { name, value: v });
                            proof {
                                assert(rest@ =~= seq![
                                    CallArg::Named { name, value: v },
                                ] + restv);
                            }
                            Ok((rest, m))
                        },
                    },
                }
            } else {
                parse_positional(toks, i)
            }
        },
        TokenKind::KwRate => {
            if i + 1 < toks.len() && matches!(&toks[i + 1].kind, TokenKind::Eq) {
                let name = Ident::new("rate".to_owned(), t.span);
                match parse_expr(toks, i + 2) {
                    Err(d) => Err(d),
                    Ok((v, n)) => match parse_call_args(toks, n) {
                        Err(d) => Err(d),
                        Ok((mut rest, m)) => {
                            let ghost restv = rest@;
                            rest.insert(0, CallArg::Named { name, value: v });
                            proof {
                                assert(rest@ =~= seq![
                                    CallArg::Named { name, value: v },
                                ] + restv);
                            }
                            Ok((rest, m))
                        },
                    },
                }
            } else {
                parse_positional(toks, i)
            }
        },
        _ => parse_positional(toks, i),
    }
}

/// Parses one positional argument, then the remaining arguments.
fn parse_positional(toks: &Vec<Token>, i: usize) -> (r: Result<(Vec<CallArg>, usize), Diagnostic>)
    requires
        i < toks@.len(),
    ensures
        match r {
            Ok((args, n)) => (match spec_parse_positional(tokens_view(toks@), i as int) {
                PRes::POk(vs, sn) => args_match(args@, vs) && sn == n,
                PRes::PErr(_) => false,
            }) && i <= n <= toks@.len(),
            Err(d) => spec_parse_positional(tokens_view(toks@), i as int) == PRes::<
                Seq<CallArgV>,
            >::PErr(diag_view(d)),
        },
    decreases toks@.len() - i, 1int,
{
    match parse_expr(toks, i) {
        Err(d) => Err(d),
        Ok((v, n)) => match parse_call_args(toks, n) {
            Err(d) => Err(d),
            Ok((mut rest, m)) => {
                let ghost restv = rest@;
                rest.insert(0, CallArg::Positional(v));
                proof {
                    assert(rest@ =~= seq![CallArg::Positional(v)] + restv);
                }
                Ok((rest, m))
            },
        },
    }
}

/// Parses the assignments of a `{ … }` block, commas optional.
fn parse_assign_block(toks: &Vec<Token>, i: usize) -> (r: Result<
    (Vec<Assign>, usize),
    Diagnostic,
>)
    requires
        i <= toks@.len(),
    ensures
        match r {
            Ok((body, n)) => (match spec_parse_assign_block(tokens_view(toks@), i as int) {
                PRes::POk(vs, sn) => assigns_match(body@, vs) && sn == n,
                PRes::PErr(_) => false,
            }) && i <= n <= toks@.len(),
            Err(d) => spec_parse_assign_block(tokens_view(toks@), i as int) == PRes::<
                Seq<AssignV>,
            >::PErr(diag_view(d)),
        },
    decreases toks@.len() - i, 2int,
{
    if i >= toks.len() {
        return Ok((Vec::new(), i));
    }
    let t = &toks[i];
    match &t.kind {
        TokenKind::RBrace => Ok((Vec::new(), i + 1)),
        TokenKind::Ident(s) => {
            let key = Ident::new(s.clone(), t.span);
            parse_assign_tail(toks, i, key)
        },
        TokenKind::KwRate => {
            let key = Ident::new("rate".to_owned(), t.span);
            parse_assign_tail(toks, i, key)
        },
        _ => {
            let mut m: String = String::new();
            m.append("unexpected token in block");
            Err(Diagnostic::new(m).with_span(t.span))
        },
    }
}

/// Parses `= expression ,?` after an assignment key, then the rest of the
/// block.
fn parse_assign_tail(toks: &Vec<Token>, i: usize, key: Ident) -> (r: Result<
    (Vec<Assign>, usize),
    Diagnostic,
>)
    requires
        i < toks@.len(),
    ensures
        match r {
            Ok((body, n)) => (match spec_parse_assign_tail(tokens_view(toks@), i as int, key@) {
                PRes::POk(vs, sn) => assigns_match(body@, vs) && sn == n,
                PRes::PErr(_) => false,
            }) && i <= n <= toks@.len(),
            Err(d) => spec_parse_assign_tail(tokens_view(toks@), i as int, key@) == PRes::<
                Seq<AssignV>,
            >::PErr(diag_view(d)),
        },
    decreases toks@.len() - i, 1int,
{
    // materializes the fact that the token count fits the machine word
    let _toks_len: usize = toks.len();
    match expect_tok(toks, i + 1, TokenKind::Eq, "`=`") {
        Err(d) => {
            return Err(d);
        },
        Ok(_) => {},
    }
    match parse_expr(toks, i + 2) {
        Err(d) => Err(d),
        Ok((v, n)) => {
            let n2: usize = if n < toks.len() && matches!(&toks[n].kind, TokenKind::Comma) {
                n + 1
            } else {
                n
            };
            match parse_assign_block(toks, n2) {
                Err(d) => Err(d),
                Ok((mut rest, m)) => {
                    let ghost restv = rest@;
                    rest.insert(0, Assign { key, value: v });
                    proof {
                        assert(rest@ =~= seq![Assign { key, value: v }] + restv);
                    }
                    Ok((rest, m))
                },
            }
        },
    }
}

/// Parses `neuron NAME { … }`.
fn parse_neuron(toks: &Vec<Token>, i: usize) -> (r: Result<(Item, usize), Diagnostic>)
    requires
        i <= toks@.len(),
    ensures
        match r {
            Ok((it, n)) => (match spec_parse_neuron(tokens_view(toks@), i as int) {
                PRes::POk(v, sn) => item_matches(it, v) && sn == n,
                PRes::PErr(_) => false,
            }) && i < n <= toks@.len(),
            Err(d) => spec_parse_neuron(tokens_view(toks@), i as int) == PRes::<ItemV>::PErr(
                diag_view(d),
            ),
        },
{
    let n0: usize = expect_tok(toks, i, TokenKind::KwNeuron, "`neuron`")?;
    let (name, n1): (Ident, usize) = parse_ident(toks, n0, "neuron name")?;
    let n2: usize = expect_tok(toks, n1, TokenKind::LBrace, "`{`")?;
    let (body, n3): (Vec<Assign>, usize) = parse_assign_block(toks, n2)?;
    Ok((Item::Neuron(NeuronDef { name, body }), n3))
}

/// Parses `layer NAME[SIZE] : NEURON`.
fn parse_layer(toks: &Vec<Token>, i: usize) -> (r: Result<(Item, usize), Diagnostic>)
    requires
        i <= toks@.len(),
    ensures
        match r {
            Ok((it, n)) => (match spec_parse_layer(tokens_view(toks@), i as int) {
                PRes::POk(v, sn) => item_matches(it, v) && sn == n,
                PRes::PErr(_) => false,
            }) && i < n <= toks@.len(),
            Err(d) => spec_parse_layer(tokens_view(toks@), i as int) == PRes::<ItemV>::PErr(
                diag_view(d),
            ),
        },
{
    let n0: usize = expect_tok(toks, i, TokenKind::KwLayer, "`layer`")?;
    let (name, n1): (Ident, usize) = parse_ident(toks, n0, "layer name")?;
    let n2: usize = expect_tok(toks, n1, TokenKind::LBracket, "`[`")?;
    let (size, n3): (u64, usize) = parse_u64(toks, n2, "layer size")?;
    let n4: usize = expect_tok(toks, n3, TokenKind::RBracket, "`]`")?;
    let n5: usize = expect_tok(toks, n4, TokenKind::Colon, "`:`")?;
    let (neuron, n6): (Ident, usize) = parse_ident(toks, n5, "neuron type")?;
    Ok((Item::Layer(LayerDef { name, size, neuron }), n6))
}

/// Parses `connect SRC -> DST { … }`.
fn parse_connect(toks: &Vec<Token>, i: usize) -> (r: Result<(Item, usize), Diagnostic>)
    requires
        i <= toks@.len(),
    ensures
        match r {
            Ok((it, n)) => (match spec_parse_connect(tokens_view(toks@), i as int) {
                PRes::POk(v, sn) => item_matches(it, v) && sn == n,
                PRes::PErr(_) => false,
            }) && i < n <= toks@.len(),
            Err(d) => spec_parse_connect(tokens_view(toks@), i as int) == PRes::<ItemV>::PErr(
                diag_view(d),
            ),
        },
{
    let n0: usize = expect_tok(toks, i, TokenKind::KwConnect, "`connect`")?;
    let (src, n1): (Ident, usize) = parse_ident(toks, n0, "source layer")?;
    let n2: usize = expect_tok(toks, n1, TokenKind::Arrow, "`->`")?;
    let (dst, n3): (Ident, usize) = parse_ident(toks, n2, "destination layer")?;
    let n4: usize = expect_tok(toks, n3, TokenKind::LBrace, "`{`")?;
    let (body, n5): (Vec<Assign>, usize) = parse_assign_block(toks, n4)?;
    Ok((Item::Connect(ConnectDef { src, dst, body }), n5))
}

/// Parses `run for DURATION (step STEP)?`.
fn parse_run(toks: &Vec<Token>, i: usize) -> (r: Result<(Item, usize), Diagnostic>)
    requires
        i <= toks@.len(),
    ensures
        match r {
            Ok((it, n)) => (match spec_parse_run(tokens_view(toks@), i as int) {
                PRes::POk(v, sn) => item_matches(it, v) && sn == n,
                PRes::PErr(_) => false,
            }) && i < n <= toks@.len(),
            Err(d) => spec_parse_run(tokens_view(toks@), i as int) == PRes::<ItemV>::PErr(
                diag_view(d),
            ),
        },
{
    let n0: usize = expect_tok(toks, i, TokenKind::KwRun, "`run`")?;
    let n1: usize = expect_tok(toks, n0, TokenKind::KwFor, "`for`")?;
    let (duration, n2): (Quantity, usize) = parse_quantity(toks, n1, "duration")?;
    if n2 < toks.len() && matches!(&toks[n2].kind, TokenKind::KwStep) {
        let (step, n3): (Quantity, usize) = parse_quantity(toks, n2 + 1, "step")?;
        Ok((Item::Run(RunStmt { duration, step: Some(step) }), n3))
    } else {
        Ok((Item::Run(RunStmt { duration, step: None }), n2))
    }
}

/// Parses `seed VALUE`.
fn parse_seed(toks: &Vec<Token>, i: usize) -> (r: Result<(Item, usize), Diagnostic>)
    requires
        i <= toks@.len(),
    ensures
        match r {
            Ok((it, n)) => (match spec_parse_seed(tokens_view(toks@), i as int) {
                PRes::POk(v, sn) => item_matches(it, v) && sn == n,
                PRes::PErr(_) => false,
            }) && i < n <= toks@.len(),
            Err(d) => spec_parse_seed(tokens_view(toks@), i as int) == PRes::<ItemV>::PErr(
                diag_view(d),
            ),
        },
{
    let n0: usize = expect_tok(toks, i, TokenKind::KwSeed, "`seed`")?;
    let kw_span: Span = toks[i].span;
    let (value, n1): (u64, usize) = parse_u64(toks, n0, "seed value")?;
    Ok((Item::Seed(SeedStmt { value, span: kw_span }), n1))
}

/// The last `rate = …` argument, if any.
fn find_rate(args: &Vec<CallArg>, vs: Ghost<Seq<CallArgV>>) -> (r: Result<
    Option<Quantity>,
    Diagnostic,
>)
    requires
        args_match(args@, vs@),
    ensures
        match (r, spec_find_rate(vs@, None)) {
            (Ok(Some(q)), Ok(Some(qv))) => q@ == qv,
            (Ok(None), Ok(None)) => true,
            (Err(d), Err(dv)) => diag_view(d) == dv,
            _ => false,
        },
{
    let mut acc: Option<Quantity> = None;
    let mut i: usize = 0;
    proof {
        assert(vs@.skip(0) =~= vs@);
    }
    while i < args.len()
        invariant
            args_match(args@, vs@),
            i <= args@.len(),
            spec_find_rate(vs@, None) == spec_find_rate(
                vs@.skip(i as int),
                match acc {
                    Some(q) => Some(q@),
                    None => None,
                },
            ),
        decreases args@.len() - i,
    {
        proof {
            assert(call_arg_matches(args@[i as int], vs@[i as int]));
            assert(vs@.skip(i as int)[0] == vs@[i as int]);
            assert(vs@.skip(i as int).drop_first() =~= vs@.skip(i + 1));
        }
        match &args[i] {
            CallArg::Named { name, value } => {
                if crate::text::str_eq(name.name.as_str(), "rate") {
                    match value {
                        Expr::Number(q) => {
                            acc = Some(q.duplicate());
                        },
                        _ => {
                            let mut m: String = String::new();
                            m.append("rate must be a quantity");
                            return Err(Diagnostic::new(m).with_span(name.span));
                        },
                    }
                }
            },
            _ => {},
        }
        i += 1;
    }
    proof {
        assert(vs@.skip(vs@.len() as int) =~= Seq::<CallArgV>::empty());
    }
    Ok(acc)
}

/// Parses `stimulus LAYER = MODEL(…)`.
fn parse_stimulus(toks: &Vec<Token>, i: usize) -> (r: Result<(Item, usize), Diagnostic>)
    requires
        i <= toks@.len(),
    ensures
        match r {
            Ok((it, n)) => (match spec_parse_stimulus(tokens_view(toks@), i as int) {
                PRes::POk(v, sn) => item_matches(it, v) && sn == n,
                PRes::PErr(_) => false,
            }) && i < n <= toks@.len(),
            Err(d) => spec_parse_stimulus(tokens_view(toks@), i as int) == PRes::<ItemV>::PErr(
                diag_view(d),
            ),
        },
{
    let n0: usize = expect_tok(toks, i, TokenKind::KwStimulus, "`stimulus`")?;
    let (layer, n1): (Ident, usize) = parse_ident(toks, n0, "layer name")?;
    let n2: usize = expect_tok(toks, n1, TokenKind::Eq, "`=`")?;
    let (e, n3): (Expr, usize) = parse_expr(toks, n2)?;
    let ghost ev = spec_parse_expr(tokens_view(toks@), n2 as int)->POk_0;
    match e {
        Expr::Call(call) => {
            let ghost cv = ev->Call_0;
            if crate::text::str_eq(call.name.name.as_str(), "Poisson") {
                match find_rate(&call.args, Ghost(cv.args)) {
                    Err(d) => Err(d),
                    Ok(None) => {
                        let mut m: String = String::new();
                        m.append("Poisson stimulus requires rate");
                        Err(Diagnostic::new(m).with_span(layer.span))
                    },
                    Ok(Some(rate)) => Ok(
                        (
                            Item::Stimulus(
                                StimulusDef { layer, model: StimulusModel::Poisson { rate } },
                            ),
                            n3,
                        ),
                    ),
                }
            } else {
                let mut m: String = String::new();
                m.append("unknown stimulus model");
                Err(Diagnostic::new(m).with_span(call.name.span))
            }
        },
        _ => {
            let mut m: String = String::new();
            m.append("expected stimulus model call");
            Err(Diagnostic::new(m).with_span(layer.span))
        },
    }
}

/// Parses one top-level item, chosen by its first token.
fn parse_item(toks: &Vec<Token>, i: usize) -> (r: Result<(Item, usize), Diagnostic>)
    requires
        i <= toks@.len(),
    ensures
        match r {
            Ok((it, n)) => (match spec_parse_item(tokens_view(toks@), i as int) {
                PRes::POk(v, sn) => item_matches(it, v) && sn == n,
                PRes::PErr(_) => false,
            }) && i < n <= toks@.len(),
            Err(d) => spec_parse_item(tokens_view(toks@), i as int) == PRes::<ItemV>::PErr(
                diag_view(d),
            ),
        },
{
    if i >= toks.len() {
        let mut m: String = String::new();
        m.append("unexpected end of input");
        return Err(Diagnostic::new(m));
    }
    match &toks[i].kind {
        TokenKind::KwNeuron => {
            let (it, n): (Item, usize) = parse_neuron(toks, i)?;
            Ok((it, n))
        },
        TokenKind::KwLayer => {
            let (it, n): (Item, usize) = parse_layer(toks, i)?;
            Ok((it, n))
        },
        TokenKind::KwConnect => {
            let (it, n): (Item, usize) = parse_connect(toks, i)?;
            Ok((it, n))
        },
        TokenKind::KwStimulus => {
            let (it, n): (Item, usize) = parse_stimulus(toks, i)?;
            Ok((it, n))
        },
        TokenKind::KwRun => {
            let (it, n): (Item, usize) = parse_run(toks, i)?;
            Ok((it, n))
        },
        TokenKind::KwSeed => {
            let (it, n): (Item, usize) = parse_seed(toks, i)?;
            Ok((it, n))
        },
        _ => {
            let mut m: String = String::new();
            m.append("unexpected token at top-level");
            Err(Diagnostic::new(m).with_span(toks[i].span))
        },
    }
}

/// Parses items until the end of the input.
fn parse_items(toks: &Vec<Token>, i: usize) -> (r: Result<(Vec<Item>, usize), Diagnostic>)
    requires
        i <= toks@.len(),
    ensures
        match r {
            Ok((items, n)) => (match spec_parse_items(tokens_view(toks@), i as int) {
                PRes::POk(vs, sn) => items_match(items@, vs) && sn == n,
                PRes::PErr(_) => false,
            }) && i <= n <= toks@.len(),
            Err(d) => spec_parse_items(tokens_view(toks@), i as int) == PRes::<
                Seq<ItemV>,
            >::PErr(diag_view(d)),
        },
    decreases toks@.len() - i,
{
    if i >= toks.len() {
        return Ok((Vec::new(), i));
    }
    match parse_item(toks, i) {
        Err(d) => Err(d),
        Ok((it, n)) => match parse_items(toks, n) {
            Err(d) => Err(d),
            Ok((mut rest, m)) => {
                let ghost restv = rest@;
                rest.insert(0, it);
                proof {
                    assert(rest@ =~= seq![it] + restv);
                }
                Ok((rest, m))
            },
        },
    }
}

/// The line number, line-start character index, and line-start byte offset
/// of the position `target` (a byte offset) in `s`.
pub open spec fn line_scan(
    s: Seq<char>,
    i: int,
    b: int,
    ln: int,
    lsc: int,
    lsb: int,
    target: int,
) -> (int, int, int)
    decreases s.len() - i,
        when 0 <= i <= s.len()
{
    if i >= s.len() || b >= target {
        (ln, lsc, lsb)
    } else if s[i] == '\n' {
        line_scan(s, i + 1, b + 1, ln + 1, i + 1, b + 1, target)
    } else {
        line_scan(s, i + 1, b + crate::lexer::char_size(s[i]), ln, lsc, lsb, target)
    }
}

/// The padding that right-aligns a line number to three columns.
pub open spec fn pad3(ln: int) -> Seq<char> {
    if ln < 10 {
        crate::text::repeat_char(' ', 2)
    } else if ln < 100 {
        crate::text::repeat_char(' ', 1)
    } else {
        Seq::empty()
    }
}

/// What rendering a diagnostic against its source yields: the message alone
/// when it has no span, else the message, the line and column, the source
/// line, and a caret run under the offending bytes.
pub open spec fn spec_format_diagnostic(src: Seq<char>, d: DiagV) -> Seq<char> {
    match d.span {
        None => d.message,
        Some((start, end)) => {
            let (ln, lsc, lsb) = line_scan(src, 0, 0, 1, 0, 0, start);
            let lec = crate::lexer::comment_end(src, lsc);
            let line = src.subrange(lsc, lec);
            let diff = if start >= lsb {
                start - lsb
            } else {
                0
            };
            let col = if diff < usize::MAX {
                diff + 1
            } else {
                usize::MAX as int
            };
            let caret = if end > start {
                end - start
            } else {
                1
            };
            "error: "@ + d.message + "\n"@ + "  --> line "@ + crate::text::u64_chars(ln as nat)
                + ", col "@ + crate::text::u64_chars(col as nat) + "\n"@ + "   |\n"@ + pad3(ln)
                + crate::text::u64_chars(ln as nat) + " | "@ + line + "\n"@ + "   | "@
                + crate::text::repeat_char(' ', (col - 1) as nat) + crate::text::repeat_char(
                '^',
                caret as nat,
            ) + "\n"@
        },
    }
}

/// Renders a diagnostic against its source, with the offending line and a
/// caret run for a human reader.
///
/// The bound on the length keeps every byte offset within the machine word.
pub fn format_diagnostic(src: &str, diag: &Diagnostic) -> (r: String)
    requires
        4 * src@.len() <= usize::MAX,
    ensures
        r@ == spec_format_diagnostic(src@, diag_view(*diag)),
{
    let span: Span = match &diag.span {
        None => {
            return diag.message.clone();
        },
        Some(sp) => *sp,
    };
    let ghost s: Seq<char> = src@;
    let chars: Vec<char> = crate::lexer::collect_chars(src);
    let n: usize = chars.len();
    let target: usize = span.start;
    let mut i: usize = 0;
    let mut b: usize = 0;
    let mut ln: u64 = 1;
    let mut lsc: usize = 0;
    let mut lsb: usize = 0;
    while i < n && b < target
        invariant
            s == src@,
            chars@ == s,
            n == s.len(),
            4 * s.len() <= usize::MAX,
            i <= n,
            b == crate::lexer::byte_pos(s, i as int),
            ln <= i + 1,
            lsc <= i,
            lsb <= b,
            line_scan(s, 0, 0, 1, 0, 0, target as int) == line_scan(
                s,
                i as int,
                b as int,
                ln as int,
                lsc as int,
                lsb as int,
                target as int,
            ),
        decreases n - i,
    {
        proof {
            crate::lexer::lemma_byte_pos_bounds(s, i as int);
        }
        let c: char = chars[i];
        if c == '\n' {
            i += 1;
            b += 1;
            ln += 1;
            lsc = i;
            lsb = b;
        } else {
            let sz: usize = crate::lexer::char_size_pub(c);
            i += 1;
            b += sz;
        }
    }
    let mut lec: usize = lsc;
    while lec < n && chars[lec] != '\n'
        invariant
            chars@ == s,
            n == s.len(),
            lsc <= lec <= n,
            forall|k: int| lsc <= k < lec ==> #[trigger] s[k] != '\n',
        decreases n - lec,
    {
        lec += 1;
    }
    proof {
        crate::lexer::lemma_comment_end_at(s, lsc as int, lec as int);
    }
    let line: &str = src.substring_char(lsc, lec);
    let diff: usize = if span.start >= lsb {
        span.start - lsb
    } else {
        0
    };
    let col: usize = if diff < usize::MAX {
        diff + 1
    } else {
        usize::MAX
    };
    let caret: usize = if span.end > span.start {
        span.end - span.start
    } else {
        1
    };
    let mut out: String = String::new();
    out.append("error: ");
    out.append(diag.message.as_str());
    out.append("\n");
    out.append("  --> line ");
    crate::text::push_u64_chars(&mut out, ln);
    out.append(", col ");
    crate::text::push_u64_chars(&mut out, col as u64);
    out.append("\n");
    out.append("   |\n");
    if ln < 10 {
        crate::text::push_spaces(&mut out, 2);
    } else if ln < 100 {
        crate::text::push_spaces(&mut out, 1);
    }
    crate::text::push_u64_chars(&mut out, ln);
    out.append(" | ");
    out.append(line);
    out.append("\n");
    out.append("   | ");
    crate::text::push_spaces(&mut out, col - 1);
    crate::text::push_carets(&mut out, caret);
    out.append("\n");
    proof {
        assert(out@ =~= spec_format_diagnostic(src@, diag_view(*diag)));
    }
    out
}

/// Parses a whole source text into a program, stopping at the first
/// lexical or syntactic error.
///
/// The bound on the length keeps every byte offset within the machine word.
pub fn parse_program(src: &str) -> (r: Result<Program, Diagnostic>)
    requires
        4 * src@.len() <= usize::MAX,
    ensures
        match r {
            Ok(p) => (match spec_parse_program(src@) {
                Ok(vs) => program_matches(p, vs),
                Err(_) => false,
            }),
            Err(d) => spec_parse_program(src@) == Err::<Seq<ItemV>, DiagV>(diag_view(d)),
        },
{
    match lex(src) {
        Err(d) => Err(d),
        Ok(toks) => match parse_items(&toks, 0) {
            Err(d) => Err(d),
            Ok((items, _)) => Ok(Program::new(items)),
        },
    }
}

} // verus!
