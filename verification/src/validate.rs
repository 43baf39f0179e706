//! The validator: semantic rules over the syntax tree, all diagnostics
//! accumulated.

use vstd::prelude::*;
use vstd::string::StrSliceExecFns;
use vstd::string::StringExecFns;

use crate::ast::Assign;
use crate::ast::CallArg;
use crate::ast::Expr;
use crate::ast::Item;
use crate::ast::Program;
use crate::ast::Quantity;
use crate::ast::StimulusModel;
use crate::diagnostic::Diagnostic;
use crate::diagnostic::Span;
use crate::lexer::DiagV;
use crate::lexer::diag_view;
use crate::number::digits_val;
use crate::parser::span_pair;
use crate::text::str_eq;
use crate::units::spec_rate_to_hz;
use crate::units::spec_time_to_nanos;
use crate::units::expect_time;
use crate::units::rate_to_hz;
use crate::units::time_to_nanos;

verus! {

/// The contents of a list of diagnostics.
pub open spec fn diags_view(ds: Seq<Diagnostic>) -> Seq<DiagV> {
    ds.map(|i: int, d: Diagnostic| diag_view(d))
}

pub broadcast proof fn lemma_diags_view_push(s: Seq<Diagnostic>, d: Diagnostic)
    ensures
        #[trigger] diags_view(s.push(d)) == diags_view(s).push(diag_view(d)),
{
    assert(diags_view(s.push(d)) =~= diags_view(s).push(diag_view(d)));
}

pub broadcast proof fn lemma_names_view_push(s: Seq<String>, n: String)
    ensures
        #[trigger] names_view(s.push(n)) == names_view(s).push(n@),
{
    assert(names_view(s.push(n)) =~= names_view(s).push(n@));
}

/// Whether `names` holds `n`.
pub open spec fn contains_name(names: Seq<Seq<char>>, n: Seq<char>) -> bool {
    exists|i: int| 0 <= i < names.len() && names[i] == n
}

/// The contents of a list of names.
pub open spec fn names_view(ns: Seq<String>) -> Seq<Seq<char>> {
    ns.map(|i: int, s: String| s@)
}

/// The state the first pass accumulates: declared names, statement counts,
/// and the diagnostics found so far.
pub struct Pass1 {
    pub neurons: Seq<Seq<char>>,
    pub layers: Seq<Seq<char>>,
    pub seeds: int,
    pub runs: int,
    pub diags: Seq<DiagV>,
}

/// The diagnostic for a duplicated name.
pub open spec fn dup_err(kind: Seq<char>, name: Seq<char>, span: Span) -> DiagV {
    DiagV { message: "duplicate "@ + kind + " `"@ + name + "`"@, span: span_pair(span) }
}

/// The first pass: builds the neuron and layer name tables, counts `seed`
/// and `run` statements, and flags duplicated names.
pub open spec fn pass1_step(it: Item, st: Pass1) -> Pass1 {
    match it {
        Item::Neuron(d) => {
            if contains_name(st.neurons, d.name.name@) {
                Pass1 {
                    diags: st.diags.push(dup_err("neuron"@, d.name.name@, d.name.span)),
                    ..st
                }
            } else {
                Pass1 { neurons: st.neurons.push(d.name.name@), ..st }
            }
        },
        Item::Layer(d) => {
            if contains_name(st.layers, d.name.name@) {
                Pass1 {
                    diags: st.diags.push(dup_err("layer"@, d.name.name@, d.name.span)),
                    ..st
                }
            } else {
                Pass1 { layers: st.layers.push(d.name.name@), ..st }
            }
        },
        Item::Seed(_) => Pass1 { seeds: st.seeds + 1, ..st },
        Item::Run(_) => Pass1 { runs: st.runs + 1, ..st },
        _ => st,
    }
}

/// The first pass, one item at a time.
pub open spec fn spec_pass1(items: Seq<Item>, i: int, st: Pass1) -> Pass1
    decreases items.len() - i,
{
    if i < 0 || i >= items.len() {
        st
    } else {
        spec_pass1(items, i + 1, pass1_step(items[i], st))
    }
}

/// The diagnostics the statement counts warrant: at most one `seed`, and
/// exactly one `run`.
pub open spec fn spec_count_diags(seeds: int, runs: int) -> Seq<DiagV> {
    let s: Seq<DiagV> = if seeds > 1 {
        seq![DiagV { message: "only one `seed` statement is allowed"@, span: None }]
    } else {
        Seq::empty()
    };
    if runs == 0 {
        s.push(DiagV { message: "missing `run` statement"@, span: None })
    } else if runs > 1 {
        s.push(DiagV { message: "only one `run` statement is allowed"@, span: None })
    } else {
        s
    }
}

/// The span an expression is best blamed on.
pub open spec fn spec_span_of(e: Expr) -> Span {
    match e {
        Expr::Number(q) => q.span,
        Expr::String(_) => Span { start: 0, end: 0 },
        Expr::Ident(id) => id.span,
        Expr::Call(c) => c.name.span,
    }
}

/// Checking the arguments of a delay distribution call: each must be a time
/// quantity; the first failure wins.
pub open spec fn spec_check_dist_args(args: Seq<CallArg>, i: int, cspan: Span) -> Result<
    (),
    DiagV,
>
    decreases args.len() - i,
{
    if i < 0 || i >= args.len() {
        Ok(())
    } else {
        let e = match args[i] {
            CallArg::Positional(e) => e,
            CallArg::Named { name: _, value } => value,
        };
        match e {
            Expr::Number(q) => match spec_time_to_nanos(q@, "connection delay"@) {
                Ok(_) => spec_check_dist_args(args, i + 1, cspan),
                Err(d) => Err(d),
            },
            _ => Err(
                DiagV { message: "expected time quantity"@, span: span_pair(cspan) },
            ),
        }
    }
}

/// Checking a connection delay expression: a time quantity, or a `Normal` or
/// `Uniform` call whose arguments are time quantities.
pub open spec fn spec_validate_time_expr(e: Expr) -> Result<(), DiagV> {
    match e {
        Expr::Number(q) => match spec_time_to_nanos(q@, "connection delay"@) {
            Ok(_) => Ok(()),
            Err(d) => Err(d),
        },
        Expr::Call(c) => {
            if c.name.name@ == "Normal"@ || c.name.name@ == "Uniform"@ {
                spec_check_dist_args(c.args@, 0, c.name.span)
            } else {
                Err(
                    DiagV {
                        message: "unsupported delay expression"@,
                        span: span_pair(c.name.span),
                    },
                )
            }
        },
        _ => Err(
            DiagV { message: "expected time quantity"@, span: span_pair(spec_span_of(e)) },
        ),
    }
}

/// The diagnostics of the `d = …` assignments of a connect body.
pub open spec fn spec_connect_body_diags(body: Seq<Assign>, i: int) -> Seq<DiagV>
    decreases body.len() - i,
{
    if i < 0 || i >= body.len() {
        Seq::empty()
    } else {
        let here: Seq<DiagV> = if body[i].key.name@ == "d"@ {
            match spec_validate_time_expr(body[i].value) {
                Ok(_) => Seq::empty(),
                Err(d) => seq![d],
            }
        } else {
            Seq::empty()
        };
        here + spec_connect_body_diags(body, i + 1)
    }
}

/// Checking that a quantity is a positive time.
pub open spec fn spec_expect_positive_time(q: Quantity, context: Seq<char>) -> Result<(), DiagV> {
    match spec_time_to_nanos(q@, context) {
        Err(d) => Err(d),
        Ok(ns) => {
            if ns <= 0 {
                Err(
                    DiagV {
                        message: context + " must be positive"@,
                        span: span_pair(q.span),
                    },
                )
            } else {
                Ok(())
            }
        },
    }
}

/// The diagnostic for an unknown name.
pub open spec fn unknown_err(kind: Seq<char>, name: Seq<char>, span: Span) -> DiagV {
    DiagV { message: "unknown "@ + kind + " `"@ + name + "`"@, span: span_pair(span) }
}

/// Whether a rate in hertz is negative.
pub open spec fn spec_rate_negative(hz: crate::number::DecimalV) -> bool {
    hz.neg && digits_val(hz.all_digits()) != 0
}

/// The diagnostics of a stimulus rate: it must convert as a rate and be
/// non-negative.
pub open spec fn spec_rate_diags(q: Quantity) -> Seq<DiagV> {
    match spec_rate_to_hz(q@, "Poisson rate"@) {
        Err(d) => seq![d],
        Ok(hz) => {
            if spec_rate_negative(hz) {
                seq![
                    DiagV {
                        message: "Poisson rate must be non-negative"@,
                        span: span_pair(q.span),
                    },
                ]
            } else {
                Seq::empty()
            }
        },
    }
}

/// The second pass over one item: cross-references and quantities.
pub open spec fn spec_item_diags(it: Item, neurons: Seq<Seq<char>>, layers: Seq<Seq<char>>) -> Seq<
    DiagV,
> {
    match it {
        Item::Layer(d) => {
            if !contains_name(neurons, d.neuron.name@) {
                seq![unknown_err("neuron type"@, d.neuron.name@, d.neuron.span)]
            } else {
                Seq::empty()
            }
        },
        Item::Connect(d) => {
            let s1: Seq<DiagV> = if !contains_name(layers, d.src.name@) {
                seq![unknown_err("source layer"@, d.src.name@, d.src.span)]
            } else {
                Seq::empty()
            };
            let s2: Seq<DiagV> = if !contains_name(layers, d.dst.name@) {
                seq![unknown_err("destination layer"@, d.dst.name@, d.dst.span)]
            } else {
                Seq::empty()
            };
            s1 + s2 + spec_connect_body_diags(d.body@, 0)
        },
        Item::Run(d) => {
            let s1: Seq<DiagV> = match spec_expect_positive_time(d.duration, "run duration"@) {
                Ok(_) => Seq::empty(),
                Err(dg) => seq![dg],
            };
            let s2: Seq<DiagV> = match d.step {
                Some(q) => match spec_expect_positive_time(q, "run step"@) {
                    Ok(_) => Seq::empty(),
                    Err(dg) => seq![dg],
                },
                None => Seq::empty(),
            };
            s1 + s2
        },
        Item::Stimulus(d) => {
            let s1: Seq<DiagV> = if !contains_name(layers, d.layer.name@) {
                seq![unknown_err("stimulus layer"@, d.layer.name@, d.layer.span)]
            } else {
                Seq::empty()
            };
            let s2: Seq<DiagV> = match d.model {
                StimulusModel::Poisson { rate } => spec_rate_diags(rate),
            };
            s1 + s2
        },
        _ => Seq::empty(),
    }
}

/// The second pass over the remaining items.
pub open spec fn spec_pass2(
    items: Seq<Item>,
    i: int,
    neurons: Seq<Seq<char>>,
    layers: Seq<Seq<char>>,
) -> Seq<DiagV>
    decreases items.len() - i,
{
    if i < 0 || i >= items.len() {
        Seq::empty()
    } else {
        spec_item_diags(items[i], neurons, layers) + spec_pass2(items, i + 1, neurons, layers)
    }
}

/// Every diagnostic validation reports for a program, in order: duplicated
/// names, statement counts, then cross-references and quantities.
pub open spec fn spec_validate(items: Seq<Item>) -> Seq<DiagV> {
    let st = spec_pass1(
        items,
        0,
        Pass1 {
            neurons: Seq::empty(),
            layers: Seq::empty(),
            seeds: 0,
            runs: 0,
            diags: Seq::empty(),
        },
    );
    st.diags + spec_count_diags(st.seeds, st.runs) + spec_pass2(items, 0, st.neurons, st.layers)
}

/// Whether `names` holds `n`.
fn names_contain(names: &Vec<String>, n: &str) -> (r: bool)
    ensures
        r == contains_name(names_view(names@), n@),
{
    let mut i: usize = 0;
    while i < names.len()
        invariant
            i <= names@.len(),
            forall|k: int| 0 <= k < i ==> names_view(names@)[k] != n@,
        decreases names@.len() - i,
    {
        if str_eq(names[i].as_str(), n) {
            proof {
                assert(names_view(names@)[i as int] == names@[i as int]@);
            }
            return true;
        }
        proof {
            assert(names_view(names@)[i as int] == names@[i as int]@);
        }
        i += 1;
    }
    false
}

/// Builds the diagnostic for a duplicated name.
fn dup_diag(kind: &str, name: &str, span: Span) -> (d: Diagnostic)
    ensures
        diag_view(d) == dup_err(kind@, name@, span),
{
    let mut m: String = String::new();
    m.append("duplicate ");
    m.append(kind);
    m.append(" `");
    m.append(name);
    m.append("`");
    Diagnostic::new(m).with_span(span)
}

/// Builds the diagnostic for an unknown name.
fn unknown_diag(kind: &str, name: &str, span: Span) -> (d: Diagnostic)
    ensures
        diag_view(d) == unknown_err(kind@, name@, span),
{
    let mut m: String = String::new();
    m.append("unknown ");
    m.append(kind);
    m.append(" `");
    m.append(name);
    m.append("`");
    Diagnostic::new(m).with_span(span)
}

/// Checks that a quantity is a positive time.
fn expect_positive_time(q: &Quantity, context: &str) -> (r: Result<(), Diagnostic>)
    ensures
        match r {
            Ok(_) => spec_expect_positive_time(*q, context@) is Ok,
            Err(d) => spec_expect_positive_time(*q, context@) == Err::<(), DiagV>(diag_view(d)),
        },
{
    let ns: i64 = match time_to_nanos(q, context) {
        Ok(v) => v,
        Err(d) => {
            return Err(d);
        },
    };
    if ns <= 0 {
        let mut m: String = String::new();
        m.append(context);
        m.append(" must be positive");
        Err(Diagnostic::new(m).with_span(q.span))
    } else {
        Ok(())
    }
}

/// Checks a connection delay expression.
fn validate_time_expr(e: &Expr) -> (r: Result<(), Diagnostic>)
    ensures
        match r {
            Ok(_) => spec_validate_time_expr(*e) is Ok,
            Err(d) => spec_validate_time_expr(*e) == Err::<(), DiagV>(diag_view(d)),
        },
{
    match e {
        Expr::Number(q) => match expect_time(q, "connection delay") {
            Ok(_) => Ok(()),
            Err(d) => Err(d),
        },
        Expr::Call(c) => {
            if str_eq(c.name.name.as_str(), "Normal") || str_eq(c.name.name.as_str(), "Uniform") {
                let mut i: usize = 0;
                while i < c.args.len()
                    invariant
                        i <= c.args@.len(),
                        *e matches Expr::Call(c2) && c2 == c,
                        spec_validate_time_expr(*e) == spec_check_dist_args(
                            c.args@,
                            i as int,
                            c.name.span,
                        ),
                    decreases c.args@.len() - i,
                {
                    let arg_e: &Expr = match &c.args[i] {
                        CallArg::Positional(ae) => ae,
                        CallArg::Named { name: _, value } => value,
                    };
                    match arg_e {
                        Expr::Number(q) => match expect_time(q, "connection delay") {
                            Ok(_) => {},
                            Err(d) => {
                                return Err(d);
                            },
                        },
                        _ => {
                            let mut m: String = String::new();
                            m.append("expected time quantity");
                            return Err(Diagnostic::new(m).with_span(c.name.span));
                        },
                    }
                    i += 1;
                }
                Ok(())
            } else {
                let mut m: String = String::new();
                m.append("unsupported delay expression");
                Err(Diagnostic::new(m).with_span(c.name.span))
            }
        },
        _ => {
            let span: Span = match e {
                Expr::Number(q) => q.span,
                Expr::String(_) => Span::new(0, 0),
                Expr::Ident(id) => id.span,
                Expr::Call(c) => c.name.span,
            };
            let mut m: String = String::new();
            m.append("expected time quantity");
            Err(Diagnostic::new(m).with_span(span))
        },
    }
}

/// Validates a program: every semantic rule, all diagnostics accumulated,
/// never stopping at the first.
pub fn validate(program: &Program) -> (r: Result<(), Vec<Diagnostic>>)
    ensures
        match r {
            Ok(_) => spec_validate(program.items@).len() == 0,
            Err(ds) => diags_view(ds@) == spec_validate(program.items@) && ds@.len() > 0,
        },
{
    broadcast use lemma_diags_view_push, lemma_names_view_push;

    let ghost items: Seq<Item> = program.items@;
    let mut diags: Vec<Diagnostic> = Vec::new();
    let mut neurons: Vec<String> = Vec::new();
    let mut layers: Vec<String> = Vec::new();
    let mut seeds: usize = 0;
    let mut runs: usize = 0;
    let ghost st0 = Pass1 {
        neurons: Seq::empty(),
        layers: Seq::empty(),
        seeds: 0,
        runs: 0,
        diags: Seq::empty(),
    };
    proof {
        assert(names_view(neurons@) =~= Seq::<Seq<char>>::empty());
        assert(names_view(layers@) =~= Seq::<Seq<char>>::empty());
        assert(diags_view(diags@) =~= Seq::<DiagV>::empty());
    }
    let mut i: usize = 0;
    while i < program.items.len()
        invariant
            items == program.items@,
            i <= items.len(),
            seeds <= i,
            runs <= i,
            spec_pass1(items, 0, st0) == spec_pass1(
                items,
                i as int,
                Pass1 {
                    neurons: names_view(neurons@),
                    layers: names_view(layers@),
                    seeds: seeds as int,
                    runs: runs as int,
                    diags: diags_view(diags@),
                },
            ),
            st0 == (Pass1 {
                neurons: Seq::<Seq<char>>::empty(),
                layers: Seq::<Seq<char>>::empty(),
                seeds: 0int,
                runs: 0int,
                diags: Seq::<DiagV>::empty(),
            }),
        decreases items.len() - i,
    {
        let ghost stv = Pass1 {
            neurons: names_view(neurons@),
            layers: names_view(layers@),
            seeds: seeds as int,
            runs: runs as int,
            diags: diags_view(diags@),
        };
        match &program.items[i] {
            Item::Neuron(d) => {
                if names_contain(&neurons, d.name.name.as_str()) {
                    diags.push(dup_diag("neuron", d.name.name.as_str(), d.name.span));
                    proof {
                        assert(diags_view(diags@) == stv.diags.push(
                            dup_err("neuron"@, d.name.name@, d.name.span),
                        ));
                    }
                } else {
                    neurons.push(d.name.name.clone());
                    proof {
                        assert(names_view(neurons@) == stv.neurons.push(d.name.name@));
                    }
                }
            },
            Item::Layer(d) => {
                if names_contain(&layers, d.name.name.as_str()) {
                    diags.push(dup_diag("layer", d.name.name.as_str(), d.name.span));
                    proof {
                        assert(diags_view(diags@) == stv.diags.push(
                            dup_err("layer"@, d.name.name@, d.name.span),
                        ));
                    }
                } else {
                    layers.push(d.name.name.clone());
                    proof {
                        assert(names_view(layers@) == stv.layers.push(d.name.name@));
                    }
                }
            },
            Item::Seed(_) => {
                seeds += 1;
            },
            Item::Run(_) => {
                runs += 1;
            },
            _ => {},
        }
        proof {
            let stv2 = Pass1 {
                neurons: names_view(neurons@),
                layers: names_view(layers@),
                seeds: seeds as int,
                runs: runs as int,
                diags: diags_view(diags@),
            };
            assert(stv2 == pass1_step(items[i as int], stv));
            assert(spec_pass1(items, i as int, stv) == spec_pass1(items, i + 1, stv2));
        }
        i += 1;
    }
    let ghost st = spec_pass1(items, 0, st0);
    proof {
        assert(st.neurons == names_view(neurons@));
        assert(st.layers == names_view(layers@));
        assert(st.diags == diags_view(diags@));
        assert(st.seeds == seeds as int);
        assert(st.runs == runs as int);
    }
    if seeds > 1 {
        let mut m: String = String::new();
        m.append("only one `seed` statement is allowed");
        diags.push(Diagnostic::new(m));
        proof {
            assert(diags_view(diags@) =~= diags_view(diags@.drop_last()).push(
                diag_view(diags@.last()),
            ));
        }
    }
    if runs == 0 {
        let mut m: String = String::new();
        m.append("missing `run` statement");
        diags.push(Diagnostic::new(m));
        proof {
            assert(diags_view(diags@) =~= diags_view(diags@.drop_last()).push(
                diag_view(diags@.last()),
            ));
        }
    } else if runs > 1 {
        let mut m: String = String::new();
        m.append("only one `run` statement is allowed");
        diags.push(Diagnostic::new(m));
        proof {
            assert(diags_view(diags@) =~= diags_view(diags@.drop_last()).push(
                diag_view(diags@.last()),
            ));
        }
    }
    proof {
        assert(diags_view(diags@) =~= st.diags + spec_count_diags(st.seeds, st.runs));
    }
    let ghost before_pass2: Seq<DiagV> = diags_view(diags@);
    let mut j: usize = 0;
    while j < program.items.len()
        invariant
            items == program.items@,
            j <= items.len(),
            st == spec_pass1(items, 0, st0),
            st0 == (Pass1 {
                neurons: Seq::<Seq<char>>::empty(),
                layers: Seq::<Seq<char>>::empty(),
                seeds: 0int,
                runs: 0int,
                diags: Seq::<DiagV>::empty(),
            }),
            st.neurons == names_view(neurons@),
            st.layers == names_view(layers@),
            diags_view(diags@) == before_pass2 + spec_pass2_upto(
                items,
                j as int,
                st.neurons,
                st.layers,
            ),
        decreases items.len() - j,
    {
        let ghost base: Seq<DiagV> = diags_view(diags@);
        let ghost here: Seq<DiagV> = spec_item_diags(items[j as int], st.neurons, st.layers);
        match &program.items[j] {
            Item::Layer(d) => {
                if !names_contain(&neurons, d.neuron.name.as_str()) {
                    diags.push(unknown_diag("neuron type", d.neuron.name.as_str(), d.neuron.span));
                    proof {
                        assert(diags_view(diags@) =~= base + here);
                    }
                } else {
                    proof {
                        assert(diags_view(diags@) =~= base + here);
                    }
                }
            },
            Item::Connect(d) => {
                if !names_contain(&layers, d.src.name.as_str()) {
                    diags.push(unknown_diag("source layer", d.src.name.as_str(), d.src.span));
                    proof {
                        assert(diags_view(diags@) =~= diags_view(diags@.drop_last()).push(
                            diag_view(diags@.last()),
                        ));
                    }
                }
                if !names_contain(&layers, d.dst.name.as_str()) {
                    diags.push(
                        unknown_diag("destination layer", d.dst.name.as_str(), d.dst.span),
                    );
                    proof {
                        assert(diags_view(diags@) =~= diags_view(diags@.drop_last()).push(
                            diag_view(diags@.last()),
                        ));
                    }
                }
                let ghost s1: Seq<DiagV> = if !contains_name(st.layers, d.src.name@) {
                    seq![unknown_err("source layer"@, d.src.name@, d.src.span)]
                } else {
                    Seq::empty()
                };
                let ghost s2: Seq<DiagV> = if !contains_name(st.layers, d.dst.name@) {
                    seq![unknown_err("destination layer"@, d.dst.name@, d.dst.span)]
                } else {
                    Seq::empty()
                };
                proof {
                    assert(diags_view(diags@) =~= base + s1 + s2);
                }
                let mut b: usize = 0;
                while b < d.body.len()
                    invariant
                        b <= d.body@.len(),
                        diags_view(diags@) == base + s1 + s2 + spec_body_upto(
                            d.body@,
                            b as int,
                        ),
                    decreases d.body@.len() - b,
                {
                    let ghost pre: Seq<DiagV> = diags_view(diags@);
                    if str_eq(d.body[b].key.name.as_str(), "d") {
                        match validate_time_expr(&d.body[b].value) {
                            Ok(_) => {
                                proof {
                                    assert(spec_body_upto(d.body@, b + 1) =~= spec_body_upto(
                                        d.body@,
                                        b as int,
                                    ));
                                }
                            },
                            Err(dg) => {
                                diags.push(dg);
                                proof {
                                    assert(diags_view(diags@) == pre.push(diag_view(dg)));
                                    assert(spec_body_upto(d.body@, b + 1) =~= spec_body_upto(
                                        d.body@,
                                        b as int,
                                    ) + seq![diag_view(dg)]);
                                    assert(pre.push(diag_view(dg)) =~= pre + seq![
                                        diag_view(dg),
                                    ]);
                                }
                            },
                        }
                    } else {
                        proof {
                            assert(spec_body_upto(d.body@, b + 1) =~= spec_body_upto(
                                d.body@,
                                b as int,
                            ));
                        }
                    }
                    proof {
                        assert(diags_view(diags@) =~= base + s1 + s2 + spec_body_upto(
                            d.body@,
                            b + 1,
                        ));
                    }
                    b += 1;
                }
                proof {
                    lemma_body_split(d.body@, 0);
                    assert(spec_body_upto(d.body@, d.body@.len() as int) =~= spec_connect_body_diags(
                        d.body@,
                        0,
                    ));
                    assert(diags_view(diags@) =~= base + here);
                }
            },
            Item::Run(d) => {
                match expect_positive_time(&d.duration, "run duration") {
                    Ok(_) => {},
                    Err(dg) => {
                        diags.push(dg);
                        proof {
                            assert(diags_view(diags@) =~= diags_view(diags@.drop_last()).push(
                                diag_view(diags@.last()),
                            ));
                        }
                    },
                }
                match &d.step {
                    Some(q) => {
                        match expect_positive_time(q, "run step") {
                            Ok(_) => {},
                            Err(dg) => {
                                diags.push(dg);
                                proof {
                                    assert(diags_view(diags@) =~= diags_view(
                                        diags@.drop_last(),
                                    ).push(diag_view(diags@.last())));
                                }
                            },
                        }
                    },
                    None => {},
                }
                proof {
                    assert(diags_view(diags@) =~= base + here);
                }
            },
            Item::Stimulus(d) => {
                if !names_contain(&layers, d.layer.name.as_str()) {
                    diags.push(
                        unknown_diag("stimulus layer", d.layer.name.as_str(), d.layer.span),
                    );
                    proof {
                        assert(diags_view(diags@) =~= diags_view(diags@.drop_last()).push(
                            diag_view(diags@.last()),
                        ));
                    }
                }
                match &d.model {
                    StimulusModel::Poisson { rate } => {
                        match rate_to_hz(rate, "Poisson rate") {
                            Err(dg) => {
                                diags.push(dg);
                                proof {
                                    assert(diags_view(diags@) =~= diags_view(
                                        diags@.drop_last(),
                                    ).push(diag_view(diags@.last())));
                                }
                            },
                            Ok(hz) => {
                                if hz.neg && !hz.is_value_zero() {
                                    let mut m: String = String::new();
                                    m.append("Poisson rate must be non-negative");
                                    diags.push(Diagnostic::new(m).with_span(rate.span));
                                    proof {
                                        assert(diags_view(diags@) =~= diags_view(
                                            diags@.drop_last(),
                                        ).push(diag_view(diags@.last())));
                                    }
                                }
                            },
                        }
                    },
                }
                proof {
                    assert(diags_view(diags@) =~= base + here);
                }
            },
            _ => {
                proof {
                    assert(here =~= Seq::<DiagV>::empty());
                    assert(diags_view(diags@) =~= base + here);
                }
            },
        }
        proof {
            assert(spec_pass2_upto(items, j + 1, st.neurons, st.layers) == spec_pass2_upto(
                items,
                j as int,
                st.neurons,
                st.layers,
            ) + here);
            assert(diags_view(diags@) =~= before_pass2 + spec_pass2_upto(
                items,
                j + 1,
                st.neurons,
                st.layers,
            ));
        }
        j += 1;
    }
    proof {
        lemma_pass2_split(items, 0, st.neurons, st.layers);
        assert(diags_view(diags@) =~= spec_validate(items));
    }
    if diags.len() == 0 {
        Ok(())
    } else {
        Err(diags)
    }
}

/// The second-pass diagnostics of the first `j` items, accumulated from the
/// left.
pub open spec fn spec_pass2_upto(
    items: Seq<Item>,
    j: int,
    neurons: Seq<Seq<char>>,
    layers: Seq<Seq<char>>,
) -> Seq<DiagV>
    decreases j,
{
    if j <= 0 {
        Seq::empty()
    } else {
        spec_pass2_upto(items, j - 1, neurons, layers) + spec_item_diags(
            items[j - 1],
            neurons,
            layers,
        )
    }
}

/// The left-built prefix and the remaining suffix together make the whole
/// second pass.
pub proof fn lemma_pass2_split(
    items: Seq<Item>,
    j: int,
    neurons: Seq<Seq<char>>,
    layers: Seq<Seq<char>>,
)
    requires
        0 <= j <= items.len(),
    ensures
        spec_pass2_upto(items, items.len() as int, neurons, layers) == spec_pass2_upto(
            items,
            j,
            neurons,
            layers,
        ) + spec_pass2(items, j, neurons, layers),
    decreases items.len() - j,
{
    if j == items.len() {
        assert(spec_pass2_upto(items, j, neurons, layers) + Seq::<DiagV>::empty()
            =~= spec_pass2_upto(items, j, neurons, layers));
    } else {
        lemma_pass2_split(items, j + 1, neurons, layers);
        assert(spec_pass2_upto(items, j, neurons, layers) + (spec_item_diags(
            items[j],
            neurons,
            layers,
        ) + spec_pass2(items, j + 1, neurons, layers)) =~= (spec_pass2_upto(items, j, neurons, layers)
            + spec_item_diags(items[j], neurons, layers)) + spec_pass2(
            items,
            j + 1,
            neurons,
            layers,
        ));
    }
}

/// The `d = …` diagnostics of the first `b` assignments, accumulated from
/// the left.
pub open spec fn spec_body_upto(body: Seq<Assign>, b: int) -> Seq<DiagV>
    decreases b,
{
    if b <= 0 {
        Seq::empty()
    } else {
        spec_body_upto(body, b - 1) + (if body[b - 1].key.name@ == "d"@ {
            match spec_validate_time_expr(body[b - 1].value) {
                Ok(_) => Seq::<DiagV>::empty(),
                Err(d) => seq![d],
            }
        } else {
            Seq::<DiagV>::empty()
        })
    }
}

/// The left-built prefix and the remaining suffix together make all the
/// delay diagnostics of a connect body.
pub proof fn lemma_body_split(body: Seq<Assign>, b: int)
    requires
        0 <= b <= body.len(),
    ensures
        spec_body_upto(body, body.len() as int) == spec_body_upto(body, b)
            + spec_connect_body_diags(body, b),
    decreases body.len() - b,
{
    if b == body.len() {
        assert(spec_body_upto(body, b) + Seq::<DiagV>::empty() =~= spec_body_upto(body, b));
    } else {
        lemma_body_split(body, b + 1);
        let here: Seq<DiagV> = if body[b].key.name@ == "d"@ {
            match spec_validate_time_expr(body[b].value) {
                Ok(_) => Seq::<DiagV>::empty(),
                Err(d) => seq![d],
            }
        } else {
            Seq::<DiagV>::empty()
        };
        assert(spec_body_upto(body, b) + (here + spec_connect_body_diags(body, b + 1))
            =~= (spec_body_upto(body, b) + here) + spec_connect_body_diags(body, b + 1));
    }
}

} // verus!
