//! The syntax tree: a program is an ordered sequence of items.
//!
//! Every node carries the byte spans needed for diagnostics.  Numeric values
//! are exact decimals ([`crate::number::Decimal`]); conversion to canonical
//! units happens downstream.

use vstd::prelude::*;

use crate::diagnostic::Span;
use crate::number::Decimal;
use crate::number::DecimalV;

verus! {

/// A name together with the span it was read from.
#[derive(Debug, Clone)]
pub struct Ident {
    pub name: String,
    pub span: Span,
}

/// The mathematical content of an [`Ident`].
pub struct IdentV {
    pub name: Seq<char>,
    pub span: Span,
}

impl View for Ident {
    type V = IdentV;

    open spec fn view(&self) -> IdentV {
        IdentV { name: self.name@, span: self.span }
    }
}

impl Ident {
    pub fn new(name: String, span: Span) -> (r: Ident)
        ensures
            r@ == (IdentV { name: name@, span }),
    {
        Ident { name, span }
    }

    /// Copies this identifier.
    pub fn duplicate(&self) -> (r: Ident)
        ensures
            r@ == self@,
    {
        Ident { name: self.name.clone(), span: self.span }
    }
}

/// A number with an optional unit identifier.
#[derive(Debug, Clone)]
pub struct Quantity {
    pub value: Decimal,
    pub unit: Option<Ident>,
    pub span: Span,
}

/// The mathematical content of a [`Quantity`].
pub struct QuantityV {
    pub value: DecimalV,
    pub unit: Option<IdentV>,
    pub span: Span,
}

impl View for Quantity {
    type V = QuantityV;

    open spec fn view(&self) -> QuantityV {
        QuantityV {
            value: self.value@,
            unit: match self.unit {
                Some(u) => Some(u@),
                None => None,
            },
            span: self.span,
        }
    }
}

impl Quantity {
    /// Copies this quantity.
    pub fn duplicate(&self) -> (r: Quantity)
        ensures
            r@ == self@,
    {
        Quantity {
            value: self.value.duplicate(),
            unit: match &self.unit {
                Some(u) => Some(u.duplicate()),
                None => None,
            },
            span: self.span,
        }
    }
}

/// A key/value pair in a `neuron` or `connect` body.
#[derive(Debug)]
pub struct Assign {
    pub key: Ident,
    pub value: Expr,
}

/// An expression: a quantity, a string, a name, or a call.
#[derive(Debug)]
pub enum Expr {
    Number(Quantity),
    String(String),
    Ident(Ident),
    Call(Call),
}

/// A call with positional and named arguments.
#[derive(Debug)]
pub struct Call {
    pub name: Ident,
    pub args: Vec<CallArg>,
}

/// One argument of a call.
#[derive(Debug)]
pub enum CallArg {
    Positional(Expr),
    Named { name: Ident, value: Expr },
}

/// The mathematical content of an [`Expr`].
pub enum ExprV {
    Number(QuantityV),
    StrLit(Seq<char>),
    Ident(IdentV),
    Call(CallV),
}

/// The mathematical content of a [`Call`].
pub struct CallV {
    pub name: IdentV,
    pub args: Seq<CallArgV>,
}

/// The mathematical content of a [`CallArg`].
pub enum CallArgV {
    Positional(ExprV),
    Named { name: IdentV, value: ExprV },
}

/// The mathematical content of an [`Assign`].
pub struct AssignV {
    pub key: IdentV,
    pub value: ExprV,
}

/// Whether the expression `e` is exactly described by `v`.
pub open spec fn expr_matches(e: Expr, v: ExprV) -> bool
    decreases v,
{
    match v {
        ExprV::Number(q) => e matches Expr::Number(eq) && eq@ == q,
        ExprV::StrLit(s) => e matches Expr::String(es) && es@ == s,
        ExprV::Ident(id) => e matches Expr::Ident(ei) && ei@ == id,
        ExprV::Call(c) => e matches Expr::Call(ec) && ec.name@ == c.name && args_match(
            ec.args@,
            c.args,
        ),
    }
}

/// Whether each argument matches, pointwise.
pub open spec fn args_match(es: Seq<CallArg>, vs: Seq<CallArgV>) -> bool
    decreases vs,
{
    es.len() == vs.len() && forall|i: int|
        0 <= i < vs.len() ==> call_arg_matches(#[trigger] es[i], vs[i])
}

/// Whether the call argument `a` is exactly described by `v`.
pub open spec fn call_arg_matches(a: CallArg, v: CallArgV) -> bool
    decreases v,
{
    match v {
        CallArgV::Positional(e) => a matches CallArg::Positional(ae) && expr_matches(ae, e),
        CallArgV::Named { name, value } => a matches CallArg::Named { name: an, value: av }
            && an@ == name && expr_matches(av, value),
    }
}

/// Whether the assignment `a` is exactly described by `v`.
pub open spec fn assign_matches(a: Assign, v: AssignV) -> bool {
    a.key@ == v.key && expr_matches(a.value, v.value)
}

/// Whether each assignment matches, pointwise.
pub open spec fn assigns_match(es: Seq<Assign>, vs: Seq<AssignV>) -> bool {
    es.len() == vs.len() && forall|i: int|
        0 <= i < vs.len() ==> assign_matches(#[trigger] es[i], vs[i])
}

/// A neuron prototype declaration.
#[derive(Debug)]
pub struct NeuronDef {
    pub name: Ident,
    pub body: Vec<Assign>,
}

/// A layer of `size` copies of a neuron prototype.
#[derive(Debug, Clone)]
pub struct LayerDef {
    pub name: Ident,
    pub size: u64,
    pub neuron: Ident,
}

/// An all-to-all connection between two layers.
#[derive(Debug)]
pub struct ConnectDef {
    pub src: Ident,
    pub dst: Ident,
    pub body: Vec<Assign>,
}

/// The single timed simulation run.
#[derive(Debug)]
pub struct RunStmt {
    pub duration: Quantity,
    pub step: Option<Quantity>,
}

/// The seed of the simulation's random number generators.
#[derive(Debug, Clone)]
pub struct SeedStmt {
    pub value: u64,
    pub span: Span,
}

/// An external driver bound to a layer.
#[derive(Debug)]
pub struct StimulusDef {
    pub layer: Ident,
    pub model: StimulusModel,
}

/// The model of an external stimulus.
#[derive(Debug)]
pub enum StimulusModel {
    Poisson { rate: Quantity },
}

/// One top-level item.
#[derive(Debug)]
pub enum Item {
    Neuron(NeuronDef),
    Layer(LayerDef),
    Connect(ConnectDef),
    Stimulus(StimulusDef),
    Run(RunStmt),
    Seed(SeedStmt),
}

/// A whole program: its items in source order.
#[derive(Debug)]
pub struct Program {
    pub items: Vec<Item>,
}

impl Program {
    pub fn new(items: Vec<Item>) -> (r: Program)
        ensures
            r.items == items,
    {
        Program { items }
    }
}

/// The mathematical content of an [`Item`].
pub enum ItemV {
    Neuron { name: IdentV, body: Seq<AssignV> },
    Layer { name: IdentV, size: u64, neuron: IdentV },
    Connect { src: IdentV, dst: IdentV, body: Seq<AssignV> },
    Stimulus { layer: IdentV, rate: QuantityV },
    Run { duration: QuantityV, step: Option<QuantityV> },
    Seed { value: u64, span: Span },
}

/// Whether the item `it` is exactly described by `v`.
pub open spec fn item_matches(it: Item, v: ItemV) -> bool {
    match v {
        ItemV::Neuron { name, body } => it matches Item::Neuron(d) && d.name@ == name
            && assigns_match(d.body@, body),
        ItemV::Layer { name, size, neuron } => it matches Item::Layer(d) && d.name@ == name
            && d.size == size && d.neuron@ == neuron,
        ItemV::Connect { src, dst, body } => it matches Item::Connect(d) && d.src@ == src
            && d.dst@ == dst && assigns_match(d.body@, body),
        ItemV::Stimulus { layer, rate } => it matches Item::Stimulus(d) && d.layer@ == layer && (
        d.model matches StimulusModel::Poisson { rate: q } && q@ == rate),
        ItemV::Run { duration, step } => it matches Item::Run(d) && d.duration@ == duration
            && (match (d.step, step) {
                (Some(q), Some(qv)) => q@ == qv,
                (None, None) => true,
                _ => false,
            }),
        ItemV::Seed { value, span } => it matches Item::Seed(d) && d.value == value && d.span
            == span,
    }
}

/// Whether each item matches, pointwise.
pub open spec fn items_match(es: Seq<Item>, vs: Seq<ItemV>) -> bool {
    es.len() == vs.len() && forall|i: int|
        0 <= i < vs.len() ==> item_matches(#[trigger] es[i], vs[i])
}

/// Whether the program `p` is exactly described by `vs`.
pub open spec fn program_matches(p: Program, vs: Seq<ItemV>) -> bool {
    items_match(p.items@, vs)
}

} // verus!
