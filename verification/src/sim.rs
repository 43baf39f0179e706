//! The simulator's front half: the fully resolved plan a validated program
//! denotes, the reproducible random number generator, and the run summary.
//!
//! The discrete-time step loop itself works on floating-point membrane
//! potentials and so lives outside the verified library; it consumes the
//! plan and the generator defined here.

use vstd::prelude::*;
use vstd::string::StrSliceExecFns;
use vstd::string::StringExecFns;

use crate::ast::Assign;
use crate::ast::CallArg;
use crate::ast::Expr;
use crate::ast::Item;
use crate::ast::NeuronDef;
use crate::ast::Program;
use crate::ast::RunStmt;
use crate::ast::StimulusModel;
use crate::number::Decimal;
use crate::number::DecimalV;
use crate::number::digits_val;
use crate::number::digits_val_le;
use crate::number::digits_ok;
use crate::number::pow10;
use crate::text::i64_chars;
use crate::text::push_i64_chars;
use crate::text::push_u64_chars;
use crate::text::str_eq;
use crate::text::u64_chars;
use crate::units::spec_time_to_nanos;
use crate::units::spec_rate_to_hz;
use crate::units::rate_to_hz;
use crate::units::time_to_nanos;

verus! {

/// What one simulated layer reports: its name, population size, and spike
/// count.
#[derive(Debug, Clone)]
pub struct LayerSummary {
    pub name: String,
    pub size: u64,
    pub spikes: u64,
}

/// What a simulation run reports.
#[derive(Debug, Clone)]
pub struct SimSummary {
    pub duration_ns: i64,
    pub step_ns: i64,
    pub seed: u64,
    pub total_spikes: u64,
    pub layers: Vec<LayerSummary>,
}

/// A failure of simulation construction or execution.
#[derive(Debug)]
pub struct SimError {
    pub message: String,
}

/// The JSON text of one layer line of the summary.
pub open spec fn spec_layer_json(l: LayerSummary, last: bool) -> Seq<char> {
    "    {\n      \"name\": \""@ + l.name@ + "\",\n      \"size\": "@ + u64_chars(l.size as nat)
        + ",\n      \"spikes\": "@ + u64_chars(l.spikes as nat) + "\n    }"@ + (if last {
        "\n"@
    } else {
        ",\n"@
    })
}

/// The JSON text of the first `i` layer lines.
pub open spec fn spec_layers_json(ls: Seq<LayerSummary>, i: int) -> Seq<char>
    decreases i,
{
    if i <= 0 {
        Seq::empty()
    } else {
        spec_layers_json(ls, i - 1) + spec_layer_json(ls[i - 1], i == ls.len())
    }
}

/// The JSON text of a summary: two-space indentation, fields in a fixed
/// order.
pub open spec fn spec_summary_json(s: SimSummary) -> Seq<char> {
    "{\n  \"duration_ns\": "@ + i64_chars(s.duration_ns as int) + ",\n  \"step_ns\": "@
        + i64_chars(s.step_ns as int) + ",\n  \"seed\": "@ + u64_chars(s.seed as nat)
        + ",\n  \"total_spikes\": "@ + u64_chars(s.total_spikes as nat) + ",\n  \"layers\": [\n"@
        + spec_layers_json(s.layers@, s.layers@.len() as int) + "  ]\n}\n"@
}

/// Appends one layer line.
fn push_layer_json(out: &mut String, l: &LayerSummary, last: bool)
    ensures
        final(out)@ == old(out)@ + spec_layer_json(*l, last),
{
    out.append("    {\n      \"name\": \"");
    out.append(l.name.as_str());
    out.append("\",\n      \"size\": ");
    push_u64_chars(out, l.size);
    out.append(",\n      \"spikes\": ");
    push_u64_chars(out, l.spikes);
    out.append("\n    }");
    if last {
        out.append("\n");
    } else {
        out.append(",\n");
    }
    proof {
        assert(final(out)@ =~= old(out)@ + spec_layer_json(*l, last));
    }
}

/// Renders a run summary as JSON.
#[verifier::rlimit(100)]
pub fn summary_json(summary: &SimSummary) -> (r: String)
    ensures
        r@ == spec_summary_json(*summary),
{
    let mut out: String = String::new();
    out.append("{\n  \"duration_ns\": ");
    push_i64_chars(&mut out, summary.duration_ns);
    out.append(",\n  \"step_ns\": ");
    push_i64_chars(&mut out, summary.step_ns);
    out.append(",\n  \"seed\": ");
    push_u64_chars(&mut out, summary.seed);
    out.append(",\n  \"total_spikes\": ");
    push_u64_chars(&mut out, summary.total_spikes);
    out.append(",\n  \"layers\": [\n");
    let ghost base: Seq<char> = out@;
    let n: usize = summary.layers.len();
    let mut i: usize = 0;
    while i < n
        invariant
            n == summary.layers@.len(),
            i <= n,
            out@ == base + spec_layers_json(summary.layers@, i as int),
        decreases n - i,
    {
        push_layer_json(&mut out, &summary.layers[i], i + 1 == n);
        proof {
            assert(out@ =~= base + spec_layers_json(summary.layers@, i + 1));
        }
        i += 1;
    }
    out.append("  ]\n}\n");
    proof {
        assert(out@ =~= spec_summary_json(*summary));
    }
    out
}

/// What one generator step yields: the state advanced by the linear
/// congruential rule, wrapping at sixty-four bits.
pub open spec fn rng_next(state: u64) -> u64 {
    (((state as int) * 6364136223846793005 + 1) % 0x1_0000_0000_0000_0000) as u64
}

/// The reproducible random number generator: a sixty-four bit linear
/// congruential generator.  One instance drives synapse sampling, a second,
/// separately seeded one drives the stimuli.
#[derive(Debug, Clone, Copy, PartialEq, Eq, Structural)]
pub struct Rng {
    pub state: u64,
}

impl Rng {
    pub fn new(seed: u64) -> (r: Rng)
        ensures
            r.state == seed,
    {
        Rng { state: seed }
    }

    /// Advances the state and returns it.
    #[verifier::rlimit(100)]
    pub fn next_u64(&mut self) -> (r: u64)
        ensures
            final(self).state == rng_next(old(self).state),
            r == final(self).state,
    {
        let t: u64 = self.state.wrapping_mul(6364136223846793005u64);
        proof {
            vstd::arithmetic::div_mod::lemma_add_mod_noop(
                (old(self).state as int) * 6364136223846793005,
                1,
                0x1_0000_0000_0000_0000,
            );
            assert(1int % 0x1_0000_0000_0000_0000 == 1);
        }
        self.state = t.wrapping_add(1);
        self.state
    }
}

/// One planned layer: its name, size, membrane time constant in
/// nanoseconds, and threshold.
#[derive(Debug)]
pub struct LayerPlan {
    pub name: String,
    pub size: u64,
    pub tau_m_ns: i64,
    pub v_th: Decimal,
}

/// The content of a [`LayerPlan`].
pub struct LayerPlanV {
    pub name: Seq<char>,
    pub size: u64,
    pub tau_m_ns: int,
    pub v_th: DecimalV,
}

impl View for LayerPlan {
    type V = LayerPlanV;

    open spec fn view(&self) -> LayerPlanV {
        LayerPlanV {
            name: self.name@,
            size: self.size,
            tau_m_ns: self.tau_m_ns as int,
            v_th: self.v_th@,
        }
    }
}

/// One planned stimulus: the driven layer and its rate in hertz.
#[derive(Debug)]
pub struct StimulusPlan {
    pub layer: usize,
    pub rate: Decimal,
}

/// The content of a [`StimulusPlan`].
pub struct StimulusPlanV {
    pub layer: int,
    pub rate: DecimalV,
}

impl View for StimulusPlan {
    type V = StimulusPlanV;

    open spec fn view(&self) -> StimulusPlanV {
        StimulusPlanV { layer: self.layer as int, rate: self.rate@ }
    }
}

/// A weight distribution: a constant, or a uniform or normal law.
#[derive(Debug)]
pub enum WeightDist {
    Const(Decimal),
    Uniform(Decimal, Decimal),
    Normal(Decimal, Decimal),
}

/// The content of a [`WeightDist`].
pub enum WeightDistV {
    Const(DecimalV),
    Uniform(DecimalV, DecimalV),
    Normal(DecimalV, DecimalV),
}

impl View for WeightDist {
    type V = WeightDistV;

    open spec fn view(&self) -> WeightDistV {
        match self {
            WeightDist::Const(d) => WeightDistV::Const(d@),
            WeightDist::Uniform(a, b) => WeightDistV::Uniform(a@, b@),
            WeightDist::Normal(a, b) => WeightDistV::Normal(a@, b@),
        }
    }
}

/// A delay distribution.  A constant delay is already checked against the
/// step and held in steps; a sampled law keeps its parameters in
/// nanoseconds and is checked sample by sample.
#[derive(Debug, Clone, Copy, PartialEq, Eq, Structural)]
pub enum DelayDist {
    ConstSteps(u64),
    Uniform(i64, i64),
    Normal(i64, i64),
}

/// One planned connection: layer indices and the two distributions.
#[derive(Debug)]
pub struct ConnectionPlan {
    pub src: usize,
    pub dst: usize,
    pub weight: WeightDist,
    pub delay: DelayDist,
}

/// The content of a [`ConnectionPlan`].
pub struct ConnectionPlanV {
    pub src: int,
    pub dst: int,
    pub weight: WeightDistV,
    pub delay: DelayDist,
}

impl View for ConnectionPlan {
    type V = ConnectionPlanV;

    open spec fn view(&self) -> ConnectionPlanV {
        ConnectionPlanV {
            src: self.src as int,
            dst: self.dst as int,
            weight: self.weight@,
            delay: self.delay,
        }
    }
}

/// Everything the step loop needs, fully resolved and checked.
#[derive(Debug)]
pub struct SimPlan {
    pub duration_ns: i64,
    pub step_ns: i64,
    pub steps: u64,
    pub seed: u64,
    pub layers: Vec<LayerPlan>,
    pub stimuli: Vec<StimulusPlan>,
    pub connections: Vec<ConnectionPlan>,
}

/// The content of a [`SimPlan`].
pub struct SimPlanV {
    pub duration_ns: int,
    pub step_ns: int,
    pub steps: int,
    pub seed: u64,
    pub layers: Seq<LayerPlanV>,
    pub stimuli: Seq<StimulusPlanV>,
    pub connections: Seq<ConnectionPlanV>,
}

impl View for SimPlan {
    type V = SimPlanV;

    open spec fn view(&self) -> SimPlanV {
        SimPlanV {
            duration_ns: self.duration_ns as int,
            step_ns: self.step_ns as int,
            steps: self.steps as int,
            seed: self.seed,
            layers: self.layers@.map(|i: int, l: LayerPlan| l@),
            stimuli: self.stimuli@.map(|i: int, s: StimulusPlan| s@),
            connections: self.connections@.map(|i: int, c: ConnectionPlan| c@),
        }
    }
}

/// The first `run` statement, if any.
pub open spec fn first_run(items: Seq<Item>, i: int) -> Option<RunStmt>
    decreases items.len() - i,
{
    if i < 0 || i >= items.len() {
        None
    } else {
        match items[i] {
            Item::Run(r) => Some(r),
            _ => first_run(items, i + 1),
        }
    }
}

/// The last neuron declaration with the given name among the first `i`
/// items, if any: a redeclared prototype shadows the earlier one.
pub open spec fn find_neuron(items: Seq<Item>, i: int, name: Seq<char>) -> Option<NeuronDef>
    decreases i,
{
    if i <= 0 {
        None
    } else {
        match items[i - 1] {
            Item::Neuron(d) => {
                if d.name.name@ == name {
                    Some(d)
                } else {
                    find_neuron(items, i - 1, name)
                }
            },
            _ => find_neuron(items, i - 1, name),
        }
    }
}

/// The index of the last planned layer with the given name among the first
/// `i`, if any.
pub open spec fn find_layer(lays: Seq<LayerPlanV>, i: int, name: Seq<char>) -> Option<int>
    decreases i,
{
    if i <= 0 {
        None
    } else {
        if lays[i - 1].name == name {
            Some(i - 1)
        } else {
            find_layer(lays, i - 1, name)
        }
    }
}

/// The decimal one: the default threshold and the default synaptic weight.
pub open spec fn dec_one() -> DecimalV {
    DecimalV { neg: false, int_digits: seq![1u8], frac_digits: Seq::empty() }
}

/// Resolving the LIF parameters from a prototype body, later assignments
/// overriding earlier ones: `tau_m` must be a positive time, `v_th` a bare
/// number.
pub open spec fn spec_lif(body: Seq<Assign>, i: int, tau: int, vth: DecimalV) -> Result<
    (int, DecimalV),
    Seq<char>,
>
    decreases body.len() - i,
{
    if i < 0 || i >= body.len() {
        Ok((tau, vth))
    } else {
        if body[i].key.name@ == "tau_m"@ {
            match body[i].value {
                Expr::Number(q) => match spec_time_to_nanos(q@, "tau_m"@) {
                    Err(d) => Err(d.message),
                    Ok(t) => {
                        if t <= 0 {
                            Err("tau_m must be positive"@)
                        } else {
                            spec_lif(body, i + 1, t, vth)
                        }
                    },
                },
                _ => Err("tau_m must be a time quantity"@),
            }
        } else if body[i].key.name@ == "v_th"@ {
            match body[i].value {
                Expr::Number(q) => spec_lif(body, i + 1, tau, q@.value),
                _ => Err("v_th must be a number"@),
            }
        } else {
            spec_lif(body, i + 1, tau, vth)
        }
    }
}

/// The first assignment with the given key, if any.
pub open spec fn find_assign(body: Seq<Assign>, i: int, key: Seq<char>) -> Option<int>
    decreases body.len() - i,
{
    if i < 0 || i >= body.len() {
        None
    } else if body[i].key.name@ == key {
        Some(i)
    } else {
        find_assign(body, i + 1, key)
    }
}

/// The immediate number arguments of a distribution call, as decimals.
pub open spec fn spec_dist_args(args: Seq<CallArg>, i: int) -> Result<Seq<DecimalV>, Seq<char>>
    decreases args.len() - i,
{
    if i < 0 || i >= args.len() {
        Ok(Seq::empty())
    } else {
        let e = match args[i] {
            CallArg::Positional(e) => e,
            CallArg::Named { name: _, value } => value,
        };
        match e {
            Expr::Number(q) => match spec_dist_args(args, i + 1) {
                Ok(rest) => Ok(seq![q@.value] + rest),
                Err(m) => Err(m),
            },
            _ => Err("distribution arguments must be numbers"@),
        }
    }
}

/// The immediate number arguments of a delay distribution call, converted
/// to nanoseconds.
pub open spec fn spec_dist_args_time(args: Seq<CallArg>, i: int) -> Result<Seq<int>, Seq<char>>
    decreases args.len() - i,
{
    if i < 0 || i >= args.len() {
        Ok(Seq::empty())
    } else {
        let e = match args[i] {
            CallArg::Positional(e) => e,
            CallArg::Named { name: _, value } => value,
        };
        match e {
            Expr::Number(q) => match spec_time_to_nanos(q@, "delay"@) {
                Err(d) => Err(d.message),
                Ok(ns) => match spec_dist_args_time(args, i + 1) {
                    Ok(rest) => Ok(seq![ns] + rest),
                    Err(m) => Err(m),
                },
            },
            _ => Err("distribution arguments must be numbers"@),
        }
    }
}

/// A weight distribution from a `w = …` expression.
pub open spec fn spec_weight_dist(e: Expr) -> Result<WeightDistV, Seq<char>> {
    match e {
        Expr::Number(q) => Ok(WeightDistV::Const(q@.value)),
        Expr::Call(c) => match spec_dist_args(c.args@, 0) {
            Err(m) => Err(m),
            Ok(vals) => {
                if vals.len() != 2 {
                    Err("distribution requires two arguments"@)
                } else if c.name.name@ == "Uniform"@ {
                    Ok(WeightDistV::Uniform(vals[0], vals[1]))
                } else if c.name.name@ == "Normal"@ {
                    Ok(WeightDistV::Normal(vals[0], vals[1]))
                } else {
                    Err("unsupported distribution"@)
                }
            },
        },
        _ => Err("expected number or distribution"@),
    }
}

/// A delay distribution from a `d = …` expression, in nanoseconds.
pub open spec fn spec_delay_dist(e: Expr) -> Result<(Option<int>, DelayDist), Seq<char>> {
    match e {
        Expr::Number(q) => match spec_time_to_nanos(q@, "delay"@) {
            Err(d) => Err(d.message),
            Ok(ns) => Ok((Some(ns), DelayDist::ConstSteps(0))),
        },
        Expr::Call(c) => match spec_dist_args_time(c.args@, 0) {
            Err(m) => Err(m),
            Ok(vals) => {
                if vals.len() != 2 {
                    Err("distribution requires two arguments"@)
                } else if c.name.name@ == "Uniform"@ {
                    if i64::MIN <= vals[0] <= i64::MAX && i64::MIN <= vals[1] <= i64::MAX {
                        Ok((None, DelayDist::Uniform(vals[0] as i64, vals[1] as i64)))
                    } else {
                        Err("invalid time value for delay"@)
                    }
                } else if c.name.name@ == "Normal"@ {
                    if i64::MIN <= vals[0] <= i64::MAX && i64::MIN <= vals[1] <= i64::MAX {
                        Ok((None, DelayDist::Normal(vals[0] as i64, vals[1] as i64)))
                    } else {
                        Err("invalid time value for delay"@)
                    }
                } else {
                    Err("unsupported distribution"@)
                }
            },
        },
        _ => Err("expected number or distribution"@),
    }
}

/// The contents of planned layers.
pub open spec fn layers_view(ls: Seq<LayerPlan>) -> Seq<LayerPlanV> {
    ls.map(|i: int, l: LayerPlan| l@)
}

/// The contents of planned stimuli.
pub open spec fn stims_view(ss: Seq<StimulusPlan>) -> Seq<StimulusPlanV> {
    ss.map(|i: int, s: StimulusPlan| s@)
}

/// The contents of planned connections.
pub open spec fn conns_view(cs: Seq<ConnectionPlan>) -> Seq<ConnectionPlanV> {
    cs.map(|i: int, c: ConnectionPlan| c@)
}

pub broadcast proof fn lemma_layers_view_push(s: Seq<LayerPlan>, l: LayerPlan)
    ensures
        #[trigger] layers_view(s.push(l)) == layers_view(s).push(l@),
{
    assert(layers_view(s.push(l)) =~= layers_view(s).push(l@));
}

pub broadcast proof fn lemma_stims_view_push(s: Seq<StimulusPlan>, x: StimulusPlan)
    ensures
        #[trigger] stims_view(s.push(x)) == stims_view(s).push(x@),
{
    assert(stims_view(s.push(x)) =~= stims_view(s).push(x@));
}

pub broadcast proof fn lemma_conns_view_push(s: Seq<ConnectionPlan>, x: ConnectionPlan)
    ensures
        #[trigger] conns_view(s.push(x)) == conns_view(s).push(x@),
{
    assert(conns_view(s.push(x)) =~= conns_view(s).push(x@));
}

/// Building the layer states: each layer resolves its prototype, later
/// declarations shadowing earlier ones.
pub open spec fn spec_build_layers(items: Seq<Item>, i: int, acc: Seq<LayerPlanV>) -> Result<
    Seq<LayerPlanV>,
    Seq<char>,
>
    decreases items.len() - i,
{
    if i < 0 || i >= items.len() {
        Ok(acc)
    } else {
        match items[i] {
            Item::Layer(d) => {
                match find_neuron(items, items.len() as int, d.neuron.name@) {
                    None => Err("unknown "@ + "neuron type"@ + " `"@ + d.neuron.name@ + "`"@),
                    Some(nd) => match spec_lif(nd.body@, 0, 20000000, dec_one()) {
                        Err(m) => Err(m),
                        Ok((tau, vth)) => spec_build_layers(
                            items,
                            i + 1,
                            acc.push(
                                LayerPlanV {
                                    name: d.name.name@,
                                    size: d.size,
                                    tau_m_ns: tau,
                                    v_th: vth,
                                },
                            ),
                        ),
                    },
                }
            },
            _ => spec_build_layers(items, i + 1, acc),
        }
    }
}

/// Collecting the stimuli: each resolves its layer and its rate, which must
/// be non-negative.
pub open spec fn spec_collect_stimuli(
    items: Seq<Item>,
    i: int,
    lays: Seq<LayerPlanV>,
    acc: Seq<StimulusPlanV>,
) -> Result<Seq<StimulusPlanV>, Seq<char>>
    decreases items.len() - i,
{
    if i < 0 || i >= items.len() {
        Ok(acc)
    } else {
        match items[i] {
            Item::Stimulus(d) => {
                match find_layer(lays, lays.len() as int, d.layer.name@) {
                    None => Err("unknown "@ + "stimulus layer"@ + " `"@ + d.layer.name@ + "`"@),
                    Some(ix) => match d.model {
                        StimulusModel::Poisson { rate } => match spec_rate_to_hz(
                            rate@,
                            "Poisson rate"@,
                        ) {
                            Err(dg) => Err(dg.message),
                            Ok(hz) => {
                                if hz.neg && digits_val(hz.all_digits()) != 0 {
                                    Err("Poisson rate must be non-negative"@)
                                } else {
                                    spec_collect_stimuli(
                                        items,
                                        i + 1,
                                        lays,
                                        acc.push(StimulusPlanV { layer: ix, rate: hz }),
                                    )
                                }
                            },
                        },
                    },
                }
            },
            _ => spec_collect_stimuli(items, i + 1, lays, acc),
        }
    }
}

/// Building the connections: layer indices resolve, and a constant delay is
/// checked against the step and turned into steps — unless one of the two
/// layers is empty, in which case no synapse will ever use it.
pub open spec fn spec_build_conns(
    items: Seq<Item>,
    i: int,
    lays: Seq<LayerPlanV>,
    step: int,
    acc: Seq<ConnectionPlanV>,
) -> Result<Seq<ConnectionPlanV>, Seq<char>>
    decreases items.len() - i,
{
    if i < 0 || i >= items.len() {
        Ok(acc)
    } else {
        match items[i] {
            Item::Connect(d) => {
                match find_layer(lays, lays.len() as int, d.src.name@) {
                    None => Err("unknown "@ + "source layer"@ + " `"@ + d.src.name@ + "`"@),
                    Some(src) => match find_layer(lays, lays.len() as int, d.dst.name@) {
                        None => Err("unknown "@ + "destination layer"@ + " `"@ + d.dst.name@ + "`"@),
                        Some(dst) => {
                            let wres = match find_assign(d.body@, 0, "w"@) {
                                None => Ok(WeightDistV::Const(dec_one())),
                                Some(ai) => spec_weight_dist(d.body@[ai].value),
                            };
                            match wres {
                                Err(m) => Err(m),
                                Ok(wd) => {
                                    let dres = match find_assign(d.body@, 0, "d"@) {
                                        None => Ok((Some(0int), DelayDist::ConstSteps(0))),
                                        Some(ai) => spec_delay_dist(d.body@[ai].value),
                                    };
                                    match dres {
                                        Err(m) => Err(m),
                                        Ok((cns, dd)) => {
                                            let active = lays[src].size > 0 && lays[dst].size
                                                > 0;
                                            match cns {
                                                Some(ns) => {
                                                    if active && ns < 0 {
                                                        Err("negative delay is not allowed"@)
                                                    } else if active && ns % step != 0 {
                                                        Err("delay must be divisible by step"@)
                                                    } else {
                                                        spec_build_conns(
                                                            items,
                                                            i + 1,
                                                            lays,
                                                            step,
                                                            acc.push(
                                                                ConnectionPlanV {
                                                                    src,
                                                                    dst,
                                                                    weight: wd,
                                                                    delay: DelayDist::ConstSteps(
                                                                        if active {
                                                                            (ns / step) as u64
                                                                        } else {
                                                                            0
                                                                        },
                                                                    ),
                                                                },
                                                            ),
                                                        )
                                                    }
                                                },
                                                None => spec_build_conns(
                                                    items,
                                                    i + 1,
                                                    lays,
                                                    step,
                                                    acc.push(
                                                        ConnectionPlanV {
                                                            src,
                                                            dst,
                                                            weight: wd,
                                                            delay: dd,
                                                        },
                                                    ),
                                                ),
                                            }
                                        },
                                    }
                                },
                            }
                        },
                    },
                }
            },
            _ => spec_build_conns(items, i + 1, lays, step, acc),
        }
    }
}

/// The larger of two naturals.
pub open spec fn nmax(a: nat, b: nat) -> nat {
    if a >= b {
        a
    } else {
        b
    }
}

/// The largest fraction length among the rates driving layer `li`, from
/// index `i` on.
pub open spec fn max_scale(stims: Seq<StimulusPlanV>, li: int, i: int) -> nat
    decreases stims.len() - i,
{
    if i < 0 || i >= stims.len() {
        0
    } else if stims[i].layer == li {
        nmax(stims[i].rate.scale(), max_scale(stims, li, i + 1))
    } else {
        max_scale(stims, li, i + 1)
    }
}

/// The sum of the rates driving layer `li`, as an integer scaled by ten to
/// the `s`, from index `i` on.
pub open spec fn rate_sum_num(stims: Seq<StimulusPlanV>, li: int, s: nat, i: int) -> int
    decreases stims.len() - i,
{
    if i < 0 || i >= stims.len() {
        0
    } else if stims[i].layer == li {
        digits_val(stims[i].rate.all_digits()) * pow10((s - stims[i].rate.scale()) as nat)
            + rate_sum_num(stims, li, s, i + 1)
    } else {
        rate_sum_num(stims, li, s, i + 1)
    }
}

/// Whether the summed rate of layer `li` exceeds one expected spike per
/// neuron per step: the exact comparison of the rational
/// `sum · step / 1e9` against one.
pub open spec fn layer_rate_too_high(stims: Seq<StimulusPlanV>, li: int, step: int) -> bool {
    let s = max_scale(stims, li, 0);
    if s > usize::MAX - 9 {
        true
    } else {
        rate_sum_num(stims, li, s, 0) * step > pow10((9 + s) as nat)
    }
}

/// Checking every layer's summed rate, in layer order.
pub open spec fn spec_rate_check(stims: Seq<StimulusPlanV>, nl: int, li: int, step: int) -> Result<
    (),
    Seq<char>,
>
    decreases nl - li,
{
    if li < 0 || li >= nl {
        Ok(())
    } else if layer_rate_too_high(stims, li, step) {
        Err("stimulus rate too high for step"@)
    } else {
        spec_rate_check(stims, nl, li + 1, step)
    }
}

/// The plan a program builds once its run parameters are fixed.
pub open spec fn plan_tail(items: Seq<Item>, duration_ns: int, step_ns: int) -> Result<
    SimPlanV,
    Seq<char>,
> {
    if duration_ns <= 0 || step_ns <= 0 {
        Err("duration and step must be positive"@)
    } else if duration_ns % step_ns != 0 {
        Err("duration must be divisible by step"@)
    } else {
        match spec_build_layers(items, 0, Seq::empty()) {
            Err(m) => Err(m),
            Ok(lays) => match spec_collect_stimuli(items, 0, lays, Seq::empty()) {
                Err(m) => Err(m),
                Ok(stims) => match spec_build_conns(items, 0, lays, step_ns, Seq::empty()) {
                    Err(m) => Err(m),
                    Ok(conns) => match spec_rate_check(
                        stims,
                        lays.len() as int,
                        0,
                        step_ns,
                    ) {
                        Err(m) => Err(m),
                        Ok(_) => Ok(
                            SimPlanV {
                                duration_ns,
                                step_ns,
                                steps: duration_ns / step_ns,
                                seed: crate::emit::first_seed_exec(items, 0),
                                layers: lays,
                                stimuli: stims,
                                connections: conns,
                            },
                        ),
                    },
                },
            },
        }
    }
}

/// What building the simulation plan yields: every name resolved, every
/// quantity converted and checked, or the first violation.
pub open spec fn spec_build_plan(items: Seq<Item>) -> Result<SimPlanV, Seq<char>> {
    match first_run(items, 0) {
        None => Err("missing run statement"@),
        Some(run) => match spec_time_to_nanos(run.duration@, "run duration"@) {
            Err(d) => Err(d.message),
            Ok(duration_ns) => {
                let step_r = match run.step {
                    Some(q) => spec_time_to_nanos(q@, "run step"@),
                    None => Ok(1000000int),
                };
                match step_r {
                    Err(d) => Err(d.message),
                    Ok(step_ns) => plan_tail(items, duration_ns, step_ns),
                }
            },
        },
    }
}

/// A construction failure with a fixed message.
fn sim_msg(m: &str) -> (e: SimError)
    ensures
        e.message@ == m@,
{
    SimError { message: m.to_owned() }
}

/// A construction failure naming an unresolved identifier.
fn sim_unknown(kind: &str, name: &str) -> (e: SimError)
    ensures
        e.message@ == "unknown "@ + kind@ + " `"@ + name@ + "`"@,
{
    let mut m: String = String::new();
    m.append("unknown ");
    m.append(kind);
    m.append(" `");
    m.append(name);
    m.append("`");
    SimError { message: m }
}

/// The index of the first `run` statement.
fn find_run_idx(items: &Vec<Item>) -> (r: Option<usize>)
    ensures
        match r {
            Some(ix) => ix < items@.len() && (items@[ix as int] matches Item::Run(run)
                && first_run(items@, 0) == Some(run)),
            None => first_run(items@, 0) is None,
        },
{
    let mut i: usize = 0;
    while i < items.len()
        invariant
            i <= items@.len(),
            first_run(items@, 0) == first_run(items@, i as int),
        decreases items@.len() - i,
    {
        match &items[i] {
            Item::Run(_) => {
                return Some(i);
            },
            _ => {},
        }
        i += 1;
    }
    None
}

/// The index of the last neuron declaration with the given name.
fn find_neuron_idx(items: &Vec<Item>, name: &str) -> (r: Option<usize>)
    ensures
        match r {
            Some(ix) => ix < items@.len() && (items@[ix as int] matches Item::Neuron(nd)
                && find_neuron(items@, items@.len() as int, name@) == Some(nd)),
            None => find_neuron(items@, items@.len() as int, name@) is None,
        },
{
    let mut i: usize = items.len();
    while i > 0
        invariant
            i <= items@.len(),
            find_neuron(items@, items@.len() as int, name@) == find_neuron(
                items@,
                i as int,
                name@,
            ),
        decreases i,
    {
        match &items[i - 1] {
            Item::Neuron(d) => {
                if str_eq(d.name.name.as_str(), name) {
                    return Some(i - 1);
                }
            },
            _ => {},
        }
        i -= 1;
    }
    None
}

/// The index of the last planned layer with the given name.
fn find_layer_idx(lays: &Vec<LayerPlan>, name: &str) -> (r: Option<usize>)
    ensures
        match r {
            Some(ix) => ix < lays@.len() && find_layer(
                layers_view(lays@),
                lays@.len() as int,
                name@,
            ) == Some(ix as int),
            None => find_layer(layers_view(lays@), lays@.len() as int, name@) is None,
        },
{
    let mut i: usize = lays.len();
    while i > 0
        invariant
            i <= lays@.len(),
            find_layer(layers_view(lays@), lays@.len() as int, name@) == find_layer(
                layers_view(lays@),
                i as int,
                name@,
            ),
        decreases i,
    {
        proof {
            assert(layers_view(lays@)[i - 1] == lays@[i - 1]@);
        }
        if str_eq(lays[i - 1].name.as_str(), name) {
            return Some(i - 1);
        }
        i -= 1;
    }
    None
}

/// Resolves the LIF parameters of a prototype.
fn lif_params(nd: &NeuronDef) -> (r: Result<(i64, Decimal), SimError>)
    ensures
        match r {
            Ok((tau, vth)) => spec_lif(nd.body@, 0, 20000000, dec_one()) == Ok::<
                (int, DecimalV),
                Seq<char>,
            >((tau as int, vth@)),
            Err(e) => spec_lif(nd.body@, 0, 20000000, dec_one()) == Err::<
                (int, DecimalV),
                Seq<char>,
            >(e.message@),
        },
{
    let mut tau: i64 = 20000000;
    let mut vth: Decimal = Decimal { neg: false, int_digits: Vec::new(), frac_digits: Vec::new() };
    vth.int_digits.push(1);
    proof {
        assert(vth@.int_digits =~= seq![1u8]);
        assert(vth@.frac_digits =~= Seq::<u8>::empty());
        assert(vth@ == dec_one());
    }
    let mut i: usize = 0;
    while i < nd.body.len()
        invariant
            i <= nd.body@.len(),
            spec_lif(nd.body@, 0, 20000000, dec_one()) == spec_lif(
                nd.body@,
                i as int,
                tau as int,
                vth@,
            ),
        decreases nd.body@.len() - i,
    {
        let a = &nd.body[i];
        if str_eq(a.key.name.as_str(), "tau_m") {
            match &a.value {
                Expr::Number(q) => {
                    match time_to_nanos(q, "tau_m") {
                        Ok(t) => {
                            if t <= 0 {
                                return Err(sim_msg("tau_m must be positive"));
                            }
                            tau = t;
                        },
                        Err(d) => {
                            return Err(SimError { message: d.message });
                        },
                    }
                },
                _ => {
                    return Err(sim_msg("tau_m must be a time quantity"));
                },
            }
        } else if str_eq(a.key.name.as_str(), "v_th") {
            match &a.value {
                Expr::Number(q) => {
                    vth = q.value.duplicate();
                },
                _ => {
                    return Err(sim_msg("v_th must be a number"));
                },
            }
        }
        i += 1;
    }
    Ok((tau, vth))
}

/// Builds the layer states.
fn build_layers(items: &Vec<Item>) -> (r: Result<Vec<LayerPlan>, SimError>)
    ensures
        match r {
            Ok(v) => spec_build_layers(items@, 0, Seq::empty()) == Ok::<
                Seq<LayerPlanV>,
                Seq<char>,
            >(layers_view(v@)),
            Err(e) => spec_build_layers(items@, 0, Seq::empty()) == Err::<
                Seq<LayerPlanV>,
                Seq<char>,
            >(e.message@),
        },
{
    broadcast use lemma_layers_view_push;

    let mut lays: Vec<LayerPlan> = Vec::new();
    proof {
        assert(layers_view(lays@) =~= Seq::<LayerPlanV>::empty());
    }
    let mut i: usize = 0;
    while i < items.len()
        invariant
            i <= items@.len(),
            spec_build_layers(items@, 0, Seq::empty()) == spec_build_layers(
                items@,
                i as int,
                layers_view(lays@),
            ),
        decreases items@.len() - i,
    {
        match &items[i] {
            Item::Layer(d) => {
                let nix: usize = match find_neuron_idx(items, d.neuron.name.as_str()) {
                    Some(ix) => ix,
                    None => {
                        return Err(sim_unknown("neuron type", d.neuron.name.as_str()));
                    },
                };
                let nd: &NeuronDef = match &items[nix] {
                    Item::Neuron(nd) => nd,
                    _ => {
                        proof {
                            assert(false);
                        }
                        return Err(sim_msg("unknown neuron type"));
                    },
                };
                match lif_params(nd) {
                    Err(e) => {
                        return Err(e);
                    },
                    Ok((tau, vth)) => {
                        let ghost lays0: Seq<LayerPlan> = lays@;
                        let np = LayerPlan {
                            name: d.name.name.clone(),
                            size: d.size,
                            tau_m_ns: tau,
                            v_th: vth,
                        };
                        lays.push(np);
                        proof {
                            lemma_layers_view_push(lays0, np);
                            assert(spec_build_layers(items@, i as int, layers_view(lays0))
                                == spec_build_layers(items@, i + 1, layers_view(lays@)));
                        }
                    },
                }
            },
            _ => {},
        }
        i += 1;
    }
    Ok(lays)
}

/// Collects the stimuli.
fn collect_stimuli(items: &Vec<Item>, lays: &Vec<LayerPlan>) -> (r: Result<
    Vec<StimulusPlan>,
    SimError,
>)
    ensures
        match r {
            Ok(v) => spec_collect_stimuli(items@, 0, layers_view(lays@), Seq::empty()) == Ok::<
                Seq<StimulusPlanV>,
                Seq<char>,
            >(stims_view(v@)),
            Err(e) => spec_collect_stimuli(items@, 0, layers_view(lays@), Seq::empty()) == Err::<
                Seq<StimulusPlanV>,
                Seq<char>,
            >(e.message@),
        },
{
    broadcast use lemma_stims_view_push;

    let mut stims: Vec<StimulusPlan> = Vec::new();
    proof {
        assert(stims_view(stims@) =~= Seq::<StimulusPlanV>::empty());
    }
    let mut i: usize = 0;
    while i < items.len()
        invariant
            i <= items@.len(),
            spec_collect_stimuli(items@, 0, layers_view(lays@), Seq::empty())
                == spec_collect_stimuli(
                items@,
                i as int,
                layers_view(lays@),
                stims_view(stims@),
            ),
        decreases items@.len() - i,
    {
        match &items[i] {
            Item::Stimulus(d) => {
                let lix: usize = match find_layer_idx(lays, d.layer.name.as_str()) {
                    Some(ix) => ix,
                    None => {
                        return Err(sim_unknown("stimulus layer", d.layer.name.as_str()));
                    },
                };
                match &d.model {
                    StimulusModel::Poisson { rate } => {
                        match rate_to_hz(rate, "Poisson rate") {
                            Err(d) => {
                                return Err(SimError { message: d.message });
                            },
                            Ok(hz) => {
                                if hz.neg && !hz.is_value_zero() {
                                    return Err(sim_msg("Poisson rate must be non-negative"));
                                }
                                let ghost stims0: Seq<StimulusPlan> = stims@;
                                let np = StimulusPlan { layer: lix, rate: hz };
                                stims.push(np);
                                proof {
                                    lemma_stims_view_push(stims0, np);
                                    assert(spec_collect_stimuli(
                                        items@,
                                        i as int,
                                        layers_view(lays@),
                                        stims_view(stims0),
                                    ) == spec_collect_stimuli(
                                        items@,
                                        i + 1,
                                        layers_view(lays@),
                                        stims_view(stims@),
                                    ));
                                }
                            },
                        }
                    },
                }
            },
            _ => {},
        }
        i += 1;
    }
    Ok(stims)
}

/// The index of the first assignment with the given key.
fn find_assign_idx(body: &Vec<Assign>, key: &str) -> (r: Option<usize>)
    ensures
        match r {
            Some(ix) => find_assign(body@, 0, key@) == Some(ix as int) && ix < body@.len(),
            None => find_assign(body@, 0, key@) is None,
        },
{
    let mut i: usize = 0;
    while i < body.len()
        invariant
            i <= body@.len(),
            find_assign(body@, 0, key@) == find_assign(body@, i as int, key@),
        decreases body@.len() - i,
    {
        if str_eq(body[i].key.name.as_str(), key) {
            return Some(i);
        }
        i += 1;
    }
    None
}

/// A weight distribution from a `w = …` expression.
fn weight_dist(e: &Expr) -> (r: Result<WeightDist, SimError>)
    ensures
        match r {
            Ok(wd) => spec_weight_dist(*e) == Ok::<WeightDistV, Seq<char>>(wd@),
            Err(er) => spec_weight_dist(*e) == Err::<WeightDistV, Seq<char>>(er.message@),
        },
{
    match e {
        Expr::Number(q) => Ok(WeightDist::Const(q.value.duplicate())),
        Expr::Call(c) => {
            let mut vals: Vec<Decimal> = Vec::new();
            let mut i: usize = 0;
            while i < c.args.len()
                invariant
                    i <= c.args@.len(),
                    vals@.len() == i,
                    *e matches Expr::Call(c2) && c2 == c,
                    match spec_dist_args(c.args@, i as int) {
                        Ok(rest) => spec_dist_args(c.args@, 0) == Ok::<Seq<DecimalV>, Seq<char>>(
                            vals@.map(|k: int, d: Decimal| d@) + rest,
                        ),
                        Err(m) => spec_dist_args(c.args@, 0) == Err::<Seq<DecimalV>, Seq<char>>(
                            m,
                        ),
                    },
                decreases c.args@.len() - i,
            {
                let arg_e: &Expr = match &c.args[i] {
                    CallArg::Positional(ae) => ae,
                    CallArg::Named { name: _, value } => value,
                };
                match arg_e {
                    Expr::Number(q) => {
                        let ghost vals0: Seq<Decimal> = vals@;
                        vals.push(q.value.duplicate());
                        proof {
                            assert(vals@.map(|k: int, d: Decimal| d@) =~= vals0.map(
                                |k: int, d: Decimal| d@,
                            ).push(q.value@));
                            match spec_dist_args(c.args@, i + 1) {
                                Ok(rest) => {
                                    assert(vals0.map(|k: int, d: Decimal| d@) + (seq![q.value@]
                                        + rest) =~= vals@.map(|k: int, d: Decimal| d@) + rest);
                                },
                                Err(_) => {},
                            }
                        }
                    },
                    _ => {
                        return Err(sim_msg("distribution arguments must be numbers"));
                    },
                }
                i += 1;
            }
            proof {
                assert(vals@.map(|k: int, d: Decimal| d@) + Seq::<DecimalV>::empty() =~= vals@.map(
                    |k: int, d: Decimal| d@,
                ));
            }
            if vals.len() != 2 {
                return Err(sim_msg("distribution requires two arguments"));
            }
            let a = vals[0].duplicate();
            let b = vals[1].duplicate();
            if str_eq(c.name.name.as_str(), "Uniform") {
                Ok(WeightDist::Uniform(a, b))
            } else if str_eq(c.name.name.as_str(), "Normal") {
                Ok(WeightDist::Normal(a, b))
            } else {
                Err(sim_msg("unsupported distribution"))
            }
        },
        _ => Err(sim_msg("expected number or distribution")),
    }
}

/// A delay distribution from a `d = …` expression: the constant case is
/// returned in nanoseconds, to be checked against the step.
fn delay_dist(e: &Expr) -> (r: Result<(Option<i64>, DelayDist), SimError>)
    ensures
        match r {
            Ok((cns, dd)) => spec_delay_dist(*e) == Ok::<(Option<int>, DelayDist), Seq<char>>(
                (
                    match cns {
                        Some(v) => Some(v as int),
                        None => None,
                    },
                    dd,
                ),
            ),
            Err(er) => spec_delay_dist(*e) == Err::<(Option<int>, DelayDist), Seq<char>>(
                er.message@,
            ),
        },
{
    match e {
        Expr::Number(q) => match time_to_nanos(q, "delay") {
            Err(d) => Err(SimError { message: d.message }),
            Ok(ns) => Ok((Some(ns), DelayDist::ConstSteps(0))),
        },
        Expr::Call(c) => {
            let mut vals: Vec<i64> = Vec::new();
            let mut i: usize = 0;
            while i < c.args.len()
                invariant
                    i <= c.args@.len(),
                    vals@.len() == i,
                    *e matches Expr::Call(c2) && c2 == c,
                    match spec_dist_args_time(c.args@, i as int) {
                        Ok(rest) => spec_dist_args_time(c.args@, 0) == Ok::<Seq<int>, Seq<char>>(
                            vals@.map(|k: int, d: i64| d as int) + rest,
                        ),
                        Err(m) => spec_dist_args_time(c.args@, 0) == Err::<Seq<int>, Seq<char>>(
                            m,
                        ),
                    },
                decreases c.args@.len() - i,
            {
                let arg_e: &Expr = match &c.args[i] {
                    CallArg::Positional(ae) => ae,
                    CallArg::Named { name: _, value } => value,
                };
                match arg_e {
                    Expr::Number(q) => {
                        match time_to_nanos(q, "delay") {
                            Err(d) => {
                                return Err(SimError { message: d.message });
                            },
                            Ok(ns) => {
                                let ghost vals0: Seq<i64> = vals@;
                                vals.push(ns);
                                proof {
                                    assert(vals@.map(|k: int, d: i64| d as int) =~= vals0.map(
                                        |k: int, d: i64| d as int,
                                    ).push(ns as int));
                                    match spec_dist_args_time(c.args@, i + 1) {
                                        Ok(rest) => {
                                            assert(vals0.map(|k: int, d: i64| d as int) + (seq![
                                                ns as int,
                                            ] + rest) =~= vals@.map(|k: int, d: i64| d as int)
                                                + rest);
                                        },
                                        Err(_) => {},
                                    }
                                }
                            },
                        }
                    },
                    _ => {
                        return Err(sim_msg("distribution arguments must be numbers"));
                    },
                }
                i += 1;
            }
            proof {
                assert(vals@.map(|k: int, d: i64| d as int) + Seq::<int>::empty() =~= vals@.map(
                    |k: int, d: i64| d as int,
                ));
            }
            if vals.len() != 2 {
                return Err(sim_msg("distribution requires two arguments"));
            }
            let a: i64 = vals[0];
            let b: i64 = vals[1];
            if str_eq(c.name.name.as_str(), "Uniform") {
                Ok((None, DelayDist::Uniform(a, b)))
            } else if str_eq(c.name.name.as_str(), "Normal") {
                Ok((None, DelayDist::Normal(a, b)))
            } else {
                Err(sim_msg("unsupported distribution"))
            }
        },
        _ => Err(sim_msg("expected number or distribution")),
    }
}

/// The decimal one, as a value.
fn one_decimal() -> (d: Decimal)
    ensures
        d@ == dec_one(),
{
    let mut int_digits: Vec<u8> = Vec::new();
    int_digits.push(1);
    let d = Decimal { neg: false, int_digits, frac_digits: Vec::new() };
    proof {
        assert(d@.int_digits =~= seq![1u8]);
        assert(d@.frac_digits =~= Seq::<u8>::empty());
    }
    d
}

/// Builds the connections.
fn build_connections(items: &Vec<Item>, lays: &Vec<LayerPlan>, step_ns: i64) -> (r: Result<
    Vec<ConnectionPlan>,
    SimError,
>)
    requires
        step_ns >= 1,
    ensures
        match r {
            Ok(v) => spec_build_conns(items@, 0, layers_view(lays@), step_ns as int, Seq::empty())
                == Ok::<Seq<ConnectionPlanV>, Seq<char>>(conns_view(v@)),
            Err(e) => spec_build_conns(
                items@,
                0,
                layers_view(lays@),
                step_ns as int,
                Seq::empty(),
            ) == Err::<Seq<ConnectionPlanV>, Seq<char>>(e.message@),
        },
{
    let mut conns: Vec<ConnectionPlan> = Vec::new();
    proof {
        assert(conns_view(conns@) =~= Seq::<ConnectionPlanV>::empty());
    }
    let mut i: usize = 0;
    while i < items.len()
        invariant
            i <= items@.len(),
            step_ns >= 1,
            spec_build_conns(items@, 0, layers_view(lays@), step_ns as int, Seq::empty())
                == spec_build_conns(
                items@,
                i as int,
                layers_view(lays@),
                step_ns as int,
                conns_view(conns@),
            ),
        decreases items@.len() - i,
    {
        match &items[i] {
            Item::Connect(d) => {
                let src: usize = match find_layer_idx(lays, d.src.name.as_str()) {
                    Some(ix) => ix,
                    None => {
                        return Err(sim_unknown("source layer", d.src.name.as_str()));
                    },
                };
                let dst: usize = match find_layer_idx(lays, d.dst.name.as_str()) {
                    Some(ix) => ix,
                    None => {
                        return Err(sim_unknown("destination layer", d.dst.name.as_str()));
                    },
                };
                let wd: WeightDist = match find_assign_idx(&d.body, "w") {
                    None => WeightDist::Const(one_decimal()),
                    Some(ai) => match weight_dist(&d.body[ai].value) {
                        Ok(w) => w,
                        Err(e) => {
                            return Err(e);
                        },
                    },
                };
                let (cns, dd): (Option<i64>, DelayDist) = match find_assign_idx(&d.body, "d") {
                    None => (Some(0i64), DelayDist::ConstSteps(0)),
                    Some(ai) => match delay_dist(&d.body[ai].value) {
                        Ok(p) => p,
                        Err(e) => {
                            return Err(e);
                        },
                    },
                };
                let active: bool = lays[src].size > 0 && lays[dst].size > 0;
                proof {
                    assert(layers_view(lays@)[src as int] == lays@[src as int]@);
                    assert(layers_view(lays@)[dst as int] == lays@[dst as int]@);
                }
                let delay: DelayDist = match cns {
                    Some(ns) => {
                        if active && ns < 0 {
                            return Err(sim_msg("negative delay is not allowed"));
                        }
                        if active && ns % step_ns != 0 {
                            return Err(sim_msg("delay must be divisible by step"));
                        }
                        if active {
                            DelayDist::ConstSteps((ns / step_ns) as u64)
                        } else {
                            DelayDist::ConstSteps(0)
                        }
                    },
                    None => dd,
                };
                let ghost conns0: Seq<ConnectionPlan> = conns@;
                let np = ConnectionPlan { src, dst, weight: wd, delay };
                conns.push(np);
                proof {
                    lemma_conns_view_push(conns0, np);
                    assert(spec_build_conns(
                        items@,
                        i as int,
                        layers_view(lays@),
                        step_ns as int,
                        conns_view(conns0),
                    ) == spec_build_conns(
                        items@,
                        i + 1,
                        layers_view(lays@),
                        step_ns as int,
                        conns_view(conns@),
                    ));
                }
            },
            _ => {},
        }
        i += 1;
    }
    Ok(conns)
}

/// Scaling a decimal up keeps it well-formed.
pub proof fn lemma_scale_up_wf(v: DecimalV, k: nat)
    requires
        v.wf(),
    ensures
        crate::units::spec_scale_up(v, k).wf(),
{
    let r = crate::units::spec_scale_up(v, k);
    assert forall|i: int| 0 <= i < r.int_digits.len() implies #[trigger] r.int_digits[i]
        < 10 by {
        if v.frac_digits.len() <= k {
        } else {
        }
    }
    assert forall|i: int| 0 <= i < r.frac_digits.len() implies #[trigger] r.frac_digits[i]
        < 10 by {}
}

/// Every rate a successful stimulus collection yields is well-formed.
pub proof fn lemma_stimuli_wf(
    items: Seq<Item>,
    i: int,
    lays: Seq<LayerPlanV>,
    acc: Seq<StimulusPlanV>,
)
    requires
        forall|k: int| 0 <= k < acc.len() ==> (#[trigger] acc[k]).rate.wf(),
    ensures
        match spec_collect_stimuli(items, i, lays, acc) {
            Ok(v) => forall|k: int| 0 <= k < v.len() ==> (#[trigger] v[k]).rate.wf(),
            Err(_) => true,
        },
    decreases items.len() - i,
{
    if 0 <= i < items.len() {
        match items[i] {
            Item::Stimulus(d) => {
                match find_layer(lays, lays.len() as int, d.layer.name@) {
                    None => {},
                    Some(ix) => match d.model {
                        StimulusModel::Poisson { rate } => match spec_rate_to_hz(
                            rate@,
                            "Poisson rate"@,
                        ) {
                            Err(_) => {},
                            Ok(hz) => {
                                if hz.neg && digits_val(hz.all_digits()) != 0 {
                                } else {
                                    match crate::units::spec_rate_shift(
                                        rate@.unit->0.name,
                                    ) {
                                        Some(k) => {
                                            lemma_scale_up_wf(rate@.value, k);
                                        },
                                        None => {},
                                    }
                                    lemma_stimuli_wf(
                                        items,
                                        i + 1,
                                        lays,
                                        acc.push(StimulusPlanV { layer: ix, rate: hz }),
                                    );
                                }
                            },
                        },
                    },
                }
            },
            _ => {
                lemma_stimuli_wf(items, i + 1, lays, acc);
            },
        }
    }
}

/// The largest scale bounds every matching stimulus's scale.
pub proof fn lemma_max_scale_ge(stims: Seq<StimulusPlanV>, li: int, i: int, j: int)
    requires
        0 <= i <= j < stims.len(),
        stims[j].layer == li,
    ensures
        stims[j].rate.scale() <= max_scale(stims, li, i),
    decreases j - i,
{
    if i < j {
        lemma_max_scale_ge(stims, li, i + 1, j);
    }
}

/// The concatenated digits of a decimal.
fn all_digits_exec(d: &Decimal) -> (v: Vec<u8>)
    ensures
        v@ == d@.all_digits(),
{
    let mut v: Vec<u8> = Vec::new();
    let mut i: usize = 0;
    while i < d.int_digits.len()
        invariant
            i <= d.int_digits@.len(),
            v@ == d.int_digits@.take(i as int),
        decreases d.int_digits@.len() - i,
    {
        v.push(d.int_digits[i]);
        proof {
            assert(v@ =~= d.int_digits@.take(i + 1));
        }
        i += 1;
    }
    let mut j: usize = 0;
    while j < d.frac_digits.len()
        invariant
            j <= d.frac_digits@.len(),
            v@ == d.int_digits@.take(d.int_digits@.len() as int) + d.frac_digits@.take(j as int),
        decreases d.frac_digits@.len() - j,
    {
        v.push(d.frac_digits[j]);
        proof {
            assert(v@ =~= d.int_digits@.take(d.int_digits@.len() as int) + d.frac_digits@.take(
                j + 1,
            ));
        }
        j += 1;
    }
    proof {
        assert(v@ =~= d@.all_digits());
    }
    v
}

/// Checks every layer's summed stimulus rate against the step: at most one
/// expected spike per neuron per step.
fn check_rates(stims: &Vec<StimulusPlan>, n_layers: usize, step_ns: i64) -> (r: Result<
    (),
    SimError,
>)
    requires
        step_ns >= 1,
        forall|k: int| 0 <= k < stims@.len() ==> (#[trigger] stims@[k]@).rate.wf(),
    ensures
        match r {
            Ok(_) => spec_rate_check(stims_view(stims@), n_layers as int, 0, step_ns as int)
                is Ok,
            Err(e) => spec_rate_check(stims_view(stims@), n_layers as int, 0, step_ns as int)
                == Err::<(), Seq<char>>(e.message@),
        },
{
    let ghost sv: Seq<StimulusPlanV> = stims_view(stims@);
    proof {
        assert(forall|k: int| 0 <= k < sv.len() ==> (#[trigger] sv[k]).rate == stims@[k]@.rate);
    }
    let mut li: usize = 0;
    while li < n_layers
        invariant
            li <= n_layers,
            step_ns >= 1,
            sv == stims_view(stims@),
            forall|k: int| 0 <= k < sv.len() ==> (#[trigger] sv[k]).rate.wf(),
            spec_rate_check(sv, n_layers as int, 0, step_ns as int) == spec_rate_check(
                sv,
                n_layers as int,
                li as int,
                step_ns as int,
            ),
        decreases n_layers - li,
    {
        // the largest fraction length among this layer's rates
        let mut sc: usize = 0;
        let mut k: usize = 0;
        while k < stims.len()
            invariant
                k <= stims@.len(),
                sv == stims_view(stims@),
                nmax(sc as nat, max_scale(sv, li as int, k as int)) == max_scale(
                    sv,
                    li as int,
                    0,
                ),
            decreases stims@.len() - k,
        {
            proof {
                assert(sv[k as int] == stims@[k as int]@);
            }
            if stims[k].layer == li {
                let fl: usize = stims[k].rate.frac_digits.len();
                if fl > sc {
                    sc = fl;
                }
            }
            k += 1;
        }
        proof {
            assert(max_scale(sv, li as int, stims@.len() as int) == 0);
            assert(sc as nat == max_scale(sv, li as int, 0));
        }
        if sc > usize::MAX - 9 {
            return Err(sim_msg("stimulus rate too high for step"));
        }
        // the exact scaled sum of this layer's rates
        let mut sum: Vec<u8> = Vec::new();
        proof {
            assert(digits_val_le(sum@) == 0);
        }
        let mut k2: usize = 0;
        while k2 < stims.len()
            invariant
                k2 <= stims@.len(),
                sv == stims_view(stims@),
                forall|j: int| 0 <= j < sv.len() ==> (#[trigger] sv[j]).rate.wf(),
                sc as nat == max_scale(sv, li as int, 0),
                digits_ok(sum@),
                digits_val_le(sum@) + rate_sum_num(sv, li as int, sc as nat, k2 as int)
                    == rate_sum_num(sv, li as int, sc as nat, 0),
            decreases stims@.len() - k2,
        {
            proof {
                assert(sv[k2 as int] == stims@[k2 as int]@);
            }
            if stims[k2].layer == li {
                proof {
                    lemma_max_scale_ge(sv, li as int, 0, k2 as int);
                }
                let d: &Decimal = &stims[k2].rate;
                let all: Vec<u8> = all_digits_exec(d);
                let rev: Vec<u8> = crate::number::reverse_digits(&all);
                let shift: usize = sc - d.frac_digits.len();
                let mut sh: Vec<u8> = Vec::new();
                let mut z: usize = 0;
                while z < shift
                    invariant
                        z <= shift,
                        sh@ == crate::number::zero_digits(z as nat),
                    decreases shift - z,
                {
                    sh.push(0);
                    proof {
                        assert(sh@ =~= crate::number::zero_digits((z + 1) as nat));
                    }
                    z += 1;
                }
                let mut m: usize = 0;
                while m < rev.len()
                    invariant
                        m <= rev@.len(),
                        sh@ == crate::number::zero_digits(shift as nat) + rev@.take(m as int),
                    decreases rev@.len() - m,
                {
                    sh.push(rev[m]);
                    proof {
                        assert(sh@ =~= crate::number::zero_digits(shift as nat) + rev@.take(
                            m + 1,
                        ));
                    }
                    m += 1;
                }
                proof {
                    assert(rev@.take(rev@.len() as int) =~= rev@);
                    assert(digits_ok(rev@)) by {
                        assert(forall|t: int|
                            0 <= t < rev@.len() ==> #[trigger] rev@[t] == all@[all@.len() - 1
                                - t]);
                    }
                    assert(digits_ok(sh@)) by {
                        assert(forall|t: int|
                            0 <= t < sh@.len() ==> #[trigger] sh@[t] == (crate::number::zero_digits(
                                shift as nat,
                            ) + rev@)[t]);
                    }
                    crate::number::lemma_val_le_shift(shift as nat, rev@);
                    crate::number::lemma_val_le_reverse(all@);
                }
                let ghost sum0: Seq<u8> = sum@;
                let ghost shv: Seq<u8> = sh@;
                proof {
                    assert(shv =~= crate::number::zero_digits(shift as nat) + rev@);
                    assert(digits_val_le(shv) == pow10(shift as nat) * digits_val_le(rev@));
                    assert(digits_val_le(rev@) == digits_val(all@));
                    assert(all@ == stims@[k2 as int]@.rate.all_digits());
                    assert(shift as nat == (sc - stims@[k2 as int]@.rate.scale()) as nat);
                }
                let mut a: Vec<u8> = sum;
                let mut b: Vec<u8> = sh;
                let n1: usize = a.len();
                let n2: usize = b.len();
                let top: usize = if n1 >= n2 {
                    n1
                } else {
                    n2
                };
                crate::number::pad_le(&mut a, top);
                crate::number::pad_le(&mut b, top);
                proof {
                    assert(digits_val_le(a@) == digits_val_le(sum0));
                    assert(digits_val_le(b@) == digits_val_le(shv));
                }
                sum = crate::number::add_le(&a, &b);
                proof {
                    assert(digits_val_le(sum@) == digits_val_le(a@) + digits_val_le(b@));
                    assert(digits_val_le(sum@) == digits_val_le(sum0) + pow10(shift as nat)
                        * digits_val(stims@[k2 as int]@.rate.all_digits()));
                    assert(pow10(shift as nat) * digits_val(stims@[k2 as int]@.rate.all_digits())
                        == digits_val(stims@[k2 as int]@.rate.all_digits()) * pow10(
                        (sc - stims@[k2 as int]@.rate.scale()) as nat,
                    )) by (nonlinear_arith)
                        requires
                            shift as nat == (sc - stims@[k2 as int]@.rate.scale()) as nat,
                    ;
                }
            }
            k2 += 1;
        }
        let prod: Vec<u8> = crate::number::mul_le(&sum, step_ns as u64);
        let p: usize = sc + 9;
        if crate::number::le_exceeds_pow10(&prod, p) {
            return Err(sim_msg("stimulus rate too high for step"));
        }
        proof {
            assert(!layer_rate_too_high(sv, li as int, step_ns as int));
        }
        li += 1;
    }
    Ok(())
}

/// Builds the simulation plan of a program: the seed, the timing, the
/// layers, the stimuli and the connections, every quantity converted and
/// checked.  The step loop consumes the plan unchanged.
pub fn build_plan(program: &Program) -> (r: Result<SimPlan, SimError>)
    ensures
        match r {
            Ok(p) => spec_build_plan(program.items@) == Ok::<SimPlanV, Seq<char>>(p@),
            Err(e) => spec_build_plan(program.items@) == Err::<SimPlanV, Seq<char>>(e.message@),
        },
{
    let items: &Vec<Item> = &program.items;
    // the first `seed` statement, zero when there is none
    let mut seed: u64 = 0;
    let mut found: bool = false;
    let mut si: usize = 0;
    while si < items.len()
        invariant
            si <= items@.len(),
            !found ==> crate::emit::first_seed_exec(items@, 0) == crate::emit::first_seed_exec(
                items@,
                si as int,
            ),
            found ==> seed == crate::emit::first_seed_exec(items@, 0),
            !found ==> seed == 0,
        decreases items@.len() - si,
    {
        if !found {
            match &items[si] {
                Item::Seed(d) => {
                    seed = d.value;
                    found = true;
                },
                _ => {},
            }
        }
        si += 1;
    }
    proof {
        if !found {
            assert(crate::emit::first_seed_exec(items@, items@.len() as int) == 0);
        }
    }
    let rix: usize = match find_run_idx(items) {
        Some(ix) => ix,
        None => {
            return Err(sim_msg("missing run statement"));
        },
    };
    let run: &RunStmt = match &items[rix] {
        Item::Run(r) => r,
        _ => {
            proof {
                assert(false);
            }
            return Err(sim_msg("missing run statement"));
        },
    };
    let duration_ns: i64 = match time_to_nanos(&run.duration, "run duration") {
        Ok(v) => v,
        Err(d) => {
            return Err(SimError { message: d.message });
        },
    };
    let step_ns: i64 = match &run.step {
        Some(q) => match time_to_nanos(q, "run step") {
            Ok(v) => v,
            Err(d) => {
                return Err(SimError { message: d.message });
            },
        },
        None => 1000000,
    };
    if duration_ns <= 0 || step_ns <= 0 {
        return Err(sim_msg("duration and step must be positive"));
    }
    if duration_ns % step_ns != 0 {
        return Err(sim_msg("duration must be divisible by step"));
    }
    let lays: Vec<LayerPlan> = match build_layers(items) {
        Ok(v) => v,
        Err(e) => {
            return Err(e);
        },
    };
    let stims: Vec<StimulusPlan> = match collect_stimuli(items, &lays) {
        Ok(v) => v,
        Err(e) => {
            return Err(e);
        },
    };
    let conns: Vec<ConnectionPlan> = match build_connections(items, &lays, step_ns) {
        Ok(v) => v,
        Err(e) => {
            return Err(e);
        },
    };
    proof {
        lemma_stimuli_wf(items@, 0, layers_view(lays@), Seq::empty());
        assert(forall|k: int|
            0 <= k < stims@.len() ==> (#[trigger] stims@[k]@).rate.wf()) by {
            assert(forall|k: int|
                0 <= k < stims@.len() ==> stims_view(stims@)[k] == #[trigger] stims@[k]@);
        }
    }
    match check_rates(&stims, lays.len(), step_ns) {
        Ok(_) => {},
        Err(e) => {
            return Err(e);
        },
    }
    let steps: u64 = (duration_ns / step_ns) as u64;
    Ok(
        SimPlan {
            duration_ns,
            step_ns,
            steps,
            seed,
            layers: lays,
            stimuli: stims,
            connections: conns,
        },
    )
}

} // verus!
