//! Laws relating the toolchain's functions, stated and proved once.

use vstd::prelude::*;

use crate::ast::Item;
use crate::ast::ItemV;
use crate::ast::QuantityV;
use crate::ast::RunStmt;
use crate::emit::JwV;
use crate::emit::first_seed_exec;
use crate::emit::spec_emit_item;
use crate::lexer::DiagV;
use crate::number::digits_val;
use crate::number::pow10;
use crate::sim::dec_one;
use crate::sim::find_neuron;
use crate::sim::first_run;
use crate::sim::spec_build_conns;
use crate::sim::spec_build_layers;
use crate::sim::plan_tail;
use crate::sim::spec_build_plan;
use crate::sim::spec_collect_stimuli;
use crate::sim::LayerPlanV;
use crate::sim::StimulusPlanV;
use crate::sim::ConnectionPlanV;
use crate::units::spec_time_to_nanos;

verus! {

/// The view of the quantity `1 ms`, its spans aside.
pub open spec fn is_one_ms(q: QuantityV) -> bool {
    &&& q.value == dec_one()
    &&& q.unit matches Some(u) && u.name == "ms"@
}

/// One millisecond converts to exactly one million nanoseconds.
pub proof fn lemma_one_ms_nanos(q: QuantityV, context: Seq<char>)
    requires
        is_one_ms(q),
    ensures
        spec_time_to_nanos(q, context) == Ok::<int, DiagV>(1000000int),
{
    reveal_strlit("ms");
    reveal_strlit("s");
    reveal_strlit("us");
    reveal_strlit("ns");
    assert("ms"@.len() == 2);
    assert("s"@.len() == 1);
    assert("us"@[0] == 'u');
    assert("ms"@[0] == 'm');
    assert("ns"@[0] == 'n');
    assert(crate::units::spec_time_shift("ms"@) == Some(6nat));
    let v = q.value;
    assert(v.wf());
    assert(v.all_digits() =~= seq![1u8]);
    assert(digits_val(seq![1u8].drop_last()) == 0) by {
        assert(seq![1u8].drop_last() =~= Seq::<u8>::empty());
    }
    assert(digits_val(v.all_digits()) == 1);
    assert(pow10(1) == 10);
    assert(pow10(2) == 100);
    assert(pow10(3) == 1000);
    assert(pow10(4) == 10000);
    assert(pow10(5) == 100000);
    assert(pow10(6) == 1000000);
    assert(v.scale() == 0);
    assert(pow10(0) == 1);
    let a: int = digits_val(v.all_digits()) * pow10(6);
    vstd::arithmetic::div_mod::lemma_fundamental_div_mod_converse(a, 1, a, 0);
    assert(v.scaled_mag(6) == 1000000);
    assert(v.scaled_round(6) == 1000000);
}

/// A `run` without a step is emitted exactly as if `step 1 ms` were
/// written: the default step in the canonical IR is one millisecond.
pub proof fn lemma_default_step_emitted(st: JwV, duration: QuantityV, q: QuantityV, seed: u64)
    requires
        is_one_ms(q),
    ensures
        spec_emit_item(st, ItemV::Run { duration, step: None }, seed) == spec_emit_item(
            st,
            ItemV::Run { duration, step: Some(q) },
            seed,
        ),
{
    assert(crate::emit::default_step_dec() == dec_one());
}

/// Two item lists that differ only in one `run` item: the first has no
/// step, the second carries an explicit step of one millisecond.
pub open spec fn differ_at_default_step(vs1: Seq<ItemV>, vs2: Seq<ItemV>, i: int) -> bool {
    &&& vs1.len() == vs2.len()
    &&& 0 <= i < vs1.len()
    &&& forall|j: int| 0 <= j < vs1.len() && j != i ==> vs1[j] == vs2[j]
    &&& vs1[i] matches ItemV::Run { duration: d1, step: None } && (vs2[i] matches ItemV::Run {
        duration: d2,
        step: Some(q),
    } && d1 == d2 && is_one_ms(q))
}

proof fn lemma_first_seed_v_swap(vs1: Seq<ItemV>, vs2: Seq<ItemV>, i: int, j: int)
    requires
        differ_at_default_step(vs1, vs2, i),
        0 <= j <= vs1.len(),
    ensures
        crate::emit::first_seed_v(vs1, j) == crate::emit::first_seed_v(vs2, j),
    decreases vs1.len() - j,
{
    if j < vs1.len() {
        lemma_first_seed_v_swap(vs1, vs2, i, j + 1);
    }
}

proof fn lemma_emit_items_swap(
    st: JwV,
    vs1: Seq<ItemV>,
    vs2: Seq<ItemV>,
    i: int,
    j: int,
    seed: u64,
)
    requires
        differ_at_default_step(vs1, vs2, i),
        0 <= j <= vs1.len(),
    ensures
        crate::emit::spec_emit_items(st, vs1, j, seed) == crate::emit::spec_emit_items(
            st,
            vs2,
            j,
            seed,
        ),
    decreases j,
{
    if j > 0 {
        lemma_emit_items_swap(st, vs1, vs2, i, j - 1, seed);
        if j - 1 == i {
            let (stp, first) = crate::emit::spec_emit_items(st, vs1, j - 1, seed);
            let st0 = if !first {
                crate::emit::jw_comma(stp)
            } else {
                stp
            };
            let d1 = vs1[i]->Run_duration;
            let q = vs2[i]->Run_step->0;
            lemma_default_step_emitted(crate::emit::jw_nl(st0), d1, q, seed);
        }
    }
}

/// A `run` without a step is emitted exactly as if `step 1 ms` were
/// written, for the whole document: the two programs' canonical IR texts
/// are byte-identical.
pub proof fn lemma_default_step_cvir(vs1: Seq<ItemV>, vs2: Seq<ItemV>, i: int)
    requires
        differ_at_default_step(vs1, vs2, i),
    ensures
        crate::emit::spec_cvir(vs1) == crate::emit::spec_cvir(vs2),
{
    lemma_first_seed_v_swap(vs1, vs2, i, 0);
    let st0 = JwV { out: Seq::empty(), indent: 0, at_line_start: true };
    let st1 = crate::emit::jw_key(
        crate::emit::jw_comma_nl(
            crate::emit::jw_kv_str(crate::emit::jw_obj_begin(st0), "cvir_version"@, "0.2"@),
        ),
        "items"@,
    );
    let st2 = crate::emit::jw_array_begin(st1);
    lemma_emit_items_swap(st2, vs1, vs2, i, vs1.len() as int, crate::emit::first_seed_v(vs1, 0));
}

/// The helper shape shared by the swap lemmas below: two programs that
/// differ only in one `run` item.
pub open spec fn differ_at_run(items1: Seq<Item>, items2: Seq<Item>, i: int) -> bool {
    &&& items1.len() == items2.len()
    &&& 0 <= i < items1.len()
    &&& forall|j: int| 0 <= j < items1.len() && j != i ==> items1[j] == items2[j]
    &&& items1[i] is Run
    &&& items2[i] is Run
}

proof fn lemma_seed_swap(items1: Seq<Item>, items2: Seq<Item>, i: int, j: int)
    requires
        differ_at_run(items1, items2, i),
        0 <= j <= items1.len(),
    ensures
        first_seed_exec(items1, j) == first_seed_exec(items2, j),
    decreases items1.len() - j,
{
    if j < items1.len() {
        lemma_seed_swap(items1, items2, i, j + 1);
    }
}

proof fn lemma_find_neuron_swap(
    items1: Seq<Item>,
    items2: Seq<Item>,
    i: int,
    name: Seq<char>,
    j: int,
)
    requires
        differ_at_run(items1, items2, i),
        0 <= j <= items1.len(),
    ensures
        find_neuron(items1, j, name) == find_neuron(items2, j, name),
    decreases j,
{
    if j > 0 {
        lemma_find_neuron_swap(items1, items2, i, name, j - 1);
    }
}

proof fn lemma_layers_swap(
    items1: Seq<Item>,
    items2: Seq<Item>,
    i: int,
    j: int,
    acc: Seq<LayerPlanV>,
)
    requires
        differ_at_run(items1, items2, i),
        0 <= j <= items1.len(),
    ensures
        spec_build_layers(items1, j, acc) == spec_build_layers(items2, j, acc),
    decreases items1.len() - j,
{
    if j < items1.len() {
        match items1[j] {
            Item::Layer(d) => {
                lemma_find_neuron_swap(items1, items2, i, d.neuron.name@, items1.len() as int);
            },
            _ => {},
        }
        if j == i {
            lemma_layers_swap(items1, items2, i, j + 1, acc);
        } else {
            match items1[j] {
                Item::Layer(d) => {
                    match find_neuron(items1, items1.len() as int, d.neuron.name@) {
                        None => {},
                        Some(nd) => match crate::sim::spec_lif(nd.body@, 0, 20000000, dec_one()) {
                            Err(_) => {},
                            Ok((tau, vth)) => {
                                lemma_layers_swap(
                                    items1,
                                    items2,
                                    i,
                                    j + 1,
                                    acc.push(
                                        LayerPlanV {
                                            name: d.name.name@,
                                            size: d.size,
                                            tau_m_ns: tau,
                                            v_th: vth,
                                        },
                                    ),
                                );
                            },
                        },
                    }
                },
                _ => {
                    lemma_layers_swap(items1, items2, i, j + 1, acc);
                },
            }
        }
    }
}

proof fn lemma_stimuli_swap(
    items1: Seq<Item>,
    items2: Seq<Item>,
    i: int,
    j: int,
    lays: Seq<LayerPlanV>,
    acc: Seq<StimulusPlanV>,
)
    requires
        differ_at_run(items1, items2, i),
        0 <= j <= items1.len(),
    ensures
        spec_collect_stimuli(items1, j, lays, acc) == spec_collect_stimuli(items2, j, lays, acc),
    decreases items1.len() - j,
{
    if j < items1.len() {
        if j == i {
            lemma_stimuli_swap(items1, items2, i, j + 1, lays, acc);
        } else {
            match items1[j] {
                Item::Stimulus(d) => {
                    match crate::sim::find_layer(lays, lays.len() as int, d.layer.name@) {
                        None => {},
                        Some(ix) => match d.model {
                            crate::ast::StimulusModel::Poisson { rate } => {
                                match crate::units::spec_rate_to_hz(rate@, "Poisson rate"@) {
                                    Err(_) => {},
                                    Ok(hz) => {
                                        if hz.neg && digits_val(hz.all_digits()) != 0 {
                                        } else {
                                            lemma_stimuli_swap(
                                                items1,
                                                items2,
                                                i,
                                                j + 1,
                                                lays,
                                                acc.push(
                                                    StimulusPlanV { layer: ix, rate: hz },
                                                ),
                                            );
                                        }
                                    },
                                }
                            },
                        },
                    }
                },
                _ => {
                    lemma_stimuli_swap(items1, items2, i, j + 1, lays, acc);
                },
            }
        }
    }
}

proof fn lemma_conns_swap(
    items1: Seq<Item>,
    items2: Seq<Item>,
    i: int,
    j: int,
    lays: Seq<LayerPlanV>,
    step: int,
    acc: Seq<ConnectionPlanV>,
)
    requires
        differ_at_run(items1, items2, i),
        0 <= j <= items1.len(),
    ensures
        spec_build_conns(items1, j, lays, step, acc) == spec_build_conns(
            items2,
            j,
            lays,
            step,
            acc,
        ),
    decreases items1.len() - j,
{
    if j < items1.len() {
        if j == i {
            lemma_conns_swap(items1, items2, i, j + 1, lays, step, acc);
        } else {
            lemma_conns_swap_step(items1, items2, i, j, lays, step, acc);
        }
    }
}

/// One step of the connection swap: the item at `j` is the same in both.
proof fn lemma_conns_swap_step(
    items1: Seq<Item>,
    items2: Seq<Item>,
    i: int,
    j: int,
    lays: Seq<LayerPlanV>,
    step: int,
    acc: Seq<ConnectionPlanV>,
)
    requires
        differ_at_run(items1, items2, i),
        0 <= j < items1.len(),
        j != i,
    ensures
        spec_build_conns(items1, j, lays, step, acc) == spec_build_conns(
            items2,
            j,
            lays,
            step,
            acc,
        ),
    decreases items1.len() - j, 1int,
{
    match items1[j] {
        Item::Connect(d) => {
            lemma_conns_swap_tail(items1, items2, i, j, lays, step, acc);
        },
        _ => {
            lemma_conns_swap(items1, items2, i, j + 1, lays, step, acc);
        },
    }
}

/// The recursion of the connection swap continues past item `j`.
proof fn lemma_conns_swap_tail(
    items1: Seq<Item>,
    items2: Seq<Item>,
    i: int,
    j: int,
    lays: Seq<LayerPlanV>,
    step: int,
    acc: Seq<ConnectionPlanV>,
)
    requires
        differ_at_run(items1, items2, i),
        0 <= j < items1.len(),
        j != i,
        items1[j] is Connect,
    ensures
        spec_build_conns(items1, j, lays, step, acc) == spec_build_conns(
            items2,
            j,
            lays,
            step,
            acc,
        ),
    decreases items1.len() - j, 0int,
{
    let d = items1[j]->Connect_0;
    match crate::sim::find_layer(lays, lays.len() as int, d.src.name@) {
        None => {},
        Some(src) => match crate::sim::find_layer(lays, lays.len() as int, d.dst.name@) {
            None => {},
            Some(dst) => {
                let wres = match crate::sim::find_assign(d.body@, 0, "w"@) {
                    None => Ok(crate::sim::WeightDistV::Const(dec_one())),
                    Some(ai) => crate::sim::spec_weight_dist(d.body@[ai].value),
                };
                match wres {
                    Err(_) => {},
                    Ok(wd) => {
                        let dres = match crate::sim::find_assign(d.body@, 0, "d"@) {
                            None => Ok((Some(0int), crate::sim::DelayDist::ConstSteps(0))),
                            Some(ai) => crate::sim::spec_delay_dist(d.body@[ai].value),
                        };
                        match dres {
                            Err(_) => {},
                            Ok((cns, dd)) => {
                                let active = lays[src].size > 0 && lays[dst].size > 0;
                                match cns {
                                    Some(ns) => {
                                        if active && ns < 0 {
                                        } else if active && ns % step != 0 {
                                        } else {
                                            lemma_conns_swap(
                                                items1,
                                                items2,
                                                i,
                                                j + 1,
                                                lays,
                                                step,
                                                acc.push(
                                                    ConnectionPlanV {
                                                        src,
                                                        dst,
                                                        weight: wd,
                                                        delay: crate::sim::DelayDist::ConstSteps(
                                                            if active {
                                                                (ns / step) as u64
                                                            } else {
                                                                0
                                                            },
                                                        ),
                                                    },
                                                ),
                                            );
                                        }
                                    },
                                    None => {
                                        lemma_conns_swap(
                                            items1,
                                            items2,
                                            i,
                                            j + 1,
                                            lays,
                                            step,
                                            acc.push(
                                                ConnectionPlanV {
                                                    src,
                                                    dst,
                                                    weight: wd,
                                                    delay: dd,
                                                },
                                            ),
                                        );
                                    },
                                }
                            },
                        }
                    },
                }
            },
        },
    }
}

proof fn lemma_first_run_swap(
    items1: Seq<Item>,
    items2: Seq<Item>,
    i: int,
    r1: RunStmt,
    r2: RunStmt,
    j: int,
)
    requires
        differ_at_run(items1, items2, i),
        items1[i] == Item::Run(r1),
        items2[i] == Item::Run(r2),
        0 <= j <= items1.len(),
    ensures
        first_run(items1, j) == first_run(items2, j) || (first_run(items1, j) == Some(r1)
            && first_run(items2, j) == Some(r2)),
    decreases items1.len() - j,
{
    if j < items1.len() {
        if j != i {
            lemma_first_run_swap(items1, items2, i, r1, r2, j + 1);
        }

    }
}

/// A `run` without a step simulates exactly as if `step 1 ms` were written:
/// the two programs, alike but for that, build the same plan.
pub proof fn lemma_default_step_plan(
    items1: Seq<Item>,
    items2: Seq<Item>,
    i: int,
    r1: RunStmt,
    r2: RunStmt,
)
    requires
        differ_at_run(items1, items2, i),
        items1[i] == Item::Run(r1),
        items2[i] == Item::Run(r2),
        r1.duration == r2.duration,
        r1.step is None,
        r2.step matches Some(q) && is_one_ms(q@),
    ensures
        spec_build_plan(items1) == spec_build_plan(items2),
{
    lemma_seed_swap(items1, items2, i, 0);
    lemma_first_run_swap(items1, items2, i, r1, r2, 0);
    lemma_layers_swap(items1, items2, i, 0, Seq::empty());
    if first_run(items1, 0) == first_run(items2, 0) {
        match first_run(items1, 0) {
            None => {},
            Some(run) => {
                match spec_time_to_nanos(run.duration@, "run duration"@) {
                    Err(_) => {},
                    Ok(duration_ns) => {
                        let step_r = match run.step {
                            Some(q) => spec_time_to_nanos(q@, "run step"@),
                            None => Ok(1000000int),
                        };
                        match step_r {
                            Err(_) => {},
                            Ok(step_ns) => {
                                lemma_plan_tail_swap(items1, items2, i, duration_ns, step_ns);
                            },
                        }
                    },
                }
            },
        }
    } else {
        assert(first_run(items1, 0) == Some(r1));
        assert(first_run(items2, 0) == Some(r2));
        let q2 = r2.step->0;
        lemma_one_ms_nanos(q2@, "run step"@);
        match spec_time_to_nanos(r1.duration@, "run duration"@) {
            Err(_) => {},
            Ok(duration_ns) => {
                lemma_plan_tail_swap(items1, items2, i, duration_ns, 1000000int);
            },
        }
    }
}

/// The phases after the run parameters agree once those parameters do.
proof fn lemma_plan_tail_swap(
    items1: Seq<Item>,
    items2: Seq<Item>,
    i: int,
    duration_ns: int,
    step_ns: int,
)
    requires
        differ_at_run(items1, items2, i),
    ensures
        plan_tail(items1, duration_ns, step_ns) == plan_tail(items2, duration_ns, step_ns),
{
    lemma_seed_swap(items1, items2, i, 0);
    lemma_layers_swap(items1, items2, i, 0, Seq::empty());
    match spec_build_layers(items1, 0, Seq::empty()) {
        Err(_) => {},
        Ok(lays) => {
            lemma_stimuli_swap(items1, items2, i, 0, lays, Seq::empty());
            lemma_conns_swap(items1, items2, i, 0, lays, step_ns, Seq::empty());
        },
    }
}

} // verus!
