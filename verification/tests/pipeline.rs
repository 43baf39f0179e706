//! The canonical IR, the simulation plan, and the run summary.

use converge::diagnostic::{Diagnostic, Span};
use converge::emit::cvir_json;
use converge::parser::{format_diagnostic, parse_program};
use converge::sim::{build_plan, summary_json, LayerSummary, Rng, SimSummary};
use converge::validate::validate;

const HELLO: &str = "neuron LIF { tau_m = 10 ms }\nlayer X[1] : LIF\nrun for 1 ms\n";

const POISSON: &str = "\nneuron LIF { tau_m = 10 ms, v_th = 1.0 }\nlayer Input[2] : LIF\nlayer Output[2] : LIF\nconnect Input -> Output { w = 1.0, d = 1 ms }\nstimulus Input = Poisson(rate=50 Hz)\nrun for 10 ms step 1 ms\nseed 42\n";

#[test]
fn cvir_minimal_run_bytes() {
    let program = parse_program("run for 1 ms").expect("parse");
    let json = cvir_json(&program);
    let expected = "{\n  \"cvir_version\": \"0.2\",\n  \"items\": [\n    {\n      \"kind\": \"run\",\n      \"duration\": {\n        \"value\": 1,\n        \"unit\": \"ms\"\n      },\n      \"step\": {\n        \"value\": 1,\n        \"unit\": \"ms\"\n      },\n      \"seed\": 0\n    }\n\n  ]\n\n}\n";
    assert_eq!(json, expected);
}

#[test]
fn cvir_output_is_stable() {
    let program = parse_program(HELLO).expect("parse");
    let first = cvir_json(&program);
    let again = parse_program(HELLO).expect("parse");
    let second = cvir_json(&again);
    assert_eq!(first, second);
}

#[test]
fn cvir_hello_has_expected_items() {
    let program = parse_program(HELLO).expect("parse");
    validate(&program).expect("validate");
    let json = cvir_json(&program);
    assert_eq!(json.matches("\"kind\": \"neuron\"").count(), 1);
    assert_eq!(json.matches("\"kind\": \"layer\"").count(), 1);
    assert_eq!(json.matches("\"kind\": \"run\"").count(), 1);
    assert!(json.contains("\"seed\": 0"));
    assert!(json.contains("\"step\": {\n        \"value\": 1,\n        \"unit\": \"ms\"\n      }"));
}

#[test]
fn cvir_folds_seed_and_drops_seed_item() {
    let program = parse_program("seed 9\nrun for 1 ms").expect("parse");
    let json = cvir_json(&program);
    assert!(json.contains("\"seed\": 9"));
    assert!(!json.contains("\"kind\": \"seed\""));
}

#[test]
fn check_reports_all_independent_errors() {
    // a duplicate layer, an unknown neuron, and a missing run: three reports
    let src = "neuron LIF { }\nlayer A[1] : LIF\nlayer A[1] : LIF\nlayer B[1] : Ghost\n";
    let program = parse_program(src).expect("parse");
    let diags = validate(&program).expect_err("validation should fail");
    assert_eq!(diags.len(), 3);
    assert_eq!(diags[0].message, "duplicate layer `A`");
    assert_eq!(diags[1].message, "missing `run` statement");
    assert_eq!(diags[2].message, "unknown neuron type `Ghost`");
}

#[test]
fn duplicate_run_rejected() {
    let src = "run for 1 ms\nrun for 1 ms\n";
    let program = parse_program(src).expect("parse");
    let diags = validate(&program).expect_err("validation should fail");
    assert!(diags.iter().any(|d| d.message == "only one `run` statement is allowed"));
}

#[test]
fn unknown_neuron_reported_with_name() {
    let src = "layer X[1] : Ghost\nrun for 1 ms";
    let program = parse_program(src).expect("parse");
    let diags = validate(&program).expect_err("validation should fail");
    assert!(diags.iter().any(|d| d.message == "unknown neuron type `Ghost`"));
}

#[test]
fn rate_too_high_for_step() {
    let src = "neuron LIF { tau_m = 10 ms }\nlayer X[1] : LIF\nstimulus X = Poisson(rate=2 kHz)\nrun for 10 ms step 1 ms\n";
    let program = parse_program(src).expect("parse");
    validate(&program).expect("validate");
    let e = build_plan(&program).expect_err("sim should fail");
    assert_eq!(e.message, "stimulus rate too high for step");
}

#[test]
fn delay_not_divisible_by_step() {
    let src = "neuron LIF { tau_m = 10 ms }\nlayer A[1] : LIF\nlayer B[1] : LIF\nconnect A -> B { w=1.0, d=1500 us }\nrun for 10 ms step 1 ms\n";
    let program = parse_program(src).expect("parse");
    validate(&program).expect("validate");
    let e = build_plan(&program).expect_err("sim should fail");
    assert_eq!(e.message, "delay must be divisible by step");
}

#[test]
fn negative_delay_rejected() {
    let src = "neuron LIF { tau_m = 10 ms }\nlayer A[1] : LIF\nlayer B[1] : LIF\nconnect A -> B { d = -1 ms }\nrun for 10 ms\n";
    let program = parse_program(src).expect("parse");
    let e = build_plan(&program).expect_err("sim should fail");
    assert_eq!(e.message, "negative delay is not allowed");
}

#[test]
fn negative_rate_rejected() {
    let src = "neuron LIF { tau_m = 10 ms }\nlayer X[1] : LIF\nstimulus X = Poisson(rate=-5 Hz)\nrun for 1 ms\n";
    let program = parse_program(src).expect("parse");
    let diags = validate(&program).expect_err("validation should fail");
    assert!(diags.iter().any(|d| d.message == "Poisson rate must be non-negative"));
    let e = build_plan(&program).expect_err("sim should fail");
    assert_eq!(e.message, "Poisson rate must be non-negative");
}

#[test]
fn nonpositive_times_rejected() {
    let program = parse_program("run for 0 ms").expect("parse");
    let diags = validate(&program).expect_err("validation should fail");
    assert!(diags.iter().any(|d| d.message == "run duration must be positive"));
    let src = "neuron LIF { tau_m = 0 ms }\nlayer X[1] : LIF\nrun for 1 ms\n";
    let program = parse_program(src).expect("parse");
    let e = build_plan(&program).expect_err("sim should fail");
    assert_eq!(e.message, "tau_m must be positive");
}

#[test]
fn duration_must_divide_by_step() {
    let program = parse_program("run for 3 ms step 2 ms").expect("parse");
    let e = build_plan(&program).expect_err("sim should fail");
    assert_eq!(e.message, "duration must be divisible by step");
}

#[test]
fn plan_resolves_the_poisson_example() {
    let program = parse_program(POISSON).expect("parse");
    validate(&program).expect("validate");
    let plan = build_plan(&program).expect("plan");
    assert_eq!(plan.duration_ns, 10_000_000);
    assert_eq!(plan.step_ns, 1_000_000);
    assert_eq!(plan.steps, 10);
    assert_eq!(plan.seed, 42);
    assert_eq!(plan.layers.len(), 2);
    assert_eq!(plan.layers[0].name, "Input");
    assert_eq!(plan.layers[0].tau_m_ns, 10_000_000);
    assert_eq!(plan.layers[0].v_th.canonical(), "1");
    assert_eq!(plan.stimuli.len(), 1);
    assert_eq!(plan.stimuli[0].layer, 0);
    assert_eq!(plan.stimuli[0].rate.canonical(), "50");
    assert_eq!(plan.connections.len(), 1);
    assert_eq!(plan.connections[0].src, 0);
    assert_eq!(plan.connections[0].dst, 1);
    match plan.connections[0].delay {
        converge::sim::DelayDist::ConstSteps(s) => assert_eq!(s, 1),
        _ => panic!("constant delay expected"),
    }
}

#[test]
fn plan_is_deterministic() {
    let program = parse_program(POISSON).expect("parse");
    let a = build_plan(&program).expect("plan");
    let b = build_plan(&program).expect("plan");
    assert_eq!(a.duration_ns, b.duration_ns);
    assert_eq!(a.step_ns, b.step_ns);
    assert_eq!(a.steps, b.steps);
    assert_eq!(a.seed, b.seed);
    assert_eq!(a.layers.len(), b.layers.len());
    assert_eq!(a.stimuli.len(), b.stimuli.len());
    assert_eq!(a.connections.len(), b.connections.len());
}

#[test]
fn default_step_matches_explicit_one_millisecond() {
    let without = parse_program("layer X[1] : LIF\nneuron LIF { }\nrun for 4 ms\n").expect("parse");
    let with = parse_program("layer X[1] : LIF\nneuron LIF { }\nrun for 4 ms step 1 ms\n")
        .expect("parse");
    let a = build_plan(&without).expect("plan");
    let b = build_plan(&with).expect("plan");
    assert_eq!(a.step_ns, 1_000_000);
    assert_eq!(a.step_ns, b.step_ns);
    assert_eq!(a.steps, b.steps);
    let ja = cvir_json(&without);
    assert!(ja.contains("\"step\": {\n        \"value\": 1,\n        \"unit\": \"ms\"\n      }"));
}

#[test]
fn summary_json_bytes() {
    let summary = SimSummary {
        duration_ns: 10_000_000,
        step_ns: 1_000_000,
        seed: 42,
        total_spikes: 3,
        layers: vec![
            LayerSummary { name: "Input".to_string(), size: 2, spikes: 1 },
            LayerSummary { name: "Output".to_string(), size: 2, spikes: 2 },
        ],
    };
    let expected = "{\n  \"duration_ns\": 10000000,\n  \"step_ns\": 1000000,\n  \"seed\": 42,\n  \"total_spikes\": 3,\n  \"layers\": [\n    {\n      \"name\": \"Input\",\n      \"size\": 2,\n      \"spikes\": 1\n    },\n    {\n      \"name\": \"Output\",\n      \"size\": 2,\n      \"spikes\": 2\n    }\n  ]\n}\n";
    assert_eq!(summary_json(&summary), expected);
}

#[test]
fn rng_follows_the_linear_congruential_rule() {
    let mut rng = Rng::new(0);
    assert_eq!(rng.next_u64(), 1);
    assert_eq!(rng.next_u64(), 6364136223846793006);
    let mut again = Rng::new(0);
    assert_eq!(again.next_u64(), 1);
}

#[test]
fn diagnostic_renders_with_caret() {
    let src = "layer X[1] : Ghost\nrun for 1 ms";
    let d = Diagnostic::new("unknown neuron type `Ghost`".to_string())
        .with_span(Span::new(13, 18));
    let rendered = format_diagnostic(src, &d);
    let expected = "error: unknown neuron type `Ghost`\n  --> line 1, col 14\n   |\n  1 | layer X[1] : Ghost\n   |              ^^^^^\n";
    assert_eq!(rendered, expected);
}

#[test]
fn string_escapes_survive_to_the_ir() {
    let src = "neuron N { label = \"a\\n\\\"b\\\\c\" }\nrun for 1 ms";
    let program = parse_program(src).expect("parse");
    let json = cvir_json(&program);
    assert!(json.contains("\"a\\n\\\"b\\\\c\""));
}

#[test]
fn control_characters_become_unicode_escapes() {
    let src = "neuron N { label = \"a\\tb\" }\nrun for 1 ms";
    let program = parse_program(src).expect("parse");
    let json = cvir_json(&program);
    assert!(json.contains("\"a\\tb\""));
}

#[test]
fn comments_and_multibyte_text_are_skipped() {
    let src = "// préambule\nrun for 1 ms // fin\n";
    let program = parse_program(src).expect("parse");
    assert_eq!(program.items.len(), 1);
}

#[test]
fn named_and_positional_arguments_parse() {
    let src = "neuron LIF { tau_m = 10 ms }\nlayer A[1] : LIF\nlayer B[1] : LIF\nconnect A -> B { w = Uniform(0.5, 1.0), d = Normal(mu=1 ms, sigma=0 ms) }\nrun for 2 ms\n";
    let program = parse_program(src).expect("parse");
    validate(&program).expect("validate");
    let plan = build_plan(&program).expect("plan");
    match plan.connections[0].delay {
        converge::sim::DelayDist::Normal(mu, sigma) => {
            assert_eq!(mu, 1_000_000);
            assert_eq!(sigma, 0);
        }
        _ => panic!("normal delay expected"),
    }
}

#[test]
fn diagnostic_without_span_is_plain() {
    let d = Diagnostic::new("missing `run` statement".to_string());
    assert_eq!(format_diagnostic("x", &d), "missing `run` statement");
}
