use unshroud::protocol::hash_metric_id;
use unshroud::triggers::{Operator, Trigger, TriggerAction, TriggerEngine};

const MS: u64 = 1_000_000;

fn engine_of(rules: Vec<Trigger>) -> TriggerEngine {
    TriggerEngine::new(rules, Vec::new()).unwrap()
}

fn make_trigger(id: &str, op: Operator, thr: f64, cd_ms: u64) -> Trigger {
    Trigger {
        metric_id: hash_metric_id(id),
        operator: op,
        threshold_bits: thr.to_bits(),
        lua_script: None,
        cooldown_ns: cd_ms * MS,
    }
}

/// Whether `value` satisfies a comparison rule (the predicate the agent
/// evaluates for each rule before asking the engine).
fn satisfies(t: &Trigger, value: f64) -> bool {
    let thr = f64::from_bits(t.threshold_bits);
    match t.operator {
        Operator::Gt => value > thr,
        Operator::Lt => value < thr,
        Operator::Eq => (value - thr).abs() < 1e-6,
        Operator::Lua => false,
    }
}

/// Checks a sample the way the agent does: evaluates each candidate rule's
/// predicate, then lets the engine decide.
fn check(engine: &mut TriggerEngine, metric_id: u32, value: f64, now: u64) -> Option<TriggerAction> {
    let own: Vec<bool> = engine.rules_for(metric_id).iter().map(|t| satisfies(t, value)).collect();
    let all: Vec<bool> = engine.rules_for(0).iter().map(|t| satisfies(t, value)).collect();
    engine.check(metric_id, value.to_bits(), now, &own, &all)
}

#[test]
fn test_fires_on_gt() {
    let mut engine = engine_of(vec![make_trigger("cpu", Operator::Gt, 0.8, 0)]);
    assert!(check(&mut engine, hash_metric_id("cpu"), 0.85, 0).is_some());
}

#[test]
fn test_does_not_fire_on_unmet() {
    let mut engine = engine_of(vec![make_trigger("cpu", Operator::Gt, 0.8, 0)]);
    assert!(check(&mut engine, hash_metric_id("cpu"), 0.7, 0).is_none());
}

#[test]
fn test_cooldown_suppresses() {
    let mut engine = engine_of(vec![make_trigger("mem", Operator::Lt, 0.2, 100)]);
    assert!(check(&mut engine, hash_metric_id("mem"), 0.1, 0).is_some());
    assert!(check(&mut engine, hash_metric_id("mem"), 0.05, 0).is_none());
    // 150 ms later
    assert!(check(&mut engine, hash_metric_id("mem"), 0.15, 150 * MS).is_some());
}

#[test]
fn cooldown_ends_exactly_after_its_length() {
    let mut engine = engine_of(vec![make_trigger("mem", Operator::Lt, 0.2, 100)]);
    let id = hash_metric_id("mem");
    assert!(check(&mut engine, id, 0.1, 5 * MS).is_some());
    assert!(check(&mut engine, id, 0.1, 105 * MS - 1).is_none());
    assert!(check(&mut engine, id, 0.1, 105 * MS).is_some());
    // a clock reading before the last firing counts as no time passed
    assert!(check(&mut engine, id, 0.1, 0).is_none());
}

#[test]
fn test_different_metrics_independent() {
    let mut engine = engine_of(vec![
        make_trigger("a", Operator::Eq, 1.0, 100),
        make_trigger("b", Operator::Eq, 1.0, 100),
    ]);
    assert!(check(&mut engine, hash_metric_id("a"), 1.0, 0).is_some());
    assert!(check(&mut engine, hash_metric_id("b"), 1.0, 0).is_some());
}

#[test]
fn action_names_the_group_and_carries_the_value() {
    let mut engine = engine_of(vec![make_trigger("cpu", Operator::Gt, 0.8, 0)]);
    let id = hash_metric_id("cpu");
    assert_eq!(
        check(&mut engine, id, 0.9, 0),
        Some(TriggerAction { metric_id: id, value_bits: 0.9f64.to_bits() })
    );
}

#[test]
fn catch_all_rules_fire_under_id_zero() {
    let script = Trigger {
        metric_id: 0,
        operator: Operator::Lua,
        threshold_bits: 0,
        lua_script: Some("return true".to_string()),
        cooldown_ns: 0,
    };
    let mut engine = engine_of(vec![make_trigger("cpu", Operator::Gt, 0.8, 0), script]);
    let id = hash_metric_id("cpu");
    assert_eq!(engine.rules_for(0).len(), 1);
    assert_eq!(engine.rules_for(id).len(), 1);
    assert_eq!(engine.rules_for(12345).len(), 0);
    // The metric's own rule does not match, the catch-all one does.
    let r = engine.check(id, 0.5f64.to_bits(), 0, &[false], &[true]);
    assert_eq!(r, Some(TriggerAction { metric_id: 0, value_bits: 0.5f64.to_bits() }));
    // The metric's own rule wins when both match.
    let r = engine.check(id, 0.9f64.to_bits(), 0, &[true], &[true]);
    assert_eq!(r, Some(TriggerAction { metric_id: id, value_bits: 0.9f64.to_bits() }));
    // Missing match entries count as no match.
    assert_eq!(engine.check(id, 0, 0, &[], &[]), None);
}

#[test]
fn rules_keep_their_order_within_a_metric() {
    let mut engine = engine_of(vec![
        make_trigger("m", Operator::Gt, 10.0, 1000),
        make_trigger("other", Operator::Gt, 0.0, 0),
        make_trigger("m", Operator::Lt, 1.0, 0),
    ]);
    let rules = engine.rules_for(hash_metric_id("m"));
    assert_eq!(rules.len(), 2);
    assert_eq!(rules[0].operator, Operator::Gt);
    assert_eq!(rules[1].operator, Operator::Lt);
    let id = hash_metric_id("m");
    assert!(check(&mut engine, id, 20.0, 0).is_some());
    // Both rules share the metric's firing time; the second one's cooldown
    // is 0, so it may fire at once.
    assert!(check(&mut engine, id, 0.5, 0).is_some());
    // The first one is cooling down (1000 ms).
    assert!(check(&mut engine, id, 20.0, 10 * MS).is_none());
    engine.register_metric_name(id, "m".to_string());
}

#[test]
fn loaded_scripts_become_catch_all_rules() {
    let e = TriggerEngine::new(
        vec![make_trigger("cpu", Operator::Gt, 0.8, 0)],
        vec!["return value > 0.5".to_string(), "return true".to_string()],
    )
    .unwrap();
    let all = e.rules_for(0);
    assert_eq!(all.len(), 2);
    assert_eq!(all[0].operator, Operator::Lua);
    assert_eq!(all[0].lua_script.as_deref(), Some("return value > 0.5"));
    assert_eq!(all[1].lua_script.as_deref(), Some("return true"));
    assert_eq!(all[0].threshold_bits, 0);
    assert_eq!(all[0].cooldown_ns, 0);
    assert_eq!(e.rules_for(hash_metric_id("cpu")).len(), 1);
}

#[test]
fn scripts_that_do_not_compile_are_refused() {
    let err = TriggerEngine::new(Vec::new(), vec!["return value >".to_string()]).err().unwrap();
    assert_eq!(err.source, "return value >");
    let bad_rule = Trigger {
        metric_id: 5,
        operator: Operator::Lua,
        threshold_bits: 0,
        lua_script: Some("if then".to_string()),
        cooldown_ns: 0,
    };
    let err = TriggerEngine::new(vec![bad_rule.clone()], Vec::new()).err().unwrap();
    assert_eq!(err.source, "if then");
    // A comparison rule's text is not compiled.
    let not_lua = Trigger { operator: Operator::Gt, ..bad_rule };
    assert!(TriggerEngine::new(vec![not_lua], Vec::new()).is_ok());
}
