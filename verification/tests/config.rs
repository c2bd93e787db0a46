use unshroud::config::defaults;
use unshroud::config::rules::build_triggers_from_config;
use unshroud::config::types::{Config, CoreConfig, Lifecycle, ModuleConfig};
use unshroud::protocol::hash_metric_id;
use unshroud::triggers::Operator;

const SEC: u64 = 1_000_000_000;

fn core_settings() -> CoreConfig {
    CoreConfig {
        poll_interval_ms: 1000,
        buffer_capacity: 1024,
        output_dir: "/tmp".to_string(),
        lua_triggers_dir: String::new(),
        socket_path: "/tmp/test.sock".to_string(),
    }
}

#[test]
fn test_build_triggers_from_empty_config() {
    let cfg = Config { core: core_settings(), modules: Vec::new() };
    let triggers = build_triggers_from_config(&cfg);
    assert_eq!(triggers.len(), 1);
    assert_eq!(triggers[0].metric_id, hash_metric_id("internal.cpu.usage"));
}

#[test]
fn test_build_triggers_with_persistent_modules() {
    let modules = vec![
        (
            "netmon".to_string(),
            ModuleConfig {
                binary: "/usr/bin/netmon".to_string(),
                memory_limit_mb: 64,
                lifecycle: Lifecycle::Persistent,
            },
        ),
        (
            "diskmon".to_string(),
            ModuleConfig {
                binary: "/usr/bin/diskmon".to_string(),
                memory_limit_mb: 32,
                lifecycle: Lifecycle::Ephemeral,
            },
        ),
    ];
    let cfg = Config { core: core_settings(), modules };

    let triggers = build_triggers_from_config(&cfg);
    assert_eq!(triggers.len(), 2);

    let plugin_trigger = triggers.iter().find(|t| t.metric_id == hash_metric_id("plugin.netmon.alive"));
    assert!(plugin_trigger.is_some());
    assert_eq!(plugin_trigger.unwrap().cooldown_ns, 30 * SEC);
}

#[test]
fn test_build_triggers_cpu_threshold() {
    let cfg = Config { core: core_settings(), modules: Vec::new() };
    let triggers = build_triggers_from_config(&cfg);
    let cpu_trigger = triggers.iter().find(|t| t.metric_id == hash_metric_id("internal.cpu.usage"));
    assert!(cpu_trigger.is_some());
    assert_eq!(f64::from_bits(cpu_trigger.unwrap().threshold_bits), 0.95);
    assert_eq!(cpu_trigger.unwrap().cooldown_ns, 60 * SEC);
}

#[test]
fn alive_triggers_come_first_in_module_order() {
    let m = |l| ModuleConfig { binary: String::new(), memory_limit_mb: 1, lifecycle: l };
    let cfg = Config {
        core: core_settings(),
        modules: vec![
            ("b".to_string(), m(Lifecycle::Persistent)),
            ("x".to_string(), m(Lifecycle::Ephemeral)),
            ("a".to_string(), m(Lifecycle::Persistent)),
        ],
    };
    let t = build_triggers_from_config(&cfg);
    assert_eq!(t.len(), 3);
    assert_eq!(t[0].metric_id, hash_metric_id("plugin.b.alive"));
    assert_eq!(t[1].metric_id, hash_metric_id("plugin.a.alive"));
    assert_eq!(t[0].operator, Operator::Eq);
    assert_eq!(f64::from_bits(t[0].threshold_bits), 1.0);
    assert!(t[0].lua_script.is_none());
    assert_eq!(t[2].operator, Operator::Gt);
}

#[test]
fn defaults_match_the_documented_values() {
    assert_eq!(defaults::poll_interval_ms(), 1000);
    assert_eq!(defaults::buffer_capacity(), 1024);
    assert_eq!(defaults::output_dir(), "/var/lib/ada");
    assert_eq!(defaults::memory_limit_mb(), 64);
    assert_eq!(Lifecycle::default(), Lifecycle::Ephemeral);
}
