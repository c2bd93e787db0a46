use vstd::prelude::*;
use vstd::string::StringExecFns;

use crate::config::types::{Config, Lifecycle, ModuleConfig};
use crate::protocol::{hash_metric_id, spec_metric_id};
use crate::triggers::{Operator, Trigger};

verus! {

/// The bit pattern of the `f64` 1.0.
pub const ONE_BITS: u64 = 0x3ff0_0000_0000_0000;

/// The bit pattern of the `f64` 0.95.
pub const CPU_LIMIT_BITS: u64 = 0x3fee_6666_6666_6666;

/// Thirty seconds, in nanoseconds.
pub const ALIVE_COOLDOWN_NS: u64 = 30_000_000_000;

/// Sixty seconds, in nanoseconds.
pub const CPU_COOLDOWN_NS: u64 = 60_000_000_000;

/// The metric a persistent module reports its liveness under:
/// `plugin.<name>.alive`.
pub open spec fn alive_metric(name: Seq<char>) -> Seq<char> {
    "plugin."@ + name + ".alive"@
}

/// The trigger kept for a persistent module: its liveness metric equal to 1,
/// at most once per 30 s.
pub open spec fn alive_trigger(name: Seq<char>) -> Trigger {
    Trigger {
        metric_id: spec_metric_id(alive_metric(name)),
        operator: Operator::Eq,
        threshold_bits: ONE_BITS,
        lua_script: None,
        cooldown_ns: ALIVE_COOLDOWN_NS,
    }
}

/// The CPU trigger: `internal.cpu.usage` above 0.95, at most once per 60 s.
pub open spec fn cpu_trigger() -> Trigger {
    Trigger {
        metric_id: spec_metric_id("internal.cpu.usage"@),
        operator: Operator::Gt,
        threshold_bits: CPU_LIMIT_BITS,
        lua_script: None,
        cooldown_ns: CPU_COOLDOWN_NS,
    }
}

/// The names of the persistent modules, in order.
pub open spec fn persistent_names(modules: Seq<(String, ModuleConfig)>) -> Seq<Seq<char>>
    decreases modules.len(),
{
    if modules.len() == 0 {
        Seq::empty()
    } else {
        let rest = persistent_names(modules.drop_last());
        if modules.last().1.lifecycle == Lifecycle::Persistent {
            rest.push(modules.last().0@)
        } else {
            rest
        }
    }
}

/// Whether some module of `modules` is named `name` and persistent.
pub open spec fn has_persistent_module(modules: Seq<(String, ModuleConfig)>, name: Seq<char>) -> bool {
    exists|j: int|
        #![trigger modules[j]]
        0 <= j < modules.len() && modules[j].1.lifecycle == Lifecycle::Persistent && modules[j].0@ == name
}

/// Exactly the persistent modules get a name, in module order: the names are
/// those of the modules whose lifecycle is `Persistent`, so there are as many
/// as there are persistent modules, each belongs to a persistent module, and
/// no ephemeral module contributes one.
pub proof fn lemma_persistent_names_are_persistent_modules(modules: Seq<(String, ModuleConfig)>)
    ensures
        persistent_names(modules) == modules.filter(
            |m: (String, ModuleConfig)| m.1.lifecycle == Lifecycle::Persistent,
        ).map_values(|m: (String, ModuleConfig)| m.0@),
        persistent_names(modules).len() == modules.filter(
            |m: (String, ModuleConfig)| m.1.lifecycle == Lifecycle::Persistent,
        ).len(),
        forall|i: int| 0 <= i < persistent_names(modules).len() ==> has_persistent_module(
            modules,
            #[trigger] persistent_names(modules)[i],
        ),
{
    let p = |m: (String, ModuleConfig)| m.1.lifecycle == Lifecycle::Persistent;
    let f = |m: (String, ModuleConfig)| m.0@;
    lemma_persistent_names_filter(modules);
    let kept = modules.filter(p);
    assert forall|i: int| 0 <= i < persistent_names(modules).len() implies has_persistent_module(
        modules,
        #[trigger] persistent_names(modules)[i],
    ) by {
        let m = kept[i];
        modules.lemma_filter_pred(p, i);
        assert(kept.contains(m));
        modules.lemma_filter_contains_rev(p, m);
        let j = choose|j: int| 0 <= j < modules.len() && modules[j] == m;
        assert(persistent_names(modules)[i] == f(m));
    }
}

proof fn lemma_persistent_names_filter(modules: Seq<(String, ModuleConfig)>)
    ensures
        persistent_names(modules) == modules.filter(
            |m: (String, ModuleConfig)| m.1.lifecycle == Lifecycle::Persistent,
        ).map_values(|m: (String, ModuleConfig)| m.0@),
    decreases modules.len(),
{
    let p = |m: (String, ModuleConfig)| m.1.lifecycle == Lifecycle::Persistent;
    let f = |m: (String, ModuleConfig)| m.0@;
    if modules.len() == 0 {
        assert(modules.filter(p) =~= Seq::<(String, ModuleConfig)>::empty());
        assert(persistent_names(modules) =~= modules.filter(p).map_values(f));
    } else {
        let front = modules.drop_last();
        let m = modules.last();
        lemma_persistent_names_filter(front);
        assert(modules =~= front.push(m));
        front.lemma_filter_push(m, p);
        assert(persistent_names(modules) =~= modules.filter(p).map_values(f));
    }
}

/// The triggers the configuration implies: one liveness trigger per
/// persistent module, in module order, then the CPU trigger.
pub fn build_triggers_from_config(cfg: &Config) -> (r: Vec<Trigger>)
    ensures
        r@ == persistent_names(cfg.modules@).map_values(|n: Seq<char>| alive_trigger(n)).push(cpu_trigger()),
{
    let mut triggers: Vec<Trigger> = Vec::new();
    let prefix = "plugin.";
    let suffix = ".alive";
    proof {
        reveal_strlit("plugin.");
        reveal_strlit(".alive");
    }
    let mut i: usize = 0;
    while i < cfg.modules.len()
        invariant
            i <= cfg.modules@.len(),
            prefix@ == "plugin."@,
            suffix@ == ".alive"@,
            triggers@ == persistent_names(cfg.modules@.subrange(0, i as int)).map_values(
                |n: Seq<char>| alive_trigger(n),
            ),
        decreases cfg.modules@.len() - i,
    {
        let ghost before = cfg.modules@.subrange(0, i as int);
        proof {
            assert(cfg.modules@.subrange(0, i + 1).drop_last() =~= before);
        }
        let (name, module_cfg) = &cfg.modules[i];
        if module_cfg.lifecycle == Lifecycle::Persistent {
            let mut metric = prefix.to_owned();
            metric.append(name.as_str());
            metric.append(suffix);
            assert(metric@ == alive_metric(name@));
            triggers.push(Trigger {
                metric_id: hash_metric_id(metric.as_str()),
                operator: Operator::Eq,
                threshold_bits: ONE_BITS,
                lua_script: None,
                cooldown_ns: ALIVE_COOLDOWN_NS,
            });
        }
        i = i + 1;
        proof {
            assert(triggers@ =~= persistent_names(cfg.modules@.subrange(0, i as int)).map_values(
                |n: Seq<char>| alive_trigger(n),
            ));
        }
    }
    proof {
        assert(cfg.modules@.subrange(0, cfg.modules@.len() as int) =~= cfg.modules@);
    }
    let cpu = "internal.cpu.usage";
    triggers.push(Trigger {
        metric_id: hash_metric_id(cpu),
        operator: Operator::Gt,
        threshold_bits: CPU_LIMIT_BITS,
        lua_script: None,
        cooldown_ns: CPU_COOLDOWN_NS,
    });
    triggers
}

} // verus!
