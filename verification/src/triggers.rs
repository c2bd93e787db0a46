use vstd::prelude::*;
use std::collections::HashMap;

verus! {

broadcast use vstd::std_specs::hash::group_hash_axioms;

/// How a trigger compares a sample with its threshold. `Lua` triggers are
/// decided by a script instead.
#[derive(Debug, Clone, Copy, PartialEq, Eq, Structural)]
pub enum Operator {
    Gt,
    Lt,
    Eq,
    Lua,
}

/// A threshold rule on one metric. The threshold is the IEEE-754 bit pattern
/// of an `f64` (`f64::to_bits`); the cooldown is in nanoseconds of monotonic
/// time.
#[derive(Debug, Clone)]
pub struct Trigger {
    pub metric_id: u32,
    pub operator: Operator,
    pub threshold_bits: u64,
    pub lua_script: Option<String>,
    pub cooldown_ns: u64,
}

/// A fired trigger: the rule group it was found under (the sample's metric
/// id, or 0 for the catch-all group) and the sample's value bits.
#[derive(Debug, Clone, Copy, PartialEq, Eq, Structural)]
pub struct TriggerAction {
    pub metric_id: u32,
    pub value_bits: u64,
}

/// `a - b`, or 0 when `b` is later than `a`.
pub open spec fn elapsed_between(earlier: u64, now: u64) -> u64 {
    if now >= earlier { (now - earlier) as u64 } else { 0 }
}

/// Whether trigger `t` is still cooling down at time `now`: a trigger of its
/// metric fired at a time less than its cooldown ago.
pub open spec fn cooling(t: Trigger, last_fired: Map<u32, u64>, now: u64) -> bool {
    last_fired.contains_key(t.metric_id) && elapsed_between(last_fired[t.metric_id], now) < t.cooldown_ns
}

/// Whether the `i`-th trigger of `ts` fires: its predicate matched (entries
/// of `matched` past its end count as no match) and it is not cooling down.
pub open spec fn fires(ts: Seq<Trigger>, matched: Seq<bool>, last_fired: Map<u32, u64>, now: u64, i: int) -> bool {
    &&& 0 <= i < ts.len()
    &&& i < matched.len()
    &&& matched[i]
    &&& !cooling(ts[i], last_fired, now)
}

/// The first trigger of `ts`, from position `from` on, that fires.
pub open spec fn first_firing_from(
    ts: Seq<Trigger>,
    matched: Seq<bool>,
    last_fired: Map<u32, u64>,
    now: u64,
    from: int,
) -> Option<int>
    decreases ts.len() - from,
{
    if from < 0 || from >= ts.len() {
        None
    } else if fires(ts, matched, last_fired, now, from) {
        Some(from)
    } else {
        first_firing_from(ts, matched, last_fired, now, from + 1)
    }
}

/// The first trigger of `ts` that fires.
pub open spec fn first_firing(ts: Seq<Trigger>, matched: Seq<bool>, last_fired: Map<u32, u64>, now: u64) -> Option<int> {
    first_firing_from(ts, matched, last_fired, now, 0)
}

/// The rules filed under metric id `k` (none when there are none).
pub open spec fn group(rules: Map<u32, Seq<Trigger>>, k: u32) -> Seq<Trigger> {
    if rules.contains_key(k) { rules[k] } else { Seq::empty() }
}

/// The outcome of checking a sample of metric `metric_id` at time `now`:
/// first the metric's own rules are tried (`matched` tells which of them
/// match the sample), then the catch-all rules under id 0 (`fallback_matched`).
/// The first trigger that fires gives the action, and the time of firing is
/// recorded under that trigger's metric id.
pub open spec fn spec_check(
    rules: Map<u32, Seq<Trigger>>,
    last_fired: Map<u32, u64>,
    metric_id: u32,
    value_bits: u64,
    now: u64,
    matched: Seq<bool>,
    fallback_matched: Seq<bool>,
) -> (Option<TriggerAction>, Map<u32, u64>) {
    let own = group(rules, metric_id);
    let all = group(rules, 0);
    match first_firing(own, matched, last_fired, now) {
        Some(i) => (
            Some(TriggerAction { metric_id, value_bits }),
            last_fired.insert(own[i].metric_id, now),
        ),
        None => match first_firing(all, fallback_matched, last_fired, now) {
            Some(j) => (
                Some(TriggerAction { metric_id: 0, value_bits }),
                last_fired.insert(all[j].metric_id, now),
            ),
            None => (None, last_fired),
        },
    }
}

/// The rules of `ts` whose metric id is `k`, in their order.
pub open spec fn rules_with_id(ts: Seq<Trigger>, k: u32) -> Seq<Trigger> {
    ts.filter(|t: Trigger| t.metric_id == k)
}

/// Whether `script` is a Lua chunk that compiles (Lua 5.4, as embedded by mlua).
pub uninterp spec fn lua_chunk_compiles(script: Seq<char>) -> bool;

/// `mlua::Lua::new().load(script).into_function()`: compiles the chunk in a
/// fresh Lua state. Claimed: it succeeds exactly when `script` compiles, a
/// property of the script's text alone (named `lua_chunk_compiles`).
#[verifier::external_body]
fn lua_compiles(script: &str) -> (b: bool)
    ensures
        b == lua_chunk_compiles(script@),
{
    mlua::Lua::new().load(script).into_function().is_ok()
}

/// A Lua script that does not compile.
#[derive(Debug)]
pub struct LuaCompileError {
    pub source: String,
}

/// Whether a rule's script, if it is a Lua rule with one, compiles.
pub open spec fn rule_compiles(t: Trigger) -> bool {
    t.operator == Operator::Lua && t.lua_script is Some ==> lua_chunk_compiles(t.lua_script->0@)
}

/// The catch-all rule a loaded script becomes: filed under metric 0, decided
/// by the script, no threshold, no cooldown.
pub open spec fn script_rule(script: String) -> Trigger {
    Trigger { metric_id: 0, operator: Operator::Lua, threshold_bits: 0, lua_script: Some(script), cooldown_ns: 0 }
}

/// The rules an engine is built from: the given ones, then one catch-all
/// rule per loaded script, in order.
pub open spec fn all_rules(triggers: Seq<Trigger>, scripts: Seq<String>) -> Seq<Trigger> {
    triggers + scripts.map_values(|s: String| script_rule(s))
}

/// Whether every loaded script and every Lua rule's script compiles.
pub open spec fn all_compile(triggers: Seq<Trigger>, scripts: Seq<String>) -> bool {
    &&& forall|i: int| 0 <= i < scripts.len() ==> lua_chunk_compiles(#[trigger] scripts[i]@)
    &&& forall|i: int| 0 <= i < triggers.len() ==> rule_compiles(#[trigger] triggers[i])
}

/// An identical copy of a trigger.
fn copy_trigger(t: &Trigger) -> (r: Trigger)
    ensures
        r == *t,
{
    Trigger {
        metric_id: t.metric_id,
        operator: t.operator,
        threshold_bits: t.threshold_bits,
        lua_script: match &t.lua_script {
            Some(s) => Some(s.clone()),
            None => None,
        },
        cooldown_ns: t.cooldown_ns,
    }
}

/// Rules grouped by metric id, with the time each metric last fired.
pub struct TriggerEngine {
    rules: HashMap<u32, Vec<Trigger>>,
    last_fired: HashMap<u32, u64>,
    metric_names: HashMap<u32, String>,
}

impl TriggerEngine {
    /// The rules, grouped by metric id, each group in the order given.
    pub closed spec fn spec_rules(self) -> Map<u32, Seq<Trigger>> {
        self.rules@.map_values(|v: Vec<Trigger>| v@)
    }

    /// The monotonic time at which each metric's trigger last fired.
    pub closed spec fn spec_last_fired(self) -> Map<u32, u64> {
        self.last_fired@
    }

    /// The names registered for metric ids.
    pub closed spec fn spec_metric_names(self) -> Map<u32, String> {
        self.metric_names@
    }

    /// An engine holding `triggers` followed by one catch-all Lua rule per
    /// script of `scripts` (the scripts found in the script directory), filed
    /// by metric id in their order; no trigger has fired yet. It fails when a
    /// loaded script, or the script of a Lua rule, does not compile.
    pub fn new(triggers: Vec<Trigger>, scripts: Vec<String>) -> (r: Result<Self, LuaCompileError>)
        ensures
            r is Err <==> !all_compile(triggers@, scripts@),
            r matches Err(e) ==> !lua_chunk_compiles(e.source@),
            r matches Ok(e) ==> {
                &&& forall|k: u32|
                    #[trigger] e.spec_rules().contains_key(k) <==> exists|i: int|
                        0 <= i < all_rules(triggers@, scripts@).len() && all_rules(triggers@, scripts@)[i].metric_id == k
                &&& forall|k: u32|
                    #[trigger] e.spec_rules().contains_key(k) ==> e.spec_rules()[k] == rules_with_id(
                        all_rules(triggers@, scripts@),
                        k,
                    )
                &&& e.spec_last_fired() == Map::<u32, u64>::empty()
                &&& e.spec_metric_names() == Map::<u32, String>::empty()
            },
    {
        let mut i: usize = 0;
        while i < scripts.len()
            invariant
                i <= scripts@.len(),
                forall|j: int| 0 <= j < i ==> lua_chunk_compiles(#[trigger] scripts@[j]@),
            decreases scripts@.len() - i,
        {
            if !lua_compiles(scripts[i].as_str()) {
                return Err(LuaCompileError { source: scripts[i].clone() });
            }
            i = i + 1;
        }
        let mut j: usize = 0;
        while j < triggers.len()
            invariant
                j <= triggers@.len(),
                forall|k: int| 0 <= k < j ==> rule_compiles(#[trigger] triggers@[k]),
            decreases triggers@.len() - j,
        {
            let t = &triggers[j];
            if t.operator == Operator::Lua {
                match &t.lua_script {
                    Some(text) => {
                        if !lua_compiles(text.as_str()) {
                            return Err(LuaCompileError { source: text.clone() });
                        }
                    },
                    None => {},
                }
            }
            j = j + 1;
        }
        let ghost given = triggers@;
        let mut all = triggers;
        let mut k: usize = 0;
        while k < scripts.len()
            invariant
                k <= scripts@.len(),
                all@ == given + scripts@.subrange(0, k as int).map_values(|s: String| script_rule(s)),
            decreases scripts@.len() - k,
        {
            all.push(Trigger {
                metric_id: 0,
                operator: Operator::Lua,
                threshold_bits: 0,
                lua_script: Some(scripts[k].clone()),
                cooldown_ns: 0,
            });
            k = k + 1;
            proof {
                assert(all@ =~= given + scripts@.subrange(0, k as int).map_values(|s: String| script_rule(s)));
            }
        }
        proof {
            assert(scripts@.subrange(0, scripts@.len() as int) =~= scripts@);
            assert(all@ =~= all_rules(given, scripts@));
        }
        Ok(Self::file_rules(all))
    }

    /// An engine holding `triggers`, filed by metric id in their order; no
    /// trigger has fired yet.
    fn file_rules(triggers: Vec<Trigger>) -> (e: Self)
        ensures
            forall|k: u32|
                #[trigger] e.spec_rules().contains_key(k) <==> exists|i: int|
                    0 <= i < triggers@.len() && triggers@[i].metric_id == k,
            forall|k: u32|
                #[trigger] e.spec_rules().contains_key(k) ==> e.spec_rules()[k] == rules_with_id(triggers@, k),
            e.spec_last_fired() == Map::<u32, u64>::empty(),
            e.spec_metric_names() == Map::<u32, String>::empty(),
    {
        let mut rules: HashMap<u32, Vec<Trigger>> = HashMap::new();
        let mut i: usize = 0;
        while i < triggers.len()
            invariant
                i <= triggers@.len(),
                forall|k: u32|
                    #[trigger] rules@.contains_key(k) <==> exists|j: int|
                        0 <= j < i && triggers@[j].metric_id == k,
                forall|k: u32|
                    #[trigger] rules@.contains_key(k) ==> rules@[k]@ == rules_with_id(
                        triggers@.subrange(0, i as int),
                        k,
                    ),
            decreases triggers@.len() - i,
        {
            let t = copy_trigger(&triggers[i]);
            let id = t.metric_id;
            let ghost prev = triggers@.subrange(0, i as int);
            let ghost next = triggers@.subrange(0, i + 1);
            proof {
                assert(next =~= prev.push(t));
                assert forall|k: u32| #[trigger] rules_with_id(next, k) == (if k == id {
                    rules_with_id(prev, k).push(t)
                } else {
                    rules_with_id(prev, k)
                }) by {
                    prev.lemma_filter_push(t, |x: Trigger| x.metric_id == k);
                }
            }
            let group_vec = match rules.remove(&id) {
                Some(mut v) => {
                    v.push(t);
                    v
                },
                None => {
                    proof {
                        let p = |x: Trigger| x.metric_id == id;
                        assert(prev.all(|x: Trigger| !p(x))) by {
                            assert forall|j: int| 0 <= j < prev.len() implies !p(#[trigger] prev[j]) by {
                                assert(triggers@[j] == prev[j]);
                            }
                        }
                        prev.lemma_all_neg_filter_empty(p);
                        assert(rules_with_id(prev, id) =~= Seq::<Trigger>::empty());
                    }
                    let mut v: Vec<Trigger> = Vec::new();
                    v.push(t);
                    v
                },
            };
            rules.insert(id, group_vec);
            i = i + 1;
            proof {
                assert forall|k: u32| #[trigger] rules@.contains_key(k) <==> exists|j: int|
                    0 <= j < i && triggers@[j].metric_id == k by {
                    if k != id && rules@.contains_key(k) {
                        let j = choose|j: int| 0 <= j < i - 1 && triggers@[j].metric_id == k;
                        assert(0 <= j < i && triggers@[j].metric_id == k);
                    }
                    if k == id {
                        assert(triggers@[i - 1].metric_id == k);
                    }
                }
            }
        }
        proof {
            assert(triggers@.subrange(0, triggers@.len() as int) =~= triggers@);
        }
        TriggerEngine { rules, last_fired: HashMap::new(), metric_names: HashMap::new() }
    }

    /// The position of the first trigger of group `key` that fires, and its
    /// metric id.
    fn find_firing(&self, key: u32, matched: &[bool], now: u64) -> (r: Option<u32>)
        ensures
            match first_firing(group(self.spec_rules(), key), matched@, self.spec_last_fired(), now) {
                Some(i) => r == Some(group(self.spec_rules(), key)[i].metric_id),
                None => r is None,
            },
    {
        let ghost ts = group(self.spec_rules(), key);
        match self.rules.get(&key) {
            None => {
                proof {
                    assert(ts =~= Seq::<Trigger>::empty());
                }
                None
            },
            Some(v) => {
                assert(v@ == ts);
                let mut i: usize = 0;
                while i < v.len()
                    invariant
                        v@ == ts,
                        ts == group(self.spec_rules(), key),
                        i <= ts.len(),
                        first_firing(ts, matched@, self.spec_last_fired(), now)
                            == first_firing_from(ts, matched@, self.spec_last_fired(), now, i as int),
                    decreases ts.len() - i,
                {
                    let t = &v[i];
                    let hit = i < matched.len() && matched[i];
                    let cool = match self.last_fired.get(&t.metric_id) {
                        Some(last) => {
                            let since: u64 = if now >= *last { now - *last } else { 0 };
                            since < t.cooldown_ns
                        },
                        None => false,
                    };
                    if hit && !cool {
                        assert(fires(ts, matched@, self.spec_last_fired(), now, i as int));
                        return Some(t.metric_id);
                    }
                    i = i + 1;
                }
                None
            },
        }
    }

    /// Checks a sample of metric `metric_id` (value bits `value_bits`) at
    /// monotonic time `now`. `matched[i]` says whether the sample satisfies
    /// the predicate of the `i`-th rule filed under `metric_id`, and
    /// `fallback_matched[i]` that of the `i`-th rule filed under 0 (see
    /// `rules_for`); missing entries count as no match. The first rule that
    /// matches and is not cooling down fires: its metric's firing time is
    /// recorded and the action is returned.
    pub fn check(
        &mut self,
        metric_id: u32,
        value_bits: u64,
        now: u64,
        matched: &[bool],
        fallback_matched: &[bool],
    ) -> (r: Option<TriggerAction>)
        ensures
            (r, final(self).spec_last_fired()) == spec_check(
                old(self).spec_rules(),
                old(self).spec_last_fired(),
                metric_id,
                value_bits,
                now,
                matched@,
                fallback_matched@,
            ),
            final(self).spec_rules() == old(self).spec_rules(),
            final(self).spec_metric_names() == old(self).spec_metric_names(),
    {
        match self.find_firing(metric_id, matched, now) {
            Some(k) => {
                self.last_fired.insert(k, now);
                return Some(TriggerAction { metric_id, value_bits });
            },
            None => {},
        }
        match self.find_firing(0, fallback_matched, now) {
            Some(k) => {
                self.last_fired.insert(k, now);
                Some(TriggerAction { metric_id: 0, value_bits })
            },
            None => None,
        }
    }

    /// A copy of the rules filed under metric id `key`, in order (empty when
    /// there are none).
    pub fn rules_for(&self, key: u32) -> (r: Vec<Trigger>)
        ensures
            r@ == group(self.spec_rules(), key),
    {
        match self.rules.get(&key) {
            None => Vec::new(),
            Some(v) => {
                let mut r: Vec<Trigger> = Vec::new();
                let mut i: usize = 0;
                while i < v.len()
                    invariant
                        v@ == group(self.spec_rules(), key),
                        i <= v@.len(),
                        r@ == v@.subrange(0, i as int),
                    decreases v@.len() - i,
                {
                    r.push(copy_trigger(&v[i]));
                    i = i + 1;
                    proof {
                        assert(r@ =~= v@.subrange(0, i as int));
                    }
                }
                proof {
                    assert(v@.subrange(0, v@.len() as int) =~= v@);
                }
                r
            },
        }
    }

    /// Records the display name of a metric id.
    pub fn register_metric_name(&mut self, id: u32, name: String)
        ensures
            final(self).spec_metric_names() == old(self).spec_metric_names().insert(id, name),
            final(self).spec_rules() == old(self).spec_rules(),
            final(self).spec_last_fired() == old(self).spec_last_fired(),
    {
        self.metric_names.insert(id, name);
    }
}

proof fn lemma_first_firing_from_fires(ts: Seq<Trigger>, matched: Seq<bool>, last_fired: Map<u32, u64>, now: u64, from: int)
    requires
        0 <= from,
    ensures
        match first_firing_from(ts, matched, last_fired, now, from) {
            Some(i) => from <= i < ts.len() && fires(ts, matched, last_fired, now, i)
                && forall|j: int| from <= j < i ==> !fires(ts, matched, last_fired, now, j),
            None => forall|j: int| from <= j < ts.len() ==> !fires(ts, matched, last_fired, now, j),
        },
    decreases ts.len() - from,
{
    if from < ts.len() && !fires(ts, matched, last_fired, now, from) {
        lemma_first_firing_from_fires(ts, matched, last_fired, now, from + 1);
    }
}

/// The trigger that `spec_check` finds is the first one of its group that
/// fires: every rule before it either did not match or was cooling down.
pub proof fn lemma_first_firing_is_first(ts: Seq<Trigger>, matched: Seq<bool>, last_fired: Map<u32, u64>, now: u64)
    ensures
        match first_firing(ts, matched, last_fired, now) {
            Some(i) => 0 <= i < ts.len() && matched[i] && !cooling(ts[i], last_fired, now)
                && forall|j: int| 0 <= j < i ==> !fires(ts, matched, last_fired, now, j),
            None => forall|j: int| 0 <= j < ts.len() ==> !fires(ts, matched, last_fired, now, j),
        },
{
    lemma_first_firing_from_fires(ts, matched, last_fired, now, 0);
}

/// Cooldown suppression: once a trigger of metric `k` fires at `fired_at`,
/// every trigger filed with metric id `k` is cooling down at any later time
/// `now` that lies less than its cooldown after `fired_at`, and is free
/// again from its cooldown on.
pub proof fn lemma_cooldown_window(u: Trigger, last_fired: Map<u32, u64>, fired_at: u64, now: u64)
    requires
        fired_at <= now,
    ensures
        cooling(u, last_fired.insert(u.metric_id, fired_at), now) <==> now - fired_at < u.cooldown_ns,
{
}

/// A check that fires records the firing time under exactly one metric id,
/// the id of the trigger that fired; every other metric's cooldown state is
/// left as it was. A check that fires nothing changes nothing.
pub proof fn lemma_check_records_one_metric(
    rules: Map<u32, Seq<Trigger>>,
    last_fired: Map<u32, u64>,
    metric_id: u32,
    value_bits: u64,
    now: u64,
    matched: Seq<bool>,
    fallback_matched: Seq<bool>,
)
    ensures
        ({
            let (r, after) = spec_check(rules, last_fired, metric_id, value_bits, now, matched, fallback_matched);
            &&& r is None ==> after == last_fired
            &&& r is Some ==> exists|k: u32| {
                &&& after == last_fired.insert(k, now)
                &&& forall|u: Trigger, t: u64|
                    u.metric_id != k ==> (cooling(u, after, t) <==> cooling(u, last_fired, t))
                &&& forall|u: Trigger, t: u64|
                    u.metric_id == k && now <= t && t - now < u.cooldown_ns ==> #[trigger] cooling(u, after, t)
            }
        }),
{
    let own = group(rules, metric_id);
    let all = group(rules, 0);
    match first_firing(own, matched, last_fired, now) {
        Some(i) => {
            let k = own[i].metric_id;
            assert(spec_check(rules, last_fired, metric_id, value_bits, now, matched, fallback_matched).1
                == last_fired.insert(k, now));
        },
        None => match first_firing(all, fallback_matched, last_fired, now) {
            Some(j) => {
                let k = all[j].metric_id;
                assert(spec_check(rules, last_fired, metric_id, value_bits, now, matched, fallback_matched).1
                    == last_fired.insert(k, now));
            },
            None => {},
        },
    }
}

/// What a check does, rule by rule. When some rule of the sample's own
/// group fires (matches and is not cooling down), the first such rule wins:
/// the action carries the sample's metric id and the firing time is recorded
/// under that rule's metric id. When no rule of the own group fires, whether
/// none matched or every matching one is cooling down, the catch-all group
/// decides alone: its first firing rule gives an action under id 0 and the
/// firing time is recorded under that rule's own metric id, leaving every
/// other id (the sample's own among them) as it was. When no rule of either
/// group fires, there is no action and nothing is recorded.
pub proof fn lemma_check_outcome(
    rules: Map<u32, Seq<Trigger>>,
    last_fired: Map<u32, u64>,
    metric_id: u32,
    value_bits: u64,
    now: u64,
    matched: Seq<bool>,
    fallback_matched: Seq<bool>,
)
    ensures
        ({
            let (r, after) = spec_check(rules, last_fired, metric_id, value_bits, now, matched, fallback_matched);
            let own = group(rules, metric_id);
            let all = group(rules, 0);
            &&& forall|i: int|
                #[trigger] fires(own, matched, last_fired, now, i)
                    && (forall|j: int| 0 <= j < i ==> !fires(own, matched, last_fired, now, j))
                    ==> r == Some(TriggerAction { metric_id, value_bits })
                        && after == last_fired.insert(own[i].metric_id, now)
            &&& (forall|i: int| !fires(own, matched, last_fired, now, i)) ==> forall|j: int|
                #[trigger] fires(all, fallback_matched, last_fired, now, j)
                    && (forall|k: int| 0 <= k < j ==> !fires(all, fallback_matched, last_fired, now, k))
                    ==> {
                        &&& r == Some(TriggerAction { metric_id: 0, value_bits })
                        &&& after == last_fired.insert(all[j].metric_id, now)
                        &&& forall|m: u32| m != all[j].metric_id ==> (#[trigger] after.contains_key(m)
                            == last_fired.contains_key(m) && (after.contains_key(m) ==> after[m] == last_fired[m]))
                    }
            &&& (forall|i: int| !fires(own, matched, last_fired, now, i))
                && (forall|j: int| !fires(all, fallback_matched, last_fired, now, j))
                ==> r is None && after == last_fired
        }),
{
    let own = group(rules, metric_id);
    let all = group(rules, 0);
    lemma_first_firing_from_fires(own, matched, last_fired, now, 0);
    lemma_first_firing_from_fires(all, fallback_matched, last_fired, now, 0);
}

/// With a single rule `t` on metric `m` (no catch-all rules) whose predicate
/// matches: the first check fires, a check less than the cooldown later is
/// suppressed, and a check a full cooldown (or more) later fires again.
pub proof fn lemma_single_rule_cooldown(
    rules: Map<u32, Seq<Trigger>>,
    t: Trigger,
    value_bits: u64,
    t0: u64,
    t1: u64,
)
    requires
        t.metric_id != 0,
        group(rules, t.metric_id) == seq![t],
        group(rules, 0) == Seq::<Trigger>::empty(),
        t0 <= t1,
    ensures
        ({
            let m = t.metric_id;
            let (r0, after0) = spec_check(rules, Map::empty(), m, value_bits, t0, seq![true], Seq::empty());
            let (r1, _) = spec_check(rules, after0, m, value_bits, t1, seq![true], Seq::empty());
            &&& r0 == Some(TriggerAction { metric_id: m, value_bits })
            &&& after0 == Map::<u32, u64>::empty().insert(m, t0)
            &&& (t1 - t0 < t.cooldown_ns ==> r1 is None)
            &&& (t1 - t0 >= t.cooldown_ns ==> r1 == Some(TriggerAction { metric_id: m, value_bits }))
        }),
{
    let m = t.metric_id;
    let ts = seq![t];
    let empty = Map::<u32, u64>::empty();
    assert(fires(ts, seq![true], empty, t0, 0));
    assert(first_firing(ts, seq![true], empty, t0) == Some(0int));
    let after0 = empty.insert(m, t0);
    assert(first_firing_from(Seq::<Trigger>::empty(), Seq::<bool>::empty(), after0, t1, 0) is None);
    assert(first_firing_from(ts, seq![true], after0, t1, 1) is None);
    if t1 - t0 < t.cooldown_ns {
        assert(!fires(ts, seq![true], after0, t1, 0));
        assert(first_firing(ts, seq![true], after0, t1) is None);
    } else {
        assert(fires(ts, seq![true], after0, t1, 0));
        assert(first_firing(ts, seq![true], after0, t1) == Some(0int));
    }
}

/// Checking the metric's own rules first, with no catch-all matches, and
/// only when nothing fires checking again with the catch-all matches gives
/// the same outcome as one check with both.
pub proof fn lemma_check_own_rules_first(
    rules: Map<u32, Seq<Trigger>>,
    last_fired: Map<u32, u64>,
    metric_id: u32,
    value_bits: u64,
    now: u64,
    matched: Seq<bool>,
    fallback_matched: Seq<bool>,
)
    ensures
        ({
            let first = spec_check(rules, last_fired, metric_id, value_bits, now, matched, Seq::empty());
            let both = spec_check(rules, last_fired, metric_id, value_bits, now, matched, fallback_matched);
            &&& first.0 is Some ==> first == both
            &&& first.0 is None ==> first.1 == last_fired
                && spec_check(rules, first.1, metric_id, value_bits, now, matched, fallback_matched) == both
        }),
{
    lemma_first_firing_from_fires(group(rules, 0), Seq::<bool>::empty(), last_fired, now, 0);
    let f = first_firing(group(rules, 0), Seq::<bool>::empty(), last_fired, now);
    if f is Some {
        let j = f->0;
        assert(fires(group(rules, 0), Seq::<bool>::empty(), last_fired, now, j));
    }
}

} // verus!
