//! Map `[AITriggerTypes]` at run time: which trigger of a house is picked
//! (top team priority first, then by dynamic weight), how weights drift,
//! cooldowns, difficulty gates and per-house switches.

use std::collections::HashMap;

use vstd::prelude::*;
use vstd::std_specs::iter::IteratorSpec;

use crate::text::{eq_ignore_ascii_case, str_eq_ignore_ascii_case};

verus! {

broadcast use vstd::std_specs::hash::group_hash_axioms;

/// Cooldown (ticks) after a trigger queued its teams.
pub const AI_TRIGGER_COOLDOWN_TICKS: u32 = 90;

/// A trigger that passed its conditions this tick, as the pick sees it.
#[derive(Clone, Copy, Debug)]
pub struct TriggerCandidate {
    /// Priority of the trigger's team type (0 when the team is unknown).
    pub priority: i32,
    /// Current effective weight.
    pub weight: u32,
}

/// Highest team priority among the candidates (0 for none).
pub open spec fn max_priority(c: Seq<TriggerCandidate>) -> i32
    decreases c.len(),
{
    if c.len() == 0 {
        0
    } else if c.len() == 1 {
        c[0].priority
    } else {
        let m = max_priority(c.drop_last());
        if c.last().priority > m {
            c.last().priority
        } else {
            m
        }
    }
}

/// Indices of the candidates with priority `p`, in order.
pub open spec fn top_pool(c: Seq<TriggerCandidate>, p: i32) -> Seq<int>
    decreases c.len(),
{
    if c.len() == 0 {
        Seq::empty()
    } else {
        let rest = top_pool(c.drop_last(), p);
        if c.last().priority == p {
            rest.push(c.len() - 1)
        } else {
            rest
        }
    }
}

/// Weights of the candidates at `ix`.
pub open spec fn weights_of(c: Seq<TriggerCandidate>, ix: Seq<int>) -> Seq<nat> {
    ix.map_values(|i: int| c[i].weight as nat)
}

/// Sum of `ws`.
pub open spec fn total(ws: Seq<nat>) -> nat
    decreases ws.len(),
{
    if ws.len() == 0 {
        0
    } else {
        ws[0] + total(ws.drop_first())
    }
}

/// Position picked by roll value `r`: the first position whose weight
/// exceeds what is left of `r`, or the last one.
pub open spec fn select_pos(ws: Seq<nat>, r: int) -> int
    decreases ws.len(),
{
    if ws.len() <= 1 {
        0
    } else if r < ws[0] {
        0
    } else {
        1 + select_pos(ws.drop_first(), r - ws[0])
    }
}

/// Candidate picked for `roll`: the only one, or among those of top
/// priority the one the roll (modulo their total weight) lands on; the first
/// of them when they weigh nothing.
pub open spec fn pick(c: Seq<TriggerCandidate>, roll: u64) -> Option<int> {
    if c.len() == 0 {
        None
    } else if c.len() == 1 {
        Some(0)
    } else {
        let ix = top_pool(c, max_priority(c));
        let ws = weights_of(c, ix);
        if total(ws) == 0 {
            Some(ix[0])
        } else {
            Some(ix[select_pos(ws, roll as int % total(ws) as int)])
        }
    }
}

/// The highest priority is one of the candidates' and none exceeds it.
proof fn lemma_max_priority(c: Seq<TriggerCandidate>)
    requires
        c.len() > 0,
    ensures
        exists|i: int| 0 <= i < c.len() && (#[trigger] c[i]).priority == max_priority(c),
        forall|i: int| 0 <= i < c.len() ==> (#[trigger] c[i]).priority <= max_priority(c),
    decreases c.len(),
{
    if c.len() > 1 {
        let init = c.drop_last();
        lemma_max_priority(init);
        let j = choose|j: int| 0 <= j < init.len() && (#[trigger] init[j]).priority == max_priority(init);
        assert(c[j] == init[j]);
        assert forall|i: int| 0 <= i < c.len() implies (#[trigger] c[i]).priority <= max_priority(c) by {
            if i < c.len() - 1 {
                assert(c[i] == init[i]);
            }
        }
        if c.last().priority > max_priority(init) {
            assert(c[c.len() - 1].priority == max_priority(c));
        }
    } else {
        assert(c[0].priority == max_priority(c));
    }
}

/// The pool holds exactly the in-range indices of priority `p`, in
/// increasing order.
proof fn lemma_top_pool(c: Seq<TriggerCandidate>, p: i32)
    ensures
        forall|k: int| 0 <= k < top_pool(c, p).len() ==> 0 <= #[trigger] top_pool(c, p)[k] < c.len()
            && c[top_pool(c, p)[k]].priority == p,
        forall|i: int| 0 <= i < c.len() && (#[trigger] c[i]).priority == p ==> top_pool(c, p).contains(i),
        top_pool(c, p).len() <= c.len(),
    decreases c.len(),
{
    if c.len() > 0 {
        let init = c.drop_last();
        lemma_top_pool(init, p);
        assert forall|k: int| 0 <= k < top_pool(c, p).len() implies 0 <= #[trigger] top_pool(c, p)[k] < c.len()
            && c[top_pool(c, p)[k]].priority == p by {
            if k < top_pool(init, p).len() {
                assert(top_pool(c, p)[k] == top_pool(init, p)[k]);
                assert(c[top_pool(init, p)[k]] == init[top_pool(init, p)[k]]);
            }
        }
        assert forall|i: int| 0 <= i < c.len() && (#[trigger] c[i]).priority == p implies top_pool(
            c,
            p,
        ).contains(i) by {
            if i < c.len() - 1 {
                assert(c[i] == init[i]);
                let k = choose|k: int| 0 <= k < top_pool(init, p).len() && top_pool(init, p)[k] == i;
                assert(top_pool(c, p)[k] == i);
            } else {
                assert(top_pool(c, p)[top_pool(c, p).len() - 1] == i);
            }
        }
    }
}

/// Sum of `ws` where a prefix of it is known.
proof fn lemma_total_skip(ws: Seq<nat>, k: int)
    requires
        0 <= k < ws.len(),
    ensures
        total(ws.skip(k)) == ws[k] + total(ws.skip(k + 1)),
{
    assert(ws.skip(k).drop_first() =~= ws.skip(k + 1));
}

/// Weights each below `m` sum to at most `m` times their number.
proof fn lemma_total_bound(ws: Seq<nat>, m: nat)
    requires
        forall|i: int| 0 <= i < ws.len() ==> ws[i] <= m,
    ensures
        total(ws) <= ws.len() * m,
    decreases ws.len(),
{
    if ws.len() > 0 {
        lemma_total_bound(ws.drop_first(), m);
        let n = ws.len();
        assert((n - 1) * m + m == n * m) by (nonlinear_arith);
    }
}

/// The weights of the top-priority pool sum to at most `u32::MAX` per
/// candidate.
pub proof fn lemma_pool_total_bound(c: Seq<TriggerCandidate>)
    ensures
        total(weights_of(c, top_pool(c, max_priority(c)))) <= c.len() * 0xFFFF_FFFFnat,
{
    let ix = top_pool(c, max_priority(c));
    lemma_top_pool(c, max_priority(c));
    let ws = weights_of(c, ix);
    lemma_total_bound(ws, 0xFFFF_FFFFnat);
    let a = ix.len();
    let b = c.len();
    assert(a * 0xFFFF_FFFFnat <= b * 0xFFFF_FFFFnat) by (nonlinear_arith)
        requires
            a <= b,
    ;
}

/// The picked candidate, if any; `None` only without candidates.
pub fn pick_weighted_trigger(cands: &[TriggerCandidate], roll: u64) -> (r: Option<usize>)
    requires
        cands@.len() >= 2 ==> total(weights_of(cands@, top_pool(cands@, max_priority(cands@)))) <= u64::MAX,
    ensures
        match r {
            Some(i) => pick(cands@, roll) == Some(i as int),
            None => pick(cands@, roll) is None,
        },
{
    let n = cands.len();
    if n == 0 {
        return None;
    }
    if n == 1 {
        return Some(0);
    }
    let mut best: i32 = cands[0].priority;
    let mut i: usize = 1;
    while i < n
        invariant
            n == cands@.len(),
            1 <= i <= n,
            best == max_priority(cands@.take(i as int)),
        decreases n - i,
    {
        proof {
            assert(cands@.take(i + 1).drop_last() =~= cands@.take(i as int));
        }
        if cands[i].priority > best {
            best = cands[i].priority;
        }
        i = i + 1;
    }
    assert(cands@.take(n as int) =~= cands@);
    let ghost c = cands@;
    let mut pool: Vec<usize> = Vec::new();
    let mut j: usize = 0;
    while j < n
        invariant
            n == c.len(),
            c == cands@,
            j <= n,
            pool@.map_values(|x: usize| x as int) == top_pool(c.take(j as int), best),
        decreases n - j,
    {
        proof {
            assert(c.take(j + 1).drop_last() =~= c.take(j as int));
        }
        if cands[j].priority == best {
            let ghost before = pool@;
            pool.push(j);
            assert(pool@.map_values(|x: usize| x as int) =~= before.map_values(|x: usize| x as int).push(
                j as int,
            ));
        }
        j = j + 1;
    }
    assert(c.take(n as int) =~= c);
    let ghost ix = top_pool(c, best);
    let ghost ws = weights_of(c, ix);
    proof {
        lemma_max_priority(c);
        lemma_top_pool(c, best);
        let w = choose|w: int| 0 <= w < c.len() && (#[trigger] c[w]).priority == max_priority(c);
        assert(ix.contains(w));
    }
    let m = pool.len();
    assert(m == ix.len());
    let mut sum: u64 = 0;
    let mut k: usize = 0;
    assert(ws.skip(0) =~= ws);
    while k < m
        invariant
            m == pool@.len(),
            m == ix.len(),
            ws == weights_of(c, ix),
            c == cands@,
            pool@.map_values(|x: usize| x as int) == ix,
            forall|q: int| 0 <= q < ix.len() ==> 0 <= #[trigger] ix[q] < c.len(),
            total(ws) <= u64::MAX,
            k <= m,
            sum + total(ws.skip(k as int)) == total(ws),
        decreases m - k,
    {
        proof {
            lemma_total_skip(ws, k as int);
            assert(pool@[k as int] as int == ix[k as int]);
        }
        sum = sum + cands[pool[k]].weight as u64;
        k = k + 1;
    }
    assert(ws.skip(m as int) =~= Seq::<nat>::empty());
    assert(pool@[0] as int == ix[0]);
    if sum == 0 {
        return Some(pool[0]);
    }
    let ghost r0 = roll as int % sum as int;
    let mut left: u64 = roll % sum;
    let mut k: usize = 0;
    assert(ws.skip(0) =~= ws);
    while k + 1 < m
        invariant
            m == pool@.len(),
            m == ix.len(),
            m >= 1,
            ws == weights_of(c, ix),
            c == cands@,
            pool@.map_values(|x: usize| x as int) == ix,
            forall|q: int| 0 <= q < ix.len() ==> 0 <= #[trigger] ix[q] < c.len(),
            k < m,
            c.len() >= 2,
            ix == top_pool(c, best),
            best == max_priority(c),
            sum > 0,
            sum as int == total(ws),
            r0 == roll as int % sum as int,
            select_pos(ws, r0) == k + select_pos(ws.skip(k as int), left as int),
        decreases m - k,
    {
        let w = cands[pool[k]].weight as u64;
        proof {
            assert(pool@[k as int] as int == ix[k as int]);
            assert(ws.skip(k as int)[0] == ws[k as int]);
            assert(ws.skip(k as int).drop_first() =~= ws.skip(k + 1));
        }
        if left < w {
            proof {
                assert(ws[k as int] == w as nat);
                assert(ws.skip(k as int).len() >= 2);
                assert(select_pos(ws.skip(k as int), left as int) == 0);
            }
            return Some(pool[k]);
        }
        left = left - w;
        k = k + 1;
    }
    proof {
        assert(pool@[k as int] as int == ix[k as int]);
    }
    Some(pool[k])
}

/// Where the roll lands is fixed by the running sums of the weights: with
/// a roll value below their total, the picked position `k` is the one with
/// `sum(ws[..k]) <= r < sum(ws[..k + 1])`.
pub proof fn law_pick_follows_weights(ws: Seq<nat>, r: int)
    requires
        0 <= r < total(ws),
    ensures
        0 <= select_pos(ws, r) < ws.len(),
        total(ws.take(select_pos(ws, r))) <= r < total(ws.take(select_pos(ws, r) + 1)),
    decreases ws.len(),
{
    assert(ws.len() > 0);
    assert(ws.take(0) =~= Seq::<nat>::empty());
    let one = ws.take(1);
    assert(one.drop_first() =~= Seq::<nat>::empty());
    if ws.len() == 1 || r < ws[0] {
        if ws.len() == 1 {
            assert(ws.drop_first() =~= Seq::<nat>::empty());
        }
    } else {
        let rest = ws.drop_first();
        law_pick_follows_weights(rest, r - ws[0]);
        let k = select_pos(rest, r - ws[0]);
        assert(ws.take(k + 1).drop_first() =~= rest.take(k));
        assert(ws.take(k + 2).drop_first() =~= rest.take(k + 1));
    }
}

/// The picked trigger always has the top team priority among the
/// candidates.
pub proof fn law_pick_has_top_priority(c: Seq<TriggerCandidate>, roll: u64)
    requires
        c.len() > 0,
    ensures
        pick(c, roll) matches Some(i) && 0 <= i < c.len() && forall|j: int|
            0 <= j < c.len() ==> (#[trigger] c[j]).priority <= c[i].priority,
{
    lemma_max_priority(c);
    if c.len() >= 2 {
        let p = max_priority(c);
        lemma_top_pool(c, p);
        let ix = top_pool(c, p);
        let ws = weights_of(c, ix);
        let w = choose|w: int| 0 <= w < c.len() && (#[trigger] c[w]).priority == p;
        assert(ix.contains(w));
        if total(ws) > 0 {
            law_pick_follows_weights(ws, roll as int % total(ws) as int);
            assert(ws.len() == ix.len());
        }
    }
}

/// Whether a trigger is switched on for the session's difficulty: `Easy`
/// and `Hard` (ASCII case ignored) use their own flag, anything else the
/// normal one.
pub open spec fn enabled_for_difficulty(difficulty: &str, easy: bool, normal: bool, hard: bool) -> bool {
    if str_eq_ignore_ascii_case(difficulty, "Easy") {
        easy
    } else if str_eq_ignore_ascii_case(difficulty, "Hard") {
        hard
    } else {
        normal
    }
}

/// Whether a trigger is switched on for the session's difficulty.
pub fn ai_trigger_enabled_for_difficulty(difficulty: &str, easy: bool, normal: bool, hard: bool) -> (r: bool)
    ensures
        r == enabled_for_difficulty(difficulty, easy, normal, hard),
{
    if eq_ignore_ascii_case(difficulty, "Easy") {
        easy
    } else if eq_ignore_ascii_case(difficulty, "Hard") {
        hard
    } else {
        normal
    }
}

/// `x` kept within `[lo, hi]`.
pub open spec fn clamp(x: u32, lo: u32, hi: u32) -> u32 {
    if x < lo {
        lo
    } else if x > hi {
        hi
    } else {
        x
    }
}

/// Weight after one nudge from `cur` toward `target`: the target is first
/// kept within `[max(min_weight, 1), max(max_weight, that)]`, then the
/// weight moves halfway (rounded down), never below 1.
pub open spec fn nudged(cur: u32, min_weight: u32, max_weight: u32, target: u32) -> u32 {
    let lo: u32 = if min_weight > 1 {
        min_weight
    } else {
        1
    };
    let hi: u32 = if max_weight > lo {
        max_weight
    } else {
        lo
    };
    let half = (cur + clamp(target, lo, hi)) / 2;
    if half > 1 {
        half as u32
    } else {
        1
    }
}

/// Run-time state of the map's AI triggers.
#[derive(Debug)]
pub struct AiTriggerRuntime {
    /// Global switch (`AI triggers begin/stop`).
    pub enabled: bool,
    /// Remaining cooldown ticks per trigger id.
    cooldowns: HashMap<u32, u32>,
    /// Dynamic weight per trigger id (the definition's weight until nudged).
    current_weights: HashMap<u32, u32>,
    /// Houses whose triggers are stopped, each listed once.
    disabled_houses: Vec<u32>,
    /// Session difficulty label.
    difficulty: String,
    /// Whether the session is a skirmish (then only skirmish triggers run).
    skirmish: bool,
}

/// Mathematical value of an [`AiTriggerRuntime`].
pub struct AiTriggerView {
    pub enabled: bool,
    pub cooldowns: Map<u32, u32>,
    pub weights: Map<u32, u32>,
    pub disabled: Seq<u32>,
    pub difficulty: Seq<char>,
    pub skirmish: bool,
}

impl View for AiTriggerRuntime {
    type V = AiTriggerView;

    closed spec fn view(&self) -> AiTriggerView {
        AiTriggerView {
            enabled: self.enabled,
            cooldowns: self.cooldowns@,
            weights: self.current_weights@,
            disabled: self.disabled_houses@,
            difficulty: self.difficulty@,
            skirmish: self.skirmish,
        }
    }
}

/// Current weight of trigger `id` whose definition weighs `start`.
pub open spec fn weight_of(weights: Map<u32, u32>, id: u32, start: u32) -> u32 {
    if weights.contains_key(id) {
        weights[id]
    } else if start > 1 {
        start
    } else {
        1
    }
}

/// Weight used by the pick: the current weight, at least 1.
pub open spec fn effective_weight_of(weights: Map<u32, u32>, id: u32, start: u32) -> u32 {
    if weight_of(weights, id, start) > 1 {
        weight_of(weights, id, start)
    } else {
        1
    }
}

/// Cooldown left for trigger `id` (0 when none was started).
pub open spec fn cooldown_of(cooldowns: Map<u32, u32>, id: u32) -> u32 {
    if cooldowns.contains_key(id) {
        cooldowns[id]
    } else {
        0
    }
}

/// Every cooldown one tick further (none below zero).
pub open spec fn cooled(cooldowns: Map<u32, u32>) -> Map<u32, u32> {
    cooldowns.map_values(|v: u32| if v > 0 {
        (v - 1) as u32
    } else {
        v
    })
}

impl AiTriggerView {
    /// Each stopped house is listed once.
    pub open spec fn wf(self) -> bool {
        self.disabled.no_duplicates()
    }
}

impl AiTriggerRuntime {
    /// Seeds the run time from the map: on when the map has triggers.
    pub fn from_map(has_triggers: bool) -> (rt: Self)
        ensures
            rt@.wf(),
            rt@.enabled == has_triggers,
            rt@.cooldowns == Map::<u32, u32>::empty(),
            rt@.weights == Map::<u32, u32>::empty(),
            rt@.disabled == Seq::<u32>::empty(),
            rt@.difficulty == "Normal"@,
            !rt@.skirmish,
    {
        let rt = AiTriggerRuntime {
            enabled: has_triggers,
            cooldowns: HashMap::new(),
            current_weights: HashMap::new(),
            disabled_houses: Vec::new(),
            difficulty: String::from_str("Normal"),
            skirmish: false,
        };
        assert(rt.disabled_houses@.no_duplicates());
        rt
    }

    /// Whether the triggers are switched on.
    pub fn is_enabled(&self) -> (r: bool)
        ensures
            r == self@.enabled,
    {
        self.enabled
    }

    /// Takes the session's difficulty and skirmish flag (every tick).
    pub fn sync_session_hints(&mut self, difficulty: &str, skirmish: bool)
        ensures
            final(self)@ == (AiTriggerView { difficulty: difficulty@, skirmish, ..old(self)@ }),
    {
        self.difficulty = String::from_str(difficulty);
        self.skirmish = skirmish;
    }

    /// Current dynamic weight of trigger `id`; `max(start, 1)` before any
    /// nudge.
    pub fn current_weight(&self, id: u32, start: u32) -> (w: u32)
        ensures
            w == weight_of(self@.weights, id, start),
    {
        match self.current_weights.get(&id) {
            Some(w) => *w,
            None => if start > 1 {
                start
            } else {
                1
            },
        }
    }

    /// Weight the pick uses for trigger `id`: its current weight, at least 1.
    pub fn effective_weight(&self, id: u32, start: u32) -> (w: u32)
        ensures
            w == effective_weight_of(self@.weights, id, start),
    {
        let w = self.current_weight(id, start);
        if w > 1 {
            w
        } else {
            1
        }
    }

    /// Moves trigger `id`'s weight halfway toward `target`, kept within the
    /// trigger's weight bounds.
    pub fn nudge_weight_toward(&mut self, id: u32, start: u32, min_weight: u32, max_weight: u32, target: u32)
        ensures
            final(self)@ == (AiTriggerView {
                weights: old(self)@.weights.insert(
                    id,
                    nudged(effective_weight_of(old(self)@.weights, id, start), min_weight, max_weight, target),
                ),
                ..old(self)@
            }),
    {
        let cur = self.effective_weight(id, start);
        let lo: u32 = if min_weight > 1 {
            min_weight
        } else {
            1
        };
        let hi: u32 = if max_weight > lo {
            max_weight
        } else {
            lo
        };
        let t: u32 = if target < lo {
            lo
        } else if target > hi {
            hi
        } else {
            target
        };
        let half = ((cur as u64 + t as u64) / 2) as u32;
        let next = if half > 1 {
            half
        } else {
            1
        };
        self.current_weights.insert(id, next);
    }

    /// Cooldown left for trigger `id`.
    pub fn cooldown_remaining(&self, id: u32) -> (c: u32)
        ensures
            c == cooldown_of(self@.cooldowns, id),
    {
        match self.cooldowns.get(&id) {
            Some(c) => *c,
            None => 0,
        }
    }

    /// Starts trigger `id`'s cooldown after it queued its teams.
    pub fn start_cooldown(&mut self, id: u32)
        ensures
            final(self)@ == (AiTriggerView {
                cooldowns: old(self)@.cooldowns.insert(id, AI_TRIGGER_COOLDOWN_TICKS),
                ..old(self)@
            }),
    {
        self.cooldowns.insert(id, AI_TRIGGER_COOLDOWN_TICKS);
    }

    /// Whether house `id`'s triggers are stopped.
    pub fn is_house_disabled(&self, id: u32) -> (r: bool)
        ensures
            r == self@.disabled.contains(id),
    {
        let mut i: usize = 0;
        while i < self.disabled_houses.len()
            invariant
                i <= self.disabled_houses@.len(),
                forall|j: int| 0 <= j < i ==> self.disabled_houses@[j] != id,
            decreases self.disabled_houses@.len() - i,
        {
            if self.disabled_houses[i] == id {
                return true;
            }
            i = i + 1;
        }
        false
    }

    /// First gate of a trigger this tick: its cooldown is over, it runs in
    /// this kind of session, and it is on for the difficulty.
    pub fn may_fire(&self, id: u32, for_skirmish: bool, easy: bool, normal: bool, hard: bool) -> (r: bool)
        ensures
            r == (cooldown_of(self@.cooldowns, id) == 0 && !(self@.skirmish && !for_skirmish)
                && enabled_for_difficulty_text(self@.difficulty, easy, normal, hard)),
    {
        if self.cooldown_remaining(id) > 0 {
            return false;
        }
        if self.skirmish && !for_skirmish {
            return false;
        }
        ai_trigger_enabled_for_difficulty(self.difficulty.as_str(), easy, normal, hard)
    }
}

/// `m0` with the cooldowns of the keys in `done` advanced one tick.
pub open spec fn cooled_on(m0: Map<u32, u32>, done: Seq<u32>) -> Map<u32, u32> {
    Map::new(
        |k: u32| m0.contains_key(k),
        |k: u32|
            if done.contains(k) && m0[k] > 0 {
                (m0[k] - 1) as u32
            } else {
                m0[k]
            },
    )
}

impl AiTriggerRuntime {
    /// One tick of every cooldown (each one above zero drops by one).
    pub fn tick_cooldowns(&mut self)
        ensures
            final(self)@ == (AiTriggerView { cooldowns: cooled(old(self)@.cooldowns), ..old(self)@ }),
    {
        let ghost m0 = self.cooldowns@;
        let ghost all = vstd::std_specs::hash::spec_hash_map_iter(&self.cooldowns).remaining();
        let mut pairs: Vec<(u32, u32)> = Vec::new();
        for p in it: self.cooldowns.iter()
            invariant
                self.enabled == old(self).enabled,
                self.current_weights@ == old(self).current_weights@,
                self.disabled_houses@ == old(self).disabled_houses@,
                self.difficulty@ == old(self).difficulty@,
                self.skirmish == old(self).skirmish,
                self.cooldowns@ == m0,
                all == vstd::std_specs::hash::spec_hash_map_iter(&self.cooldowns).remaining(),
                it.seq() == all,
                pairs@.len() == it.index(),
                forall|j: int| 0 <= j < pairs@.len() ==> #[trigger] pairs@[j] == (*all[j].0, *all[j].1),
        {
            pairs.push((*p.0, *p.1));
        }
        let ghost keys = pairs@.map_values(|q: (u32, u32)| q.0);
        proof {
            assert forall|j: int| 0 <= j < pairs@.len() implies m0.contains_key(#[trigger] pairs@[j].0) && m0[pairs@[j].0]
                == pairs@[j].1 by {
            }
            assert forall|k: u32| m0.contains_key(k) implies keys.contains(k) by {
                let v = all;
                assert(v.contains((&k, &m0[k])));
                let j = choose|j: int| 0 <= j < v.len() && v[j] == (&k, &m0[k]);
                assert(pairs@[j] == (k, m0[k]));
                assert(keys[j] == k);
            }
        }
        let mut j: usize = 0;
        while j < pairs.len()
            invariant
                j <= pairs@.len(),
                keys == pairs@.map_values(|q: (u32, u32)| q.0),
                forall|i: int| 0 <= i < pairs@.len() ==> m0.contains_key(#[trigger] pairs@[i].0) && m0[pairs@[i].0]
                    == pairs@[i].1,
                self.enabled == old(self).enabled,
                self.current_weights@ == old(self).current_weights@,
                self.disabled_houses@ == old(self).disabled_houses@,
                self.difficulty@ == old(self).difficulty@,
                self.skirmish == old(self).skirmish,
                self.cooldowns@ == cooled_on(m0, keys.take(j as int)),
            decreases pairs@.len() - j,
        {
            let (k, v) = pairs[j];
            let nv = if v > 0 {
                v - 1
            } else {
                v
            };
            self.cooldowns.insert(k, nv);
            proof {
                let before = keys.take(j as int);
                let after = keys.take(j + 1);
                assert(after =~= before.push(k));
                assert(pairs@[j as int] == (k, v));
                assert(keys[j as int] == k);
                assert forall|x: u32| after.contains(x) == (before.contains(x) || x == k) by {
                    if before.contains(x) {
                        let i = choose|i: int| 0 <= i < before.len() && before[i] == x;
                        assert(after[i] == x);
                    }
                    if after.contains(x) && x != k {
                        let i = choose|i: int| 0 <= i < after.len() && after[i] == x;
                        assert(i < before.len());
                        assert(before[i] == x);
                    }
                    if x == k {
                        assert(after[j as int] == k);
                    }
                }
                assert(self.cooldowns@ =~= cooled_on(m0, after));
            }
            j = j + 1;
        }
        proof {
            assert(keys.take(j as int) =~= keys);
            assert(self.cooldowns@ =~= cooled(m0));
        }
    }
}

/// [`enabled_for_difficulty`] on a difficulty given as text.
pub open spec fn enabled_for_difficulty_text(difficulty: Seq<char>, easy: bool, normal: bool, hard: bool) -> bool {
    if crate::text::text_eq_ignore_ascii_case(difficulty, "Easy"@) {
        easy
    } else if crate::text::text_eq_ignore_ascii_case(difficulty, "Hard"@) {
        hard
    } else {
        normal
    }
}

/// The list without `id`, order kept.
pub open spec fn without_house(list: Seq<u32>, id: u32) -> Seq<u32>
    decreases list.len(),
{
    if list.len() == 0 {
        Seq::empty()
    } else {
        let rest = without_house(list.drop_last(), id);
        if list.last() != id {
            rest.push(list.last())
        } else {
            rest
        }
    }
}

/// Runs or stops AI triggers: with no house (or an empty name) the global
/// switch, otherwise the switch of `house`, whose id `house_id` the
/// definitions give (an unknown house changes nothing).
pub fn set_ai_triggers_for_house(rt: &mut AiTriggerRuntime, house: Option<&str>, house_id: Option<u32>, enabled: bool)
    requires
        old(rt)@.wf(),
    ensures
        final(rt)@.wf(),
        match house {
            None => final(rt)@ == (AiTriggerView { enabled, ..old(rt)@ }),
            Some(h) => if h@.len() == 0 {
                final(rt)@ == (AiTriggerView { enabled, ..old(rt)@ })
            } else {
                match house_id {
                    None => final(rt)@ == old(rt)@,
                    Some(id) => if enabled {
                        final(rt)@ == (AiTriggerView { disabled: without_house(old(rt)@.disabled, id), ..old(rt)@ })
                    } else if old(rt)@.disabled.contains(id) {
                        final(rt)@ == old(rt)@
                    } else {
                        final(rt)@ == (AiTriggerView { disabled: old(rt)@.disabled.push(id), ..old(rt)@ })
                    },
                }
            },
        },
{
    let global = match house {
        None => true,
        Some(h) => h.is_empty(),
    };
    if global {
        rt.enabled = enabled;
        return;
    }
    let id = match house_id {
        Some(id) => id,
        None => return,
    };
    if enabled {
        rt.enable_house(id);
    } else if !rt.is_house_disabled(id) {
        rt.disable_house(id);
    }
}

impl AiTriggerRuntime {
    /// Removes `id` from the stopped houses.
    fn enable_house(&mut self, id: u32)
        requires
            old(self)@.wf(),
        ensures
            final(self)@.wf(),
            final(self)@ == (AiTriggerView { disabled: without_house(old(self)@.disabled, id), ..old(self)@ }),
    {
        let ghost old_list = self.disabled_houses@;
        let mut kept: Vec<u32> = Vec::new();
        let mut i: usize = 0;
        while i < self.disabled_houses.len()
            invariant
                old_list == self.disabled_houses@,
                old_list.no_duplicates(),
                i <= old_list.len(),
                kept@ == without_house(old_list.take(i as int), id),
            decreases old_list.len() - i,
        {
            let x = self.disabled_houses[i];
            proof {
                assert(old_list.take(i + 1).drop_last() =~= old_list.take(i as int));
            }
            if x != id {
                kept.push(x);
            }
            i = i + 1;
        }
        assert(old_list.take(i as int) =~= old_list);
        proof {
            lemma_filter_no_duplicates(old_list, id);
        }
        self.disabled_houses = kept;
    }

    /// Adds `id`, which is not listed yet, to the stopped houses.
    fn disable_house(&mut self, id: u32)
        requires
            old(self)@.wf(),
            !old(self)@.disabled.contains(id),
        ensures
            final(self)@.wf(),
            final(self)@ == (AiTriggerView { disabled: old(self)@.disabled.push(id), ..old(self)@ }),
    {
        self.disabled_houses.push(id);
        proof {
            let s = self.disabled_houses@;
            assert forall|a: int, b: int| 0 <= a < s.len() && 0 <= b < s.len() && a != b implies s[a] != s[b] by {
                if a < s.len() - 1 && b < s.len() - 1 {
                    assert(old(self)@.disabled[a] == s[a]);
                    assert(old(self)@.disabled[b] == s[b]);
                } else if a == s.len() - 1 {
                    assert(old(self)@.disabled[b] == s[b]);
                } else {
                    assert(old(self)@.disabled[a] == s[a]);
                }
            }
        }
    }
}

/// What stays after dropping `id`: exactly the other entries.
proof fn lemma_without_house_contains(list: Seq<u32>, id: u32, x: u32)
    ensures
        without_house(list, id).contains(x) <==> (list.contains(x) && x != id),
    decreases list.len(),
{
    if list.len() > 0 {
        let init = list.drop_last();
        lemma_without_house_contains(init, id, x);
        assert(list =~= init.push(list.last()));
        if list.contains(x) && x != id && x != list.last() {
            let k = choose|k: int| 0 <= k < list.len() && list[k] == x;
            assert(init[k] == x);
        }
        if init.contains(x) {
            let k = choose|k: int| 0 <= k < init.len() && init[k] == x;
            assert(list[k] == x);
        }
        if without_house(list, id).contains(x) && list.last() != id {
            let r = without_house(list, id);
            let k = choose|k: int| 0 <= k < r.len() && r[k] == x;
            if k < r.len() - 1 {
                assert(without_house(init, id)[k] == x);
            }
        }
        if without_house(init, id).contains(x) && list.last() != id {
            let k = choose|k: int| 0 <= k < without_house(init, id).len() && without_house(init, id)[k] == x;
            assert(without_house(list, id)[k] == x);
        }
        if x == list.last() && x != id {
            assert(without_house(list, id)[without_house(list, id).len() - 1] == x);
        }
    }
}

/// Dropping an id keeps a list free of repeats.
proof fn lemma_filter_no_duplicates(list: Seq<u32>, id: u32)
    requires
        list.no_duplicates(),
    ensures
        without_house(list, id).no_duplicates(),
    decreases list.len(),
{
    if list.len() > 0 {
        let init = list.drop_last();
        assert(init.no_duplicates());
        lemma_filter_no_duplicates(init, id);
        if list.last() != id {
            let ri = without_house(init, id);
            let r = without_house(list, id);
            assert(!init.contains(list.last()));
            lemma_without_house_contains(init, id, list.last());
            assert forall|a: int, b: int| 0 <= a < r.len() && 0 <= b < r.len() && a != b implies r[a] != r[b] by {
                if a < r.len() - 1 && b < r.len() - 1 {
                    assert(r[a] == ri[a]);
                    assert(r[b] == ri[b]);
                } else if a == r.len() - 1 {
                    assert(r[b] == ri[b]);
                    assert(ri.contains(ri[b]));
                } else {
                    assert(r[a] == ri[a]);
                    assert(ri.contains(ri[a]));
                }
            }
        }
    }
}

/// `n` ticks of every cooldown.
pub open spec fn cooled_times(m: Map<u32, u32>, n: nat) -> Map<u32, u32>
    decreases n,
{
    if n == 0 {
        m
    } else {
        cooled(cooled_times(m, (n - 1) as nat))
    }
}

/// A trigger that just queued its teams stays quiet for exactly
/// [`AI_TRIGGER_COOLDOWN_TICKS`] ticks: after `n` ticks its cooldown is
/// `90 - n`, and zero from then on.
pub proof fn law_cooldown_counts_down(m: Map<u32, u32>, id: u32, n: nat)
    ensures
        cooldown_of(cooled_times(m.insert(id, AI_TRIGGER_COOLDOWN_TICKS), n), id) == if n
            <= AI_TRIGGER_COOLDOWN_TICKS {
            AI_TRIGGER_COOLDOWN_TICKS - n
        } else {
            0
        },
    decreases n,
{
    if n > 0 {
        law_cooldown_counts_down(m, id, (n - 1) as nat);
        let prev = cooled_times(m.insert(id, AI_TRIGGER_COOLDOWN_TICKS), (n - 1) as nat);
        lemma_cooled_keeps_keys(m.insert(id, AI_TRIGGER_COOLDOWN_TICKS), (n - 1) as nat, id);
        assert(cooled(prev)[id] == if prev[id] > 0 {
            (prev[id] - 1) as u32
        } else {
            prev[id]
        });
    }
}

/// Ticking cooldowns never drops a trigger's entry.
proof fn lemma_cooled_keeps_keys(m: Map<u32, u32>, n: nat, id: u32)
    requires
        m.contains_key(id),
    ensures
        cooled_times(m, n).contains_key(id),
    decreases n,
{
    if n > 0 {
        lemma_cooled_keeps_keys(m, (n - 1) as nat, id);
    }
}

/// One nudge moves a weight halfway toward the (bounded) target: the new
/// weight lies between the old weight and that target.
pub proof fn law_nudge_moves_toward_target(cur: u32, min_weight: u32, max_weight: u32, target: u32)
    requires
        cur >= 1,
    ensures
        ({
            let lo: u32 = if min_weight > 1 {
                min_weight
            } else {
                1
            };
            let hi: u32 = if max_weight > lo {
                max_weight
            } else {
                lo
            };
            let t = clamp(target, lo, hi);
            let next = nudged(cur, min_weight, max_weight, target);
            &&& lo <= t <= hi
            &&& (cur <= t ==> cur <= next <= t)
            &&& (t <= cur ==> t <= next <= cur)
        }),
{
}

/// Stopping a house lists it; running it again removes it; other houses
/// keep their state either way.
pub proof fn law_house_switches(list: Seq<u32>, id: u32, other: u32)
    requires
        other != id,
    ensures
        !without_house(list, id).contains(id),
        without_house(list, id).contains(other) == list.contains(other),
        list.push(id).contains(id),
        list.push(id).contains(other) == list.contains(other),
{
    lemma_without_house_contains(list, id, id);
    lemma_without_house_contains(list, id, other);
    assert(list.push(id)[list.len() as int] == id);
    if list.contains(other) {
        let k = choose|k: int| 0 <= k < list.len() && list[k] == other;
        assert(list.push(id)[k] == other);
    }
    if list.push(id).contains(other) {
        let k = choose|k: int| 0 <= k < list.push(id).len() && list.push(id)[k] == other;
        assert(list[k] == other);
    }
}

} // verus!
