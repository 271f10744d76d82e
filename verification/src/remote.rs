//! The remote-inference decision engine: it fingerprints the observation,
//! answers from its cache when it can, degrades to a cyclic fallback list
//! after repeated failures, and otherwise plans a request for the remote
//! text-generation service. The caller performs the network exchange and
//! hands the outcome back; both halves of the decision are verified, and the
//! reply grammar is parsed by a verified function.

use vstd::prelude::*;
use vstd::string::StringExecFns;
use crate::cache::{cache_has_key, cache_idx_of_key, spec_cache_insert, spec_live, spec_lookup};
use crate::cache::{CachedDecision, DecisionCache};
use crate::geom::Vec3Fx;
use crate::model::{clone_action, is_ally, spec_is_ally};
use crate::model::{spec_sat_add_u32, spec_sat_add_u64};
use crate::model::{AgentAction, AgentError, AgentId, AgentInfo, GameState, ObjectInfo};
use crate::text::{fmt_milli, fmt_u128, spec_dec_digits, spec_fmt_milli, spec_replace, str_replace};
use crate::trusted::new_agent_id;

verus! {

/// How long a cached decision answers, in milliseconds.
pub const CACHE_TTL_MS: u64 = 2_000;

/// How many entries the decision cache holds.
pub const CACHE_CAPACITY: usize = 100;

/// How many conversation-history entries are kept.
pub const HISTORY_CAPACITY: usize = 10;

/// After this many consecutive failures the remote call is bypassed.
pub const FAILURE_THRESHOLD: u32 = 3;

/// A request for the remote text-generation service. Temperature and
/// nucleus bound are fixed-point thousandths.
#[derive(Clone, Debug)]
pub struct LLMRequest {
    pub model: String,
    pub prompt: String,
    pub max_tokens: u32,
    pub temperature: u32,
    pub top_p: u32,
    pub stop_sequences: Option<Vec<String>>,
    pub system_prompt: Option<String>,
}

/// What the remote service answered.
#[derive(Clone, Debug)]
pub struct LLMResponse {
    pub text: String,
    pub tokens_used: u32,
    pub processing_time_ms: u64,
    pub model_name: String,
}

/// The engine's immutable service configuration. Temperature and nucleus
/// bound are fixed-point thousandths; the timeout is in milliseconds.
#[derive(Clone, Debug)]
pub struct LLMConfig {
    pub model_name: String,
    pub llm_service_url: String,
    pub max_tokens: u32,
    pub temperature: u32,
    pub top_p: u32,
    pub timeout_ms: u64,
    pub system_prompt: String,
    pub action_prompt_template: String,
}

impl Default for LLMConfig {
    fn default() -> (r: LLMConfig)
        ensures
            r.model_name@ == "llama2:7b"@,
            r.llm_service_url@ == "http://localhost:8000"@,
            r.max_tokens == 150,
            r.temperature == 700,
            r.top_p == 900,
            r.timeout_ms == 5_000,
            r.system_prompt@ ==
                "You are an AI agent in a combat arena. You must make tactical decisions to survive and eliminate enemies. Be strategic and decisive."@,
            r.action_prompt_template@ ==
                "Game State: {state}\n\nAvailable Actions: Move(direction), Attack(target_id), UseItem(item), Communicate(message), Wait, Defend\n\nChoose your action:"@,
    {
        LLMConfig {
            model_name: String::from_str("llama2:7b"),
            llm_service_url: String::from_str("http://localhost:8000"),
            max_tokens: 150,
            temperature: 700,
            top_p: 900,
            timeout_ms: 5_000,
            system_prompt: String::from_str(
                "You are an AI agent in a combat arena. You must make tactical decisions to survive and eliminate enemies. Be strategic and decisive.",
            ),
            action_prompt_template: String::from_str(
                "Game State: {state}\n\nAvailable Actions: Move(direction), Attack(target_id), UseItem(item), Communicate(message), Wait, Defend\n\nChoose your action:",
            ),
        }
    }
}

/// Running performance statistics. The average response time is kept
/// incrementally, in integer milliseconds.
#[derive(Clone, Copy, Debug, PartialEq, Eq, Structural)]
pub struct LLMStats {
    pub total_requests: u64,
    pub successful_requests: u64,
    pub failed_requests: u64,
    pub total_tokens_used: u64,
    pub avg_response_time_ms: u64,
    pub min_response_time_ms: u64,
    pub max_response_time_ms: u64,
}

impl Default for LLMStats {
    fn default() -> (r: LLMStats)
        ensures
            r == LLMStats::spec_zero(),
    {
        LLMStats {
            total_requests: 0,
            successful_requests: 0,
            failed_requests: 0,
            total_tokens_used: 0,
            avg_response_time_ms: 0,
            min_response_time_ms: 0,
            max_response_time_ms: 0,
        }
    }
}

impl LLMStats {
    pub open spec fn spec_zero() -> LLMStats {
        LLMStats {
            total_requests: 0,
            successful_requests: 0,
            failed_requests: 0,
            total_tokens_used: 0,
            avg_response_time_ms: 0,
            min_response_time_ms: 0,
            max_response_time_ms: 0,
        }
    }
}

/// The statistics after one successful exchange that took `latency_ms` and
/// spent `tokens`: all success counters advance, the latency extremes widen,
/// and the running average moves by the incremental rule
/// `avg_new = (avg_old * (n - 1) + sample) / n`.
pub open spec fn spec_stats_success(st: LLMStats, latency_ms: u64, tokens: u32) -> LLMStats {
    let n = spec_sat_add_u64(st.successful_requests, 1);
    let avg = ((st.avg_response_time_ms * (n - 1) + latency_ms) / (n as int)) as u64;
    LLMStats {
        total_requests: spec_sat_add_u64(st.total_requests, 1),
        successful_requests: n,
        failed_requests: st.failed_requests,
        total_tokens_used: spec_sat_add_u64(st.total_tokens_used, tokens as u64),
        avg_response_time_ms: avg,
        min_response_time_ms: if st.min_response_time_ms == 0 || latency_ms
            < st.min_response_time_ms {
            latency_ms
        } else {
            st.min_response_time_ms
        },
        max_response_time_ms: if latency_ms > st.max_response_time_ms {
            latency_ms
        } else {
            st.max_response_time_ms
        },
    }
}

/// The statistics after one failed exchange.
pub open spec fn spec_stats_failure(st: LLMStats) -> LLMStats {
    LLMStats {
        total_requests: spec_sat_add_u64(st.total_requests, 1),
        failed_requests: spec_sat_add_u64(st.failed_requests, 1),
        ..st
    }
}

/// The well-formedness the average computation leans on: the average never
/// exceeds the largest observed latency.
pub open spec fn spec_stats_wf(st: LLMStats) -> bool {
    st.avg_response_time_ms <= st.max_response_time_ms
}

/// Mixes one value into a running fingerprint, as the low 64 bits of
/// `h * 0x100000001b3 + x`.
pub open spec fn spec_mix(h: u64, x: u64) -> u64 {
    (((h * 0x100000001b3) + x) % 0x1_0000_0000_0000_0000) as u64
}

fn mix(h: u64, x: u64) -> (r: u64)
    ensures
        r == spec_mix(h, x),
{
    let v: u128 = (h as u128) * 0x100000001b3u128 + (x as u128);
    (v % 0x1_0000_0000_0000_0000u128) as u64
}

/// A fixed-point value in whole units, truncated towards zero.
pub open spec fn spec_whole_units(v: i64) -> int {
    if v >= 0 {
        v / 1000
    } else {
        -((-v) / 1000)
    }
}

fn whole_units(v: i64) -> (r: i64)
    ensures
        r == spec_whole_units(v),
{
    if v >= 0 {
        ((v as u64) / 1000) as i64
    } else if v == i64::MIN {
        -((9_223_372_036_854_775_808u64 / 1000) as i64)
    } else {
        -((((-v) as u64) / 1000) as i64)
    }
}

/// The nearby agents folded into the fingerprint, front to back: each
/// contributes its x and z coordinates and its whole-unit health.
pub open spec fn spec_fp_agents(h: u64, agents: Seq<crate::model::AgentInfo>) -> u64
    decreases agents.len(),
{
    if agents.len() == 0 {
        h
    } else {
        let a = agents[0];
        let h1 = spec_mix(h, a.position.x as u64);
        let h2 = spec_mix(h1, a.position.z as u64);
        let h3 = spec_mix(h2, spec_whole_units(a.health) as u64);
        spec_fp_agents(h3, agents.drop_first())
    }
}

/// The deterministic fingerprint of an observation's decision-relevant
/// fields: position, whole-unit health and energy, the count of nearby
/// agents, the tick, and each nearby agent's position and health.
pub open spec fn spec_state_fingerprint(s: GameState) -> u64 {
    let h0 = 0xcbf29ce484222325u64;
    let h1 = spec_mix(h0, s.position.x as u64);
    let h2 = spec_mix(h1, s.position.z as u64);
    let h3 = spec_mix(h2, spec_whole_units(s.health) as u64);
    let h4 = spec_mix(h3, spec_whole_units(s.energy) as u64);
    let h5 = spec_mix(h4, s.nearby_agents@.len() as u64);
    let h6 = spec_mix(h5, s.current_tick);
    spec_fp_agents(h6, s.nearby_agents@)
}

/// Computes the observation fingerprint.
pub fn state_fingerprint(s: &GameState) -> (r: u64)
    ensures
        r == spec_state_fingerprint(*s),
{
    let mut h = 0xcbf29ce484222325u64;
    h = mix(h, s.position.x as u64);
    h = mix(h, s.position.z as u64);
    h = mix(h, whole_units(s.health) as u64);
    h = mix(h, whole_units(s.energy) as u64);
    h = mix(h, s.nearby_agents.len() as u64);
    h = mix(h, s.current_tick);
    proof {
        assert(s.nearby_agents@.skip(0) =~= s.nearby_agents@);
    }
    let mut i: usize = 0;
    while i < s.nearby_agents.len()
        invariant
            0 <= i <= s.nearby_agents@.len(),
            spec_fp_agents(h, s.nearby_agents@.skip(i as int)) == spec_state_fingerprint(*s),
        decreases s.nearby_agents@.len() - i,
    {
        let ghost rest = s.nearby_agents@.skip(i as int);
        proof {
            assert(rest[0] == s.nearby_agents@[i as int]);
            assert(rest.drop_first() =~= s.nearby_agents@.skip(i + 1));
        }
        let a = &s.nearby_agents[i];
        h = mix(h, a.position.x as u64);
        h = mix(h, a.position.z as u64);
        h = mix(h, whole_units(a.health) as u64);
        i = i + 1;
    }
    proof {
        assert(s.nearby_agents@.skip(s.nearby_agents@.len() as int)
            =~= Seq::<crate::model::AgentInfo>::empty());
    }
    h
}

/// The first position at or after `from` holding `c`, or the length.
pub open spec fn spec_find_char(s: Seq<char>, from: int, c: char) -> int
    decreases s.len() - from,
{
    if 0 <= from < s.len() {
        if s[from] == c {
            from
        } else {
            spec_find_char(s, from + 1, c)
        }
    } else {
        from
    }
}

/// Scans for `c` from position `from`.
fn find_char(s: &str, len: usize, from: usize, c: char) -> (r: usize)
    requires
        len == s@.len(),
        from <= len,
    ensures
        from <= r <= len,
        r as int == spec_find_char(s@, from as int, c),
    decreases len - from,
{
    let mut j: usize = from;
    while j < len && s.get_char(j) != c
        invariant
            len == s@.len(),
            from <= j <= len,
            spec_find_char(s@, from as int, c) == spec_find_char(s@, j as int, c),
        decreases len - j,
    {
        j = j + 1;
    }
    j
}

/// `t` is `prefix`, then something, then a closing parenthesis.
pub open spec fn spec_call_form(t: Seq<char>, prefix: Seq<char>) -> bool {
    &&& t.len() > prefix.len()
    &&& t.take(prefix.len() as int) == prefix
    &&& t.last() == ')'
}

/// What stands between the prefix and the closing parenthesis.
pub open spec fn spec_call_inner(t: Seq<char>, plen: int) -> Seq<char> {
    t.subrange(plen, t.len() - 1)
}

/// The move vector of a three-part argument list, each part read as a
/// fixed-point number (a non-numeric part reads as zero); `None` when the
/// list does not have exactly three parts.
pub open spec fn spec_move_action(inner: Seq<char>) -> Option<Vec3Fx> {
    let c1 = spec_find_char(inner, 0, ',');
    let c2 = spec_find_char(inner, c1 + 1, ',');
    if c1 < inner.len() && c2 < inner.len() && spec_find_char(inner, c2 + 1, ',') == inner.len() {
        Some(
            Vec3Fx {
                x: crate::text::spec_component_milli(inner.subrange(0, c1)) as i64,
                y: crate::text::spec_component_milli(inner.subrange(c1 + 1, c2)) as i64,
                z: crate::text::spec_component_milli(
                    inner.subrange(c2 + 1, inner.len() as int),
                ) as i64,
            },
        )
    } else {
        None
    }
}

/// The reply grammar: after trimming, `Move(x, y, z)` moves (non-numeric
/// components read as zero), `Attack(id)` with a well-formed identifier
/// attacks, `Communicate(text)` and `UseItem(name)` carry their text, `wait`
/// and `defend` match up to ASCII case, and anything else waits.
pub open spec fn spec_parse_matches(reply: Seq<char>, a: AgentAction) -> bool {
    let t = crate::text::spec_trim(reply);
    if spec_call_form(t, "Move("@) && spec_move_action(spec_call_inner(t, 5)) is Some {
        a == AgentAction::Move(spec_move_action(spec_call_inner(t, 5))->0)
    } else if spec_call_form(t, "Attack("@) && crate::trusted::parsed_uuid(
        spec_call_inner(t, 7),
    ) is Some {
        a == AgentAction::Attack(crate::trusted::parsed_uuid(spec_call_inner(t, 7))->0)
    } else if spec_call_form(t, "Communicate("@) {
        a matches AgentAction::Communicate(m) && m@ == spec_call_inner(t, 12)
    } else if spec_call_form(t, "UseItem("@) {
        a matches AgentAction::UseItem(m) && m@ == spec_call_inner(t, 8)
    } else if crate::text::spec_eq_fold(t, "wait"@) {
        a == AgentAction::Wait
    } else if crate::text::spec_eq_fold(t, "defend"@) {
        a == AgentAction::Defend
    } else {
        a == AgentAction::Wait
    }
}

/// Whether the trimmed reply has the call shape with the given prefix.
fn call_form(t: &str, tlen: usize, prefix: &str, plen: usize) -> (r: bool)
    requires
        tlen == t@.len(),
        plen == prefix@.len(),
    ensures
        r == spec_call_form(t@, prefix@),
{
    if tlen > plen {
        let starts = crate::text::prefix_matches(t, tlen, prefix, plen, 0);
        proof {
            assert(t@.subrange(0, plen as int) =~= t@.take(plen as int));
        }
        starts && t.get_char(tlen - 1) == ')'
    } else {
        false
    }
}

/// Parses one reply of the remote service into an action, by the fixed
/// grammar; unrecognized text yields `Wait`.
pub fn parse_action(reply: &str) -> (r: AgentAction)
    ensures
        spec_parse_matches(reply@, r),
{
    let t = crate::text::trim_ascii_ws(reply);
    let tlen = t.unicode_len();
    proof {
        reveal_strlit("Move(");
        reveal_strlit("Attack(");
        reveal_strlit("Communicate(");
        reveal_strlit("UseItem(");
    }
    if call_form(t, tlen, "Move(", 5) {
        let inner = t.substring_char(5, tlen - 1);
        let ilen = tlen - 6;
        proof {
            assert(inner@ == spec_call_inner(t@, 5));
        }
        let c1 = find_char(inner, ilen, 0, ',');
        if c1 < ilen {
            let c2 = find_char(inner, ilen, c1 + 1, ',');
            if c2 < ilen && find_char(inner, ilen, c2 + 1, ',') == ilen {
                let xs = inner.substring_char(0, c1);
                let ys = inner.substring_char(c1 + 1, c2);
                let zs = inner.substring_char(c2 + 1, ilen);
                let x = crate::text::parse_component_milli(xs);
                let y = crate::text::parse_component_milli(ys);
                let z = crate::text::parse_component_milli(zs);
                return AgentAction::Move(Vec3Fx { x, y, z });
            }
        }
    }
    if call_form(t, tlen, "Attack(", 7) {
        let inner = t.substring_char(7, tlen - 1);
        proof {
            assert(inner@ == spec_call_inner(t@, 7));
        }
        match crate::trusted::parse_agent_id(inner) {
            Some(id) => {
                return AgentAction::Attack(id);
            },
            None => {},
        }
    }
    if call_form(t, tlen, "Communicate(", 12) {
        let inner = t.substring_char(12, tlen - 1);
        proof {
            assert(inner@ == spec_call_inner(t@, 12));
        }
        return AgentAction::Communicate(String::from_str(inner));
    }
    if call_form(t, tlen, "UseItem(", 8) {
        let inner = t.substring_char(8, tlen - 1);
        proof {
            assert(inner@ == spec_call_inner(t@, 8));
        }
        return AgentAction::UseItem(String::from_str(inner));
    }
    if crate::text::str_eq_fold(t, "wait") {
        return AgentAction::Wait;
    }
    if crate::text::str_eq_fold(t, "defend") {
        return AgentAction::Defend;
    }
    AgentAction::Wait
}

/// One visible agent's line in the prompt. The relation label reads ALLY
/// exactly for an ally (both labels present and equal); anything else,
/// including two absent labels, reads ENEMY.
pub open spec fn spec_agent_line(team: Option<String>, a: AgentInfo) -> Seq<char> {
    let rel: Seq<char> = if spec_is_ally(team, a.team) {
        "ALLY"@
    } else {
        "ENEMY"@
    };
    "- "@ + rel + " at ("@ + spec_fmt_milli(a.position.x as int) + ", "@ + spec_fmt_milli(
        a.position.z as int,
    ) + "), Health: "@ + spec_fmt_milli(a.health as int) + ", Distance: "@ + spec_fmt_milli(
        a.distance as int,
    ) + "\n"@
}

/// The visible agents' lines, front to back.
pub open spec fn spec_agent_lines(team: Option<String>, agents: Seq<AgentInfo>) -> Seq<char>
    decreases agents.len(),
{
    if agents.len() == 0 {
        Seq::empty()
    } else {
        spec_agent_line(team, agents[0]) + spec_agent_lines(team, agents.drop_first())
    }
}

/// The nearby-agents section, present only when something is visible.
pub open spec fn spec_agents_block(team: Option<String>, agents: Seq<AgentInfo>) -> Seq<char> {
    if agents.len() == 0 {
        Seq::empty()
    } else {
        "=== NEARBY AGENTS ===\n"@ + spec_agent_lines(team, agents) + "\n"@
    }
}

/// One visible object's line in the prompt.
pub open spec fn spec_object_line(o: ObjectInfo) -> Seq<char> {
    "- "@ + o.object_type@ + " at ("@ + spec_fmt_milli(o.position.x as int) + ", "@
        + spec_fmt_milli(o.position.z as int) + "), Distance: "@ + spec_fmt_milli(
        o.distance as int,
    ) + "\n"@
}

/// The visible objects' lines, front to back.
pub open spec fn spec_object_lines(objects: Seq<ObjectInfo>) -> Seq<char>
    decreases objects.len(),
{
    if objects.len() == 0 {
        Seq::empty()
    } else {
        spec_object_line(objects[0]) + spec_object_lines(objects.drop_first())
    }
}

/// The nearby-objects section, present only when something is visible.
pub open spec fn spec_objects_block(objects: Seq<ObjectInfo>) -> Seq<char> {
    if objects.len() == 0 {
        Seq::empty()
    } else {
        "=== NEARBY OBJECTS ===\n"@ + spec_object_lines(objects) + "\n"@
    }
}

/// The agent-status section.
pub open spec fn spec_status_block(s: GameState) -> Seq<char> {
    "=== AGENT STATUS ===\nPosition: ("@ + spec_fmt_milli(s.position.x as int) + ", "@
        + spec_fmt_milli(s.position.z as int) + ")\nHealth: "@ + spec_fmt_milli(s.health as int)
        + "/100\nEnergy: "@ + spec_fmt_milli(s.energy as int) + "/100\nTick: "@ + spec_dec_digits(
        s.current_tick as int,
    ) + "\nTime Remaining: "@ + spec_fmt_milli(s.time_remaining_ms as int) + "s\n\n"@
}

/// The arena section.
pub open spec fn spec_arena_block(s: GameState) -> Seq<char> {
    "=== ARENA INFO ===\nBounds: "@ + spec_fmt_milli(s.arena_bounds.x as int) + "x"@
        + spec_fmt_milli(s.arena_bounds.y as int) + "\nCenter: (0, 0)\n\n"@
}

/// The numbered lines for the `i`-th through `n`-th most recent history
/// entries, most recent first.
pub open spec fn spec_history_lines(h: Seq<String>, i: int, n: int) -> Seq<char>
    decreases n - i,
{
    if i >= n || h.len() - 1 - i < 0 {
        Seq::empty()
    } else {
        spec_dec_digits(i + 1) + ". "@ + h[h.len() - 1 - i]@ + "\n"@ + spec_history_lines(
            h,
            i + 1,
            n,
        )
    }
}

/// The recent-actions section: up to the three most recent history entries,
/// most recent first.
pub open spec fn spec_history_block(h: Seq<String>) -> Seq<char> {
    if h.len() == 0 {
        Seq::empty()
    } else {
        let n: int = if h.len() >= 3 {
            3
        } else {
            h.len() as int
        };
        "=== RECENT ACTIONS ===\n"@ + spec_history_lines(h, 0, n) + "\n"@
    }
}

/// The grammar instruction that closes every prompt.
pub open spec fn spec_instructions() -> Seq<char> {
    "\n\nRespond with ONLY the action in format: ACTION_NAME(parameters)\nExamples:\n- Move(2.0, 0.0, 1.5)\n- Attack(enemy_id)\n- Wait\n- Defend\n- Communicate(message)\n"@
}

/// The whole prompt: the state text, then the action template with its
/// `{state}` marker replaced by that text, then the grammar instructions.
pub open spec fn spec_prompt(
    template: Seq<char>,
    team: Option<String>,
    history: Seq<String>,
    s: GameState,
) -> Seq<char> {
    let base = spec_status_block(s) + spec_agents_block(team, s.nearby_agents@)
        + spec_objects_block(s.nearby_objects@) + spec_arena_block(s) + spec_history_block(
        history,
    );
    base + spec_replace(template, "{state}"@, base) + spec_instructions()
}

/// Builds one visible agent's line.
fn agent_line(team: &Option<String>, a: &AgentInfo) -> (r: String)
    ensures
        r@ == spec_agent_line(*team, *a),
{
    let mut out = String::from_str("- ");
    if is_ally(team, &a.team) {
        out.append("ALLY");
    } else {
        out.append("ENEMY");
    }
    out.append(" at (");
    out.append(fmt_milli(a.position.x).as_str());
    out.append(", ");
    out.append(fmt_milli(a.position.z).as_str());
    out.append("), Health: ");
    out.append(fmt_milli(a.health).as_str());
    out.append(", Distance: ");
    out.append(fmt_milli(a.distance).as_str());
    out.append("\n");
    proof {
        assert(out@ =~= spec_agent_line(*team, *a));
    }
    out
}

/// Builds one visible object's line.
fn object_line(o: &ObjectInfo) -> (r: String)
    ensures
        r@ == spec_object_line(*o),
{
    let mut out = String::from_str("- ");
    out.append(o.object_type.as_str());
    out.append(" at (");
    out.append(fmt_milli(o.position.x).as_str());
    out.append(", ");
    out.append(fmt_milli(o.position.z).as_str());
    out.append("), Distance: ");
    out.append(fmt_milli(o.distance).as_str());
    out.append("\n");
    proof {
        assert(out@ =~= spec_object_line(*o));
    }
    out
}

/// The remote-inference agent.
pub struct LLMAgent {
    pub id: AgentId,
    pub name: String,
    pub agent_type: String,
    pub team: Option<String>,
    pub config: LLMConfig,
    pub stats: LLMStats,
    pub decision_cache: DecisionCache,
    /// The most recent decision summaries, oldest first.
    pub conversation_history: Vec<String>,
    pub max_history_size: usize,
    pub last_state_hash: Option<u64>,
    pub consecutive_failures: u32,
    pub max_consecutive_failures: u32,
    /// The deterministic degradation actions, cycled by `fallback_index`.
    pub fallback_actions: Vec<AgentAction>,
    pub fallback_index: usize,
}

impl LLMAgent {
    pub open spec fn wf(self) -> bool {
        &&& self.decision_cache.wf()
        &&& spec_stats_wf(self.stats)
        &&& self.fallback_actions@.len() >= 1
        &&& self.fallback_index < self.fallback_actions@.len()
        &&& self.max_history_size >= 1
        &&& self.conversation_history@.len() <= self.max_history_size
    }

    /// A fresh remote-inference agent: empty statistics and history, a
    /// hundred-entry cache, a failure threshold of three, the built-in
    /// fallback cycle, and a randomly drawn id.
    pub fn new(name: String, team: Option<String>, config: LLMConfig) -> (r: LLMAgent)
        ensures
            r.name@ == name@,
            r.team == team,
            r.agent_type@ == "LLMAgent"@,
            r.config == config,
            r.stats == LLMStats::spec_zero(),
            r.decision_cache.entries@.len() == 0,
            r.decision_cache.max_size == CACHE_CAPACITY,
            r.conversation_history@.len() == 0,
            r.max_history_size == HISTORY_CAPACITY,
            r.last_state_hash is None,
            r.consecutive_failures == 0,
            r.max_consecutive_failures == FAILURE_THRESHOLD,
            r.fallback_index == 0,
            r.fallback_actions@.len() == 6,
            r.fallback_actions@[0] == AgentAction::Wait,
            r.fallback_actions@[1] == AgentAction::Defend,
            r.fallback_actions@[2] == AgentAction::Move(Vec3Fx { x: 1000, y: 0, z: 0 }),
            r.fallback_actions@[3] == AgentAction::Move(Vec3Fx { x: -1000i64, y: 0, z: 0 }),
            r.fallback_actions@[4] == AgentAction::Move(Vec3Fx { x: 0, y: 0, z: 1000 }),
            r.fallback_actions@[5] == AgentAction::Move(Vec3Fx { x: 0, y: 0, z: -1000i64 }),
            r.wf(),
    {
        let mut fallback_actions: Vec<AgentAction> = Vec::new();
        fallback_actions.push(AgentAction::Wait);
        fallback_actions.push(AgentAction::Defend);
        fallback_actions.push(AgentAction::Move(Vec3Fx { x: 1000, y: 0, z: 0 }));
        fallback_actions.push(AgentAction::Move(Vec3Fx { x: -1000, y: 0, z: 0 }));
        fallback_actions.push(AgentAction::Move(Vec3Fx { x: 0, y: 0, z: 1000 }));
        fallback_actions.push(AgentAction::Move(Vec3Fx { x: 0, y: 0, z: -1000 }));
        LLMAgent {
            id: new_agent_id(),
            name,
            agent_type: String::from_str("LLMAgent"),
            team,
            config,
            stats: Default::default(),
            decision_cache: DecisionCache::new(CACHE_CAPACITY),
            conversation_history: Vec::new(),
            max_history_size: HISTORY_CAPACITY,
            last_state_hash: None,
            consecutive_failures: 0,
            max_consecutive_failures: FAILURE_THRESHOLD,
            fallback_actions,
            fallback_index: 0,
        }
    }

    /// The same agent with another service configuration.
    pub fn with_config(self, config: LLMConfig) -> (r: LLMAgent)
        requires
            self.wf(),
        ensures
            r == (LLMAgent { config, ..self }),
            r.wf(),
    {
        LLMAgent { config, ..self }
    }

    /// The running statistics.
    pub fn get_stats(&self) -> (r: &LLMStats)
        ensures
            *r == self.stats,
    {
        &self.stats
    }

    /// Forgets statistics, cache, history and failures; configuration and
    /// identity stay.
    pub fn reset_stats(&mut self)
        requires
            old(self).wf(),
        ensures
            final(self).wf(),
            final(self).stats == LLMStats::spec_zero(),
            final(self).decision_cache.entries@.len() == 0,
            final(self).decision_cache.max_size == CACHE_CAPACITY,
            final(self).conversation_history@.len() == 0,
            final(self).consecutive_failures == 0,
            *final(self) == (LLMAgent {
                stats: final(self).stats,
                decision_cache: final(self).decision_cache,
                conversation_history: final(self).conversation_history,
                consecutive_failures: 0,
                ..*old(self)
            }),
    {
        self.stats = Default::default();
        self.decision_cache = DecisionCache::new(CACHE_CAPACITY);
        self.conversation_history.clear();
        self.consecutive_failures = 0;
    }

    /// The next degradation action: the list entry under the cyclic index,
    /// which then advances with wrap-around.
    pub fn get_fallback_action(&mut self) -> (a: AgentAction)
        requires
            old(self).wf(),
        ensures
            final(self).wf(),
            a == old(self).fallback_actions@[old(self).fallback_index as int],
            final(self).fallback_index == (old(self).fallback_index + 1) % (
            old(self).fallback_actions@.len() as int),
            *final(self) == (LLMAgent { fallback_index: final(self).fallback_index, ..*old(self) }),
    {
        let len = self.fallback_actions.len();
        let a = crate::model::clone_action(&self.fallback_actions[self.fallback_index]);
        self.fallback_index = (self.fallback_index + 1) % len;
        a
    }

    /// Converts the observation into the textual prompt for the remote
    /// service: status, sightings, arena, recent history, the action
    /// template with its `{state}` marker filled in, and the reply grammar.
    #[verifier::rlimit(100)]
    pub fn state_to_prompt(&self, state: &GameState) -> (r: String)
        ensures
            r@ == spec_prompt(
                self.config.action_prompt_template@,
                self.team,
                self.conversation_history@,
                *state,
            ),
    {
        let mut base = String::from_str("=== AGENT STATUS ===\nPosition: (");
        base.append(fmt_milli(state.position.x).as_str());
        base.append(", ");
        base.append(fmt_milli(state.position.z).as_str());
        base.append(")\nHealth: ");
        base.append(fmt_milli(state.health).as_str());
        base.append("/100\nEnergy: ");
        base.append(fmt_milli(state.energy).as_str());
        base.append("/100\nTick: ");
        base.append(fmt_u128(state.current_tick as u128).as_str());
        base.append("\nTime Remaining: ");
        base.append(fmt_milli(state.time_remaining_ms).as_str());
        base.append("s\n\n");
        proof {
            assert(base@ =~= spec_status_block(*state));
        }
        // Sightings.
        if state.nearby_agents.len() > 0 {
            base.append("=== NEARBY AGENTS ===\n");
            let ghost before = base@;
            let mut i: usize = 0;
            proof {
                assert(state.nearby_agents@.skip(0) =~= state.nearby_agents@);
            }
            while i < state.nearby_agents.len()
                invariant
                    0 <= i <= state.nearby_agents@.len(),
                    base@ + spec_agent_lines(self.team, state.nearby_agents@.skip(i as int))
                        == before + spec_agent_lines(self.team, state.nearby_agents@),
                decreases state.nearby_agents@.len() - i,
            {
                let ghost rest = state.nearby_agents@.skip(i as int);
                let ghost prev = base@;
                let line = agent_line(&self.team, &state.nearby_agents[i]);
                base.append(line.as_str());
                proof {
                    assert(rest[0] == state.nearby_agents@[i as int]);
                    assert(rest.drop_first() =~= state.nearby_agents@.skip(i + 1));
                    assert(prev + (line@ + spec_agent_lines(
                        self.team,
                        state.nearby_agents@.skip(i + 1),
                    )) =~= (prev + line@) + spec_agent_lines(
                        self.team,
                        state.nearby_agents@.skip(i + 1),
                    ));
                }
                i = i + 1;
            }
            base.append("\n");
            proof {
                assert(state.nearby_agents@.skip(state.nearby_agents@.len() as int)
                    =~= Seq::<AgentInfo>::empty());
                assert(base@ =~= spec_status_block(*state) + spec_agents_block(
                    self.team,
                    state.nearby_agents@,
                ));
            }
        }
        let ghost through_agents = spec_status_block(*state) + spec_agents_block(
            self.team,
            state.nearby_agents@,
        );
        proof {
            if state.nearby_agents@.len() == 0 {
                assert(base@ =~= through_agents);
            }
        }
        // Objects.
        if state.nearby_objects.len() > 0 {
            base.append("=== NEARBY OBJECTS ===\n");
            let ghost before = base@;
            let mut i: usize = 0;
            proof {
                assert(state.nearby_objects@.skip(0) =~= state.nearby_objects@);
            }
            while i < state.nearby_objects.len()
                invariant
                    0 <= i <= state.nearby_objects@.len(),
                    base@ + spec_object_lines(state.nearby_objects@.skip(i as int)) == before
                        + spec_object_lines(state.nearby_objects@),
                decreases state.nearby_objects@.len() - i,
            {
                let ghost rest = state.nearby_objects@.skip(i as int);
                let ghost prev = base@;
                let line = object_line(&state.nearby_objects[i]);
                base.append(line.as_str());
                proof {
                    assert(rest[0] == state.nearby_objects@[i as int]);
                    assert(rest.drop_first() =~= state.nearby_objects@.skip(i + 1));
                    assert(prev + (line@ + spec_object_lines(state.nearby_objects@.skip(i + 1)))
                        =~= (prev + line@) + spec_object_lines(state.nearby_objects@.skip(i + 1)));
                }
                i = i + 1;
            }
            base.append("\n");
            proof {
                assert(state.nearby_objects@.skip(state.nearby_objects@.len() as int)
                    =~= Seq::<ObjectInfo>::empty());
                assert(base@ =~= through_agents + spec_objects_block(state.nearby_objects@));
            }
        }
        let ghost through_objects = through_agents + spec_objects_block(state.nearby_objects@);
        proof {
            if state.nearby_objects@.len() == 0 {
                assert(base@ =~= through_objects);
            }
        }
        // Arena.
        base.append("=== ARENA INFO ===\nBounds: ");
        base.append(fmt_milli(state.arena_bounds.x).as_str());
        base.append("x");
        base.append(fmt_milli(state.arena_bounds.y).as_str());
        base.append("\nCenter: (0, 0)\n\n");
        proof {
            assert(base@ =~= through_objects + spec_arena_block(*state));
        }
        let ghost through_arena = through_objects + spec_arena_block(*state);
        // Recent history, most recent first, at most three entries.
        if self.conversation_history.len() > 0 {
            base.append("=== RECENT ACTIONS ===\n");
            let ghost before = base@;
            let hist_len = self.conversation_history.len();
            let n: usize = if hist_len >= 3 {
                3
            } else {
                hist_len
            };
            let mut i: usize = 0;
            while i < n
                invariant
                    0 <= i <= n <= hist_len,
                    hist_len == self.conversation_history@.len(),
                    n == (if hist_len >= 3 { 3int } else { hist_len as int }),
                    base@ + spec_history_lines(self.conversation_history@, i as int, n as int)
                        == before + spec_history_lines(self.conversation_history@, 0, n as int),
                decreases n - i,
            {
                let ghost prev = base@;
                let num = fmt_u128((i + 1) as u128);
                base.append(num.as_str());
                base.append(". ");
                base.append(self.conversation_history[hist_len - 1 - i].as_str());
                base.append("\n");
                proof {
                    let h = self.conversation_history@;
                    assert(base@ =~= prev + (spec_dec_digits(i + 1) + ". "@ + h[h.len() - 1 - i]@
                        + "\n"@));
                    assert(prev + (spec_dec_digits(i + 1) + ". "@ + h[h.len() - 1 - i]@ + "\n"@
                        + spec_history_lines(h, i + 1, n as int)) =~= (prev + (spec_dec_digits(
                        i + 1,
                    ) + ". "@ + h[h.len() - 1 - i]@ + "\n"@)) + spec_history_lines(
                        h,
                        i + 1,
                        n as int,
                    ));
                }
                i = i + 1;
            }
            base.append("\n");
            proof {
                assert(spec_history_lines(self.conversation_history@, n as int, n as int)
                    =~= Seq::<char>::empty());
                assert(base@ + spec_history_lines(self.conversation_history@, n as int, n as int)
                    =~= base@);
                assert(base@ =~= through_arena + spec_history_block(self.conversation_history@));
            }
        }
        let ghost through_history = through_arena + spec_history_block(
            self.conversation_history@,
        );
        proof {
            if self.conversation_history@.len() == 0 {
                assert(base@ =~= through_history);
            }
        }
        // The template with the state text filled in, then the grammar.
        proof {
            reveal_strlit("{state}");
        }
        let filled = str_replace(self.config.action_prompt_template.as_str(), "{state}", base.as_str());
        let mut out = base;
        out.append(filled.as_str());
        out.append(
            "\n\nRespond with ONLY the action in format: ACTION_NAME(parameters)\nExamples:\n- Move(2.0, 0.0, 1.5)\n- Attack(enemy_id)\n- Wait\n- Defend\n- Communicate(message)\n",
        );
        proof {
            assert(out@ =~= spec_prompt(
                self.config.action_prompt_template@,
                self.team,
                self.conversation_history@,
                *state,
            ));
        }
        out
    }

    /// Records one successful exchange.
    fn record_success(&mut self, latency_ms: u64, tokens: u32)
        requires
            spec_stats_wf(old(self).stats),
        ensures
            final(self).stats == spec_stats_success(old(self).stats, latency_ms, tokens),
            final(self).consecutive_failures == 0,
            spec_stats_wf(final(self).stats),
            *final(self) == (LLMAgent {
                stats: final(self).stats,
                consecutive_failures: 0,
                ..*old(self)
            }),
    {
        let st = &self.stats;
        let n = if st.successful_requests < 0xffff_ffff_ffff_ffff {
            st.successful_requests + 1
        } else {
            st.successful_requests
        };
        proof {
            let m: int = if st.avg_response_time_ms >= latency_ms {
                st.avg_response_time_ms as int
            } else {
                latency_ms as int
            };
            assert(st.avg_response_time_ms * (n - 1) + latency_ms <= (n as int) * m)
                by (nonlinear_arith)
                requires
                    n >= 1,
                    0 <= st.avg_response_time_ms <= m,
                    0 <= latency_ms <= m;
            assert((n as int) * m <= 0x1_0000_0000_0000_0000 * 0xffff_ffff_ffff_ffff)
                by (nonlinear_arith)
                requires
                    0 <= m <= 0xffff_ffff_ffff_ffff,
                    0 <= n <= 0xffff_ffff_ffff_ffff;
            vstd::arithmetic::div_mod::lemma_multiply_divide_le(
                st.avg_response_time_ms * (n - 1) + latency_ms,
                n as int,
                m,
            );
        }
        let sum: u128 = (st.avg_response_time_ms as u128) * ((n - 1) as u128) + (
        latency_ms as u128);
        let avg = (sum / (n as u128)) as u64;
        let new_min = if st.min_response_time_ms == 0 || latency_ms < st.min_response_time_ms {
            latency_ms
        } else {
            st.min_response_time_ms
        };
        let new_max = if latency_ms > st.max_response_time_ms {
            latency_ms
        } else {
            st.max_response_time_ms
        };
        proof {
            assert(st.avg_response_time_ms * (n - 1) + latency_ms <= (n as int) * new_max)
                by (nonlinear_arith)
                requires
                    n >= 1,
                    0 <= st.avg_response_time_ms <= new_max,
                    0 <= latency_ms <= new_max;
            vstd::arithmetic::div_mod::lemma_multiply_divide_le(
                st.avg_response_time_ms * (n - 1) + latency_ms,
                n as int,
                new_max as int,
            );
        }
        self.stats = LLMStats {
            total_requests: if st.total_requests < 0xffff_ffff_ffff_ffff {
                st.total_requests + 1
            } else {
                st.total_requests
            },
            successful_requests: n,
            failed_requests: st.failed_requests,
            total_tokens_used: if st.total_tokens_used <= 0xffff_ffff_ffff_ffff - (
            tokens as u64) {
                st.total_tokens_used + (tokens as u64)
            } else {
                0xffff_ffff_ffff_ffff
            },
            avg_response_time_ms: avg,
            min_response_time_ms: new_min,
            max_response_time_ms: new_max,
        };
        self.consecutive_failures = 0;
    }

    /// Records one failed exchange and one more consecutive failure.
    fn record_failure(&mut self)
        requires
            spec_stats_wf(old(self).stats),
        ensures
            final(self).stats == spec_stats_failure(old(self).stats),
            final(self).consecutive_failures == spec_sat_add_u32(
                old(self).consecutive_failures,
                1,
            ),
            spec_stats_wf(final(self).stats),
            *final(self) == (LLMAgent {
                stats: final(self).stats,
                consecutive_failures: final(self).consecutive_failures,
                ..*old(self)
            }),
    {
        self.stats = LLMStats {
            total_requests: if self.stats.total_requests < 0xffff_ffff_ffff_ffff {
                self.stats.total_requests + 1
            } else {
                self.stats.total_requests
            },
            failed_requests: if self.stats.failed_requests < 0xffff_ffff_ffff_ffff {
                self.stats.failed_requests + 1
            } else {
                self.stats.failed_requests
            },
            ..self.stats
        };
        self.consecutive_failures = if self.consecutive_failures < 0xffff_ffff {
            self.consecutive_failures + 1
        } else {
            self.consecutive_failures
        };
    }

    /// Readies the agent. The liveness probe of the remote service is the
    /// caller's best-effort concern and never fails the agent, so nothing
    /// changes here.
    pub fn initialize(&mut self) -> (r: Result<(), AgentError>)
        requires
            old(self).wf(),
        ensures
            r is Ok,
            *final(self) == *old(self),
    {
        Ok(())
    }

    /// Retires the agent. The final statistics stay readable through
    /// `get_stats`; reporting them is the caller's concern.
    pub fn shutdown(&mut self) -> (r: Result<(), AgentError>)
        requires
            old(self).wf(),
        ensures
            r is Ok,
            *final(self) == *old(self),
    {
        Ok(())
    }

    pub fn get_id(&self) -> (r: AgentId)
        ensures
            r == self.id,
    {
        self.id
    }

    pub fn get_name(&self) -> (r: &str)
        ensures
            r@ == self.name@,
    {
        self.name.as_str()
    }

    pub fn get_agent_type(&self) -> (r: &str)
        ensures
            r@ == self.agent_type@,
    {
        self.agent_type.as_str()
    }

    pub fn get_team(&self) -> (r: Option<&str>)
        ensures
            match r {
                Some(t) => self.team matches Some(mt) && t@ == mt@,
                None => self.team is None,
            },
    {
        match &self.team {
            Some(s) => Some(s.as_str()),
            None => None,
        }
    }
}

/// A readable tag for one action, as the history records it.
pub open spec fn spec_action_label(a: AgentAction) -> Seq<char> {
    match a {
        AgentAction::Move(v) => "Move("@ + spec_fmt_milli(v.x as int) + ", "@ + spec_fmt_milli(
            v.y as int,
        ) + ", "@ + spec_fmt_milli(v.z as int) + ")"@,
        AgentAction::Attack(id) => "Attack("@ + spec_dec_digits(id as int) + ")"@,
        AgentAction::UseItem(s) => "UseItem("@ + s@ + ")"@,
        AgentAction::Communicate(s) => "Communicate("@ + s@ + ")"@,
        AgentAction::Wait => "Wait"@,
        AgentAction::Defend => "Defend"@,
    }
}

/// One history entry: the tick, health and position of the observation and
/// the action taken on it.
pub open spec fn spec_history_entry(s: GameState, a: AgentAction) -> Seq<char> {
    "Tick "@ + spec_dec_digits(s.current_tick as int) + ": Health="@ + spec_fmt_milli(
        s.health as int,
    ) + ", Pos=("@ + spec_fmt_milli(s.position.x as int) + ","@ + spec_fmt_milli(
        s.position.z as int,
    ) + ") -> "@ + spec_action_label(a)
}

/// Builds the readable tag for one action.
fn action_label(a: &AgentAction) -> (r: String)
    ensures
        r@ == spec_action_label(*a),
{
    match a {
        AgentAction::Move(v) => {
            let mut out = String::from_str("Move(");
            out.append(fmt_milli(v.x).as_str());
            out.append(", ");
            out.append(fmt_milli(v.y).as_str());
            out.append(", ");
            out.append(fmt_milli(v.z).as_str());
            out.append(")");
            proof {
                assert(out@ =~= spec_action_label(*a));
            }
            out
        },
        AgentAction::Attack(id) => {
            let mut out = String::from_str("Attack(");
            out.append(fmt_u128(*id).as_str());
            out.append(")");
            proof {
                assert(out@ =~= spec_action_label(*a));
            }
            out
        },
        AgentAction::UseItem(s) => {
            let mut out = String::from_str("UseItem(");
            out.append(s.as_str());
            out.append(")");
            proof {
                assert(out@ =~= spec_action_label(*a));
            }
            out
        },
        AgentAction::Communicate(s) => {
            let mut out = String::from_str("Communicate(");
            out.append(s.as_str());
            out.append(")");
            proof {
                assert(out@ =~= spec_action_label(*a));
            }
            out
        },
        AgentAction::Wait => String::from_str("Wait"),
        AgentAction::Defend => String::from_str("Defend"),
    }
}

/// What one decision step asks of the caller: an action is ready, or the
/// planned request must be exchanged with the remote service and the outcome
/// handed to `finish_decision`.
pub enum DecisionStep {
    Ready(AgentAction),
    Query(LLMRequest),
}

/// How the caller's exchange with the remote service ended: the reply with
/// the measured round-trip time, or the failure class (transport breakdown,
/// non-success status, or timeout).
pub enum QueryOutcome {
    Success { response: LLMResponse, latency_ms: u64 },
    Failure { error: AgentError },
}

/// Everything the first half of a decision promises. The fingerprint of the
/// observation is looked up first: a live cached action answers at once and
/// touches nothing but the hit counter. On a miss the expired entries are
/// purged; then, when the consecutive failures have reached the threshold,
/// the next fallback action answers and the cycle advances; otherwise the
/// planned request carries the prompt and the configured sampling
/// parameters.
pub open spec fn spec_begin_post(
    pre: LLMAgent,
    post: LLMAgent,
    s: GameState,
    now_ms: u64,
    step: DecisionStep,
) -> bool {
    let h = spec_state_fingerprint(s);
    let looked = spec_lookup(pre.decision_cache.entries@, h, now_ms);
    &&& post.id == pre.id
    &&& post.name == pre.name
    &&& post.agent_type == pre.agent_type
    &&& post.team == pre.team
    &&& post.config == pre.config
    &&& post.max_history_size == pre.max_history_size
    &&& post.max_consecutive_failures == pre.max_consecutive_failures
    &&& post.fallback_actions == pre.fallback_actions
    &&& post.conversation_history == pre.conversation_history
    &&& post.stats == pre.stats
    &&& post.consecutive_failures == pre.consecutive_failures
    &&& post.last_state_hash == pre.last_state_hash
    &&& post.decision_cache.max_size == pre.decision_cache.max_size
    &&& if looked is Some {
        &&& step matches DecisionStep::Ready(a) && a == looked->0
        &&& post.decision_cache.entries@ == pre.decision_cache.entries@
        &&& post.decision_cache.hit_count == spec_sat_add_u64(pre.decision_cache.hit_count, 1)
        &&& post.decision_cache.miss_count == pre.decision_cache.miss_count
        &&& post.fallback_index == pre.fallback_index
    } else {
        let after_get = if cache_has_key(pre.decision_cache.entries@, h) {
            pre.decision_cache.entries@.remove(cache_idx_of_key(pre.decision_cache.entries@, h))
        } else {
            pre.decision_cache.entries@
        };
        &&& post.decision_cache.entries@ == after_get.filter(
            |e: (u64, CachedDecision)| spec_live(e.1, now_ms),
        )
        &&& post.decision_cache.hit_count == pre.decision_cache.hit_count
        &&& post.decision_cache.miss_count == spec_sat_add_u64(
            pre.decision_cache.miss_count,
            1,
        )
        &&& if pre.consecutive_failures >= pre.max_consecutive_failures {
            &&& step matches DecisionStep::Ready(a) && a == pre.fallback_actions@[
                pre.fallback_index as int
            ]
            &&& post.fallback_index == (pre.fallback_index + 1) % (
            pre.fallback_actions@.len() as int)
        } else {
            &&& post.fallback_index == pre.fallback_index
            &&& step matches DecisionStep::Query(req)
            &&& req.model == pre.config.model_name
            &&& req.prompt@ == spec_prompt(
                pre.config.action_prompt_template@,
                pre.team,
                pre.conversation_history@,
                s,
            )
            &&& req.max_tokens == pre.config.max_tokens
            &&& req.temperature == pre.config.temperature
            &&& req.top_p == pre.config.top_p
            &&& req.stop_sequences matches Some(v) && v@.len() == 1 && v@[0]@ == "\n"@
            &&& req.system_prompt matches Some(p) && p == pre.config.system_prompt
        }
    }
}

/// Everything the second half of a decision promises. A successful exchange
/// is parsed by the reply grammar; the action is cached under the
/// observation's fingerprint with the production time-to-live, the history
/// records it (oldest entry out when full), the statistics record the
/// exchange, and the consecutive failures reset. A failed exchange counts a
/// failure and answers with the next fallback action.
pub open spec fn spec_finish_post(
    pre: LLMAgent,
    post: LLMAgent,
    s: GameState,
    outcome: QueryOutcome,
    now_ms: u64,
    a: AgentAction,
) -> bool {
    let h = spec_state_fingerprint(s);
    &&& post.id == pre.id
    &&& post.name == pre.name
    &&& post.agent_type == pre.agent_type
    &&& post.team == pre.team
    &&& post.config == pre.config
    &&& post.max_history_size == pre.max_history_size
    &&& post.max_consecutive_failures == pre.max_consecutive_failures
    &&& post.fallback_actions == pre.fallback_actions
    &&& post.last_state_hash == pre.last_state_hash
    &&& post.decision_cache.max_size == pre.decision_cache.max_size
    &&& match outcome {
        QueryOutcome::Success { response, latency_ms } => {
            &&& spec_parse_matches(response.text@, a)
            &&& post.stats == spec_stats_success(pre.stats, latency_ms, response.tokens_used)
            &&& post.consecutive_failures == 0
            &&& post.decision_cache.entries@ == spec_cache_insert(
                pre.decision_cache.entries@,
                pre.decision_cache.max_size,
                h,
                CachedDecision { action: a, timestamp_ms: now_ms, ttl_ms: CACHE_TTL_MS },
            )
            &&& post.decision_cache.hit_count == pre.decision_cache.hit_count
            &&& post.decision_cache.miss_count == pre.decision_cache.miss_count
            &&& post.fallback_index == pre.fallback_index
            &&& ({
                let hl = post.conversation_history@;
                let entry = spec_history_entry(s, a);
                if pre.conversation_history@.len() + 1 > pre.max_history_size {
                    hl == pre.conversation_history@.push(hl.last()).drop_first() && hl.last()@
                        == entry
                } else {
                    hl == pre.conversation_history@.push(hl.last()) && hl.last()@ == entry
                }
            })
        },
        QueryOutcome::Failure { error } => {
            &&& a == pre.fallback_actions@[pre.fallback_index as int]
            &&& post.fallback_index == (pre.fallback_index + 1) % (
            pre.fallback_actions@.len() as int)
            &&& post.stats == spec_stats_failure(pre.stats)
            &&& post.consecutive_failures == spec_sat_add_u32(pre.consecutive_failures, 1)
            &&& post.decision_cache == pre.decision_cache
            &&& post.conversation_history == pre.conversation_history
        },
    }
}

impl LLMAgent {
    /// The first half of one decision: answer from the cache, degrade to the
    /// fallback cycle, or plan the request for the remote service. Always
    /// returns at once; the configured timeout bounds the caller's exchange.
    pub fn begin_decision(&mut self, state: &GameState, now_ms: u64) -> (step: DecisionStep)
        requires
            old(self).wf(),
        ensures
            final(self).wf(),
            spec_begin_post(*old(self), *final(self), *state, now_ms, step),
    {
        let h = state_fingerprint(state);
        match self.decision_cache.get(h, now_ms) {
            Some(a) => {
                return DecisionStep::Ready(a);
            },
            None => {},
        }
        self.decision_cache.clear_expired(now_ms);
        if self.consecutive_failures >= self.max_consecutive_failures {
            let a = self.get_fallback_action();
            return DecisionStep::Ready(a);
        }
        let prompt = self.state_to_prompt(state);
        let mut stops: Vec<String> = Vec::new();
        stops.push(String::from_str("\n"));
        DecisionStep::Query(
            LLMRequest {
                model: self.config.model_name.clone(),
                prompt,
                max_tokens: self.config.max_tokens,
                temperature: self.config.temperature,
                top_p: self.config.top_p,
                stop_sequences: Some(stops),
                system_prompt: Some(self.config.system_prompt.clone()),
            },
        )
    }

    /// The second half of one decision, given the outcome of the exchange
    /// the planned request asked for.
    pub fn finish_decision(&mut self, state: &GameState, outcome: &QueryOutcome, now_ms: u64) -> (a:
        AgentAction)
        requires
            old(self).wf(),
        ensures
            final(self).wf(),
            spec_finish_post(*old(self), *final(self), *state, *outcome, now_ms, a),
    {
        match outcome {
            QueryOutcome::Success { response, latency_ms } => {
                let action = parse_action(response.text.as_str());
                self.record_success(*latency_ms, response.tokens_used);
                let h = state_fingerprint(state);
                self.decision_cache.insert(h, clone_action(&action), CACHE_TTL_MS, now_ms);
                self.update_conversation_history(state, &action);
                action
            },
            QueryOutcome::Failure { error: _ } => {
                self.record_failure();
                self.get_fallback_action()
            },
        }
    }

    /// Appends one decision summary to the history, dropping the oldest
    /// entry when the history is full.
    fn update_conversation_history(&mut self, state: &GameState, action: &AgentAction)
        requires
            old(self).wf(),
        ensures
            final(self).wf(),
            spec_noted_history(
                old(self).conversation_history@,
                old(self).max_history_size,
                final(self).conversation_history@,
                spec_history_entry(*state, *action),
            ),
            *final(self) == (LLMAgent {
                conversation_history: final(self).conversation_history,
                ..*old(self)
            }),
    {
        let mut entry = String::from_str("Tick ");
        entry.append(fmt_u128(state.current_tick as u128).as_str());
        entry.append(": Health=");
        entry.append(fmt_milli(state.health).as_str());
        entry.append(", Pos=(");
        entry.append(fmt_milli(state.position.x).as_str());
        entry.append(",");
        entry.append(fmt_milli(state.position.z).as_str());
        entry.append(") -> ");
        entry.append(action_label(action).as_str());
        proof {
            assert(entry@ =~= spec_history_entry(*state, *action));
        }
        self.note_history(entry);
    }
}

/// The bounded history after noting `entry`: the note is appended and, when
/// the history is over capacity, the oldest entry falls out.
pub open spec fn spec_noted_history(h: Seq<String>, max: usize, hl: Seq<String>, entry: Seq<char>) -> bool {
    if h.len() + 1 > max {
        hl == h.push(hl.last()).drop_first() && hl.last()@ == entry
    } else {
        hl == h.push(hl.last()) && hl.last()@ == entry
    }
}

impl LLMAgent {
    /// Appends a note to the bounded history.
    fn note_history(&mut self, entry: String)
        requires
            old(self).wf(),
        ensures
            final(self).wf(),
            spec_noted_history(
                old(self).conversation_history@,
                old(self).max_history_size,
                final(self).conversation_history@,
                entry@,
            ),
            *final(self) == (LLMAgent {
                conversation_history: final(self).conversation_history,
                ..*old(self)
            }),
    {
        self.conversation_history.push(entry);
        if self.conversation_history.len() > self.max_history_size {
            self.conversation_history.remove(0);
            proof {
                assert(self.conversation_history@ =~= old(
                    self,
                ).conversation_history@.push(self.conversation_history@.last()).drop_first());
            }
        }
    }

    /// Notes the damage and its source in the history.
    pub fn on_damage_received(&mut self, damage: i64, attacker_id: AgentId) -> (r: Result<
        (),
        AgentError,
    >)
        requires
            old(self).wf(),
        ensures
            r is Ok,
            final(self).wf(),
            spec_noted_history(
                old(self).conversation_history@,
                old(self).max_history_size,
                final(self).conversation_history@,
                "Received "@ + spec_fmt_milli(damage as int) + " damage from "@ + spec_dec_digits(
                    attacker_id as int,
                ),
            ),
            *final(self) == (LLMAgent {
                conversation_history: final(self).conversation_history,
                ..*old(self)
            }),
    {
        let mut entry = String::from_str("Received ");
        entry.append(fmt_milli(damage).as_str());
        entry.append(" damage from ");
        entry.append(fmt_u128(attacker_id).as_str());
        proof {
            assert(entry@ =~= "Received "@ + spec_fmt_milli(damage as int) + " damage from "@
                + spec_dec_digits(attacker_id as int));
        }
        self.note_history(entry);
        Ok(())
    }

    /// Notes the elimination in the history.
    pub fn on_kill(&mut self, victim_id: AgentId) -> (r: Result<(), AgentError>)
        requires
            old(self).wf(),
        ensures
            r is Ok,
            final(self).wf(),
            spec_noted_history(
                old(self).conversation_history@,
                old(self).max_history_size,
                final(self).conversation_history@,
                "Eliminated enemy "@ + spec_dec_digits(victim_id as int),
            ),
            *final(self) == (LLMAgent {
                conversation_history: final(self).conversation_history,
                ..*old(self)
            }),
    {
        let mut entry = String::from_str("Eliminated enemy ");
        entry.append(fmt_u128(victim_id).as_str());
        proof {
            assert(entry@ =~= "Eliminated enemy "@ + spec_dec_digits(victim_id as int));
        }
        self.note_history(entry);
        Ok(())
    }

    /// Notes the death in the history.
    pub fn on_death(&mut self) -> (r: Result<(), AgentError>)
        requires
            old(self).wf(),
        ensures
            r is Ok,
            final(self).wf(),
            spec_noted_history(
                old(self).conversation_history@,
                old(self).max_history_size,
                final(self).conversation_history@,
                "Agent died"@,
            ),
            *final(self) == (LLMAgent {
                conversation_history: final(self).conversation_history,
                ..*old(self)
            }),
    {
        self.note_history(String::from_str("Agent died"));
        Ok(())
    }

    /// Notes a received message and its sender in the history.
    pub fn on_message(&mut self, sender_id: AgentId, message: &str) -> (r: Result<
        (),
        AgentError,
    >)
        requires
            old(self).wf(),
        ensures
            r is Ok,
            final(self).wf(),
            spec_noted_history(
                old(self).conversation_history@,
                old(self).max_history_size,
                final(self).conversation_history@,
                "Message from "@ + spec_dec_digits(sender_id as int) + ": "@ + message@,
            ),
            *final(self) == (LLMAgent {
                conversation_history: final(self).conversation_history,
                ..*old(self)
            }),
    {
        let mut entry = String::from_str("Message from ");
        entry.append(fmt_u128(sender_id).as_str());
        entry.append(": ");
        entry.append(message);
        proof {
            assert(entry@ =~= "Message from "@ + spec_dec_digits(sender_id as int) + ": "@
                + message@);
        }
        self.note_history(entry);
        Ok(())
    }
}

/// The cyclic index after `k` single steps with wrap-around.
pub open spec fn spec_cycle(idx: int, k: nat, len: int) -> int
    decreases k,
{
    if k == 0 {
        idx
    } else {
        spec_cycle((idx + 1) % len, (k - 1) as nat, len)
    }
}

/// Fallback cycling: starting at any index, the `k`-th degraded decision
/// reads the list at `(idx + k) % len`, so `k` consecutive degraded
/// decisions return `k` consecutive list entries in order, wrapping after
/// the list length.
pub proof fn lemma_fallback_cycles(idx: int, k: nat, len: int)
    requires
        0 < len,
        0 <= idx < len,
    ensures
        spec_cycle(idx, k, len) == (idx + k) % len,
    decreases k,
{
    if k == 0 {
        vstd::arithmetic::div_mod::lemma_small_mod(idx as nat, len as nat);
    } else {
        let i1 = (idx + 1) % len;
        vstd::arithmetic::div_mod::lemma_mod_bound(idx + 1, len);
        lemma_fallback_cycles(i1, (k - 1) as nat, len);
        // (i1 + (k - 1)) % len == (idx + k) % len
        vstd::arithmetic::div_mod::lemma_add_mod_noop(i1, k - 1, len);
        vstd::arithmetic::div_mod::lemma_mod_twice(idx + 1, len);
        vstd::arithmetic::div_mod::lemma_add_mod_noop(idx + 1, k - 1, len);
        assert((i1 + (k - 1)) % len == ((i1 % len) + ((k - 1) % len)) % len);
        assert(i1 % len == (idx + 1) % len);
        assert((idx + 1 + (k - 1)) % len == (idx + k) % len);
    }
}

} // verus!
