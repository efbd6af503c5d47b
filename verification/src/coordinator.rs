//! What a coordinator makes of the lifecycle snapshots of a thread: who owns the
//! next action in it.

use crate::event::Event;
use crate::ids::EventId;
use crate::lifecycle::AgentThreadState;
use crate::lifecycle::ParsedAgentThreadLifecycle;
use crate::text::same_bytes;
use crate::text::same_text;
use vstd::prelude::*;

verus! {

/// The last word of an agent on its turn in a thread.
#[derive(Debug, PartialEq, Eq)]
pub struct AgentTurnRecord {
    pub state: AgentThreadState,
    pub revision: u64,
    /// The event that says so.
    pub event_id: EventId,
    pub turn_id: String,
    pub expires_at: Option<u64>,
    /// Whether the agent itself said so; else the coordinator inferred it.
    pub authoritative: bool,
}

/// What an [`AgentTurnRecord`] holds.
pub struct AgentTurnRecordView {
    pub state: AgentThreadState,
    pub revision: u64,
    pub event_id: Seq<u8>,
    pub turn_id: Seq<char>,
    pub expires_at: Option<u64>,
    pub authoritative: bool,
}

impl View for AgentTurnRecord {
    type V = AgentTurnRecordView;

    open spec fn view(&self) -> AgentTurnRecordView {
        AgentTurnRecordView {
            state: self.state,
            revision: self.revision,
            event_id: self.event_id@,
            turn_id: self.turn_id@,
            expires_at: self.expires_at,
            authoritative: self.authoritative,
        }
    }
}

#[derive(Debug, PartialEq, Eq)]
struct AgentTurn {
    agent: [u8; 32],
    record: AgentTurnRecord,
}

/// The agents' turns in one thread.
#[derive(Debug, PartialEq, Eq)]
pub struct ThreadTurns {
    turns: Vec<AgentTurn>,
}

/// Whether the turns in `s` are of different agents.
spec fn distinct_agents(s: Seq<AgentTurn>) -> bool {
    forall|i: int, j: int|
        0 <= i < j < s.len() ==> (#[trigger] s[i]).agent@ != (#[trigger] s[j]).agent@
}

/// Whether the turn at `i` is that of `agent`.
spec fn is_turn_of(s: Seq<AgentTurn>, i: int, agent: Seq<u8>) -> bool {
    0 <= i < s.len() && s[i].agent@ == agent
}

spec fn turns_map(s: Seq<AgentTurn>) -> Map<Seq<u8>, AgentTurnRecordView> {
    Map::new(
        |agent: Seq<u8>| exists|i: int| is_turn_of(s, i, agent),
        |agent: Seq<u8>| s[choose|i: int| is_turn_of(s, i, agent)].record@,
    )
}

impl View for ThreadTurns {
    type V = Map<Seq<u8>, AgentTurnRecordView>;

    /// The record of each agent, by its public key.
    closed spec fn view(&self) -> Map<Seq<u8>, AgentTurnRecordView> {
        turns_map(self.turns@)
    }
}

/// Whether `a` comes before `b` in lexicographic order.
pub open spec fn bytes_before(a: Seq<u8>, b: Seq<u8>) -> bool {
    ||| a.len() < b.len() && a == b.take(a.len() as int)
    ||| exists|i: int|
        0 <= i < a.len() && i < b.len() && a.take(i) == b.take(i) && #[trigger] a[i] < b[i]
}

/// Whether `a` is older than `b`: by its revision, and by the id of its event
/// where the revisions are the same.
pub open spec fn is_older(a: AgentTurnRecordView, b: AgentTurnRecordView) -> bool {
    a.revision < b.revision || a.revision == b.revision && bytes_before(a.event_id, b.event_id)
}

/// Whether `incoming` takes the place of `existing`.
///
/// The end of a turn is final for it. Otherwise what the agent said takes the
/// place of what was inferred, an inference that of a turn which has ended, and
/// of two of the same sort the newer that of the older.
pub open spec fn supersedes(incoming: AgentTurnRecordView, existing: AgentTurnRecordView) -> bool {
    &&& !(existing.turn_id == incoming.turn_id && existing.state != AgentThreadState::Agent
        && incoming.state == AgentThreadState::Agent)
    &&& match (existing.authoritative, incoming.authoritative) {
        (false, true) => true,
        (true, false) => existing.state != AgentThreadState::Agent,
        _ => is_older(existing, incoming),
    }
}

/// The turns of a thread once `incoming` has come from `agent`.
pub open spec fn recorded(
    turns: Map<Seq<u8>, AgentTurnRecordView>,
    agent: Seq<u8>,
    incoming: AgentTurnRecordView,
) -> Map<Seq<u8>, AgentTurnRecordView> {
    if turns.contains_key(agent) && !supersedes(incoming, turns[agent]) {
        turns
    } else {
        turns.insert(agent, incoming)
    }
}

/// Whether `a` comes before `b` in lexicographic order.
fn is_before(a: &[u8; 32], b: &[u8; 32]) -> (r: bool)
    ensures
        r == bytes_before(a@, b@),
{
    let mut i: usize = 0;
    while i < 32
        invariant
            i <= 32,
            a@.len() == 32,
            b@.len() == 32,
            a@.take(i as int) == b@.take(i as int),
        decreases 32 - i,
    {
        if a[i] != b[i] {
            proof {
                if a@[i as int] > b@[i as int] && bytes_before(a@, b@) {
                    assert(a@ != b@.take(32)) by {
                        assert(b@.take(32)[i as int] == b@[i as int]);
                    }
                    let k = choose|k: int|
                        0 <= k < a@.len() && k < b@.len() && a@.take(k) == b@.take(k) && #[trigger] a@[k]
                            < b@[k];
                    if k < i {
                        assert(a@.take(i as int)[k] == b@.take(i as int)[k]);
                    } else if k > i {
                        assert(a@.take(k)[i as int] == b@.take(k)[i as int]);
                    }
                }
            }
            return a[i] < b[i];
        }
        assert(a@.take(i + 1) =~= a@.take(i as int).push(a@[i as int]));
        assert(b@.take(i + 1) =~= b@.take(i as int).push(b@[i as int]));
        i = i + 1;
    }
    proof {
        assert(a@.take(32) =~= a@);
        assert(b@.take(32) =~= b@);
    }
    false
}

/// Whether `incoming` takes the place of `existing`.
fn takes_place(incoming: &AgentTurnRecord, existing: &AgentTurnRecord) -> (r: bool)
    ensures
        r == supersedes(incoming@, existing@),
{
    if existing.state != AgentThreadState::Agent && incoming.state == AgentThreadState::Agent
        && same_text(existing.turn_id.as_str(), incoming.turn_id.as_str()) {
        return false;
    }
    if !existing.authoritative && incoming.authoritative {
        true
    } else if existing.authoritative && !incoming.authoritative {
        existing.state != AgentThreadState::Agent
    } else {
        existing.revision < incoming.revision || existing.revision == incoming.revision
            && is_before(&existing.event_id.bytes, &incoming.event_id.bytes)
    }
}

proof fn lemma_turn_in_map(s: Seq<AgentTurn>, i: int)
    requires
        distinct_agents(s),
        0 <= i < s.len(),
    ensures
        turns_map(s).contains_key(s[i].agent@),
        turns_map(s)[s[i].agent@] == s[i].record@,
{
    assert(is_turn_of(s, i, s[i].agent@));
    let k = choose|k: int| is_turn_of(s, k, s[i].agent@);
    assert(is_turn_of(s, k, s[i].agent@));
    if k < i {
        assert(s[k].agent@ != s[i].agent@);
    } else if i < k {
        assert(s[i].agent@ != s[k].agent@);
    }
}

proof fn lemma_map_has_turn(s: Seq<AgentTurn>, agent: Seq<u8>) -> (i: int)
    requires
        distinct_agents(s),
        turns_map(s).contains_key(agent),
    ensures
        0 <= i < s.len(),
        s[i].agent@ == agent,
        turns_map(s)[agent] == s[i].record@,
{
    let i = choose|i: int| is_turn_of(s, i, agent);
    lemma_turn_in_map(s, i);
    i
}

proof fn lemma_turn_replaced(s: Seq<AgentTurn>, i: int, turn: AgentTurn)
    requires
        distinct_agents(s),
        0 <= i < s.len(),
        turn.agent@ == s[i].agent@,
    ensures
        distinct_agents(s.update(i, turn)),
        turns_map(s.update(i, turn)) == turns_map(s).insert(turn.agent@, turn.record@),
{
    let after = s.update(i, turn);
    assert forall|agent: Seq<u8>| true implies turns_map(after).contains_key(agent)
        == turns_map(s).insert(turn.agent@, turn.record@).contains_key(agent) by {
        if turns_map(after).contains_key(agent) {
            let k = lemma_map_has_turn(after, agent);
            if k != i {
                lemma_turn_in_map(s, k);
            }
        }
        if turns_map(s).contains_key(agent) {
            let k = lemma_map_has_turn(s, agent);
            lemma_turn_in_map(after, k);
        }
        lemma_turn_in_map(after, i);
    }
    assert forall|agent: Seq<u8>| turns_map(after).contains_key(agent) implies turns_map(
        after,
    )[agent] == turns_map(s).insert(turn.agent@, turn.record@)[agent] by {
        let k = lemma_map_has_turn(after, agent);
        if k != i {
            lemma_turn_in_map(s, k);
            assert(after[k].agent@ != after[i].agent@);
        }
    }
    assert(turns_map(after) =~= turns_map(s).insert(turn.agent@, turn.record@));
}

proof fn lemma_turn_added(s: Seq<AgentTurn>, turn: AgentTurn)
    requires
        distinct_agents(s),
        forall|i: int| 0 <= i < s.len() ==> (#[trigger] s[i]).agent@ != turn.agent@,
    ensures
        !turns_map(s).contains_key(turn.agent@),
        distinct_agents(s.push(turn)),
        turns_map(s.push(turn)) == turns_map(s).insert(turn.agent@, turn.record@),
{
    let after = s.push(turn);
    if turns_map(s).contains_key(turn.agent@) {
        let k = lemma_map_has_turn(s, turn.agent@);
    }
    assert forall|agent: Seq<u8>| true implies turns_map(after).contains_key(agent)
        == turns_map(s).insert(turn.agent@, turn.record@).contains_key(agent) by {
        if turns_map(after).contains_key(agent) {
            let k = lemma_map_has_turn(after, agent);
            if k < s.len() {
                lemma_turn_in_map(s, k);
            }
        }
        if turns_map(s).contains_key(agent) {
            let k = lemma_map_has_turn(s, agent);
            lemma_turn_in_map(after, k);
        }
        lemma_turn_in_map(after, s.len() as int);
    }
    assert forall|agent: Seq<u8>| turns_map(after).contains_key(agent) implies turns_map(
        after,
    )[agent] == turns_map(s).insert(turn.agent@, turn.record@)[agent] by {
        let k = lemma_map_has_turn(after, agent);
        if k < s.len() {
            lemma_turn_in_map(s, k);
        }
    }
    assert(turns_map(after) =~= turns_map(s).insert(turn.agent@, turn.record@));
}

/// Whether `record` says that an agent owns the next action, until some time.
pub open spec fn is_active(record: AgentTurnRecordView) -> bool {
    record.state == AgentThreadState::Agent && record.expires_at is Some
}

/// Whether some agent's record is active.
pub open spec fn any_active(turns: Map<Seq<u8>, AgentTurnRecordView>) -> bool {
    exists|agent: Seq<u8>| #[trigger] turns.contains_key(agent) && is_active(turns[agent])
}

/// Whether some agent's record says `state`.
pub open spec fn any_in_state(
    turns: Map<Seq<u8>, AgentTurnRecordView>,
    state: AgentThreadState,
) -> bool {
    exists|agent: Seq<u8>| #[trigger] turns.contains_key(agent) && turns[agent].state == state
}

/// Whether `expires_at` is when the last active record expires.
pub open spec fn is_last_expiry(
    turns: Map<Seq<u8>, AgentTurnRecordView>,
    expires_at: u64,
) -> bool {
    &&& exists|agent: Seq<u8>|
        #[trigger] turns.contains_key(agent) && is_active(turns[agent]) && turns[agent].expires_at
            == Some(expires_at)
    &&& forall|agent: Seq<u8>|
        #[trigger] turns.contains_key(agent) && is_active(turns[agent])
            ==> turns[agent].expires_at->0 <= expires_at
}

/// Whether `status` is that of a thread with these turns: an agent's until the
/// last active record expires; with none active, failed if any agent failed; else
/// a human's if any agent is done.
pub open spec fn is_thread_status(
    turns: Map<Seq<u8>, AgentTurnRecordView>,
    status: Option<(AgentThreadState, Option<u64>)>,
) -> bool {
    if any_active(turns) {
        status matches Some((AgentThreadState::Agent, Some(expires_at))) && is_last_expiry(
            turns,
            expires_at,
        )
    } else if any_in_state(turns, AgentThreadState::Failed) {
        status == Some((AgentThreadState::Failed, None::<u64>))
    } else if any_in_state(turns, AgentThreadState::Human) {
        status == Some((AgentThreadState::Human, None::<u64>))
    } else {
        status is None
    }
}

/// Whether the time of an active record is up.
pub open spec fn is_stale(record: AgentTurnRecordView, now: u64) -> bool {
    record.state == AgentThreadState::Agent && record.expires_at is Some && record.expires_at->0
        <= now
}

/// A record once its time is up: the turn failed, under a name of its own.
pub open spec fn gone_stale(record: AgentTurnRecordView, revision: u64) -> AgentTurnRecordView {
    AgentTurnRecordView {
        state: AgentThreadState::Failed,
        revision,
        turn_id: "stale:"@ + record.turn_id,
        expires_at: None,
        ..record
    }
}

/// A record at the time `now`.
pub open spec fn aged(record: AgentTurnRecordView, now: u64, revision: u64) -> AgentTurnRecordView {
    if is_stale(record, now) {
        gone_stale(record, revision)
    } else {
        record
    }
}

/// The turns of a thread at the time `now`.
pub open spec fn expired(
    turns: Map<Seq<u8>, AgentTurnRecordView>,
    now: u64,
    revision: u64,
) -> Map<Seq<u8>, AgentTurnRecordView> {
    turns.map_values(|record: AgentTurnRecordView| aged(record, now, revision))
}

impl ThreadTurns {
    /// Whether there is one record for each agent.
    pub closed spec fn wf(self) -> bool {
        distinct_agents(self.turns@)
    }

    /// A thread in which no agent has a turn.
    pub fn new() -> (r: ThreadTurns)
        ensures
            r.wf(),
            r@ == Map::<Seq<u8>, AgentTurnRecordView>::empty(),
    {
        let r = ThreadTurns { turns: Vec::new() };
        assert(r@ =~= Map::<Seq<u8>, AgentTurnRecordView>::empty());
        r
    }

    /// Records what has come from `agent`, unless it is out of date.
    pub fn record_agent_turn(&mut self, agent: [u8; 32], incoming: AgentTurnRecord)
        requires
            old(self).wf(),
        ensures
            final(self).wf(),
            final(self)@ == recorded(old(self)@, agent@, incoming@),
    {
        let mut i: usize = 0;
        while i < self.turns.len()
            invariant
                i <= self.turns@.len(),
                *self == *old(self),
                self.wf(),
                forall|j: int| 0 <= j < i ==> (#[trigger] self.turns@[j]).agent@ != agent@,
            decreases self.turns@.len() - i,
        {
            if same_bytes(self.turns[i].agent.as_slice(), agent.as_slice()) {
                proof {
                    lemma_turn_in_map(self.turns@, i as int);
                }
                if takes_place(&incoming, &self.turns[i].record) {
                    let turn = AgentTurn { agent, record: incoming };
                    proof {
                        lemma_turn_replaced(self.turns@, i as int, turn);
                    }
                    self.turns.set(i, turn);
                }
                return ;
            }
            i = i + 1;
        }
        let turn = AgentTurn { agent, record: incoming };
        proof {
            lemma_turn_added(self.turns@, turn);
        }
        self.turns.push(turn);
    }

    /// Records a lifecycle event that was parsed and whose author was found to be
    /// an agent of the owner's.
    pub fn record_lifecycle(&mut self, event: &Event, parsed: ParsedAgentThreadLifecycle)
        requires
            old(self).wf(),
        ensures
            final(self).wf(),
            final(self)@ == recorded(
                old(self)@,
                event.pubkey@,
                (AgentTurnRecordView {
                    state: parsed.lifecycle.state,
                    revision: parsed.lifecycle.revision,
                    event_id: event.id@,
                    turn_id: parsed.lifecycle.turn_id@,
                    expires_at: parsed.lifecycle.expires_at,
                    authoritative: true,
                }),
            ),
    {
        let lifecycle = parsed.lifecycle;
        self.record_agent_turn(
            event.pubkey,
            AgentTurnRecord {
                state: lifecycle.state,
                revision: lifecycle.revision,
                event_id: event.id,
                turn_id: lifecycle.turn_id,
                expires_at: lifecycle.expires_at,
                authoritative: true,
            },
        );
    }

    /// Who owns the next action in the thread, and until when an agent does;
    /// `None` if nothing is known of it.
    pub fn aggregate_thread_status(&self) -> (r: Option<(AgentThreadState, Option<u64>)>)
        requires
            self.wf(),
        ensures
            is_thread_status(self@, r),
    {
        let mut active: Option<u64> = None;
        let mut failed = false;
        let mut human = false;
        let mut i: usize = 0;
        while i < self.turns.len()
            invariant
                i <= self.turns@.len(),
                self.wf(),
                forall|j: int|
                    0 <= j < i && is_active((#[trigger] self.turns@[j]).record@) ==> active is Some
                        && self.turns@[j].record.expires_at->0 <= active->0,
                active is Some ==> exists|j: int|
                    0 <= j < i && is_active((#[trigger] self.turns@[j]).record@)
                        && self.turns@[j].record.expires_at == active,
                failed <==> exists|j: int|
                    0 <= j < i && (#[trigger] self.turns@[j]).record.state
                        == AgentThreadState::Failed,
                human <==> exists|j: int|
                    0 <= j < i && (#[trigger] self.turns@[j]).record.state
                        == AgentThreadState::Human,
            decreases self.turns@.len() - i,
        {
            let record = &self.turns[i].record;
            match record.state {
                AgentThreadState::Agent => match (record.expires_at, active) {
                    (Some(at), Some(last)) => {
                        if at > last {
                            active = Some(at);
                        }
                    },
                    (Some(at), None) => {
                        active = Some(at);
                    },
                    (None, _) => {},
                },
                AgentThreadState::Failed => {
                    failed = true;
                },
                AgentThreadState::Human => {
                    human = true;
                },
            }
            i = i + 1;
        }
        proof {
            lemma_map_values(self.turns@);
        }
        match active {
            Some(at) => {
                proof {
                    let j = choose|j: int|
                        0 <= j < self.turns@.len() && is_active((#[trigger] self.turns@[j]).record@)
                            && self.turns@[j].record.expires_at == active;
                    assert(self@.contains_key(self.turns@[j].agent@));
                    assert(any_active(self@));
                    assert(is_last_expiry(self@, at));
                }
                Some((AgentThreadState::Agent, Some(at)))
            },
            None => {
                if failed {
                    proof {
                        let j = choose|j: int|
                            0 <= j < self.turns@.len() && (#[trigger] self.turns@[j]).record.state
                                == AgentThreadState::Failed;
                        assert(self@.contains_key(self.turns@[j].agent@));
                    }
                    Some((AgentThreadState::Failed, None))
                } else if human {
                    proof {
                        let j = choose|j: int|
                            0 <= j < self.turns@.len() && (#[trigger] self.turns@[j]).record.state
                                == AgentThreadState::Human;
                        assert(self@.contains_key(self.turns@[j].agent@));
                    }
                    Some((AgentThreadState::Human, None))
                } else {
                    None
                }
            },
        }
    }
}

/// The map of turns holds the records of the turns, and no others.
proof fn lemma_map_values(s: Seq<AgentTurn>)
    requires
        distinct_agents(s),
    ensures
        forall|i: int|
            0 <= i < s.len() ==> turns_map(s).contains_key((#[trigger] s[i]).agent@) && turns_map(
                s,
            )[s[i].agent@] == s[i].record@,
        forall|agent: Seq<u8>| #[trigger]
            turns_map(s).contains_key(agent) ==> exists|i: int|
                0 <= i < s.len() && (#[trigger] s[i]).agent@ == agent && turns_map(s)[agent]
                    == s[i].record@,
{
    assert forall|i: int| 0 <= i < s.len() implies turns_map(s).contains_key(
        (#[trigger] s[i]).agent@,
    ) && turns_map(s)[s[i].agent@] == s[i].record@ by {
        lemma_turn_in_map(s, i);
    }
    assert forall|agent: Seq<u8>| #[trigger] turns_map(s).contains_key(agent) implies exists|i: int|
        0 <= i < s.len() && (#[trigger] s[i]).agent@ == agent && turns_map(s)[agent]
            == s[i].record@ by {
        let i = lemma_map_has_turn(s, agent);
        assert(s[i].agent@ == agent);
    }
}

proof fn lemma_turns_aged(a: Seq<AgentTurn>, b: Seq<AgentTurn>, now: u64, revision: u64)
    requires
        distinct_agents(a),
        a.len() == b.len(),
        forall|i: int|
            0 <= i < a.len() ==> (#[trigger] b[i]).agent@ == a[i].agent@ && b[i].record@ == aged(
                a[i].record@,
                now,
                revision,
            ),
    ensures
        distinct_agents(b),
        turns_map(b) == expired(turns_map(a), now, revision),
{
    assert forall|i: int, j: int| 0 <= i < j < b.len() implies (#[trigger] b[i]).agent@
        != (#[trigger] b[j]).agent@ by {
        assert(a[i].agent@ != a[j].agent@);
    }
    assert forall|agent: Seq<u8>| true implies turns_map(a).contains_key(agent) == turns_map(
        b,
    ).contains_key(agent) by {
        if turns_map(a).contains_key(agent) {
            let i = lemma_map_has_turn(a, agent);
            lemma_turn_in_map(b, i);
        }
        if turns_map(b).contains_key(agent) {
            let i = lemma_map_has_turn(b, agent);
            lemma_turn_in_map(a, i);
        }
    }
    assert forall|agent: Seq<u8>| turns_map(b).contains_key(agent) implies turns_map(b)[agent]
        == expired(turns_map(a), now, revision)[agent] by {
        let i = lemma_map_has_turn(b, agent);
        lemma_turn_in_map(a, i);
    }
    assert(turns_map(b) =~= expired(turns_map(a), now, revision));
}

impl ThreadTurns {
    /// Marks the turns whose time is up at `now` as failed, with the given
    /// revision, and tells whether there were any.
    pub fn expire(&mut self, now: u64, revision: u64) -> (r: bool)
        requires
            old(self).wf(),
        ensures
            final(self).wf(),
            final(self)@ == expired(old(self)@, now, revision),
            r <==> exists|agent: Seq<u8>|
                #[trigger] old(self)@.contains_key(agent) && is_stale(old(self)@[agent], now),
            r <==> exists|agent: Seq<u8>|
                #[trigger] old(self)@.contains_key(agent) && old(self)@[agent].state
                    == AgentThreadState::Agent && old(self)@[agent].expires_at is Some && old(
                    self,
                )@[agent].expires_at->0 <= now,
    {
        let ghost before = self.turns@;
        let mut changed = false;
        let mut i: usize = 0;
        while i < self.turns.len()
            invariant
                i <= self.turns@.len(),
                self.turns@.len() == before.len(),
                forall|j: int|
                    0 <= j < i ==> (#[trigger] self.turns@[j]).agent@ == before[j].agent@
                        && self.turns@[j].record@ == aged(before[j].record@, now, revision),
                forall|j: int| i <= j < before.len() ==> #[trigger] self.turns@[j] == before[j],
                changed <==> exists|j: int|
                    0 <= j < i && is_stale((#[trigger] before[j]).record@, now),
            decreases self.turns@.len() - i,
        {
            let turn = &self.turns[i];
            let stale = match (turn.record.state, turn.record.expires_at) {
                (AgentThreadState::Agent, Some(at)) => at <= now,
                _ => false,
            };
            assert(stale == is_stale(before[i as int].record@, now));
            if stale {
                let failed = AgentTurn {
                    agent: turn.agent,
                    record: AgentTurnRecord {
                        state: AgentThreadState::Failed,
                        revision,
                        event_id: turn.record.event_id,
                        turn_id: "stale:".to_owned().concat(turn.record.turn_id.as_str()),
                        expires_at: None,
                        authoritative: turn.record.authoritative,
                    },
                };
                self.turns.set(i, failed);
                changed = true;
            }
            i = i + 1;
        }
        proof {
            lemma_turns_aged(before, self.turns@, now, revision);
            lemma_map_values(before);
            if changed {
                let j = choose|j: int|
                    0 <= j < before.len() && is_stale((#[trigger] before[j]).record@, now);
                assert(turns_map(before).contains_key(before[j].agent@));
            }
        }
        changed
    }
}

/// The emoji by which a thread's status is shown.
pub fn status_emoji(status: AgentThreadState) -> (r: &'static str)
    ensures
        r@ == match status {
            AgentThreadState::Agent => "⏳"@,
            AgentThreadState::Human => "✅"@,
            AgentThreadState::Failed => "⚠️"@,
        },
{
    match status {
        AgentThreadState::Agent => "⏳",
        AgentThreadState::Human => "✅",
        AgentThreadState::Failed => "⚠️",
    }
}

/// A snapshot that is older than the last from the same agent is rejected.
pub proof fn law_older_snapshot_is_rejected(
    turns: Map<Seq<u8>, AgentTurnRecordView>,
    agent: Seq<u8>,
    incoming: AgentTurnRecordView,
)
    requires
        turns.contains_key(agent),
        turns[agent].authoritative,
        incoming.authoritative,
        incoming.revision < turns[agent].revision,
    ensures
        recorded(turns, agent, incoming) == turns,
{
}

/// A newer snapshot from the same agent is accepted, unless it is a refresh of a
/// turn that has ended.
pub proof fn law_newer_snapshot_is_accepted(
    turns: Map<Seq<u8>, AgentTurnRecordView>,
    agent: Seq<u8>,
    incoming: AgentTurnRecordView,
)
    requires
        turns.contains_key(agent),
        incoming.authoritative,
        turns[agent].revision < incoming.revision,
        incoming.state == AgentThreadState::Agent ==> turns[agent].state == AgentThreadState::Agent
            || turns[agent].turn_id != incoming.turn_id,
    ensures
        recorded(turns, agent, incoming) == turns.insert(agent, incoming),
{
}

/// The end of a turn dominates a refresh of the same turn, however late that is
/// delivered and whatever revision it carries.
pub proof fn law_ended_turn_is_not_revived(
    turns: Map<Seq<u8>, AgentTurnRecordView>,
    agent: Seq<u8>,
    refresh: AgentTurnRecordView,
)
    requires
        turns.contains_key(agent),
        turns[agent].state != AgentThreadState::Agent,
        refresh.state == AgentThreadState::Agent,
        refresh.turn_id == turns[agent].turn_id,
    ensures
        recorded(turns, agent, refresh) == turns,
{
}

/// Recording the same snapshot again changes nothing.
pub proof fn law_recording_is_idempotent(
    turns: Map<Seq<u8>, AgentTurnRecordView>,
    agent: Seq<u8>,
    incoming: AgentTurnRecordView,
)
    ensures
        recorded(recorded(turns, agent, incoming), agent, incoming) == recorded(
            turns,
            agent,
            incoming,
        ),
{
    let id = incoming.event_id;
    assert(!bytes_before(id, id));
    assert(turns.insert(agent, incoming).insert(agent, incoming) =~= turns.insert(agent, incoming));
}

/// What comes from one agent leaves the records of the others alone.
pub proof fn law_agents_are_independent(
    turns: Map<Seq<u8>, AgentTurnRecordView>,
    agent: Seq<u8>,
    other: Seq<u8>,
    incoming: AgentTurnRecordView,
)
    requires
        other != agent,
    ensures
        recorded(turns, agent, incoming).contains_key(other) == turns.contains_key(other),
        recorded(turns, agent, incoming)[other] == turns[other],
{
}

/// Whether each record carries an expiry if and only if it is an agent's.
pub open spec fn well_timed(turns: Map<Seq<u8>, AgentTurnRecordView>) -> bool {
    forall|agent: Seq<u8>| #[trigger]
        turns.contains_key(agent) ==> (turns[agent].expires_at is Some <==> turns[agent].state
            == AgentThreadState::Agent)
}

/// Expiries stay with agents' records: valid snapshots and the passing of time
/// keep it so.
pub proof fn law_records_stay_well_timed(
    turns: Map<Seq<u8>, AgentTurnRecordView>,
    agent: Seq<u8>,
    incoming: AgentTurnRecordView,
    now: u64,
    revision: u64,
)
    requires
        well_timed(turns),
        incoming.expires_at is Some <==> incoming.state == AgentThreadState::Agent,
    ensures
        well_timed(Map::empty()),
        well_timed(recorded(turns, agent, incoming)),
        well_timed(expired(turns, now, revision)),
{
    let later = expired(turns, now, revision);
    assert forall|a: Seq<u8>| #[trigger] later.contains_key(a) implies (later[a].expires_at is Some
        <==> later[a].state == AgentThreadState::Agent) by {
        assert(turns.contains_key(a));
    }
}

/// At any time an agent owns the thread if and only if some agent's snapshot has
/// not expired; failing that it has failed if and only if some agent has failed
/// or its snapshot has expired; and a human owns it if and only if there are
/// agents and all of them are done.
pub proof fn law_status_at_a_time(
    turns: Map<Seq<u8>, AgentTurnRecordView>,
    now: u64,
    revision: u64,
    status: Option<(AgentThreadState, Option<u64>)>,
)
    requires
        well_timed(turns),
        is_thread_status(expired(turns, now, revision), status),
    ensures
        (status matches Some((AgentThreadState::Agent, _))) <==> (exists|agent: Seq<u8>|
            #[trigger] turns.contains_key(agent) && is_active(turns[agent]) && !is_stale(
                turns[agent],
                now,
            )),
        (status matches Some((AgentThreadState::Human, _))) <==> (turns.dom() != Set::<
            Seq<u8>,
        >::empty() && forall|agent: Seq<u8>| #[trigger]
            turns.contains_key(agent) ==> turns[agent].state == AgentThreadState::Human),
        (status matches Some((AgentThreadState::Failed, _))) <==> ((forall|agent: Seq<u8>|
            #[trigger] turns.contains_key(agent) && is_active(turns[agent]) ==> is_stale(
                turns[agent],
                now,
            )) && exists|agent: Seq<u8>|
            #[trigger] turns.contains_key(agent) && turns[agent].state != AgentThreadState::Human),
        status is None <==> turns.dom() == Set::<Seq<u8>>::empty(),
{
    let later = expired(turns, now, revision);
    assert forall|agent: Seq<u8>| #[trigger] turns.contains_key(agent) implies later.contains_key(
        agent,
    ) && later[agent] == aged(turns[agent], now, revision) by {}
    assert forall|agent: Seq<u8>| #[trigger] later.contains_key(agent) implies turns.contains_key(
        agent,
    ) && later[agent] == aged(turns[agent], now, revision) by {}
    if turns.dom() != Set::<Seq<u8>>::empty() {
        if forall|agent: Seq<u8>| !turns.contains_key(agent) {
            assert(turns.dom() =~= Set::<Seq<u8>>::empty());
        }
        let some = choose|agent: Seq<u8>| turns.contains_key(agent);
        assert(later.contains_key(some));
    } else {
        assert forall|agent: Seq<u8>| !later.contains_key(agent) by {
            assert(!turns.dom().contains(agent));
        }
    }
    if any_active(later) {
        let agent = choose|agent: Seq<u8>| #[trigger]
            later.contains_key(agent) && is_active(later[agent]);
        assert(turns.contains_key(agent) && is_active(turns[agent]) && !is_stale(
            turns[agent],
            now,
        ));
    } else {
        assert forall|agent: Seq<u8>| #[trigger]
            turns.contains_key(agent) && is_active(turns[agent]) implies is_stale(
            turns[agent],
            now,
        ) by {
            assert(later.contains_key(agent));
        }
        if any_in_state(later, AgentThreadState::Failed) {
            let agent = choose|agent: Seq<u8>| #[trigger]
                later.contains_key(agent) && later[agent].state == AgentThreadState::Failed;
            assert(turns.contains_key(agent) && turns[agent].state != AgentThreadState::Human);
        } else {
            assert forall|agent: Seq<u8>| #[trigger]
                turns.contains_key(agent) implies turns[agent].state == AgentThreadState::Human by {
                assert(later.contains_key(agent));
            }
        }
    }
}

/// A turn whose time is up has failed, until a newer refresh from its agent
/// arrives.
pub proof fn law_stale_turn_can_be_refreshed(
    turns: Map<Seq<u8>, AgentTurnRecordView>,
    agent: Seq<u8>,
    now: u64,
    revision: u64,
    refresh: AgentTurnRecordView,
)
    requires
        turns.contains_key(agent),
        is_stale(turns[agent], now),
        refresh.authoritative,
        refresh.turn_id == turns[agent].turn_id,
        refresh.revision > revision,
    ensures
        expired(turns, now, revision)[agent].state == AgentThreadState::Failed,
        recorded(expired(turns, now, revision), agent, refresh)[agent] == refresh,
{
    let old_id = turns[agent].turn_id;
    reveal_strlit("stale:");
    assert(("stale:"@ + old_id).len() == old_id.len() + 6);
}

/// The first that is heard of an agent is recorded, whatever it is.
pub proof fn law_first_record_is_accepted(
    turns: Map<Seq<u8>, AgentTurnRecordView>,
    agent: Seq<u8>,
    incoming: AgentTurnRecordView,
)
    requires
        !turns.contains_key(agent),
    ensures
        recorded(turns, agent, incoming) == turns.insert(agent, incoming),
{
}

/// An inferred turn takes the place of a turn that its agent has ended, however
/// that ended and whatever the revisions.
pub proof fn law_inference_follows_an_ended_turn(
    turns: Map<Seq<u8>, AgentTurnRecordView>,
    agent: Seq<u8>,
    incoming: AgentTurnRecordView,
)
    requires
        turns.contains_key(agent),
        turns[agent].authoritative,
        turns[agent].state != AgentThreadState::Agent,
        !incoming.authoritative,
        incoming.turn_id != turns[agent].turn_id || incoming.state != AgentThreadState::Agent,
    ensures
        recorded(turns, agent, incoming) == turns.insert(agent, incoming),
{
}

/// An inference never takes the place of a turn that its agent says is under way.
pub proof fn law_inference_yields_to_a_turn_under_way(
    turns: Map<Seq<u8>, AgentTurnRecordView>,
    agent: Seq<u8>,
    incoming: AgentTurnRecordView,
)
    requires
        turns.contains_key(agent),
        turns[agent].authoritative,
        turns[agent].state == AgentThreadState::Agent,
        !incoming.authoritative,
    ensures
        recorded(turns, agent, incoming) == turns,
{
}

/// What an agent says takes the place of what was inferred, whatever the
/// revisions, unless it refreshes a turn that has ended.
pub proof fn law_agent_overrides_inference(
    turns: Map<Seq<u8>, AgentTurnRecordView>,
    agent: Seq<u8>,
    incoming: AgentTurnRecordView,
)
    requires
        turns.contains_key(agent),
        !turns[agent].authoritative,
        incoming.authoritative,
        turns[agent].state == AgentThreadState::Agent || incoming.state != AgentThreadState::Agent
            || turns[agent].turn_id != incoming.turn_id,
    ensures
        recorded(turns, agent, incoming) == turns.insert(agent, incoming),
{
}

/// Of two ids the one with the smaller byte at their first difference comes
/// before the other, and not the other way round.
pub proof fn law_ids_are_ordered_by_their_first_difference(a: Seq<u8>, b: Seq<u8>, i: int)
    requires
        0 <= i < a.len(),
        i < b.len(),
        forall|j: int| 0 <= j < i ==> a[j] == b[j],
        a[i] < b[i],
    ensures
        bytes_before(a, b),
        !bytes_before(b, a),
        !bytes_before(a, a),
{
    assert(a.take(i) =~= b.take(i));
    assert(b.take(i) == a.take(i) && a[i] < b[i]);
    if bytes_before(b, a) {
        if b.len() < a.len() && b == a.take(b.len() as int) {
            assert(a.take(b.len() as int)[i] == a[i]);
        } else {
            let k = choose|k: int|
                0 <= k < b.len() && k < a.len() && b.take(k) == a.take(k) && #[trigger] b[k] < a[k];
            if k > i {
                assert(b.take(k)[i] == a.take(k)[i]);
            }
        }
    }
}

/// Of two records of the same sort, and where no ended turn is revived, the one
/// with the higher revision stands; with the same revision, the one whose event id
/// has the greater byte at their first difference; and of two with the same
/// revision and event id, the one that was there.
pub proof fn law_newer_of_the_same_sort_stands(
    turns: Map<Seq<u8>, AgentTurnRecordView>,
    agent: Seq<u8>,
    incoming: AgentTurnRecordView,
    i: int,
)
    requires
        turns.contains_key(agent),
        turns[agent].authoritative == incoming.authoritative,
        turns[agent].state == AgentThreadState::Agent || incoming.state != AgentThreadState::Agent
            || turns[agent].turn_id != incoming.turn_id,
        turns[agent].event_id.len() == incoming.event_id.len(),
        turns[agent].event_id != incoming.event_id ==> {
            &&& 0 <= i < incoming.event_id.len()
            &&& turns[agent].event_id[i] != incoming.event_id[i]
            &&& forall|j: int| 0 <= j < i ==> turns[agent].event_id[j] == incoming.event_id[j]
        },
    ensures
        ({
            let before = turns[agent];
            let after = recorded(turns, agent, incoming);
            &&& incoming.revision > before.revision ==> after == turns.insert(agent, incoming)
            &&& incoming.revision < before.revision ==> after == turns
            &&& incoming.revision == before.revision ==> {
                &&& incoming.event_id == before.event_id ==> after == turns
                &&& incoming.event_id != before.event_id && before.event_id[i]
                    < incoming.event_id[i] ==> after == turns.insert(agent, incoming)
                &&& incoming.event_id != before.event_id && before.event_id[i]
                    > incoming.event_id[i] ==> after == turns
            }
        }),
{
    let a = turns[agent].event_id;
    let b = incoming.event_id;
    if a == b {
        assert(!bytes_before(a, a));
    } else if a[i] < b[i] {
        law_ids_are_ordered_by_their_first_difference(a, b, i);
    } else {
        law_ids_are_ordered_by_their_first_difference(b, a, i);
    }
}

/// At the time `now` every agent's turn whose expiry has come has failed, with no
/// expiry, the given revision and a name of its own, whoever said that it was
/// under way; every other record is as it was, and none comes or goes.
pub proof fn law_expired_turns_have_failed(
    turns: Map<Seq<u8>, AgentTurnRecordView>,
    agent: Seq<u8>,
    now: u64,
    revision: u64,
)
    ensures
        ({
            let later = expired(turns, now, revision);
            &&& later.contains_key(agent) <==> turns.contains_key(agent)
            &&& turns.contains_key(agent) ==> {
                let old_record = turns[agent];
                let new_record = later[agent];
                if old_record.state == AgentThreadState::Agent && old_record.expires_at is Some
                    && old_record.expires_at->0 <= now {
                    &&& new_record.state == AgentThreadState::Failed
                    &&& new_record.expires_at is None
                    &&& new_record.revision == revision
                    &&& new_record.turn_id == "stale:"@ + old_record.turn_id
                    &&& new_record.event_id == old_record.event_id
                    &&& new_record.authoritative == old_record.authoritative
                } else {
                    new_record == old_record
                }
            }
        }),
{
}

/// The status of a thread is an agent's while any agent's record has an expiry,
/// and until the last of these; else it is failed if any agent's record is; else a
/// human's if any agent's record is; else nothing is known of it.
pub proof fn law_status_follows_the_records(
    turns: Map<Seq<u8>, AgentTurnRecordView>,
    status: Option<(AgentThreadState, Option<u64>)>,
    agent: Seq<u8>,
)
    requires
        is_thread_status(turns, status),
        turns.contains_key(agent),
    ensures
        turns[agent].state == AgentThreadState::Agent && turns[agent].expires_at is Some
            ==> (status matches Some((AgentThreadState::Agent, Some(last)))
            && turns[agent].expires_at->0 <= last),
        status matches Some((state, last)) ==> {
            &&& state == AgentThreadState::Agent ==> last is Some && exists|other: Seq<u8>|
                #[trigger] turns.contains_key(other) && turns[other].state
                    == AgentThreadState::Agent && turns[other].expires_at == last
            &&& state != AgentThreadState::Agent ==> last is None
            &&& state == AgentThreadState::Failed ==> exists|other: Seq<u8>|
                #[trigger] turns.contains_key(other) && turns[other].state
                    == AgentThreadState::Failed
            &&& state == AgentThreadState::Human ==> turns[agent].state != AgentThreadState::Failed
            &&& state == AgentThreadState::Human ==> exists|other: Seq<u8>|
                #[trigger] turns.contains_key(other) && turns[other].state
                    == AgentThreadState::Human
        },
        turns[agent].state == AgentThreadState::Failed ==> (status matches Some((state, _)) && state
            != AgentThreadState::Human),
        turns[agent].state == AgentThreadState::Human ==> status is Some,
{
}

/// Nothing is known of a thread of which no agent has spoken.
pub proof fn law_silent_thread_has_no_status(status: Option<(AgentThreadState, Option<u64>)>)
    ensures
        is_thread_status(Map::empty(), status) <==> status is None,
{
}

/// A thread that is an agent's at the time `now` is so until later than `now`.
pub proof fn law_live_status_lies_ahead(
    turns: Map<Seq<u8>, AgentTurnRecordView>,
    now: u64,
    revision: u64,
    last: u64,
)
    requires
        is_thread_status(
            expired(turns, now, revision),
            Some((AgentThreadState::Agent, Some(last))),
        ),
    ensures
        last > now,
        exists|agent: Seq<u8>|
            #[trigger] turns.contains_key(agent) && turns[agent].state == AgentThreadState::Agent
                && turns[agent].expires_at == Some(last),
{
    let later = expired(turns, now, revision);
    let agent = choose|agent: Seq<u8>|
        #[trigger] later.contains_key(agent) && is_active(later[agent]) && later[agent].expires_at
            == Some(last);
    law_expired_turns_have_failed(turns, agent, now, revision);
    assert(turns.contains_key(agent));
}

} // verus!
