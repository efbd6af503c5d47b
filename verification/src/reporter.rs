//! The publisher of lifecycle snapshots in an agent harness.

use crate::clock::clock_shows;
use crate::clock::is_reading;
use crate::clock::is_unix_time;
use crate::clock::law_reading_in_each_unit;
use crate::clock::revision_of;
use crate::clock::seconds_of;
use crate::clock::unix_revision;
use crate::clock::unix_seconds;
use crate::clock::Span;
use crate::clock::NANOS_PER_SEC;
use crate::event::can_sign;
use crate::event::is_genuine;
use crate::event::is_signed;
use crate::event::law_signed_event_is_genuine;
use crate::event::mentions;
use crate::event::no_empty_tag;
use crate::event::public_key_of;
use crate::event::Event;
use crate::event::EventDraft;
use crate::event::EventDraftView;
use crate::ids::event_id_error_text;
use crate::ids::event_id_of;
use crate::ids::ChannelId;
use crate::ids::EventId;
use crate::lifecycle::build_agent_thread_lifecycle;
use crate::lifecycle::content_text;
use crate::lifecycle::is_neutral_tag;
use crate::lifecycle::law_content_determines_lifecycle;
use crate::lifecycle::law_lifecycle_round_trip;
use crate::lifecycle::lifecycle_fault;
use crate::lifecycle::lifecycle_tags;
use crate::lifecycle::parse_result;
use crate::lifecycle::AgentThreadLifecycle;
use crate::lifecycle::AgentThreadLifecycleError;
use crate::lifecycle::AgentThreadLifecycleErrorView;
use crate::lifecycle::AgentThreadLifecycleView;
use crate::lifecycle::AgentThreadState;
use crate::lifecycle::ParsedAgentThreadLifecycleView;
use crate::lifecycle::KIND_AGENT_THREAD_LIFECYCLE;
use crate::relay::tag_view;
use crate::relay::with_tag;
use crate::text::byte_len;
use crate::text::copy_strings;
use vstd::prelude::*;

verus! {

/// How long a snapshot of queued work lives, in seconds.
pub const QUEUED_EXPIRY_SECS: u64 = 600;

/// The shortest life of a snapshot of work under way, in seconds.
pub const MIN_WORKING_EXPIRY_SECS: u64 = 45;

/// How long a submission over REST may take, in seconds.
pub const REST_TIMEOUT_SECS: u64 = 5;

/// What a harness session is about.
#[derive(Debug, PartialEq, Eq)]
pub enum SessionScope {
    /// A thread of a channel, by its root event in hexadecimal.
    Thread { channel_id: ChannelId, root_event_id: String },
    /// A whole channel, such as that of a direct conversation.
    Conversation { channel_id: ChannelId },
}

impl SessionScope {
    /// The channel of the scope.
    pub fn channel_id(&self) -> (r: ChannelId)
        ensures
            r == match *self {
                SessionScope::Thread { channel_id, .. } => channel_id,
                SessionScope::Conversation { channel_id } => channel_id,
            },
    {
        match self {
            SessionScope::Thread { channel_id, .. } => *channel_id,
            SessionScope::Conversation { channel_id } => *channel_id,
        }
    }
}

/// The way by which snapshots leave the harness.
#[derive(Debug, Clone, Copy, PartialEq, Eq, Structural)]
pub enum Route {
    /// The harness's own relay connection.
    Relay,
    /// The relay's REST interface.
    Rest,
}

/// An event on its way.
#[derive(Debug, PartialEq, Eq)]
pub enum Delivery {
    /// Hand the event to the relay connection.
    Relay { event: Event },
    /// Submit the event over REST, and give up after the given time.
    Rest { event: Event, timeout_secs: u64 },
}

impl Delivery {
    /// The event that is delivered.
    pub open spec fn event(self) -> Event {
        match self {
            Delivery::Relay { event } => event,
            Delivery::Rest { event, .. } => event,
        }
    }

    /// Whether the event goes by `route`, over REST within the time that is set
    /// for it.
    pub open spec fn goes_by(self, route: Route) -> bool {
        match self {
            Delivery::Relay { .. } => route == Route::Relay,
            Delivery::Rest { timeout_secs, .. } => route == Route::Rest && timeout_secs
                == REST_TIMEOUT_SECS,
        }
    }
}

/// Why nothing is reported.
#[derive(Debug, PartialEq, Eq)]
pub enum Unreported {
    /// The scope is no thread.
    NoThread,
    /// The root is no event id, for this reason.
    InvalidRoot(String),
    /// The snapshot breaks the wire contract.
    Invalid(AgentThreadLifecycleError),
    /// The event cannot be signed.
    Sign,
}

/// What an [`Unreported`] holds.
pub enum UnreportedView {
    NoThread,
    InvalidRoot(Seq<char>),
    Invalid(AgentThreadLifecycleErrorView),
    Sign,
}

impl View for Unreported {
    type V = UnreportedView;

    open spec fn view(&self) -> UnreportedView {
        match self {
            Unreported::NoThread => UnreportedView::NoThread,
            Unreported::InvalidRoot(m) => UnreportedView::InvalidRoot(m@),
            Unreported::Invalid(error) => UnreportedView::Invalid(error@),
            Unreported::Sign => UnreportedView::Sign,
        }
    }
}

/// Publishes lifecycle snapshots of the threads that a harness works on.
#[derive(PartialEq, Eq)]
pub struct ThreadLifecycleReporter {
    route: Route,
    secret_key: [u8; 32],
    auth_tag: Option<Vec<String>>,
    next_revision: u64,
}

/// What a [`ThreadLifecycleReporter`] holds.
pub struct ReporterView {
    pub route: Route,
    /// The key that signs the snapshots.
    pub secret_key: Seq<u8>,
    /// The NIP-OA tag that goes with every snapshot.
    pub auth_tag: Option<Seq<Seq<char>>>,
    /// The revision of the next snapshot.
    pub next_revision: u64,
}

impl View for ThreadLifecycleReporter {
    type V = ReporterView;

    closed spec fn view(&self) -> ReporterView {
        ReporterView {
            route: self.route,
            secret_key: self.secret_key@,
            auth_tag: tag_view(self.auth_tag),
            next_revision: self.next_revision,
        }
    }
}

/// The channel and the root event of a thread; `None` for any other scope, and
/// for a root that is no event id.
pub open spec fn thread_of(scope: SessionScope) -> Option<(Seq<u8>, Seq<u8>)> {
    match scope {
        SessionScope::Thread { channel_id, root_event_id } => match event_id_of(root_event_id@) {
            Some(root) => Some((channel_id@, root)),
            None => None,
        },
        SessionScope::Conversation { .. } => None,
    }
}

/// What a snapshot says of a thread's turn.
pub struct Status {
    pub state: AgentThreadState,
    pub turn_id: Seq<char>,
    pub phase: Seq<char>,
    /// How long the snapshot lives, in seconds.
    pub expiry_secs: Option<u64>,
}

/// The snapshot of `status` at the time `now`: it expires so many seconds later,
/// or at the end of time.
pub open spec fn snapshot(status: Status, revision: u64, now: u64) -> AgentThreadLifecycleView {
    AgentThreadLifecycleView {
        version: 1,
        turn_id: status.turn_id,
        state: status.state,
        phase: status.phase,
        revision,
        expires_at: match status.expiry_secs {
            Some(secs) => Some(
                if now + secs <= u64::MAX {
                    (now + secs) as u64
                } else {
                    u64::MAX
                },
            ),
            None => None,
        },
    }
}

/// The reporter after an attempt to report on `scope`: a thread uses up a
/// revision, whether its snapshot is published or not.
pub open spec fn after_report(reporter: ReporterView, scope: SessionScope) -> ReporterView {
    if thread_of(scope) is Some {
        ReporterView {
            next_revision: if reporter.next_revision == u64::MAX {
                0
            } else {
                (reporter.next_revision + 1) as u64
            },
            ..reporter
        }
    } else {
        reporter
    }
}

/// The event that reports `status` of `scope` at the time `now`, before it is
/// signed: there is one for a thread whose snapshot keeps the wire contract.
pub open spec fn report_draft(
    reporter: ReporterView,
    scope: SessionScope,
    status: Status,
    now: u64,
) -> Result<EventDraftView, UnreportedView> {
    let lifecycle = snapshot(status, reporter.next_revision, now);
    match scope {
        SessionScope::Conversation { .. } => Err(UnreportedView::NoThread),
        SessionScope::Thread { channel_id, root_event_id } => match event_id_of(root_event_id@) {
            None => Err(UnreportedView::InvalidRoot(event_id_error_text(root_event_id@))),
            Some(root) => match lifecycle_fault(lifecycle) {
                Some(fault) => Err(
                    UnreportedView::Invalid(AgentThreadLifecycleErrorView::InvalidContent(fault)),
                ),
                None => Ok(
                    EventDraftView {
                        kind: KIND_AGENT_THREAD_LIFECYCLE,
                        tags: with_tag(lifecycle_tags(channel_id@, root), reporter.auth_tag),
                        content: content_text(lifecycle),
                    },
                ),
            },
        },
    }
}

/// Whether `event` reports `status` of `scope` at the time `now`.
pub open spec fn is_report(
    reporter: ReporterView,
    scope: SessionScope,
    status: Status,
    now: u64,
    event: Event,
) -> bool {
    report_draft(reporter, scope, status, now) matches Ok(draft) && is_signed(
        draft,
        reporter.secret_key,
        event,
    )
}

/// Why `status` of `scope` cannot be reported, `None` if it can. The time has no
/// say in it.
pub open spec fn obstacle(
    reporter: ReporterView,
    scope: SessionScope,
    status: Status,
) -> Option<UnreportedView> {
    match report_draft(reporter, scope, status, 0) {
        Err(reason) => Some(reason),
        Ok(draft) => if can_sign(draft, reporter.secret_key) {
            None
        } else {
            Some(UnreportedView::Sign)
        },
    }
}

/// Whether `status` of `scope` can be reported.
pub open spec fn can_report(reporter: ReporterView, scope: SessionScope, status: Status) -> bool {
    obstacle(reporter, scope, status) is None
}

/// Whether `built` is what comes of building a report of `status` of `scope`: an
/// event that reports it, at the time that the clock shows; or the reason why it
/// cannot be reported.
pub open spec fn builds(
    reporter: ReporterView,
    scope: SessionScope,
    status: Status,
    built: Result<Event, Unreported>,
) -> bool {
    match built {
        Ok(event) => can_report(reporter, scope, status) && exists|now: u64|
            is_unix_time(now) && #[trigger] is_report(reporter, scope, status, now, event),
        Err(reason) => obstacle(reporter, scope, status) == Some(reason@),
    }
}

/// Whether `delivery` is what comes of reporting `status` of `scope`: an event
/// that reports it, at the time that the clock shows, by the reporter's route;
/// or the reason why it cannot be reported.
pub open spec fn publishes(
    reporter: ReporterView,
    scope: SessionScope,
    status: Status,
    delivery: Result<Delivery, Unreported>,
) -> bool {
    match delivery {
        Ok(delivery) => can_report(reporter, scope, status) && delivery.goes_by(reporter.route)
            && exists|now: u64|
            is_unix_time(now) && #[trigger] is_report(
                reporter,
                scope,
                status,
                now,
                delivery.event(),
            ),
        Err(reason) => obstacle(reporter, scope, status) == Some(reason@),
    }
}

/// How long a snapshot of work under way lives, in seconds: three times the
/// liveness interval, but no less than the minimum, and as long as one of queued
/// work where there is no interval.
pub open spec fn working_expiry(liveness: Span) -> nat {
    let thrice = 3 * liveness@ / NANOS_PER_SEC as nat;
    if liveness@ == 0 {
        QUEUED_EXPIRY_SECS as nat
    } else if thrice < MIN_WORKING_EXPIRY_SECS {
        MIN_WORKING_EXPIRY_SECS as nat
    } else if thrice > u64::MAX {
        u64::MAX as nat
    } else {
        thrice
    }
}

/// How long a snapshot of work under way lives, in seconds.
pub fn working_expiry_secs(liveness: Span) -> (r: u64)
    ensures
        r == working_expiry(liveness),
{
    let nanos = liveness.as_nanos();
    if nanos == 0 {
        return QUEUED_EXPIRY_SECS;
    }
    let thrice: u128 = nanos * 3 / NANOS_PER_SEC;
    if thrice < MIN_WORKING_EXPIRY_SECS as u128 {
        MIN_WORKING_EXPIRY_SECS
    } else if thrice > u64::MAX as u128 {
        u64::MAX
    } else {
        thrice as u64
    }
}

impl ThreadLifecycleReporter {
    /// A reporter whose first snapshot has the given revision.
    pub fn with_revision(
        route: Route,
        secret_key: [u8; 32],
        auth_tag: Option<Vec<String>>,
        next_revision: u64,
    ) -> (r: ThreadLifecycleReporter)
        ensures
            r@ == (ReporterView {
                route,
                secret_key: secret_key@,
                auth_tag: tag_view(auth_tag),
                next_revision,
            }),
    {
        ThreadLifecycleReporter { route, secret_key, auth_tag, next_revision }
    }

    /// A reporter that publishes over the harness's relay connection. Its
    /// revisions start at the clock's time.
    pub fn new(secret_key: [u8; 32], auth_tag: Option<Vec<String>>) -> (r:
        ThreadLifecycleReporter)
        ensures
            r@.route == Route::Relay,
            r@.secret_key == secret_key@,
            r@.auth_tag == tag_view(auth_tag),
            exists|since: Option<Span>| #[trigger]
                clock_shows(since) && is_reading(since) && r@.next_revision == revision_of(since),
    {
        Self::with_revision(Route::Relay, secret_key, auth_tag, unix_revision())
    }

    /// A reporter that publishes over REST. Its revisions start at the clock's
    /// time.
    pub fn new_rest(secret_key: [u8; 32], auth_tag: Option<Vec<String>>) -> (r:
        ThreadLifecycleReporter)
        ensures
            r@.route == Route::Rest,
            r@.secret_key == secret_key@,
            r@.auth_tag == tag_view(auth_tag),
            exists|since: Option<Span>| #[trigger]
                clock_shows(since) && is_reading(since) && r@.next_revision == revision_of(since),
    {
        Self::with_revision(Route::Rest, secret_key, auth_tag, unix_revision())
    }

    /// The revision of the next snapshot.
    pub fn next_revision(&self) -> (r: u64)
        ensures
            r == self@.next_revision,
    {
        self.next_revision
    }

    /// Composes the event that reports a thread's turn at the time `now`, for
    /// signing; or says why there is nothing to report.
    pub fn compose(
        &mut self,
        scope: &SessionScope,
        state: AgentThreadState,
        turn_id: &str,
        phase: &str,
        expiry_secs: Option<u64>,
        now: u64,
    ) -> (r: Result<EventDraft, Unreported>)
        ensures
            final(self)@ == after_report(old(self)@, *scope),
            ({
                let status = Status { state, turn_id: turn_id@, phase: phase@, expiry_secs };
                report_draft(old(self)@, *scope, status, now) == match r {
                    Ok(draft) => Ok::<EventDraftView, UnreportedView>(draft@),
                    Err(reason) => Err::<EventDraftView, UnreportedView>(reason@),
                }
            }),
    {
        let (channel_id, root) = match scope {
            SessionScope::Thread { channel_id, root_event_id } => (*channel_id, root_event_id),
            SessionScope::Conversation { .. } => return Err(Unreported::NoThread),
        };
        let root_event_id = match EventId::from_hex(root.as_str()) {
            Ok(id) => id,
            Err(message) => return Err(Unreported::InvalidRoot(message)),
        };
        let revision = self.next_revision;
        self.next_revision = revision.wrapping_add(1);
        let expires_at = match expiry_secs {
            Some(secs) => Some(now.saturating_add(secs)),
            None => None,
        };
        let lifecycle = AgentThreadLifecycle {
            version: 1,
            turn_id: turn_id.to_owned(),
            state,
            phase: phase.to_owned(),
            revision,
            expires_at,
        };
        let mut draft = match build_agent_thread_lifecycle(channel_id, root_event_id, &lifecycle) {
            Ok(draft) => draft,
            Err(error) => return Err(Unreported::Invalid(error)),
        };
        match &self.auth_tag {
            Some(tag) => {
                let ghost before = draft.tags.deep_view();
                let copy = copy_strings(tag);
                draft.tags.push(copy);
                assert(draft.tags.deep_view() =~= before.push(copy.deep_view()));
            },
            None => {},
        }
        Ok(draft)
    }

    /// Builds and signs the event that reports a thread's turn now; or says why
    /// there is nothing to report.
    pub fn build(
        &mut self,
        scope: &SessionScope,
        state: AgentThreadState,
        turn_id: &str,
        phase: &str,
        expiry_secs: Option<u64>,
    ) -> (r: Result<Event, Unreported>)
        ensures
            final(self)@ == after_report(old(self)@, *scope),
            builds(
                old(self)@,
                *scope,
                (Status { state, turn_id: turn_id@, phase: phase@, expiry_secs }),
                r,
            ),
    {
        let now = unix_seconds();
        let ghost status = Status { state, turn_id: turn_id@, phase: phase@, expiry_secs };
        proof {
            law_time_decides_only_expiry(old(self)@, *scope, status, now, 0);
        }
        let draft = match self.compose(scope, state, turn_id, phase, expiry_secs, now) {
            Ok(draft) => draft,
            Err(reason) => return Err(reason),
        };
        proof {
            let key = old(self)@.secret_key;
            let at_zero = report_draft(old(self)@, *scope, status, 0)->Ok_0;
            assert(self.secret_key@ == key);
            assert(can_sign(at_zero, key) == can_sign(draft@, key));
        }
        let built = match draft.sign(&self.secret_key) {
            Some(event) => Ok(event),
            None => Err(Unreported::Sign),
        };
        assert(built is Ok ==> is_report(old(self)@, *scope, status, now, built->Ok_0));
        assert(built is Err ==> built->Err_0@ == UnreportedView::Sign);
        built
    }

    /// Reports a thread's turn without waiting for the outcome.
    pub fn try_publish(
        &mut self,
        scope: &SessionScope,
        state: AgentThreadState,
        turn_id: &str,
        phase: &str,
        expiry_secs: Option<u64>,
    ) -> (r: Result<Delivery, Unreported>)
        ensures
            final(self)@ == after_report(old(self)@, *scope),
            publishes(
                old(self)@,
                *scope,
                (Status { state, turn_id: turn_id@, phase: phase@, expiry_secs }),
                r,
            ),
    {
        let event = match self.build(scope, state, turn_id, phase, expiry_secs) {
            Ok(event) => event,
            Err(reason) => return Err(reason),
        };
        let ghost reported = event;
        let delivery = match self.route {
            Route::Rest => Delivery::Rest { event, timeout_secs: REST_TIMEOUT_SECS },
            Route::Relay => Delivery::Relay { event },
        };
        proof {
            let status = Status { state, turn_id: turn_id@, phase: phase@, expiry_secs };
            let now = choose|now: u64|
                is_unix_time(now) && #[trigger] is_report(
                    old(self)@,
                    *scope,
                    status,
                    now,
                    reported,
                );
            assert(is_report(old(self)@, *scope, status, now, delivery.event()));
        }
        Ok(delivery)
    }

    /// Reports that the work of the queue source `source_id` is queued.
    pub fn try_agent_queued(&mut self, scope: &SessionScope, source_id: &str) -> (r: Result<
        Delivery,
        Unreported,
    >)
        ensures
            final(self)@ == after_report(old(self)@, *scope),
            publishes(
                old(self)@,
                *scope,
                (Status {
                    state: AgentThreadState::Agent,
                    turn_id: "queue:"@ + source_id@,
                    phase: "queued"@,
                    expiry_secs: Some(QUEUED_EXPIRY_SECS),
                }),
                r,
            ),
    {
        let turn_id = "queue:".to_owned().concat(source_id);
        self.try_publish(
            scope,
            AgentThreadState::Agent,
            turn_id.as_str(),
            "queued",
            Some(QUEUED_EXPIRY_SECS),
        )
    }

    /// Reports that work is under way in a turn whose liveness is reported at
    /// the given interval.
    pub fn try_agent_working(
        &mut self,
        scope: &SessionScope,
        turn_id: &str,
        liveness_interval: Span,
    ) -> (r: Result<Delivery, Unreported>)
        ensures
            final(self)@ == after_report(old(self)@, *scope),
            publishes(
                old(self)@,
                *scope,
                (Status {
                    state: AgentThreadState::Agent,
                    turn_id: turn_id@,
                    phase: "working"@,
                    expiry_secs: Some(working_expiry(liveness_interval) as u64),
                }),
                r,
            ),
    {
        let expiry_secs = working_expiry_secs(liveness_interval);
        self.try_publish(scope, AgentThreadState::Agent, turn_id, "working", Some(expiry_secs))
    }

    /// Reports the end of a turn; a turn that an agent is to retry lives as long
    /// as queued work.
    pub fn publish_terminal(
        &mut self,
        scope: &SessionScope,
        turn_id: &str,
        state: AgentThreadState,
        phase: &str,
    ) -> (r: Result<Delivery, Unreported>)
        ensures
            final(self)@ == after_report(old(self)@, *scope),
            publishes(
                old(self)@,
                *scope,
                (Status {
                    state,
                    turn_id: turn_id@,
                    phase: phase@,
                    expiry_secs: if state == AgentThreadState::Agent {
                        Some(QUEUED_EXPIRY_SECS)
                    } else {
                        None
                    },
                }),
                r,
            ),
    {
        let expiry_secs = if state == AgentThreadState::Agent {
            Some(QUEUED_EXPIRY_SECS)
        } else {
            None
        };
        self.try_publish(scope, state, turn_id, phase, expiry_secs)
    }

    /// Reports the end of a turn without waiting for the outcome.
    pub fn try_terminal(
        &mut self,
        scope: &SessionScope,
        turn_id: &str,
        state: AgentThreadState,
        phase: &str,
    ) -> (r: Result<Delivery, Unreported>)
        ensures
            final(self)@ == after_report(old(self)@, *scope),
            publishes(
                old(self)@,
                *scope,
                (Status { state, turn_id: turn_id@, phase: phase@, expiry_secs: None }),
                r,
            ),
    {
        self.try_publish(scope, state, turn_id, phase, None)
    }
}

/// Whether a status can be reported does not depend on the time, nor does the
/// reason why not, nor do the tags of the report.
pub proof fn law_time_decides_only_expiry(
    reporter: ReporterView,
    scope: SessionScope,
    status: Status,
    now: u64,
    later: u64,
)
    ensures
        match (
            report_draft(reporter, scope, status, now),
            report_draft(reporter, scope, status, later),
        ) {
            (Ok(a), Ok(b)) => a.kind == b.kind && a.tags == b.tags,
            (Err(a), Err(b)) => a == b,
            _ => false,
        },
        status.expiry_secs is None ==> report_draft(reporter, scope, status, now) == report_draft(
            reporter,
            scope,
            status,
            later,
        ),
{
}

/// A scope that is no thread is never reported on, and uses up no revision.
pub proof fn law_conversation_is_not_reported(
    reporter: ReporterView,
    channel_id: ChannelId,
    status: Status,
)
    ensures
        !can_report(reporter, SessionScope::Conversation { channel_id }, status),
        after_report(reporter, SessionScope::Conversation { channel_id }) == reporter,
{
}

/// An agent's status without an expiry is never reported, nor is any other with
/// one; but in a thread each uses up a revision.
pub proof fn law_expiry_goes_with_agent(
    reporter: ReporterView,
    scope: SessionScope,
    status: Status,
)
    requires
        status.expiry_secs is Some <==> status.state != AgentThreadState::Agent,
    ensures
        !can_report(reporter, scope, status),
        thread_of(scope) is Some ==> after_report(reporter, scope).next_revision
            != reporter.next_revision,
{
}

/// The reporter after attempts to report on each of `scopes`.
pub open spec fn after_reports(reporter: ReporterView, scopes: Seq<SessionScope>) -> ReporterView
    decreases scopes.len(),
{
    if scopes.len() == 0 {
        reporter
    } else {
        after_report(after_reports(reporter, scopes.drop_last()), scopes.last())
    }
}

/// How many of `scopes` use up a revision.
pub open spec fn thread_count(scopes: Seq<SessionScope>) -> nat
    decreases scopes.len(),
{
    if scopes.len() == 0 {
        0
    } else if thread_of(scopes.last()) is Some {
        thread_count(scopes.drop_last()) + 1
    } else {
        thread_count(scopes.drop_last())
    }
}

/// The revision `n` snapshots after `revision`, where the counter wraps around.
pub open spec fn revision_after(revision: u64, n: nat) -> nat {
    ((revision + n) % 0x1_0000_0000_0000_0000) as nat
}

/// Attempts to report use up one revision for each thread, and change nothing
/// else about the reporter.
pub proof fn law_revisions_count_threads(reporter: ReporterView, scopes: Seq<SessionScope>)
    ensures
        after_reports(reporter, scopes).next_revision == revision_after(
            reporter.next_revision,
            thread_count(scopes),
        ),
        after_reports(reporter, scopes) == (ReporterView {
            next_revision: after_reports(reporter, scopes).next_revision,
            ..reporter
        }),
    decreases scopes.len(),
{
    if scopes.len() > 0 {
        law_revisions_count_threads(reporter, scopes.drop_last());
    }
}

/// Revisions are monotonic: a later snapshot of a thread has the earlier
/// revision, plus one for itself and one for each thread that was reported on in
/// between, where the counter wraps around; so as long as it does not, the later
/// revision is the higher. Nothing else about the reporter changes.
pub proof fn law_revisions_increase(
    reporter: ReporterView,
    scope: SessionScope,
    between: Seq<SessionScope>,
)
    requires
        thread_of(scope) is Some,
    ensures
        ({
            let later = after_reports(after_report(reporter, scope), between);
            let step = thread_count(between) + 1;
            &&& later.next_revision == revision_after(reporter.next_revision, step)
            &&& reporter.next_revision + step <= u64::MAX ==> later.next_revision
                == reporter.next_revision + step && reporter.next_revision < later.next_revision
            &&& later == (ReporterView { next_revision: later.next_revision, ..reporter })
        }),
{
    law_revisions_count_threads(after_report(reporter, scope), between);
}

/// A snapshot of work under way lives for at least the minimum.
pub proof fn law_working_expiry_has_a_minimum(liveness: Span)
    ensures
        MIN_WORKING_EXPIRY_SECS <= working_expiry(liveness) <= u64::MAX,
{
}

/// What is reported is what a reader parses: the thread of the scope, and the
/// snapshot of the status with the reporter's revision.
pub proof fn law_report_round_trip(
    reporter: ReporterView,
    channel_id: ChannelId,
    root: EventId,
    scope: SessionScope,
    status: Status,
    now: u64,
    event: Event,
    decoded: AgentThreadLifecycleView,
)
    requires
        thread_of(scope) == Some((channel_id@, root@)),
        reporter.auth_tag is Some ==> is_neutral_tag(reporter.auth_tag->0),
        is_report(reporter, scope, status, now, event),
        content_text(decoded) == event.content@,
    ensures
        parse_result(event.kind, event.tags.deep_view(), Ok(decoded)) == Ok::<
            ParsedAgentThreadLifecycleView,
            AgentThreadLifecycleErrorView,
        >(
            (ParsedAgentThreadLifecycleView {
                channel_id: channel_id@,
                root_event_id: root@,
                lifecycle: snapshot(status, reporter.next_revision, now),
            }),
        ),
{
    let tags = lifecycle_tags(channel_id@, root@);
    let extra = match reporter.auth_tag {
        Some(tag) => seq![tag],
        None => seq![],
    };
    assert(with_tag(tags, reporter.auth_tag) =~= tags + extra);
    law_lifecycle_round_trip(
        channel_id,
        root,
        snapshot(status, reporter.next_revision, now),
        extra,
        reporter.secret_key,
        event,
        decoded,
    );
}

/// A report is genuine, and carries the reporter's NIP-OA tag, unless that is a
/// `p` tag that names the author.
pub proof fn law_report_is_genuine_and_attested(
    reporter: ReporterView,
    scope: SessionScope,
    status: Status,
    now: u64,
    event: Event,
)
    requires
        can_report(reporter, scope, status),
        is_report(reporter, scope, status, now, event),
    ensures
        is_genuine(event),
        public_key_of(reporter.secret_key) == Some(event.pubkey@),
        reporter.auth_tag matches Some(tag) ==> !mentions(tag, event.pubkey@)
            ==> event.tags.deep_view().contains(tag),
{
    law_time_decides_only_expiry(reporter, scope, status, now, 0);
    let draft = report_draft(reporter, scope, status, now)->Ok_0;
    law_signed_event_is_genuine(draft, reporter.secret_key, event);
    if let Some(tag) = reporter.auth_tag {
        if !mentions(tag, event.pubkey@) {
            let keep = |tag: Seq<Seq<char>>| !mentions(tag, event.pubkey@);
            let last = draft.tags.len() - 1;
            assert(draft.tags[last] == tag);
            draft.tags.lemma_filter_contains(keep, last);
            assert(event.tags.deep_view() == draft.tags.filter(keep));
        }
    }
}

/// The content of a report says the turn, the state and the phase that were
/// asked for, the reporter's revision, and an expiry so many seconds after `now`
/// as were asked for.
pub proof fn law_report_says_what_was_asked(
    reporter: ReporterView,
    scope: SessionScope,
    status: Status,
    now: u64,
    event: Event,
    decoded: AgentThreadLifecycleView,
)
    requires
        is_report(reporter, scope, status, now, event),
        content_text(decoded) == event.content@,
    ensures
        event.kind == 24201,
        decoded.version == 1,
        decoded.turn_id == status.turn_id,
        decoded.state == status.state,
        decoded.phase == status.phase,
        decoded.revision == reporter.next_revision,
        status.expiry_secs is None ==> decoded.expires_at is None,
        status.expiry_secs matches Some(secs) ==> {
            &&& now + secs <= u64::MAX ==> decoded.expires_at == Some((now + secs) as u64)
            &&& now + secs > u64::MAX ==> decoded.expires_at == Some(u64::MAX)
        },
{
    law_content_determines_lifecycle(decoded, snapshot(status, reporter.next_revision, now));
}

/// The life of a report is counted from what the system clock shows when it is
/// built.
pub proof fn law_report_lives_from_the_clock(
    reporter: ReporterView,
    scope: SessionScope,
    status: Status,
    event: Event,
    decoded: AgentThreadLifecycleView,
    secs: u64,
)
    requires
        builds(reporter, scope, status, Ok(event)),
        status.expiry_secs == Some(secs),
        content_text(decoded) == event.content@,
    ensures
        exists|since: Option<Span>| #[trigger]
            clock_shows(since) && match since {
                Some(span) => if span.secs + secs <= u64::MAX {
                    decoded.expires_at == Some((span.secs + secs) as u64)
                } else {
                    decoded.expires_at == Some(u64::MAX)
                },
                None => decoded.expires_at == Some(secs),
            },
{
    let now = choose|now: u64|
        is_unix_time(now) && #[trigger] is_report(reporter, scope, status, now, event);
    let since = choose|since: Option<Span>| #[trigger]
        clock_shows(since) && is_reading(since) && now == seconds_of(since);
    law_reading_in_each_unit(since);
    law_report_says_what_was_asked(reporter, scope, status, now, event, decoded);
}

/// A delivery goes by the reporter's route, over REST for five seconds at most,
/// and what it carries was built for it: it says what was asked, and its life is
/// counted from what the system clock shows.
pub proof fn law_delivery_carries_the_report(
    reporter: ReporterView,
    scope: SessionScope,
    status: Status,
    delivery: Delivery,
)
    requires
        publishes(reporter, scope, status, Ok(delivery)),
    ensures
        match delivery {
            Delivery::Relay { event } => reporter.route == Route::Relay && builds(
                reporter,
                scope,
                status,
                Ok(event),
            ),
            Delivery::Rest { event, timeout_secs } => reporter.route == Route::Rest && timeout_secs
                == 5 && builds(reporter, scope, status, Ok(event)),
        },
{
    let event = delivery.event();
    let now = choose|now: u64|
        is_unix_time(now) && #[trigger] is_report(reporter, scope, status, now, event);
    let built = Ok::<Event, Unreported>(event);
    assert(is_unix_time(now) && is_report(reporter, scope, status, now, built->Ok_0));
    assert(can_report(reporter, scope, status));
    assert(builds(reporter, scope, status, built));
}

/// A status can be reported if and only if its scope is a thread with an event id
/// for a root, its turn has 1 to 128 bytes and its phase 1 to 64, it has an expiry
/// just if it is an agent's, and the reporter has a key, and no empty tag.
pub proof fn law_what_can_be_reported(
    reporter: ReporterView,
    scope: SessionScope,
    status: Status,
)
    ensures
        can_report(reporter, scope, status) <==> {
            &&& scope is Thread
            &&& event_id_of(scope->root_event_id@) is Some
            &&& 1 <= status.turn_id.len() && byte_len(status.turn_id) <= 128
            &&& 1 <= status.phase.len() && byte_len(status.phase) <= 64
            &&& status.expiry_secs is Some <==> status.state == AgentThreadState::Agent
            &&& public_key_of(reporter.secret_key) is Some
            &&& reporter.auth_tag matches Some(tag) ==> tag.len() > 0
        },
{
    if let SessionScope::Thread { channel_id, root_event_id } = scope {
        if let Some(root) = event_id_of(root_event_id@) {
            let tags = lifecycle_tags(channel_id@, root);
            let all = with_tag(tags, reporter.auth_tag);
            assert(tags[0].len() == 2 && tags[1].len() == 4);
            if reporter.auth_tag is Some {
                assert(all[2] == reporter.auth_tag->0);
            }
            assert(all[0] == tags[0] && all[1] == tags[1]);
            assert(all.len() <= 3);
        }
    }
}

/// Why a status is not reported: a scope that is no thread comes first, then a
/// root that is no event id, then a snapshot that breaks the wire contract, and
/// last what cannot be signed.
pub proof fn law_why_nothing_is_reported(
    reporter: ReporterView,
    scope: SessionScope,
    status: Status,
)
    ensures
        scope is Conversation ==> obstacle(reporter, scope, status) == Some(
            UnreportedView::NoThread,
        ),
        scope matches SessionScope::Thread { root_event_id, .. } ==> {
            let why = obstacle(reporter, scope, status);
            let life = AgentThreadLifecycleView {
                version: 1,
                turn_id: status.turn_id,
                state: status.state,
                phase: status.phase,
                revision: reporter.next_revision,
                expires_at: status.expiry_secs,
            };
            let root = event_id_of(root_event_id@);
            &&& root is None ==> why == Some(
                UnreportedView::InvalidRoot(event_id_error_text(root_event_id@)),
            )
            &&& root is Some && lifecycle_fault(life) is Some ==> why == Some(
                UnreportedView::Invalid(
                    AgentThreadLifecycleErrorView::InvalidContent(lifecycle_fault(life)->0),
                ),
            )
            &&& root is Some && lifecycle_fault(life) is None && (public_key_of(
                reporter.secret_key,
            ) is None || reporter.auth_tag == Some(Seq::<Seq<char>>::empty())) ==> why == Some(
                UnreportedView::Sign,
            )
        },
{
    if scope is Thread && reporter.auth_tag == Some(Seq::<Seq<char>>::empty()) {
        law_what_can_be_reported(reporter, scope, status);
    }
}

/// An attempt to report on a thread with an event id for a root uses up exactly
/// one revision, and the counter wraps around; any other uses up none. Nothing
/// else about the reporter changes.
pub proof fn law_attempt_uses_one_revision(reporter: ReporterView, scope: SessionScope)
    ensures
        ({
            let after = after_report(reporter, scope);
            &&& after.route == reporter.route
            &&& after.secret_key == reporter.secret_key
            &&& after.auth_tag == reporter.auth_tag
            &&& scope is Thread && event_id_of(scope->root_event_id@) is Some ==> {
                &&& reporter.next_revision < u64::MAX ==> after.next_revision
                    == reporter.next_revision + 1
                &&& reporter.next_revision == u64::MAX ==> after.next_revision == 0
            }
            &&& scope is Conversation || event_id_of(scope->root_event_id@) is None
                ==> after.next_revision == reporter.next_revision
        }),
{
}

/// Work under way lives three times its liveness interval, in whole seconds, but
/// at least 45 seconds and at most as long as can be said; without an interval it
/// lives 600 seconds.
pub proof fn law_working_expiry_is_thrice_the_interval(liveness: Span)
    ensures
        ({
            let second: int = 1_000_000_000;
            let thrice = 3 * (liveness.secs * second + liveness.nanos);
            let life = working_expiry(liveness);
            &&& thrice == 0 ==> life == 600
            &&& 0 < thrice < 45 * second ==> life == 45
            &&& 45 * second <= thrice < 0x1_0000_0000_0000_0000 * second ==> life * second
                <= thrice < (life + 1) * second
            &&& thrice >= 0x1_0000_0000_0000_0000 * second ==> life == u64::MAX
        }),
{
}

/// Reasons that read the same are the same reason, and say the same.
pub proof fn law_reasons_are_told_apart(a: Unreported, b: Unreported)
    requires
        a@ == b@,
    ensures
        a is NoThread <==> b is NoThread,
        a is Sign <==> b is Sign,
        a matches Unreported::InvalidRoot(m) ==> b is InvalidRoot && b->InvalidRoot_0@ == m@,
        a matches Unreported::Invalid(e) ==> b is Invalid && b->Invalid_0@ == e@,
{
}

} // verus!
