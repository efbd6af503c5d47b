//! A session with an agent process that outlives single prompts.

use crate::clock::Span;
use crate::text::copy_strings;
use vstd::prelude::*;

verus! {

/// A session that was opened with an agent, but for the agent process itself.
#[derive(Debug, PartialEq, Eq)]
pub struct PersistentAcpSession {
    session_id: String,
}

impl View for PersistentAcpSession {
    type V = Seq<char>;

    /// The id that the agent gave to the session.
    closed spec fn view(&self) -> Seq<char> {
        self.session_id@
    }
}

/// What a caller wants of a session.
#[derive(Debug, PartialEq, Eq)]
pub struct SpawnPlan {
    /// The agent's program.
    pub command: String,
    pub args: Vec<String>,
    /// The directory that the session works in.
    pub cwd: String,
    pub title: Option<String>,
}

/// What a [`SpawnPlan`] holds.
pub struct SpawnPlanView {
    pub command: Seq<char>,
    pub args: Seq<Seq<char>>,
    pub cwd: Seq<char>,
    pub title: Option<Seq<char>>,
}

/// What an optional text holds.
pub open spec fn text_view(text: Option<String>) -> Option<Seq<char>> {
    match text {
        Some(text) => Some(text@),
        None => None,
    }
}

impl View for SpawnPlan {
    type V = SpawnPlanView;

    open spec fn view(&self) -> SpawnPlanView {
        SpawnPlanView {
            command: self.command@,
            args: self.args.deep_view(),
            cwd: self.cwd@,
            title: text_view(self.title),
        }
    }
}

/// How the agent process is to be launched.
#[derive(Debug, PartialEq, Eq)]
pub struct LaunchRequest {
    pub command: String,
    pub args: Vec<String>,
    /// Variables to add to the process's own.
    pub env: Vec<(String, String)>,
    pub inherit: bool,
}

/// What a [`LaunchRequest`] holds.
pub struct LaunchRequestView {
    pub command: Seq<char>,
    pub args: Seq<Seq<char>>,
    pub env: Seq<(String, String)>,
    pub inherit: bool,
}

impl View for LaunchRequest {
    type V = LaunchRequestView;

    open spec fn view(&self) -> LaunchRequestView {
        LaunchRequestView {
            command: self.command@,
            args: self.args.deep_view(),
            env: self.env@,
            inherit: self.inherit,
        }
    }
}

/// The session that the agent is to open.
#[derive(Debug, PartialEq, Eq)]
pub struct SessionRequest {
    pub cwd: String,
    /// The tool servers that the session has.
    pub servers: Vec<String>,
    pub system_prompt: Option<String>,
    pub title: Option<String>,
}

/// What a [`SessionRequest`] holds.
pub struct SessionRequestView {
    pub cwd: Seq<char>,
    pub servers: Seq<Seq<char>>,
    pub system_prompt: Option<Seq<char>>,
    pub title: Option<Seq<char>>,
}

impl View for SessionRequest {
    type V = SessionRequestView;

    open spec fn view(&self) -> SessionRequestView {
        SessionRequestView {
            cwd: self.cwd@,
            servers: self.servers.deep_view(),
            system_prompt: text_view(self.system_prompt),
            title: text_view(self.title),
        }
    }
}

/// What has become of the last thing that was asked of the agent.
pub enum SpawnEvent<E> {
    /// Nothing has been asked yet.
    Begin,
    /// The process was launched.
    Launched(Result<(), E>),
    /// The protocol was initialized.
    Initialized(Result<(), E>),
    /// A session was opened, with this id.
    Opened(Result<String, E>),
}

/// What to ask of the agent next.
pub enum SpawnAction<E> {
    Launch(LaunchRequest),
    Initialize,
    OpenSession(SessionRequest),
    /// Nothing more: the session is there.
    Ready(PersistentAcpSession),
    /// Nothing more: there will be no session.
    Failed(E),
}

/// What a [`SpawnAction`] holds.
pub enum SpawnActionView<E> {
    Launch(LaunchRequestView),
    Initialize,
    OpenSession(SessionRequestView),
    Ready(Seq<char>),
    Failed(E),
}

impl<E> View for SpawnAction<E> {
    type V = SpawnActionView<E>;

    open spec fn view(&self) -> SpawnActionView<E> {
        match self {
            SpawnAction::Launch(request) => SpawnActionView::Launch(request@),
            SpawnAction::Initialize => SpawnActionView::Initialize,
            SpawnAction::OpenSession(request) => SpawnActionView::OpenSession(request@),
            SpawnAction::Ready(session) => SpawnActionView::Ready(session@),
            SpawnAction::Failed(error) => SpawnActionView::Failed(*error),
        }
    }
}

/// How the agent of `plan` is launched: with its arguments, and nothing added to
/// its environment.
pub open spec fn launch_request(plan: SpawnPlanView) -> LaunchRequestView {
    LaunchRequestView {
        command: plan.command,
        args: plan.args,
        env: seq![],
        inherit: false,
    }
}

/// The session of `plan`: in its directory and under its title, without servers
/// or a system prompt.
pub open spec fn session_request(plan: SpawnPlanView) -> SessionRequestView {
    SessionRequestView {
        cwd: plan.cwd,
        servers: seq![],
        system_prompt: None,
        title: plan.title,
    }
}

/// What follows an event on the way to the session of `plan`: the next request,
/// or the end at the first failure.
pub open spec fn spawn_step<E>(plan: SpawnPlanView, event: SpawnEvent<E>) -> SpawnActionView<E> {
    match event {
        SpawnEvent::Begin => SpawnActionView::Launch(launch_request(plan)),
        SpawnEvent::Launched(Ok(_)) => SpawnActionView::Initialize,
        SpawnEvent::Initialized(Ok(_)) => SpawnActionView::OpenSession(session_request(plan)),
        SpawnEvent::Opened(Ok(session_id)) => SpawnActionView::Ready(session_id@),
        SpawnEvent::Launched(Err(error)) => SpawnActionView::Failed(error),
        SpawnEvent::Initialized(Err(error)) => SpawnActionView::Failed(error),
        SpawnEvent::Opened(Err(error)) => SpawnActionView::Failed(error),
    }
}

/// A prompt on its way to the agent.
#[derive(Debug, PartialEq, Eq)]
pub struct PromptRequest {
    pub session_id: String,
    pub prompt: String,
    /// How long the agent may stay silent.
    pub idle_timeout: Span,
    /// How long the turn may take.
    pub max_duration: Span,
}

/// What a [`PromptRequest`] holds.
pub struct PromptRequestView {
    pub session_id: Seq<char>,
    pub prompt: Seq<char>,
    pub idle_timeout: Span,
    pub max_duration: Span,
}

impl View for PromptRequest {
    type V = PromptRequestView;

    open spec fn view(&self) -> PromptRequestView {
        PromptRequestView {
            session_id: self.session_id@,
            prompt: self.prompt@,
            idle_timeout: self.idle_timeout,
            max_duration: self.max_duration,
        }
    }
}

/// What a prompt gives, of what the agent's turn gave: the text, not the reason
/// why the turn stopped.
pub open spec fn prompt_result<S, E>(captured: Result<(S, String), E>) -> Result<String, E> {
    match captured {
        Ok((_, text)) => Ok(text),
        Err(error) => Err(error),
    }
}

impl PersistentAcpSession {
    /// A step on the way to the session of `plan`.
    pub fn spawn<E>(plan: &SpawnPlan, event: SpawnEvent<E>) -> (r: SpawnAction<E>)
        ensures
            r@ == spawn_step(plan@, event),
    {
        match event {
            SpawnEvent::Begin => {
                let request = LaunchRequest {
                    command: plan.command.as_str().to_owned(),
                    args: copy_strings(&plan.args),
                    env: Vec::new(),
                    inherit: false,
                };
                assert(request.env@ =~= seq![]);
                SpawnAction::Launch(request)
            },
            SpawnEvent::Launched(Ok(_)) => SpawnAction::Initialize,
            SpawnEvent::Initialized(Ok(_)) => {
                let title = match &plan.title {
                    Some(title) => Some(title.as_str().to_owned()),
                    None => None,
                };
                let request = SessionRequest {
                    cwd: plan.cwd.as_str().to_owned(),
                    servers: Vec::new(),
                    system_prompt: None,
                    title,
                };
                assert(request.servers.deep_view() =~= seq![]);
                SpawnAction::OpenSession(request)
            },
            SpawnEvent::Opened(Ok(session_id)) => SpawnAction::Ready(
                PersistentAcpSession { session_id },
            ),
            SpawnEvent::Launched(Err(error)) => SpawnAction::Failed(error),
            SpawnEvent::Initialized(Err(error)) => SpawnAction::Failed(error),
            SpawnEvent::Opened(Err(error)) => SpawnAction::Failed(error),
        }
    }

    /// The id under which the agent is asked about the session.
    pub fn session_id(&self) -> (r: &str)
        ensures
            r@ == self@,
    {
        self.session_id.as_str()
    }

    /// The request that hands a prompt and its limits to the agent.
    pub fn request(
        &self,
        prompt: &str,
        idle_timeout: Span,
        max_duration: Span,
    ) -> (r: PromptRequest)
        ensures
            r@ == (PromptRequestView {
                session_id: self@,
                prompt: prompt@,
                idle_timeout,
                max_duration,
            }),
    {
        PromptRequest {
            session_id: self.session_id.as_str().to_owned(),
            prompt: prompt.to_owned(),
            idle_timeout,
            max_duration,
        }
    }

    /// What a prompt gives, of what the agent's turn gave: the text, not the
    /// reason why the turn stopped.
    pub fn prompt<S, E>(captured: Result<(S, String), E>) -> (r: Result<String, E>)
        ensures
            r == prompt_result(captured),
    {
        match captured {
            Ok((_, text)) => Ok(text),
            Err(error) => Err(error),
        }
    }
}

/// What is asked on the way to the session of `plan`, and how the way ends, when
/// its three requests have the given outcomes.
pub open spec fn spawn_actions<E>(
    plan: SpawnPlanView,
    launched: Result<(), E>,
    initialized: Result<(), E>,
    opened: Result<String, E>,
) -> Seq<SpawnActionView<E>> {
    let first = spawn_step(plan, SpawnEvent::Begin);
    let second = spawn_step(plan, SpawnEvent::Launched(launched));
    let third = spawn_step(plan, SpawnEvent::Initialized(initialized));
    let fourth = spawn_step(plan, SpawnEvent::Opened(opened));
    if second is Failed {
        seq![first, second]
    } else if third is Failed {
        seq![first, second, third]
    } else {
        seq![first, second, third, fourth]
    }
}

/// The agent is launched with the caller's command and arguments and nothing
/// else; then the protocol is initialized; then a session is opened in the
/// caller's directory and under the caller's title, and with nothing else. A
/// session comes about if and only if all three succeed, and has the id that the
/// agent gave; else the first failure is the outcome, and nothing more is asked.
pub proof fn law_spawn_ends_at_first_failure<E>(
    plan: SpawnPlanView,
    launched: Result<(), E>,
    initialized: Result<(), E>,
    opened: Result<String, E>,
)
    ensures
        ({
            let launch = SpawnActionView::<E>::Launch(
                LaunchRequestView {
                    command: plan.command,
                    args: plan.args,
                    env: seq![],
                    inherit: false,
                },
            );
            let open = SpawnActionView::<E>::OpenSession(
                SessionRequestView {
                    cwd: plan.cwd,
                    servers: seq![],
                    system_prompt: None,
                    title: plan.title,
                },
            );
            let initialize = SpawnActionView::<E>::Initialize;
            spawn_actions(plan, launched, initialized, opened) == match (
                launched,
                initialized,
                opened,
            ) {
                (Err(error), _, _) => seq![launch, SpawnActionView::Failed(error)],
                (Ok(_), Err(error), _) => seq![launch, initialize, SpawnActionView::Failed(error)],
                (Ok(_), Ok(_), Err(error)) => seq![
                    launch,
                    initialize,
                    open,
                    SpawnActionView::Failed(error),
                ],
                (Ok(_), Ok(_), Ok(session_id)) => seq![
                    launch,
                    initialize,
                    open,
                    SpawnActionView::Ready(session_id@),
                ],
            }
        }),
{
}

/// A prompt, its limits, and what the agent's turn gave.
pub struct Turn<S, E> {
    pub prompt: Seq<char>,
    pub idle_timeout: Span,
    pub max_duration: Span,
    pub captured: Result<(S, String), E>,
}

/// The session after a prompt, what was asked of the agent, and what the prompt
/// gave.
pub open spec fn turn_step<S, E>(session: Seq<char>, turn: Turn<S, E>) -> (
    Seq<char>,
    PromptRequestView,
    Result<String, E>,
) {
    (
        session,
        PromptRequestView {
            session_id: session,
            prompt: turn.prompt,
            idle_timeout: turn.idle_timeout,
            max_duration: turn.max_duration,
        },
        prompt_result(turn.captured),
    )
}

/// The session after a number of prompts.
pub open spec fn after_turns<S, E>(session: Seq<char>, turns: Seq<Turn<S, E>>) -> Seq<char>
    decreases turns.len(),
{
    if turns.len() == 0 {
        session
    } else {
        turn_step(after_turns(session, turns.drop_last()), turns.last()).0
    }
}

/// After any number of prompts, the next goes unchanged and with its limits to
/// the session that was opened, and gives the text of its own turn, whatever the
/// reason why that stopped, or the agent's error as it is.
pub proof fn law_prompts_go_to_the_opened_session<S, E>(
    plan: SpawnPlanView,
    launched: Result<(), E>,
    initialized: Result<(), E>,
    opened: Result<String, E>,
    session: Seq<char>,
    earlier: Seq<Turn<S, E>>,
    turn: Turn<S, E>,
)
    requires
        spawn_actions(plan, launched, initialized, opened).last() == SpawnActionView::<E>::Ready(
            session,
        ),
    ensures
        ({
            let (after, request, result) = turn_step(after_turns(session, earlier), turn);
            &&& opened is Ok && after == opened->Ok_0@
            &&& request == (PromptRequestView {
                session_id: opened->Ok_0@,
                prompt: turn.prompt,
                idle_timeout: turn.idle_timeout,
                max_duration: turn.max_duration,
            })
            &&& turn.captured matches Ok((_, text)) ==> result == Ok::<String, E>(text)
            &&& turn.captured matches Err(error) ==> result == Err::<String, E>(error)
        }),
    decreases earlier.len(),
{
    if earlier.len() > 0 {
        law_prompts_go_to_the_opened_session(
            plan,
            launched,
            initialized,
            opened,
            session,
            earlier.drop_last(),
            turn,
        );
    }
}

/// An optional text is read as what it holds, an empty one too.
pub proof fn law_optional_text_is_what_it_holds(text: String)
    ensures
        text_view(None) is None,
        text_view(Some(text)) == Some(text@),
{
}

} // verus!
