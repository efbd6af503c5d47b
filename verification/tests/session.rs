use agent_thread::clock::Span;
use agent_thread::session::LaunchRequest;
use agent_thread::session::PersistentAcpSession;
use agent_thread::session::PromptRequest;
use agent_thread::session::SessionRequest;
use agent_thread::session::SpawnAction;
use agent_thread::session::SpawnEvent;
use agent_thread::session::SpawnPlan;

fn plan(title: Option<&str>) -> SpawnPlan {
    SpawnPlan {
        command: "agent".to_string(),
        args: vec!["--acp".to_string(), "".to_string()],
        cwd: "/work".to_string(),
        title: title.map(|title| title.to_string()),
    }
}

fn step(event: SpawnEvent<u8>) -> SpawnAction<u8> {
    PersistentAcpSession::spawn(&plan(Some("judge")), event)
}

#[test]
fn agent_is_launched_as_the_caller_says() {
    match step(SpawnEvent::Begin) {
        SpawnAction::Launch(request) => assert_eq!(
            request,
            LaunchRequest {
                command: "agent".to_string(),
                args: vec!["--acp".to_string(), "".to_string()],
                env: vec![],
                inherit: false,
            }
        ),
        _ => panic!("not launched"),
    }
}

#[test]
fn session_is_opened_as_the_caller_says() {
    for title in [Some("judge"), None] {
        let event = SpawnEvent::<u8>::Initialized(Ok(()));
        match PersistentAcpSession::spawn(&plan(title), event) {
            SpawnAction::OpenSession(request) => assert_eq!(
                request,
                SessionRequest {
                    cwd: "/work".to_string(),
                    servers: vec![],
                    system_prompt: None,
                    title: title.map(|title| title.to_string()),
                }
            ),
            _ => panic!("not opened"),
        }
    }
}

#[test]
fn session_is_ready_after_three_requests() {
    assert!(matches!(step(SpawnEvent::Begin), SpawnAction::Launch(_)));
    assert!(matches!(
        step(SpawnEvent::Launched(Ok(()))),
        SpawnAction::Initialize
    ));
    assert!(matches!(
        step(SpawnEvent::Initialized(Ok(()))),
        SpawnAction::OpenSession(_)
    ));
    match step(SpawnEvent::Opened(Ok("session-1".to_string()))) {
        SpawnAction::Ready(session) => assert_eq!(session.session_id(), "session-1"),
        _ => panic!("no session"),
    }
}

#[test]
fn first_failure_ends_the_way_to_a_session() {
    for event in [
        SpawnEvent::Launched(Err(7)),
        SpawnEvent::Initialized(Err(7)),
        SpawnEvent::Opened(Err(7)),
    ] {
        assert!(matches!(step(event), SpawnAction::Failed(7)));
    }
}

#[test]
fn prompt_gives_the_text() {
    let captured: Result<(u8, String), String> = Ok((1, "done".to_string()));
    assert_eq!(
        PersistentAcpSession::prompt(captured),
        Ok("done".to_string())
    );
    let failed: Result<(u8, String), String> = Err("idle".to_string());
    assert_eq!(
        PersistentAcpSession::prompt(failed),
        Err("idle".to_string())
    );
}

#[test]
fn every_prompt_goes_to_the_opened_session() {
    let session = match step(SpawnEvent::Opened(Ok("session-1".to_string()))) {
        SpawnAction::Ready(session) => session,
        _ => panic!("no session"),
    };
    for prompt in ["first", "", "third\n"] {
        assert_eq!(
            session.request(prompt, Span::from_secs(5), Span::from_secs(60)),
            PromptRequest {
                session_id: "session-1".to_string(),
                prompt: prompt.to_string(),
                idle_timeout: Span::from_secs(5),
                max_duration: Span::from_secs(60),
            }
        );
    }
}
