use rag_rs::chat::{Action, ChatSession, Event, Phase, Role, TurnError, END_OF_ANSWER};

fn fresh() -> ChatSession {
    ChatSession::new("Be concise.", 2)
}

fn ask(s: &mut ChatSession, line: &str) {
    assert!(matches!(s.handle(Event::Ready), Action::Prompt));
    match s.handle(Event::Input(line.to_string())) {
        Action::Retrieve { query, k } => {
            assert_eq!(query, format!("query: {}", line.trim()));
            assert_eq!(k, 2);
        }
        _ => panic!("expected a retrieval"),
    }
    let chunks = vec!["one".to_string(), "two".to_string(), "three".to_string()];
    assert!(matches!(s.handle(Event::Retrieved(chunks)), Action::Generate));
}

fn write(a: Action) -> String {
    match a {
        Action::Write(s) => s,
        _ => panic!("expected output"),
    }
}

#[test]
fn successful_turn_appends_user_and_assistant() {
    let mut s = fresh();
    assert_eq!(s.thread().len(), 1);
    assert_eq!(s.thread()[0].role, Role::System);
    ask(&mut s, "What is Rust?\n");
    assert_eq!(s.phase(), Phase::Generating);
    assert_eq!(write(s.handle(Event::Delta("A language".to_string()))), "A language");
    assert_eq!(write(s.handle(Event::Delta(".".to_string()))), ".");
    assert_eq!(write(s.handle(Event::Done)), END_OF_ANSWER);
    assert_eq!(s.phase(), Phase::Idle);
    let t = s.thread();
    assert_eq!(t.len(), 3);
    assert_eq!(t[1].role, Role::User);
    assert_eq!(t[1].content, "QUESTION: What is Rust?\n\nCONTEXT: ~~~one~~~two~~~");
    assert_eq!(t[2].role, Role::Assistant);
    assert_eq!(t[2].content, "A language.");
}

#[test]
fn failed_generation_keeps_only_the_user_message() {
    let mut s = fresh();
    ask(&mut s, "What is Rust?");
    s.handle(Event::Delta("partial".to_string()));
    assert!(matches!(s.handle(Event::Failed), Action::Report(TurnError::Generation)));
    assert_eq!(s.phase(), Phase::Idle);
    assert_eq!(s.thread().len(), 2);
    assert_eq!(s.thread()[1].role, Role::User);
    // the next turn starts cleanly
    ask(&mut s, "Again?");
    s.handle(Event::Done);
    assert_eq!(s.thread().len(), 4);
    assert_eq!(s.thread()[3].content, "");
}

#[test]
fn failed_retrieval_leaves_the_thread_alone() {
    let mut s = fresh();
    s.handle(Event::Ready);
    s.handle(Event::Input("Where?".to_string()));
    assert!(matches!(s.handle(Event::RetrievalFailed), Action::Report(TurnError::Retrieval)));
    assert_eq!(s.phase(), Phase::Idle);
    assert_eq!(s.thread().len(), 1);
}

#[test]
fn exit_command_closes_the_session() {
    let mut s = fresh();
    s.handle(Event::Ready);
    assert!(matches!(s.handle(Event::Input("  exit \n".to_string())), Action::Exit));
    assert_eq!(s.phase(), Phase::Closed);
    assert!(matches!(s.handle(Event::Ready), Action::Ignore));
    assert_eq!(s.thread().len(), 1);
}

#[test]
fn events_out_of_phase_are_ignored() {
    let mut s = fresh();
    assert!(matches!(s.handle(Event::Done), Action::Ignore));
    assert!(matches!(s.handle(Event::Input("hi".to_string())), Action::Ignore));
    assert_eq!(s.phase(), Phase::Idle);
    assert_eq!(s.thread().len(), 1);
}

#[test]
fn long_output_is_wrapped() {
    let mut s = fresh();
    ask(&mut s, "Tell me more");
    let forty = "x".repeat(40);
    assert_eq!(write(s.handle(Event::Delta(forty.clone()))), forty);
    assert_eq!(write(s.handle(Event::Delta(forty.clone()))), forty);
    assert_eq!(write(s.handle(Event::Delta("y".to_string()))), "\ny");
    assert_eq!(write(s.handle(Event::Delta("z".to_string()))), "z");
    s.handle(Event::Done);
    assert_eq!(s.thread()[2].content, format!("{forty}{forty}yz"));
}
