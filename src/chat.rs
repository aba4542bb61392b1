//! The chat session: a conversation thread driven turn by turn through
//! retrieval and streamed generation.
//!
//! The session decides; its caller does the work. Each [`Event`] the caller
//! reports (input read, chunks retrieved, a piece of the answer streamed, the
//! stream ended or failed) moves the session to its next phase and yields the
//! [`Action`] the caller is to perform next.
use vstd::prelude::*;
use crate::prompt::{
    build_context, context_spec, query_input, user_prompt, CONTEXT_LABEL, QUERY_PREFIX,
    QUESTION_LABEL,
};
use crate::splitter::views;
use crate::text::{trim, trim_spec};

verus! {

/// A line that, with surrounding whitespace removed, is this ends the session.
pub const EXIT_COMMAND: &'static str = "exit";

/// Streamed output is broken onto a new line once a line would pass this
/// many characters.
pub const WRAP_WIDTH: usize = 80;

pub const NEWLINE: &'static str = "\n";

/// Written once an answer is complete.
pub const END_OF_ANSWER: &'static str = "\n---------------\n";

#[derive(Debug, Clone, Copy, PartialEq, Eq, Structural)]
pub enum Role {
    System,
    User,
    Assistant,
}

pub struct ChatMessage {
    pub role: Role,
    pub content: String,
}

impl View for ChatMessage {
    type V = (Role, Seq<char>);

    open spec fn view(&self) -> (Role, Seq<char>) {
        (self.role, self.content@)
    }
}

#[derive(Debug, Clone, Copy, PartialEq, Eq, Structural)]
pub enum Phase {
    /// Between turns.
    Idle,
    /// Waiting for the user's next line.
    AwaitingInput,
    /// Waiting for the chunks retrieved for the question.
    Retrieving,
    /// Receiving the streamed answer.
    Generating,
    /// Ended by the user.
    Closed,
}

/// Which step of a turn failed; the session survives either.
#[derive(Debug, Clone, Copy, PartialEq, Eq, Structural)]
pub enum TurnError {
    Retrieval,
    Generation,
}

/// What the caller reports to the session.
pub enum Event {
    /// The caller is ready for the next turn.
    Ready,
    /// A line the user entered.
    Input(String),
    /// The ranked chunk texts retrieved for the question.
    Retrieved(Vec<String>),
    /// Retrieval failed.
    RetrievalFailed,
    /// The next piece of the streamed answer.
    Delta(String),
    /// The stream ended, with or without a final marker.
    Done,
    /// The generation service failed.
    Failed,
}

/// What the session asks the caller to do.
pub enum Action {
    /// Ask the user for a line.
    Prompt,
    /// Embed `query` and fetch the `k` nearest chunk texts, best first.
    Retrieve { query: String, k: usize },
    /// Send the whole thread to the generation service and stream the answer.
    Generate,
    /// Show this text to the user.
    Write(String),
    /// Tell the user that this step of the turn failed.
    Report(TurnError),
    /// End the session.
    Exit,
    /// Nothing: the event does not belong to the current phase.
    Ignore,
}

pub enum ActionView {
    Prompt,
    Retrieve(Seq<char>, usize),
    Generate,
    Write(Seq<char>),
    Report(TurnError),
    Exit,
    Ignore,
}

impl View for Action {
    type V = ActionView;

    open spec fn view(&self) -> ActionView {
        match self {
            Action::Prompt => ActionView::Prompt,
            Action::Retrieve { query, k } => ActionView::Retrieve(query@, *k),
            Action::Generate => ActionView::Generate,
            Action::Write(s) => ActionView::Write(s@),
            Action::Report(e) => ActionView::Report(*e),
            Action::Exit => ActionView::Exit,
            Action::Ignore => ActionView::Ignore,
        }
    }
}

/// The session as a value: its phase, its thread, the question and the
/// answer of the turn under way, the output column and how many chunks a
/// turn's context holds.
pub struct SessionView {
    pub phase: Phase,
    pub thread: Seq<(Role, Seq<char>)>,
    pub question: Seq<char>,
    pub answer: Seq<char>,
    pub column: nat,
    pub top_k: usize,
}

pub open spec fn thread_view(v: Seq<ChatMessage>) -> Seq<(Role, Seq<char>)> {
    v.map_values(|m: ChatMessage| m@)
}

/// The session's next state and action when `e` arrives in state `s`.
pub open spec fn step(s: SessionView, e: Event) -> (SessionView, ActionView) {
    match s.phase {
        Phase::Idle => match e {
            Event::Ready => (SessionView { phase: Phase::AwaitingInput, ..s }, ActionView::Prompt),
            _ => (s, ActionView::Ignore),
        },
        Phase::AwaitingInput => match e {
            Event::Input(line) => {
                let q = trim_spec(line@);
                if q == EXIT_COMMAND@ {
                    (SessionView { phase: Phase::Closed, ..s }, ActionView::Exit)
                } else {
                    (
                        SessionView { phase: Phase::Retrieving, question: q, ..s },
                        ActionView::Retrieve(QUERY_PREFIX@ + q, s.top_k),
                    )
                }
            },
            _ => (s, ActionView::Ignore),
        },
        Phase::Retrieving => match e {
            Event::Retrieved(chunks) => {
                let msg = QUESTION_LABEL@ + s.question + CONTEXT_LABEL@ + context_spec(
                    views(chunks@),
                    s.top_k,
                );
                (
                    SessionView {
                        phase: Phase::Generating,
                        thread: s.thread.push((Role::User, msg)),
                        answer: Seq::empty(),
                        column: 0,
                        ..s
                    },
                    ActionView::Generate,
                )
            },
            Event::RetrievalFailed => (
                SessionView { phase: Phase::Idle, ..s },
                ActionView::Report(TurnError::Retrieval),
            ),
            _ => (s, ActionView::Ignore),
        },
        Phase::Generating => match e {
            Event::Delta(piece) => {
                let wrap = s.column + piece@.len() > WRAP_WIDTH;
                (
                    SessionView {
                        answer: s.answer + piece@,
                        column: if wrap { 0 } else { s.column + piece@.len() },
                        ..s
                    },
                    ActionView::Write(if wrap { NEWLINE@ + piece@ } else { piece@ }),
                )
            },
            Event::Done => (
                SessionView {
                    phase: Phase::Idle,
                    thread: s.thread.push((Role::Assistant, s.answer)),
                    answer: Seq::empty(),
                    column: 0,
                    ..s
                },
                ActionView::Write(END_OF_ANSWER@),
            ),
            Event::Failed => (
                SessionView { phase: Phase::Idle, answer: Seq::empty(), column: 0, ..s },
                ActionView::Report(TurnError::Generation),
            ),
            _ => (s, ActionView::Ignore),
        },
        Phase::Closed => (s, ActionView::Ignore),
    }
}

/// The session after the events `es`, one after another, from `s`.
pub open spec fn run(s: SessionView, es: Seq<Event>) -> SessionView
    decreases es.len(),
{
    if es.len() == 0 {
        s
    } else {
        run(step(s, es[0]).0, es.drop_first())
    }
}

/// The events that stream `pieces` in, in order.
pub open spec fn deltas(pieces: Seq<String>) -> Seq<Event> {
    pieces.map_values(|p: String| Event::Delta(p))
}

/// Streaming pieces in leaves the phase and the thread as they are and
/// appends the pieces to the answer.
proof fn lemma_streaming(g: SessionView, pieces: Seq<String>)
    requires
        g.phase == Phase::Generating,
    ensures
        run(g, deltas(pieces)).phase == Phase::Generating,
        run(g, deltas(pieces)).thread == g.thread,
        run(g, deltas(pieces)).answer == g.answer + views(pieces).flatten(),
    decreases pieces.len(),
{
    if pieces.len() == 0 {
        assert(views(pieces) =~= Seq::<Seq<char>>::empty());
        assert(g.answer + Seq::<char>::empty() =~= g.answer);
    } else {
        let g1 = step(g, Event::Delta(pieces[0])).0;
        assert(deltas(pieces).drop_first() =~= deltas(pieces.drop_first()));
        assert(views(pieces).drop_first() =~= views(pieces.drop_first()));
        lemma_streaming(g1, pieces.drop_first());
        assert(g1.answer + views(pieces.drop_first()).flatten() =~= g.answer + views(
            pieces,
        ).flatten());
    }
}

/// What a turn does to the thread, whatever the number of pieces streamed.
/// Once the retrieved context arrives, the thread has gained the user
/// message. When the stream then ends, the thread has gained the answer, the
/// pieces joined, and nothing else: two messages in all. When generation
/// fails instead, the thread keeps the user message and gains nothing more,
/// and the session is back between turns, ready for the next one.
pub proof fn lemma_turn_outcomes(s: SessionView, chunks: Vec<String>, pieces: Seq<String>)
    requires
        s.phase == Phase::Retrieving,
    ensures
        ({
            let g = step(s, Event::Retrieved(chunks)).0;
            let h = run(g, deltas(pieces));
            let user = g.thread.last();
            &&& g.phase == Phase::Generating
            &&& g.thread == s.thread.push(user)
            &&& user.0 == Role::User
            &&& step(h, Event::Done).0.thread == s.thread.push(user).push(
                (Role::Assistant, views(pieces).flatten()),
            )
            &&& step(h, Event::Done).0.phase == Phase::Idle
            &&& step(h, Event::Failed).0.thread == s.thread.push(user)
            &&& step(h, Event::Failed).0.phase == Phase::Idle
            &&& step(step(h, Event::Failed).0, Event::Ready).1 == ActionView::Prompt
        }),
{
    let g = step(s, Event::Retrieved(chunks)).0;
    assert(g.thread =~= s.thread.push(g.thread.last()));
    lemma_streaming(g, pieces);
    assert(Seq::<char>::empty() + views(pieces).flatten() =~= views(pieces).flatten());
}

pub struct ChatSession {
    thread: Vec<ChatMessage>,
    phase: Phase,
    question: String,
    answer: String,
    column: usize,
    top_k: usize,
}

impl View for ChatSession {
    type V = SessionView;

    closed spec fn view(&self) -> SessionView {
        SessionView {
            phase: self.phase,
            thread: thread_view(self.thread@),
            question: self.question@,
            answer: self.answer@,
            column: self.column as nat,
            top_k: self.top_k,
        }
    }
}

impl ChatSession {
    /// A session whose thread holds only the system message, between turns;
    /// each turn's context holds up to `top_k` chunks.
    pub fn new(system: &str, top_k: usize) -> (s: ChatSession)
        ensures
            s@ == (SessionView {
                phase: Phase::Idle,
                thread: seq![(Role::System, system@)],
                question: Seq::empty(),
                answer: Seq::empty(),
                column: 0,
                top_k,
            }),
    {
        let mut thread: Vec<ChatMessage> = Vec::new();
        thread.push(ChatMessage { role: Role::System, content: String::from_str(system) });
        let s = ChatSession {
            thread,
            phase: Phase::Idle,
            question: String::new(),
            answer: String::new(),
            column: 0,
            top_k,
        };
        assert(s@.thread =~= seq![(Role::System, system@)]);
        s
    }

    /// Moves the session on by `event` and says what to do next.
    pub fn handle(&mut self, event: Event) -> (a: Action)
        ensures
            (final(self)@, a@) == step(old(self)@, event),
    {
        match self.phase {
            Phase::Idle => match event {
                Event::Ready => {
                    self.phase = Phase::AwaitingInput;
                    Action::Prompt
                },
                _ => Action::Ignore,
            },
            Phase::AwaitingInput => match event {
                Event::Input(line) => {
                    let q = trim(line.as_str());
                    let exit = String::from_str(EXIT_COMMAND);
                    let owned = String::from_str(q);
                    if owned == exit {
                        self.phase = Phase::Closed;
                        Action::Exit
                    } else {
                        let query = query_input(q);
                        self.question = owned;
                        self.phase = Phase::Retrieving;
                        Action::Retrieve { query, k: self.top_k }
                    }
                },
                _ => Action::Ignore,
            },
            Phase::Retrieving => match event {
                Event::Retrieved(chunks) => {
                    let context = build_context(&chunks, self.top_k);
                    let msg = user_prompt(self.question.as_str(), context.as_str());
                    let ghost old_thread = thread_view(self.thread@);
                    self.thread.push(ChatMessage { role: Role::User, content: msg });
                    assert(thread_view(self.thread@) =~= old_thread.push(
                        (Role::User, self.thread@.last().content@),
                    ));
                    self.answer = String::new();
                    self.column = 0;
                    self.phase = Phase::Generating;
                    Action::Generate
                },
                Event::RetrievalFailed => {
                    self.phase = Phase::Idle;
                    Action::Report(TurnError::Retrieval)
                },
                _ => Action::Ignore,
            },
            Phase::Generating => match event {
                Event::Delta(piece) => {
                    let len: usize = piece.as_str().unicode_len();
                    self.answer.append(piece.as_str());
                    if self.column > WRAP_WIDTH || len > WRAP_WIDTH - self.column {
                        self.column = 0;
                        let mut out = String::from_str(NEWLINE);
                        out.append(piece.as_str());
                        Action::Write(out)
                    } else {
                        self.column = self.column + len;
                        Action::Write(piece)
                    }
                },
                Event::Done => {
                    let content = self.answer.clone();
                    let ghost old_thread = thread_view(self.thread@);
                    self.thread.push(ChatMessage { role: Role::Assistant, content });
                    assert(thread_view(self.thread@) =~= old_thread.push(
                        (Role::Assistant, self.answer@),
                    ));
                    self.answer = String::new();
                    self.column = 0;
                    self.phase = Phase::Idle;
                    Action::Write(String::from_str(END_OF_ANSWER))
                },
                Event::Failed => {
                    self.answer = String::new();
                    self.column = 0;
                    self.phase = Phase::Idle;
                    Action::Report(TurnError::Generation)
                },
                _ => Action::Ignore,
            },
            Phase::Closed => Action::Ignore,
        }
    }

    /// The conversation so far, oldest message first.
    pub fn thread(&self) -> (t: &Vec<ChatMessage>)
        ensures
            thread_view(t@) == self@.thread,
    {
        &self.thread
    }

    pub fn phase(&self) -> (p: Phase)
        ensures
            p == self@.phase,
    {
        self.phase
    }
}

} // verus!
