//! The backend session model: connection state, per-session conversation
//! history, generation settings, request assembly and the retry policy.
//!
//! The network calls themselves are performed by the surrounding driver; the
//! functions here make every decision about what is sent and what happens
//! next, so the driver loop holds no logic of its own.

use vstd::prelude::*;

verus! {

/// The system prompt every translation request opens with.
pub const SYSTEM_PROMPT: &'static str = "You are a highly skilled professional translator and a native speaker of English and Japanese. Translate the given Japanese text into natural, grammatically correct English, faithfully reflecting the meaning and tone of the original. Translate all of the provided text; do not summarize. The text is markdown and the response should be markdown, matching the paragraph structure of the original.";

/// Per-session generation parameters, shared read-only by all in-flight
/// requests of one translation run.
#[derive(Debug, Clone, Copy, PartialEq, Eq, Structural)]
pub struct Settings {
    /// Ask the backend for a reasoning trace.
    pub think: bool,
    /// Seconds to pause after each finished call.
    pub pause: u64,
}

impl Default for Settings {
    /// Thinking is on by default; no pause.
    fn default() -> (r: Self)
        ensures
            r.think == true,
            r.pause == 0,
    {
        Settings { think: true, pause: 0 }
    }
}

/// Which backend a connection request addresses; the second carries the
/// API key to connect with.
#[derive(Debug, Clone, PartialEq, Eq)]
pub enum Connection {
    Ollama,
    Claude(String),
}

/// The speaker of one conversation message.
#[derive(Debug, Clone, Copy, PartialEq, Eq, Structural)]
pub enum Role {
    System,
    User,
    Assistant,
}

/// One message of the backend conversation.
#[derive(Debug, Clone)]
pub struct ChatMessage {
    pub role: Role,
    pub content: String,
}

/// How many history messages are replayed to a stateful backend with each
/// request.
pub const HISTORY_WINDOW: usize = 10;

/// The connection state of one translation session: disconnected, or
/// connected to one of the two backends, each with its own conversation
/// history.
#[derive(Debug, Clone)]
pub enum Server {
    Disconnected,
    Ollama { history: Vec<ChatMessage> },
    Claude { history: Vec<ChatMessage> },
}

impl Server {
    /// A live backend connection exists.
    pub open spec fn is_connected(self) -> bool {
        !(self is Disconnected)
    }

    /// The conversation history of a connected server.
    pub open spec fn spec_history(self) -> Seq<ChatMessage> {
        match self {
            Server::Disconnected => Seq::empty(),
            Server::Ollama { history } => history@,
            Server::Claude { history } => history@,
        }
    }

    /// A fresh Ollama session: the history opens with the system prompt.
    pub fn ollama() -> (r: Server)
        ensures
            r is Ollama,
            r.spec_history().len() == 1,
            r.spec_history()[0].role == Role::System,
            r.spec_history()[0].content@ == SYSTEM_PROMPT@,
    {
        let mut history: Vec<ChatMessage> = Vec::new();
        history.push(ChatMessage { role: Role::System, content: String::from_str(SYSTEM_PROMPT) });
        Server::Ollama { history }
    }

    /// A fresh hosted-API session with an empty history.
    pub fn claude() -> (r: Server)
        ensures
            r is Claude,
            r.spec_history().len() == 0,
    {
        Server::Claude { history: Vec::new() }
    }

    /// Runtime test for [`Server::is_connected`].
    pub fn connected(&self) -> (r: bool)
        ensures
            r == self.is_connected(),
    {
        !matches!(self, Server::Disconnected)
    }

    /// Resets the backend-side conversation: an Ollama session keeps only
    /// its system prompt, a hosted-API session is emptied, a disconnected
    /// session is left alone.
    pub fn clear_history(&mut self)
        ensures
            (*final(self)) is Disconnected == (*old(self)) is Disconnected,
            (*final(self)) is Ollama == (*old(self)) is Ollama,
            (*final(self)) is Claude == (*old(self)) is Claude,
            (*old(self)) is Ollama ==> ({
                let hist = final(self).spec_history();
                hist.len() == 1 && hist[0].role == Role::System && hist[0].content@
                    == SYSTEM_PROMPT@
            }),
            (*old(self)) is Claude ==> final(self).spec_history().len() == 0,
    {
        match self {
            Server::Disconnected => {},
            Server::Ollama { history } => {
                history.clear();
                history.push(
                    ChatMessage { role: Role::System, content: String::from_str(SYSTEM_PROMPT) },
                );
            },
            Server::Claude { history } => {
                history.clear();
            },
        }
    }

    /// Appends one message to the history of a connected server.
    pub fn push_history(&mut self, message: ChatMessage)
        requires
            old(self).is_connected(),
        ensures
            (*final(self)) is Ollama == (*old(self)) is Ollama,
            (*final(self)) is Claude == (*old(self)) is Claude,
            final(self).spec_history() == old(self).spec_history().push(message),
    {
        match self {
            Server::Disconnected => {},
            Server::Ollama { history } => {
                history.push(message);
            },
            Server::Claude { history } => {
                history.push(message);
            },
        }
    }
}

/// The text of one translation request: all the unit's sections joined by
/// single spaces.
pub open spec fn joined_prompt(parts: Seq<Seq<char>>, k: int) -> Seq<char> {
    crate::partition::joined_with(parts, " "@, k)
}

/// Joins the given sections into one prompt string with single spaces.
pub fn join_sections(sections: &Vec<String>) -> (r: String)
    ensures
        r@ == joined_prompt(crate::partition::views_of(sections@), sections@.len() as int),
{
    crate::partition::join_strings(sections, " ")
}

/// The messages a stateless request carries: the system prompt followed by
/// one user message per section, in order.
pub fn stateless_request(sections: &Vec<String>) -> (r: Vec<ChatMessage>)
    ensures
        r@.len() == sections@.len() + 1,
        r@[0].role == Role::System,
        r@[0].content@ == SYSTEM_PROMPT@,
        forall|i: int|
            0 <= i < sections@.len() ==> (#[trigger] r@[i + 1]).role == Role::User && r@[i
                + 1].content == sections@[i],
{
    let mut out: Vec<ChatMessage> = Vec::new();
    out.push(ChatMessage { role: Role::System, content: String::from_str(SYSTEM_PROMPT) });
    let mut i: usize = 0;
    while i < sections.len()
        invariant
            i <= sections@.len(),
            out@.len() == i + 1,
            out@[0].role == Role::System,
            out@[0].content@ == SYSTEM_PROMPT@,
            forall|k: int|
                0 <= k < i ==> (#[trigger] out@[k + 1]).role == Role::User && out@[k + 1].content
                    == sections@[k],
        decreases sections@.len() - i,
    {
        out.push(ChatMessage { role: Role::User, content: sections[i].clone() });
        i = i + 1;
    }
    out
}

/// The start of the replayed window: the last [`HISTORY_WINDOW`] messages.
pub open spec fn window_start(len: nat) -> int {
    if len > HISTORY_WINDOW {
        len - HISTORY_WINDOW
    } else {
        0
    }
}

/// The messages a stateful request carries: the system prompt, the last
/// [`HISTORY_WINDOW`] messages of the session history, and one user message
/// holding the joined sections.  The user message is appended to the
/// session history so later requests replay it.
pub fn stateful_request(server: &mut Server, sections: &Vec<String>) -> (r: Vec<ChatMessage>)
    requires
        old(server).is_connected(),
    ensures
        (*final(server)) is Ollama == (*old(server)) is Ollama,
        (*final(server)) is Claude == (*old(server)) is Claude,
        ({
            let hist = old(server).spec_history();
            let start = window_start(hist.len());
            let prompt = joined_prompt(
                crate::partition::views_of(sections@),
                sections@.len() as int,
            );
            &&& r@.len() == 2 + hist.len() - start
            &&& r@[0].role == Role::System
            &&& r@[0].content@ == SYSTEM_PROMPT@
            &&& forall|i: int|
                start <= i < hist.len() ==> r@[1 + i - start] == hist[i]
            &&& r@.last().role == Role::User
            &&& r@.last().content@ == prompt
            &&& final(server).spec_history() == hist.push(r@.last())
        }),
{
    let prompt_text = join_sections(sections);
    let prompt = ChatMessage { role: Role::User, content: prompt_text };
    let mut out: Vec<ChatMessage> = Vec::new();
    out.push(ChatMessage { role: Role::System, content: String::from_str(SYSTEM_PROMPT) });
    let window = history_window(server);
    let mut i: usize = 0;
    while i < window.len()
        invariant
            i <= window@.len(),
            out@.len() == i + 1,
            out@[0].role == Role::System,
            out@[0].content@ == SYSTEM_PROMPT@,
            forall|k: int| 0 <= k < i ==> out@[k + 1] == window@[k],
        decreases window@.len() - i,
    {
        out.push(clone_message(&window[i]));
        i = i + 1;
    }
    out.push(clone_message(&prompt));
    server.push_history(prompt);
    out
}

/// An exact copy of a conversation message.
fn clone_message(m: &ChatMessage) -> (r: ChatMessage)
    ensures
        r == *m,
{
    ChatMessage { role: m.role, content: m.content.clone() }
}

/// The last [`HISTORY_WINDOW`] messages of the server's history, in order.
fn history_window(server: &Server) -> (r: Vec<ChatMessage>)
    ensures
        ({
            let hist = server.spec_history();
            let start = window_start(hist.len());
            &&& r@.len() == hist.len() - start
            &&& forall|i: int| start <= i < hist.len() ==> r@[i - start] == hist[i]
        }),
{
    let mut out: Vec<ChatMessage> = Vec::new();
    let hist: &Vec<ChatMessage> = match server {
        Server::Disconnected => {
            return out;
        },
        Server::Ollama { history } => history,
        Server::Claude { history } => history,
    };
    let start = if hist.len() > HISTORY_WINDOW {
        hist.len() - HISTORY_WINDOW
    } else {
        0
    };
    let mut i: usize = start;
    while i < hist.len()
        invariant
            start <= i <= hist@.len(),
            start == window_start(hist@.len() as nat),
            hist@ == server.spec_history(),
            out@.len() == i - start,
            forall|k: int| start <= k < i ==> out@[k - start] == hist@[k],
        decreases hist@.len() - i,
    {
        out.push(clone_message(&hist[i]));
        i = i + 1;
    }
    out
}

/// The two classes of backend failure: a transient "temporarily
/// unavailable" condition, and everything else.
#[derive(Debug, Clone, Copy, PartialEq, Eq, Structural)]
pub enum BackendFault {
    Transient,
    Hard,
}

/// What the driver does after a failed call: wait and retry the same
/// request, or give up and abort the session.
#[derive(Debug, Clone, Copy, PartialEq, Eq, Structural)]
pub enum RetryStep {
    Retry { delay_secs: u64 },
    GiveUp,
}

/// Bounded retry for transient faults: a fixed delay between attempts and a
/// cap on how many are made.
#[derive(Debug, Clone, Copy, PartialEq, Eq, Structural)]
pub struct RetryPolicy {
    pub max_attempts: u32,
    pub delay_secs: u64,
}

impl Default for RetryPolicy {
    /// Ten seconds between attempts, at most thirty attempts.
    fn default() -> (r: Self)
        ensures
            r.max_attempts == 30,
            r.delay_secs == 10,
    {
        RetryPolicy { max_attempts: 30, delay_secs: 10 }
    }
}

/// Decides what follows a failed backend call: a hard fault always gives
/// up; a transient fault is retried after the policy's delay until
/// `attempts` reaches the policy's cap, then gives up.
pub fn retry_decision(policy: &RetryPolicy, fault: BackendFault, attempts: u32) -> (r: RetryStep)
    ensures
        fault == BackendFault::Hard ==> r == RetryStep::GiveUp,
        fault == BackendFault::Transient && attempts < policy.max_attempts ==> r
            == (RetryStep::Retry { delay_secs: policy.delay_secs }),
        fault == BackendFault::Transient && attempts >= policy.max_attempts ==> r
            == RetryStep::GiveUp,
{
    match fault {
        BackendFault::Hard => RetryStep::GiveUp,
        BackendFault::Transient => {
            if attempts < policy.max_attempts {
                RetryStep::Retry { delay_secs: policy.delay_secs }
            } else {
                RetryStep::GiveUp
            }
        },
    }
}

} // verus!
