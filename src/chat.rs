//! The messages sent to the chat model: instructions, the recent turns of
//! the active session, and the question with its context.

use vstd::prelude::*;
use vstd::string::StringExecFns;
use crate::session::SessionState;
use crate::text::{decimal, decimal_string, join, joined, views};

verus! {

/// How many recent turns of a session are sent along.
pub const HISTORY_WINDOW: usize = 5;

/// Who speaks in a message.
#[derive(Clone, Copy, Debug, PartialEq, Eq, Structural)]
pub enum Role {
    System,
    User,
    Assistant,
}

/// One message of a chat request.
#[derive(Clone, Debug, PartialEq, Eq)]
pub struct ChatMessage {
    pub role: Role,
    pub content: String,
}

impl Role {
    /// The role's name in a chat request.
    pub fn name(&self) -> (r: &'static str)
        ensures
            r@ == role_name(*self),
    {
        match self {
            Role::System => "system",
            Role::User => "user",
            Role::Assistant => "assistant",
        }
    }
}

pub open spec fn role_name(r: Role) -> Seq<char> {
    match r {
        Role::System => "system"@,
        Role::User => "user"@,
        Role::Assistant => "assistant"@,
    }
}

/// The role and text of each message.
pub open spec fn message_views(m: Seq<ChatMessage>) -> Seq<(Role, Seq<char>)> {
    m.map_values(|c: ChatMessage| (c.role, c.content@))
}

pub open spec fn system_prompt() -> Seq<char> {
    "You are an expert personal and code assistant."@
}

pub open spec fn context_separator() -> Seq<char> {
    "\n\n---\n\n"@
}

/// The note that stands for `k` turns left out.
pub open spec fn omitted_note(k: nat) -> Seq<char> {
    "Note: This conversation has "@ + decimal(k)
        + " previous messages that aren't shown here. I'm continuing from where we left off."@
}

/// The question, with the context to answer it from.
pub open spec fn question_text(prompt: Seq<char>, context: Seq<char>) -> Seq<char> {
    "Use the following code snippets to answer the question. Format your response in Markdown and include code where necessary.\n\nQuestion:\n"@
        + prompt + "\n\nContext:\n"@ + context
}

/// The first turn sent along from a session of `n` turns.
pub open spec fn window_start(n: nat) -> nat {
    if n > HISTORY_WINDOW {
        (n - HISTORY_WINDOW) as nat
    } else {
        0
    }
}

/// Turns as messages: each question as the user's, each answer as the
/// assistant's, alternating.
pub open spec fn turn_messages(qs: Seq<Seq<char>>, rs: Seq<Seq<char>>) -> Seq<(Role, Seq<char>)> {
    Seq::new(
        2 * qs.len(),
        |i: int|
            if i % 2 == 0 {
                (Role::User, qs[i / 2])
            } else {
                (Role::Assistant, rs[i / 2])
            },
    )
}

/// A session's history as sent: its last `HISTORY_WINDOW` turns, preceded
/// by one note that counts the earlier turns when there are any.
pub open spec fn history_view(s: SessionState) -> Seq<(Role, Seq<char>)> {
    let n = s.queries@.len();
    let st = window_start(n);
    let note = if st > 0 {
        seq![(Role::System, omitted_note(st))]
    } else {
        Seq::empty()
    };
    note + turn_messages(
        views(s.queries@).subrange(st as int, n as int),
        views(s.responses@).subrange(st as int, n as int),
    )
}

/// The whole request: instructions, the session's history, the question.
pub open spec fn request_view(prompt: Seq<char>, chunks: Seq<Seq<char>>, session: Option<SessionState>) -> Seq<(Role, Seq<char>)> {
    seq![(Role::System, system_prompt())] + match session {
        Some(s) => history_view(s),
        None => Seq::empty(),
    } + seq![(Role::User, question_text(prompt, joined(chunks, context_separator())))]
}

fn message(role: Role, content: String) -> (r: ChatMessage)
    ensures
        r.role == role,
        r.content == content,
{
    ChatMessage { role, content }
}

/// The history messages of a session: its last `HISTORY_WINDOW` turns, and
/// before them one note that says how many earlier turns were left out.
pub fn history_messages(session: &SessionState) -> (r: Vec<ChatMessage>)
    requires
        session.wf(),
    ensures
        message_views(r@) == history_view(*session),
{
    let n = session.queries.len();
    let start = if n > HISTORY_WINDOW {
        n - HISTORY_WINDOW
    } else {
        0
    };
    let ghost qs = views(session.queries@).subrange(start as int, n as int);
    let ghost rs = views(session.responses@).subrange(start as int, n as int);
    let mut out: Vec<ChatMessage> = Vec::new();
    if start > 0 {
        let mut note = "Note: This conversation has ".to_owned();
        let count = decimal_string(start as u64);
        note.append(count.as_str());
        note.append(" previous messages that aren't shown here. I'm continuing from where we left off.");
        out.push(message(Role::System, note));
    }
    let ghost head = message_views(out@);
    assert(head == (if start > 0 {
        seq![(Role::System, omitted_note(start as nat))]
    } else {
        Seq::<(Role, Seq<char>)>::empty()
    }));
    let mut i: usize = start;
    while i < n
        invariant
            start <= i <= n,
            n == session.queries@.len(),
            n == session.responses@.len(),
            qs == views(session.queries@).subrange(start as int, n as int),
            rs == views(session.responses@).subrange(start as int, n as int),
            message_views(out@) == head + turn_messages(
                qs.subrange(0, i - start),
                rs.subrange(0, i - start),
            ),
        decreases n - i,
    {
        let ghost before = message_views(out@);
        out.push(message(Role::User, session.queries[i].clone()));
        out.push(message(Role::Assistant, session.responses[i].clone()));
        i = i + 1;
        proof {
            let k = i - start;
            let t0 = turn_messages(qs.subrange(0, k - 1), rs.subrange(0, k - 1));
            let t1 = turn_messages(qs.subrange(0, k), rs.subrange(0, k));
            assert(t1 =~= t0.push((Role::User, qs[k - 1])).push((Role::Assistant, rs[k - 1])));
            assert(message_views(out@) =~= before.push((Role::User, qs[k - 1])).push(
                (Role::Assistant, rs[k - 1]),
            ));
        }
    }
    proof {
        assert(qs.subrange(0, n - start) =~= qs);
        assert(rs.subrange(0, n - start) =~= rs);
    }
    out
}

/// The messages of a chat request for `prompt`: the instructions, then the
/// history of `session` if there is one, then the question with the
/// context chunks joined by a separator.
pub fn build_chat_messages(prompt: &str, context_chunks: &Vec<String>, session: Option<&SessionState>) -> (r: Vec<ChatMessage>)
    requires
        match session {
            Some(s) => s.wf(),
            None => true,
        },
    ensures
        message_views(r@) == request_view(
            prompt@,
            views(context_chunks@),
            match session {
                Some(s) => Some(*s),
                None => None,
            },
        ),
{
    let mut out: Vec<ChatMessage> = Vec::new();
    out.push(message(Role::System, "You are an expert personal and code assistant.".to_owned()));
    let ghost first = message_views(out@);
    let mut history = match session {
        Some(s) => history_messages(s),
        None => Vec::new(),
    };
    let ghost hv = message_views(history@);
    out.append(&mut history);
    let context = join(context_chunks, "\n\n---\n\n");
    let mut question = "Use the following code snippets to answer the question. Format your response in Markdown and include code where necessary.\n\nQuestion:\n".to_owned();
    question.append(prompt);
    question.append("\n\nContext:\n");
    question.append(context.as_str());
    let ghost mid = message_views(out@);
    assert(mid =~= first + hv);
    out.push(message(Role::User, question));
    assert(message_views(out@) =~= mid.push((Role::User, question_text(prompt@, joined(views(context_chunks@), context_separator())))));
    out
}

/// The text of the model's answer, or a fixed notice when it gave none.
pub fn answer_or_notice(content: Option<String>) -> (r: String)
    ensures
        r@ == match content {
            Some(c) => c@,
            None => "No answer generated"@,
        },
{
    match content {
        Some(c) => c,
        None => "No answer generated".to_owned(),
    }
}

/// The history sent for a session holds its last `HISTORY_WINDOW` turns
/// (all of them when there are no more) and, exactly when older turns
/// exist, one system note first that counts them; no other system message.
pub proof fn lemma_history_window(s: SessionState)
    requires
        s.wf(),
    ensures
        ({
            let n = s.queries@.len();
            let h = history_view(s);
            let kept = if n > HISTORY_WINDOW {
                HISTORY_WINDOW as nat
            } else {
                n
            };
            &&& n > HISTORY_WINDOW ==> h.len() == 2 * HISTORY_WINDOW + 1 && h[0] == (
                Role::System,
                omitted_note((n - HISTORY_WINDOW) as nat),
            )
            &&& n <= HISTORY_WINDOW ==> h.len() == 2 * n
            &&& forall|i: int|
                0 <= i < h.len() && (n <= HISTORY_WINDOW || i > 0) ==> (#[trigger] h[i]).0
                    != Role::System
            &&& forall|j: int|
                n - kept <= j < n ==> h[h.len() - 2 * (n - j)] == (
                    Role::User,
                    (#[trigger] s.queries@[j])@,
                ) && h[h.len() - 2 * (n - j) + 1] == (Role::Assistant, s.responses@[j]@)
        }),
{
    let n = s.queries@.len();
    let st = window_start(n);
    let qs = views(s.queries@).subrange(st as int, n as int);
    let rs = views(s.responses@).subrange(st as int, n as int);
    let t = turn_messages(qs, rs);
    let h = history_view(s);
    let kept = if n > HISTORY_WINDOW {
        HISTORY_WINDOW as nat
    } else {
        n
    };
    assert(kept == n - st);
    let off: int = if st > 0 {
        1
    } else {
        0
    };
    assert(h.len() == off + t.len());
    assert forall|i: int| 0 <= i < h.len() && (n <= HISTORY_WINDOW || i > 0) implies (#[trigger] h[i]).0
        != Role::System by {
        assert(h[i] == t[i - off]);
    }
    assert forall|j: int| n - kept <= j < n implies h[h.len() - 2 * (n - j)] == (
        Role::User,
        (#[trigger] s.queries@[j])@,
    ) && h[h.len() - 2 * (n - j) + 1] == (Role::Assistant, s.responses@[j]@) by {
        let k = j - st;
        assert(h.len() - 2 * (n - j) == off + 2 * k);
        assert(h[off + 2 * k] == t[2 * k]);
        assert(h[off + 2 * k + 1] == t[2 * k + 1]);
        assert((2 * k) / 2 == k);
        assert((2 * k + 1) / 2 == k);
        assert((2 * k) % 2 == 0);
        assert((2 * k + 1) % 2 == 1);
    }
}

} // verus!
