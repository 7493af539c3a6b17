//! Conversation sessions: each an ordered list of question/answer turns.

use vstd::prelude::*;
use crate::keyed::{
    entries_map, find_key, keys_unique, lemma_entries_map_at, lemma_entries_map_dom,
    lemma_entries_map_push, lemma_entries_map_remove, lemma_entries_map_update, str_eq,
};

verus! {

/// One session: its turns as parallel lists of questions and answers, and
/// when it was created and last changed (seconds since the epoch).
#[derive(Clone, Debug, PartialEq, Eq, Default)]
pub struct SessionState {
    pub id: String,
    pub queries: Vec<String>,
    pub responses: Vec<String>,
    pub created_at: u64,
    pub last_updated: u64,
}

/// All sessions by id, and which one is active.
#[derive(Clone, Debug, PartialEq, Eq, Default)]
pub struct SessionManager {
    pub sessions: Vec<(String, SessionState)>,
    pub active_session: Option<String>,
}

/// Why a session operation failed.
#[derive(Clone, Debug, PartialEq, Eq)]
pub enum SessionError {
    /// No session is active.
    NoActiveSession,
    /// No session has this id.
    NotFound(String),
    /// Every id drawn for a new session was taken already.
    NoFreshId,
}

impl SessionError {
    /// The message shown to the user.
    pub fn message(&self) -> (r: String)
        ensures
            r@ == match self {
                SessionError::NoActiveSession => "No active session found"@,
                SessionError::NotFound(id) => "Session not found: "@ + id@,
                SessionError::NoFreshId => "No unused session id could be drawn"@,
            },
    {
        match self {
            SessionError::NoActiveSession => "No active session found".to_owned(),
            SessionError::NoFreshId => "No unused session id could be drawn".to_owned(),
            SessionError::NotFound(id) => {
                let mut m = "Session not found: ".to_owned();
                vstd::string::StringExecFns::append(&mut m, id.as_str());
                m
            },
        }
    }
}

/// What choosing the session for a query did.
#[derive(Clone, Debug, PartialEq, Eq)]
pub enum SessionSelection {
    /// A new session was asked for and created.
    Created(String),
    /// No session was active, so one was created.
    CreatedDefault(String),
    /// The asked-for session became active.
    Switched(String),
    /// The active session stays.
    Kept,
}

impl SessionState {
    /// Questions and answers pair up.
    pub open spec fn wf(&self) -> bool {
        self.queries@.len() == self.responses@.len()
    }
}

impl View for SessionManager {
    type V = Map<Seq<char>, SessionState>;

    open spec fn view(&self) -> Map<Seq<char>, SessionState> {
        entries_map(self.sessions@)
    }
}

/// Relies on `uuid::Uuid::new_v4` written with `to_string`: a random id in
/// the hyphenated form, 36 characters long.
#[verifier::external_body]
fn random_id() -> (r: String)
    ensures
        r@.len() == 36,
{
    uuid::Uuid::new_v4().to_string()
}

/// Relies on `std::time::SystemTime::now`: the seconds since the epoch
/// (0 for a clock set before it).
#[verifier::external_body]
fn now_secs() -> (r: u64) {
    std::time::SystemTime::now().duration_since(std::time::UNIX_EPOCH).unwrap_or_default().as_secs()
}

/// How many random ids are drawn for a new session before giving up.
pub const ID_DRAWS: usize = 8;

impl SessionManager {
    /// Ids are unique, each session is stored under its own id, and each
    /// session's questions and answers pair up.
    pub open spec fn wf(&self) -> bool {
        &&& keys_unique(self.sessions@)
        &&& forall|i: int|
            0 <= i < self.sessions@.len() ==> (#[trigger] self.sessions@[i]).1.id@
                == self.sessions@[i].0@ && self.sessions@[i].1.wf()
    }

    /// The active session, if the pointer names a stored one.
    pub open spec fn active(&self) -> Option<SessionState> {
        match self.active_session {
            Some(a) => if self@.contains_key(a@) {
                Some(self@[a@])
            } else {
                None
            },
            None => None,
        }
    }

    /// No sessions, none active.
    pub fn new() -> (r: Self)
        ensures
            r.wf(),
            r@ == Map::<Seq<char>, SessionState>::empty(),
            r.active_session is None,
    {
        SessionManager { sessions: Vec::new(), active_session: None }
    }

    /// Whether the manager is well formed (as `wf` states), for state read
    /// from outside.
    pub fn is_well_formed(&self) -> (r: bool)
        ensures
            r == self.wf(),
    {
        let n = self.sessions.len();
        let mut i: usize = 0;
        while i < n
            invariant
                n == self.sessions@.len(),
                i <= n,
                forall|a: int, b: int| 0 <= a < b < n && a < i ==> self.sessions@[a].0@ != self.sessions@[b].0@,
                forall|a: int| 0 <= a < i ==> (#[trigger] self.sessions@[a]).1.id@ == self.sessions@[a].0@ && self.sessions@[a].1.wf(),
            decreases n - i,
        {
            let e = &self.sessions[i];
            if !str_eq(e.1.id.as_str(), e.0.as_str()) || e.1.queries.len() != e.1.responses.len() {
                return false;
            }
            let mut j: usize = i + 1;
            while j < n
                invariant
                    n == self.sessions@.len(),
                    i < j <= n,
                    forall|b: int| i < b < j ==> self.sessions@[i as int].0@ != self.sessions@[b].0@,
                decreases n - j,
            {
                if str_eq(self.sessions[i].0.as_str(), self.sessions[j].0.as_str()) {
                    return false;
                }
                j = j + 1;
            }
            i = i + 1;
        }
        true
    }

    /// A random id that no stored session has, if one of `ID_DRAWS` draws
    /// gives one.
    fn fresh_id(&self) -> (r: Option<String>)
        requires
            self.wf(),
        ensures
            match r {
                Some(id) => id@.len() == 36 && !self@.contains_key(id@),
                None => true,
            },
    {
        let mut k: usize = 0;
        while k < ID_DRAWS
            invariant
                self.wf(),
            decreases ID_DRAWS - k,
        {
            let id = random_id();
            match find_key(&self.sessions, id.as_str()) {
                None => {
                    proof {
                        lemma_entries_map_dom(self.sessions@, id@);
                    }
                    return Some(id);
                },
                Some(_) => {},
            }
            k = k + 1;
        }
        None
    }

    /// Creates a session under a new random id, with no turns, created and
    /// updated now, and makes it active; returns its id. Fails with
    /// `NoFreshId`, changing nothing, when every id drawn was taken.
    pub fn create_session(&mut self) -> (r: Result<String, SessionError>)
        requires
            old(self).wf(),
        ensures
            final(self).wf(),
            match r {
                Ok(id) => id@.len() == 36 && !old(self)@.contains_key(id@)
                    && final(self)@.contains_key(id@) && final(self)@[id@].id == id
                    && final(self)@[id@].queries@.len() == 0
                    && final(self)@[id@].responses@.len() == 0
                    && final(self)@[id@].created_at == final(self)@[id@].last_updated
                    && final(self)@ == old(self)@.insert(id@, final(self)@[id@])
                    && final(self).active_session == Some(id),
                Err(e) => e == SessionError::NoFreshId && *final(self) == *old(self),
            },
    {
        match self.fresh_id() {
            Some(id) => {
                let now = now_secs();
                Ok(self.create_session_with(id, now))
            },
            None => Err(SessionError::NoFreshId),
        }
    }

    /// Creates the session `id`, with no turns, created and updated at
    /// `now`, replacing any session of that id, and makes it active;
    /// returns its id.
    pub fn create_session_with(&mut self, id: String, now: u64) -> (r: String)
        requires
            old(self).wf(),
        ensures
            final(self).wf(),
            r == id,
            final(self)@ == old(self)@.insert(id@, final(self)@[id@]),
            final(self)@[id@].id == id,
            final(self)@[id@].queries@.len() == 0,
            final(self)@[id@].responses@.len() == 0,
            final(self)@[id@].created_at == now,
            final(self)@[id@].last_updated == now,
            final(self).active_session == Some(id),
    {
        let session = SessionState {
            id: id.clone(),
            queries: Vec::new(),
            responses: Vec::new(),
            created_at: now,
            last_updated: now,
        };
        let entry = (id.clone(), session);
        match find_key(&self.sessions, id.as_str()) {
            Some(i) => {
                proof {
                    lemma_entries_map_update(self.sessions@, i as int, entry);
                }
                self.sessions.set(i, entry);
            },
            None => {
                proof {
                    lemma_entries_map_dom(self.sessions@, id@);
                    lemma_entries_map_push(self.sessions@, entry);
                }
                self.sessions.push(entry);
            },
        }
        self.active_session = Some(id.clone());
        id
    }

    /// The active session, if one is set and stored.
    pub fn get_active_session(&self) -> (r: Option<&SessionState>)
        requires
            self.wf(),
        ensures
            match r {
                Some(s) => self.active() == Some(*s),
                None => self.active() is None,
            },
    {
        match &self.active_session {
            Some(a) => match find_key(&self.sessions, a.as_str()) {
                Some(i) => {
                    proof {
                        lemma_entries_map_at(self.sessions@, i as int);
                    }
                    Some(&self.sessions[i].1)
                },
                None => {
                    proof {
                        lemma_entries_map_dom(self.sessions@, a@);
                    }
                    None
                },
            },
            None => None,
        }
    }

    /// The active session, to change in place, if one is set and stored.
    /// The manager then holds the changed session under the same id.
    pub fn get_active_session_mut(&mut self) -> (r: Option<&mut SessionState>)
        requires
            old(self).wf(),
        ensures
            match r {
                Some(s) => old(self).active() == Some(*s) && final(self).active_session
                    == old(self).active_session && final(self)@ == old(self)@.insert(
                    old(self).active_session->Some_0@,
                    *final(s),
                ),
                None => old(self).active() is None && *final(self) == *old(self),
            },
    {
        let found = match &self.active_session {
            Some(a) => find_key(&self.sessions, a.as_str()),
            None => None,
        };
        match found {
            Some(i) => {
                proof {
                    lemma_entries_map_at(self.sessions@, i as int);
                    let s = self.sessions@;
                    assert forall|v: SessionState| #[trigger]
                        entries_map(s.update(i as int, (s[i as int].0, v))) == entries_map(s).insert(
                            s[i as int].0@,
                            v,
                        ) by {
                        lemma_entries_map_update(s, i as int, (s[i as int].0, v));
                    }
                }
                Some(&mut self.sessions[i].1)
            },
            None => {
                proof {
                    if old(self).active_session is Some {
                        lemma_entries_map_dom(self.sessions@, self.active_session->Some_0@);
                    }
                }
                None
            },
        }
    }

    /// Appends a turn to the active session and sets its last update to
    /// now; fails with `NoActiveSession` when no stored session is active.
    pub fn add_interaction(&mut self, query: String, response: String) -> (r: Result<(), SessionError>)
        requires
            old(self).wf(),
        ensures
            final(self).wf(),
            final(self).active_session == old(self).active_session,
            match old(self).active() {
                Some(s) => r is Ok && final(self)@.dom() == old(self)@.dom() && exists|now: u64|
                    final(self)@ == old(self)@.insert(
                        s.id@,
                        SessionState {
                            queries: final(self)@[s.id@].queries,
                            responses: final(self)@[s.id@].responses,
                            last_updated: now,
                            ..s
                        },
                    ) && final(self)@[s.id@].queries@ == s.queries@.push(query)
                        && final(self)@[s.id@].responses@ == s.responses@.push(response),
                None => r == Err::<(), SessionError>(SessionError::NoActiveSession) && *final(self)
                    == *old(self),
            },
    {
        let now = now_secs();
        self.add_interaction_at(query, response, now)
    }

    /// Appends a turn to the active session and sets its last update to
    /// `now`; fails with `NoActiveSession` when no stored session is active.
    pub fn add_interaction_at(&mut self, query: String, response: String, now: u64) -> (r: Result<(), SessionError>)
        requires
            old(self).wf(),
        ensures
            final(self).wf(),
            final(self).active_session == old(self).active_session,
            match old(self).active() {
                Some(s) => r is Ok && final(self)@.dom() == old(self)@.dom() && final(self)@
                    == old(self)@.insert(
                    s.id@,
                    SessionState {
                        queries: final(self)@[s.id@].queries,
                        responses: final(self)@[s.id@].responses,
                        last_updated: now,
                        ..s
                    },
                ) && final(self)@[s.id@].queries@ == s.queries@.push(query)
                    && final(self)@[s.id@].responses@ == s.responses@.push(response),
                None => r == Err::<(), SessionError>(SessionError::NoActiveSession) && *final(self)
                    == *old(self),
            },
    {
        let found = match &self.active_session {
            Some(a) => find_key(&self.sessions, a.as_str()),
            None => None,
        };
        match found {
            Some(i) => {
                let ghost a = self.active_session->Some_0;
                proof {
                    lemma_entries_map_at(self.sessions@, i as int);
                }
                let (key, mut session) = self.sessions.remove(i);
                let ghost old_sessions = old(self).sessions@;
                session.queries.push(query);
                session.responses.push(response);
                session.last_updated = now;
                let entry = (key, session);
                self.sessions.insert(i, entry);
                proof {
                    assert(self.sessions@ =~= old_sessions.update(i as int, entry));
                    lemma_entries_map_update(old_sessions, i as int, entry);
                    lemma_entries_map_at(self.sessions@, i as int);
                    assert(old_sessions[i as int].1.id@ == a@);
                    assert forall|k: int| 0 <= k < self.sessions@.len() implies (#[trigger] self.sessions@[k]).1.id@
                        == self.sessions@[k].0@ && self.sessions@[k].1.wf() by {
                        if k != i {
                            assert(self.sessions@[k] == old_sessions[k]);
                        }
                    }
                    assert(self@.dom() =~= old(self)@.dom());
                }
                Ok(())
            },
            None => {
                proof {
                    if old(self).active_session is Some {
                        lemma_entries_map_dom(self.sessions@, self.active_session->Some_0@);
                    }
                }
                Err(SessionError::NoActiveSession)
            },
        }
    }

    /// Makes session `session_id` active; fails with `NotFound` when no
    /// session has that id.
    pub fn set_active_session(&mut self, session_id: &str) -> (r: Result<(), SessionError>)
        requires
            old(self).wf(),
        ensures
            final(self).wf(),
            final(self).sessions == old(self).sessions,
            old(self)@.contains_key(session_id@) ==> r is Ok && final(self).active_session is Some
                && final(self).active_session->Some_0@ == session_id@,
            !old(self)@.contains_key(session_id@) ==> *final(self) == *old(self) && match r {
                Err(SessionError::NotFound(id)) => id@ == session_id@,
                _ => false,
            },
    {
        match find_key(&self.sessions, session_id) {
            Some(i) => {
                proof {
                    lemma_entries_map_at(self.sessions@, i as int);
                }
                self.active_session = Some(session_id.to_owned());
                Ok(())
            },
            None => {
                proof {
                    lemma_entries_map_dom(self.sessions@, session_id@);
                }
                Err(SessionError::NotFound(session_id.to_owned()))
            },
        }
    }

    /// Every session with its id.
    pub fn list_sessions(&self) -> (r: Vec<(&String, &SessionState)>)
        ensures
            r@.len() == self.sessions@.len(),
            forall|i: int|
                0 <= i < r@.len() ==> *(#[trigger] r@[i]).0 == self.sessions@[i].0 && *r@[i].1
                    == self.sessions@[i].1,
    {
        let mut out: Vec<(&String, &SessionState)> = Vec::new();
        let mut i: usize = 0;
        while i < self.sessions.len()
            invariant
                i <= self.sessions@.len(),
                out@.len() == i,
                forall|k: int|
                    0 <= k < i ==> *(#[trigger] out@[k]).0 == self.sessions@[k].0 && *out@[k].1
                        == self.sessions@[k].1,
            decreases self.sessions@.len() - i,
        {
            let e = &self.sessions[i];
            out.push((&e.0, &e.1));
            i = i + 1;
        }
        out
    }

    /// Removes the active session and unsets it; returns the removed id,
    /// or `None` when no session was active.
    pub fn clear_active_session(&mut self) -> (r: Option<String>)
        requires
            old(self).wf(),
        ensures
            final(self).wf(),
            final(self).active_session is None,
            r == old(self).active_session,
            match r {
                Some(a) => final(self)@ == old(self)@.remove(a@),
                None => final(self)@ == old(self)@,
            },
    {
        let active = self.active_session.take();
        match &active {
            Some(a) => {
                match find_key(&self.sessions, a.as_str()) {
                    Some(i) => {
                        proof {
                            lemma_entries_map_remove(self.sessions@, i as int);
                        }
                        let ghost before = self.sessions@;
                        self.sessions.remove(i);
                        proof {
                            assert forall|k: int| 0 <= k < self.sessions@.len() implies (#[trigger] self.sessions@[k]).1.id@
                                == self.sessions@[k].0@ && self.sessions@[k].1.wf() by {
                                if k < i {
                                    assert(self.sessions@[k] == before[k]);
                                } else {
                                    assert(self.sessions@[k] == before[k + 1]);
                                }
                            }
                        }
                    },
                    None => {
                        proof {
                            lemma_entries_map_dom(self.sessions@, a@);
                            assert(self@ =~= old(self)@.remove(a@));
                        }
                    },
                }
            },
            None => {},
        }
        active
    }

    /// Chooses the session for a query: `new` creates one, another name
    /// switches to that session, and no name keeps the active session or,
    /// when none is active, creates one. A session created here gets an
    /// unused random id; when no draw gives one, it fails with `NoFreshId`
    /// and changes nothing.
    pub fn select_session(&mut self, requested: Option<&str>) -> (r: Result<SessionSelection, SessionError>)
        requires
            old(self).wf(),
        ensures
            final(self).wf(),
            match requested {
                Some(name) => if name@ == "new"@ {
                    match r {
                        Ok(SessionSelection::Created(id)) => id@.len() == 36
                            && !old(self)@.contains_key(id@) && final(self).active_session == Some(id) && final(self)@
                            == old(self)@.insert(id@, final(self)@[id@])
                            && final(self)@[id@].queries@.len() == 0,
                        Err(SessionError::NoFreshId) => *final(self) == *old(self),
                        _ => false,
                    }
                } else if old(self)@.contains_key(name@) {
                    (match r {
                        Ok(SessionSelection::Switched(id)) => id@ == name@,
                        _ => false,
                    }) && final(self).active_session is Some && final(self).active_session->Some_0@
                        == name@ && final(self).sessions == old(self).sessions
                } else {
                    *final(self) == *old(self) && match r {
                        Err(SessionError::NotFound(id)) => id@ == name@,
                        _ => false,
                    }
                },
                None => if old(self).active_session is None {
                    match r {
                        Ok(SessionSelection::CreatedDefault(id)) => id@.len() == 36
                            && !old(self)@.contains_key(id@) && final(self).active_session == Some(id) && final(self)@
                            == old(self)@.insert(id@, final(self)@[id@])
                            && final(self)@[id@].queries@.len() == 0,
                        Err(SessionError::NoFreshId) => *final(self) == *old(self),
                        _ => false,
                    }
                } else {
                    r == Ok::<SessionSelection, SessionError>(SessionSelection::Kept)
                        && *final(self) == *old(self)
                },
            },
    {
        let creating = match requested {
            Some(name) => str_eq(name, "new"),
            None => self.active_session.is_none(),
        };
        let now = now_secs();
        if creating {
            match self.fresh_id() {
                Some(id) => self.select_session_with(requested, id, now),
                None => Err(SessionError::NoFreshId),
            }
        } else {
            self.select_session_with(requested, String::new(), now)
        }
    }

    /// Chooses the session for a query as `select_session` does, a session
    /// created here getting id `new_id` and time `now`.
    pub fn select_session_with(&mut self, requested: Option<&str>, new_id: String, now: u64) -> (r: Result<
        SessionSelection,
        SessionError,
    >)
        requires
            old(self).wf(),
        ensures
            final(self).wf(),
            match requested {
                Some(name) => if name@ == "new"@ {
                    r == Ok::<SessionSelection, SessionError>(SessionSelection::Created(new_id))
                        && final(self).active_session == Some(new_id) && final(self)@
                        == old(self)@.insert(new_id@, final(self)@[new_id@])
                        && final(self)@[new_id@].queries@.len() == 0
                        && final(self)@[new_id@].created_at == now
                } else if old(self)@.contains_key(name@) {
                    (match r {
                        Ok(SessionSelection::Switched(id)) => id@ == name@,
                        _ => false,
                    }) && final(self).active_session is Some && final(self).active_session->Some_0@
                        == name@ && final(self).sessions == old(self).sessions
                } else {
                    *final(self) == *old(self) && match r {
                        Err(SessionError::NotFound(id)) => id@ == name@,
                        _ => false,
                    }
                },
                None => if old(self).active_session is None {
                    r == Ok::<SessionSelection, SessionError>(
                        SessionSelection::CreatedDefault(new_id),
                    ) && final(self).active_session == Some(new_id) && final(self)@
                        == old(self)@.insert(new_id@, final(self)@[new_id@])
                        && final(self)@[new_id@].queries@.len() == 0
                        && final(self)@[new_id@].created_at == now
                } else {
                    r == Ok::<SessionSelection, SessionError>(SessionSelection::Kept)
                        && *final(self) == *old(self)
                },
            },
    {
        match requested {
            Some(name) => {
                if str_eq(name, "new") {
                    let id = self.create_session_with(new_id, now);
                    Ok(SessionSelection::Created(id))
                } else {
                    match self.set_active_session(name) {
                        Ok(()) => {
                            let id = name.to_owned();
                            assert(self.active_session->Some_0@ == id@);
                            Ok(SessionSelection::Switched(id))
                        },
                        Err(e) => Err(e),
                    }
                }
            },
            None => {
                if self.active_session.is_none() {
                    let id = self.create_session_with(new_id, now);
                    Ok(SessionSelection::CreatedDefault(id))
                } else {
                    Ok(SessionSelection::Kept)
                }
            },
        }
    }

    /// Appends a turn answered from the cache to the active session,
    /// leaving its time of last update; returns whether a stored session
    /// was active to take it.
    pub fn record_cached_turn(&mut self, query: String, answer: String) -> (r: bool)
        requires
            old(self).wf(),
        ensures
            final(self).wf(),
            final(self).active_session == old(self).active_session,
            match old(self).active() {
                Some(s) => r && final(self)@ == old(self)@.insert(
                    s.id@,
                    SessionState {
                        queries: final(self)@[s.id@].queries,
                        responses: final(self)@[s.id@].responses,
                        ..s
                    },
                ) && final(self)@[s.id@].queries@ == s.queries@.push(query)
                    && final(self)@[s.id@].responses@ == s.responses@.push(answer),
                None => !r && *final(self) == *old(self),
            },
    {
        match self.active_session {
            Some(_) => {},
            None => {
                return false;
            },
        }
        let last = match self.get_active_session() {
            Some(s) => s.last_updated,
            None => {
                return false;
            },
        };
        let _ = self.add_interaction_at(query, answer, last);
        true
    }
}

} // verus!
