//! The audit log: an append-only record of what adds, updates and forgets
//! came to.

use vstd::prelude::*;
use vstd::string::*;
use crate::ids::{decimal, memory_id_text};
use crate::outside::{fresh_uuid, now_rfc3339};

verus! {

/// The kind of operation that an audit event records.
#[derive(Debug, Clone, Copy, PartialEq, Eq, Hash, Structural)]
pub enum AuditEventKind {
    Add,
    Update,
    Forget,
}

/// What an audit event is, as a mathematical value.
pub struct AuditEventView {
    pub event_id: Seq<char>,
    pub kind: AuditEventKind,
    pub memory_id: Option<Seq<char>>,
    pub user_id: Seq<char>,
    pub cube_id: Seq<char>,
    pub timestamp: Seq<char>,
    pub input_summary: Option<Seq<char>>,
    pub outcome: Option<Seq<char>>,
}

/// One record of the audit log.
#[derive(Debug, Clone)]
pub struct AuditEvent {
    pub event_id: String,
    pub kind: AuditEventKind,
    pub memory_id: Option<String>,
    pub user_id: String,
    pub cube_id: String,
    pub timestamp: String,
    pub input_summary: Option<String>,
    pub outcome: Option<String>,
}

/// The view of an optional string.
pub open spec fn opt_text(s: Option<String>) -> Option<Seq<char>> {
    match s {
        Some(t) => Some(t@),
        None => None,
    }
}

impl View for AuditEvent {
    type V = AuditEventView;

    open spec fn view(&self) -> AuditEventView {
        AuditEventView {
            event_id: self.event_id@,
            kind: self.kind,
            memory_id: opt_text(self.memory_id),
            user_id: self.user_id@,
            cube_id: self.cube_id@,
            timestamp: self.timestamp@,
            input_summary: opt_text(self.input_summary),
            outcome: opt_text(self.outcome),
        }
    }
}

/// Copies an optional string.
pub fn copy_opt(s: &Option<String>) -> (r: Option<String>)
    ensures
        opt_text(r) == opt_text(*s),
{
    match s {
        Some(t) => Some(t.clone()),
        None => None,
    }
}

impl AuditEvent {
    /// A copy of this event.
    pub fn duplicate(&self) -> (r: AuditEvent)
        ensures
            r@ == self@,
    {
        AuditEvent {
            event_id: self.event_id.clone(),
            kind: self.kind,
            memory_id: copy_opt(&self.memory_id),
            user_id: self.user_id.clone(),
            cube_id: self.cube_id.clone(),
            timestamp: self.timestamp.clone(),
            input_summary: copy_opt(&self.input_summary),
            outcome: copy_opt(&self.outcome),
        }
    }
}

/// The decimal numeral of an integer, with a minus sign if it is negative.
pub open spec fn signed_decimal(n: int) -> Seq<char> {
    if n < 0 {
        seq!['-'] + decimal((-n) as nat)
    } else {
        decimal(n as nat)
    }
}

/// The text that records a status code: `code=` and the code's numeral.
pub open spec fn outcome_of(code: i32) -> Seq<char> {
    seq!['c', 'o', 'd', 'e', '='] + signed_decimal(code as int)
}

/// The text that records a status code.
pub fn outcome_text(code: i32) -> (s: String)
    ensures
        s@ == outcome_of(code),
{
    let mut s = String::new();
    s.push('c');
    s.push('o');
    s.push('d');
    s.push('e');
    s.push('=');
    let wide: i64 = code as i64;
    let digits = if wide < 0 {
        s.push('-');
        memory_id_text((0 - wide) as u64)
    } else {
        memory_id_text(wide as u64)
    };
    s.append(digits.as_str());
    proof {
        assert(s@ =~= outcome_of(code));
    }
    s
}

/// The audit event for an operation that ended with the status `code`,
/// under the given event id and time.
pub fn audit_event_at(
    kind: AuditEventKind,
    memory_id: Option<String>,
    user_id: String,
    cube_id: String,
    code: i32,
    event_id: String,
    timestamp: String,
) -> (e: AuditEvent)
    ensures
        e@ == (AuditEventView {
            event_id: event_id@,
            kind,
            memory_id: opt_text(memory_id),
            user_id: user_id@,
            cube_id: cube_id@,
            timestamp: timestamp@,
            input_summary: None,
            outcome: Some(outcome_of(code)),
        }),
{
    AuditEvent {
        event_id,
        kind,
        memory_id,
        user_id,
        cube_id,
        timestamp,
        input_summary: None,
        outcome: Some(outcome_text(code)),
    }
}

/// The audit event for an operation that ended with the status `code`,
/// under a fresh event id and the current time.
pub fn audit_event(
    kind: AuditEventKind,
    memory_id: Option<String>,
    user_id: String,
    cube_id: String,
    code: i32,
) -> (e: AuditEvent)
    ensures
        e@.kind == kind,
        e@.memory_id == opt_text(memory_id),
        e@.user_id == user_id@,
        e@.cube_id == cube_id@,
        e@.input_summary.is_none(),
        e@.outcome == Some(outcome_of(code)),
{
    let event_id = fresh_uuid();
    let timestamp = now_rfc3339();
    audit_event_at(kind, memory_id, user_id, cube_id, code, event_id, timestamp)
}

/// The audit log. Events are kept in the order in which they were appended
/// and never change.
#[derive(Debug, Clone)]
pub struct AuditLog {
    pub(crate) events: Vec<AuditEvent>,
}

impl View for AuditLog {
    type V = Seq<AuditEventView>;

    closed spec fn view(&self) -> Seq<AuditEventView> {
        self.events@.map_values(|e: AuditEvent| e@)
    }
}

impl AuditLog {
    /// An empty log.
    pub fn new() -> (log: AuditLog)
        ensures
            log@ == Seq::<AuditEventView>::empty(),
    {
        let log = AuditLog { events: Vec::new() };
        assert(log@ =~= Seq::<AuditEventView>::empty());
        log
    }

    /// Appends an event. Appending cannot fail.
    pub fn append(&mut self, event: AuditEvent)
        ensures
            final(self)@ == old(self)@.push(event@),
    {
        self.events.push(event);
        assert(self@ =~= old(self)@.push(event@));
    }

    /// Number of events.
    pub fn len(&self) -> (n: usize)
        ensures
            n == self@.len(),
    {
        self.events.len()
    }

    /// A copy of the `i`-th event.
    pub fn get(&self, i: usize) -> (r: Option<AuditEvent>)
        ensures
            i < self@.len() ==> (r matches Some(e) && e@ == self@[i as int]),
            i >= self@.len() ==> r.is_none(),
    {
        if i < self.events.len() {
            Some(self.events[i].duplicate())
        } else {
            None
        }
    }
}

} // verus!
