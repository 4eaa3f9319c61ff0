//! The interactive shell sessions and the SSH connections kept for reuse.
//! Each session is driven through a command sender of type `S`; each
//! connection is a handle of type `C`.
use vstd::prelude::*;

use crate::services::registry::{key_index, lookup, Registry};
use crate::services::ssh_client::{lossy_text, utf8_lossy, ChannelEvent};

verus! {

/// What a session's driver is asked to do.
#[derive(Clone, Debug)]
pub enum SessionCommand {
    Write(Vec<u8>),
    Resize(u32, u32),
    Close,
}

/// The text sent to the front end when a session's command exits.
pub open spec fn exit_marker() -> Seq<char> {
    "\u{0}[EXIT]"@
}

/// What a session forwards to the front end for a channel message: output
/// of either stream as text, a marker when the shell exits, nothing else.
pub fn session_output(event: &ChannelEvent) -> (r: Option<String>)
    ensures
        match *event {
            ChannelEvent::Data(d) => r matches Some(t) && t@ == lossy_text(d@),
            ChannelEvent::ExtendedData(d) => r matches Some(t) && t@ == lossy_text(d@),
            ChannelEvent::ExitStatus(_) => r matches Some(t) && t@ == exit_marker(),
            ChannelEvent::Other => r is None,
        },
{
    match event {
        ChannelEvent::Data(d) => Some(utf8_lossy(d.as_slice())),
        ChannelEvent::ExtendedData(d) => Some(utf8_lossy(d.as_slice())),
        ChannelEvent::ExitStatus(_) => Some("\u{0}[EXIT]".to_owned()),
        ChannelEvent::Other => None,
    }
}

/// What a session's driver has received: a command from the front end, the
/// end of the commands, a message of the SSH channel, the end of the
/// channel, or the failure of the write or forward it was asked for.
#[derive(Clone, Debug)]
pub enum SessionEvent {
    Command(SessionCommand),
    CommandsClosed,
    Channel(ChannelEvent),
    ChannelClosed,
    ActionFailed,
}

/// What a session's driver does next.
#[derive(Clone, Debug)]
pub enum SessionAction {
    /// Write these bytes to the channel (a failure is the event
    /// `ActionFailed`).
    Send(Vec<u8>),
    /// Change the window size (columns, rows); a failure is ignored.
    WindowChange(u32, u32),
    /// Close the channel; the session ends.
    CloseChannel,
    /// Forward this text to the front end (nobody receiving it any more is
    /// the event `ActionFailed`).
    Emit(String),
    /// The session ends.
    Stop,
    /// Nothing to do.
    Ignore,
}

/// The driver's decision on one event. A command asks for a write, a resize
/// or the close of the channel, and so does the end of the commands (a
/// close); a channel message is forwarded as `session_output` says; the end
/// of the channel, or a write or forward that failed, ends the session.
pub fn session_step(event: SessionEvent) -> (a: SessionAction)
    ensures
        match event {
            SessionEvent::Command(SessionCommand::Write(d)) => a matches SessionAction::Send(
                x,
            ) && x@ == d@,
            SessionEvent::Command(SessionCommand::Resize(w, h)) => a matches SessionAction::WindowChange(
                x,
                y,
            ) && x == w && y == h,
            SessionEvent::Command(SessionCommand::Close) => a is CloseChannel,
            SessionEvent::CommandsClosed => a is CloseChannel,
            SessionEvent::Channel(ChannelEvent::Data(d)) => a matches SessionAction::Emit(t) && t@
                == lossy_text(d@),
            SessionEvent::Channel(ChannelEvent::ExtendedData(d)) => a matches SessionAction::Emit(
                t,
            ) && t@ == lossy_text(d@),
            SessionEvent::Channel(ChannelEvent::ExitStatus(_)) => a matches SessionAction::Emit(t)
                && t@ == exit_marker(),
            SessionEvent::Channel(ChannelEvent::Other) => a is Ignore,
            SessionEvent::ChannelClosed => a is Stop,
            SessionEvent::ActionFailed => a is Stop,
        },
{
    match event {
        SessionEvent::Command(SessionCommand::Write(d)) => SessionAction::Send(d),
        SessionEvent::Command(SessionCommand::Resize(w, h)) => SessionAction::WindowChange(w, h),
        SessionEvent::Command(SessionCommand::Close) => SessionAction::CloseChannel,
        SessionEvent::CommandsClosed => SessionAction::CloseChannel,
        SessionEvent::Channel(msg) => match session_output(&msg) {
            Some(t) => SessionAction::Emit(t),
            None => SessionAction::Ignore,
        },
        SessionEvent::ChannelClosed => SessionAction::Stop,
        SessionEvent::ActionFailed => SessionAction::Stop,
    }
}

pub struct SessionManager<S, C> {
    sessions: Registry<S>,
    connections: Registry<C>,
}

impl<S, C> SessionManager<S, C> {
    /// The live sessions, by id.
    pub closed spec fn sessions(&self) -> Seq<(Seq<char>, S)> {
        self.sessions@
    }

    /// The stored connections, by host key.
    pub closed spec fn connections(&self) -> Seq<(Seq<char>, C)> {
        self.connections@
    }

    pub fn new() -> (m: Self)
        ensures
            m.sessions().len() == 0,
            m.connections().len() == 0,
    {
        SessionManager { sessions: Registry::new(), connections: Registry::new() }
    }

    /// Keep an authenticated connection under `key` for reuse (in place of
    /// one kept there before).
    pub fn store_connection(&mut self, key: &str, handle: C)
        ensures
            lookup(final(self).connections(), key@) == Some(handle),
            forall|k: Seq<char>|
                k != key@ ==> lookup(final(self).connections(), k) == lookup(
                    old(self).connections(),
                    k,
                ),
            final(self).sessions() == old(self).sessions(),
    {
        self.connections.insert(key.to_owned(), handle);
    }

    /// Record a session that has just been opened (in place of one of the
    /// same id, whose sender is returned).
    pub fn register(&mut self, session_id: String, sender: S) -> (r: Option<S>)
        ensures
            r == lookup(old(self).sessions(), session_id@),
            r is Some ==> final(self).sessions() == old(self).sessions().update(
                key_index(old(self).sessions(), session_id@),
                (session_id@, sender),
            ),
            r is None ==> final(self).sessions() == old(self).sessions().push(
                (session_id@, sender),
            ),
            final(self).connections() == old(self).connections(),
    {
        self.sessions.insert(session_id, sender)
    }

    /// The sender of a live session; an unknown id is `session not found`.
    pub fn sender(&self, session_id: &str) -> (r: Result<&S, String>)
        ensures
            match r {
                Ok(s) => lookup(self.sessions(), session_id@) == Some(*s),
                Err(e) => lookup(self.sessions(), session_id@) is None && e@
                    == "session not found"@,
            },
    {
        match self.sessions.get(session_id) {
            Some(s) => Ok(s),
            None => Err("session not found".to_owned()),
        }
    }

    /// Forget a session, returning its sender so it can be told to close.
    pub fn remove(&mut self, session_id: &str) -> (r: Option<S>)
        ensures
            r == lookup(old(self).sessions(), session_id@),
            lookup(final(self).sessions(), session_id@) is None,
            forall|k: Seq<char>|
                k != session_id@ ==> lookup(final(self).sessions(), k) == lookup(
                    old(self).sessions(),
                    k,
                ),
            final(self).connections() == old(self).connections(),
    {
        self.sessions.remove(session_id)
    }
}

} // verus!
