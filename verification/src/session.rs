//! The session of one connection: what it asks of the registry for each line
//! that arrives, and when the connection ends.

use crate::framer::{
    frame_step, lemma_oversized_line_refused, FrameError, LINE_FEED, MAX_LINE_LENGTH,
};
use crate::slots::ClientId;
use crate::text;
use crate::text::{trim_line_end, valid_name, welcome_line};
use vstd::prelude::*;

verus! {

/// Where a session stands: it has no identity until the registry admits it.
#[derive(Clone, Copy, PartialEq, Eq, Structural, Debug)]
pub enum SessionState {
    Initial,
    Joined { id: ClientId },
}

/// What the connection has to do after an event.
#[derive(Clone, PartialEq, Eq, Debug)]
pub enum Action {
    /// Close the connection; the registry hears nothing.
    Stop,
    /// Ask the registry to admit `name`, and hand its answer to `joined`.
    Join { name: String },
    /// Hand the chat message `text` to the registry.
    Post { from: ClientId, text: String },
    /// Tell the registry that `id` has left, wait for its answer, then close.
    Leave { id: ClientId },
}

/// An action, its strings as sequences of characters.
pub enum Effect {
    Stop,
    Join { name: Seq<char> },
    Post { from: ClientId, text: Seq<char> },
    Leave { id: ClientId },
}

impl DeepView for Action {
    type V = Effect;

    open spec fn deep_view(&self) -> Effect {
        match *self {
            Action::Stop => Effect::Stop,
            Action::Join { name } => Effect::Join { name: name@ },
            Action::Post { from, text } => Effect::Post { from, text: text@ },
            Action::Leave { id } => Effect::Leave { id },
        }
    }
}

/// What arrived from the framer, a line as a sequence of characters.
pub open spec fn arrived(item: Result<String, FrameError>) -> Result<Seq<char>, FrameError> {
    match item {
        Ok(line) => Ok(line@),
        Err(e) => Err(e),
    }
}

/// The state after an item from the framer, and what to do about the item.
/// A failed read ends the stream of lines; a line that cannot be framed stops
/// the connection. The first line is the proposed name: an acceptable one is
/// put to the registry, any other stops the connection. Each later line is a
/// chat message.
pub open spec fn on_item(state: SessionState, item: Result<Seq<char>, FrameError>) -> (
    SessionState,
    Effect,
) {
    match item {
        Err(FrameError::Io) => (state, on_end(state)),
        Err(_) => (state, Effect::Stop),
        Ok(line) => match state {
            SessionState::Initial => if valid_name(trim_line_end(line)) {
                (state, Effect::Join { name: trim_line_end(line) })
            } else {
                (state, Effect::Stop)
            },
            SessionState::Joined { id } => (
                state,
                Effect::Post { from: id, text: trim_line_end(line) },
            ),
        },
    }
}

/// What to do when the stream of lines has ended.
pub open spec fn on_end(state: SessionState) -> Effect {
    match state {
        SessionState::Initial => Effect::Stop,
        SessionState::Joined { id } => Effect::Leave { id },
    }
}

/// The server's side of one connection.
pub struct Session {
    state: SessionState,
}

impl View for Session {
    type V = SessionState;

    closed spec fn view(&self) -> SessionState {
        self.state
    }
}

impl Session {
    /// A session that has not joined.
    pub fn new() -> (session: Session)
        ensures
            session@ == SessionState::Initial,
    {
        Session { state: SessionState::Initial }
    }

    /// Where the session stands.
    pub fn state(&self) -> (state: SessionState)
        ensures
            state == self@,
    {
        self.state
    }

    /// The line to send as soon as the connection stands.
    pub fn started(&self) -> (prompt: String)
        ensures
            prompt@ == welcome_line(),
    {
        text::welcome()
    }

    /// Records the identity that the registry issued.
    pub fn joined(&mut self, id: ClientId)
        ensures
            final(self)@ == (SessionState::Joined { id }),
    {
        self.state = SessionState::Joined { id };
    }

    /// Takes one item from the framer.
    pub fn handle(&mut self, item: Result<String, FrameError>) -> (action: Action)
        ensures
            (final(self)@, action.deep_view()) == on_item(old(self)@, arrived(item)),
    {
        let line = match item {
            Ok(line) => text::trim(line.as_str()),
            Err(FrameError::Io) => {
                return self.finished();
            },
            Err(_) => {
                return Action::Stop;
            },
        };
        match self.state {
            SessionState::Initial => {
                if text::is_valid_name(line.as_str()) {
                    Action::Join { name: line }
                } else {
                    Action::Stop
                }
            },
            SessionState::Joined { id } => Action::Post { from: id, text: line },
        }
    }

    /// Takes the end of the stream of lines.
    pub fn finished(&self) -> (action: Action)
        ensures
            action.deep_view() == on_end(self@),
    {
        match self.state {
            SessionState::Initial => Action::Stop,
            SessionState::Joined { id } => Action::Leave { id },
        }
    }
}

/// A first line that is no acceptable name stops the connection and leaves the
/// session without an identity, so that its end is silent too: the registry
/// never hears of it.
pub proof fn lemma_rejected_name_is_silent(line: Seq<char>)
    requires
        !valid_name(trim_line_end(line)),
    ensures
        on_item(SessionState::Initial, Ok(line)) == (SessionState::Initial, Effect::Stop),
        on_end(on_item(SessionState::Initial, Ok(line)).0) == Effect::Stop,
{
}

/// A line that cannot be framed stops the connection in either state and
/// is handed to nobody: the session keeps its state and the registry hears
/// nothing, neither a post nor a leave.
pub proof fn lemma_unframed_line_stops(state: SessionState, error: FrameError)
    requires
        error != FrameError::Io,
    ensures
        on_item(state, Err(error)) == (state, Effect::Stop),
{
}

/// More than the limit of bytes without a line feed make the framer refuse
/// the line, and the session stop the connection without a word to the
/// registry.
pub proof fn lemma_oversized_line_closes_silently(pending: Seq<u8>, state: SessionState)
    requires
        pending.len() > MAX_LINE_LENGTH,
        forall|i: int| 0 <= i <= MAX_LINE_LENGTH ==> pending[i] != LINE_FEED,
    ensures
        frame_step(pending, MAX_LINE_LENGTH as int).0 == Err::<Option<Seq<char>>, FrameError>(
            FrameError::LineTooLong,
        ),
        on_item(state, Err(FrameError::LineTooLong)) == (state, Effect::Stop),
{
    lemma_oversized_line_refused(pending, MAX_LINE_LENGTH as int);
}

} // verus!
