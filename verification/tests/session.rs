use budget_chat::framer::FrameError;
use budget_chat::session::{Action, Session, SessionState};
use budget_chat::slots::ClientId;

fn shown(action: Action) -> String {
    format!("{:?}", action)
}

#[test]
fn a_session_starts_without_an_identity() {
    let session = Session::new();
    assert_eq!(session.state(), SessionState::Initial);
}

#[test]
fn a_session_greets_with_the_prompt() {
    let session = Session::new();
    assert_eq!(session.started(), "Welcome to budgetchat! What shall I call you?");
}

#[test]
fn the_first_line_is_put_to_the_registry_as_the_name() {
    let mut session = Session::new();
    let action = session.handle(Ok("alice".to_string()));
    assert!(matches!(action, Action::Join { ref name } if name == "alice"));
    assert_eq!(session.state(), SessionState::Initial);
}

#[test]
fn the_name_is_trimmed_of_line_terminators() {
    let mut session = Session::new();
    let action = session.handle(Ok("alice\r".to_string()));
    assert!(matches!(action, Action::Join { ref name } if name == "alice"));
}

#[test]
fn an_empty_name_stops_the_connection() {
    let mut session = Session::new();
    assert!(matches!(session.handle(Ok("".to_string())), Action::Stop));
    assert_eq!(session.state(), SessionState::Initial);
    assert!(matches!(session.handle(Ok("\r".to_string())), Action::Stop));
}

#[test]
fn a_name_with_punctuation_stops_the_connection() {
    let mut session = Session::new();
    assert!(matches!(session.handle(Ok("bob!".to_string())), Action::Stop));
    assert_eq!(session.state(), SessionState::Initial);
    assert!(matches!(session.finished(), Action::Stop));
}

#[test]
fn a_name_with_trailing_blanks_stops_the_connection() {
    let mut session = Session::new();
    assert!(matches!(session.handle(Ok("bob ".to_string())), Action::Stop));
}

#[test]
fn the_answer_of_the_registry_makes_the_session_joined() {
    let mut session = Session::new();
    session.joined(ClientId(42));
    assert_eq!(session.state(), SessionState::Joined { id: ClientId(42) });
}

#[test]
fn a_line_of_a_joined_session_is_posted_as_it_is() {
    let mut session = Session::new();
    session.joined(ClientId(42));
    let action = session.handle(Ok("  hello, world! \r".to_string()));
    assert_eq!(
        shown(action),
        shown(Action::Post { from: ClientId(42), text: "  hello, world! ".to_string() })
    );
    assert_eq!(session.state(), SessionState::Joined { id: ClientId(42) });
}

#[test]
fn an_empty_line_of_a_joined_session_is_posted() {
    let mut session = Session::new();
    session.joined(ClientId(1));
    let action = session.handle(Ok(String::new()));
    assert!(matches!(action, Action::Post { from: ClientId(1), ref text } if text.is_empty()));
}

#[test]
fn an_oversized_line_stops_the_connection_in_either_state() {
    let mut session = Session::new();
    assert!(matches!(session.handle(Err(FrameError::LineTooLong)), Action::Stop));
    session.joined(ClientId(3));
    assert!(matches!(session.handle(Err(FrameError::LineTooLong)), Action::Stop));
    assert_eq!(session.state(), SessionState::Joined { id: ClientId(3) });
}

#[test]
fn a_line_that_is_not_utf8_stops_the_connection() {
    let mut session = Session::new();
    assert!(matches!(session.handle(Err(FrameError::InvalidUtf8)), Action::Stop));
    session.joined(ClientId(3));
    assert!(matches!(session.handle(Err(FrameError::InvalidUtf8)), Action::Stop));
}

#[test]
fn a_failed_read_is_a_disconnect() {
    let mut session = Session::new();
    assert!(matches!(session.handle(Err(FrameError::Io)), Action::Stop));
    session.joined(ClientId(3));
    assert!(matches!(
        session.handle(Err(FrameError::Io)),
        Action::Leave { id: ClientId(3) }
    ));
}

#[test]
fn the_end_of_a_joined_session_is_a_leave() {
    let mut session = Session::new();
    session.joined(ClientId(9));
    assert!(matches!(session.finished(), Action::Leave { id: ClientId(9) }));
}

#[test]
fn the_end_of_a_session_that_never_joined_is_silent() {
    let session = Session::new();
    assert!(matches!(session.finished(), Action::Stop));
}
