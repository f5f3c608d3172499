use budget_chat::framer::{encode_line, Frame, FrameError, LineFramer};
use budget_chat::registry::{Delivery, Registry};
use budget_chat::session::{Action, Session, SessionState};
use budget_chat::slots::ClientId;

/// One connection as a test sees it: what the client sent is framed and
/// handled, and what the server wrote is kept as bytes.
struct Peer {
    framer: LineFramer,
    session: Session,
    wire: Vec<u8>,
    open: bool,
}

fn connect() -> Peer {
    let session = Session::new();
    let mut wire = Vec::new();
    wire.extend(encode_line(&session.started()));
    Peer { framer: LineFramer::new(), session, wire, open: true }
}

fn deliver(peers: &mut Vec<Peer>, out: Vec<Delivery>) {
    for d in out {
        for peer in peers.iter_mut() {
            if peer.open && peer.session.state() == (SessionState::Joined { id: d.to }) {
                peer.wire.extend(encode_line(&d.line));
            }
        }
    }
}

fn act(room: &mut Registry, peers: &mut Vec<Peer>, who: usize, action: Action) {
    match action {
        Action::Stop => peers[who].open = false,
        Action::Join { name } => {
            let (id, out) = room.join(name);
            peers[who].session.joined(id);
            deliver(peers, out);
        }
        Action::Post { from, text } => {
            let out = room.post(from, &text);
            deliver(peers, out);
        }
        Action::Leave { id } => {
            let out = room.leave(id);
            peers[who].open = false;
            deliver(peers, out);
        }
    }
}

fn run(room: &mut Registry, peers: &mut Vec<Peer>, who: usize) {
    while peers[who].open {
        let action = match peers[who].framer.next() {
            Frame::Wait => break,
            Frame::Line(line) => peers[who].session.handle(Ok(line)),
            Frame::Failed(e) => peers[who].session.handle(Err(e)),
            Frame::End => peers[who].session.finished(),
        };
        if matches!(action, Action::Stop) {
            peers[who].open = false;
        }
        act(room, peers, who, action);
    }
}

fn send(room: &mut Registry, peers: &mut Vec<Peer>, who: usize, bytes: &[u8]) {
    peers[who].framer.push(bytes);
    run(room, peers, who);
}

fn disconnect(room: &mut Registry, peers: &mut Vec<Peer>, who: usize) {
    peers[who].framer.close();
    run(room, peers, who);
    peers[who].open = false;
}

fn fail(room: &mut Registry, peers: &mut Vec<Peer>, who: usize) {
    peers[who].framer.break_off();
    run(room, peers, who);
    peers[who].open = false;
}

fn read(peer: &mut Peer) -> String {
    let text = String::from_utf8(peer.wire.clone()).unwrap();
    peer.wire.clear();
    text
}

#[test]
fn two_clients_chat_and_one_leaves() {
    let mut room = Registry::new();
    let mut peers = vec![connect()];
    send(&mut room, &mut peers, 0, b"alice\n");
    assert_eq!(
        read(&mut peers[0]),
        "Welcome to budgetchat! What shall I call you?\n* The room contains: \n"
    );
    peers.push(connect());
    send(&mut room, &mut peers, 1, b"bob\n");
    assert_eq!(read(&mut peers[0]), "* bob has entered the room\n");
    assert_eq!(
        read(&mut peers[1]),
        "Welcome to budgetchat! What shall I call you?\n* The room contains: alice\n"
    );
    send(&mut room, &mut peers, 0, b"hello\n");
    assert_eq!(read(&mut peers[1]), "[alice] hello\n");
    assert_eq!(read(&mut peers[0]), "");
    disconnect(&mut room, &mut peers, 0);
    assert_eq!(read(&mut peers[1]), "* alice has left the room\n");
    assert_eq!(read(&mut peers[0]), "");
    assert_eq!(room.roster(), vec!["bob".to_string()]);
}

#[test]
fn a_refused_name_is_never_announced() {
    let mut room = Registry::new();
    let mut peers = vec![connect(), connect()];
    send(&mut room, &mut peers, 0, b"alice\n");
    read(&mut peers[0]);
    send(&mut room, &mut peers, 1, b"bob!\nhello\n");
    assert!(!peers[1].open);
    assert_eq!(read(&mut peers[1]), "Welcome to budgetchat! What shall I call you?\n");
    disconnect(&mut room, &mut peers, 1);
    assert_eq!(read(&mut peers[0]), "");
    assert_eq!(room.len(), 1);
}

#[test]
fn an_empty_name_is_never_announced() {
    let mut room = Registry::new();
    let mut peers = vec![connect(), connect()];
    send(&mut room, &mut peers, 0, b"alice\n");
    read(&mut peers[0]);
    send(&mut room, &mut peers, 1, b"\r\n");
    assert!(!peers[1].open);
    disconnect(&mut room, &mut peers, 1);
    assert_eq!(read(&mut peers[0]), "");
    assert_eq!(room.len(), 1);
}

#[test]
fn an_oversized_line_of_a_member_closes_its_connection_and_is_not_broadcast() {
    let mut room = Registry::new();
    let mut peers = vec![connect(), connect()];
    send(&mut room, &mut peers, 0, b"alice\n");
    send(&mut room, &mut peers, 1, b"bob\n");
    read(&mut peers[0]);
    read(&mut peers[1]);
    send(&mut room, &mut peers, 1, &vec![b'x'; 2049]);
    assert!(!peers[1].open);
    assert_eq!(read(&mut peers[0]), "");
    assert_eq!(read(&mut peers[1]), "");
}

#[test]
fn a_line_of_the_full_length_is_broadcast() {
    let mut room = Registry::new();
    let mut peers = vec![connect(), connect()];
    send(&mut room, &mut peers, 0, b"alice\n");
    send(&mut room, &mut peers, 1, b"bob\n");
    read(&mut peers[0]);
    let mut bytes = vec![b'x'; 2048];
    bytes.push(b'\n');
    send(&mut room, &mut peers, 1, &bytes);
    assert!(peers[1].open);
    assert_eq!(read(&mut peers[0]), format!("[bob] {}\n", "x".repeat(2048)));
}

#[test]
fn a_name_split_over_two_reads_joins() {
    let mut room = Registry::new();
    let mut peers = vec![connect()];
    send(&mut room, &mut peers, 0, b"ali");
    assert_eq!(peers[0].session.state(), SessionState::Initial);
    send(&mut room, &mut peers, 0, b"ce\r\nhi\n");
    assert!(matches!(peers[0].session.state(), SessionState::Joined { .. }));
    assert_eq!(room.roster(), vec!["alice".to_string()]);
}

#[test]
fn a_name_without_a_line_feed_joins_at_the_end_of_the_stream_and_leaves() {
    let mut room = Registry::new();
    let mut peers = vec![connect(), connect()];
    send(&mut room, &mut peers, 0, b"alice\n");
    read(&mut peers[0]);
    send(&mut room, &mut peers, 1, b"bob");
    assert_eq!(read(&mut peers[0]), "");
    disconnect(&mut room, &mut peers, 1);
    assert_eq!(
        read(&mut peers[0]),
        "* bob has entered the room\n* bob has left the room\n"
    );
    assert_eq!(room.len(), 1);
}

#[test]
fn a_disconnect_is_announced_once_however_often_it_is_reported() {
    let mut room = Registry::new();
    let mut peers = vec![connect(), connect()];
    send(&mut room, &mut peers, 0, b"alice\n");
    send(&mut room, &mut peers, 1, b"bob\n");
    read(&mut peers[0]);
    let id = match peers[1].session.state() {
        SessionState::Joined { id } => id,
        SessionState::Initial => ClientId(0),
    };
    disconnect(&mut room, &mut peers, 1);
    assert_eq!(read(&mut peers[0]), "* bob has left the room\n");
    let again = room.leave(id);
    assert!(again.is_empty());
    let action = peers[1].session.handle(Err(FrameError::Io));
    act(&mut room, &mut peers, 1, action);
    assert_eq!(read(&mut peers[0]), "");
}

#[test]
fn a_failed_read_of_a_member_is_announced_as_a_leave() {
    let mut room = Registry::new();
    let mut peers = vec![connect(), connect()];
    send(&mut room, &mut peers, 0, b"alice\n");
    send(&mut room, &mut peers, 1, b"bob\n");
    read(&mut peers[0]);
    fail(&mut room, &mut peers, 1);
    assert!(!peers[1].open);
    assert_eq!(read(&mut peers[0]), "* bob has left the room\n");
}
