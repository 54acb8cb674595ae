use mpd_client::codec::{decode, decode_greeting, Decoded, Greeting};
use mpd_client::command::{RawCommand, RawCommandList};
use mpd_client::multiplexer::{cancel_idle, idle, step, Action, Event, LoopState, Step, Wait};
use mpd_client::response::{response_frames, CommandError, Response};
use mpd_client::state_changes::{response_to_subsystem, Subsystem};

fn response(bytes: &[u8]) -> Response {
    match decode(bytes) {
        Decoded::Complete(r, n) => {
            assert_eq!(n, bytes.len());
            r
        }
        other => panic!("no complete response: {:?}", other),
    }
}

fn writes(step: &Step<u32, String>) -> Vec<String> {
    let mut out = Vec::new();
    for a in &step.actions {
        if let Action::Write(s) = a {
            out.push(s.clone());
        }
    }
    out
}

fn changes(step: &Step<u32, String>) -> Vec<Subsystem> {
    let mut out = Vec::new();
    for a in &step.actions {
        if let Action::StateChange(Ok(s)) = a {
            out.push(s.clone());
        }
    }
    out
}

fn connect() -> LoopState<u32> {
    match decode_greeting(b"OK MPD 0.21.11\n") {
        Greeting::Complete(v, n) => {
            assert_eq!(v, "0.21.11");
            assert_eq!(n, 15);
        }
        other => panic!("bad greeting: {:?}", other),
    }
    assert_eq!(idle().encode(), "idle\n");
    LoopState::Idling
}

fn take_next(s: Step<u32, String>) -> LoopState<u32> {
    s.next.expect("connection ended")
}

#[test]
fn single_state_change() {
    let state = connect();
    assert_eq!(state.awaits(), Wait::ServerOrCommand);
    let s = step(state, Event::Response(response(b"changed: player\nOK\n")));
    assert_eq!(changes(&s), vec![Subsystem::Player]);
    assert_eq!(writes(&s), vec!["idle\n".to_string()]);
    assert!(matches!(s.actions[0], Action::StateChange(Ok(Subsystem::Player))));
    assert!(matches!(s.next, Some(LoopState::Idling)));
}

#[test]
fn command() {
    let state = connect();
    let cmd = RawCommandList::new(RawCommand::new("hello"));
    let s = step(state, Event::Command(cmd, 1));
    assert_eq!(writes(&s), vec!["noidle\n".to_string()]);
    assert_eq!(cancel_idle().encode(), "noidle\n");
    let state = take_next(s);
    assert_eq!(state.awaits(), Wait::Server);

    let s = step(state, Event::Response(response(b"changed: playlist\nOK\n")));
    assert_eq!(changes(&s), vec![Subsystem::Queue]);
    assert_eq!(writes(&s), vec!["hello\n".to_string()]);
    assert!(matches!(s.actions[0], Action::StateChange(_)));
    let state = take_next(s);

    let s = step(state, Event::Response(response(b"foo: bar\nOK\n")));
    let state = match &s.actions[..] {
        [Action::Reply(1, Ok(res))] => {
            assert_eq!(res.frames.len(), 1);
            assert_eq!(res.frames[0].find("foo"), Some("bar"));
            take_next(s)
        }
        other => panic!("unexpected actions: {:?}", other),
    };
    assert_eq!(state.awaits(), Wait::PollCommands);
    let s = step(state, Event::QueueEmpty);
    assert_eq!(writes(&s), vec!["idle\n".to_string()]);
    let state = take_next(s);
    let s = step(state, Event::<u32, String>::TransportClosed);
    assert!(s.actions.is_empty());
    assert!(s.next.is_none());
}

#[test]
fn incomplete_response() {
    assert!(matches!(decode(b"foo: bar\n"), Decoded::Incomplete));
    let res = response(b"foo: bar\nbaz: qux\nOK\n");
    assert_eq!(res.frames[0].find("foo"), Some("bar"));
    assert_eq!(res.frames[0].find("baz"), Some("qux"));
}

#[test]
fn command_list() {
    let mut commands = RawCommandList::new(RawCommand::new("foo"));
    commands.add(RawCommand::new("bar"));
    assert_eq!(commands.encode(), "command_list_ok_begin\nfoo\nbar\ncommand_list_end\n");

    let state = connect();
    let s = step(state, Event::Command(commands, 7));
    let state = take_next(s);
    let s = step(state, Event::Response(response(b"OK\n")));
    assert!(changes(&s).is_empty());
    assert_eq!(
        writes(&s),
        vec!["command_list_ok_begin\nfoo\nbar\ncommand_list_end\n".to_string()]
    );

    let res = response(b"foo: asdf\nlist_OK\nbaz: qux\nlist_OK\nOK\n");
    let frames = response_frames::<String>(res).unwrap();
    assert_eq!(frames.len(), 2);
    assert_eq!(frames[0].find("foo"), Some("asdf"));
    assert_eq!(frames[1].find("baz"), Some("qux"));
}

#[test]
fn dropping_client() {
    let state = connect();
    let s = step(state, Event::<u32, String>::CommandsClosed);
    assert!(s.actions.is_empty());
    assert!(s.next.is_none());
}

#[test]
fn error_response_keeps_prefix() {
    let res = response(b"foo: a\nlist_OK\nACK [2@1] {bar} bad\n");
    match response_frames::<String>(res) {
        Err(CommandError::ErrorResponse { error, successful_frames }) => {
            assert_eq!(error.code, 2);
            assert_eq!(error.command_index, 1);
            assert_eq!(error.current_command, "bar");
            assert_eq!(error.message, "bad");
            assert_eq!(successful_frames.len(), 1);
            assert_eq!(successful_frames[0].find("foo"), Some("a"));
        }
        other => panic!("unexpected: {:?}", other),
    }
}

#[test]
fn ack_with_empty_message() {
    let res = response(b"ACK [5@0] {} \n");
    let e = res.error.clone().unwrap();
    assert_eq!((e.code, e.command_index), (5, 0));
    assert_eq!(e.current_command, "");
    assert_eq!(e.message, "");
    assert!(res.frames.is_empty());
    assert!(matches!(decode(b"ACK [x@0] {a} b\n"), Decoded::Invalid));
}

#[test]
fn binary_payload() {
    let res = response(b"size: 10\nbinary: 3\n\x01\n\x02\nOK\n");
    let mut f = res.frames[0].clone();
    assert_eq!(f.find("size"), Some("10"));
    assert_eq!(f.fields_len(), 1);
    assert_eq!(f.take_binary(), Some(vec![1, 10, 2]));
    assert!(matches!(decode(b"binary: 3\n\x01\n"), Decoded::Incomplete));
    assert!(matches!(decode(b"binary: 1\nab\n"), Decoded::Invalid));
    assert!(matches!(decode(b"binary: 1\na\nbinary: 1\nb\nOK\n"), Decoded::Invalid));
}

#[test]
fn field_order_is_kept() {
    let res = response(b"file: a\nTitle: t\nfile: b\nOK\n");
    let f = &res.frames[0];
    assert_eq!(f.values("file"), vec!["a".to_string(), "b".to_string()]);
    assert_eq!(f.fields_len(), 3);
    assert!(matches!(decode(b"no separator\nOK\n"), Decoded::Invalid));
    let res = response("Title: Café ünïcödé\nTitle: 東京\nOK\n".as_bytes());
    assert_eq!(
        res.frames[0].values("Title"),
        vec!["Café ünïcödé".to_string(), "東京".to_string()]
    );
    assert!(matches!(decode(b"bad: \xff\nOK\n"), Decoded::Invalid));
}

#[test]
fn argument_quoting() {
    let cmd = RawCommand::new("find")
        .argument("artist".to_string())
        .argument("Foo Bar".to_string())
        .argument("".to_string())
        .argument("a\"b\\c".to_string())
        .argument("x/y_z.mp3".to_string());
    assert_eq!(cmd.encode(), "find artist \"Foo Bar\" \"\" \"a\\\"b\\\\c\" x/y_z.mp3\n");
}

#[test]
fn state_change_from_error_and_unknown_names() {
    let res = response(b"ACK [50@0] {idle} nope\n");
    assert!(response_to_subsystem(res).is_err());
    let res = response(b"changed: brand_new\nOK\n");
    assert_eq!(
        response_to_subsystem(res).unwrap(),
        vec![Subsystem::Other("brand_new".to_string())]
    );
    let res = response(b"OK\n");
    assert_eq!(response_to_subsystem(res).unwrap(), vec![]);
}

#[test]
fn every_changed_line_is_reported() {
    let s = step(
        LoopState::<u32>::Idling,
        Event::<u32, String>::Response(response(b"changed: player\nchanged: mixer\nOK\n")),
    );
    assert_eq!(changes(&s), vec![Subsystem::Player, Subsystem::Mixer]);
    assert_eq!(writes(&s), vec!["idle\n".to_string()]);
}

#[test]
fn transport_error_reaches_pending_command() {
    let state = connect();
    let s = step(state, Event::Command(RawCommandList::new(RawCommand::new("status")), 3));
    let state = take_next(s);
    let s = step(state, Event::TransportError("broken".to_string()));
    assert!(s.next.is_none());
    assert!(matches!(&s.actions[..], [Action::Reply(3, Err(CommandError::Protocol(e)))] if e == "broken"));
    let s = step(LoopState::<u32>::ReplySent, Event::Command(RawCommandList::new(RawCommand::new("next")), 4));
    assert_eq!(writes(&s), vec!["next\n".to_string()]);
    assert!(matches!(s.next, Some(LoopState::AwaitingReply(4))));
}
