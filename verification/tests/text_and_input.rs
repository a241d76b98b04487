use maxmech::connections::{
    accepts_engine_protocol, after_send, choose_protocol, on_input_message, world_action,
    InputReply, MessageKind, Protocol, WorldAction,
};
use maxmech::engine::world::MsgType;
use maxmech::engine::input::Input as InputTrait;
use maxmech::input::Input;
use maxmech::sessionid::SessionID;
use maxmech::text::{decimal_text, join_with_commas, text_eq};

#[test]
fn decimal_text_writes_numbers() {
    assert_eq!(decimal_text(0), "0");
    assert_eq!(decimal_text(7), "7");
    assert_eq!(decimal_text(10), "10");
    assert_eq!(decimal_text(1234), "1234");
    assert_eq!(decimal_text(u64::MAX), u64::MAX.to_string());
}

#[test]
fn join_with_commas_separates_parts() {
    assert_eq!(join_with_commas(&vec![]), "");
    assert_eq!(join_with_commas(&vec!["a".to_string()]), "a");
    assert_eq!(
        join_with_commas(&vec!["a".to_string(), "".to_string(), "bc".to_string()]),
        "a,,bc"
    );
}

#[test]
fn text_eq_compares_characters() {
    assert!(text_eq("", ""));
    assert!(text_eq("héllo", "héllo"));
    assert!(!text_eq("hello", "hellO"));
    assert!(!text_eq("hell", "hello"));
}

#[test]
fn from_str_reads_every_key_name() {
    let cases = [
        ("up_pressed", Input::UpPressed),
        ("down_pressed", Input::DownPressed),
        ("left_pressed", Input::LeftPressed),
        ("right_pressed", Input::RightPressed),
        ("up_released", Input::UpReleased),
        ("down_released", Input::DownReleased),
        ("left_released", Input::LeftReleased),
        ("right_released", Input::RightReleased),
    ];
    for (name, input) in cases {
        assert_eq!(<Input as InputTrait>::from_str(name), Some(input));
    }
}

#[test]
fn from_str_rejects_other_texts() {
    assert_eq!(<Input as InputTrait>::from_str(""), None);
    assert_eq!(<Input as InputTrait>::from_str("create_hero"), None);
    assert_eq!(<Input as InputTrait>::from_str("UP_PRESSED"), None);
    assert_eq!(<Input as InputTrait>::from_str("up_pressed "), None);
    assert_eq!(<Input as InputTrait>::from_str("up"), None);
}

#[test]
fn connection_created_is_create_hero() {
    assert_eq!(<Input as InputTrait>::connection_created(), Input::CreateHero);
}

#[test]
fn session_ids_order_by_first_then_second_half() {
    let a = SessionID(1, 9);
    let b = SessionID(2, 0);
    let c = SessionID(2, 5);
    assert!(a < b);
    assert!(b < c);
    assert!(a < c);
    assert_eq!(a.partial_cmp(&a), Some(std::cmp::Ordering::Equal));
    assert_eq!(c.partial_cmp(&b), Some(std::cmp::Ordering::Greater));
    assert_eq!(a.cmp(&b), std::cmp::Ordering::Less);
    let mut ids = vec![c, a, b];
    ids.sort();
    assert_eq!(ids, vec![a, b, c]);
}

#[test]
fn session_id_text_and_key() {
    let id = SessionID(12, 345);
    assert_eq!(id.to_text(), "SessionID(12, 345)");
    assert_eq!(id.key(), (12, 345));
    assert_eq!(id.to_text(), format!("{:?}", id));
}

#[test]
fn new_session_ids_differ() {
    let a = SessionID::new();
    let b = SessionID::new();
    assert_ne!(a, b);
}

#[test]
fn choose_protocol_prefers_inputs() {
    let names = |v: &[&str]| v.iter().map(|s| s.to_string()).collect::<Vec<String>>();
    assert_eq!(
        choose_protocol(&names(&["world-websocket", "input-websocket"])),
        Some(Protocol::Input)
    );
    assert_eq!(choose_protocol(&names(&["world-websocket"])), Some(Protocol::World));
    assert_eq!(choose_protocol(&names(&["chat", "x"])), None);
    assert_eq!(choose_protocol(&names(&[])), None);
}

#[test]
fn engine_protocol_needs_mex() {
    let names = |v: &[&str]| v.iter().map(|s| s.to_string()).collect::<Vec<String>>();
    assert!(accepts_engine_protocol(&names(&["a", "mex-websocket"])));
    assert!(!accepts_engine_protocol(&names(&["input-websocket"])));
    assert!(!accepts_engine_protocol(&names(&[])));
}

#[test]
fn input_messages_are_answered() {
    assert_eq!(on_input_message(MessageKind::Close, "up_pressed"), InputReply::Close);
    assert_eq!(on_input_message(MessageKind::Ping, "x"), InputReply::Pong);
    assert_eq!(
        on_input_message(MessageKind::Data, "left_released"),
        InputReply::Forward(Input::LeftReleased)
    );
    assert_eq!(on_input_message(MessageKind::Data, "jump"), InputReply::Ignore);
}

#[test]
fn world_connection_waits_then_sends_full_then_diffs() {
    assert_eq!(world_action(MsgType::Full, false), WorldAction::Wait);
    assert_eq!(world_action(MsgType::Full, true), WorldAction::Send(MsgType::Full));
    assert_eq!(world_action(MsgType::Diff, true), WorldAction::Send(MsgType::Diff));
    assert_eq!(world_action(MsgType::Diff, false), WorldAction::Wait);
    assert_eq!(after_send(true), Some(MsgType::Diff));
    assert_eq!(after_send(false), None);

    // A run of turns: (may be sent the world, the send went out).
    let turns = [(false, true), (true, true), (false, true), (true, true), (true, false), (true, true)];
    let mut due = Some(MsgType::Full);
    let mut sent = Vec::new();
    for (ready, ok) in turns {
        let Some(kind) = due else { break };
        if let WorldAction::Send(k) = world_action(kind, ready) {
            sent.push(k);
            due = after_send(ok);
        }
    }
    assert_eq!(sent, vec![MsgType::Full, MsgType::Diff, MsgType::Diff]);
}
