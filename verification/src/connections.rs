use vstd::prelude::*;

use crate::engine::world::MsgType;
use crate::input::{input_from_text, Input};
use crate::text::text_eq;

verus! {

/// What a client connection is for: sending the player's inputs, or
/// receiving the world.
#[derive(Clone, Copy, PartialEq, Eq, Structural, Debug)]
pub enum Protocol {
    Input,
    World,
}

/// The kinds of websocket message that the input connection tells apart.
#[derive(Clone, Copy, PartialEq, Eq, Structural, Debug)]
pub enum MessageKind {
    Close,
    Ping,
    Data,
}

/// What the server does with one message on an input connection.
#[derive(Clone, Copy, PartialEq, Eq, Structural, Debug)]
pub enum InputReply {
    /// Answer with a close message and end the connection.
    Close,
    /// Answer with a pong that carries the ping's payload.
    Pong,
    /// Pass the input on to the game.
    Forward(Input),
    /// Do nothing.
    Ignore,
}

/// What a world connection does on its next turn.
#[derive(Clone, Copy, PartialEq, Eq, Structural, Debug)]
pub enum WorldAction {
    /// The session may not be sent the world yet: look again.
    Wait,
    /// Send the current world as a message of this kind.
    Send(MsgType),
}

/// The protocol names a client offers, as texts.
pub open spec fn offered_names(offered: Seq<String>) -> Seq<Seq<char>> {
    offered.map_values(|s: String| s@)
}

/// The protocol that a connection gets from the names its client offers:
/// inputs if it offers "input-websocket", else the world if it offers
/// "world-websocket", else none (the connection is dropped).
pub open spec fn protocol_for(offered: Seq<Seq<char>>) -> Option<Protocol> {
    if offered.contains("input-websocket"@) {
        Some(Protocol::Input)
    } else if offered.contains("world-websocket"@) {
        Some(Protocol::World)
    } else {
        None
    }
}

/// What the server does with a message on an input connection: close on
/// close, pong on ping, and otherwise pass on the input that the text reads
/// as, if any.
pub open spec fn input_reply(kind: MessageKind, text: Seq<char>) -> InputReply {
    match kind {
        MessageKind::Close => InputReply::Close,
        MessageKind::Ping => InputReply::Pong,
        MessageKind::Data => match input_from_text(text) {
            Some(i) => InputReply::Forward(i),
            None => InputReply::Ignore,
        },
    }
}

/// A world connection sends the world, as a message of the kind it is due,
/// once the session may be sent it; until then it waits.
pub open spec fn world_action_for(due: MsgType, ready: bool) -> WorldAction {
    if ready {
        WorldAction::Send(due)
    } else {
        WorldAction::Wait
    }
}

/// The kind of message a world connection is due after a send: a diff once
/// a message went out, and nothing more (the connection ends) when the send
/// failed.
pub open spec fn due_after_send(sent: bool) -> Option<MsgType> {
    if sent {
        Some(MsgType::Diff)
    } else {
        None
    }
}

/// The kinds of the messages that a world connection sends over its turns,
/// starting due `due`: each turn says whether the session may be sent the
/// world, and whether a send on that turn went out.
pub open spec fn world_feed(due: MsgType, turns: Seq<(bool, bool)>) -> Seq<MsgType>
    decreases turns.len(),
{
    if turns.len() == 0 {
        Seq::empty()
    } else {
        match world_action_for(due, turns[0].0) {
            WorldAction::Wait => world_feed(due, turns.drop_first()),
            WorldAction::Send(kind) => seq![kind] + match due_after_send(turns[0].1) {
                Some(next) => world_feed(next, turns.drop_first()),
                None => Seq::empty(),
            },
        }
    }
}

/// Once a connection is due a diff, it only ever sends diffs.
proof fn lemma_feed_of_diffs(turns: Seq<(bool, bool)>)
    ensures
        forall|i: int| 0 <= i < world_feed(MsgType::Diff, turns).len()
            ==> #[trigger] world_feed(MsgType::Diff, turns)[i] == MsgType::Diff,
    decreases turns.len(),
{
    if turns.len() > 0 {
        lemma_feed_of_diffs(turns.drop_first());
    }
}

/// A world connection that starts due a full message sends the full world
/// first and only diffs after it, whatever its turns bring.
pub proof fn lemma_full_first_then_diffs(turns: Seq<(bool, bool)>)
    ensures
        ({
            let sent = world_feed(MsgType::Full, turns);
            &&& sent.len() > 0 ==> sent[0] == MsgType::Full
            &&& forall|i: int| 1 <= i < sent.len() ==> #[trigger] sent[i] == MsgType::Diff
        }),
    decreases turns.len(),
{
    if turns.len() > 0 {
        let rest = turns.drop_first();
        if !turns[0].0 {
            lemma_full_first_then_diffs(rest);
        } else if turns[0].1 {
            lemma_feed_of_diffs(rest);
            let sent = world_feed(MsgType::Full, turns);
            assert forall|i: int| 1 <= i < sent.len() implies #[trigger] sent[i] == MsgType::Diff by {
                assert(sent[i] == world_feed(MsgType::Diff, rest)[i - 1]);
            }
        }
    }
}

/// A client that offers "input-websocket" gets the input protocol, whatever
/// else it offers; one that offers "world-websocket" but not
/// "input-websocket" gets the world; any other client gets none.
pub proof fn lemma_protocol_choice(offered: Seq<Seq<char>>)
    ensures
        offered.contains("input-websocket"@) ==> protocol_for(offered) == Some(Protocol::Input),
        !offered.contains("input-websocket"@) && offered.contains("world-websocket"@) ==> protocol_for(
            offered,
        ) == Some(Protocol::World),
        !offered.contains("input-websocket"@) && !offered.contains("world-websocket"@) ==> protocol_for(
            offered,
        ) is None,
{
}

/// Whether the client offers the protocol `name`.
fn offers(offered: &Vec<String>, name: &str) -> (r: bool)
    ensures
        r == offered_names(offered@).contains(name@),
{
    let ghost names = offered_names(offered@);
    let mut i: usize = 0;
    while i < offered.len()
        invariant
            i <= offered.len(),
            names == offered_names(offered@),
            forall|j: int| 0 <= j < i ==> names[j] != name@,
        decreases offered.len() - i,
    {
        if text_eq(offered[i].as_str(), name) {
            assert(names[i as int] == name@);
            return true;
        }
        i = i + 1;
    }
    false
}

/// Picks the protocol of a new connection from the names its client offers.
pub fn choose_protocol(offered: &Vec<String>) -> (p: Option<Protocol>)
    ensures
        p == protocol_for(offered_names(offered@)),
        offered_names(offered@).contains("input-websocket"@) ==> p == Some(Protocol::Input),
        !offered_names(offered@).contains("input-websocket"@) && offered_names(offered@).contains(
            "world-websocket"@,
        ) ==> p == Some(Protocol::World),
        !offered_names(offered@).contains("input-websocket"@) && !offered_names(offered@).contains(
            "world-websocket"@,
        ) ==> p is None,
{
    if offers(offered, "input-websocket") {
        Some(Protocol::Input)
    } else if offers(offered, "world-websocket") {
        Some(Protocol::World)
    } else {
        None
    }
}

/// Whether the engine accepts a connection: its client must offer
/// "mex-websocket".
pub fn accepts_engine_protocol(offered: &Vec<String>) -> (r: bool)
    ensures
        r == offered_names(offered@).contains("mex-websocket"@),
{
    offers(offered, "mex-websocket")
}

/// Decides what to do with one message on an input connection.
pub fn on_input_message(kind: MessageKind, text: &str) -> (r: InputReply)
    ensures
        r == input_reply(kind, text@),
{
    match kind {
        MessageKind::Close => InputReply::Close,
        MessageKind::Ping => InputReply::Pong,
        MessageKind::Data => match <Input as crate::engine::input::Input>::from_str(text) {
            Some(i) => InputReply::Forward(i),
            None => InputReply::Ignore,
        },
    }
}

/// Decides a world connection's next turn from the kind of message it is due
/// and whether the session may be sent the world.
pub fn world_action(due: MsgType, ready: bool) -> (a: WorldAction)
    ensures
        a == world_action_for(due, ready),
{
    if ready {
        WorldAction::Send(due)
    } else {
        WorldAction::Wait
    }
}

/// The kind of message a world connection is due after a send that went out
/// (`sent`) or failed.
pub fn after_send(sent: bool) -> (due: Option<MsgType>)
    ensures
        due == due_after_send(sent),
{
    if sent {
        Some(MsgType::Diff)
    } else {
        None
    }
}

} // verus!
