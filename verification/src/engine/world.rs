use vstd::prelude::*;

use crate::sessionid::SessionID;

verus! {

/// Whether a world message carries every sprite or only what changed.
#[derive(Clone, Copy, PartialEq, Eq, Structural, Debug)]
pub enum MsgType {
    Full,
    Diff,
}

/// What a game keeps per session beside its sprites.
pub trait Data: Sized {
    /// The text that the game adds to a world message for a session.
    spec fn session_msg(&self, session_id: SessionID) -> Seq<char>;

    /// Whether the session may be sent world messages yet.
    spec fn ready_for(&self, session_id: SessionID) -> bool;

    /// Makes this data answer every session as `from` does.
    fn clone_from(&mut self, from: &Self)
        ensures
            forall|s: SessionID| #[trigger] final(self).session_msg(s) == from.session_msg(s),
            forall|s: SessionID| #[trigger] final(self).ready_for(s) == from.ready_for(s),
    ;

    /// The text that the game adds to a world message for a session.
    fn get_session_msg(&self, session_id: &SessionID) -> (r: String)
        ensures
            r@ == self.session_msg(*session_id),
    ;

    /// Whether the session may be sent world messages yet.
    fn is_ready_for_msg(&self, session_id: &SessionID) -> (r: bool)
        ensures
            r == self.ready_for(*session_id),
    ;
}

} // verus!
