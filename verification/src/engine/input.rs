use vstd::prelude::*;

use crate::sessionid::SessionID;

verus! {

/// One input of a game, tagged with the session that sent it.
#[derive(Clone, Copy, PartialEq, Eq, Debug)]
pub struct SessionInput<I: Input> {
    pub session_id: SessionID,
    pub input: I,
}

/// What a game's inputs must offer the engine: reading one from the text a
/// client sends, and the input that stands for a new connection.
pub trait Input: Sized + Copy {
    /// The input that the text `s` reads as, if any.
    spec fn from_text(s: Seq<char>) -> Option<Self>;

    /// The input that stands for a new connection.
    spec fn on_connect() -> Self;

    /// Reads an input from the text a client sent.
    fn from_str(s: &str) -> (r: Option<Self>)
        ensures
            r == Self::from_text(s@),
    ;

    /// The input that stands for a new connection.
    fn connection_created() -> (r: Self)
        ensures
            r == Self::on_connect(),
    ;
}

} // verus!
