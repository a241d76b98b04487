use vstd::prelude::*;

use crate::text::text_eq;

verus! {

/// What a player can do: press or release one of the four direction keys,
/// or join the game.
#[derive(Clone, Copy, PartialEq, Eq, Structural, Debug)]
pub enum Input {
    UpPressed,
    DownPressed,
    LeftPressed,
    RightPressed,
    UpReleased,
    DownReleased,
    LeftReleased,
    RightReleased,
    CreateHero,
}

/// The text a client sends for each input it can send. Joining is never
/// sent: the server makes that input itself when a connection opens.
pub open spec fn input_name(i: Input) -> Option<Seq<char>> {
    match i {
        Input::UpPressed => Some("up_pressed"@),
        Input::DownPressed => Some("down_pressed"@),
        Input::LeftPressed => Some("left_pressed"@),
        Input::RightPressed => Some("right_pressed"@),
        Input::UpReleased => Some("up_released"@),
        Input::DownReleased => Some("down_released"@),
        Input::LeftReleased => Some("left_released"@),
        Input::RightReleased => Some("right_released"@),
        Input::CreateHero => None,
    }
}

/// The input that a client's text reads as: one of the eight key names, and
/// nothing else.
pub open spec fn input_from_text(s: Seq<char>) -> Option<Input> {
    if s == "up_pressed"@ {
        Some(Input::UpPressed)
    } else if s == "down_pressed"@ {
        Some(Input::DownPressed)
    } else if s == "left_pressed"@ {
        Some(Input::LeftPressed)
    } else if s == "right_pressed"@ {
        Some(Input::RightPressed)
    } else if s == "up_released"@ {
        Some(Input::UpReleased)
    } else if s == "down_released"@ {
        Some(Input::DownReleased)
    } else if s == "left_released"@ {
        Some(Input::LeftReleased)
    } else if s == "right_released"@ {
        Some(Input::RightReleased)
    } else {
        None
    }
}

impl crate::engine::input::Input for Input {
    open spec fn from_text(s: Seq<char>) -> Option<Input> {
        input_from_text(s)
    }

    open spec fn on_connect() -> Input {
        Input::CreateHero
    }

    fn from_str(s: &str) -> (r: Option<Input>) {
        if text_eq(s, "up_pressed") {
            Some(Input::UpPressed)
        } else if text_eq(s, "down_pressed") {
            Some(Input::DownPressed)
        } else if text_eq(s, "left_pressed") {
            Some(Input::LeftPressed)
        } else if text_eq(s, "right_pressed") {
            Some(Input::RightPressed)
        } else if text_eq(s, "up_released") {
            Some(Input::UpReleased)
        } else if text_eq(s, "down_released") {
            Some(Input::DownReleased)
        } else if text_eq(s, "left_released") {
            Some(Input::LeftReleased)
        } else if text_eq(s, "right_released") {
            Some(Input::RightReleased)
        } else {
            None
        }
    }

    fn connection_created() -> (r: Input) {
        Input::CreateHero
    }
}

/// Reading is the inverse of naming: each name a client can send reads as the
/// input it names, and a text reads as an input only if it is that input's
/// name. No text reads as joining the game.
pub proof fn lemma_names_read_back(i: Input, s: Seq<char>)
    ensures
        input_name(i) matches Some(name) ==> input_from_text(name) == Some(i),
        input_from_text(s) == Some(i) ==> input_name(i) == Some(s),
        input_from_text(s) != Some(Input::CreateHero),
{
    reveal_strlit("up_pressed");
    reveal_strlit("down_pressed");
    reveal_strlit("left_pressed");
    reveal_strlit("right_pressed");
    reveal_strlit("up_released");
    reveal_strlit("down_released");
    reveal_strlit("left_released");
    reveal_strlit("right_released");
    assert("up_pressed"@.len() == 10 && "up_pressed"@[0] == 'u');
    assert("down_pressed"@.len() == 12 && "down_pressed"@[0] == 'd');
    assert("left_pressed"@.len() == 12 && "left_pressed"@[0] == 'l');
    assert("right_pressed"@.len() == 13 && "right_pressed"@[0] == 'r');
    assert("up_released"@.len() == 11 && "up_released"@[0] == 'u');
    assert("down_released"@.len() == 13 && "down_released"@[0] == 'd');
    assert("left_released"@.len() == 13 && "left_released"@[0] == 'l');
    assert("right_released"@.len() == 14 && "right_released"@[0] == 'r');
}

} // verus!
