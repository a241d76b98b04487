use std::collections::BTreeMap;
use vstd::prelude::*;
use vstd::string::*;

use crate::sessionid::SessionID;
use crate::text::{decimal, decimal_text};

verus! {

/// How the game loop is paced.
pub struct Config {
    pub delay_between_snapshots_ms: u64,
}

impl Config {
    /// How long the loop waits between two snapshots of the world.
    pub fn get_delay_between_snapshots_ms(&self) -> (ms: u64)
        ensures
            ms == self.delay_between_snapshots_ms,
    {
        self.delay_between_snapshots_ms
    }
}

/// What this game keeps per session: the key of each session's hero, by
/// the session id's pair of halves.
pub struct Data {
    pub hero_keys: BTreeMap<(u64, u64), usize>,
}

/// The text a world message carries about a session's hero: its key, or
/// nothing after the colon while the session has no hero.
pub open spec fn hero_key_msg(heroes: Map<(u64, u64), usize>, session_id: SessionID) -> Seq<char> {
    "\"hero_key\":"@ + if heroes.contains_key(session_id.key_of()) {
        decimal(heroes[session_id.key_of()] as nat)
    } else {
        Seq::empty()
    }
}

impl Data {
    /// Data that knows no session.
    pub fn empty() -> (d: Data)
        ensures
            d.hero_keys@.dom() == Set::<(u64, u64)>::empty(),
    {
        Data { hero_keys: BTreeMap::new() }
    }

    /// A copy of this data.
    pub fn duplicate(&self) -> (d: Data)
        ensures
            d.hero_keys@ == self.hero_keys@,
    {
        let mut dut = Data::empty();
        crate::engine::world::Data::clone_from(&mut dut, self);
        dut
    }
}

impl crate::engine::world::Data for Data {
    open spec fn session_msg(&self, session_id: SessionID) -> Seq<char> {
        hero_key_msg(self.hero_keys@, session_id)
    }

    open spec fn ready_for(&self, session_id: SessionID) -> bool {
        self.hero_keys@.contains_key(session_id.key_of())
    }

    fn clone_from(&mut self, from: &Data)
        ensures
            final(self).hero_keys@ == from.hero_keys@,
    {
        self.hero_keys = from.hero_keys.clone();
    }

    fn get_session_msg(&self, session_id: &SessionID) -> (r: String) {
        let mut s = String::from_str("\"hero_key\":");
        match self.hero_keys.get(&session_id.key()) {
            Some(key) => {
                let text = decimal_text(*key as u64);
                s.append(text.as_str());
            },
            None => {},
        }
        s
    }

    fn is_ready_for_msg(&self, session_id: &SessionID) -> (r: bool) {
        match self.hero_keys.get(&session_id.key()) {
            Some(_) => true,
            None => false,
        }
    }
}

/// A number's decimal notation has at least one digit.
pub proof fn lemma_decimal_nonempty(n: nat)
    ensures
        decimal(n).len() >= 1,
    decreases n,
{
    if n >= 10 {
        lemma_decimal_nonempty(n / 10);
    }
}

/// A session is ready for world messages exactly when the text about its
/// hero carries a key.
pub proof fn lemma_ready_iff_key_shown(d: Data, session_id: SessionID)
    ensures
        <Data as crate::engine::world::Data>::ready_for(&d, session_id) <==> <Data as crate::engine::world::Data>::session_msg(&d, session_id).len() > "\"hero_key\":"@.len(),
{
    if d.hero_keys@.contains_key(session_id.key_of()) {
        lemma_decimal_nonempty(d.hero_keys@[session_id.key_of()] as nat);
    }
}

} // verus!
