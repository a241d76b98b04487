use std::collections::BTreeMap;
use stash::Stash;
use vstd::prelude::*;
use vstd::std_specs::iter::IteratorSpec;
use vstd::string::*;

pub use crate::engine::world::MsgType;
use crate::engine::input::SessionInput;
use crate::game::{hero_key_msg, Data};
use crate::input::Input;
use crate::scene::{
    fresh_keys, heroes_distinct, heroes_placed, holds_in_order, joined_before, joins_before,
    apply_inputs, counting, free_after, join_keys, joins, key_order, put_key, lemma_key_order_exists, lemma_key_order_is,
    lemma_run_keeps_sprites, Table,
    lemma_run_push, moving_keys, run, servable, step, Scene,
};
use crate::sessionid::SessionID;
use crate::sprite::{
    fb, initial_sprites, is_moving, lemma_floats_written, num, sprite_floats, sprite_msg, writes,
    writes_sprite, FloatBits, Hero, SpriteEnum,
};
use crate::stash_table::{
    increasing, stash_clone, stash_contents, stash_free, stash_get, stash_get_mut, stash_keys, stash_new,
    stash_put,
};
use crate::text::{comma_joined, decimal, decimal_text, join_with_commas};

verus! {

/// The state of the game at one moment: its sprites, how long it has run,
/// which sprite is each session's hero, and which sprites the last step
/// made, removed or changed.
pub struct World {
    pub sprites: Stash<SpriteEnum>,
    pub elapsed_ms: FloatBits,
    /// What the game keeps per session: the key of each session's hero.
    pub data: Data,
    pub new_sprite_keys: Vec<usize>,
    pub removed_sprite_keys: Vec<usize>,
    pub updated_sprite_keys: Vec<usize>,
}

/// The messages of the sprites under the keys, in the keys' order.
pub open spec fn sprite_msgs(
    sprites: Map<usize, SpriteEnum>,
    keys: Seq<usize>,
    texts: Map<u32, String>,
) -> Seq<Seq<char>> {
    keys.map_values(|k: usize| sprite_msg(sprites[k], k as nat, texts))
}

/// The message that tells one session about a world: the time, the session
/// and what the game's data says of it (the key of its hero, empty if it has
/// none), then the sprites that are new (every sprite, in key order, for a
/// full message), the sprites that changed, and the keys of the sprites that
/// were removed.
pub open spec fn world_msg(
    w: World,
    msg_type: MsgType,
    session_id: SessionID,
    texts: Map<u32, String>,
) -> Seq<char> {
    let sprites = w.sprite_map();
    let new_keys = match msg_type {
        MsgType::Diff => w.new_sprite_keys@,
        MsgType::Full => key_order(sprites.dom()),
    };
    "{\"t\":"@ + num(texts, w.elapsed_ms) + ", \"session_id\":\""@ + session_id.text_of()
        + "\", "@ + hero_key_msg(w.data.hero_keys@, session_id) + ", \"new_sprites\":["@ + comma_joined(
        sprite_msgs(sprites, new_keys, texts),
    ) + "], \"updated_sprites\":["@ + comma_joined(
        sprite_msgs(sprites, w.updated_sprite_keys@, texts),
    ) + "],\"removed_sprite_keys\":["@ + comma_joined(
        w.removed_sprite_keys@.map_values(|k: usize| decimal(k as nat)),
    ) + "] }"@
}

/// Whether the table of texts writes out every number of the world: its
/// time and the numbers of all its sprites.
pub open spec fn writes_world(texts: Map<u32, String>, w: World) -> bool {
    &&& writes(texts, w.elapsed_ms)
    &&& forall|k: usize| #[trigger]
        w.sprite_map().contains_key(k) ==> writes_sprite(texts, w.sprite_map()[k])
}

/// A full world message shows every sprite exactly once, in increasing key
/// order.
pub proof fn lemma_full_message_shows_each_sprite_once(w: World)
    requires
        w.sprite_map().dom().finite(),
    ensures
        increasing(key_order(w.sprite_map().dom())),
        key_order(w.sprite_map().dom()).to_set() == w.sprite_map().dom(),
        key_order(w.sprite_map().dom()).no_duplicates(),
{
    lemma_key_order_exists(w.sprite_map().dom());
}

/// What a step makes of a world: `next` is `w` after the inputs, with every
/// joining player's hero under the key that the table hands out next; the
/// time is the same (the caller adds the step's time), nothing is new or
/// removed, and the keys of `w`'s heroes and boxes are reported as changed,
/// in increasing order.
pub open spec fn stepped(w: World, inputs: Seq<SessionInput<Input>>, next: World) -> bool {
    &&& next.table() == apply_inputs(w.table(), inputs)
    &&& next.elapsed_ms == w.elapsed_ms
    &&& next.new_sprite_keys@.len() == 0
    &&& next.removed_sprite_keys@.len() == 0
    &&& next.updated_sprite_keys@ == key_order(moving_keys(w.sprite_map().dom(), next.sprite_map()))
}

/// A step is determined by the world and the inputs: two steps from one
/// world with the same inputs give the same sprites under the same keys, the
/// same heroes' keys, the same empty slots, the same time and the same
/// reported keys, whatever the worlds they were written into held before.
pub proof fn lemma_step_deterministic(w: World, inputs: Seq<SessionInput<Input>>, a: World, b: World)
    requires
        stepped(w, inputs, a),
        stepped(w, inputs, b),
    ensures
        a.sprite_map() == b.sprite_map(),
        a.data.hero_keys@ == b.data.hero_keys@,
        stash_free(a.sprites) == stash_free(b.sprites),
        a.elapsed_ms == b.elapsed_ms,
        a.new_sprite_keys@ == b.new_sprite_keys@,
        a.removed_sprite_keys@ == b.removed_sprite_keys@,
        a.updated_sprite_keys@ == b.updated_sprite_keys@,
{
    assert(a.new_sprite_keys@ =~= b.new_sprite_keys@);
    assert(a.removed_sprite_keys@ =~= b.removed_sprite_keys@);
}

/// A full message and a diff say the same of a world whose new keys are all
/// its keys in increasing order.
pub proof fn lemma_full_is_diff_of_all(w: World, session_id: SessionID, texts: Map<u32, String>)
    requires
        w.new_sprite_keys@ == key_order(w.sprite_map().dom()),
    ensures
        world_msg(w, MsgType::Full, session_id, texts) == world_msg(w, MsgType::Diff, session_id, texts),
{
}

/// The bit patterns of the numbers of the sprites under the keys, sprite by
/// sprite in the keys' order, each sprite's in the order its message shows
/// them.
pub open spec fn floats_of(sprites: Map<usize, SpriteEnum>, keys: Seq<usize>) -> Seq<u32>
    decreases keys.len(),
{
    if keys.len() == 0 {
        Seq::empty()
    } else {
        floats_of(sprites, keys.drop_last()) + sprite_floats(sprites[keys.last()]).map_values(
            |f: FloatBits| f.bits,
        )
    }
}

/// The session's hero key holds a hero.
pub open spec fn hero_under(sprites: Map<usize, SpriteEnum>, heroes: Map<(u64, u64), usize>, s: (u64, u64)) -> bool {
    sprites.contains_key(heroes[s]) && sprites[heroes[s]] is Hero
}

impl World {
    /// The sprites under their keys.
    pub open spec fn sprite_map(&self) -> Map<usize, SpriteEnum> {
        stash_contents(self.sprites)
    }

    /// The sprites and the heroes' keys.
    pub open spec fn scene(&self) -> Scene {
        (self.sprite_map(), self.data.hero_keys@)
    }

    /// The world's table as the inputs see it: the scene, how many sprites it
    /// holds, and the order in which its empty slots are reused.
    pub open spec fn table(&self) -> Table {
        (self.scene(), self.sprite_map().dom().len(), stash_free(self.sprites))
    }

    /// Finitely many sprites, and every hero key holds a hero: what a step
    /// needs of a world.
    pub open spec fn heroes_ok(&self) -> bool {
        &&& self.sprite_map().dom().finite()
        &&& heroes_placed(self.sprite_map(), self.data.hero_keys@)
    }

    /// Every key reported as changed holds a sprite, and so does every key
    /// reported as new where `new_too`: what a message needs of a world.
    pub open spec fn reports_ok(&self, new_too: bool) -> bool {
        &&& new_too ==> forall|i: int|
            0 <= i < self.new_sprite_keys.len() ==> self.sprite_map().contains_key(
                #[trigger] self.new_sprite_keys@[i],
            )
        &&& forall|i: int|
            0 <= i < self.updated_sprite_keys.len() ==> self.sprite_map().contains_key(
                #[trigger] self.updated_sprite_keys@[i],
            )
    }

    /// The world is whole: finitely many sprites, every hero key holds a
    /// hero, and every new or changed key holds a sprite.
    pub open spec fn wf(&self) -> bool {
        &&& self.heroes_ok()
        &&& self.reports_ok(true)
    }

    /// The starting world: the starting sprites (ten boxes and the floor),
    /// the `k`-th of them under key `k`, with no empty slot; the given data,
    /// no time passed, and no new, removed or changed keys to report. It is
    /// whole when the data knows no hero yet.
    pub fn new(data: Data) -> (w: World)
        ensures
            data.hero_keys@.dom().is_empty() ==> w.wf(),
            holds_in_order(w.sprite_map(), initial_sprites(), counting(initial_sprites().len())),
            stash_free(w.sprites) == Seq::<usize>::empty(),
            w.elapsed_ms == fb(0),
            w.data == data,
            w.new_sprite_keys@.len() == 0,
            w.removed_sprite_keys@.len() == 0,
            w.updated_sprite_keys@.len() == 0,
    {
        let mut stash = stash_new();
        let initial = SpriteEnum::get_initial_sprites();
        let mut i: usize = 0;
        assert(counting(0).to_set() =~= Set::<usize>::empty());
        while i < initial.len()
            invariant
                i <= initial.len(),
                initial@ == initial_sprites(),
                holds_in_order(stash_contents(stash), initial@.take(i as int), counting(i as nat)),
                stash_contents(stash).dom().finite(),
                stash_contents(stash).dom().len() == i,
                stash_free(stash) == Seq::<usize>::empty(),
            decreases initial.len() - i,
        {
            let ghost before = counting(i as nat);
            let key = stash_put(&mut stash, initial[i]);
            assert(key == i);
            proof {
                let after = counting((i + 1) as nat);
                assert(after =~= before.push(key));
                assert forall|x: usize| after.to_set().contains(x) <==> before.to_set().insert(
                    key,
                ).contains(x) by {
                    if after.contains(x) {
                        let j = choose|j: int| 0 <= j < after.len() && after[j] == x;
                        if j < before.len() {
                            assert(before[j] == x);
                        }
                    }
                    if before.contains(x) {
                        let j = choose|j: int| 0 <= j < before.len() && before[j] == x;
                        assert(after[j] == x);
                    }
                    if x == key {
                        assert(after[i as int] == key);
                    }
                }
                assert(after.to_set() =~= before.to_set().insert(key));
                assert(initial@.take(i + 1) =~= initial@.take(i as int).push(initial@[i as int]));
            }
            i = i + 1;
        }
        assert(initial@.take(initial.len() as int) =~= initial@);
        let w = World {
            sprites: stash,
            elapsed_ms: FloatBits { bits: 0 },
            data,
            new_sprite_keys: Vec::new(),
            removed_sprite_keys: Vec::new(),
            updated_sprite_keys: Vec::new(),
        };
        w
    }

    /// Makes `into` hold this world's sprites (under the same keys, with the
    /// same empty slots), time and data. Its lists of new, removed and
    /// changed keys are left as they were: the next step empties them.
    pub fn copy_into(&self, into: &mut World)
        ensures
            final(into).sprite_map() == self.sprite_map(),
            stash_free(final(into).sprites) == stash_free(self.sprites),
            final(into).elapsed_ms == self.elapsed_ms,
            final(into).data.hero_keys@ == self.data.hero_keys@,
            final(into).new_sprite_keys == old(into).new_sprite_keys,
            final(into).removed_sprite_keys == old(into).removed_sprite_keys,
            final(into).updated_sprite_keys == old(into).updated_sprite_keys,
    {
        into.elapsed_ms = self.elapsed_ms;
        into.sprites = stash_clone(&self.sprites);
        crate::engine::world::Data::clone_from(&mut into.data, &self.data);
    }

    /// The hero of a session whose hero key holds a hero. What is written
    /// through the returned reference is what the world then holds for that
    /// hero; nothing else changes.
    pub fn hero_mut(&mut self, session_id: &SessionID) -> (hero: &mut Hero)
        requires
            old(self).data.hero_keys@.contains_key(session_id.key_of()),
            hero_under(old(self).sprite_map(), old(self).data.hero_keys@, session_id.key_of()),
        ensures
            stash_free(final(self).sprites) == stash_free(old(self).sprites),
            SpriteEnum::Hero(*hero) == old(self).sprite_map()[old(self).data.hero_keys@[session_id.key_of()]],
            final(self).sprite_map() == old(self).sprite_map().insert(
                old(self).data.hero_keys@[session_id.key_of()],
                SpriteEnum::Hero(*final(hero)),
            ),
            final(self).elapsed_ms == old(self).elapsed_ms,
            final(self).data.hero_keys == old(self).data.hero_keys,
            final(self).new_sprite_keys == old(self).new_sprite_keys,
            final(self).removed_sprite_keys == old(self).removed_sprite_keys,
            final(self).updated_sprite_keys == old(self).updated_sprite_keys,
    {
        let hero_key = *self.data.hero_keys.get(&session_id.key()).unwrap();
        let sprite = stash_get_mut(&mut self.sprites, hero_key);
        match sprite {
            SpriteEnum::Hero(hero) => hero,
            _ => {
                proof {
                    assert(false);
                }
                vstd::pervasive::unreached()
            },
        }
    }

    /// One step of the game: `next_world` becomes this world after the
    /// players' inputs, taken in order (see `SpriteEnum::handle_inputs`;
    /// joining players' heroes go under the keys that this world's table
    /// hands out next, so the result does not depend on what `next_world`
    /// held), with the keys of this world's heroes and boxes, in increasing order,
    /// reported as changed (see `SpriteEnum::handle_sprites`): those are the
    /// sprites that move as time passes. Moving them, and adding the step's
    /// time to the clock, is arithmetic on single-precision numbers, which
    /// the caller does. Nothing is reported as new or removed.
    pub fn advance(&self, next_world: &mut World, inputs: &[SessionInput<Input>])
        requires
            self.heroes_ok(),
            servable(self.data.hero_keys@.dom(), inputs@),
        ensures
            final(next_world).wf(),
            heroes_distinct(self.data.hero_keys@) ==> heroes_distinct(final(next_world).data.hero_keys@),
            fresh_keys(self.scene(), inputs@, join_keys(self.table().1, self.table().2, inputs@)),
            stepped(*self, inputs@, *final(next_world)),
    {
        self.copy_into(next_world);
        next_world.new_sprite_keys.clear();
        next_world.removed_sprite_keys.clear();
        next_world.updated_sprite_keys.clear();
        assert(next_world.scene() == self.scene());
        SpriteEnum::handle_inputs(inputs, next_world);
        proof {
            lemma_run_keeps_sprites(
                self.scene(),
                inputs@,
                join_keys(self.table().1, self.table().2, inputs@),
            );
        }
        SpriteEnum::handle_sprites(&self.sprites, next_world);
        assert(next_world.updated_sprite_keys@ =~= key_order(
            moving_keys(self.sprite_map().dom(), next_world.sprite_map()),
        ));
    }

    /// The messages of the sprites under the keys, in the keys' order.
    fn sprite_msgs_of(&self, keys: &Vec<usize>, texts: &BTreeMap<u32, String>) -> (msgs: Vec<String>)
        requires
            forall|i: int| 0 <= i < keys.len() ==> self.sprite_map().contains_key(#[trigger] keys@[i]),
            writes_world(texts@, *self),
        ensures
            msgs@.map_values(|m: String| m@) == sprite_msgs(self.sprite_map(), keys@, texts@),
    {
        let mut msgs: Vec<String> = Vec::new();
        let mut i: usize = 0;
        while i < keys.len()
            invariant
                i <= keys.len(),
                forall|i: int| 0 <= i < keys.len() ==> self.sprite_map().contains_key(#[trigger] keys@[i]),
                writes_world(texts@, *self),
                msgs@.map_values(|m: String| m@) =~= sprite_msgs(self.sprite_map(), keys@.take(i as int), texts@),
            decreases keys.len() - i,
        {
            let key = keys[i];
            assert(self.sprite_map().contains_key(key));
            let sprite = stash_get(&self.sprites, key).unwrap();
            let msg = sprite.get_sprite_msg(key, texts);
            let ghost old_msgs = msgs@;
            msgs.push(msg);
            assert(keys@.take(i + 1) =~= keys@.take(i as int).push(key));
            assert(msgs@.map_values(|m: String| m@) =~= old_msgs.map_values(|m: String| m@).push(
                msg@,
            ));
            assert(sprite_msgs(self.sprite_map(), keys@.take(i + 1), texts@) =~= sprite_msgs(
                self.sprite_map(),
                keys@.take(i as int),
                texts@,
            ).push(sprite_msg(sprite, key as nat, texts@)));
            i = i + 1;
        }
        assert(keys@.take(keys.len() as int) =~= keys@);
        msgs
    }

    /// The message that tells one session about this world: a full one
    /// lists every sprite as new, in key order; a diff lists only the new
    /// sprites. Numbers are written as the table of texts writes them.
    pub fn as_frontend_msg(
        &self,
        msg_type: MsgType,
        session_id: SessionID,
        texts: &BTreeMap<u32, String>,
    ) -> (s: String)
        requires
            self.reports_ok(msg_type == MsgType::Diff),
            writes_world(texts@, *self),
        ensures
            s@ == world_msg(*self, msg_type, session_id, texts@),
    {
        let new_keys = match msg_type {
            MsgType::Diff => self.new_sprite_keys.clone(),
            MsgType::Full => {
                let keys = stash_keys(&self.sprites);
                proof {
                    lemma_key_order_is(keys@, self.sprite_map().dom());
                }
                keys
            },
        };
        proof {
            assert forall|i: int| 0 <= i < new_keys.len() implies self.sprite_map().contains_key(
                #[trigger] new_keys@[i],
            ) by {
                if msg_type == MsgType::Full {
                    assert(new_keys@.to_set().contains(new_keys@[i]));
                }
            }
        }
        let new_msgs = self.sprite_msgs_of(&new_keys, texts);
        let updated_msgs = self.sprite_msgs_of(&self.updated_sprite_keys, texts);
        let mut removed: Vec<String> = Vec::new();
        let mut i: usize = 0;
        while i < self.removed_sprite_keys.len()
            invariant
                i <= self.removed_sprite_keys.len(),
                removed@.map_values(|m: String| m@) =~= self.removed_sprite_keys@.take(
                    i as int,
                ).map_values(|k: usize| decimal(k as nat)),
            decreases self.removed_sprite_keys.len() - i,
        {
            let key = self.removed_sprite_keys[i];
            let text = decimal_text(key as u64);
            let ghost old_removed = removed@;
            removed.push(text);
            assert(self.removed_sprite_keys@.take(i + 1) =~= self.removed_sprite_keys@.take(
                i as int,
            ).push(key));
            assert(removed@.map_values(|m: String| m@) =~= old_removed.map_values(|m: String| m@).push(
                text@,
            ));
            assert(self.removed_sprite_keys@.take(i + 1).map_values(|k: usize| decimal(k as nat))
                =~= self.removed_sprite_keys@.take(i as int).map_values(|k: usize| decimal(k as nat)).push(
                decimal(key as nat),
            ));
            i = i + 1;
        }
        assert(self.removed_sprite_keys@.take(self.removed_sprite_keys.len() as int)
            =~= self.removed_sprite_keys@);
        let session_msg = crate::engine::world::Data::get_session_msg(&self.data, &session_id);
        let mut s = String::from_str("{\"t\":");
        s.append(self.elapsed_text(texts).as_str());
        s.append(", \"session_id\":\"");
        s.append(session_id.to_text().as_str());
        s.append("\", ");
        s.append(session_msg.as_str());
        s.append(", \"new_sprites\":[");
        s.append(join_with_commas(&new_msgs).as_str());
        s.append("], \"updated_sprites\":[");
        s.append(join_with_commas(&updated_msgs).as_str());
        s.append("],\"removed_sprite_keys\":[");
        s.append(join_with_commas(&removed).as_str());
        s.append("] }");
        s
    }

    /// The bit patterns of every number that a message about this world may
    /// show: the time's, then each sprite's in key order. A table that
    /// writes out each of them writes out the world.
    pub fn float_bits(&self) -> (bits: Vec<u32>)
        ensures
            bits@ == seq![self.elapsed_ms.bits] + floats_of(
                self.sprite_map(),
                key_order(self.sprite_map().dom()),
            ),
            forall|texts: Map<u32, String>|
                (forall|i: int| 0 <= i < bits.len() ==> texts.contains_key(#[trigger] bits@[i]))
                    ==> #[trigger] writes_world(texts, *self),
    {
        let mut bits: Vec<u32> = Vec::new();
        bits.push(self.elapsed_ms.bits);
        let keys = stash_keys(&self.sprites);
        let mut j: usize = 0;
        while j < keys.len()
            invariant
                j <= keys.len(),
                keys@.to_set() == self.sprite_map().dom(),
                bits@ == seq![self.elapsed_ms.bits] + floats_of(self.sprite_map(), keys@.take(j as int)),
                bits@.len() > 0,
                bits@[0] == self.elapsed_ms.bits,
                forall|t: int, i: int|
                    0 <= t < j && 0 <= i < sprite_floats(self.sprite_map()[keys@[t]]).len()
                        ==> bits@.contains(
                        (#[trigger] sprite_floats(self.sprite_map()[#[trigger] keys@[t]])[i]).bits,
                    ),
            decreases keys.len() - j,
        {
            let key = keys[j];
            assert(keys@.to_set().contains(key));
            let sprite = stash_get(&self.sprites, key).unwrap();
            let ghost before = bits@;
            sprite.push_float_bits(&mut bits);
            proof {
                assert(keys@.take(j + 1).drop_last() =~= keys@.take(j as int));
                assert(keys@.take(j + 1).last() == key);
                assert(bits@ =~= seq![self.elapsed_ms.bits] + floats_of(
                    self.sprite_map(),
                    keys@.take(j + 1),
                ));
                let fs = sprite_floats(sprite);
                assert forall|t: int, i: int|
                    0 <= t < j + 1 && 0 <= i < sprite_floats(self.sprite_map()[keys@[t]]).len()
                        implies bits@.contains(
                    (#[trigger] sprite_floats(self.sprite_map()[#[trigger] keys@[t]])[i]).bits,
                ) by {
                    if t < j {
                        let p = choose|p: int|
                            0 <= p < before.len() && before[p] == sprite_floats(
                                self.sprite_map()[keys@[t]],
                            )[i].bits;
                        assert(bits@[p] == before[p]);
                    } else {
                        assert(bits@[before.len() + i] == fs[i].bits);
                    }
                }
            }
            j = j + 1;
        }
        proof {
            assert(keys@.take(keys.len() as int) =~= keys@);
            lemma_key_order_is(keys@, self.sprite_map().dom());
        }
        proof {
            assert forall|texts: Map<u32, String>|
                (forall|i: int| 0 <= i < bits.len() ==> texts.contains_key(#[trigger] bits@[i]))
                    implies #[trigger] writes_world(texts, *self) by {
                assert(texts.contains_key(bits@[0]));
                assert forall|k: usize| #[trigger]
                    self.sprite_map().contains_key(k) implies writes_sprite(
                    texts,
                    self.sprite_map()[k],
                ) by {
                    assert(keys@.to_set().contains(k));
                    let t = choose|t: int| 0 <= t < keys@.len() && keys@[t] == k;
                    let fs = sprite_floats(self.sprite_map()[k]);
                    assert forall|i: int| 0 <= i < fs.len() implies writes(texts, #[trigger] fs[i]) by {
                        assert(bits@.contains(sprite_floats(self.sprite_map()[keys@[t]])[i].bits));
                        let p = choose|p: int| 0 <= p < bits@.len() && bits@[p] == fs[i].bits;
                        assert(texts.contains_key(bits@[p]));
                    }
                    lemma_floats_written(texts, self.sprite_map()[k]);
                }
            }
        }
        bits
    }

    /// Whether every input other than joining comes from a session that has
    /// a hero by then, so that `advance` can take the inputs.
    pub fn serves(&self, inputs: &[SessionInput<Input>]) -> (r: bool)
        ensures
            r == servable(self.data.hero_keys@.dom(), inputs@),
    {
        let mut i: usize = 0;
        while i < inputs.len()
            invariant
                i <= inputs.len(),
                forall|t: int|
                    0 <= t < i && (#[trigger] inputs@[t]).input != Input::CreateHero ==> {
                        ||| self.data.hero_keys@.dom().contains(inputs@[t].session_id.key_of())
                        ||| joins_before(inputs@, t, inputs@[t].session_id.key_of())
                    },
            decreases inputs.len() - i,
        {
            let e = inputs[i];
            if e.input != Input::CreateHero && !self.data.hero_keys.contains_key(&e.session_id.key())
                && !joined_before(inputs, i, e.session_id) {
                return false;
            }
            i = i + 1;
        }
        true
    }

    /// Whether every session's hero key holds a hero, so that the world can
    /// be stepped (a stash always holds finitely many sprites).
    pub fn heroes_in_place(&self) -> (r: bool)
        ensures
            r == self.heroes_ok(),
    {
        // The list of its keys shows that the stash holds finitely many sprites.
        let keys = stash_keys(&self.sprites);
        assert(keys@.to_set().finite());
        let ghost heroes = self.data.hero_keys@;
        let ghost order: Seq<(u64, u64)> = IteratorSpec::remaining(&self.data.hero_keys.keys()).unref();
        assert(order.to_set() == heroes.dom());
        for s in it: self.data.hero_keys.keys()
            invariant
                heroes == self.data.hero_keys@,
                it.seq().unref() == order,
                forall|t: int| 0 <= t < it.index() ==> hero_under(self.sprite_map(), heroes, #[trigger] order[t]),
        {
            let key = *self.data.hero_keys.get(s).unwrap();
            match stash_get(&self.sprites, key) {
                Some(SpriteEnum::Hero(_)) => {},
                _ => {
                    assert(!hero_under(self.sprite_map(), heroes, *s));
                    return false;
                },
            }
        }
        assert forall|x: (u64, u64)| #[trigger] heroes.contains_key(x) implies hero_under(
            self.sprite_map(),
            heroes,
            x,
        ) by {
            assert(order.to_set().contains(x));
            let t = choose|t: int| 0 <= t < order.len() && order[t] == x;
            assert(hero_under(self.sprite_map(), heroes, order[t]));
        }
        true
    }

    /// Whether every key that a message of the kind lists as changed holds a
    /// sprite, and, for a diff, every key it lists as new.
    pub fn reports_present(&self, msg_type: MsgType) -> (r: bool)
        ensures
            r == self.reports_ok(msg_type == MsgType::Diff),
    {
        if msg_type == MsgType::Diff {
            let mut i: usize = 0;
            while i < self.new_sprite_keys.len()
                invariant
                    msg_type == MsgType::Diff,
                    i <= self.new_sprite_keys.len(),
                    forall|t: int|
                        0 <= t < i ==> self.sprite_map().contains_key(#[trigger] self.new_sprite_keys@[t]),
                decreases self.new_sprite_keys.len() - i,
            {
                if stash_get(&self.sprites, self.new_sprite_keys[i]).is_none() {
                    assert(!self.sprite_map().contains_key(self.new_sprite_keys@[i as int]));
                    return false;
                }
                i = i + 1;
            }
        }
        let mut i: usize = 0;
        while i < self.updated_sprite_keys.len()
            invariant
                i <= self.updated_sprite_keys.len(),
                forall|t: int|
                    0 <= t < i ==> self.sprite_map().contains_key(#[trigger] self.updated_sprite_keys@[t]),
            decreases self.updated_sprite_keys.len() - i,
        {
            if stash_get(&self.sprites, self.updated_sprite_keys[i]).is_none() {
                assert(!self.sprite_map().contains_key(self.updated_sprite_keys@[i as int]));
                return false;
            }
            i = i + 1;
        }
        true
    }

    /// How the table writes out the world's time.
    fn elapsed_text<'a>(&self, texts: &'a BTreeMap<u32, String>) -> (s: &'a String)
        requires
            writes(texts@, self.elapsed_ms),
        ensures
            s@ == num(texts@, self.elapsed_ms),
    {
        texts.get(&self.elapsed_ms.bits).unwrap()
    }
}

impl SpriteEnum {
    /// Applies the players' inputs to `next_world`, in order. A joining
    /// player gets a new hero at (2, 2) with no key held, stored under the
    /// key that the table hands out next (its first empty slot, else a new
    /// slot at the end), and the session's hero key is set to it; any other
    /// input presses or releases a direction key of the sender's hero.
    /// Nothing else changes.
    pub fn handle_inputs(inputs: &[SessionInput<Input>], next_world: &mut World)
        requires
            old(next_world).heroes_ok(),
            servable(old(next_world).data.hero_keys@.dom(), inputs@),
        ensures
            final(next_world).heroes_ok(),
            old(next_world).reports_ok(true) ==> final(next_world).reports_ok(true),
            fresh_keys(
                old(next_world).scene(),
                inputs@,
                join_keys(old(next_world).table().1, old(next_world).table().2, inputs@),
            ),
            final(next_world).table() == apply_inputs(old(next_world).table(), inputs@),
            final(next_world).elapsed_ms == old(next_world).elapsed_ms,
            final(next_world).new_sprite_keys == old(next_world).new_sprite_keys,
            final(next_world).removed_sprite_keys == old(next_world).removed_sprite_keys,
            final(next_world).updated_sprite_keys == old(next_world).updated_sprite_keys,
    {
        let ghost start = next_world.scene();
        let ghost held = next_world.table().1;
        let ghost free = next_world.table().2;
        let ghost mut keys: Seq<usize> = Seq::empty();
        assert(inputs@.take(0) =~= Seq::<SessionInput<Input>>::empty());
        assert(join_keys(held, free, inputs@.take(0)) =~= keys);
        assert(free_after(free, 0) =~= free);
        let mut i: usize = 0;
        while i < inputs.len()
            invariant
                i <= inputs.len(),
                start == old(next_world).scene(),
                held == old(next_world).table().1,
                free == old(next_world).table().2,
                servable(start.1.dom(), inputs@),
                next_world.heroes_ok(),
                old(next_world).reports_ok(true) ==> next_world.reports_ok(true),
                next_world.elapsed_ms == old(next_world).elapsed_ms,
                next_world.new_sprite_keys == old(next_world).new_sprite_keys,
                next_world.removed_sprite_keys == old(next_world).removed_sprite_keys,
                next_world.updated_sprite_keys == old(next_world).updated_sprite_keys,
                keys == join_keys(held, free, inputs@.take(i as int)),
                fresh_keys(start, inputs@.take(i as int), keys),
                next_world.scene() == run(start, inputs@.take(i as int), keys),
                next_world.sprite_map().dom().len() == held + joins(inputs@.take(i as int)),
                stash_free(next_world.sprites) == free_after(free, joins(inputs@.take(i as int))),
                forall|s: (u64, u64)|
                    start.1.contains_key(s) ==> #[trigger] next_world.data.hero_keys@.contains_key(s),
                forall|j: int|
                    0 <= j < i && (#[trigger] inputs@[j]).input == Input::CreateHero
                        ==> next_world.data.hero_keys@.contains_key(inputs@[j].session_id.key_of()),
                forall|k: usize|
                    start.0.contains_key(k) ==> #[trigger] next_world.sprite_map().contains_key(k),
            decreases inputs.len() - i,
        {
            let e = inputs[i];
            let ghost before = next_world.scene();
            let ghost prefix = inputs@.take(i as int);
            let ghost c = joins(prefix);
            let ghost key = put_key(held, free, c);
            assert(inputs@.take(i + 1).drop_last() =~= prefix);
            assert(inputs@[i as int] == e);
            match e.input {
                Input::CreateHero => {
                    let hero_key = stash_put(&mut next_world.sprites, SpriteEnum::Hero(Hero::spawn()));
                    next_world.data.hero_keys.insert(e.session_id.key(), hero_key);
                    proof {
                        if c < free.len() {
                            assert(free_after(free, c)[0] == free[c as int]);
                            assert(free_after(free, c).drop_first() =~= free_after(free, c + 1));
                        } else {
                            assert(free_after(free, c) =~= Seq::<usize>::empty());
                            assert(free_after(free, c + 1) =~= Seq::<usize>::empty());
                        }
                        assert(hero_key == key);
                    }
                },
                _ => {
                    assert(before.1.contains_key(e.session_id.key_of()));
                    assert(before.0.contains_key(before.1[e.session_id.key_of()]));
                    let hero = next_world.hero_mut(&e.session_id);
                    hero.apply_input(e.input);
                },
            }
            proof {
                lemma_run_push(start, prefix, keys, e, key);
                assert(inputs@.take(i + 1) =~= prefix.push(e));
                let new_keys = keys.push(key);
                assert(new_keys =~= join_keys(held, free, inputs@.take(i + 1))) by {
                    assert forall|t: int| 0 <= t < i + 1 implies new_keys[t] == join_keys(
                        held,
                        free,
                        inputs@.take(i + 1),
                    )[t] by {
                        assert(inputs@.take(i + 1).take(t) =~= prefix.take(t));
                    }
                }
                assert(next_world.scene() == step(before, e, key));
                assert forall|t: int|
                    0 <= t < i + 1 && (#[trigger] inputs@.take(i + 1)[t]).input == Input::CreateHero
                        implies !run(
                        start,
                        inputs@.take(i + 1).take(t),
                        new_keys.take(t),
                    ).0.contains_key(new_keys[t]) by {
                    if t < i {
                        assert(inputs@.take(i + 1).take(t) =~= prefix.take(t));
                        assert(new_keys.take(t) =~= keys.take(t));
                        assert(prefix[t] == inputs@.take(i + 1)[t]);
                    } else {
                        assert(inputs@.take(i + 1).take(t) =~= prefix);
                        assert(new_keys.take(t) =~= keys);
                    }
                }
                if e.input != Input::CreateHero {
                    assert(next_world.sprite_map().dom() =~= before.0.dom());
                }
                keys = new_keys;
            }
            i = i + 1;
        }
        assert(inputs@.take(inputs.len() as int) =~= inputs@);
    }

    /// Reports as changed, after the keys already reported, the keys of the
    /// sprites in `sprites` (the world before the step) that are heroes or
    /// boxes in `next_world`, in increasing order: those move as time
    /// passes. Keys that `next_world` no longer holds are passed over.
    /// Nothing else changes.
    pub fn handle_sprites(sprites: &Stash<SpriteEnum>, next_world: &mut World)
        ensures
            old(next_world).reports_ok(true) ==> final(next_world).reports_ok(true),
            final(next_world).updated_sprite_keys@ == old(next_world).updated_sprite_keys@ + key_order(
                moving_keys(stash_contents(*sprites).dom(), old(next_world).sprite_map()),
            ),
            final(next_world).sprites == old(next_world).sprites,
            final(next_world).elapsed_ms == old(next_world).elapsed_ms,
            final(next_world).data.hero_keys == old(next_world).data.hero_keys,
            final(next_world).new_sprite_keys == old(next_world).new_sprite_keys,
            final(next_world).removed_sprite_keys == old(next_world).removed_sprite_keys,
    {
        let ghost after = next_world.sprite_map();
        let ghost old_dom = stash_contents(*sprites).dom();
        let old_keys = stash_keys(sprites);
        let mut found: Vec<usize> = Vec::new();
        let mut j: usize = 0;
        while j < old_keys.len()
            invariant
                j <= old_keys.len(),
                increasing(old_keys@),
                old_keys@.to_set() == old_dom,
                next_world.sprite_map() == after,
                increasing(found@),
                forall|u: int|
                    0 <= u < found@.len() ==> exists|t: int|
                        0 <= t < j && old_keys@[t] == #[trigger] found@[u],
                forall|u: int|
                    0 <= u < found@.len() ==> moving_keys(old_dom, after).contains(
                        #[trigger] found@[u],
                    ),
                forall|t: int|
                    0 <= t < j && after.contains_key(#[trigger] old_keys@[t]) && is_moving(
                        after[old_keys@[t]],
                    ) ==> found@.contains(old_keys@[t]),
            decreases old_keys.len() - j,
        {
            let key = old_keys[j];
            assert(old_keys@.to_set().contains(key));
            let ghost found_before = found@;
            match stash_get(&next_world.sprites, key) {
                Some(SpriteEnum::Hero(_)) | Some(SpriteEnum::Box1(_)) => {
                    found.push(key);
                    proof {
                        let upd = found@;
                        assert forall|a: int, b: int| 0 <= a < b < upd.len() implies upd[a]
                            < upd[b] by {
                            if b == found_before.len() {
                                let t = choose|t: int|
                                    0 <= t < j && old_keys@[t] == #[trigger] found_before[a];
                                assert(old_keys@[t] < old_keys@[j as int]);
                            }
                        }
                        assert forall|u: int| 0 <= u < upd.len() implies exists|t: int|
                            0 <= t < j + 1 && old_keys@[t] == #[trigger] upd[u] by {
                            if u < found_before.len() {
                                let t = choose|t: int|
                                    0 <= t < j && old_keys@[t] == #[trigger] found_before[u];
                                assert(old_keys@[t] == upd[u]);
                            } else {
                                assert(old_keys@[j as int] == upd[u]);
                            }
                        }
                        assert forall|t: int|
                            0 <= t < j + 1 && after.contains_key(#[trigger] old_keys@[t]) && is_moving(
                                after[old_keys@[t]],
                            ) implies upd.contains(old_keys@[t]) by {
                            if t < j {
                                let u = choose|u: int|
                                    0 <= u < found_before.len() && found_before[u] == old_keys@[t];
                                assert(upd[u] == old_keys@[t]);
                            } else {
                                assert(upd[found_before.len() as int] == old_keys@[t]);
                            }
                        }
                    }
                },
                _ => {
                    proof {
                        assert forall|t: int|
                            0 <= t < j + 1 && after.contains_key(#[trigger] old_keys@[t]) && is_moving(
                                after[old_keys@[t]],
                            ) implies found@.contains(old_keys@[t]) by {
                            if t == j {
                                assert(!(after.contains_key(key) && is_moving(after[key])));
                            }
                        }
                        assert forall|u: int| 0 <= u < found@.len() implies exists|t: int|
                            0 <= t < j + 1 && old_keys@[t] == #[trigger] found@[u] by {
                            let t = choose|t: int| 0 <= t < j && old_keys@[t] == #[trigger] found@[u];
                            assert(old_keys@[t] == found@[u]);
                        }
                    }
                },
            }
            j = j + 1;
        }
        proof {
            let upd = found@;
            let target = moving_keys(old_dom, after);
            assert forall|x: usize| upd.to_set().contains(x) <==> target.contains(x) by {
                if upd.contains(x) {
                    let u = choose|u: int| 0 <= u < upd.len() && upd[u] == x;
                    assert(target.contains(upd[u]));
                }
                if target.contains(x) {
                    assert(old_keys@.to_set().contains(x));
                    let t = choose|t: int| 0 <= t < old_keys@.len() && old_keys@[t] == x;
                    assert(after.contains_key(old_keys@[t]) && is_moving(after[old_keys@[t]]));
                }
            }
            assert(upd.to_set() =~= target);
            lemma_key_order_is(upd, target);
        }
        let ghost base = next_world.updated_sprite_keys@;
        let ghost added = found@;
        next_world.updated_sprite_keys.append(&mut found);
        assert forall|i: int|
            0 <= i < next_world.updated_sprite_keys.len() && (i >= base.len() || old(
                next_world,
            ).reports_ok(true)) implies next_world.sprite_map().contains_key(
            #[trigger] next_world.updated_sprite_keys@[i],
        ) by {
            if i >= base.len() {
                let u = i - base.len();
                assert(added[u] == next_world.updated_sprite_keys@[i]);
                assert(moving_keys(old_dom, after).contains(added[u]));
            } else {
                assert(base[i] == next_world.updated_sprite_keys@[i]);
            }
        }
    }
}

} // verus!
