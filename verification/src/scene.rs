//! The model of a step of the game: how the players' inputs change the
//! sprites and the heroes' keys, and the laws that hold of it.

use vstd::prelude::*;

use crate::engine::input::SessionInput;
use crate::input::Input;
use crate::sessionid::SessionID;
use crate::sprite::{
    encodes_int, hero_after, hero_after_all, is_moving, lemma_new_hero_at_rest, spawned_hero, Hero,
    SpriteEnum,
};
use crate::stash_table::increasing;

verus! {

/// The sprites under their keys, and the heroes' keys by session: the part
/// of a world that the players' inputs change.
pub type Scene = (Map<usize, SpriteEnum>, Map<(u64, u64), usize>);

/// Every session's hero key holds a hero.
pub open spec fn heroes_placed(sprites: Map<usize, SpriteEnum>, heroes: Map<(u64, u64), usize>) -> bool {
    forall|s: (u64, u64)| #[trigger]
        heroes.contains_key(s) ==> sprites.contains_key(heroes[s]) && sprites[heroes[s]] is Hero
}

/// The map holds the sprites under the keys, in the same order, one key
/// each, and nothing else.
pub open spec fn holds_in_order(m: Map<usize, SpriteEnum>, sprites: Seq<SpriteEnum>, keys: Seq<usize>) -> bool {
    &&& keys.len() == sprites.len()
    &&& keys.no_duplicates()
    &&& m.dom() == keys.to_set()
    &&& forall|i: int| 0 <= i < keys.len() ==> m[#[trigger] keys[i]] == sprites[i]
}

/// The keys 0, 1, ..., `n - 1`, in order.
pub open spec fn counting(n: nat) -> Seq<usize> {
    Seq::new(n, |i: int| i as usize)
}

/// The scene after one input; `key` is where a joining player's hero is
/// stored. A joining session gets a new hero, and any hero it had before is
/// no longer its own; any other input goes to the session's hero.
pub open spec fn step(scene: Scene, e: SessionInput<Input>, key: usize) -> Scene {
    let (sprites, heroes) = scene;
    let session = e.session_id.key_of();
    if e.input == Input::CreateHero {
        (sprites.insert(key, SpriteEnum::Hero(spawned_hero())), heroes.insert(session, key))
    } else {
        let hero_key = heroes[session];
        match sprites[hero_key] {
            SpriteEnum::Hero(h) => (
                sprites.insert(hero_key, SpriteEnum::Hero(hero_after(h, e.input))),
                heroes,
            ),
            _ => scene,
        }
    }
}

/// The scene after the inputs, one after the other; `keys[i]` is where the
/// hero of the `i`-th input is stored if that input is a player joining.
pub open spec fn run(scene: Scene, inputs: Seq<SessionInput<Input>>, keys: Seq<usize>) -> Scene
    decreases inputs.len(),
{
    if inputs.len() == 0 || keys.len() != inputs.len() {
        scene
    } else {
        step(run(scene, inputs.drop_last(), keys.drop_last()), inputs.last(), keys.last())
    }
}

/// Each joining player's hero goes under a key that held no sprite yet.
pub open spec fn fresh_keys(scene: Scene, inputs: Seq<SessionInput<Input>>, keys: Seq<usize>) -> bool {
    &&& keys.len() == inputs.len()
    &&& forall|i: int|
        0 <= i < inputs.len() && (#[trigger] inputs[i]).input == Input::CreateHero
            ==> !run(scene, inputs.take(i), keys.take(i)).0.contains_key(keys[i])
}

/// Whether the session joins among the first `i` inputs.
pub open spec fn joins_before(inputs: Seq<SessionInput<Input>>, i: int, session: (u64, u64)) -> bool {
    exists|j: int|
        0 <= j < i && (#[trigger] inputs[j]).input == Input::CreateHero
            && inputs[j].session_id.key_of() == session
}

/// Every input other than joining comes from a session that has a hero by
/// then: one it had before, or one it got by joining earlier in the same
/// inputs.
pub open spec fn servable(heroes: Set<(u64, u64)>, inputs: Seq<SessionInput<Input>>) -> bool {
    forall|i: int|
        0 <= i < inputs.len() && (#[trigger] inputs[i]).input != Input::CreateHero ==> {
            ||| heroes.contains(inputs[i].session_id.key_of())
            ||| joins_before(inputs, i, inputs[i].session_id.key_of())
        }
}

/// The keys of a finite set in increasing order.
pub open spec fn key_order(keys: Set<usize>) -> Seq<usize> {
    choose|s: Seq<usize>| increasing(s) && s.to_set() == keys
}

/// The old sprites that are still there in the new scene and move by
/// themselves in it.
pub open spec fn moving_keys(old_keys: Set<usize>, sprites: Map<usize, SpriteEnum>) -> Set<usize> {
    old_keys.filter(|k: usize| sprites.contains_key(k) && is_moving(sprites[k]))
}

/// Two increasing sequences of keys with the same elements are the same.
pub proof fn lemma_increasing_unique(a: Seq<usize>, b: Seq<usize>)
    requires
        increasing(a),
        increasing(b),
        a.to_set() == b.to_set(),
    ensures
        a == b,
    decreases a.len(),
{
    if a.len() == 0 {
        if b.len() > 0 {
            assert(b.to_set().contains(b[0]));
        }
        assert(a =~= b);
    } else if b.len() == 0 {
        assert(a.to_set().contains(a[0]));
    } else {
        assert(a.to_set().contains(a[0]));
        assert(b.to_set().contains(b[0]));
        let i = choose|i: int| 0 <= i < a.len() && a[i] == b[0];
        let j = choose|j: int| 0 <= j < b.len() && b[j] == a[0];
        assert(a[0] == b[0]);
        let ra = a.drop_first();
        let rb = b.drop_first();
        assert forall|x: usize| ra.to_set().contains(x) <==> rb.to_set().contains(x) by {
            if ra.contains(x) {
                let p = choose|p: int| 0 <= p < ra.len() && ra[p] == x;
                assert(a[p + 1] == x);
                assert(a.to_set().contains(x));
                let q = choose|q: int| 0 <= q < b.len() && b[q] == x;
                assert(q != 0);
                assert(rb[q - 1] == x);
            }
            if rb.contains(x) {
                let p = choose|p: int| 0 <= p < rb.len() && rb[p] == x;
                assert(b[p + 1] == x);
                assert(b.to_set().contains(x));
                let q = choose|q: int| 0 <= q < a.len() && a[q] == x;
                assert(q != 0);
                assert(ra[q - 1] == x);
            }
        }
        assert(ra.to_set() =~= rb.to_set());
        lemma_increasing_unique(ra, rb);
        assert forall|k: int| 0 <= k < a.len() implies a[k] == b[k] by {
            if k > 0 {
                assert(a[k] == ra[k - 1]);
                assert(b[k] == rb[k - 1]);
            }
        }
        assert(a =~= b);
    }
}

/// An increasing sequence that holds exactly the keys of a set is the set's
/// key order.
pub proof fn lemma_key_order_is(s: Seq<usize>, keys: Set<usize>)
    requires
        increasing(s),
        s.to_set() == keys,
    ensures
        key_order(keys) == s,
{
    let t = key_order(keys);
    assert(increasing(t) && t.to_set() == keys);
    lemma_increasing_unique(s, t);
}

/// Running one more input is one more step.
pub proof fn lemma_run_push(
    scene: Scene,
    inputs: Seq<SessionInput<Input>>,
    keys: Seq<usize>,
    e: SessionInput<Input>,
    key: usize,
)
    requires
        keys.len() == inputs.len(),
    ensures
        run(scene, inputs.push(e), keys.push(key)) == step(run(scene, inputs, keys), e, key),
{
    assert(inputs.push(e).drop_last() =~= inputs);
    assert(keys.push(key).drop_last() =~= keys);
}

/// No two sessions share a hero.
pub open spec fn heroes_distinct(heroes: Map<(u64, u64), usize>) -> bool {
    forall|a: (u64, u64), b: (u64, u64)|
        heroes.contains_key(a) && heroes.contains_key(b) && a != b ==> #[trigger] heroes[a]
            != #[trigger] heroes[b]
}

/// Whether two sprites are of the same kind.
pub open spec fn same_kind(a: SpriteEnum, b: SpriteEnum) -> bool {
    &&& (a is Hero <==> b is Hero)
    &&& (a is Box1 <==> b is Box1)
    &&& (a is Floor1 <==> b is Floor1)
}

/// Fresh keys for some inputs are fresh keys for the inputs but the last.
proof fn lemma_fresh_keys_prefix(scene: Scene, inputs: Seq<SessionInput<Input>>, keys: Seq<usize>)
    requires
        fresh_keys(scene, inputs, keys),
        inputs.len() > 0,
    ensures
        fresh_keys(scene, inputs.drop_last(), keys.drop_last()),
        inputs.last().input == Input::CreateHero ==> !run(
            scene,
            inputs.drop_last(),
            keys.drop_last(),
        ).0.contains_key(keys.last()),
{
    let n = inputs.len() - 1;
    assert forall|i: int|
        0 <= i < n && (#[trigger] inputs.drop_last()[i]).input == Input::CreateHero implies !run(
        scene,
        inputs.drop_last().take(i),
        keys.drop_last().take(i),
    ).0.contains_key(keys.drop_last()[i]) by {
        assert(inputs.drop_last().take(i) =~= inputs.take(i));
        assert(keys.drop_last().take(i) =~= keys.take(i));
        assert(inputs[i] == inputs.drop_last()[i]);
    }
    assert(inputs.take(n) =~= inputs.drop_last());
    assert(keys.take(n) =~= keys.drop_last());
    assert(inputs[n] == inputs.last());
}

/// Inputs never take a sprite away: every sprite stays under its key and of
/// its kind, and only heroes change; heroes stay in place, sessions keep a
/// hero once they have one, every joining session has one, and no two
/// sessions come to share a hero.
pub proof fn lemma_run_keeps_sprites(scene: Scene, inputs: Seq<SessionInput<Input>>, keys: Seq<usize>)
    requires
        heroes_placed(scene.0, scene.1),
        fresh_keys(scene, inputs, keys),
    ensures
        ({
            let after = run(scene, inputs, keys);
            &&& heroes_placed(after.0, after.1)
            &&& forall|k: usize| #[trigger]
                scene.0.contains_key(k) ==> after.0.contains_key(k) && same_kind(scene.0[k], after.0[k])
                    && (!(scene.0[k] is Hero) ==> after.0[k] == scene.0[k])
            &&& forall|s: (u64, u64)| #[trigger] scene.1.contains_key(s) ==> after.1.contains_key(s)
            &&& forall|j: int|
                0 <= j < inputs.len() && (#[trigger] inputs[j]).input == Input::CreateHero
                    ==> after.1.contains_key(inputs[j].session_id.key_of())
            &&& heroes_distinct(scene.1) ==> heroes_distinct(after.1)
            &&& scene.0.dom().finite() ==> after.0.dom().finite()
        }),
    decreases inputs.len(),
{
    if inputs.len() > 0 {
        lemma_fresh_keys_prefix(scene, inputs, keys);
        let prev_inputs = inputs.drop_last();
        let prev_keys = keys.drop_last();
        lemma_run_keeps_sprites(scene, prev_inputs, prev_keys);
        let before = run(scene, prev_inputs, prev_keys);
        let e = inputs.last();
        let key = keys.last();
        let after = run(scene, inputs, keys);
        assert(after == step(before, e, key));
        assert forall|j: int|
            0 <= j < inputs.len() && (#[trigger] inputs[j]).input == Input::CreateHero implies after.1.contains_key(
            inputs[j].session_id.key_of(),
        ) by {
            if j < prev_inputs.len() {
                assert(prev_inputs[j] == inputs[j]);
            }
        }
        if e.input == Input::CreateHero && heroes_distinct(scene.1) {
            assert forall|a: (u64, u64), b: (u64, u64)|
                after.1.contains_key(a) && after.1.contains_key(b) && a != b implies #[trigger] after.1[a]
                != #[trigger] after.1[b] by {
                let s = e.session_id.key_of();
                if a == s {
                    assert(before.0.contains_key(before.1[b]));
                } else if b == s {
                    assert(before.0.contains_key(before.1[a]));
                }
            }
        }
    }
}

/// The sprites that move by themselves are the same before and after the
/// inputs: heroes stay heroes and boxes stay boxes. So the keys a step
/// reports as changed are those of the old world's heroes and boxes.
pub proof fn lemma_moving_sprites_stay(scene: Scene, inputs: Seq<SessionInput<Input>>, keys: Seq<usize>)
    requires
        heroes_placed(scene.0, scene.1),
        fresh_keys(scene, inputs, keys),
    ensures
        moving_keys(scene.0.dom(), run(scene, inputs, keys).0) == moving_keys(scene.0.dom(), scene.0),
{
    lemma_run_keeps_sprites(scene, inputs, keys);
    let after = run(scene, inputs, keys).0;
    assert(moving_keys(scene.0.dom(), after) =~= moving_keys(scene.0.dom(), scene.0));
}

/// Inputs that can be served can be served without their last one.
proof fn lemma_servable_prefix(heroes: Set<(u64, u64)>, inputs: Seq<SessionInput<Input>>)
    requires
        servable(heroes, inputs),
        inputs.len() > 0,
    ensures
        servable(heroes, inputs.drop_last()),
{
    let prev = inputs.drop_last();
    assert forall|i: int|
        0 <= i < prev.len() && (#[trigger] prev[i]).input != Input::CreateHero implies {
        ||| heroes.contains(prev[i].session_id.key_of())
        ||| joins_before(prev, i, prev[i].session_id.key_of())
    } by {
        assert(inputs[i] == prev[i]);
        if !heroes.contains(prev[i].session_id.key_of()) {
            let j = choose|j: int|
                0 <= j < i && (#[trigger] inputs[j]).input == Input::CreateHero
                    && inputs[j].session_id.key_of() == inputs[i].session_id.key_of();
            assert(prev[j] == inputs[j]);
        }
    }
}

/// A player's inputs change only that player's hero: a session that sends
/// no input keeps its hero, under the same key and exactly as it was.
pub proof fn lemma_run_isolates_sessions(
    scene: Scene,
    inputs: Seq<SessionInput<Input>>,
    keys: Seq<usize>,
    session: (u64, u64),
)
    requires
        heroes_placed(scene.0, scene.1),
        heroes_distinct(scene.1),
        fresh_keys(scene, inputs, keys),
        servable(scene.1.dom(), inputs),
        scene.1.contains_key(session),
        forall|i: int| 0 <= i < inputs.len() ==> (#[trigger] inputs[i]).session_id.key_of() != session,
    ensures
        run(scene, inputs, keys).1[session] == scene.1[session],
        run(scene, inputs, keys).0[scene.1[session]] == scene.0[scene.1[session]],
    decreases inputs.len(),
{
    if inputs.len() > 0 {
        lemma_fresh_keys_prefix(scene, inputs, keys);
        let prev_inputs = inputs.drop_last();
        let prev_keys = keys.drop_last();
        lemma_servable_prefix(scene.1.dom(), inputs);
        assert forall|i: int| 0 <= i < prev_inputs.len() implies (#[trigger] prev_inputs[i]).session_id.key_of()
            != session by {
            assert(inputs[i] == prev_inputs[i]);
        }
        lemma_run_isolates_sessions(scene, prev_inputs, prev_keys, session);
        lemma_run_keeps_sprites(scene, prev_inputs, prev_keys);
        let before = run(scene, prev_inputs, prev_keys);
        let e = inputs.last();
        assert(run(scene, inputs, keys) == step(before, e, keys.last()));
        let n = inputs.len() - 1;
        assert(inputs[n] == e);
        if e.input != Input::CreateHero {
            let o = e.session_id.key_of();
            if !scene.1.contains_key(o) {
                let j = choose|j: int|
                    0 <= j < n && (#[trigger] inputs[j]).input == Input::CreateHero
                        && inputs[j].session_id.key_of() == inputs[n].session_id.key_of();
                assert(prev_inputs[j] == inputs[j]);
            }
            assert(before.1.contains_key(o));
            assert(before.1[o] != before.1[session]);
        }
    }
}

/// Whether the session joins among the first `i` inputs.
pub(crate) fn joined_before(inputs: &[SessionInput<Input>], i: usize, session_id: SessionID) -> (r: bool)
    requires
        i <= inputs.len(),
    ensures
        r == joins_before(inputs@, i as int, session_id.key_of()),
{
    let mut j: usize = 0;
    while j < i
        invariant
            j <= i,
            i <= inputs.len(),
            forall|t: int|
                0 <= t < j ==> !((#[trigger] inputs@[t]).input == Input::CreateHero
                    && inputs@[t].session_id.key_of() == session_id.key_of()),
        decreases i - j,
    {
        let c = inputs[j];
        if c.input == Input::CreateHero && c.session_id == session_id {
            assert(inputs@[j as int].input == Input::CreateHero);
            return true;
        }
        j = j + 1;
    }
    false
}

/// The inputs that one session sends, in order.
pub open spec fn own_inputs(inputs: Seq<SessionInput<Input>>, session: (u64, u64)) -> Seq<Input>
    decreases inputs.len(),
{
    if inputs.len() == 0 {
        Seq::empty()
    } else {
        let earlier = own_inputs(inputs.drop_last(), session);
        if inputs.last().session_id.key_of() == session {
            earlier.push(inputs.last().input)
        } else {
            earlier
        }
    }
}

/// A player's hero follows that player's inputs and no one else's: a
/// session that has a hero and does not join again keeps its hero under
/// the same key, and the hero ends as its own inputs, taken in order, leave
/// it.
pub proof fn lemma_run_applies_own_inputs(
    scene: Scene,
    inputs: Seq<SessionInput<Input>>,
    keys: Seq<usize>,
    session: (u64, u64),
)
    requires
        heroes_placed(scene.0, scene.1),
        heroes_distinct(scene.1),
        fresh_keys(scene, inputs, keys),
        servable(scene.1.dom(), inputs),
        scene.1.contains_key(session),
        forall|i: int|
            0 <= i < inputs.len() && (#[trigger] inputs[i]).session_id.key_of() == session
                ==> inputs[i].input != Input::CreateHero,
    ensures
        run(scene, inputs, keys).1[session] == scene.1[session],
        scene.0[scene.1[session]] matches SpriteEnum::Hero(h) ==> run(scene, inputs, keys).0[scene.1[session]]
            == SpriteEnum::Hero(hero_after_all(h, own_inputs(inputs, session))),
    decreases inputs.len(),
{
    let key = scene.1[session];
    if inputs.len() == 0 {
        assert(own_inputs(inputs, session) =~= Seq::<Input>::empty());
    } else {
        lemma_fresh_keys_prefix(scene, inputs, keys);
        let prev_inputs = inputs.drop_last();
        let prev_keys = keys.drop_last();
        lemma_servable_prefix(scene.1.dom(), inputs);
        assert forall|i: int|
            0 <= i < prev_inputs.len() && (#[trigger] prev_inputs[i]).session_id.key_of() == session
                implies prev_inputs[i].input != Input::CreateHero by {
            assert(inputs[i] == prev_inputs[i]);
        }
        lemma_run_applies_own_inputs(scene, prev_inputs, prev_keys, session);
        lemma_run_keeps_sprites(scene, prev_inputs, prev_keys);
        let before = run(scene, prev_inputs, prev_keys);
        let e = inputs.last();
        assert(run(scene, inputs, keys) == step(before, e, keys.last()));
        let n = inputs.len() - 1;
        assert(inputs[n] == e);
        let o = e.session_id.key_of();
        let mine = own_inputs(inputs, session);
        let earlier = own_inputs(prev_inputs, session);
        if o == session {
            assert(mine == earlier.push(e.input));
            assert(mine.drop_last() =~= earlier);
        } else {
            assert(mine == earlier);
            if e.input != Input::CreateHero {
                if !scene.1.contains_key(o) {
                    let j = choose|j: int|
                        0 <= j < n && (#[trigger] inputs[j]).input == Input::CreateHero
                            && inputs[j].session_id.key_of() == inputs[n].session_id.key_of();
                    assert(prev_inputs[j] == inputs[j]);
                }
                assert(before.1.contains_key(o));
                assert(before.1[o] != before.1[session]);
            }
        }
    }
}

/// A joining player gets a new hero: at (2, 2), with no key held, under a
/// key that held no sprite before the inputs, and the session's hero key is
/// that key.
pub proof fn lemma_join_spawns_hero(scene: Scene, inputs: Seq<SessionInput<Input>>, keys: Seq<usize>)
    requires
        heroes_placed(scene.0, scene.1),
        fresh_keys(scene, inputs, keys),
        inputs.len() > 0,
        inputs.last().input == Input::CreateHero,
    ensures
        !scene.0.contains_key(keys.last()),
        run(scene, inputs, keys).1[inputs.last().session_id.key_of()] == keys.last(),
        run(scene, inputs, keys).0[keys.last()] == SpriteEnum::Hero(spawned_hero()),
{
    lemma_fresh_keys_prefix(scene, inputs, keys);
    lemma_run_keeps_sprites(scene, inputs.drop_last(), keys.drop_last());
}

/// Every finite set of keys has an order: its key order is increasing and
/// holds exactly the set's keys, each once.
pub proof fn lemma_key_order_exists(keys: Set<usize>)
    requires
        keys.finite(),
    ensures
        increasing(key_order(keys)),
        key_order(keys).to_set() == keys,
        key_order(keys).no_duplicates(),
    decreases keys.len(),
{
    if keys.len() == 0 {
        let t = Seq::<usize>::empty();
        assert(t.to_set() =~= keys);
        assert(increasing(t));
    } else {
        let r = |a: usize, b: usize| a <= b;
        assert(vstd::relations::total_ordering(r));
        keys.find_unique_maximal_ensures(r);
        let m = keys.find_unique_maximal(r);
        let rest = keys.remove(m);
        lemma_key_order_exists(rest);
        let below = key_order(rest);
        let t = below.push(m);
        assert forall|i: int| 0 <= i < below.len() implies below[i] < m by {
            assert(below.to_set().contains(below[i]));
            assert(keys.contains(below[i]));
            assert(r(below[i], m) || r(m, below[i]));
        }
        assert(increasing(t)) by {
            assert forall|i: int, j: int| 0 <= i < j < t.len() implies t[i] < t[j] by {
                if j == below.len() {
                    assert(t[i] == below[i]);
                } else {
                    assert(t[i] == below[i] && t[j] == below[j]);
                }
            }
        }
        assert forall|x: usize| t.to_set().contains(x) <==> keys.contains(x) by {
            if x == m {
                assert(t[below.len() as int] == m);
            } else if keys.contains(x) {
                assert(below.to_set().contains(x));
                let i = choose|i: int| 0 <= i < below.len() && below[i] == x;
                assert(t[i] == x);
            }
            if t.contains(x) {
                let i = choose|i: int| 0 <= i < t.len() && t[i] == x;
                if i < below.len() {
                    assert(below[i] == x);
                    assert(below.to_set().contains(x));
                }
            }
        }
        assert(t.to_set() =~= keys);
        lemma_key_order_is(t, keys);
    }
    let k = key_order(keys);
    assert forall|i: int, j: int| 0 <= i < k.len() && 0 <= j < k.len() && i != j implies k[i] != k[j] by {
        if i < j {
            assert(k[i] < k[j]);
        } else {
            assert(k[j] < k[i]);
        }
    }
}

/// How many of the inputs are players joining.
pub open spec fn joins(inputs: Seq<SessionInput<Input>>) -> nat
    decreases inputs.len(),
{
    if inputs.len() == 0 {
        0
    } else {
        joins(inputs.drop_last()) + if inputs.last().input == Input::CreateHero {
            1nat
        } else {
            0nat
        }
    }
}

/// The key that the `j`-th sprite put (counting from 0) goes under, in a
/// table that holds `held` sprites and reuses its empty slots in the order
/// `free`: the empty slots first, then new slots at the end.
pub open spec fn put_key(held: nat, free: Seq<usize>, j: nat) -> usize {
    if j < free.len() {
        free[j as int]
    } else {
        (held + j) as usize
    }
}

/// The keys of the inputs for such a table: a joining player's hero goes
/// under the key of the next put, counted by the joins before it.
pub open spec fn join_keys(held: nat, free: Seq<usize>, inputs: Seq<SessionInput<Input>>) -> Seq<usize> {
    Seq::new(inputs.len(), |i: int| put_key(held, free, joins(inputs.take(i))))
}

/// The empty slots left after `n` puts.
pub open spec fn free_after(free: Seq<usize>, n: nat) -> Seq<usize> {
    if n <= free.len() {
        free.skip(n as int)
    } else {
        Seq::empty()
    }
}

/// A table of sprites as the inputs see it: its scene, how many sprites it
/// holds, and its empty slots in the order it reuses them.
pub type Table = (Scene, nat, Seq<usize>);

/// The table after the inputs, one after the other: each joining player's
/// hero goes under the key that the table hands out next.
pub open spec fn apply_inputs(t: Table, inputs: Seq<SessionInput<Input>>) -> Table {
    let n = joins(inputs);
    (run(t.0, inputs, join_keys(t.1, t.2, inputs)), t.1 + n, free_after(t.2, n))
}

/// Joins add up over two runs of inputs.
proof fn lemma_joins_append(a: Seq<SessionInput<Input>>, b: Seq<SessionInput<Input>>)
    ensures
        joins(a + b) == joins(a) + joins(b),
    decreases b.len(),
{
    if b.len() == 0 {
        assert(a + b =~= a);
    } else {
        assert((a + b).drop_last() =~= a + b.drop_last());
        lemma_joins_append(a, b.drop_last());
    }
}

/// Running two lists of inputs one after the other is running them joined.
proof fn lemma_run_append(
    scene: Scene,
    a: Seq<SessionInput<Input>>,
    ka: Seq<usize>,
    b: Seq<SessionInput<Input>>,
    kb: Seq<usize>,
)
    requires
        ka.len() == a.len(),
        kb.len() == b.len(),
    ensures
        run(scene, a + b, ka + kb) == run(run(scene, a, ka), b, kb),
    decreases b.len(),
{
    if b.len() == 0 {
        assert(a + b =~= a);
        assert(ka + kb =~= ka);
    } else {
        assert((a + b).drop_last() =~= a + b.drop_last());
        assert((ka + kb).drop_last() =~= ka + kb.drop_last());
        lemma_run_append(scene, a, ka, b.drop_last(), kb.drop_last());
    }
}

/// The keys handed out over two runs of inputs are those of the first run,
/// then those of the second from where the first left the table.
proof fn lemma_join_keys_append(
    held: nat,
    free: Seq<usize>,
    a: Seq<SessionInput<Input>>,
    b: Seq<SessionInput<Input>>,
)
    ensures
        join_keys(held, free, a + b) == join_keys(held, free, a) + join_keys(
            held + joins(a),
            free_after(free, joins(a)),
            b,
        ),
{
    let ja = joins(a);
    let lhs = join_keys(held, free, a + b);
    let rhs = join_keys(held, free, a) + join_keys(held + ja, free_after(free, ja), b);
    assert forall|i: int| 0 <= i < lhs.len() implies lhs[i] == rhs[i] by {
        if i < a.len() {
            assert((a + b).take(i) =~= a.take(i));
        } else {
            let j = i - a.len();
            assert((a + b).take(i) =~= a + b.take(j));
            lemma_joins_append(a, b.take(j));
        }
    }
    assert(lhs =~= rhs);
}

/// Applying inputs `a` and then `b` to a table gives what applying `a + b`
/// gives: the same sprites under the same keys, the same heroes' keys, and
/// the same empty slots left.
pub proof fn lemma_inputs_compose(t: Table, a: Seq<SessionInput<Input>>, b: Seq<SessionInput<Input>>)
    ensures
        apply_inputs(t, a + b) == apply_inputs(apply_inputs(t, a), b),
{
    lemma_joins_append(a, b);
    lemma_join_keys_append(t.1, t.2, a, b);
    let ja = joins(a);
    lemma_run_append(
        t.0,
        a,
        join_keys(t.1, t.2, a),
        b,
        join_keys(t.1 + ja, free_after(t.2, ja), b),
    );
    assert(free_after(free_after(t.2, ja), joins(b)) =~= free_after(t.2, ja + joins(b)));
}

/// Joining is the only input that gives a session a hero key: after the
/// inputs, the sessions with one are those that had one and those that
/// joined.
proof fn lemma_run_hero_sessions(scene: Scene, inputs: Seq<SessionInput<Input>>, keys: Seq<usize>)
    requires
        keys.len() == inputs.len(),
    ensures
        forall|s: (u64, u64)| #[trigger]
            run(scene, inputs, keys).1.contains_key(s) <==> scene.1.contains_key(s) || joins_before(
                inputs,
                inputs.len() as int,
                s,
            ),
    decreases inputs.len(),
{
    if inputs.len() > 0 {
        let prev = inputs.drop_last();
        lemma_run_hero_sessions(scene, prev, keys.drop_last());
        let n = inputs.len() - 1;
        let before = run(scene, prev, keys.drop_last());
        let e = inputs.last();
        assert(run(scene, inputs, keys) == step(before, e, keys.last()));
        if e.input == Input::CreateHero {
            assert(run(scene, inputs, keys).1 == before.1.insert(e.session_id.key_of(), keys.last()));
        } else {
            assert(run(scene, inputs, keys).1 == before.1);
        }
        assert forall|s: (u64, u64)| #[trigger]
            run(scene, inputs, keys).1.contains_key(s) <==> scene.1.contains_key(s) || joins_before(
                inputs,
                inputs.len() as int,
                s,
            ) by {
            if joins_before(prev, n, s) {
                let j = choose|j: int|
                    0 <= j < n && (#[trigger] prev[j]).input == Input::CreateHero
                        && prev[j].session_id.key_of() == s;
                assert(inputs[j] == prev[j]);
            }
            if joins_before(inputs, inputs.len() as int, s) {
                let j = choose|j: int|
                    0 <= j < inputs.len() && (#[trigger] inputs[j]).input == Input::CreateHero
                        && inputs[j].session_id.key_of() == s;
                if j < n {
                    assert(prev[j] == inputs[j]);
                }
            }
            if inputs.last().input == Input::CreateHero && inputs.last().session_id.key_of() == s {
                assert(inputs[n] == inputs.last());
            }
        }
    }
}

/// Inputs `a + b` can be served exactly when `a` can, and `b` can from the
/// heroes' keys that `a` leaves: a split run stops where the joined run
/// does.
pub proof fn lemma_servable_compose(t: Table, a: Seq<SessionInput<Input>>, b: Seq<SessionInput<Input>>)
    ensures
        servable(t.0.1.dom(), a + b) == (servable(t.0.1.dom(), a) && servable(
            apply_inputs(t, a).0.1.dom(),
            b,
        )),
{
    let h = t.0.1.dom();
    let h2 = apply_inputs(t, a).0.1.dom();
    let ab = a + b;
    lemma_run_hero_sessions(t.0, a, join_keys(t.1, t.2, a));
    assert forall|s: (u64, u64)| #[trigger] h2.contains(s) <==> h.contains(s) || joins_before(
        a,
        a.len() as int,
        s,
    ) by {}
    if servable(h, ab) {
        assert forall|i: int| 0 <= i < a.len() && (#[trigger] a[i]).input != Input::CreateHero implies {
            ||| h.contains(a[i].session_id.key_of())
            ||| joins_before(a, i, a[i].session_id.key_of())
        } by {
            assert(ab[i] == a[i]);
            let s = a[i].session_id.key_of();
            if joins_before(ab, i, s) {
                let j = choose|j: int|
                    0 <= j < i && (#[trigger] ab[j]).input == Input::CreateHero && ab[j].session_id.key_of() == s;
                assert(a[j] == ab[j]);
            }
        }
        assert forall|i: int| 0 <= i < b.len() && (#[trigger] b[i]).input != Input::CreateHero implies {
            ||| h2.contains(b[i].session_id.key_of())
            ||| joins_before(b, i, b[i].session_id.key_of())
        } by {
            let g = a.len() + i;
            assert(ab[g] == b[i]);
            let s = b[i].session_id.key_of();
            if joins_before(ab, g, s) {
                let j = choose|j: int|
                    0 <= j < g && (#[trigger] ab[j]).input == Input::CreateHero && ab[j].session_id.key_of() == s;
                if j < a.len() {
                    assert(a[j] == ab[j]);
                } else {
                    assert(b[j - a.len()] == ab[j]);
                }
            }
        }
    }
    if servable(h, a) && servable(h2, b) {
        assert forall|i: int| 0 <= i < ab.len() && (#[trigger] ab[i]).input != Input::CreateHero implies {
            ||| h.contains(ab[i].session_id.key_of())
            ||| joins_before(ab, i, ab[i].session_id.key_of())
        } by {
            let s = ab[i].session_id.key_of();
            if i < a.len() {
                assert(a[i] == ab[i]);
                if joins_before(a, i, s) {
                    let j = choose|j: int|
                        0 <= j < i && (#[trigger] a[j]).input == Input::CreateHero && a[j].session_id.key_of() == s;
                    assert(ab[j] == a[j]);
                }
            } else {
                let k = i - a.len();
                assert(b[k] == ab[i]);
                if joins_before(b, k, s) {
                    let j = choose|j: int|
                        0 <= j < k && (#[trigger] b[j]).input == Input::CreateHero && b[j].session_id.key_of() == s;
                    assert(ab[a.len() + j] == b[j]);
                } else if !h.contains(s) {
                    let j = choose|j: int|
                        0 <= j < a.len() && (#[trigger] a[j]).input == Input::CreateHero
                            && a[j].session_id.key_of() == s;
                    assert(ab[j] == a[j]);
                }
            }
        }
    }
}

/// A joining player gets, under the key it is given, a new hero that stands
/// at (2, 2) and holds no key, and that hero becomes the session's.
pub proof fn lemma_join_gives_hero_at_rest(scene: Scene, e: SessionInput<Input>, key: usize)
    requires
        e.input == Input::CreateHero,
    ensures
        step(scene, e, key).0[key] matches SpriteEnum::Hero(h) && !h.up_pressed && !h.down_pressed
            && !h.left_pressed && !h.right_pressed && encodes_int(h.pos.0.bits, 2) && encodes_int(
            h.pos.1.bits,
            2,
        ),
        step(scene, e, key).1[e.session_id.key_of()] == key,
{
    lemma_new_hero_at_rest();
}

} // verus!
