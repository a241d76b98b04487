//! The table of sprites: a `stash::Stash`, which hands out a key for each
//! value put into it. What is stated here of the outside crate is believed,
//! not proved; each item says what it claims.

use stash::Stash;
use vstd::prelude::*;

use crate::sprite::SpriteEnum;

verus! {

/// The type `stash::Stash`, declared as opaque: the proofs see nothing
/// inside a value of it, only what the items below state.
#[verifier::external_type_specification]
#[verifier::external_body]
#[verifier::reject_recursive_types(V)]
#[verifier::reject_recursive_types(Ix)]
pub struct ExStash<V, Ix>(Stash<V, Ix>);

/// What a stash of sprites holds: the sprite stored under each key.
pub uninterp spec fn stash_contents(s: Stash<SpriteEnum>) -> Map<usize, SpriteEnum>;

/// The empty slots of a stash of sprites, in the order in which `put` takes
/// them: the slot emptied last comes first, and each emptied slot records
/// the one that was first before it. The stash keeps every empty slot on
/// this list, so when the list is empty every slot holds a value.
pub uninterp spec fn stash_free(s: Stash<SpriteEnum>) -> Seq<usize>;

/// Whether a sequence of keys is strictly increasing.
pub open spec fn increasing(s: Seq<usize>) -> bool {
    forall|i: int, j: int| 0 <= i < j < s.len() ==> s[i] < s[j]
}

/// `Stash::new`: a stash that holds nothing and has no slot, empty or not.
#[verifier::external_body]
pub(crate) fn stash_new() -> (fresh: Stash<SpriteEnum>)
    ensures
        stash_contents(fresh).dom() == Set::<usize>::empty(),
        stash_free(fresh) == Seq::<usize>::empty(),
{
    Stash::new()
}

/// `Stash::put`: stores the value under a key that held nothing, and returns
/// that key; everything else stays as it was. The key is the first empty
/// slot, which leaves the list of empty slots; when no slot is empty, it is a
/// new slot at the end, numbered by how many values the stash holds (all its
/// slots are full then). The key does not depend on the value. The source
/// panics only when its count of slots would pass `usize::MAX`, which no
/// vector of sprites can reach.
#[verifier::external_body]
pub(crate) fn stash_put(s: &mut Stash<SpriteEnum>, value: SpriteEnum) -> (key: usize)
    ensures
        !stash_contents(*old(s)).contains_key(key),
        stash_contents(*final(s)) == stash_contents(*old(s)).insert(key, value),
        key == (if stash_free(*old(s)).len() == 0 {
            stash_contents(*old(s)).dom().len() as usize
        } else {
            stash_free(*old(s))[0]
        }),
        stash_free(*final(s)) == (if stash_free(*old(s)).len() == 0 {
            Seq::<usize>::empty()
        } else {
            stash_free(*old(s)).drop_first()
        }),
{
    s.put(value)
}

/// `Stash::get`: the value stored under the key, if any (copied out).
#[verifier::external_body]
pub(crate) fn stash_get(s: &Stash<SpriteEnum>, key: usize) -> (r: Option<SpriteEnum>)
    ensures
        r == (if stash_contents(*s).contains_key(key) {
            Some(stash_contents(*s)[key])
        } else {
            None
        }),
{
    s.get(key).copied()
}

/// `Stash::get_mut` on a key that holds a value: a mutable reference to that
/// value; what is written through it is what the stash then holds under the
/// key, and nothing else changes (the empty slots stay as they were).
#[verifier::external_body]
pub(crate) fn stash_get_mut(s: &mut Stash<SpriteEnum>, key: usize) -> (r: &mut SpriteEnum)
    requires
        stash_contents(*old(s)).contains_key(key),
    ensures
        *r == stash_contents(*old(s))[key],
        stash_contents(*final(s)) == stash_contents(*old(s)).insert(key, *final(r)),
        stash_free(*final(s)) == stash_free(*old(s)),
{
    s.get_mut(key).unwrap()
}

/// `Stash::iter`, keeping the keys: every key that holds a value, once
/// each, in increasing order (the source walks its slots from the first).
#[verifier::external_body]
pub(crate) fn stash_keys(s: &Stash<SpriteEnum>) -> (keys: Vec<usize>)
    ensures
        increasing(keys@),
        keys@.to_set() == stash_contents(*s).dom(),
{
    s.iter().map(|(key, _)| key).collect()
}

/// `Clone::clone` of a stash (derived): a stash that holds the same values
/// under the same keys, with the same empty slots in the same order.
#[verifier::external_body]
pub(crate) fn stash_clone(s: &Stash<SpriteEnum>) -> (c: Stash<SpriteEnum>)
    ensures
        stash_contents(c) == stash_contents(*s),
        stash_free(c) == stash_free(*s),
{
    s.clone()
}

} // verus!
