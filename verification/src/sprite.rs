use std::collections::BTreeMap;
use vstd::prelude::*;
use vstd::string::*;

use crate::input::Input;
use crate::text::{decimal, decimal_text};

verus! {

/// A single-precision number, held by its IEEE 754 bit pattern. The library
/// stores, moves and prints such numbers but never computes with them; how a
/// number is written out comes from the table of texts that the caller hands
/// to the message functions.
#[derive(Clone, Copy, PartialEq, Eq, Structural, Debug)]
pub struct FloatBits {
    pub bits: u32,
}

/// A floor tile, lying flat at a point of the plane.
#[derive(Clone, Copy, PartialEq, Eq, Debug)]
pub struct Floor1 {
    pub pos: (FloatBits, FloatBits),
}

/// A box, placed, scaled and rotated in space; some boxes keep turning.
#[derive(Clone, Copy, PartialEq, Eq, Debug)]
pub struct Box1 {
    pub pos: (FloatBits, FloatBits, FloatBits),
    pub scale: (FloatBits, FloatBits, FloatBits),
    pub rotation: (FloatBits, FloatBits, FloatBits),
    pub rotates: bool,
}

/// A player's hero: where it stands and which direction keys are held.
#[derive(Clone, Copy, PartialEq, Eq, Debug)]
pub struct Hero {
    pub pos: (FloatBits, FloatBits),
    pub up_pressed: bool,
    pub down_pressed: bool,
    pub left_pressed: bool,
    pub right_pressed: bool,
}

/// Every kind of sprite the game has.
#[derive(Clone, Copy, PartialEq, Eq, Debug)]
pub enum SpriteEnum {
    Hero(Hero),
    Floor1(Floor1),
    Box1(Box1),
}

/// The number with bit pattern `bits`.
pub open spec fn fb(bits: u32) -> FloatBits {
    FloatBits { bits }
}

/// Whether the table of texts writes out the number `f`.
pub open spec fn writes(texts: Map<u32, String>, f: FloatBits) -> bool {
    texts.contains_key(f.bits)
}

/// How the table of texts writes out the number `f`.
pub open spec fn num(texts: Map<u32, String>, f: FloatBits) -> Seq<char> {
    texts[f.bits]@
}

/// Whether the table of texts writes out every number that a sprite's
/// message shows.
pub open spec fn writes_sprite(texts: Map<u32, String>, s: SpriteEnum) -> bool {
    match s {
        SpriteEnum::Hero(h) => writes(texts, h.pos.0) && writes(texts, h.pos.1),
        SpriteEnum::Floor1(f) => writes(texts, f.pos.0) && writes(texts, f.pos.1),
        SpriteEnum::Box1(b) => {
            &&& writes(texts, b.pos.0) && writes(texts, b.pos.1) && writes(texts, b.pos.2)
            &&& writes(texts, b.scale.0) && writes(texts, b.scale.1) && writes(texts, b.scale.2)
            &&& writes(texts, b.rotation.0) && writes(texts, b.rotation.1) && writes(
                texts,
                b.rotation.2,
            )
        },
    }
}

/// The numbers that a sprite's message shows, in the order it shows them.
pub open spec fn sprite_floats(s: SpriteEnum) -> Seq<FloatBits> {
    match s {
        SpriteEnum::Hero(h) => seq![h.pos.0, h.pos.1],
        SpriteEnum::Floor1(f) => seq![f.pos.0, f.pos.1],
        SpriteEnum::Box1(b) => seq![
            b.pos.0,
            b.pos.1,
            b.pos.2,
            b.scale.0,
            b.scale.1,
            b.scale.2,
            b.rotation.0,
            b.rotation.1,
            b.rotation.2,
        ],
    }
}

/// A table that writes out each of a sprite's numbers writes out the sprite.
pub proof fn lemma_floats_written(texts: Map<u32, String>, s: SpriteEnum)
    requires
        forall|i: int| 0 <= i < sprite_floats(s).len() ==> writes(texts, #[trigger] sprite_floats(s)[i]),
    ensures
        writes_sprite(texts, s),
{
    let f = sprite_floats(s);
    assert(writes(texts, f[0]) && writes(texts, f[1]));
    if s is Box1 {
        assert(writes(texts, f[2]) && writes(texts, f[3]) && writes(texts, f[4]));
        assert(writes(texts, f[5]) && writes(texts, f[6]) && writes(texts, f[7]));
        assert(writes(texts, f[8]));
    }
}

/// The message that tells a client where a floor tile with key `key` lies.
pub open spec fn floor1_msg(f: Floor1, key: nat, texts: Map<u32, String>) -> Seq<char> {
    "{\"type\":\"floor1\",\"key\":"@ + decimal(key) + ",\"pos\":["@ + num(texts, f.pos.0) + ","@
        + num(texts, f.pos.1) + "]}"@
}

/// The three numbers of a triple, written with commas between them.
pub open spec fn triple_text(
    texts: Map<u32, String>,
    t: (FloatBits, FloatBits, FloatBits),
) -> Seq<char> {
    num(texts, t.0) + ","@ + num(texts, t.1) + ","@ + num(texts, t.2)
}

/// The message that tells a client where a box with key `key` is and how it
/// is scaled and turned.
pub open spec fn box1_msg(b: Box1, key: nat, texts: Map<u32, String>) -> Seq<char> {
    "{\"type\":\"box1\",\"key\":"@ + decimal(key) + ",\"pos\":["@ + triple_text(texts, b.pos)
        + "],\"scale\":["@ + triple_text(texts, b.scale) + "],\"rotation\":["@ + triple_text(
        texts,
        b.rotation,
    ) + "]}"@
}

/// The message that tells a client where a hero with key `key` stands.
pub open spec fn hero_msg(h: Hero, key: nat, texts: Map<u32, String>) -> Seq<char> {
    "{\"type\":\"hero\",\"key\":"@ + decimal(key) + ",\"pos\":["@ + num(texts, h.pos.0) + ","@
        + num(texts, h.pos.1) + "]}"@
}

/// The message for any sprite.
pub open spec fn sprite_msg(s: SpriteEnum, key: nat, texts: Map<u32, String>) -> Seq<char> {
    match s {
        SpriteEnum::Hero(h) => hero_msg(h, key, texts),
        SpriteEnum::Floor1(f) => floor1_msg(f, key, texts),
        SpriteEnum::Box1(b) => box1_msg(b, key, texts),
    }
}

/// Whether a sprite moves by itself as time passes: heroes and boxes do,
/// floor tiles do not.
pub open spec fn is_moving(s: SpriteEnum) -> bool {
    s is Hero || s is Box1
}

/// A hero after one input of its player: a press holds a direction key, a
/// release lets it go; joining changes nothing.
pub open spec fn hero_after(h: Hero, i: Input) -> Hero {
    match i {
        Input::UpPressed => Hero { up_pressed: true, ..h },
        Input::DownPressed => Hero { down_pressed: true, ..h },
        Input::LeftPressed => Hero { left_pressed: true, ..h },
        Input::RightPressed => Hero { right_pressed: true, ..h },
        Input::UpReleased => Hero { up_pressed: false, ..h },
        Input::DownReleased => Hero { down_pressed: false, ..h },
        Input::LeftReleased => Hero { left_pressed: false, ..h },
        Input::RightReleased => Hero { right_pressed: false, ..h },
        Input::CreateHero => h,
    }
}

/// A hero after a sequence of its player's inputs, taken in order.
pub open spec fn hero_after_all(h: Hero, inputs: Seq<Input>) -> Hero
    decreases inputs.len(),
{
    if inputs.len() == 0 {
        h
    } else {
        hero_after(hero_after_all(h, inputs.drop_last()), inputs.last())
    }
}

/// Inputs never move a hero: only the keys it holds change, and it stands
/// where it stood until time passes.
pub proof fn lemma_inputs_keep_position(h: Hero, inputs: Seq<Input>)
    ensures
        hero_after_all(h, inputs).pos == h.pos,
    decreases inputs.len(),
{
    if inputs.len() > 0 {
        lemma_inputs_keep_position(h, inputs.drop_last());
    }
}

/// A new hero: at (2, 2), with no key held.
pub open spec fn spawned_hero() -> Hero {
    Hero {
        pos: (fb(0x4000_0000), fb(0x4000_0000)),
        up_pressed: false,
        down_pressed: false,
        left_pressed: false,
        right_pressed: false,
    }
}

/// The box that the starting world has at position (x, y, z): scaled by
/// (1, 0.7, 1) and turned by 0.1 about the vertical axis.
pub open spec fn start_box(x: u32, y: u32, z: u32, rotates: bool) -> Box1 {
    Box1 {
        pos: (fb(x), fb(y), fb(z)),
        scale: (fb(0x3f80_0000), fb(0x3f33_3333), fb(0x3f80_0000)),
        rotation: (fb(0), fb(0), fb(0x3dcc_cccd)),
        rotates,
    }
}

/// The boxes of the starting world, in the order they are made: two rows
/// at x = -3 and x = 1, and one more at (3, 1); only the box at (-3, -0) turns.
pub open spec fn start_boxes() -> Seq<SpriteEnum> {
    seq![
        SpriteEnum::Box1(start_box(0xc040_0000, 0xc040_0000, 0x3e4c_cccd, false)),
        SpriteEnum::Box1(start_box(0xc040_0000, 0xc000_0000, 0x3e4c_cccd, false)),
        SpriteEnum::Box1(start_box(0xc040_0000, 0xbf80_0000, 0x3e4c_cccd, false)),
        SpriteEnum::Box1(start_box(0xc040_0000, 0x8000_0000, 0x3e4c_cccd, true)),
        SpriteEnum::Box1(start_box(0xc040_0000, 0x3f80_0000, 0x3e4c_cccd, false)),
        SpriteEnum::Box1(start_box(0x3f80_0000, 0xc040_0000, 0x3e4c_cccd, false)),
        SpriteEnum::Box1(start_box(0x3f80_0000, 0xc000_0000, 0x3e4c_cccd, false)),
        SpriteEnum::Box1(start_box(0x3f80_0000, 0xbf80_0000, 0x3e4c_cccd, false)),
        SpriteEnum::Box1(start_box(0x3f80_0000, 0x8000_0000, 0x3e4c_cccd, false)),
        SpriteEnum::Box1(start_box(0x4040_0000, 0x3f80_0000, 0x3e4c_cccd, false)),
    ]
}

/// The coordinate 5 * (j - 7) of the floor grid, for j in 0..14: from -35
/// to 30 in steps of 5.
pub open spec fn floor_coord(j: int) -> FloatBits {
    if j == 0 {
        fb(0xc20c_0000)
    } else if j == 1 {
        fb(0xc1f0_0000)
    } else if j == 2 {
        fb(0xc1c8_0000)
    } else if j == 3 {
        fb(0xc1a0_0000)
    } else if j == 4 {
        fb(0xc170_0000)
    } else if j == 5 {
        fb(0xc120_0000)
    } else if j == 6 {
        fb(0xc0a0_0000)
    } else if j == 7 {
        fb(0)
    } else if j == 8 {
        fb(0x40a0_0000)
    } else if j == 9 {
        fb(0x4120_0000)
    } else if j == 10 {
        fb(0x4170_0000)
    } else if j == 11 {
        fb(0x41a0_0000)
    } else if j == 12 {
        fb(0x41c8_0000)
    } else {
        fb(0x41f0_0000)
    }
}

/// The floor tiles of the starting world: a 14 by 14 grid, row by row.
pub open spec fn start_floor() -> Seq<SpriteEnum> {
    Seq::new(196, |i: int| SpriteEnum::Floor1(Floor1 { pos: (floor_coord(i / 14), floor_coord(i % 14)) }))
}

/// All sprites of the starting world, in the order they are made.
pub open spec fn initial_sprites() -> Seq<SpriteEnum> {
    start_boxes() + start_floor()
}

/// How the table writes out `f`.
fn text_of<'a>(texts: &'a BTreeMap<u32, String>, f: FloatBits) -> (s: &'a String)
    requires
        writes(texts@, f),
    ensures
        s@ == num(texts@, f),
{
    texts.get(&f.bits).unwrap()
}

/// Writes the numbers of a triple with commas between them.
fn append_triple(s: &mut String, texts: &BTreeMap<u32, String>, t: (FloatBits, FloatBits, FloatBits))
    requires
        writes(texts@, t.0) && writes(texts@, t.1) && writes(texts@, t.2),
    ensures
        final(s)@ == old(s)@ + triple_text(texts@, t),
{
    s.append(text_of(texts, t.0).as_str());
    s.append(",");
    s.append(text_of(texts, t.1).as_str());
    s.append(",");
    s.append(text_of(texts, t.2).as_str());
}

fn new_box(x: u32, y: u32, z: u32, rotates: bool) -> (b: SpriteEnum)
    ensures
        b == SpriteEnum::Box1(start_box(x, y, z, rotates)),
{
    SpriteEnum::Box1(
        Box1 {
            pos: (FloatBits { bits: x }, FloatBits { bits: y }, FloatBits { bits: z }),
            scale: (
                FloatBits { bits: 0x3f80_0000 },
                FloatBits { bits: 0x3f33_3333 },
                FloatBits { bits: 0x3f80_0000 },
            ),
            rotation: (FloatBits { bits: 0 }, FloatBits { bits: 0 }, FloatBits { bits: 0x3dcc_cccd }),
            rotates,
        },
    )
}

fn floor_coord_bits(j: usize) -> (f: FloatBits)
    requires
        j < 14,
    ensures
        f == floor_coord(j as int),
{
    let bits: u32 = if j == 0 {
        0xc20c_0000
    } else if j == 1 {
        0xc1f0_0000
    } else if j == 2 {
        0xc1c8_0000
    } else if j == 3 {
        0xc1a0_0000
    } else if j == 4 {
        0xc170_0000
    } else if j == 5 {
        0xc120_0000
    } else if j == 6 {
        0xc0a0_0000
    } else if j == 7 {
        0
    } else if j == 8 {
        0x40a0_0000
    } else if j == 9 {
        0x4120_0000
    } else if j == 10 {
        0x4170_0000
    } else if j == 11 {
        0x41a0_0000
    } else if j == 12 {
        0x41c8_0000
    } else {
        0x41f0_0000
    };
    FloatBits { bits }
}

impl Floor1 {
    /// The message that tells a client where this tile, stored under `key`,
    /// lies.
    pub fn as_frontend_msg(&self, key: usize, texts: &BTreeMap<u32, String>) -> (s: String)
        requires
            writes_sprite(texts@, SpriteEnum::Floor1(*self)),
        ensures
            s@ == floor1_msg(*self, key as nat, texts@),
    {
        let mut s = String::from_str("{\"type\":\"floor1\",\"key\":");
        s.append(decimal_text(key as u64).as_str());
        s.append(",\"pos\":[");
        s.append(text_of(texts, self.pos.0).as_str());
        s.append(",");
        s.append(text_of(texts, self.pos.1).as_str());
        s.append("]}");
        s
    }
}

impl Box1 {
    /// The message that tells a client where this box, stored under `key`,
    /// is and how it is scaled and turned.
    pub fn as_frontend_msg(&self, key: usize, texts: &BTreeMap<u32, String>) -> (s: String)
        requires
            writes_sprite(texts@, SpriteEnum::Box1(*self)),
        ensures
            s@ == box1_msg(*self, key as nat, texts@),
    {
        let mut s = String::from_str("{\"type\":\"box1\",\"key\":");
        s.append(decimal_text(key as u64).as_str());
        s.append(",\"pos\":[");
        append_triple(&mut s, texts, self.pos);
        s.append("],\"scale\":[");
        append_triple(&mut s, texts, self.scale);
        s.append("],\"rotation\":[");
        append_triple(&mut s, texts, self.rotation);
        s.append("]}");
        s
    }
}

impl Hero {
    /// The message that tells a client where this hero, stored under `key`,
    /// stands.
    pub fn as_frontend_msg(&self, key: usize, texts: &BTreeMap<u32, String>) -> (s: String)
        requires
            writes_sprite(texts@, SpriteEnum::Hero(*self)),
        ensures
            s@ == hero_msg(*self, key as nat, texts@),
    {
        let mut s = String::from_str("{\"type\":\"hero\",\"key\":");
        s.append(decimal_text(key as u64).as_str());
        s.append(",\"pos\":[");
        s.append(text_of(texts, self.pos.0).as_str());
        s.append(",");
        s.append(text_of(texts, self.pos.1).as_str());
        s.append("]}");
        s
    }

    /// A new hero: at (2, 2), with no key held.
    pub fn spawn() -> (h: Hero)
        ensures
            h == spawned_hero(),
            !h.up_pressed && !h.down_pressed && !h.left_pressed && !h.right_pressed,
            encodes_int(h.pos.0.bits, 2) && encodes_int(h.pos.1.bits, 2),
    {
        proof {
            lemma_new_hero_at_rest();
        }
        Hero {
            pos: (FloatBits { bits: 0x4000_0000 }, FloatBits { bits: 0x4000_0000 }),
            up_pressed: false,
            down_pressed: false,
            left_pressed: false,
            right_pressed: false,
        }
    }

    /// Applies one input of the hero's player: a press holds a direction
    /// key, a release lets it go.
    pub fn apply_input(&mut self, input: Input)
        ensures
            *final(self) == hero_after(*old(self), input),
            final(self).pos == old(self).pos,
            input == Input::UpPressed ==> final(self).up_pressed,
            input == Input::DownPressed ==> final(self).down_pressed,
            input == Input::LeftPressed ==> final(self).left_pressed,
            input == Input::RightPressed ==> final(self).right_pressed,
            input == Input::UpReleased ==> !final(self).up_pressed,
            input == Input::DownReleased ==> !final(self).down_pressed,
            input == Input::LeftReleased ==> !final(self).left_pressed,
            input == Input::RightReleased ==> !final(self).right_pressed,
    {
        proof {
            lemma_keys_follow_inputs(*old(self));
        }
        match input {
            Input::UpPressed => self.up_pressed = true,
            Input::DownPressed => self.down_pressed = true,
            Input::LeftPressed => self.left_pressed = true,
            Input::RightPressed => self.right_pressed = true,
            Input::UpReleased => self.up_pressed = false,
            Input::DownReleased => self.down_pressed = false,
            Input::LeftReleased => self.left_pressed = false,
            Input::RightReleased => self.right_pressed = false,
            Input::CreateHero => {},
        }
    }
}

impl SpriteEnum {
    /// The message for this sprite, stored under `key`.
    pub fn get_sprite_msg(&self, key: usize, texts: &BTreeMap<u32, String>) -> (s: String)
        requires
            writes_sprite(texts@, *self),
        ensures
            s@ == sprite_msg(*self, key as nat, texts@),
    {
        match self {
            SpriteEnum::Hero(hero) => hero.as_frontend_msg(key, texts),
            SpriteEnum::Floor1(floor1) => floor1.as_frontend_msg(key, texts),
            SpriteEnum::Box1(box1) => box1.as_frontend_msg(key, texts),
        }
    }

    /// Appends the bit patterns of the numbers that this sprite's message
    /// shows.
    pub(crate) fn push_float_bits(&self, out: &mut Vec<u32>)
        ensures
            final(out)@ == old(out)@ + sprite_floats(*self).map_values(|f: FloatBits| f.bits),
    {
        let ghost start = out@;
        match self {
            SpriteEnum::Hero(h) => {
                out.push(h.pos.0.bits);
                out.push(h.pos.1.bits);
            },
            SpriteEnum::Floor1(f) => {
                out.push(f.pos.0.bits);
                out.push(f.pos.1.bits);
            },
            SpriteEnum::Box1(b) => {
                out.push(b.pos.0.bits);
                out.push(b.pos.1.bits);
                out.push(b.pos.2.bits);
                out.push(b.scale.0.bits);
                out.push(b.scale.1.bits);
                out.push(b.scale.2.bits);
                out.push(b.rotation.0.bits);
                out.push(b.rotation.1.bits);
                out.push(b.rotation.2.bits);
            },
        }
        assert(out@ =~= start + sprite_floats(*self).map_values(|f: FloatBits| f.bits));
    }

    /// The sprites of the starting world, in the order they are made: ten
    /// boxes, then the floor, row by row.
    pub fn get_initial_sprites() -> (v: Vec<SpriteEnum>)
        ensures
            v@ == initial_sprites(),
    {
        let mut sprites: Vec<SpriteEnum> = Vec::new();
        sprites.push(new_box(0xc040_0000, 0xc040_0000, 0x3e4c_cccd, false));
        sprites.push(new_box(0xc040_0000, 0xc000_0000, 0x3e4c_cccd, false));
        sprites.push(new_box(0xc040_0000, 0xbf80_0000, 0x3e4c_cccd, false));
        sprites.push(new_box(0xc040_0000, 0x8000_0000, 0x3e4c_cccd, true));
        sprites.push(new_box(0xc040_0000, 0x3f80_0000, 0x3e4c_cccd, false));
        sprites.push(new_box(0x3f80_0000, 0xc040_0000, 0x3e4c_cccd, false));
        sprites.push(new_box(0x3f80_0000, 0xc000_0000, 0x3e4c_cccd, false));
        sprites.push(new_box(0x3f80_0000, 0xbf80_0000, 0x3e4c_cccd, false));
        sprites.push(new_box(0x3f80_0000, 0x8000_0000, 0x3e4c_cccd, false));
        sprites.push(new_box(0x4040_0000, 0x3f80_0000, 0x3e4c_cccd, false));
        assert(sprites@ =~= start_boxes());
        let mut x: usize = 0;
        while x < 14
            invariant
                x <= 14,
                sprites@ =~= start_boxes() + start_floor().take(14 * x),
            decreases 14 - x,
        {
            let mut y: usize = 0;
            while y < 14
                invariant
                    x < 14,
                    y <= 14,
                    sprites@ =~= start_boxes() + start_floor().take(14 * x + y),
                decreases 14 - y,
            {
                let tile = SpriteEnum::Floor1(
                    Floor1 { pos: (floor_coord_bits(x), floor_coord_bits(y)) },
                );
                proof {
                    let i = 14 * x + y;
                    assert(i / 14 == x && i % 14 == y) by (nonlinear_arith)
                        requires
                            i == 14 * x + y,
                            y < 14,
                    ;
                    assert(start_floor()[i as int] == tile);
                    assert(start_floor().take(i + 1) =~= start_floor().take(i as int).push(tile));
                }
                sprites.push(tile);
                y = y + 1;
            }
            x = x + 1;
        }
        assert(start_floor().take(196) =~= start_floor());
        sprites
    }
}

/// Two to the power `e`.
pub open spec fn two_to(e: nat) -> nat
    decreases e,
{
    if e == 0 {
        1
    } else {
        2 * two_to((e - 1) as nat)
    }
}

/// Whether `bits` is the IEEE 754 single-precision pattern of the whole
/// number `n`, for `n` of at most 24 bits: zero is all bits clear; otherwise
/// the top bit is the sign, the next eight bits the exponent `e` (biased by
/// 127) and the last 23 bits the fraction `f`, with
/// `|n| = (1 + f / 2^23) * 2^(e - 127)`.
pub open spec fn encodes_int(bits: u32, n: int) -> bool {
    let sign = bits / 0x8000_0000;
    let exp = (bits / 0x80_0000) % 0x100;
    let frac = bits % 0x80_0000;
    let size = if n < 0 {
        -n
    } else {
        n
    };
    if n == 0 {
        bits == 0
    } else {
        &&& sign == (if n < 0 {
            1u32
        } else {
            0u32
        })
        &&& 127 <= exp < 150
        &&& (0x80_0000 + frac) * two_to((exp - 127) as nat) == size * 0x80_0000
    }
}

/// A bit pattern encodes at most one whole number.
pub proof fn lemma_encodes_one_int(bits: u32, m: int, n: int)
    requires
        encodes_int(bits, m),
        encodes_int(bits, n),
    ensures
        m == n,
{
}

/// A release lets go of the key it names and a press holds it; the other
/// keys stay as they were, and no input moves the hero.
pub proof fn lemma_keys_follow_inputs(h: Hero)
    ensures
        !hero_after(h, Input::UpReleased).up_pressed,
        !hero_after(h, Input::DownReleased).down_pressed,
        !hero_after(h, Input::LeftReleased).left_pressed,
        !hero_after(h, Input::RightReleased).right_pressed,
        hero_after(h, Input::UpPressed).up_pressed,
        hero_after(h, Input::DownPressed).down_pressed,
        hero_after(h, Input::LeftPressed).left_pressed,
        hero_after(h, Input::RightPressed).right_pressed,
        forall|i: Input| #[trigger] hero_after(h, i).pos == h.pos,
        forall|i: Input|
            i != Input::UpPressed && i != Input::UpReleased ==> #[trigger] hero_after(h, i).up_pressed
                == h.up_pressed,
        forall|i: Input|
            i != Input::DownPressed && i != Input::DownReleased ==> #[trigger] hero_after(
                h,
                i,
            ).down_pressed == h.down_pressed,
        forall|i: Input|
            i != Input::LeftPressed && i != Input::LeftReleased ==> #[trigger] hero_after(
                h,
                i,
            ).left_pressed == h.left_pressed,
        forall|i: Input|
            i != Input::RightPressed && i != Input::RightReleased ==> #[trigger] hero_after(
                h,
                i,
            ).right_pressed == h.right_pressed,
{
}

/// A new hero stands at (2, 2) and holds no key.
pub proof fn lemma_new_hero_at_rest()
    ensures
        !spawned_hero().up_pressed,
        !spawned_hero().down_pressed,
        !spawned_hero().left_pressed,
        !spawned_hero().right_pressed,
        encodes_int(spawned_hero().pos.0.bits, 2),
        encodes_int(spawned_hero().pos.1.bits, 2),
{
    let bits: u32 = 0x4000_0000;
    assert(bits / 0x8000_0000 == 0);
    assert((bits / 0x80_0000) % 0x100 == 128);
    assert(bits % 0x80_0000 == 0);
    assert(two_to(1) == 2) by {
        reveal_with_fuel(two_to, 2);
    }
    assert(encodes_int(bits, 2));
}

/// A box's message shows, right after its key, the box's x, y and z, in
/// that order, then its scale and its rotation, each x, y, z.
pub proof fn lemma_box_msg_shows_fields_in_order(b: Box1, key: nat, texts: Map<u32, String>)
    ensures
        box1_msg(b, key, texts) == "{\"type\":\"box1\",\"key\":"@ + decimal(key) + ",\"pos\":["@
            + num(texts, b.pos.0) + ","@ + num(texts, b.pos.1) + ","@ + num(texts, b.pos.2)
            + "],\"scale\":["@ + num(texts, b.scale.0) + ","@ + num(texts, b.scale.1) + ","@
            + num(texts, b.scale.2) + "],\"rotation\":["@ + num(texts, b.rotation.0) + ","@
            + num(texts, b.rotation.1) + ","@ + num(texts, b.rotation.2) + "]}"@,
{
    assert(box1_msg(b, key, texts) =~= "{\"type\":\"box1\",\"key\":"@ + decimal(key) + ",\"pos\":["@
        + num(texts, b.pos.0) + ","@ + num(texts, b.pos.1) + ","@ + num(texts, b.pos.2)
        + "],\"scale\":["@ + num(texts, b.scale.0) + ","@ + num(texts, b.scale.1) + ","@
        + num(texts, b.scale.2) + "],\"rotation\":["@ + num(texts, b.rotation.0) + ","@
        + num(texts, b.rotation.1) + ","@ + num(texts, b.rotation.2) + "]}"@);
}

/// A hero's message shows, right after its key, the hero's x and then its y.
pub proof fn lemma_hero_msg_shows_position_in_order(h: Hero, key: nat, texts: Map<u32, String>)
    ensures
        hero_msg(h, key, texts) == "{\"type\":\"hero\",\"key\":"@ + decimal(key) + ",\"pos\":["@
            + num(texts, h.pos.0) + ","@ + num(texts, h.pos.1) + "]}"@,
{
}

/// A floor tile's message shows, right after its key, the tile's x and
/// then its y.
pub proof fn lemma_floor_msg_shows_position_in_order(f: Floor1, key: nat, texts: Map<u32, String>)
    ensures
        floor1_msg(f, key, texts) == "{\"type\":\"floor1\",\"key\":"@ + decimal(key) + ",\"pos\":["@
            + num(texts, f.pos.0) + ","@ + num(texts, f.pos.1) + "]}"@,
{
}

/// The floor grid's coordinate `j` is the number 5 * (j - 7).
proof fn lemma_floor_coord_value(j: int)
    requires
        0 <= j < 14,
    ensures
        encodes_int(floor_coord(j).bits, 5 * (j - 7)),
{
    assert(two_to(0) == 1 && two_to(1) == 2 && two_to(2) == 4 && two_to(3) == 8 && two_to(4) == 16
        && two_to(5) == 32) by {
        reveal_with_fuel(two_to, 6);
    }
    let bits = floor_coord(j).bits;
    if j == 0 {
        assert(bits / 0x8000_0000 == 1 && (bits / 0x80_0000) % 0x100 == 132 && bits % 0x80_0000 == 0x0c_0000);
        assert(encodes_int(bits, 5 * (j - 7)));
    } else if j == 1 {
        assert(bits / 0x8000_0000 == 1 && (bits / 0x80_0000) % 0x100 == 131 && bits % 0x80_0000 == 0x70_0000);
        assert(encodes_int(bits, 5 * (j - 7)));
    } else if j == 2 {
        assert(bits / 0x8000_0000 == 1 && (bits / 0x80_0000) % 0x100 == 131 && bits % 0x80_0000 == 0x48_0000);
        assert(encodes_int(bits, 5 * (j - 7)));
    } else if j == 3 {
        assert(bits / 0x8000_0000 == 1 && (bits / 0x80_0000) % 0x100 == 131 && bits % 0x80_0000 == 0x20_0000);
        assert(encodes_int(bits, 5 * (j - 7)));
    } else if j == 4 {
        assert(bits / 0x8000_0000 == 1 && (bits / 0x80_0000) % 0x100 == 130 && bits % 0x80_0000 == 0x70_0000);
        assert(encodes_int(bits, 5 * (j - 7)));
    } else if j == 5 {
        assert(bits / 0x8000_0000 == 1 && (bits / 0x80_0000) % 0x100 == 130 && bits % 0x80_0000 == 0x20_0000);
        assert(encodes_int(bits, 5 * (j - 7)));
    } else if j == 6 {
        assert(bits / 0x8000_0000 == 1 && (bits / 0x80_0000) % 0x100 == 129 && bits % 0x80_0000 == 0x20_0000);
        assert(encodes_int(bits, 5 * (j - 7)));
    } else if j == 7 {
    } else if j == 8 {
        assert(bits / 0x8000_0000 == 0 && (bits / 0x80_0000) % 0x100 == 129 && bits % 0x80_0000 == 0x20_0000);
        assert(encodes_int(bits, 5 * (j - 7)));
    } else if j == 9 {
        assert(bits / 0x8000_0000 == 0 && (bits / 0x80_0000) % 0x100 == 130 && bits % 0x80_0000 == 0x20_0000);
        assert(encodes_int(bits, 5 * (j - 7)));
    } else if j == 10 {
        assert(bits / 0x8000_0000 == 0 && (bits / 0x80_0000) % 0x100 == 130 && bits % 0x80_0000 == 0x70_0000);
        assert(encodes_int(bits, 5 * (j - 7)));
    } else if j == 11 {
        assert(bits / 0x8000_0000 == 0 && (bits / 0x80_0000) % 0x100 == 131 && bits % 0x80_0000 == 0x20_0000);
        assert(encodes_int(bits, 5 * (j - 7)));
    } else if j == 12 {
        assert(bits / 0x8000_0000 == 0 && (bits / 0x80_0000) % 0x100 == 131 && bits % 0x80_0000 == 0x48_0000);
        assert(encodes_int(bits, 5 * (j - 7)));
    } else {
        assert(bits / 0x8000_0000 == 0 && (bits / 0x80_0000) % 0x100 == 131 && bits % 0x80_0000 == 0x70_0000);
        assert(encodes_int(bits, 5 * (j - 7)));
    }
}

/// The starting floor is the 14 by 14 grid of the points
/// (5 * (r - 7), 5 * (c - 7)) for r and c in 0..14: the tile made
/// `14 * r + c`-th, after the ten boxes, lies at that point, and no two
/// tiles lie at the same point.
pub proof fn lemma_floor_is_grid()
    ensures
        initial_sprites().len() == 206,
        forall|i: int|
            0 <= i < 196 ==> (#[trigger] initial_sprites()[10 + i] matches SpriteEnum::Floor1(f)
                && encodes_int(f.pos.0.bits, 5 * (i / 14 - 7)) && encodes_int(
                f.pos.1.bits,
                5 * (i % 14 - 7),
            )),
        forall|a: int, b: int|
            10 <= a < b < 206 ==> #[trigger] initial_sprites()[a] != #[trigger] initial_sprites()[b],
{
    assert forall|i: int|
        0 <= i < 196 implies (#[trigger] initial_sprites()[10 + i] matches SpriteEnum::Floor1(f)
        && encodes_int(f.pos.0.bits, 5 * (i / 14 - 7)) && encodes_int(
        f.pos.1.bits,
        5 * (i % 14 - 7),
    )) by {
        assert(initial_sprites()[10 + i] == start_floor()[i]);
        lemma_floor_coord_value(i / 14);
        lemma_floor_coord_value(i % 14);
    }
    assert forall|a: int, b: int|
        10 <= a < b < 206 implies #[trigger] initial_sprites()[a] != #[trigger] initial_sprites()[b] by {
        let i = a - 10;
        let j = b - 10;
        assert(initial_sprites()[a] == start_floor()[i]);
        assert(initial_sprites()[b] == start_floor()[j]);
        if start_floor()[i] == start_floor()[j] {
            lemma_floor_coord_value(i / 14);
            lemma_floor_coord_value(i % 14);
            lemma_floor_coord_value(j / 14);
            lemma_floor_coord_value(j % 14);
            lemma_encodes_one_int(floor_coord(i / 14).bits, 5 * (i / 14 - 7), 5 * (j / 14 - 7));
            lemma_encodes_one_int(floor_coord(i % 14).bits, 5 * (i % 14 - 7), 5 * (j % 14 - 7));
            vstd::arithmetic::div_mod::lemma_fundamental_div_mod(i, 14);
            vstd::arithmetic::div_mod::lemma_fundamental_div_mod(j, 14);
        }
    }
}

} // verus!
