use std::collections::BTreeMap;

use maxmech::engine::input::SessionInput;
use maxmech::engine::world::Data as DataTrait;
use maxmech::game::{Config, Data};
use maxmech::input::Input;
use maxmech::sessionid::SessionID;
use maxmech::sprite::{Box1, Floor1, FloatBits, Hero, SpriteEnum};
use maxmech::world::{MsgType, World};

fn f(x: f32) -> FloatBits {
    FloatBits { bits: x.to_bits() }
}

fn texts_for(world: &World) -> BTreeMap<u32, String> {
    world
        .float_bits()
        .into_iter()
        .map(|b| (b, f32::from_bits(b).to_string()))
        .collect()
}

fn input(id: SessionID, input: Input) -> SessionInput<Input> {
    SessionInput { session_id: id, input }
}

fn hero_of(world: &World, id: SessionID) -> Hero {
    let key = world.data.hero_keys[&id.key()];
    match world.sprites.get(key) {
        Some(SpriteEnum::Hero(h)) => *h,
        _ => panic!("no hero"),
    }
}

#[test]
fn initial_sprites_are_ten_boxes_and_the_floor() {
    let sprites = SpriteEnum::get_initial_sprites();
    assert_eq!(sprites.len(), 206);
    let boxes: Vec<&SpriteEnum> = sprites.iter().filter(|s| matches!(s, SpriteEnum::Box1(_))).collect();
    assert_eq!(boxes.len(), 10);
    assert_eq!(
        sprites[3],
        SpriteEnum::Box1(Box1 {
            pos: (f(-3.0), f(-0.0), f(0.2)),
            scale: (f(1.0), f(0.7), f(1.0)),
            rotation: (f(0.0), f(0.0), f(0.1)),
            rotates: true,
        })
    );
    let rotating = sprites
        .iter()
        .filter(|s| matches!(s, SpriteEnum::Box1(b) if b.rotates))
        .count();
    assert_eq!(rotating, 1);
    assert_eq!(sprites[10], SpriteEnum::Floor1(Floor1 { pos: (f(-35.0), f(-35.0)) }));
    assert_eq!(sprites[11], SpriteEnum::Floor1(Floor1 { pos: (f(-35.0), f(-30.0)) }));
    assert_eq!(sprites[10 + 14 * 7 + 7], SpriteEnum::Floor1(Floor1 { pos: (f(0.0), f(0.0)) }));
    assert_eq!(sprites[205], SpriteEnum::Floor1(Floor1 { pos: (f(30.0), f(30.0)) }));
}

#[test]
fn new_world_holds_the_starting_sprites() {
    let world = World::new(Data::empty());
    assert_eq!(world.sprites.len(), 206);
    assert!(world.data.hero_keys.is_empty());
    assert!(world.new_sprite_keys.is_empty());
    assert!(world.removed_sprite_keys.is_empty());
    assert!(world.updated_sprite_keys.is_empty());
    assert_eq!(world.elapsed_ms, f(0.0));
    let initial = SpriteEnum::get_initial_sprites();
    let held: Vec<SpriteEnum> = world.sprites.iter().map(|(_, s)| *s).collect();
    assert_eq!(held, initial);
}

#[test]
fn sprite_messages() {
    let mut texts = BTreeMap::new();
    for x in [2.0f32, -3.0, 0.2, 1.0, 0.7, 0.0, 0.1, -35.0, 2.5] {
        texts.insert(x.to_bits(), x.to_string());
    }
    let hero = Hero {
        pos: (f(2.0), f(2.5)),
        up_pressed: false,
        down_pressed: false,
        left_pressed: false,
        right_pressed: false,
    };
    assert_eq!(hero.as_frontend_msg(4, &texts), "{\"type\":\"hero\",\"key\":4,\"pos\":[2,2.5]}");
    let floor = Floor1 { pos: (f(-35.0), f(0.0)) };
    assert_eq!(floor.as_frontend_msg(17, &texts), "{\"type\":\"floor1\",\"key\":17,\"pos\":[-35,0]}");
    let b = Box1 {
        pos: (f(-3.0), f(-3.0), f(0.2)),
        scale: (f(1.0), f(0.7), f(1.0)),
        rotation: (f(0.0), f(0.0), f(0.1)),
        rotates: false,
    };
    assert_eq!(
        b.as_frontend_msg(0, &texts),
        "{\"type\":\"box1\",\"key\":0,\"pos\":[-3,-3,0.2],\"scale\":[1,0.7,1],\"rotation\":[0,0,0.1]}"
    );
    assert_eq!(SpriteEnum::Box1(b).get_sprite_msg(0, &texts), b.as_frontend_msg(0, &texts));
    assert_eq!(SpriteEnum::Hero(hero).get_sprite_msg(4, &texts), hero.as_frontend_msg(4, &texts));
}

#[test]
fn hero_inputs_press_and_release_keys() {
    let mut hero = Hero::spawn();
    assert_eq!(hero.pos, (f(2.0), f(2.0)));
    hero.apply_input(Input::UpPressed);
    hero.apply_input(Input::LeftPressed);
    assert!(hero.up_pressed && hero.left_pressed && !hero.down_pressed && !hero.right_pressed);
    hero.apply_input(Input::UpReleased);
    hero.apply_input(Input::CreateHero);
    assert!(!hero.up_pressed && hero.left_pressed);
    assert_eq!(hero.pos, (f(2.0), f(2.0)));
}

#[test]
fn advance_creates_heroes_and_reports_moving_sprites() {
    let world = World::new(Data::empty());
    let mut next = World::new(Data::empty());
    next.new_sprite_keys.push(3);
    next.updated_sprite_keys.push(99);
    let alice = SessionID(1, 1);
    let bob = SessionID(1, 2);
    let inputs = vec![
        input(alice, Input::CreateHero),
        input(alice, Input::UpPressed),
        input(bob, Input::CreateHero),
        input(bob, Input::RightPressed),
        input(alice, Input::LeftPressed),
        input(alice, Input::UpReleased),
    ];
    world.advance(&mut next, &inputs);
    assert_eq!(next.sprites.len(), 208);
    assert_eq!(next.data.hero_keys.len(), 2);
    let a = hero_of(&next, alice);
    assert!(!a.up_pressed && a.left_pressed && !a.down_pressed && !a.right_pressed);
    let b = hero_of(&next, bob);
    assert!(b.right_pressed && !b.up_pressed);
    assert_eq!(b.pos, (f(2.0), f(2.0)));
    assert_ne!(next.data.hero_keys[&alice.key()], next.data.hero_keys[&bob.key()]);
    assert!(next.data.hero_keys[&alice.key()] >= 206);
    // Only the old world's boxes are reported: new heroes are not.
    assert_eq!(next.updated_sprite_keys, (0..10).collect::<Vec<usize>>());
    assert!(next.new_sprite_keys.is_empty());
    assert!(next.removed_sprite_keys.is_empty());

    // A second step reports the heroes as well.
    let mut third = World::new(Data::empty());
    next.advance(&mut third, &[input(bob, Input::RightReleased)]);
    let mut expected: Vec<usize> = (0..10).collect();
    let mut heroes = vec![next.data.hero_keys[&alice.key()], next.data.hero_keys[&bob.key()]];
    heroes.sort();
    expected.extend(heroes);
    assert_eq!(third.updated_sprite_keys, expected);
    assert!(!hero_of(&third, bob).right_pressed);
    assert_eq!(hero_of(&third, alice), hero_of(&next, alice));
}

#[test]
fn rejoining_gives_a_new_hero() {
    let world = World::new(Data::empty());
    let mut next = World::new(Data::empty());
    let alice = SessionID(7, 7);
    world.advance(&mut next, &[input(alice, Input::CreateHero), input(alice, Input::DownPressed)]);
    let first = next.data.hero_keys[&alice.key()];
    let mut third = World::new(Data::empty());
    next.advance(&mut third, &[input(alice, Input::CreateHero)]);
    let second = third.data.hero_keys[&alice.key()];
    assert_ne!(first, second);
    assert_eq!(third.sprites.len(), 208);
    assert!(!hero_of(&third, alice).down_pressed);
    // The old hero stays in the world, still holding its key.
    match third.sprites.get(first) {
        Some(SpriteEnum::Hero(h)) => assert!(h.down_pressed),
        _ => panic!("old hero gone"),
    }
}

#[test]
fn copy_into_copies_sprites_time_and_heroes() {
    let mut world = World::new(Data::empty());
    let alice = SessionID(3, 4);
    let mut next = World::new(Data::empty());
    world.advance(&mut next, &[input(alice, Input::CreateHero)]);
    next.elapsed_ms = f(12.5);
    let mut into = World::new(Data::empty());
    into.removed_sprite_keys.push(5);
    next.copy_into(&mut into);
    assert_eq!(into.elapsed_ms, f(12.5));
    assert_eq!(into.sprites.len(), 207);
    assert_eq!(into.data.hero_keys, next.data.hero_keys);
    assert_eq!(into.removed_sprite_keys, vec![5]);
    world = into;
    assert_eq!(hero_of(&world, alice), Hero::spawn());
}

#[test]
fn hero_mut_changes_only_that_hero() {
    let world = World::new(Data::empty());
    let mut next = World::new(Data::empty());
    let alice = SessionID(5, 5);
    world.advance(&mut next, &[input(alice, Input::CreateHero)]);
    {
        let hero = next.hero_mut(&alice);
        hero.pos = (f(-1.0), f(4.0));
        hero.down_pressed = true;
    }
    let h = hero_of(&next, alice);
    assert_eq!(h.pos, (f(-1.0), f(4.0)));
    assert!(h.down_pressed);
    assert_eq!(next.sprites.len(), 207);
}

#[test]
fn full_message_lists_every_sprite_in_key_order() {
    let world = World::new(Data::empty());
    let texts = texts_for(&world);
    let msg = world.as_frontend_msg(MsgType::Full, SessionID(1, 2), &texts);
    assert!(msg.starts_with(
        "{\"t\":0, \"session_id\":\"SessionID(1, 2)\", \"hero_key\":, \"new_sprites\":[{\"type\":\"box1\",\"key\":0,\"pos\":[-3,-3,0.2],\"scale\":[1,0.7,1],\"rotation\":[0,0,0.1]},"
    ));
    assert!(msg.contains("{\"type\":\"floor1\",\"key\":10,\"pos\":[-35,-35]},{\"type\":\"floor1\",\"key\":11,\"pos\":[-35,-30]}"));
    assert!(msg.ends_with("{\"type\":\"floor1\",\"key\":205,\"pos\":[30,30]}], \"updated_sprites\":[],\"removed_sprite_keys\":[] }"));
    assert_eq!(msg.matches("\"type\"").count(), 206);
}

#[test]
fn diff_message_lists_new_updated_and_removed() {
    let world = World::new(Data::empty());
    let mut next = World::new(Data::empty());
    let alice = SessionID(0, 9);
    world.advance(&mut next, &[input(alice, Input::CreateHero)]);
    next.removed_sprite_keys.push(42);
    next.removed_sprite_keys.push(7);
    next.updated_sprite_keys.truncate(1);
    next.elapsed_ms = f(25.0);
    let texts = texts_for(&next);
    let key = next.data.hero_keys[&alice.key()];
    let msg = next.as_frontend_msg(MsgType::Diff, alice, &texts);
    assert_eq!(
        msg,
        format!(
            "{{\"t\":25, \"session_id\":\"SessionID(0, 9)\", \"hero_key\":{}, \"new_sprites\":[], \"updated_sprites\":[{{\"type\":\"box1\",\"key\":0,\"pos\":[-3,-3,0.2],\"scale\":[1,0.7,1],\"rotation\":[0,0,0.1]}}],\"removed_sprite_keys\":[42,7] }}",
            key
        )
    );
}

#[test]
fn float_bits_cover_time_and_sprites() {
    let world = World::new(Data::empty());
    let bits = world.float_bits();
    for x in [0.0f32, -0.0, -3.0, 0.2, 0.7, 0.1, -35.0, 30.0] {
        assert!(bits.contains(&x.to_bits()));
    }
}

#[test]
fn data_tracks_hero_keys() {
    let mut data = Data::empty();
    let id = SessionID(2, 3);
    assert!(!data.is_ready_for_msg(&id));
    assert_eq!(data.get_session_msg(&id), "\"hero_key\":");
    data.hero_keys.insert(id.key(), 31);
    assert!(data.is_ready_for_msg(&id));
    assert_eq!(data.get_session_msg(&id), "\"hero_key\":31");
    let copy = data.duplicate();
    assert_eq!(copy.hero_keys, data.hero_keys);
    let mut other = Data::empty();
    other.hero_keys.insert((9, 9), 1);
    DataTrait::clone_from(&mut other, &data);
    assert_eq!(other.hero_keys, data.hero_keys);
    assert!(!other.is_ready_for_msg(&SessionID(9, 9)));
}

#[test]
fn config_gives_its_delay() {
    let config = Config { delay_between_snapshots_ms: 25 };
    assert_eq!(config.get_delay_between_snapshots_ms(), 25);
}

#[test]
fn advance_without_inputs_keeps_the_scene() {
    let world = World::new(Data::empty());
    let mut next = World::new(Data::empty());
    next.elapsed_ms = f(99.0);
    world.advance(&mut next, &[]);
    assert_eq!(next.elapsed_ms, world.elapsed_ms);
    assert_eq!(next.sprites.len(), 206);
    assert!(next.data.hero_keys.is_empty());
    assert_eq!(next.updated_sprite_keys, (0..10).collect::<Vec<usize>>());
    let texts = texts_for(&next);
    let msg = next.as_frontend_msg(MsgType::Diff, SessionID(4, 4), &texts);
    assert!(msg.starts_with("{\"t\":0, \"session_id\":\"SessionID(4, 4)\", \"hero_key\":, \"new_sprites\":[], \"updated_sprites\":[{\"type\":\"box1\",\"key\":0,"));
}

#[test]
fn serves_needs_a_hero_for_each_sender() {
    let world = World::new(Data::empty());
    let alice = SessionID(1, 1);
    let bob = SessionID(2, 2);
    assert!(world.serves(&[]));
    assert!(!world.serves(&[input(alice, Input::UpPressed)]));
    assert!(world.serves(&[input(alice, Input::CreateHero), input(alice, Input::UpPressed)]));
    assert!(!world.serves(&[input(alice, Input::UpPressed), input(alice, Input::CreateHero)]));
    assert!(!world.serves(&[input(bob, Input::CreateHero), input(alice, Input::DownReleased)]));
    let mut next = World::new(Data::empty());
    world.advance(&mut next, &[input(alice, Input::CreateHero)]);
    assert!(next.serves(&[input(alice, Input::RightPressed)]));
    assert!(!next.serves(&[input(bob, Input::RightPressed)]));
}

#[test]
fn inputs_never_move_heroes() {
    let world = World::new(Data::empty());
    let mut next = World::new(Data::empty());
    let alice = SessionID(8, 1);
    let mut inputs = vec![input(alice, Input::CreateHero)];
    for i in [
        Input::UpPressed,
        Input::DownPressed,
        Input::LeftPressed,
        Input::RightPressed,
        Input::UpReleased,
        Input::DownReleased,
    ] {
        inputs.push(input(alice, i));
    }
    world.advance(&mut next, &inputs);
    let h = hero_of(&next, alice);
    assert_eq!(h.pos, (f(2.0), f(2.0)));
    assert!(h.left_pressed && h.right_pressed && !h.up_pressed && !h.down_pressed);
}

#[test]
fn handle_sprites_passes_over_sprites_taken_out() {
    let world = World::new(Data::empty());
    let mut next = World::new(Data::empty());
    next.sprites.take(0);
    next.sprites.take(3);
    *next.sprites.get_mut(5).unwrap() = SpriteEnum::Floor1(Floor1 { pos: (f(1.0), f(1.0)) });
    next.updated_sprite_keys.push(42);
    SpriteEnum::handle_sprites(&world.sprites, &mut next);
    assert_eq!(next.updated_sprite_keys, vec![42, 1, 2, 4, 6, 7, 8, 9]);
    assert_eq!(next.sprites.len(), 204);
    assert!(next.new_sprite_keys.is_empty());
    assert!(next.removed_sprite_keys.is_empty());
}

#[test]
fn heroes_in_place_checks_every_hero_key() {
    let world = World::new(Data::empty());
    assert!(world.heroes_in_place());
    let mut next = World::new(Data::empty());
    let alice = SessionID(3, 4);
    world.advance(&mut next, &[input(alice, Input::CreateHero)]);
    assert!(next.heroes_in_place());
    next.data.hero_keys.insert(SessionID(5, 6).key(), 3);
    assert!(!next.heroes_in_place());
    let mut nowhere = World::new(Data::empty());
    nowhere.data.hero_keys.insert(alice.key(), 999);
    assert!(!nowhere.heroes_in_place());
}

#[test]
fn reports_present_checks_the_listed_keys() {
    let mut world = World::new(Data::empty());
    assert!(world.reports_present(MsgType::Full));
    assert!(world.reports_present(MsgType::Diff));
    world.new_sprite_keys.push(999);
    assert!(world.reports_present(MsgType::Full));
    assert!(!world.reports_present(MsgType::Diff));
    world.new_sprite_keys.clear();
    world.updated_sprite_keys.push(5);
    world.updated_sprite_keys.push(1000);
    assert!(!world.reports_present(MsgType::Full));
    assert!(!world.reports_present(MsgType::Diff));
}

#[test]
fn new_world_puts_starting_sprite_k_under_key_k() {
    let world = World::new(Data::empty());
    let initial = SpriteEnum::get_initial_sprites();
    assert_eq!(world.sprites.len(), initial.len());
    for (k, sprite) in initial.iter().enumerate() {
        assert_eq!(world.sprites.get(k), Some(sprite));
    }
    assert_eq!(world.sprites.get(10), Some(&SpriteEnum::Floor1(Floor1 { pos: (f(-35.0), f(-35.0)) })));
    assert_eq!(world.sprites.get(24), Some(&SpriteEnum::Floor1(Floor1 { pos: (f(-30.0), f(-35.0)) })));
    assert_eq!(world.sprites.get(205), Some(&SpriteEnum::Floor1(Floor1 { pos: (f(30.0), f(30.0)) })));
    assert!(world.sprites.get(206).is_none());
    assert_eq!(world.sprites.next_index(), 206);
}

fn held(world: &World) -> Vec<(usize, SpriteEnum)> {
    world.sprites.iter().map(|(k, s)| (k, *s)).collect()
}

#[test]
fn a_step_does_not_depend_on_the_world_it_is_written_into() {
    let world = World::new(Data::empty());
    let alice = SessionID(1, 1);
    let bob = SessionID(2, 2);
    let inputs = vec![
        input(alice, Input::CreateHero),
        input(bob, Input::CreateHero),
        input(alice, Input::DownPressed),
    ];
    let mut a = World::new(Data::empty());
    let mut b = World::new(Data::empty());
    b.sprites.take(0);
    b.sprites.take(7);
    b.updated_sprite_keys.push(3);
    b.new_sprite_keys.push(4);
    world.advance(&mut a, &inputs);
    world.advance(&mut b, &inputs);
    assert_eq!(held(&a), held(&b));
    assert_eq!(a.data.hero_keys, b.data.hero_keys);
    assert_eq!(a.data.hero_keys[&alice.key()], 206);
    assert_eq!(a.data.hero_keys[&bob.key()], 207);
    assert_eq!(a.elapsed_ms, b.elapsed_ms);
    assert_eq!(a.updated_sprite_keys, b.updated_sprite_keys);
    assert_eq!(a.sprites.next_index(), b.sprites.next_index());
}

#[test]
fn joining_players_reuse_empty_slots_first() {
    let mut world = World::new(Data::empty());
    world.sprites.take(20);
    world.sprites.take(30);
    let mut next = World::new(Data::empty());
    let inputs = vec![
        input(SessionID(1, 0), Input::CreateHero),
        input(SessionID(2, 0), Input::CreateHero),
        input(SessionID(3, 0), Input::CreateHero),
    ];
    world.advance(&mut next, &inputs);
    assert_eq!(next.data.hero_keys[&SessionID(1, 0).key()], 30);
    assert_eq!(next.data.hero_keys[&SessionID(2, 0).key()], 20);
    assert_eq!(next.data.hero_keys[&SessionID(3, 0).key()], 206);
}

#[test]
fn inputs_applied_in_two_parts_give_the_same_world() {
    let alice = SessionID(1, 1);
    let bob = SessionID(2, 2);
    let first = vec![input(alice, Input::CreateHero), input(alice, Input::UpPressed)];
    let second = vec![
        input(bob, Input::CreateHero),
        input(alice, Input::LeftPressed),
        input(bob, Input::RightPressed),
    ];
    let mut joined = World::new(Data::empty());
    joined.sprites.take(5);
    let all: Vec<SessionInput<Input>> = [first.clone(), second.clone()].concat();
    SpriteEnum::handle_inputs(&all, &mut joined);
    let mut split = World::new(Data::empty());
    split.sprites.take(5);
    SpriteEnum::handle_inputs(&first, &mut split);
    SpriteEnum::handle_inputs(&second, &mut split);
    assert_eq!(held(&joined), held(&split));
    assert_eq!(joined.data.hero_keys, split.data.hero_keys);
    assert_eq!(joined.data.hero_keys[&alice.key()], 5);
    assert_eq!(joined.data.hero_keys[&bob.key()], 206);
}

#[test]
fn a_full_message_is_a_diff_that_lists_every_sprite_as_new() {
    let mut world = World::new(Data::empty());
    world.updated_sprite_keys.push(2);
    world.new_sprite_keys = (0..206).collect();
    let texts = texts_for(&world);
    let id = SessionID(4, 5);
    assert_eq!(
        world.as_frontend_msg(MsgType::Full, id, &texts),
        world.as_frontend_msg(MsgType::Diff, id, &texts)
    );
}
