use isk::gps::{Compass, Location, MapRect, Rect};
use isk::messages::{msg_catalog, msg_panel};
use isk::{
    tile_is_visible, CharSpec, ColorSpec, MapObjectModel, MoveOutcome, TileSpec, World,
    BASE_ACTION_COST, VIEW,
};

fn dot() -> TileSpec {
    Ok(CharSpec { img: '.', c: Some(ColorSpec { r: 128, g: 128, b: 128 }) })
}

fn hash() -> TileSpec {
    Ok(CharSpec { img: '#', c: Some(ColorSpec { r: 128, g: 128, b: 128 }) })
}

/// A world with one 20-by-20 map of walkable, transparent floor.
fn floor_world() -> (World, usize) {
    let mut w = World::new();
    let floor = w.new_terrain("floor", dot(), true, true);
    let map = w.new_map("yard", [20, 20], floor);
    (w, map)
}

#[test]
fn registries_find_kinds_by_name() {
    let (mut w, map) = floor_world();
    assert_eq!(w.get_map("yard"), Some(map));
    assert_eq!(w.get_map("keep"), None);
    assert_eq!(w.get_terrain("floor"), Some(0));
    assert_eq!(w.get_terrain("lava"), None);
    let soldier = w.new_actor_model("soldier", dot());
    assert_eq!(w.get_actor_model("soldier"), Some(soldier));
    assert_eq!(w.get_actor_model("wizard"), None);
    let door = w.new_map_object_model(MapObjectModel::new("door", hash(), false, false));
    assert_eq!(w.get_map_object_model("door"), Some(door));
    assert_eq!(w.get_map_object_model("window"), None);
}

#[test]
fn canonical_loc_accepts_exactly_in_bounds() {
    let (w, map) = floor_world();
    assert_eq!(
        w.canonical_loc(Location::new(map, [0, 0])),
        Some(Location::new(map, [0, 0]))
    );
    assert_eq!(
        w.canonical_loc(Location::new(map, [19, 19])),
        Some(Location::new(map, [19, 19]))
    );
    assert_eq!(w.canonical_loc(Location::new(map, [20, 0])), None);
    assert_eq!(w.canonical_loc(Location::new(map, [0, -1])), None);
    assert_eq!(w.canonical_loc(Location::new(map + 1, [0, 0])), None);
}

#[test]
fn coerce_map_keeps_only_same_map() {
    let (w, map) = floor_world();
    let loc = Location::new(map, [3, 4]);
    assert_eq!(w.coerce_map(loc, map), Some(loc));
    assert_eq!(w.coerce_map(loc, map + 1), None);
}

#[test]
fn screen_to_loc_composes_and_validates() {
    let (w, map) = floor_world();
    let tl = Location::new(map, [2, 3]);
    assert_eq!(w.screen_to_loc([4, 5], &tl), Some(Location::new(map, [6, 8])));
    assert_eq!(w.screen_to_loc([30, 0], &tl), None);
}

#[test]
fn camera_clamps_to_map_when_big_enough() {
    // a map comfortably larger than the viewport
    let mut w = World::new();
    let floor = w.new_terrain("floor", dot(), true, true);
    let map = w.new_map("field", [50, 60], floor);
    let cam = w.loc_to_td_camera(Location::new(map, [25, 25]));
    assert_eq!(cam.pos, [4, 4]);
    let corner = w.loc_to_td_camera(Location::new(map, [0, 0]));
    assert_eq!(corner.pos, [0, 0]);
    let far = w.loc_to_td_camera(Location::new(map, [49, 59]));
    assert_eq!(far.pos, [50 - VIEW, 60 - VIEW]);
    // in-bounds origin with the whole viewport on the map
    for c in [[25, 25], [0, 0], [49, 59], [1, 58]] {
        let o = w.loc_to_td_camera(Location::new(map, c));
        assert!(o.pos[0] >= 0 && o.pos[1] >= 0);
        assert!(o.pos[0] + VIEW <= 50 && o.pos[1] + VIEW <= 60);
    }
}

#[test]
fn camera_on_small_map_stays_at_origin_side() {
    let (w, map) = floor_world();
    let cam = w.loc_to_td_camera(Location::new(map, [10, 10]));
    assert_eq!(cam.pos, [0, 0]);
}

#[test]
fn scheduler_returns_only_actor_and_none_when_empty() {
    let (mut w, map) = floor_world();
    let none = w.next_actor();
    assert_eq!(none, None);
    let soldier = w.new_actor_model("soldier", dot());
    let camera = Location::new(map, [0, 0]);
    let h = w.new_actor(soldier, &camera, [5, 5]).unwrap();
    assert_eq!(h, (map, 0));
    // a fresh actor starts with one round of energy and is scheduled
    assert_eq!(w.next_actor(), Some(h));
    assert_eq!(w.atlas[map].actors[0].energy(), BASE_ACTION_COST);
}

#[test]
fn scheduler_regenerates_until_someone_is_ready() {
    let (mut w, map) = floor_world();
    let soldier = w.new_actor_model("soldier", dot());
    let camera = Location::new(map, [0, 0]);
    let h = w.new_actor(soldier, &camera, [5, 5]).unwrap();
    // spend deep into debt: three rounds of regeneration will be needed
    {
        let a = &mut w.atlas[h.0].actors[h.1];
        a.spend_energy(BASE_ACTION_COST * 4);
    }
    assert_eq!(w.atlas[h.0].actors[h.1].energy(), -3 * BASE_ACTION_COST);
    assert_eq!(w.next_actor(), Some(h));
    assert_eq!(w.atlas[h.0].actors[h.1].energy(), 0);
}

#[test]
fn moving_into_open_floor_costs_one_action() {
    let (mut w, map) = floor_world();
    let soldier = w.new_actor_model("soldier", dot());
    let camera = Location::new(map, [0, 0]);
    let h = w.new_actor(soldier, &camera, [5, 5]).unwrap();
    let r = w.try_move_actor(h.0, h.1, [1, 0]);
    assert_eq!(r, MoveOutcome::Moved);
    assert_eq!(w.atlas[h.0].actors[h.1].loc(), Location::new(map, [6, 5]));
    assert_eq!(w.atlas[h.0].actors[h.1].energy(), 0);
}

#[test]
fn moving_off_the_map_is_rejected_without_cost() {
    let (mut w, map) = floor_world();
    let soldier = w.new_actor_model("soldier", dot());
    let camera = Location::new(map, [0, 0]);
    let h = w.new_actor(soldier, &camera, [0, 0]).unwrap();
    let r = w.try_move_actor(h.0, h.1, [-1, 0]);
    assert_eq!(r, MoveOutcome::OutOfBounds);
    assert_eq!(w.atlas[h.0].actors[h.1].loc(), Location::new(map, [0, 0]));
    assert_eq!(w.atlas[h.0].actors[h.1].energy(), BASE_ACTION_COST);
}

#[test]
fn moving_onto_another_actor_is_rejected_without_cost() {
    let (mut w, map) = floor_world();
    let soldier = w.new_actor_model("soldier", dot());
    let camera = Location::new(map, [0, 0]);
    let h = w.new_actor(soldier, &camera, [5, 5]).unwrap();
    let _other = w.new_actor(soldier, &camera, [6, 5]).unwrap();
    let r = w.try_move_actor(h.0, h.1, [1, 0]);
    assert_eq!(r, MoveOutcome::Blocked);
    assert_eq!(w.atlas[h.0].actors[h.1].loc(), Location::new(map, [5, 5]));
    assert_eq!(w.atlas[h.0].actors[h.1].energy(), BASE_ACTION_COST);
}

#[test]
fn bumping_a_closed_door_morphs_it_and_costs_one_action() {
    let (mut w, map) = floor_world();
    let open_door = w.new_map_object_model(MapObjectModel::new("door (open)", dot(), true, true));
    let mut closed = MapObjectModel::new("door (closed)", hash(), false, false);
    closed.morph_on_bump = Some(open_door);
    let closed_door = w.new_map_object_model(closed);
    let door_loc = Location::new(map, [6, 5]);
    door_loc.set_map_object(&mut w, closed_door);

    let soldier = w.new_actor_model("soldier", dot());
    let camera = Location::new(map, [0, 0]);
    let h = w.new_actor(soldier, &camera, [5, 5]).unwrap();
    let r = w.try_move_actor(h.0, h.1, [1, 0]);
    assert_eq!(r, MoveOutcome::Morphed);
    // the object's kind at that location is now the open door
    let obj = door_loc.get_map_object(&w).unwrap();
    assert_eq!(obj.model, open_door);
    assert_eq!(obj.my_loc, door_loc);
    // the actor stayed put and paid one base action
    assert_eq!(w.atlas[h.0].actors[h.1].loc(), Location::new(map, [5, 5]));
    assert_eq!(w.atlas[h.0].actors[h.1].energy(), 0);
}

#[test]
fn bumping_a_plain_object_costs_nothing_and_changes_nothing() {
    let (mut w, map) = floor_world();
    let boulder = w.new_map_object_model(MapObjectModel::new("boulder", hash(), false, false));
    let rock_loc = Location::new(map, [6, 5]);
    rock_loc.set_map_object(&mut w, boulder);
    let soldier = w.new_actor_model("soldier", dot());
    let camera = Location::new(map, [0, 0]);
    let h = w.new_actor(soldier, &camera, [5, 5]).unwrap();
    let r = w.try_move_actor(h.0, h.1, [1, 0]);
    assert_eq!(r, MoveOutcome::Blocked);
    assert_eq!(rock_loc.get_map_object(&w).unwrap().model, boulder);
    assert_eq!(w.atlas[h.0].actors[h.1].loc(), Location::new(map, [5, 5]));
    assert_eq!(w.atlas[h.0].actors[h.1].energy(), BASE_ACTION_COST);
}

#[test]
fn closable_neighbors_are_found_and_closed() {
    let (mut w, map) = floor_world();
    let open_door = w.new_map_object_model(MapObjectModel::new("door (open)", dot(), true, true));
    let closed_door =
        w.new_map_object_model(MapObjectModel::new("door (closed)", hash(), false, false));
    w.add_closable(open_door, closed_door);
    let door_loc = Location::new(map, [6, 5]);
    door_loc.set_map_object(&mut w, open_door);

    let here = Location::new(map, [5, 5]);
    let locs = w.get_closable_locations(&here);
    assert_eq!(locs.len(), 1);
    assert_eq!(locs[0].pos, [6, 5]);

    let soldier = w.new_actor_model("soldier", dot());
    let camera = Location::new(map, [0, 0]);
    let h = w.new_actor(soldier, &camera, [5, 5]).unwrap();
    let who = isk::Actor::new(&w.actor_types, soldier, here);
    assert!(w.close(&locs[0].clone(), &who));
    assert_eq!(door_loc.get_map_object(&w).unwrap().model, closed_door);
    // a second close finds nothing closable
    assert_eq!(w.get_closable_locations(&here).len(), 0);
    let _ = h;
}

#[test]
fn line_of_sight_blocked_by_walls_and_opaque_objects() {
    let mut w = World::new();
    let floor = w.new_terrain("floor", dot(), true, true);
    let wall = w.new_terrain("wall", hash(), false, false);
    let map = w.new_map("hall", [10, 10], floor);
    let a = Location::new(map, [1, 1]);
    let b = Location::new(map, [5, 1]);
    assert!(w.los(&a, &b).0);
    assert!(w.los_terrain(&a, &b).0);
    // a wall between them blocks sight
    w.atlas[map].set_terrain([3, 1], wall);
    assert!(!w.los(&a, &b).0);
    // sight into an opaque target cell is still allowed
    let c = Location::new(map, [3, 1]);
    assert!(w.los(&a, &c).0);
    // different maps never see each other
    let map2 = w.new_map("cellar", [10, 10], floor);
    let cross = w.los(&a, &Location::new(map2, [1, 1]));
    assert!(!cross.0 && cross.1.is_empty());
}

#[test]
fn opaque_object_blocks_sight_until_morphed_away() {
    let mut w = World::new();
    let floor = w.new_terrain("floor", dot(), true, true);
    let map = w.new_map("hall", [10, 10], floor);
    let open_door = w.new_map_object_model(MapObjectModel::new("door (open)", dot(), true, true));
    let mut closed = MapObjectModel::new("door (closed)", hash(), false, false);
    closed.morph_on_bump = Some(open_door);
    let closed_door = w.new_map_object_model(closed);
    let door_loc = Location::new(map, [3, 1]);
    door_loc.set_map_object(&mut w, closed_door);
    let a = Location::new(map, [1, 1]);
    let b = Location::new(map, [5, 1]);
    assert!(!w.los(&a, &b).0);

    let soldier = w.new_actor_model("soldier", dot());
    let camera = Location::new(map, [0, 0]);
    let h = w.new_actor(soldier, &camera, [2, 1]).unwrap();
    assert_eq!(w.try_move_actor(h.0, h.1, [1, 0]), MoveOutcome::Morphed);
    assert!(w.los(&a, &b).0);
}

#[test]
fn map_rect_wallcode_round_trips() {
    let mut mr = MapRect::new(Rect::new([0, 0], [5, 5]), 0, 1);
    mr.set_wallcode(1, 2, 0, 2);
    assert_eq!(mr.read_wallcode(Compass::N), 1);
    assert_eq!(mr.read_wallcode(Compass::E), 2);
    assert_eq!(mr.read_wallcode(Compass::S), 0);
    assert_eq!(mr.read_wallcode(Compass::W), 2);
    assert_eq!(mr.read_wallcode(Compass::NE), 0);
}

#[test]
fn map_rect_draw_paints_walls_and_floor() {
    let mut w = World::new();
    let grass = w.new_terrain("grass", dot(), true, true);
    let floor = w.new_terrain("floor", dot(), true, true);
    let wall = w.new_terrain("wall", hash(), false, false);
    let map = w.new_map("keep", [12, 12], grass);
    let mut room = MapRect::new(Rect::new([2, 2], [6, 6]), floor, wall);
    room.set_wallcode(1, 1, 1, 1);
    room.draw(&mut w.atlas[map]);
    let m = &w.atlas[map];
    // corners and edges are wall, the inside is floor, outside untouched
    assert_eq!(m.terrain[2 + 2 * 12], wall);
    assert_eq!(m.terrain[4 + 4 * 12], floor);
    assert_eq!(m.terrain[7 + 4 * 12], wall);
    assert_eq!(m.terrain[0], grass);
}

#[test]
fn tiles_stack_terrain_object_and_actor() {
    let (mut w, map) = floor_world();
    let soldier = w.new_actor_model("soldier", dot());
    let camera = Location::new(map, [0, 0]);
    let _h = w.new_actor(soldier, &camera, [4, 4]).unwrap();
    let v = w.atlas[map]
        .tiles([4, 4], &w.terrain_types, &w.obj_types, &w.actor_types)
        .unwrap();
    assert_eq!(v.len(), 2);
    assert_eq!(v[0], dot());
    assert_eq!(v[1], dot());
    // an invisible terrain yields nothing on an empty cell
    let mut w2 = World::new();
    let dark = w2.new_terrain(
        "void",
        Ok(CharSpec { img: ' ', c: Some(ColorSpec { r: 0, g: 0, b: 0 }) }),
        true,
        true,
    );
    let map2 = w2.new_map("void", [3, 3], dark);
    assert!(w2.atlas[map2]
        .tiles([1, 1], &w2.terrain_types, &w2.obj_types, &w2.actor_types)
        .is_none());
}

#[test]
fn tile_visibility_rules() {
    assert!(tile_is_visible(&dot()));
    assert!(!tile_is_visible(&Ok(CharSpec {
        img: ' ',
        c: Some(ColorSpec { r: 0, g: 0, b: 0 })
    })));
    assert!(tile_is_visible(&Ok(CharSpec { img: ' ', c: None })));
    assert!(tile_is_visible(&Ok(CharSpec {
        img: ' ',
        c: Some(ColorSpec { r: 1, g: 0, b: 0 })
    })));
}

#[test]
fn message_panel_coalesces_repeats() {
    let mut p = msg_panel::new();
    p.add_message("");
    assert_eq!(p.count(), 0);
    p.add_message("ouch");
    p.add_message("ouch");
    p.add_message("whirr");
    assert_eq!(p.count(), 2);
    let (text, n) = p.message(0).unwrap();
    assert_eq!((text.as_str(), *n), ("ouch", 2));
    p.unshift_message();
    assert_eq!(p.count(), 1);
    let popped = p.pop_message().unwrap();
    assert_eq!(popped.0.as_str(), "whirr");
    assert_eq!(p.count(), 0);
    assert_eq!(p.pop_message(), None);
}

#[test]
fn message_panel_prompt() {
    let mut p = msg_panel::new();
    assert_eq!(p.prompt(), None);
    p.set_prompt("which way?");
    assert_eq!(p.prompt().unwrap().as_str(), "which way?");
    p.clear_prompt();
    assert_eq!(p.prompt(), None);
}

#[test]
fn message_catalog_is_keyed_by_actor_handle() {
    let mut cat = msg_catalog::new();
    let a = cat.get((0, 0));
    cat.panel_mut(a).add_message("hello");
    let b = cat.get((0, 1));
    assert_ne!(a, b);
    assert_eq!(cat.panel(a).count(), 1);
    assert_eq!(cat.panel(b).count(), 0);
    // asking again finds the same panel
    assert_eq!(cat.get((0, 0)), a);
}

#[test]
fn compass_error_carries_description() {
    let e = Compass::try_from(12).unwrap_err();
    assert!(e.desc.contains("out of range"));
}

#[test]
fn energy_accounting_saturates_at_the_ends() {
    let (mut w, map) = floor_world();
    let soldier = w.new_actor_model("soldier", dot());
    let camera = Location::new(map, [0, 0]);
    let h = w.new_actor(soldier, &camera, [5, 5]).unwrap();
    {
        let a = &mut w.atlas[h.0].actors[h.1];
        a.spend_energy(i16::MIN); // adding 32768 clamps at the top
        assert_eq!(a.energy(), i16::MAX);
        a.turn_postprocess();
        assert_eq!(a.energy(), i16::MAX);
        a.spend_energy(i16::MAX);
        a.spend_energy(i16::MAX);
        assert_eq!(a.energy(), i16::MIN + 1);
        assert_eq!(a.speed(), BASE_ACTION_COST);
    }
}

#[test]
fn map_los_reports_the_visited_cells() {
    let (w, map) = floor_world();
    let m = &w.atlas[map];
    let (ok, path) = m.los(&w.terrain_types, &w.obj_types, &[1, 1], &[4, 1]);
    assert!(ok);
    let pts: Vec<[i32; 2]> = path.iter().map(|p| [p.x, p.y]).collect();
    assert_eq!(pts, vec![[1, 1], [2, 1], [3, 1], [4, 1]]);
}

#[test]
fn message_counter_saturates() {
    let mut p = msg_panel::new();
    for _ in 0..300 {
        p.add_message("drip");
    }
    // the counter stops at its maximum, then a fresh line begins
    assert_eq!(p.count(), 2);
    assert_eq!(p.message(0).unwrap().1, u8::MAX);
    assert_eq!(usize::from(p.message(1).unwrap().1), 300 - u8::MAX as usize);
    assert!(p.message(2).is_none());
}

#[test]
fn turn_postprocess_reports_emptiness_per_world() {
    let (mut w, map) = floor_world();
    assert!(w.turn_postprocess());
    let soldier = w.new_actor_model("soldier", dot());
    let camera = Location::new(map, [0, 0]);
    let h = w.new_actor(soldier, &camera, [5, 5]).unwrap();
    assert!(!w.turn_postprocess());
    assert_eq!(w.atlas[h.0].actors[h.1].energy(), 2 * BASE_ACTION_COST);
}

#[test]
fn map_rect_draw_leaves_door_gaps_on_sides_coded_two() {
    let mut w = World::new();
    let grass = w.new_terrain("grass", dot(), true, true);
    let floor = w.new_terrain("floor", dot(), true, true);
    let wall = w.new_terrain("wall", hash(), false, false);
    let map = w.new_map("keep", [12, 12], grass);
    // a 7-wide, 5-tall room at (2,2): solid north and south, gapped east
    // and west
    let mut room = MapRect::new(Rect::new([2, 2], [7, 5]), floor, wall);
    room.set_wallcode(1, 2, 1, 2);
    room.draw(&mut w.atlas[map]);
    let m = &w.atlas[map];
    let at = |x: usize, y: usize| m.terrain[x + y * 12];
    // the west and east walls are wall except at the center row
    assert_eq!(at(2, 3), wall);
    assert_eq!(at(2, 4), floor); // gap at center row 2 + 5/2
    assert_eq!(at(8, 4), floor);
    assert_eq!(at(8, 5), wall);
    // solid top and bottom rows, even at the center column
    assert_eq!(at(5, 2), wall);
    assert_eq!(at(5, 6), wall);
    // interior floor, outside untouched
    assert_eq!(at(4, 4), floor);
    assert_eq!(at(1, 4), grass);
    assert_eq!(at(9, 4), grass);
}

#[test]
fn message_catalog_lookup_does_not_duplicate() {
    let mut cat = msg_catalog::new();
    let a = cat.get((3, 7));
    let b = cat.get((3, 7));
    assert_eq!(a, b);
    assert_eq!(cat.get((1, 1)), 1);
    // repeated lookups never grow the catalog
    cat.get((3, 7));
    cat.get((1, 1));
    assert_eq!(cat.get((2, 2)), 2);
}
