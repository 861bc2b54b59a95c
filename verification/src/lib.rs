//! Simulation core for a tile-grid, turn-based game: integer coordinates,
//! eight-way compass headings, grid line-of-sight tracing, map and world
//! state, and per-actor energy scheduling.
//!
//! Shared, mutable game entities (maps, actors, objects) live in arenas
//! owned by the `World` and are addressed by stable integer handles, so
//! the cyclic object graph needs no reference counting.

use vstd::prelude::*;

pub mod gps;
pub mod los;
pub mod messages;
pub mod numerics;
pub mod rng;

verus! {

use crate::gps::{Compass, Location};

/// Half the viewport's side length, in cells.
pub const VIEW_RADIUS: i32 = 21;

/// The viewport's side length, in cells.
pub const VIEW: i32 = 2 * VIEW_RADIUS + 1;

/// Action points charged for one basic action.
pub const BASE_ACTION_COST: i16 = 100;

/// Construction from a single source value.
pub trait UnaryConstruct<T>: Sized {
    fn new(src: T) -> Self;
}

/// Recoverable failure carrying a description, used by the partial
/// enum conversions.
#[derive(Clone, Debug, PartialEq, Eq)]
pub struct Error {
    pub desc: String,
}

/// A display color, as red, green and blue channels.
#[derive(Clone, Copy, Debug, PartialEq, Eq, Structural)]
pub struct ColorSpec {
    pub r: u8,
    pub g: u8,
    pub b: u8,
}

/// A character tile: the glyph and an optional foreground color.
#[derive(Clone, Copy, Debug, PartialEq, Eq, Structural)]
pub struct CharSpec {
    pub img: char,
    pub c: Option<ColorSpec>,
}

/// An image tile, referenced by identifier.
#[derive(Clone, Debug, PartialEq, Eq)]
pub struct ImgSpec {
    pub img: String,
}

pub type TileSpec = Result<CharSpec, ImgSpec>;

pub type BackgroundSpec = Result<ColorSpec, ImgSpec>;

/// Whether drawing a tile would show anything: a character tile shows
/// unless it is a space whose explicit color is black; an image tile is
/// taken as visible.
pub open spec fn tile_visible_spec(src: TileSpec) -> bool {
    match src {
        Ok(cs) => cs.img != ' ' || (match cs.c {
            Some(col) => col != (ColorSpec { r: 0, g: 0, b: 0 }),
            None => true,
        }),
        Err(_) => true,
    }
}

/// Whether drawing a tile would show anything on screen.
pub fn tile_is_visible(src: &TileSpec) -> (r: bool)
    ensures
        r == tile_visible_spec(*src),
{
    match src {
        Ok(cs) => {
            if cs.img != ' ' {
                true
            } else {
                match cs.c {
                    Some(col) => !(col.r == 0 && col.g == 0 && col.b == 0),
                    None => true,
                }
            }
        },
        Err(_) => true,
    }
}

/// An immutable, shared terrain kind: name, display, walkability and
/// transparency.
pub struct Terrain {
    pub name: String,
    pub tile: TileSpec,
    pub bg: BackgroundSpec,
    pub walkable: bool,
    pub transparent: bool,
}

impl Terrain {
    pub fn new(_name: &str, _tile: TileSpec, _walkable: bool, _transparent: bool) -> (r: Terrain)
        ensures
            r.name@ == _name@,
            r.tile == _tile,
            r.bg == Ok::<ColorSpec, ImgSpec>(ColorSpec { r: 0, g: 0, b: 0 }),
            r.walkable == _walkable,
            r.transparent == _transparent,
    {
        Terrain {
            name: _name.to_owned(),
            tile: _tile,
            bg: Ok(ColorSpec { r: 0, g: 0, b: 0 }),
            walkable: _walkable,
            transparent: _transparent,
        }
    }

    pub fn is_named(&self, _name: &str) -> (r: bool)
        ensures
            r == (self.name@ == _name@),
    {
        self.name == _name.to_owned()
    }
}

/// An immutable, shared actor kind: name, display, and the base
/// action-point rate.
#[allow(non_snake_case)]
pub struct ActorModel {
    pub name: String,
    pub tile: TileSpec,
    pub base_AP: i16,
}

impl ActorModel {
    pub fn new(_name: &str, _tile: TileSpec) -> (r: ActorModel)
        ensures
            r.name@ == _name@,
            r.tile == _tile,
            r.base_AP == BASE_ACTION_COST,
    {
        ActorModel { name: _name.to_owned(), tile: _tile, base_AP: BASE_ACTION_COST }
    }

    pub fn is_named(&self, _name: &str) -> (r: bool)
        ensures
            r == (self.name@ == _name@),
    {
        self.name == _name.to_owned()
    }
}

/// A value clamped into the i16 range.
pub open spec fn clamp_i16(v: int) -> int {
    if v > i16::MAX {
        i16::MAX as int
    } else if v < i16::MIN {
        i16::MIN as int
    } else {
        v
    }
}

/// A live actor: its kind (a handle into the world's actor-model arena,
/// with the model's base rate copied beside it), its location, and its
/// current energy balance in action points.
pub struct Actor {
    pub is_pc: bool,
    pub model: usize,
    pub my_loc: Location,
    pub ap: i16,
    pub base_ap: i16,
}

impl Actor {
    /// A fresh actor of the given kind, starting with one round of energy.
    pub fn new(models: &Vec<ActorModel>, _model: usize, _loc: Location) -> (r: Actor)
        requires
            _model < models@.len(),
        ensures
            r.is_pc == false,
            r.model == _model,
            r.my_loc == _loc,
            r.base_ap == models@[_model as int].base_AP,
            r.ap == r.base_ap,
    {
        let init_ap = models[_model].base_AP;
        Actor { is_pc: false, model: _model, my_loc: _loc, ap: init_ap, base_ap: init_ap }
    }

    /// Where this actor stands.
    pub fn loc(&self) -> (r: Location)
        ensures
            r == self.my_loc,
    {
        self.my_loc
    }

    /// Moves this actor to a new location.
    pub fn set_loc(&mut self, src: Location)
        ensures
            final(self).my_loc == src,
            final(self).is_pc == old(self).is_pc,
            final(self).model == old(self).model,
            final(self).ap == old(self).ap,
            final(self).base_ap == old(self).base_ap,
    {
        self.my_loc = src;
    }

    /// The current energy balance.
    pub fn energy(&self) -> (r: i16)
        ensures
            r == self.ap,
    {
        self.ap
    }

    /// Charges energy for an action, clamping at the representable range.
    pub fn spend_energy(&mut self, delta: i16)
        ensures
            final(self).ap == clamp_i16(old(self).ap - delta),
            final(self).is_pc == old(self).is_pc,
            final(self).model == old(self).model,
            final(self).my_loc == old(self).my_loc,
            final(self).base_ap == old(self).base_ap,
    {
        let v: i32 = self.ap as i32 - delta as i32;
        self.ap = if v > i16::MAX as i32 {
            i16::MAX
        } else if v < i16::MIN as i32 {
            i16::MIN
        } else {
            v as i16
        };
    }

    /// The energy gained each scheduling round.
    pub fn speed(&self) -> (r: i16)
        ensures
            r == self.base_ap,
    {
        self.base_ap
    }

    /// One scheduling round's regeneration: gain energy at the base rate,
    /// clamping at the representable range.
    pub fn turn_postprocess(&mut self)
        ensures
            final(self).ap == clamp_i16(old(self).ap + old(self).base_ap),
            final(self).is_pc == old(self).is_pc,
            final(self).model == old(self).model,
            final(self).my_loc == old(self).my_loc,
            final(self).base_ap == old(self).base_ap,
    {
        let v: i32 = self.ap as i32 + self.base_ap as i32;
        self.ap = if v > i16::MAX as i32 {
            i16::MAX
        } else if v < i16::MIN as i32 {
            i16::MIN
        } else {
            v as i16
        };
    }
}

/// An immutable, shared object kind: name, display, walkability,
/// transparency, and an optional kind this object turns into when bumped
/// (a handle into the world's object-model arena).
pub struct MapObjectModel {
    pub name: String,
    pub tile: TileSpec,
    pub walkable: bool,
    pub transparent: bool,
    pub morph_on_bump: Option<usize>,
}

impl MapObjectModel {
    pub fn new(_name: &str, _tile: TileSpec, _walkable: bool, _transparent: bool) -> (r:
        MapObjectModel)
        ensures
            r.name@ == _name@,
            r.tile == _tile,
            r.walkable == _walkable,
            r.transparent == _transparent,
            r.morph_on_bump is None,
    {
        MapObjectModel {
            name: _name.to_owned(),
            tile: _tile,
            walkable: _walkable,
            transparent: _transparent,
            morph_on_bump: None,
        }
    }

    pub fn is_named(&self, _name: &str) -> (r: bool)
        ensures
            r == (self.name@ == _name@),
    {
        self.name == _name.to_owned()
    }
}

/// A placed object: its kind (a handle into the world's object-model
/// arena) and where it stands.
#[derive(Clone, Copy, Debug, PartialEq, Eq)]
pub struct MapObject {
    pub model: usize,
    pub my_loc: Location,
}

impl MapObject {
    pub fn new(_model: usize, _loc: Location) -> (r: MapObject)
        ensures
            r.model == _model,
            r.my_loc == _loc,
    {
        MapObject { model: _model, my_loc: _loc }
    }

    /// Where this object stands.
    pub fn loc(&self) -> (r: Location)
        ensures
            r == self.my_loc,
    {
        self.my_loc
    }

    /// Moves this object.
    pub fn set_loc(&mut self, src: Location)
        ensures
            final(self).my_loc == src,
            final(self).model == old(self).model,
    {
        self.my_loc = src;
    }
}


/// The camera origin on one axis: the viewport is centered when possible,
/// slid right of zero, and slid back so its far edge stays on the map,
/// never past zero again.
pub open spec fn camera_origin(c: int, extent: int) -> int {
    let want = c - VIEW_RADIUS;
    let limit = extent - VIEW;
    let m = if want <= limit {
        want
    } else {
        limit
    };
    if m <= 0 {
        0
    } else {
        m
    }
}

/// The first closing rule at or after index i whose open kind is `model`,
/// yielding the closed kind it maps to.
pub open spec fn closable_from(pairs: Seq<(usize, usize)>, model: int, i: int) -> Option<usize>
    decreases pairs.len() - i,
{
    if !(0 <= i < pairs.len()) {
        None
    } else if pairs[i].0 == model {
        Some(pairs[i].1)
    } else {
        closable_from(pairs, model, i + 1)
    }
}

/// How an attempted one-cell move resolved.
#[derive(Clone, Copy, Debug, PartialEq, Eq, Structural)]
pub enum MoveOutcome {
    /// The actor stepped onto the destination and paid the base cost.
    Moved,
    /// A bumped object morphed into its declared replacement kind and the
    /// actor paid the base cost.
    Morphed,
    /// The destination was occupied or not walkable; nothing changed and
    /// nothing was paid.
    Blocked,
    /// The destination lies outside the map; nothing changed.
    OutOfBounds,
}

/// Another actor of the map already stands on (x, y).
pub open spec fn occupied_by_other(m: crate::gps::GameMap, actor_idx: int, x: int, y: int) -> bool {
    exists|j: int| 0 <= j < m.actors@.len() && j != actor_idx
        && (#[trigger] m.actors@[j]).my_loc.pos[0] == x && m.actors@[j].my_loc.pos[1] == y
}

/// The deficit keeping the scheduler busy: how much energy the first actor
/// of the first populated map still lacks.
pub open spec fn first_actor_deficit(atlas: Seq<crate::gps::GameMap>) -> int
    decreases atlas.len(),
{
    if atlas.len() == 0 {
        0
    } else if atlas[0].actors@.len() > 0 {
        if atlas[0].actors@[0].ap >= 0 {
            0
        } else {
            -atlas[0].actors@[0].ap
        }
    } else {
        first_actor_deficit(atlas.drop_first())
    }
}

/// The root registry: the maps, and the arenas of shared immutable kinds.
pub struct World {
    pub atlas: Vec<crate::gps::GameMap>,
    pub actor_types: Vec<ActorModel>,
    pub obj_types: Vec<MapObjectModel>,
    pub terrain_types: Vec<Terrain>,
    pub obj_close: Vec<(usize, usize)>,
}

impl World {
    /// Structural soundness: every map is sound and every stored handle
    /// points into its arena; actor kinds regenerate at least one point a
    /// round, and every morph or closing rule names an existing kind.
    pub open spec fn wf(self) -> bool {
        &&& forall|m: int| 0 <= m < self.atlas@.len() ==> {
            &&& (#[trigger] self.atlas@[m]).wf()
            &&& self.atlas@[m].terrain_ids_ok(self.terrain_types@.len() as int)
            &&& self.atlas@[m].object_ids_ok(self.obj_types@.len() as int)
            &&& self.atlas@[m].actor_models_ok(self.actor_types@)
        }
        &&& forall|i: int| 0 <= i < self.obj_types@.len() ==> ((#[trigger] self.obj_types@[i]).morph_on_bump
            matches Some(t) ==> t < self.obj_types@.len())
        &&& forall|i: int| 0 <= i < self.actor_types@.len() ==> (#[trigger] self.actor_types@[i]).base_AP
            >= 1
        &&& forall|i: int| 0 <= i < self.obj_close@.len() ==> (#[trigger] self.obj_close@[i]).1
            < self.obj_types@.len()
    }

    pub fn new() -> (r: World)
        ensures
            r.atlas@.len() == 0,
            r.actor_types@.len() == 0,
            r.obj_types@.len() == 0,
            r.terrain_types@.len() == 0,
            r.obj_close@.len() == 0,
            r.wf(),
    {
        World {
            atlas: Vec::new(),
            actor_types: Vec::new(),
            obj_types: Vec::new(),
            terrain_types: Vec::new(),
            obj_close: Vec::new(),
        }
    }

    /// Registers a fresh map of the given extent, filled with one terrain
    /// kind, and returns its handle.
    pub fn new_map(&mut self, _name: &str, _dim: [i32; 2], _terrain: usize) -> (r: usize)
        requires
            old(self).wf(),
            _terrain < old(self).terrain_types@.len(),
            0 <= _dim[0],
            0 <= _dim[1],
            _dim[0] * _dim[1] <= usize::MAX,
        ensures
            final(self).wf(),
            r == old(self).atlas@.len(),
            final(self).atlas@.len() == old(self).atlas@.len() + 1,
            final(self).atlas@.drop_last() == old(self).atlas@,
            final(self).atlas@.last().dim[0] == _dim[0],
            final(self).atlas@.last().dim[1] == _dim[1],
            final(self).atlas@.last().name@ == _name@,
            final(self).atlas@.last().actors@.len() == 0,
            final(self).actor_types == old(self).actor_types,
            final(self).obj_types == old(self).obj_types,
            final(self).terrain_types == old(self).terrain_types,
            final(self).obj_close == old(self).obj_close,
    {
        let ret = self.atlas.len();
        self.atlas.push(crate::gps::GameMap::new(_name, _dim, _terrain));
        ret
    }

    /// The handle of a map with the given name, if one exists.
    pub fn get_map(&self, _name: &str) -> (r: Option<usize>)
        ensures
            r matches Some(i) ==> i < self.atlas@.len() && self.atlas@[i as int].name@ == _name@
                && (forall|j: int| 0 <= j < i ==> (#[trigger] self.atlas@[j]).name@ != _name@),
            r is None ==> forall|i: int| 0 <= i < self.atlas@.len() ==> (#[trigger] self.atlas@[i]).name@
                != _name@,
    {
        let mut i: usize = 0;
        while i < self.atlas.len()
            invariant
                0 <= i <= self.atlas@.len(),
                forall|j: int| 0 <= j < i ==> (#[trigger] self.atlas@[j]).name@ != _name@,
            decreases self.atlas@.len() - i,
        {
            if self.atlas[i].is_named(_name) {
                return Some(i);
            }
            i = i + 1;
        }
        None
    }

    /// Registers an actor kind and returns its handle.
    pub fn new_actor_model(&mut self, _name: &str, _tile: TileSpec) -> (r: usize)
        requires
            old(self).wf(),
        ensures
            final(self).wf(),
            r == old(self).actor_types@.len(),
            final(self).actor_types@.len() == old(self).actor_types@.len() + 1,
            final(self).actor_types@.drop_last() == old(self).actor_types@,
            final(self).actor_types@.last().name@ == _name@,
            final(self).actor_types@.last().tile == _tile,
            final(self).actor_types@.last().base_AP == BASE_ACTION_COST,
            final(self).atlas == old(self).atlas,
            final(self).obj_types == old(self).obj_types,
            final(self).terrain_types == old(self).terrain_types,
            final(self).obj_close == old(self).obj_close,
    {
        let ret = self.actor_types.len();
        self.actor_types.push(ActorModel::new(_name, _tile));
        proof {
            assert(forall|m: int| 0 <= m < self.atlas@.len() ==> (#[trigger] self.atlas@[m]).actor_models_ok(
                self.actor_types@,
            )) by {
                assert forall|m: int| 0 <= m < self.atlas@.len() implies (#[trigger] self.atlas@[m]).actor_models_ok(
                    self.actor_types@,
                ) by {
                    assert(old(self).atlas@[m].actor_models_ok(old(self).actor_types@));
                }
            }
        }
        ret
    }

    /// The handle of an actor kind with the given name, if one exists.
    pub fn get_actor_model(&self, _name: &str) -> (r: Option<usize>)
        ensures
            r matches Some(i) ==> i < self.actor_types@.len() && self.actor_types@[i as int].name@
                == _name@ && (forall|j: int| 0 <= j < i ==> (#[trigger] self.actor_types@[j]).name@
                != _name@),
            r is None ==> forall|i: int| 0 <= i < self.actor_types@.len()
                ==> (#[trigger] self.actor_types@[i]).name@ != _name@,
    {
        let mut i: usize = 0;
        while i < self.actor_types.len()
            invariant
                0 <= i <= self.actor_types@.len(),
                forall|j: int| 0 <= j < i ==> (#[trigger] self.actor_types@[j]).name@ != _name@,
            decreases self.actor_types@.len() - i,
        {
            if self.actor_types[i].is_named(_name) {
                return Some(i);
            }
            i = i + 1;
        }
        None
    }

    /// Registers an object kind and returns its handle. A declared morph
    /// target must name an already-registered kind (or this one).
    pub fn new_map_object_model(&mut self, src: MapObjectModel) -> (r: usize)
        requires
            old(self).wf(),
            src.morph_on_bump matches Some(t) ==> t <= old(self).obj_types@.len(),
        ensures
            final(self).wf(),
            r == old(self).obj_types@.len(),
            final(self).obj_types@.len() == old(self).obj_types@.len() + 1,
            final(self).obj_types@.drop_last() == old(self).obj_types@,
            final(self).obj_types@.last() == src,
            final(self).atlas == old(self).atlas,
            final(self).actor_types == old(self).actor_types,
            final(self).terrain_types == old(self).terrain_types,
            final(self).obj_close == old(self).obj_close,
    {
        let ret = self.obj_types.len();
        self.obj_types.push(src);
        ret
    }

    /// The handle of an object kind with the given name, if one exists.
    pub fn get_map_object_model(&self, _name: &str) -> (r: Option<usize>)
        ensures
            r matches Some(i) ==> i < self.obj_types@.len() && self.obj_types@[i as int].name@
                == _name@ && (forall|j: int| 0 <= j < i ==> (#[trigger] self.obj_types@[j]).name@
                != _name@),
            r is None ==> forall|i: int| 0 <= i < self.obj_types@.len()
                ==> (#[trigger] self.obj_types@[i]).name@ != _name@,
    {
        let mut i: usize = 0;
        while i < self.obj_types.len()
            invariant
                0 <= i <= self.obj_types@.len(),
                forall|j: int| 0 <= j < i ==> (#[trigger] self.obj_types@[j]).name@ != _name@,
            decreases self.obj_types@.len() - i,
        {
            if self.obj_types[i].is_named(_name) {
                return Some(i);
            }
            i = i + 1;
        }
        None
    }

    /// Registers a terrain kind and returns its handle.
    pub fn new_terrain(
        &mut self,
        _name: &str,
        _tile: TileSpec,
        _walkable: bool,
        _transparent: bool,
    ) -> (r: usize)
        requires
            old(self).wf(),
        ensures
            final(self).wf(),
            r == old(self).terrain_types@.len(),
            final(self).terrain_types@.len() == old(self).terrain_types@.len() + 1,
            final(self).terrain_types@.drop_last() == old(self).terrain_types@,
            final(self).terrain_types@.last().name@ == _name@,
            final(self).terrain_types@.last().walkable == _walkable,
            final(self).terrain_types@.last().transparent == _transparent,
            final(self).terrain_types@.last().tile == _tile,
            final(self).atlas == old(self).atlas,
            final(self).actor_types == old(self).actor_types,
            final(self).obj_types == old(self).obj_types,
            final(self).obj_close == old(self).obj_close,
    {
        let ret = self.terrain_types.len();
        self.terrain_types.push(Terrain::new(_name, _tile, _walkable, _transparent));
        ret
    }

    /// Registers a closing rule: an open kind and the closed kind it may
    /// be returned to.
    pub fn add_closable(&mut self, open_model: usize, closed_model: usize)
        requires
            old(self).wf(),
            open_model < old(self).obj_types@.len(),
            closed_model < old(self).obj_types@.len(),
        ensures
            final(self).wf(),
            final(self).obj_close@ == old(self).obj_close@.push((open_model, closed_model)),
            final(self).atlas == old(self).atlas,
            final(self).actor_types == old(self).actor_types,
            final(self).obj_types == old(self).obj_types,
            final(self).terrain_types == old(self).terrain_types,
    {
        self.obj_close.push((open_model, closed_model));
    }

    /// Validates a location against its map's bounds: in-bounds locations
    /// come back unchanged, anything else is absent. (Translation into a
    /// neighboring map's coordinate space is an unimplemented extension.)
    pub fn canonical_loc(&self, viewpoint: Location) -> (r: Option<Location>)
        ensures
            r == if viewpoint.map < self.atlas@.len() && self.atlas@[viewpoint.map as int].in_bounds_spec(
                viewpoint.pos[0] as int,
                viewpoint.pos[1] as int,
            ) {
                Some(viewpoint)
            } else {
                None::<Location>
            },
    {
        if viewpoint.map < self.atlas.len() && self.atlas[viewpoint.map].in_bounds(viewpoint.pos) {
            Some(viewpoint)
        } else {
            None
        }
    }

    /// Keeps a location only if it already lies in the viewpoint map's
    /// coordinate space. (Cross-map translation is an unimplemented
    /// extension.)
    pub fn coerce_map(&self, src: Location, viewpoint: usize) -> (r: Option<Location>)
        ensures
            r == if src.map == viewpoint {
                Some(src)
            } else {
                None::<Location>
            },
    {
        if src.map == viewpoint {
            Some(src)
        } else {
            None
        }
    }

    /// Composes a screen-space offset with a reference location and
    /// validates the result.
    pub fn screen_to_loc(&self, src: [i32; 2], topleft: &Location) -> (r: Option<Location>)
        requires
            self.wf(),
        ensures
            r matches Some(loc) ==> {
                &&& loc.map == topleft.map
                &&& loc.pos[0] == topleft.pos[0] + src[0]
                &&& loc.pos[1] == topleft.pos[1] + src[1]
                &&& loc.map < self.atlas@.len()
                &&& self.atlas@[loc.map as int].in_bounds_spec(loc.pos[0] as int, loc.pos[1] as int)
            },
            r is None ==> !(topleft.map < self.atlas@.len()
                && self.atlas@[topleft.map as int].in_bounds_spec(
                topleft.pos[0] + src[0],
                topleft.pos[1] + src[1],
            )),
    {
        let x: i64 = topleft.pos[0] as i64 + src[0] as i64;
        let y: i64 = topleft.pos[1] as i64 + src[1] as i64;
        if x < i32::MIN as i64 || x > i32::MAX as i64 || y < i32::MIN as i64 || y > i32::MAX as i64 {
            return None;
        }
        self.canonical_loc(Location { map: topleft.map, pos: [x as i32, y as i32] })
    }

    /// The top-left corner of the fixed-size viewport centered on the
    /// given in-bounds location, slid so that it stays on the map wherever
    /// the map is big enough. The origin never goes negative, and on a map
    /// at least as wide and tall as the viewport the whole viewport fits.
    pub fn loc_to_td_camera(&self, center: Location) -> (r: Location)
        requires
            self.wf(),
            center.map < self.atlas@.len(),
            self.atlas@[center.map as int].in_bounds_spec(center.pos[0] as int, center.pos[1] as int),
        ensures
            r.map == center.map,
            r.pos[0] == camera_origin(center.pos[0] as int, self.atlas@[center.map as int].dim[0] as int),
            r.pos[1] == camera_origin(center.pos[1] as int, self.atlas@[center.map as int].dim[1] as int),
            r.pos[0] >= 0 && r.pos[1] >= 0,
            self.atlas@[center.map as int].dim[0] >= VIEW ==> r.pos[0] + VIEW
                <= self.atlas@[center.map as int].dim[0],
            self.atlas@[center.map as int].dim[1] >= VIEW ==> r.pos[1] + VIEW
                <= self.atlas@[center.map as int].dim[1],
    {
        let m = &self.atlas[center.map];
        let wx: i64 = center.pos[0] as i64 - VIEW_RADIUS as i64;
        let wy: i64 = center.pos[1] as i64 - VIEW_RADIUS as i64;
        let lx: i64 = m.dim[0] as i64 - VIEW as i64;
        let ly: i64 = m.dim[1] as i64 - VIEW as i64;
        let mx: i64 = if wx <= lx {
            wx
        } else {
            lx
        };
        let my: i64 = if wy <= ly {
            wy
        } else {
            ly
        };
        let ox: i64 = if mx <= 0 {
            0
        } else {
            mx
        };
        let oy: i64 = if my <= 0 {
            0
        } else {
            my
        };
        Location { map: center.map, pos: [ox as i32, oy as i32] }
    }

    /// The closed kind an object of this kind may be returned to, by the
    /// first matching closing rule.
    pub fn is_closable_map_object(&self, obj: &MapObject) -> (r: Option<usize>)
        ensures
            r == closable_from(self.obj_close@, obj.model as int, 0),
    {
        let mut i: usize = 0;
        while i < self.obj_close.len()
            invariant
                0 <= i <= self.obj_close@.len(),
                closable_from(self.obj_close@, obj.model as int, 0) == closable_from(
                    self.obj_close@,
                    obj.model as int,
                    i as int,
                ),
            decreases self.obj_close@.len() - i,
        {
            let pair = self.obj_close[i];
            if pair.0 == obj.model {
                return Some(pair.1);
            }
            i = i + 1;
        }
        None
    }
}


/// One scheduling round applied to a map: every actor gained one round of
/// energy and nothing else changed.
pub open spec fn postprocessed(a: crate::gps::GameMap, b: crate::gps::GameMap) -> bool {
    &&& a.actors@.len() == b.actors@.len()
    &&& forall|i: int| 0 <= i < b.actors@.len() ==> {
        let x = #[trigger] a.actors@[i];
        let y = b.actors@[i];
        &&& x.ap == clamp_i16(y.ap + y.base_ap)
        &&& x.model == y.model
        &&& x.base_ap == y.base_ap
        &&& x.my_loc == y.my_loc
        &&& x.is_pc == y.is_pc
    }
    &&& a.dim == b.dim
    &&& a.name == b.name
    &&& a.objects == b.objects
    &&& a.terrain == b.terrain
}

/// The energy balance after k whole scheduling rounds at a fixed rate,
/// each round clamped into the i16 range.
pub open spec fn regen(ap: int, rate: int, k: nat) -> int
    decreases k,
{
    if k == 0 {
        ap
    } else {
        clamp_i16(regen(ap, rate, (k - 1) as nat) + rate)
    }
}

/// The whole world after k scheduling rounds: every map keeps its grid,
/// objects and name, every actor keeps its kind, place and player flag,
/// and every energy balance has been regenerated exactly k rounds.
pub open spec fn regenerated(
    olda: Seq<crate::gps::GameMap>,
    newa: Seq<crate::gps::GameMap>,
    k: nat,
) -> bool {
    &&& newa.len() == olda.len()
    &&& forall|m: int| 0 <= m < olda.len() ==> {
        let a = #[trigger] newa[m];
        let b = olda[m];
        &&& a.dim == b.dim
        &&& a.name == b.name
        &&& a.objects == b.objects
        &&& a.terrain == b.terrain
        &&& a.actors@.len() == b.actors@.len()
        &&& forall|j: int| 0 <= j < b.actors@.len() ==> {
            let x = #[trigger] a.actors@[j];
            let y = b.actors@[j];
            &&& x.model == y.model
            &&& x.base_ap == y.base_ap
            &&& x.my_loc == y.my_loc
            &&& x.is_pc == y.is_pc
            &&& x.ap == regen(y.ap as int, y.base_ap as int, k)
        }
    }
}

/// One more scheduling round extends the regeneration count by one.
proof fn lemma_regen_step(
    olda: Seq<crate::gps::GameMap>,
    mid: Seq<crate::gps::GameMap>,
    newa: Seq<crate::gps::GameMap>,
    k: nat,
)
    requires
        regenerated(olda, mid, k),
        newa.len() == mid.len(),
        forall|m: int| 0 <= m < mid.len() ==> postprocessed(#[trigger] newa[m], mid[m]),
    ensures
        regenerated(olda, newa, k + 1),
{
    assert forall|m: int| 0 <= m < olda.len() implies {
        let a = #[trigger] newa[m];
        let b = olda[m];
        &&& a.dim == b.dim
        &&& a.name == b.name
        &&& a.objects == b.objects
        &&& a.terrain == b.terrain
        &&& a.actors@.len() == b.actors@.len()
        &&& forall|j: int| 0 <= j < b.actors@.len() ==> {
            let x = #[trigger] a.actors@[j];
            let y = b.actors@[j];
            &&& x.model == y.model
            &&& x.base_ap == y.base_ap
            &&& x.my_loc == y.my_loc
            &&& x.is_pc == y.is_pc
            &&& x.ap == regen(y.ap as int, y.base_ap as int, k + 1)
        }
    } by {
        assert(postprocessed(newa[m], mid[m]));
        assert forall|j: int| 0 <= j < olda[m].actors@.len() implies {
            let x = #[trigger] newa[m].actors@[j];
            let y = olda[m].actors@[j];
            &&& x.model == y.model
            &&& x.base_ap == y.base_ap
            &&& x.my_loc == y.my_loc
            &&& x.is_pc == y.is_pc
            &&& x.ap == regen(y.ap as int, y.base_ap as int, k + 1)
        } by {
            assert(mid[m].actors@[j].ap == regen(
                olda[m].actors@[j].ap as int,
                olda[m].actors@[j].base_ap as int,
                k,
            ));
        }
    }
}

/// The deficit never goes negative.
proof fn lemma_deficit_nonneg(atlas: Seq<crate::gps::GameMap>)
    ensures
        first_actor_deficit(atlas) >= 0,
    decreases atlas.len(),
{
    if atlas.len() > 0 && atlas[0].actors@.len() == 0 {
        lemma_deficit_nonneg(atlas.drop_first());
    }
}

/// While every actor is still short of energy, a scheduling round strictly
/// shrinks the deficit: each actor's rate is at least one point.
proof fn lemma_postprocess_deficit(olda: Seq<crate::gps::GameMap>, newa: Seq<crate::gps::GameMap>)
    requires
        newa.len() == olda.len(),
        forall|m: int| 0 <= m < olda.len() ==> postprocessed(#[trigger] newa[m], olda[m]),
        forall|m: int, j: int| 0 <= m < olda.len() && 0 <= j < olda[m].actors@.len()
            ==> (#[trigger] olda[m].actors@[j]).base_ap >= 1,
        exists|m: int| 0 <= m < olda.len() && (#[trigger] olda[m]).actors@.len() > 0,
        forall|m: int, j: int| 0 <= m < olda.len() && 0 <= j < olda[m].actors@.len()
            ==> (#[trigger] olda[m].actors@[j]).ap < 0,
    ensures
        first_actor_deficit(newa) < first_actor_deficit(olda),
    decreases olda.len(),
{
    lemma_deficit_nonneg(newa);
    if olda[0].actors@.len() > 0 {
        assert(olda[0].actors@[0].ap < 0);
        assert(olda[0].actors@[0].base_ap >= 1);
        assert(newa[0].actors@[0].ap == clamp_i16(olda[0].actors@[0].ap + olda[0].actors@[0].base_ap));
    } else {
        assert(newa[0].actors@.len() == 0);
        let m0 = choose|m: int| 0 <= m < olda.len() && (#[trigger] olda[m]).actors@.len() > 0;
        assert(m0 >= 1);
        assert forall|m: int| 0 <= m < olda.drop_first().len() implies postprocessed(
            #[trigger] newa.drop_first()[m],
            olda.drop_first()[m],
        ) by {
            assert(postprocessed(newa[m + 1], olda[m + 1]));
        }
        assert forall|m: int, j: int|
            0 <= m < olda.drop_first().len() && 0 <= j < olda.drop_first()[m].actors@.len()
            implies (#[trigger] olda.drop_first()[m].actors@[j]).base_ap >= 1 && olda.drop_first()[m].actors@[j].ap
            < 0 by {
            assert(olda[m + 1].actors@[j].base_ap >= 1);
            assert(olda[m + 1].actors@[j].ap < 0);
        }
        assert(olda.drop_first()[m0 - 1].actors@.len() > 0);
        lemma_postprocess_deficit(olda.drop_first(), newa.drop_first());
    }
}

impl World {
    /// One scheduling round across every map: every actor everywhere
    /// gains energy at its base rate. Returns whether the whole world has
    /// no actors at all.
    pub fn turn_postprocess(&mut self) -> (r: bool)
        requires
            old(self).wf(),
        ensures
            final(self).wf(),
            r == (forall|m: int| 0 <= m < old(self).atlas@.len() ==> (#[trigger] old(self).atlas@[m]).actors@.len()
                == 0),
            final(self).atlas@.len() == old(self).atlas@.len(),
            forall|m: int| 0 <= m < old(self).atlas@.len() ==> postprocessed(
                #[trigger] final(self).atlas@[m],
                old(self).atlas@[m],
            ),
            final(self).actor_types == old(self).actor_types,
            final(self).obj_types == old(self).obj_types,
            final(self).terrain_types == old(self).terrain_types,
            final(self).obj_close == old(self).obj_close,
    {
        let mut no_actors = true;
        let n = self.atlas.len();
        let mut m: usize = 0;
        while m < n
            invariant
                0 <= m <= n,
                n == self.atlas@.len(),
                n == old(self).atlas@.len(),
                forall|k: int| m <= k < n ==> self.atlas@[k] == old(self).atlas@[k],
                forall|k: int| 0 <= k < m ==> postprocessed(
                    #[trigger] self.atlas@[k],
                    old(self).atlas@[k],
                ),
                no_actors == (forall|k: int| 0 <= k < m ==> (#[trigger] old(self).atlas@[k]).actors@.len()
                    == 0),
                self.actor_types == old(self).actor_types,
                self.obj_types == old(self).obj_types,
                self.terrain_types == old(self).terrain_types,
                self.obj_close == old(self).obj_close,
                old(self).wf(),
            decreases n - m,
        {
            let is_empty = {
                let mp = &mut self.atlas[m];
                mp.turn_postprocess()
            };
            if !is_empty {
                no_actors = false;
            }
            m = m + 1;
        }
        proof {
            assert forall|k: int| 0 <= k < self.atlas@.len() implies {
                &&& (#[trigger] self.atlas@[k]).wf()
                &&& self.atlas@[k].terrain_ids_ok(self.terrain_types@.len() as int)
                &&& self.atlas@[k].object_ids_ok(self.obj_types@.len() as int)
                &&& self.atlas@[k].actor_models_ok(self.actor_types@)
            } by {
                assert(postprocessed(self.atlas@[k], old(self).atlas@[k]));
                assert(old(self).atlas@[k].wf());
                assert(old(self).atlas@[k].actor_models_ok(old(self).actor_types@));
            }
        }
        no_actors
    }

    /// The first ready actor in map order, if any actor anywhere has
    /// non-negative energy.
    #[allow(non_snake_case)]
    pub fn _next_actor(&self) -> (r: Option<(usize, usize)>)
        ensures
            r matches Some(h) ==> h.0 < self.atlas@.len() && h.1 < self.atlas@[h.0 as int].actors@.len()
                && self.atlas@[h.0 as int].actors@[h.1 as int].ap >= 0,
            r matches Some(h) ==> (forall|m: int, j: int|
                #![trigger self.atlas@[m].actors@[j]]
                0 <= m < h.0 && 0 <= j < self.atlas@[m].actors@.len() ==> self.atlas@[m].actors@[j].ap
                    < 0) && (forall|j: int| 0 <= j < h.1
                ==> #[trigger] self.atlas@[h.0 as int].actors@[j].ap < 0),
            r is None ==> forall|m: int, j: int|
                #![trigger self.atlas@[m].actors@[j]]
                0 <= m < self.atlas@.len() && 0 <= j < self.atlas@[m].actors@.len()
                    ==> self.atlas@[m].actors@[j].ap < 0,
    {
        let mut m: usize = 0;
        while m < self.atlas.len()
            invariant
                0 <= m <= self.atlas@.len(),
                forall|k: int, j: int|
                    #![trigger self.atlas@[k].actors@[j]]
                    0 <= k < m && 0 <= j < self.atlas@[k].actors@.len() ==> self.atlas@[k].actors@[j].ap
                        < 0,
            decreases self.atlas@.len() - m,
        {
            match self.atlas[m].next_actor() {
                Some(i) => {
                    return Some((m, i));
                },
                None => {},
            }
            m = m + 1;
        }
        None
    }

    /// The next actor entitled to act: the first ready one in the fixed
    /// scan order (maps in registration order, actors in placement order).
    /// When nobody is ready, every actor everywhere regenerates one round
    /// and the scan repeats; apart from those whole rounds of energy,
    /// nothing in the world changes. Yields nothing exactly when the whole
    /// world holds no actors, since every round strictly raises every
    /// energy balance.
    pub fn next_actor(&mut self) -> (r: Option<(usize, usize)>)
        requires
            old(self).wf(),
        ensures
            final(self).wf(),
            (r is None) <==> (forall|m: int| 0 <= m < old(self).atlas@.len()
                ==> (#[trigger] old(self).atlas@[m]).actors@.len() == 0),
            r matches Some(h) ==> h.0 < final(self).atlas@.len() && h.1 < final(self).atlas@[h.0 as int].actors@.len()
                && final(self).atlas@[h.0 as int].actors@[h.1 as int].ap >= 0,
            r matches Some(h) ==> (forall|m: int, j: int|
                #![trigger final(self).atlas@[m].actors@[j]]
                0 <= m < h.0 && 0 <= j < final(self).atlas@[m].actors@.len()
                    ==> final(self).atlas@[m].actors@[j].ap < 0) && (forall|j: int| 0 <= j < h.1
                ==> #[trigger] final(self).atlas@[h.0 as int].actors@[j].ap < 0),
            exists|k: nat| #[trigger] regenerated(old(self).atlas@, final(self).atlas@, k),
            final(self).atlas@.len() == old(self).atlas@.len(),
            forall|m: int| 0 <= m < old(self).atlas@.len() ==> (#[trigger] final(self).atlas@[m]).actors@.len()
                == old(self).atlas@[m].actors@.len(),
            final(self).actor_types == old(self).actor_types,
            final(self).obj_types == old(self).obj_types,
            final(self).terrain_types == old(self).terrain_types,
            final(self).obj_close == old(self).obj_close,
    {
        let ghost mut rounds: nat = 0;
        proof {
            assert(regenerated(old(self).atlas@, self.atlas@, 0));
        }
        loop
            invariant
                self.wf(),
                self.atlas@.len() == old(self).atlas@.len(),
                forall|m: int| 0 <= m < old(self).atlas@.len() ==> (#[trigger] self.atlas@[m]).actors@.len()
                    == old(self).atlas@[m].actors@.len(),
                regenerated(old(self).atlas@, self.atlas@, rounds),
                self.actor_types == old(self).actor_types,
                self.obj_types == old(self).obj_types,
                self.terrain_types == old(self).terrain_types,
                self.obj_close == old(self).obj_close,
            decreases first_actor_deficit(self.atlas@),
        {
            let r_act = self._next_actor();
            match r_act {
                Some(h) => {
                    proof {
                        assert(self.atlas@[h.0 as int].actors@.len() > 0);
                        assert(old(self).atlas@[h.0 as int].actors@.len() > 0);
                        assert(regenerated(old(self).atlas@, self.atlas@, rounds));
                    }
                    return Some(h);
                },
                None => {},
            }
            let ghost pre = self.atlas@;
            if self.turn_postprocess() {
                proof {
                    assert forall|m: int| 0 <= m < old(self).atlas@.len() implies (#[trigger] old(
                        self,
                    ).atlas@[m]).actors@.len() == 0 by {
                        assert(pre[m].actors@.len() == 0);
                    }
                    lemma_regen_step(old(self).atlas@, pre, self.atlas@, rounds);
                    rounds = rounds + 1;
                }
                return None;
            }
            proof {
                lemma_deficit_nonneg(self.atlas@);
                let m0 = choose|m: int| 0 <= m < pre.len() && (#[trigger] pre[m]).actors@.len() > 0;
                assert forall|m: int, j: int|
                    0 <= m < pre.len() && 0 <= j < pre[m].actors@.len() implies (#[trigger] pre[m].actors@[j]).base_ap
                    >= 1 by {
                    assert(pre[m].actor_models_ok(self.actor_types@));
                }
                lemma_postprocess_deficit(pre, self.atlas@);
                lemma_regen_step(old(self).atlas@, pre, self.atlas@, rounds);
                rounds = rounds + 1;
            }
        }
    }
}



/// The cell one step from `o` in direction d holds an object some closing
/// rule applies to.
pub open spec fn closable_neighbor(w: World, o: Location, d: Compass) -> bool {
    let mm = w.atlas@[o.map as int];
    let nx = o.pos[0] + crate::gps::compass_vector(d).0;
    let ny = o.pos[1] + crate::gps::compass_vector(d).1;
    &&& mm.in_bounds_spec(nx, ny)
    &&& (mm.objects@[crate::gps::flat_idx(mm.dim[0] as int, nx, ny)] matches Some(ob)
        && closable_from(w.obj_close@, ob.model as int, 0) is Some)
}


/// A closed kind yielded by a closing rule is one of the rules' targets.
proof fn lemma_closable_member(pairs: Seq<(usize, usize)>, model: int, i: int)
    ensures
        closable_from(pairs, model, i) matches Some(d) ==> exists|j: int| 0 <= j < pairs.len()
            && (#[trigger] pairs[j]).1 == d,
    decreases pairs.len() - i,
{
    if 0 <= i < pairs.len() && pairs[i].0 != model {
        lemma_closable_member(pairs, model, i + 1);
    }
}

impl World {
    /// The locations adjacent to `o` that hold an object a closing rule
    /// applies to: exactly the eight neighbors, in compass-index order,
    /// that are on the map and carry a closable object.
    #[verifier::loop_isolation(false)]
    pub fn get_closable_locations(&self, o: &Location) -> (r: Vec<Location>)
        requires
            self.wf(),
            o.map < self.atlas@.len(),
            self.atlas@[o.map as int].in_bounds_spec(o.pos[0] as int, o.pos[1] as int),
        ensures
            forall|t: int| 0 <= t < r@.len() ==> {
                let loc = #[trigger] r@[t];
                let mm = self.atlas@[o.map as int];
                &&& loc.map == o.map
                &&& (exists|d: Compass| #[trigger] crate::gps::compass_vector(d) == (
                    loc.pos[0] - o.pos[0],
                    loc.pos[1] - o.pos[1],
                ))
                &&& mm.in_bounds_spec(loc.pos[0] as int, loc.pos[1] as int)
                &&& (mm.objects@[crate::gps::flat_idx(
                    mm.dim[0] as int,
                    loc.pos[0] as int,
                    loc.pos[1] as int,
                )] matches Some(ob) && closable_from(self.obj_close@, ob.model as int, 0) is Some)
            },
            forall|d: Compass| #[trigger] closable_neighbor(*self, *o, d) ==> exists|t: int|
                0 <= t < r@.len() && (#[trigger] r@[t]).pos[0] == o.pos[0]
                    + crate::gps::compass_vector(d).0 && r@[t].pos[1] == o.pos[1]
                    + crate::gps::compass_vector(d).1,
            forall|t1: int, t2: int| 0 <= t1 < t2 < r@.len() ==> ((#[trigger] r@[t1]).pos[0]
                != (#[trigger] r@[t2]).pos[0] || r@[t1].pos[1] != r@[t2].pos[1]),
    {
        let mut ret: Vec<Location> = Vec::new();
        let mut i: i32 = 0;
        while i < 8
            invariant
                0 <= i <= 8,
                forall|t: int| 0 <= t < ret@.len() ==> {
                    let loc = #[trigger] ret@[t];
                    let mm = self.atlas@[o.map as int];
                    &&& loc.map == o.map
                    &&& (exists|d: Compass| #[trigger] crate::gps::compass_vector(d) == (
                        loc.pos[0] - o.pos[0],
                        loc.pos[1] - o.pos[1],
                    ) && crate::gps::compass_index(d) < i)
                    &&& mm.in_bounds_spec(loc.pos[0] as int, loc.pos[1] as int)
                    &&& (mm.objects@[crate::gps::flat_idx(
                        mm.dim[0] as int,
                        loc.pos[0] as int,
                        loc.pos[1] as int,
                    )] matches Some(ob) && closable_from(self.obj_close@, ob.model as int, 0)
                        is Some)
                },
                forall|t1: int, t2: int| 0 <= t1 < t2 < ret@.len() ==> ((#[trigger] ret@[t1]).pos[0]
                    != (#[trigger] ret@[t2]).pos[0] || ret@[t1].pos[1] != ret@[t2].pos[1]),
                forall|d: Compass| crate::gps::compass_index(d) < i && #[trigger] closable_neighbor(
                    *self,
                    *o,
                    d,
                ) ==> exists|t: int| 0 <= t < ret@.len() && (#[trigger] ret@[t]).pos[0] == o.pos[0]
                    + crate::gps::compass_vector(d).0 && ret@[t].pos[1] == o.pos[1]
                    + crate::gps::compass_vector(d).1,
            decreases 8 - i,
        {
            let dir = match crate::gps::Compass::try_from(i) {
                Ok(d) => d,
                Err(_) => {
                    proof {
                        assert(false);
                    }
                    vstd::pervasive::unreached()
                },
            };
            let test = o.add_compass(dir);
            let ghost ret0 = ret@;
            let mut pushed: bool = false;
            let mm = &self.atlas[o.map];
            if mm.in_bounds(test.pos) {
                match mm.get_map_object(test.pos) {
                    Some(obj) => {
                        match self.is_closable_map_object(&obj) {
                            Some(_dest) => {
                                ret.push(test);
                                pushed = true;
                            },
                            None => {},
                        }
                    },
                    None => {},
                }
            }
            proof {
                assert(!pushed ==> ret@ == ret0);
                assert(!pushed ==> !closable_neighbor(*self, *o, dir));
                crate::gps::lemma_compass_vector_round_trip(dir);
                assert forall|t1: int, t2: int| 0 <= t1 < t2 < ret@.len() implies ((
                #[trigger] ret@[t1]).pos[0] != (#[trigger] ret@[t2]).pos[0] || ret@[t1].pos[1]
                    != ret@[t2].pos[1]) by {
                    if pushed && t2 == ret@.len() - 1 {
                        let d1 = choose|d1: Compass|
                            crate::gps::compass_vector(d1) == (
                                ret0[t1].pos[0] - o.pos[0],
                                ret0[t1].pos[1] - o.pos[1],
                            ) && crate::gps::compass_index(d1) < i;
                        if ret@[t1].pos[0] == ret@[t2].pos[0] && ret@[t1].pos[1]
                            == ret@[t2].pos[1] {
                            assert(crate::gps::compass_vector(d1) == crate::gps::compass_vector(
                                dir,
                            ));
                            assert(d1 == dir);
                        }
                    }
                }
                assert forall|d: Compass|
                    crate::gps::compass_index(d) < i + 1 && #[trigger] closable_neighbor(
                        *self,
                        *o,
                        d,
                    ) implies exists|t: int| 0 <= t < ret@.len() && (#[trigger] ret@[t]).pos[0]
                    == o.pos[0] + crate::gps::compass_vector(d).0 && ret@[t].pos[1] == o.pos[1]
                    + crate::gps::compass_vector(d).1 by {
                    if crate::gps::compass_index(d) == crate::gps::compass_index(dir) {
                        assert(d == dir) by {
                            match (d, dir) {
                                _ => {},
                            }
                        }
                        assert(pushed);
                        assert(ret@[ret@.len() - 1].pos[0] == o.pos[0]
                            + crate::gps::compass_vector(d).0 && ret@[ret@.len() - 1].pos[1]
                            == o.pos[1] + crate::gps::compass_vector(d).1);
                    } else {
                        assert(crate::gps::compass_index(d) < i);
                        let t = choose|t: int|
                            0 <= t < ret0.len() && (#[trigger] ret0[t]).pos[0] == o.pos[0]
                                + crate::gps::compass_vector(d).0 && ret0[t].pos[1] == o.pos[1]
                                + crate::gps::compass_vector(d).1;
                        assert(ret@[t] == ret0[t]);
                    }
                }
            }
            i = i + 1;
        }
        proof {
            assert forall|d: Compass| #[trigger] crate::gps::compass_index(d) < 8 by {
                match d {
                    _ => {},
                }
            }
        }
        ret
    }

    /// Applies the first matching closing rule to the object at `o`: the
    /// object's kind is replaced by the closed kind and true comes back;
    /// with no object or no applicable rule nothing changes.
    pub fn close(&mut self, o: &Location, _act: &Actor) -> (r: bool)
        requires
            old(self).wf(),
            o.map < old(self).atlas@.len(),
            old(self).atlas@[o.map as int].in_bounds_spec(o.pos[0] as int, o.pos[1] as int),
        ensures
            final(self).wf(),
            ({
                let m0 = old(self).atlas@[o.map as int];
                let idx = crate::gps::flat_idx(m0.dim[0] as int, o.pos[0] as int, o.pos[1] as int);
                match m0.objects@[idx] {
                    Some(ob) => match closable_from(old(self).obj_close@, ob.model as int, 0) {
                        Some(dest) => {
                            &&& r == true
                            &&& final(self).atlas@[o.map as int].objects@ == m0.objects@.update(
                                idx,
                                Some(MapObject { model: dest, my_loc: *o }),
                            )
                            &&& final(self).atlas@[o.map as int].terrain == m0.terrain
                            &&& final(self).atlas@[o.map as int].actors == m0.actors
                            &&& final(self).atlas@[o.map as int].dim == m0.dim
                            &&& final(self).atlas@[o.map as int].name == m0.name
                            &&& forall|k: int| 0 <= k < old(self).atlas@.len() && k != o.map
                                ==> #[trigger] final(self).atlas@[k] == old(self).atlas@[k]
                            &&& final(self).atlas@.len() == old(self).atlas@.len()
                        },
                        None => r == false && *final(self) == *old(self),
                    },
                    None => r == false && *final(self) == *old(self),
                }
            }),
            final(self).actor_types == old(self).actor_types,
            final(self).obj_types == old(self).obj_types,
            final(self).terrain_types == old(self).terrain_types,
            final(self).obj_close == old(self).obj_close,
    {
        let obj = self.atlas[o.map].get_map_object(o.pos);
        match obj {
            Some(ob) => {
                match self.is_closable_map_object(&ob) {
                    Some(dest) => {
                        proof {
                            lemma_closable_member(self.obj_close@, ob.model as int, 0);
                        }
                        let ghost idx = crate::gps::flat_idx(
                            old(self).atlas@[o.map as int].dim[0] as int,
                            o.pos[0] as int,
                            o.pos[1] as int,
                        );
                        let mm = &mut self.atlas[o.map];
                        mm.set_map_object(MapObject { model: dest, my_loc: *o });
                        proof {
                            crate::gps::lemma_flat_idx_bounds(
                                old(self).atlas@[o.map as int].dim[0] as int,
                                old(self).atlas@[o.map as int].dim[1] as int,
                                o.pos[0] as int,
                                o.pos[1] as int,
                            );
                            assert(dest < self.obj_types@.len());
                            assert(self.atlas@[o.map as int].objects@ == old(
                                self,
                            ).atlas@[o.map as int].objects@.update(
                                idx,
                                Some(MapObject { model: dest, my_loc: *o }),
                            ));
                            assert forall|k: int| 0 <= k < self.atlas@.len() implies {
                                &&& (#[trigger] self.atlas@[k]).wf()
                                &&& self.atlas@[k].terrain_ids_ok(self.terrain_types@.len() as int)
                                &&& self.atlas@[k].object_ids_ok(self.obj_types@.len() as int)
                                &&& self.atlas@[k].actor_models_ok(self.actor_types@)
                            } by {
                                assert(old(self).atlas@[k].wf());
                                assert(old(self).atlas@[k].object_ids_ok(
                                    self.obj_types@.len() as int,
                                ));
                                if k == o.map {
                                    assert forall|c: int| 0 <= c < self.atlas@[k].objects@.len()
                                        implies (#[trigger] self.atlas@[k].objects@[c] matches Some(
                                        oo,
                                    ) ==> oo.model < self.obj_types@.len()) by {
                                        if self.atlas@[k].objects@[c] != old(
                                            self,
                                        ).atlas@[k].objects@[c] {
                                            assert(self.atlas@[k].objects@[c] == Some(
                                                MapObject { model: dest, my_loc: *o },
                                            ));
                                        }
                                    }
                                }
                            }
                        }
                        true
                    },
                    None => false,
                }
            },
            None => false,
        }
    }

    /// Line of sight between two locations: whether the target was
    /// reached, and the cells the trace visited. Two locations on
    /// different maps never see each other, and then no cell is visited.
    pub fn los(&self, from: &Location, to: &Location) -> (r: (bool, Vec<crate::gps::Point<i32>>))
        requires
            self.wf(),
        ensures
            !(from.map == to.map && from.map < self.atlas@.len()) ==> !r.0 && r.1@.len() == 0,
            from.map == to.map && from.map < self.atlas@.len() ==> ({
                let m = self.atlas@[from.map as int];
                &&& r.1@.len() >= 1
                &&& r.1@[0] == (crate::gps::Point { x: from.pos[0], y: from.pos[1] })
                &&& (forall|j: int| 0 < j < r.1@.len() ==> crate::los::adjacent_step(
                    r.1@[j - 1],
                    #[trigger] r.1@[j],
                ))
                &&& (forall|j: int| 0 < j < r.1@.len() ==> crate::gps::vis_spec(
                    m,
                    self.terrain_types@,
                    self.obj_types@,
                    to.pos[0] as int,
                    to.pos[1] as int,
                    #[trigger] r.1@[j],
                ))
                &&& (r.0 <==> r.1@.last() == (crate::gps::Point { x: to.pos[0], y: to.pos[1] }))
                &&& (!r.0 ==> exists|q: crate::gps::Point<i32>| crate::los::adjacent_step(
                    r.1@.last(),
                    q,
                ) && !crate::gps::vis_spec(
                    m,
                    self.terrain_types@,
                    self.obj_types@,
                    to.pos[0] as int,
                    to.pos[1] as int,
                    q,
                ))
            }),
    {
        if from.map != to.map || from.map >= self.atlas.len() {
            return (false, Vec::new());
        }
        self.atlas[from.map].los(&self.terrain_types, &self.obj_types, &from.pos, &to.pos)
    }

    /// Line of sight considering terrain occlusion; currently the same
    /// trace as `los`.
    pub fn los_terrain(&self, from: &Location, to: &Location) -> (r: (bool, Vec<
        crate::gps::Point<i32>,
    >))
        requires
            self.wf(),
        ensures
            !(from.map == to.map && from.map < self.atlas@.len()) ==> !r.0 && r.1@.len() == 0,
            from.map == to.map && from.map < self.atlas@.len() ==> ({
                let m = self.atlas@[from.map as int];
                &&& r.1@.len() >= 1
                &&& r.1@[0] == (crate::gps::Point { x: from.pos[0], y: from.pos[1] })
                &&& (forall|j: int| 0 < j < r.1@.len() ==> crate::los::adjacent_step(
                    r.1@[j - 1],
                    #[trigger] r.1@[j],
                ))
                &&& (forall|j: int| 0 < j < r.1@.len() ==> crate::gps::vis_spec(
                    m,
                    self.terrain_types@,
                    self.obj_types@,
                    to.pos[0] as int,
                    to.pos[1] as int,
                    #[trigger] r.1@[j],
                ))
                &&& (r.0 <==> r.1@.last() == (crate::gps::Point { x: to.pos[0], y: to.pos[1] }))
                &&& (!r.0 ==> exists|q: crate::gps::Point<i32>| crate::los::adjacent_step(
                    r.1@.last(),
                    q,
                ) && !crate::gps::vis_spec(
                    m,
                    self.terrain_types@,
                    self.obj_types@,
                    to.pos[0] as int,
                    to.pos[1] as int,
                    q,
                ))
            }),
    {
        if from.map != to.map || from.map >= self.atlas.len() {
            return (false, Vec::new());
        }
        self.atlas[from.map].los_terrain(&self.terrain_types, &self.obj_types, &from.pos, &to.pos)
    }

    /// Places a fresh actor of the given kind at a screen offset from the
    /// camera anchor, if that lands on a valid cell; the handle identifies
    /// the map and the actor's index on it.
    pub fn new_actor(&mut self, _model: usize, _camera: &Location, _pos: [i32; 2]) -> (r: Option<
        (usize, usize),
    >)
        requires
            old(self).wf(),
            _model < old(self).actor_types@.len(),
        ensures
            final(self).wf(),
            r is None ==> *final(self) == *old(self),
            r is None ==> !(_camera.map < old(self).atlas@.len()
                && old(self).atlas@[_camera.map as int].in_bounds_spec(
                _camera.pos[0] + _pos[0],
                _camera.pos[1] + _pos[1],
            )),
            r matches Some(h) ==> {
                let m0 = old(self).atlas@[h.0 as int];
                &&& h.0 == _camera.map < old(self).atlas@.len()
                &&& h.1 == m0.actors@.len()
                &&& final(self).atlas@[h.0 as int].actors@.len() == m0.actors@.len() + 1
                &&& final(self).atlas@[h.0 as int].actors@.last().model == _model
                &&& final(self).atlas@[h.0 as int].actors@.last().my_loc.map == _camera.map
                &&& final(self).atlas@[h.0 as int].actors@.last().my_loc.pos[0] == _camera.pos[0]
                    + _pos[0]
                &&& final(self).atlas@[h.0 as int].actors@.last().my_loc.pos[1] == _camera.pos[1]
                    + _pos[1]
                &&& final(self).atlas@[h.0 as int].actors@.drop_last() == m0.actors@
                &&& forall|k: int| 0 <= k < old(self).atlas@.len() && k != h.0
                    ==> #[trigger] final(self).atlas@[k] == old(self).atlas@[k]
                &&& final(self).atlas@.len() == old(self).atlas@.len()
            },
            final(self).actor_types == old(self).actor_types,
            final(self).obj_types == old(self).obj_types,
            final(self).terrain_types == old(self).terrain_types,
            final(self).obj_close == old(self).obj_close,
    {
        match self.screen_to_loc(_pos, _camera) {
            Some(loc) => {
                let idx = {
                    let mm = &mut self.atlas[loc.map];
                    mm.new_actor(&self.actor_types, _model, loc)
                };
                proof {
                    assert forall|k: int| 0 <= k < self.atlas@.len() implies {
                        &&& (#[trigger] self.atlas@[k]).wf()
                        &&& self.atlas@[k].terrain_ids_ok(self.terrain_types@.len() as int)
                        &&& self.atlas@[k].object_ids_ok(self.obj_types@.len() as int)
                        &&& self.atlas@[k].actor_models_ok(self.actor_types@)
                    } by {
                        assert(old(self).atlas@[k].wf());
                        assert(old(self).atlas@[k].actor_models_ok(self.actor_types@));
                        if k == loc.map {
                            assert forall|j: int| 0 <= j < self.atlas@[k].actors@.len() implies {
                                &&& (#[trigger] self.atlas@[k].actors@[j]).model
                                    < self.actor_types@.len()
                                &&& self.atlas@[k].actors@[j].base_ap
                                    == self.actor_types@[self.atlas@[k].actors@[j].model as int].base_AP
                                &&& self.atlas@[k].actors@[j].base_ap >= 1
                            } by {
                                if j < self.atlas@[k].actors@.len() - 1 {
                                    assert(self.atlas@[k].actors@[j] == old(
                                        self,
                                    ).atlas@[k].actors@[j]);
                                }
                            }
                        }
                    }
                }
                Some((loc.map, idx))
            },
            None => None,
        }
    }
}


impl World {
    /// Resolves an actor's attempt to move one step. A passable, empty
    /// destination is entered and costs one base action; bumping an
    /// object whose kind declares a morph target replaces that object's
    /// kind in place and costs one base action; every other outcome
    /// leaves the world unchanged and costs nothing.
    #[verifier::loop_isolation(false)]
    pub fn try_move_actor(&mut self, map_id: usize, actor_idx: usize, delta: [i32; 2]) -> (r:
        MoveOutcome)
        requires
            old(self).wf(),
            map_id < old(self).atlas@.len(),
            actor_idx < old(self).atlas@[map_id as int].actors@.len(),
            i32::MIN <= old(self).atlas@[map_id as int].actors@[actor_idx as int].my_loc.pos[0]
                + delta[0] <= i32::MAX,
            i32::MIN <= old(self).atlas@[map_id as int].actors@[actor_idx as int].my_loc.pos[1]
                + delta[1] <= i32::MAX,
        ensures
            final(self).wf(),
            final(self).actor_types == old(self).actor_types,
            final(self).obj_types == old(self).obj_types,
            final(self).terrain_types == old(self).terrain_types,
            final(self).obj_close == old(self).obj_close,
            ({
                let m0 = old(self).atlas@[map_id as int];
                let a0 = m0.actors@[actor_idx as int];
                let nx = a0.my_loc.pos[0] + delta[0];
                let ny = a0.my_loc.pos[1] + delta[1];
                let idx = crate::gps::flat_idx(m0.dim[0] as int, nx, ny);
                if !m0.in_bounds_spec(nx, ny) {
                    r == MoveOutcome::OutOfBounds && *final(self) == *old(self)
                } else if occupied_by_other(m0, actor_idx as int, nx, ny) {
                    r == MoveOutcome::Blocked && *final(self) == *old(self)
                } else if crate::gps::walkable_spec(
                    m0,
                    old(self).terrain_types@,
                    old(self).obj_types@,
                    nx,
                    ny,
                ) {
                    &&& r == MoveOutcome::Moved
                    &&& final(self).atlas@.len() == old(self).atlas@.len()
                    &&& (forall|k: int| 0 <= k < old(self).atlas@.len() && k != map_id
                        ==> #[trigger] final(self).atlas@[k] == old(self).atlas@[k])
                    &&& final(self).atlas@[map_id as int].dim == m0.dim
                    &&& final(self).atlas@[map_id as int].name == m0.name
                    &&& final(self).atlas@[map_id as int].objects == m0.objects
                    &&& final(self).atlas@[map_id as int].terrain == m0.terrain
                    &&& final(self).atlas@[map_id as int].actors@.len() == m0.actors@.len()
                    &&& (forall|j: int| 0 <= j < m0.actors@.len() && j != actor_idx
                        ==> #[trigger] final(self).atlas@[map_id as int].actors@[j]
                        == m0.actors@[j])
                    &&& ({
                        let a1 = final(self).atlas@[map_id as int].actors@[actor_idx as int];
                        &&& a1.my_loc.map == map_id
                        &&& a1.my_loc.pos[0] == nx
                        &&& a1.my_loc.pos[1] == ny
                        &&& a1.ap == clamp_i16(a0.ap - BASE_ACTION_COST)
                        &&& a1.model == a0.model
                        &&& a1.base_ap == a0.base_ap
                        &&& a1.is_pc == a0.is_pc
                    })
                } else {
                    match m0.objects@[idx] {
                        Some(ob) => match old(self).obj_types@[ob.model as int].morph_on_bump {
                            Some(t) => {
                                &&& r == MoveOutcome::Morphed
                                &&& final(self).atlas@.len() == old(self).atlas@.len()
                                &&& (forall|k: int| 0 <= k < old(self).atlas@.len() && k != map_id
                                    ==> #[trigger] final(self).atlas@[k] == old(self).atlas@[k])
                                &&& final(self).atlas@[map_id as int].dim == m0.dim
                                &&& final(self).atlas@[map_id as int].name == m0.name
                                &&& final(self).atlas@[map_id as int].terrain == m0.terrain
                                &&& final(self).atlas@[map_id as int].objects@ == m0.objects@.update(
                                    idx,
                                    Some(
                                        MapObject {
                                            model: t,
                                            my_loc: Location { map: map_id, pos: [nx as i32, ny as i32] },
                                        },
                                    ),
                                )
                                &&& final(self).atlas@[map_id as int].actors@.len()
                                    == m0.actors@.len()
                                &&& (forall|j: int| 0 <= j < m0.actors@.len() && j != actor_idx
                                    ==> #[trigger] final(self).atlas@[map_id as int].actors@[j]
                                    == m0.actors@[j])
                                &&& ({
                                    let a1 = final(self).atlas@[map_id as int]
                                        .actors@[actor_idx as int];
                                    &&& a1.my_loc == a0.my_loc
                                    &&& a1.ap == clamp_i16(a0.ap - BASE_ACTION_COST)
                                    &&& a1.model == a0.model
                                    &&& a1.base_ap == a0.base_ap
                                    &&& a1.is_pc == a0.is_pc
                                })
                            },
                            None => r == MoveOutcome::Blocked && *final(self) == *old(self),
                        },
                        None => r == MoveOutcome::Blocked && *final(self) == *old(self),
                    }
                }
            }),
    {
        let pos = self.atlas[map_id].actors[actor_idx].my_loc.pos;
        let dest: [i32; 2] = [pos[0] + delta[0], pos[1] + delta[1]];
        if !self.atlas[map_id].in_bounds(dest) {
            return MoveOutcome::OutOfBounds;
        }
        // reject stepping onto another actor
        let n = self.atlas[map_id].actors.len();
        let mut j: usize = 0;
        while j < n
            invariant
                0 <= j <= n,
                forall|t: int| 0 <= t < j && t != actor_idx ==> !((#[trigger] self.atlas@[map_id as int].actors@[t]).my_loc.pos[0]
                    == dest[0] && self.atlas@[map_id as int].actors@[t].my_loc.pos[1] == dest[1]),
            decreases n - j,
        {
            if j != actor_idx {
                let other = &self.atlas[map_id].actors[j];
                if other.my_loc.pos[0] == dest[0] && other.my_loc.pos[1] == dest[1] {
                    return MoveOutcome::Blocked;
                }
            }
            j = j + 1;
        }
        proof {
            assert(!occupied_by_other(self.atlas@[map_id as int], actor_idx as int, dest[0] as int, dest[1] as int));
        }
        let walkable = {
            let mm = &self.atlas[map_id];
            let who = &mm.actors[actor_idx];
            mm.is_walkable_for(&self.terrain_types, &self.obj_types, &dest, who)
        };
        if walkable {
            let mm = &mut self.atlas[map_id];
            let a = &mut mm.actors[actor_idx];
            a.set_loc(Location { map: map_id, pos: dest });
            a.spend_energy(BASE_ACTION_COST);
            proof {
                assert forall|k: int| 0 <= k < self.atlas@.len() implies {
                    &&& (#[trigger] self.atlas@[k]).wf()
                    &&& self.atlas@[k].terrain_ids_ok(self.terrain_types@.len() as int)
                    &&& self.atlas@[k].object_ids_ok(self.obj_types@.len() as int)
                    &&& self.atlas@[k].actor_models_ok(self.actor_types@)
                } by {
                    assert(old(self).atlas@[k].wf());
                    assert(old(self).atlas@[k].actor_models_ok(self.actor_types@));
                    if k == map_id {
                        assert forall|t: int| 0 <= t < self.atlas@[k].actors@.len() implies {
                            &&& (#[trigger] self.atlas@[k].actors@[t]).model
                                < self.actor_types@.len()
                            &&& self.atlas@[k].actors@[t].base_ap
                                == self.actor_types@[self.atlas@[k].actors@[t].model as int].base_AP
                            &&& self.atlas@[k].actors@[t].base_ap >= 1
                        } by {
                            if t != actor_idx {
                                assert(self.atlas@[k].actors@[t] == old(self).atlas@[k].actors@[t]);
                            }
                        }
                    }
                }
            }
            return MoveOutcome::Moved;
        }
        let obj = self.atlas[map_id].get_map_object(dest);
        match obj {
            Some(ob) => {
                proof {
                    crate::gps::lemma_flat_idx_bounds(
                        self.atlas@[map_id as int].dim[0] as int,
                        self.atlas@[map_id as int].dim[1] as int,
                        dest[0] as int,
                        dest[1] as int,
                    );
                    assert(self.atlas@[map_id as int].objects@[crate::gps::flat_idx(
                        self.atlas@[map_id as int].dim[0] as int,
                        dest[0] as int,
                        dest[1] as int,
                    )] matches Some(o2) ==> o2.model < self.obj_types@.len());
                }
                let morph = self.obj_types[ob.model].morph_on_bump;
                match morph {
                    Some(t) => {
                        proof {
                            crate::gps::lemma_flat_idx_bounds(
                                old(self).atlas@[map_id as int].dim[0] as int,
                                old(self).atlas@[map_id as int].dim[1] as int,
                                dest[0] as int,
                                dest[1] as int,
                            );
                        }
                        {
                            let mm = &mut self.atlas[map_id];
                            mm.set_map_object(
                                MapObject { model: t, my_loc: Location { map: map_id, pos: dest } },
                            );
                            let a = &mut mm.actors[actor_idx];
                            a.spend_energy(BASE_ACTION_COST);
                        }
                        proof {
                            assert forall|k: int| 0 <= k < self.atlas@.len() implies {
                                &&& (#[trigger] self.atlas@[k]).wf()
                                &&& self.atlas@[k].terrain_ids_ok(self.terrain_types@.len() as int)
                                &&& self.atlas@[k].object_ids_ok(self.obj_types@.len() as int)
                                &&& self.atlas@[k].actor_models_ok(self.actor_types@)
                            } by {
                                assert(old(self).atlas@[k].wf());
                                assert(old(self).atlas@[k].object_ids_ok(
                                    self.obj_types@.len() as int,
                                ));
                                assert(old(self).atlas@[k].actor_models_ok(self.actor_types@));
                                if k == map_id {
                                    assert forall|c: int| 0 <= c < self.atlas@[k].objects@.len()
                                        implies (#[trigger] self.atlas@[k].objects@[c] matches Some(
                                        oo,
                                    ) ==> oo.model < self.obj_types@.len()) by {
                                        if self.atlas@[k].objects@[c] != old(
                                            self,
                                        ).atlas@[k].objects@[c] {
                                            assert(oo_is_morphed(self.atlas@[k].objects@[c], t));
                                        }
                                    }
                                    assert forall|t2: int| 0 <= t2 < self.atlas@[k].actors@.len()
                                        implies {
                                        &&& (#[trigger] self.atlas@[k].actors@[t2]).model
                                            < self.actor_types@.len()
                                        &&& self.atlas@[k].actors@[t2].base_ap
                                            == self.actor_types@[self.atlas@[k].actors@[t2].model as int].base_AP
                                        &&& self.atlas@[k].actors@[t2].base_ap >= 1
                                    } by {
                                        if t2 != actor_idx {
                                            assert(self.atlas@[k].actors@[t2] == old(
                                                self,
                                            ).atlas@[k].actors@[t2]);
                                        }
                                    }
                                }
                            }
                        }
                        MoveOutcome::Morphed
                    },
                    None => MoveOutcome::Blocked,
                }
            },
            None => MoveOutcome::Blocked,
        }
    }
}

/// The cell holds exactly the morphed object kind.
pub open spec fn oo_is_morphed(cell: Option<MapObject>, t: usize) -> bool {
    cell matches Some(oo) ==> oo.model == t
}


impl Location {
    /// Whether the given actor may step onto this in-bounds location.
    pub fn is_walkable_for(&self, w: &World, who: &Actor) -> (r: bool)
        requires
            w.wf(),
            self.map < w.atlas@.len(),
            w.atlas@[self.map as int].in_bounds_spec(self.pos[0] as int, self.pos[1] as int),
        ensures
            r == crate::gps::walkable_spec(
                w.atlas@[self.map as int],
                w.terrain_types@,
                w.obj_types@,
                self.pos[0] as int,
                self.pos[1] as int,
            ),
    {
        w.atlas[self.map].is_walkable_for(&w.terrain_types, &w.obj_types, &self.pos, who)
    }

    /// The object on this in-bounds location's cell, if any.
    pub fn get_map_object(&self, w: &World) -> (r: Option<MapObject>)
        requires
            w.wf(),
            self.map < w.atlas@.len(),
            w.atlas@[self.map as int].in_bounds_spec(self.pos[0] as int, self.pos[1] as int),
        ensures
            r == w.atlas@[self.map as int].objects@[crate::gps::flat_idx(
                w.atlas@[self.map as int].dim[0] as int,
                self.pos[0] as int,
                self.pos[1] as int,
            )],
    {
        w.atlas[self.map].get_map_object(self.pos)
    }

    /// Places a fresh object of the given kind on this location's cell,
    /// returning whatever object the cell held before.
    pub fn set_map_object(&self, w: &mut World, src: usize) -> (r: Option<MapObject>)
        requires
            old(w).wf(),
            src < old(w).obj_types@.len(),
            self.map < old(w).atlas@.len(),
            old(w).atlas@[self.map as int].in_bounds_spec(self.pos[0] as int, self.pos[1] as int),
        ensures
            final(w).wf(),
            r == old(w).atlas@[self.map as int].objects@[crate::gps::flat_idx(
                old(w).atlas@[self.map as int].dim[0] as int,
                self.pos[0] as int,
                self.pos[1] as int,
            )],
            final(w).atlas@[self.map as int].objects@ == old(w).atlas@[self.map as int].objects@.update(
                crate::gps::flat_idx(
                    old(w).atlas@[self.map as int].dim[0] as int,
                    self.pos[0] as int,
                    self.pos[1] as int,
                ),
                Some(MapObject { model: src, my_loc: *self }),
            ),
            final(w).atlas@[self.map as int].dim == old(w).atlas@[self.map as int].dim,
            final(w).atlas@[self.map as int].name == old(w).atlas@[self.map as int].name,
            final(w).atlas@[self.map as int].actors == old(w).atlas@[self.map as int].actors,
            final(w).atlas@[self.map as int].terrain == old(w).atlas@[self.map as int].terrain,
            final(w).atlas@.len() == old(w).atlas@.len(),
            forall|k: int| 0 <= k < old(w).atlas@.len() && k != self.map
                ==> #[trigger] final(w).atlas@[k] == old(w).atlas@[k],
            final(w).actor_types == old(w).actor_types,
            final(w).obj_types == old(w).obj_types,
            final(w).terrain_types == old(w).terrain_types,
            final(w).obj_close == old(w).obj_close,
    {
        proof {
            crate::gps::lemma_flat_idx_bounds(
                old(w).atlas@[self.map as int].dim[0] as int,
                old(w).atlas@[self.map as int].dim[1] as int,
                self.pos[0] as int,
                self.pos[1] as int,
            );
        }
        let prior = {
            let mm = &mut w.atlas[self.map];
            mm.set_map_object(MapObject { model: src, my_loc: *self })
        };
        proof {
            assert forall|k: int| 0 <= k < w.atlas@.len() implies {
                &&& (#[trigger] w.atlas@[k]).wf()
                &&& w.atlas@[k].terrain_ids_ok(w.terrain_types@.len() as int)
                &&& w.atlas@[k].object_ids_ok(w.obj_types@.len() as int)
                &&& w.atlas@[k].actor_models_ok(w.actor_types@)
            } by {
                assert(old(w).atlas@[k].wf());
                assert(old(w).atlas@[k].object_ids_ok(w.obj_types@.len() as int));
                assert(old(w).atlas@[k].actor_models_ok(w.actor_types@));
                if k == self.map {
                    assert forall|c: int| 0 <= c < w.atlas@[k].objects@.len() implies (
                    #[trigger] w.atlas@[k].objects@[c] matches Some(oo) ==> oo.model
                        < w.obj_types@.len()) by {
                        if w.atlas@[k].objects@[c] != old(w).atlas@[k].objects@[c] {
                            assert(oo_is_morphed(w.atlas@[k].objects@[c], src));
                        }
                    }
                }
            }
        }
        prior
    }
}


/// An exact copy of a tile drawing.
pub fn clone_tile(t: &TileSpec) -> (r: TileSpec)
    ensures
        r == *t,
{
    match t {
        Ok(cs) => Ok(*cs),
        Err(im) => Err(ImgSpec { img: im.img.clone() }),
    }
}


impl World {
    /// The handle of a terrain kind with the given name, if one exists.
    pub fn get_terrain(&self, _name: &str) -> (r: Option<usize>)
        ensures
            r matches Some(i) ==> i < self.terrain_types@.len() && self.terrain_types@[i as int].name@
                == _name@ && (forall|j: int| 0 <= j < i
                ==> (#[trigger] self.terrain_types@[j]).name@ != _name@),
            r is None ==> forall|i: int| 0 <= i < self.terrain_types@.len()
                ==> (#[trigger] self.terrain_types@[i]).name@ != _name@,
    {
        let mut i: usize = 0;
        while i < self.terrain_types.len()
            invariant
                0 <= i <= self.terrain_types@.len(),
                forall|j: int| 0 <= j < i ==> (#[trigger] self.terrain_types@[j]).name@ != _name@,
            decreases self.terrain_types@.len() - i,
        {
            if self.terrain_types[i].is_named(_name) {
                return Some(i);
            }
            i = i + 1;
        }
        None
    }
}

} // verus!
