use vstd::prelude::*;

use crate::geometry::{lemma_xy_idx_inj, max_i, min_i};
use crate::components::Color;
use crate::rect::Rect;
use crate::rng;

verus! {

/// One cell of the grid: walls are opaque and impassable, floors are neither.
#[derive(Clone, Copy, PartialEq, Eq, Structural, Debug)]
pub enum TileType {
    Wall,
    Floor,
}

/// The global grid-map resource: an 80x50 array of tiles, the two parallel
/// visibility masks, and the list of carved rooms.
#[derive(Clone, Debug)]
pub struct GameMap {
    pub width: i32,
    pub height: i32,
    pub tiles: Vec<TileType>,
    pub revealed_tiles: Vec<bool>,
    pub visible_tiles: Vec<bool>,
    pub rooms: Vec<Rect>,
}

/// Row-major flat index of a cell.
pub open spec fn idx_of(x: int, y: int) -> int {
    y * 80 + x
}

/// A room that lies strictly inside the border ring and is wide enough
/// for its center to fall in its carved interior.
pub open spec fn room_ok(r: Rect) -> bool {
    &&& 1 <= r.x1
    &&& r.x1 + 2 <= r.x2
    &&& r.x2 <= 78
    &&& 1 <= r.y1
    &&& r.y1 + 2 <= r.y2
    &&& r.y2 <= 48
}

impl GameMap {
    pub open spec fn in_bounds(self, x: int, y: int) -> bool {
        0 <= x < self.width && 0 <= y < self.height
    }

    pub open spec fn tile_at(self, x: int, y: int) -> TileType {
        self.tiles@[y * 80 + x]
    }

    /// The cell is inside the grid and lets sight pass.
    pub open spec fn is_transparent(self, x: int, y: int) -> bool {
        self.in_bounds(x, y) && self.tile_at(x, y) == TileType::Floor
    }

    /// The outermost ring is all wall.
    pub open spec fn border_walls(self) -> bool {
        forall|x: int, y: int|
            self.in_bounds(x, y) && (x == 0 || x == 79 || y == 0 || y == 49)
                ==> #[trigger] self.tile_at(x, y) == TileType::Wall
    }

    /// A currently visible cell has always been revealed.
    pub open spec fn masks_ok(self) -> bool {
        forall|i: int| 0 <= i < 4000 && #[trigger] self.visible_tiles@[i] ==> self.revealed_tiles@[i]
    }

    pub open spec fn rooms_wf(self) -> bool {
        forall|k: int| 0 <= k < self.rooms@.len() ==> room_ok(#[trigger] self.rooms@[k])
    }

    pub open spec fn wf(self) -> bool {
        &&& self.width == 80
        &&& self.height == 50
        &&& self.tiles@.len() == 4000
        &&& self.revealed_tiles@.len() == 4000
        &&& self.visible_tiles@.len() == 4000
        &&& self.border_walls()
        &&& self.masks_ok()
        &&& self.rooms_wf()
    }

    /// No two carved rooms overlap under the inclusive-corner rule.
    pub open spec fn rooms_disjoint(self) -> bool {
        forall|k1: int, k2: int|
            0 <= k1 < self.rooms@.len() && 0 <= k2 < self.rooms@.len() && k1 != k2
                ==> !#[trigger] self.rooms@[k1].spec_intersect(#[trigger] self.rooms@[k2])
    }

    /// Every cell in the carved interior of an accepted room is floor.
    pub open spec fn rooms_carved(self) -> bool {
        forall|k: int, x: int, y: int|
            0 <= k < self.rooms@.len() && (#[trigger] self.rooms@[k]).interior_contains(x, y)
                ==> #[trigger] self.tile_at(x, y) == TileType::Floor
    }

    /// Every cell of the horizontal segment between two columns is floor.
    pub open spec fn horiz_floor(self, x1: int, x2: int, y: int) -> bool {
        forall|x: int|
            min_i(x1, x2) <= x <= max_i(x1, x2) ==> #[trigger] self.tile_at(x, y)
                == TileType::Floor
    }

    /// Every cell of the vertical segment between two rows is floor.
    pub open spec fn vert_floor(self, y1: int, y2: int, x: int) -> bool {
        forall|y: int|
            min_i(y1, y2) <= y <= max_i(y1, y2) ==> #[trigger] self.tile_at(x, y)
                == TileType::Floor
    }

    /// An L-shaped corridor of floor joins the two cells, bending at one of
    /// the two corners.
    pub open spec fn l_connected(self, ax: int, ay: int, bx: int, yb: int) -> bool {
        ||| (self.horiz_floor(ax, bx, ay) && self.vert_floor(ay, yb, bx))
        ||| (self.vert_floor(ay, yb, ax) && self.horiz_floor(ax, bx, yb))
    }

    /// Each accepted room's center is joined to the previous room's center
    /// by an L-shaped corridor of floor.
    pub open spec fn corridors_connected(self) -> bool {
        forall|k: int|
            1 <= k < self.rooms@.len() ==> #[trigger] self.l_connected(
                self.rooms@[k - 1].spec_center().0,
                self.rooms@[k - 1].spec_center().1,
                self.rooms@[k].spec_center().0,
                self.rooms@[k].spec_center().1,
            )
    }

    /// Row-major index of an in-bounds cell.
    pub fn xy_idx(&self, x: i32, y: i32) -> (r: usize)
        requires
            self.width == 80,
            0 <= x < 80,
            0 <= y < 50,
        ensures
            r == y * 80 + x,
    {
        let w = self.width as usize;
        (y as usize) * w + (x as usize)
    }

    /// Whether the cell is currently visible.
    pub fn is_visible(&self, x: i32, y: i32) -> (r: bool)
        requires
            self.wf(),
            0 <= x < 80,
            0 <= y < 50,
        ensures
            r == self.visible_tiles@[idx_of(x as int, y as int)],
    {
        let idx = self.xy_idx(x, y);
        self.visible_tiles[idx]
    }

    /// The glyph and foreground color to draw for one cell: bright when
    /// visible, grey when merely revealed, nothing when neither.
    pub fn cell_appearance(&self, x: i32, y: i32) -> (r: Option<(u16, Color)>)
        requires
            self.wf(),
            0 <= x < 80,
            0 <= y < 50,
        ensures
            ({
                let vis = self.visible_tiles@[idx_of(x as int, y as int)];
                let rev = self.revealed_tiles@[idx_of(x as int, y as int)];
                let floor = self.tile_at(x as int, y as int) == TileType::Floor;
                if vis && floor {
                    r == Some((46u16, (Color { r: 0, g: 204, b: 153 })))
                } else if vis {
                    r == Some((35u16, (Color { r: 0, g: 255, b: 0 })))
                } else if rev && floor {
                    r == Some((46u16, (Color { r: 128, g: 128, b: 128 })))
                } else if rev {
                    r == Some((35u16, (Color { r: 128, g: 128, b: 128 })))
                } else {
                    r is None
                }
            }),
    {
        let idx = self.xy_idx(x, y);
        let floor = self.tiles[idx] == TileType::Floor;
        let glyph: u16 = if floor {
            46
        } else {
            35
        };
        if self.visible_tiles[idx] {
            if floor {
                Some((glyph, Color { r: 0, g: 204, b: 153 }))
            } else {
                Some((glyph, Color { r: 0, g: 255, b: 0 }))
            }
        } else if self.revealed_tiles[idx] {
            Some((glyph, Color { r: 128, g: 128, b: 128 }))
        } else {
            None
        }
    }

    /// A fully generated map, from a fresh random source.
    pub fn new_map() -> (m: GameMap)
        ensures
            m.wf(),
            1 <= m.rooms@.len() <= 30,
            m.rooms_disjoint(),
            m.rooms_carved(),
            m.corridors_connected(),
            forall|i: int| 0 <= i < 4000 ==> !m.revealed_tiles@[i] && !m.visible_tiles@[i],
    {
        let mut rng_src = rng::rng_new();
        Self::new_map_with(&mut rng_src)
    }

    /// A fully generated map, from a seeded random source.
    pub fn new_map_seeded(seed: u64) -> (m: GameMap)
        ensures
            m.wf(),
            1 <= m.rooms@.len() <= 30,
            m.rooms_disjoint(),
            m.rooms_carved(),
            m.corridors_connected(),
            forall|i: int| 0 <= i < 4000 ==> !m.revealed_tiles@[i] && !m.visible_tiles@[i],
    {
        let mut rng_src = rng::rng_seeded(seed);
        Self::new_map_with(&mut rng_src)
    }

    /// Carves up to 30 non-overlapping rooms into a map of walls and joins
    /// successive room centers with L-shaped corridors.
    #[verifier::rlimit(100)]
    #[verifier::spinoff_prover]
    pub fn new_map_with(rng_src: &mut rltk::RandomNumberGenerator) -> (m: GameMap)
        ensures
            m.wf(),
            1 <= m.rooms@.len() <= 30,
            m.rooms_disjoint(),
            m.rooms_carved(),
            m.corridors_connected(),
            forall|i: int| 0 <= i < 4000 ==> !m.revealed_tiles@[i] && !m.visible_tiles@[i],
    {
        let mut map = GameMap {
            width: 80,
            height: 50,
            tiles: filled_tiles(4000, TileType::Wall),
            revealed_tiles: filled_bools(4000, false),
            visible_tiles: filled_bools(4000, false),
            rooms: Vec::new(),
        };

        let mut i: usize = 0;
        while i < 30
            invariant
                map.wf(),
                map.rooms@.len() <= i,
                i <= 30,
                i >= 1 ==> map.rooms@.len() >= 1,
                map.rooms_disjoint(),
                map.rooms_carved(),
                map.corridors_connected(),
                forall|t: int| 0 <= t < 4000 ==> !map.revealed_tiles@[t] && !map.visible_tiles@[t],
            decreases 30 - i,
        {
            let w = rng::rng_range(rng_src, 6, 11);
            let h = rng::rng_range(rng_src, 6, 11);
            let x = rng::rng_range(rng_src, 1, 79 - w);
            let y = rng::rng_range(rng_src, 1, 49 - h);
            let new_room = Rect::new(x, y, w, h);
            let mut ok = true;
            let mut j: usize = 0;
            while j < map.rooms.len()
                invariant
                    j <= map.rooms@.len(),
                    ok <==> forall|k: int| 0 <= k < j ==> !(#[trigger] map.rooms@[k]).spec_intersect(new_room),
                decreases map.rooms@.len() - j,
            {
                if map.rooms[j].intersect(&new_room) {
                    ok = false;
                }
                j += 1;
            }
            if ok {
                let ghost m0 = map;
                proof {
                    assert(room_ok(new_room));
                }
                apply_room_to_map(&new_room, &mut map);
                if map.rooms.len() > 0 {
                    let (new_x, new_y) = new_room.center();
                    let prev = map.rooms[map.rooms.len() - 1];
                    let (prev_x, prev_y) = prev.center();
                    let coin = rng::rng_range(rng_src, 0, 2);
                    if coin == 1 {
                        apply_horizontal_tunnel(&mut map, prev_x, new_x, prev_y);
                        let ghost m2 = map;
                        apply_vertical_tunnel(&mut map, prev_y, new_y, new_x);
                        proof {
                            assert(map.horiz_floor(prev_x as int, new_x as int, prev_y as int))
                                by {
                                assert forall|x: int|
                                    min_i(prev_x as int, new_x as int) <= x <= max_i(
                                        prev_x as int,
                                        new_x as int,
                                    ) implies #[trigger] map.tile_at(x, prev_y as int)
                                    == TileType::Floor by {
                                    assert(m2.tile_at(x, prev_y as int) == TileType::Floor);
                                }
                            }
                            assert(map.vert_floor(prev_y as int, new_y as int, new_x as int));
                            assert(map.l_connected(
                                prev_x as int,
                                prev_y as int,
                                new_x as int,
                                new_y as int,
                            ));
                        }
                    } else {
                        apply_vertical_tunnel(&mut map, prev_y, new_y, prev_x);
                        let ghost m2 = map;
                        apply_horizontal_tunnel(&mut map, prev_x, new_x, new_y);
                        proof {
                            assert(map.vert_floor(prev_y as int, new_y as int, prev_x as int))
                                by {
                                assert forall|y: int|
                                    min_i(prev_y as int, new_y as int) <= y <= max_i(
                                        prev_y as int,
                                        new_y as int,
                                    ) implies #[trigger] map.tile_at(prev_x as int, y)
                                    == TileType::Floor by {
                                    assert(m2.tile_at(prev_x as int, y) == TileType::Floor);
                                }
                            }
                            assert(map.horiz_floor(prev_x as int, new_x as int, new_y as int));
                            assert(map.l_connected(
                                prev_x as int,
                                prev_y as int,
                                new_x as int,
                                new_y as int,
                            ));
                        }
                    }
                    proof {
                        assert(map.l_connected(
                            prev.spec_center().0,
                            prev.spec_center().1,
                            new_room.spec_center().0,
                            new_room.spec_center().1,
                        ));
                    }
                }
                let ghost m3 = map;
                map.rooms.push(new_room);
                proof {
                    assert(map.tiles == m3.tiles);
                    assert(map.rooms@ == m0.rooms@.push(new_room));
                    // every cell that was floor is still floor, and the new
                    // room's interior is now floor
                    assert forall|xq: int, yq: int|
                        m0.in_bounds(xq, yq) && (m0.tile_at(xq, yq) == TileType::Floor
                            || new_room.interior_contains(xq, yq))
                        implies #[trigger] map.tile_at(xq, yq) == TileType::Floor by {
                        assert(map.tile_at(xq, yq) == m3.tile_at(xq, yq));
                    }
                    assert(map.border_walls()) by {
                        assert forall|xq: int, yq: int|
                            map.in_bounds(xq, yq) && (xq == 0 || xq == 79 || yq == 0 || yq == 49)
                            implies #[trigger] map.tile_at(xq, yq) == TileType::Wall by {
                            assert(map.tile_at(xq, yq) == m3.tile_at(xq, yq));
                        }
                    }
                    assert(map.rooms_wf()) by {
                        assert forall|k: int| 0 <= k < map.rooms@.len() implies room_ok(
                            #[trigger] map.rooms@[k]) by {
                            if k < m0.rooms@.len() {
                                assert(map.rooms@[k] == m0.rooms@[k]);
                            } else {
                                assert(map.rooms@[k] == new_room);
                            }
                        }
                    }
                    assert(map.rooms_disjoint()) by {
                        assert forall|k1: int, k2: int|
                            0 <= k1 < map.rooms@.len() && 0 <= k2 < map.rooms@.len() && k1 != k2
                            implies !#[trigger] map.rooms@[k1].spec_intersect(
                            #[trigger] map.rooms@[k2]) by {
                            if k1 < m0.rooms@.len() && k2 < m0.rooms@.len() {
                                assert(!m0.rooms@[k1].spec_intersect(m0.rooms@[k2]));
                            }
                        }
                    }
                    assert(map.corridors_connected()) by {
                        assert forall|k2: int|
                            1 <= k2 < map.rooms@.len() implies #[trigger] map.l_connected(
                            map.rooms@[k2 - 1].spec_center().0,
                            map.rooms@[k2 - 1].spec_center().1,
                            map.rooms@[k2].spec_center().0,
                            map.rooms@[k2].spec_center().1,
                        ) by {
                            let ra = map.rooms@[k2 - 1];
                            let rb = map.rooms@[k2];
                            assert(room_ok(ra));
                            assert(room_ok(rb));
                            lemma_center_bounds(ra);
                            lemma_center_bounds(rb);
                            let cax = ra.spec_center().0;
                            let cay = ra.spec_center().1;
                            let cbx = rb.spec_center().0;
                            let cby = rb.spec_center().1;
                            if k2 < m0.rooms@.len() {
                                assert(ra == m0.rooms@[k2 - 1]);
                                assert(rb == m0.rooms@[k2]);
                                assert(m0.l_connected(cax, cay, cbx, cby));
                                if m0.horiz_floor(cax, cbx, cay) && m0.vert_floor(
                                    cay,
                                    cby,
                                    cbx,
                                ) {
                                    assert(map.horiz_floor(cax, cbx, cay)) by {
                                        assert forall|x: int|
                                            min_i(cax, cbx) <= x <= max_i(cax, cbx)
                                            implies #[trigger] map.tile_at(x, cay)
                                            == TileType::Floor by {
                                            assert(m0.tile_at(x, cay) == TileType::Floor);
                                            assert(m0.in_bounds(x, cay));
                                        }
                                    }
                                    assert(map.vert_floor(cay, cby, cbx)) by {
                                        assert forall|y: int|
                                            min_i(cay, cby) <= y <= max_i(cay, cby)
                                            implies #[trigger] map.tile_at(cbx, y)
                                            == TileType::Floor by {
                                            assert(m0.tile_at(cbx, y) == TileType::Floor);
                                            assert(m0.in_bounds(cbx, y));
                                        }
                                    }
                                } else {
                                    assert(m0.vert_floor(cay, cby, cax) && m0.horiz_floor(
                                        cax,
                                        cbx,
                                        cby,
                                    ));
                                    assert(map.vert_floor(cay, cby, cax)) by {
                                        assert forall|y: int|
                                            min_i(cay, cby) <= y <= max_i(cay, cby)
                                            implies #[trigger] map.tile_at(cax, y)
                                            == TileType::Floor by {
                                            assert(m0.tile_at(cax, y) == TileType::Floor);
                                            assert(m0.in_bounds(cax, y));
                                        }
                                    }
                                    assert(map.horiz_floor(cax, cbx, cby)) by {
                                        assert forall|x: int|
                                            min_i(cax, cbx) <= x <= max_i(cax, cbx)
                                            implies #[trigger] map.tile_at(x, cby)
                                            == TileType::Floor by {
                                            assert(m0.tile_at(x, cby) == TileType::Floor);
                                            assert(m0.in_bounds(x, cby));
                                        }
                                    }
                                }
                            } else {
                                assert(k2 == m0.rooms@.len());
                                assert(rb == new_room);
                                assert(m3.l_connected(cax, cay, cbx, cby));
                                if m3.horiz_floor(cax, cbx, cay) && m3.vert_floor(
                                    cay,
                                    cby,
                                    cbx,
                                ) {
                                    assert(map.horiz_floor(cax, cbx, cay)) by {
                                        assert forall|x: int|
                                            min_i(cax, cbx) <= x <= max_i(cax, cbx)
                                            implies #[trigger] map.tile_at(x, cay)
                                            == TileType::Floor by {
                                            assert(m3.tile_at(x, cay) == TileType::Floor);
                                        }
                                    }
                                    assert(map.vert_floor(cay, cby, cbx)) by {
                                        assert forall|y: int|
                                            min_i(cay, cby) <= y <= max_i(cay, cby)
                                            implies #[trigger] map.tile_at(cbx, y)
                                            == TileType::Floor by {
                                            assert(m3.tile_at(cbx, y) == TileType::Floor);
                                        }
                                    }
                                } else {
                                    assert(m3.vert_floor(cay, cby, cax) && m3.horiz_floor(
                                        cax,
                                        cbx,
                                        cby,
                                    ));
                                    assert(map.vert_floor(cay, cby, cax)) by {
                                        assert forall|y: int|
                                            min_i(cay, cby) <= y <= max_i(cay, cby)
                                            implies #[trigger] map.tile_at(cax, y)
                                            == TileType::Floor by {
                                            assert(m3.tile_at(cax, y) == TileType::Floor);
                                        }
                                    }
                                    assert(map.horiz_floor(cax, cbx, cby)) by {
                                        assert forall|x: int|
                                            min_i(cax, cbx) <= x <= max_i(cax, cbx)
                                            implies #[trigger] map.tile_at(x, cby)
                                            == TileType::Floor by {
                                            assert(m3.tile_at(x, cby) == TileType::Floor);
                                        }
                                    }
                                }
                            }
                        }
                    }
                    assert(map.rooms_carved()) by {
                        assert forall|k: int, xq: int, yq: int|
                            0 <= k < map.rooms@.len() && (#[trigger] map.rooms@[k]).interior_contains(
                            xq, yq) implies #[trigger] map.tile_at(xq, yq) == TileType::Floor by {
                            let r = map.rooms@[k];
                            assert(room_ok(r));
                            assert(m0.in_bounds(xq, yq));
                            if k < m0.rooms@.len() {
                                assert(m0.rooms@[k] == r);
                                assert(m0.tile_at(xq, yq) == TileType::Floor);
                            } else {
                                assert(r == new_room);
                            }
                        }
                    }
                }
            }
            i += 1;
        }
        map
    }
}

/// A vector of `n` copies of the given tile.
fn filled_tiles(n: usize, t: TileType) -> (v: Vec<TileType>)
    ensures
        v@.len() == n,
        forall|i: int| 0 <= i < n ==> v@[i] == t,
{
    let mut v: Vec<TileType> = Vec::new();
    let mut i: usize = 0;
    while i < n
        invariant
            i <= n,
            v@.len() == i,
            forall|k: int| 0 <= k < i ==> v@[k] == t,
        decreases n - i,
    {
        v.push(t);
        i += 1;
    }
    v
}

/// A vector of `n` copies of the given flag.
fn filled_bools(n: usize, b: bool) -> (v: Vec<bool>)
    ensures
        v@.len() == n,
        forall|i: int| 0 <= i < n ==> v@[i] == b,
{
    let mut v: Vec<bool> = Vec::new();
    let mut i: usize = 0;
    while i < n
        invariant
            i <= n,
            v@.len() == i,
            forall|k: int| 0 <= k < i ==> v@[k] == b,
        decreases n - i,
    {
        v.push(b);
        i += 1;
    }
    v
}

/// The center of an accepted room lies strictly inside the border ring.
proof fn lemma_center_bounds(r: Rect)
    requires
        room_ok(r),
    ensures
        1 <= r.spec_center().0 <= 78,
        1 <= r.spec_center().1 <= 48,
{
}

/// Sets the carved interior of an accepted room to floor; the lower/left
/// edges of the rectangle are excluded.
fn apply_room_to_map(room: &Rect, map: &mut GameMap)
    requires
        old(map).wf(),
        room_ok(*room),
    ensures
        final(map).wf(),
        final(map).rooms == old(map).rooms,
        final(map).revealed_tiles == old(map).revealed_tiles,
        final(map).visible_tiles == old(map).visible_tiles,
        forall|xx: int, yy: int|
            old(map).in_bounds(xx, yy)
                ==> #[trigger] final(map).tile_at(xx, yy) == (if room.interior_contains(xx, yy) {
                    TileType::Floor
                } else {
                    old(map).tile_at(xx, yy)
                }),
{
    let mut y = room.y1 + 1;
    while y <= room.y2
        invariant
            old(map).wf(),
            room_ok(*room),
            room.y1 + 1 <= y <= room.y2 + 1,
            map.width == 80,
            map.height == 50,
            map.tiles@.len() == 4000,
            map.rooms == old(map).rooms,
            map.revealed_tiles == old(map).revealed_tiles,
            map.visible_tiles == old(map).visible_tiles,
            forall|xx: int, yy: int|
                old(map).in_bounds(xx, yy)
                    ==> #[trigger] map.tile_at(xx, yy) == (if room.interior_contains(xx, yy) && yy
                        < y {
                        TileType::Floor
                    } else {
                        old(map).tile_at(xx, yy)
                    }),
        decreases room.y2 + 1 - y,
    {
        let mut x = room.x1 + 1;
        while x <= room.x2
            invariant
                old(map).wf(),
                room_ok(*room),
                room.y1 + 1 <= y <= room.y2,
                room.x1 + 1 <= x <= room.x2 + 1,
                map.width == 80,
                map.height == 50,
                map.tiles@.len() == 4000,
                map.rooms == old(map).rooms,
                map.revealed_tiles == old(map).revealed_tiles,
                map.visible_tiles == old(map).visible_tiles,
                forall|xx: int, yy: int|
                    old(map).in_bounds(xx, yy)
                        ==> #[trigger] map.tile_at(xx, yy) == (if room.interior_contains(xx, yy)
                            && (yy < y || (yy == y && xx < x)) {
                            TileType::Floor
                        } else {
                            old(map).tile_at(xx, yy)
                        }),
            decreases room.x2 + 1 - x,
        {
            let ghost pre = *map;
            let idx = map.xy_idx(x, y);
            map.tiles.set(idx, TileType::Floor);
            proof {
                assert forall|xx: int, yy: int| old(map).in_bounds(xx, yy) implies #[trigger] map
                    .tile_at(xx, yy) == (if room.interior_contains(xx, yy) && (yy < y || (yy == y
                    && xx < x + 1)) {
                    TileType::Floor
                } else {
                    old(map).tile_at(xx, yy)
                }) by {
                    if yy * 80 + xx == y * 80 + x {
                        lemma_xy_idx_inj(xx, yy, x as int, y as int);
                        assert(map.tile_at(xx, yy) == TileType::Floor);
                    } else {
                        assert(map.tile_at(xx, yy) == pre.tile_at(xx, yy));
                    }
                }
            }
            x += 1;
        }
        y += 1;
    }
    proof {
        assert(map.border_walls()) by {
            assert forall|xx: int, yy: int|
                map.in_bounds(xx, yy) && (xx == 0 || xx == 79 || yy == 0 || yy == 49)
                implies #[trigger] map.tile_at(xx, yy) == TileType::Wall by {
                assert(!room.interior_contains(xx, yy));
            }
        }
    }
}

/// Carves a one-cell-high horizontal corridor between two columns.
fn apply_horizontal_tunnel(map: &mut GameMap, x1: i32, x2: i32, y: i32)
    requires
        old(map).wf(),
        1 <= y <= 48,
        1 <= x1 <= 78,
        1 <= x2 <= 78,
    ensures
        final(map).wf(),
        final(map).rooms == old(map).rooms,
        final(map).revealed_tiles == old(map).revealed_tiles,
        final(map).visible_tiles == old(map).visible_tiles,
        forall|xx: int, yy: int|
            old(map).in_bounds(xx, yy)
                ==> #[trigger] final(map).tile_at(xx, yy) == (if yy == y && min_i(x1 as int, x2 as int)
                    <= xx <= max_i(x1 as int, x2 as int) {
                    TileType::Floor
                } else {
                    old(map).tile_at(xx, yy)
                }),
{
    let lo = if x1 < x2 {
        x1
    } else {
        x2
    };
    let hi = if x1 < x2 {
        x2
    } else {
        x1
    };
    let mut x = lo;
    while x <= hi
        invariant
            old(map).wf(),
            1 <= y <= 48,
            1 <= lo <= 78,
            1 <= hi <= 78,
            lo == min_i(x1 as int, x2 as int),
            hi == max_i(x1 as int, x2 as int),
            lo <= x <= hi + 1,
            map.width == 80,
            map.height == 50,
            map.tiles@.len() == 4000,
            map.rooms == old(map).rooms,
            map.revealed_tiles == old(map).revealed_tiles,
            map.visible_tiles == old(map).visible_tiles,
            forall|xx: int, yy: int|
                old(map).in_bounds(xx, yy)
                    ==> #[trigger] map.tile_at(xx, yy) == (if yy == y && lo <= xx < x {
                        TileType::Floor
                    } else {
                        old(map).tile_at(xx, yy)
                    }),
        decreases hi + 1 - x,
    {
        let ghost pre = *map;
        let idx = map.xy_idx(x, y);
        map.tiles.set(idx, TileType::Floor);
        proof {
            assert forall|xx: int, yy: int| old(map).in_bounds(xx, yy) implies #[trigger] map
                .tile_at(xx, yy) == (if yy == y && lo <= xx < x + 1 {
                TileType::Floor
            } else {
                old(map).tile_at(xx, yy)
            }) by {
                if yy * 80 + xx == y * 80 + x {
                    lemma_xy_idx_inj(xx, yy, x as int, y as int);
                    assert(map.tile_at(xx, yy) == TileType::Floor);
                } else {
                    assert(map.tile_at(xx, yy) == pre.tile_at(xx, yy));
                }
            }
        }
        x += 1;
    }
    proof {
        assert(map.border_walls()) by {
            assert forall|xx: int, yy: int|
                map.in_bounds(xx, yy) && (xx == 0 || xx == 79 || yy == 0 || yy == 49)
                implies #[trigger] map.tile_at(xx, yy) == TileType::Wall by {}
        }
    }
}

/// Carves a one-cell-wide vertical corridor between two rows.
fn apply_vertical_tunnel(map: &mut GameMap, y1: i32, y2: i32, x: i32)
    requires
        old(map).wf(),
        1 <= x <= 78,
        1 <= y1 <= 48,
        1 <= y2 <= 48,
    ensures
        final(map).wf(),
        final(map).rooms == old(map).rooms,
        final(map).revealed_tiles == old(map).revealed_tiles,
        final(map).visible_tiles == old(map).visible_tiles,
        forall|xx: int, yy: int|
            old(map).in_bounds(xx, yy)
                ==> #[trigger] final(map).tile_at(xx, yy) == (if xx == x && min_i(y1 as int, y2 as int)
                    <= yy <= max_i(y1 as int, y2 as int) {
                    TileType::Floor
                } else {
                    old(map).tile_at(xx, yy)
                }),
{
    let lo = if y1 < y2 {
        y1
    } else {
        y2
    };
    let hi = if y1 < y2 {
        y2
    } else {
        y1
    };
    let mut y = lo;
    while y <= hi
        invariant
            old(map).wf(),
            1 <= x <= 78,
            1 <= lo <= 48,
            1 <= hi <= 48,
            lo == min_i(y1 as int, y2 as int),
            hi == max_i(y1 as int, y2 as int),
            lo <= y <= hi + 1,
            map.width == 80,
            map.height == 50,
            map.tiles@.len() == 4000,
            map.rooms == old(map).rooms,
            map.revealed_tiles == old(map).revealed_tiles,
            map.visible_tiles == old(map).visible_tiles,
            forall|xx: int, yy: int|
                old(map).in_bounds(xx, yy)
                    ==> #[trigger] map.tile_at(xx, yy) == (if xx == x && lo <= yy < y {
                        TileType::Floor
                    } else {
                        old(map).tile_at(xx, yy)
                    }),
        decreases hi + 1 - y,
    {
        let ghost pre = *map;
        let idx = map.xy_idx(x, y);
        map.tiles.set(idx, TileType::Floor);
        proof {
            assert forall|xx: int, yy: int| old(map).in_bounds(xx, yy) implies #[trigger] map
                .tile_at(xx, yy) == (if xx == x && lo <= yy < y + 1 {
                TileType::Floor
            } else {
                old(map).tile_at(xx, yy)
            }) by {
                if yy * 80 + xx == y * 80 + x {
                    lemma_xy_idx_inj(xx, yy, x as int, y as int);
                    assert(map.tile_at(xx, yy) == TileType::Floor);
                } else {
                    assert(map.tile_at(xx, yy) == pre.tile_at(xx, yy));
                }
            }
        }
        y += 1;
    }
    proof {
        assert(map.border_walls()) by {
            assert forall|xx: int, yy: int|
                map.in_bounds(xx, yy) && (xx == 0 || xx == 79 || yy == 0 || yy == 49)
                implies #[trigger] map.tile_at(xx, yy) == TileType::Wall by {}
        }
    }
}

} // verus!
