use rustlike::components::{Color, Key, Name, Point, Position, Renderable, Viewshed};
use rustlike::fov::field_of_view;
use rustlike::game_map::{GameMap, TileType};
use rustlike::monster_ai_system::{contains_point, MonsterAI};
use rustlike::player::{player_input, try_move_player};
use rustlike::rect::Rect;
use rustlike::spawn::init_state;
use rustlike::state::{RunState, State};
use rustlike::visibility_system::VisibilitySystem;
use rustlike::world::World;

fn open_map() -> GameMap {
    let mut tiles = Vec::new();
    for y in 0..50i32 {
        for x in 0..80i32 {
            if x == 0 || x == 79 || y == 0 || y == 49 {
                tiles.push(TileType::Wall);
            } else {
                tiles.push(TileType::Floor);
            }
        }
    }
    GameMap {
        width: 80,
        height: 50,
        tiles,
        revealed_tiles: vec![false; 4000],
        visible_tiles: vec![false; 4000],
        rooms: Vec::new(),
    }
}

fn world_with_player(px: i32, py: i32, dirty: bool, map: GameMap) -> World {
    let renderables: Vec<Option<Renderable>> = vec![None];
    World {
        positions: vec![Some(Position { x: px, y: py })],
        renderables,
        players: vec![true],
        monsters: vec![false],
        names: vec![Some(Name {
            name: "Venturer".to_string(),
        })],
        viewsheds: vec![Some(Viewshed {
            visible_tiles: Vec::new(),
            range: 8,
            dirty,
        })],
        map,
        player_pos: Point { x: px, y: py },
        log: Vec::new(),
    }
}

#[test]
fn seeded_generator_bounds() {
    let m = GameMap::new_map_seeded(42);
    assert!(m.rooms.len() >= 1 && m.rooms.len() <= 30);
    assert_eq!(m.tiles[m.xy_idx(0, 0)], TileType::Wall);
    assert_eq!(m.tiles[m.xy_idx(79, 0)], TileType::Wall);
    assert_eq!(m.tiles[m.xy_idx(0, 49)], TileType::Wall);
    assert_eq!(m.tiles[m.xy_idx(79, 49)], TileType::Wall);
    for x in 0..80i32 {
        assert_eq!(m.tiles[m.xy_idx(x, 0)], TileType::Wall);
        assert_eq!(m.tiles[m.xy_idx(x, 49)], TileType::Wall);
    }
    for y in 0..50i32 {
        assert_eq!(m.tiles[m.xy_idx(0, y)], TileType::Wall);
        assert_eq!(m.tiles[m.xy_idx(79, y)], TileType::Wall);
    }
    for i in 0..4000usize {
        assert!(!m.revealed_tiles[i]);
        assert!(!m.visible_tiles[i]);
    }
}

#[test]
fn generated_rooms_disjoint_and_carved() {
    let m = GameMap::new_map_seeded(7);
    for a in 0..m.rooms.len() {
        for b in 0..m.rooms.len() {
            if a != b {
                assert!(!m.rooms[a].intersect(&m.rooms[b]));
            }
        }
    }
    for r in m.rooms.iter() {
        for y in (r.y1 + 1)..=r.y2 {
            for x in (r.x1 + 1)..=r.x2 {
                assert_eq!(m.tiles[m.xy_idx(x, y)], TileType::Floor);
            }
        }
    }
}

#[test]
fn corridors_join_successive_room_centers() {
    let m = GameMap::new_map_seeded(11);
    for k in 1..m.rooms.len() {
        let (ax, ay) = m.rooms[k - 1].center();
        let (bx, by) = m.rooms[k].center();
        let horiz_at = |y: i32| {
            (ax.min(bx)..=ax.max(bx)).all(|x| m.tiles[m.xy_idx(x, y)] == TileType::Floor)
        };
        let vert_at = |x: i32| {
            (ay.min(by)..=ay.max(by)).all(|y| m.tiles[m.xy_idx(x, y)] == TileType::Floor)
        };
        assert!((horiz_at(ay) && vert_at(bx)) || (vert_at(ax) && horiz_at(by)));
    }
}

#[test]
fn spawn_player_at_first_room_center() {
    let s = init_state(1);
    assert_eq!(s.runstate, RunState::Running);
    let (cx, cy) = s.ecs.map.rooms[0].center();
    let p = s.ecs.positions[0].unwrap();
    assert_eq!((p.x, p.y), (cx, cy));
    assert_eq!((s.ecs.player_pos.x, s.ecs.player_pos.y), (cx, cy));
    assert!(s.ecs.players[0]);
    let vs = s.ecs.viewsheds[0].as_ref().unwrap();
    assert_eq!(vs.range, 8);
    assert!(vs.dirty);
    assert!(vs.visible_tiles.is_empty());
    // one monster in the center of every later room
    for k in 1..s.ecs.map.rooms.len() {
        assert!(s.ecs.monsters[k]);
        let (mx, my) = s.ecs.map.rooms[k].center();
        let mp = s.ecs.positions[k].unwrap();
        assert_eq!((mp.x, mp.y), (mx, my));
    }
}

#[test]
fn wall_blocks_move() {
    let mut map = open_map();
    let idx = map.xy_idx(6, 5);
    map.tiles[idx] = TileType::Wall;
    let mut w = world_with_player(5, 5, false, map);
    try_move_player(1, 0, &mut w);
    let p = w.positions[0].unwrap();
    assert_eq!((p.x, p.y), (5, 5));
    assert!(!w.viewsheds[0].as_ref().unwrap().dirty);
    assert_eq!((w.player_pos.x, w.player_pos.y), (5, 5));
}

#[test]
fn wall_move_is_noop() {
    let mut map = open_map();
    let idx = map.xy_idx(6, 5);
    map.tiles[idx] = TileType::Wall;
    let mut w = world_with_player(5, 5, false, map);
    let positions_before = w.positions.clone();
    let map_tiles_before = w.map.tiles.clone();
    let revealed_before = w.map.revealed_tiles.clone();
    let visible_before = w.map.visible_tiles.clone();
    let ppos_before = w.player_pos;
    try_move_player(1, 0, &mut w);
    assert_eq!(w.positions, positions_before);
    assert_eq!(w.map.tiles, map_tiles_before);
    assert_eq!(w.map.revealed_tiles, revealed_before);
    assert_eq!(w.map.visible_tiles, visible_before);
    assert_eq!(w.player_pos, ppos_before);
}

#[test]
fn floor_move_east() {
    let mut st = State {
        ecs: world_with_player(5, 5, false, open_map()),
        runstate: RunState::Paused,
    };
    let rs = player_input(&mut st, Some(Key::Right));
    assert_eq!(rs, RunState::Running);
    let p = st.ecs.positions[0].unwrap();
    assert_eq!((p.x, p.y), (6, 5));
    assert!(st.ecs.viewsheds[0].as_ref().unwrap().dirty);
    assert_eq!((st.ecs.player_pos.x, st.ecs.player_pos.y), (6, 5));
}

#[test]
fn unknown_key_is_ignored() {
    let mut st = State {
        ecs: world_with_player(5, 5, false, open_map()),
        runstate: RunState::Paused,
    };
    assert_eq!(player_input(&mut st, None), RunState::Paused);
    assert_eq!(player_input(&mut st, Some(Key::Other)), RunState::Paused);
    let p = st.ecs.positions[0].unwrap();
    assert_eq!((p.x, p.y), (5, 5));
}

#[test]
fn player_pos_mirrors_position_after_moves() {
    let mut st = State {
        ecs: world_with_player(5, 5, false, open_map()),
        runstate: RunState::Paused,
    };
    let keys = [Key::Right, Key::Down, Key::Down, Key::Left, Key::Up, Key::A, Key::S, Key::D, Key::W];
    for k in keys {
        st.runstate = RunState::Paused;
        st.tick(Some(k));
        let p = st.ecs.positions[0].unwrap();
        assert_eq!((st.ecs.player_pos.x, st.ecs.player_pos.y), (p.x, p.y));
    }
}

#[test]
fn moves_stay_inside_grid() {
    let mut w = world_with_player(1, 1, false, open_map());
    for _ in 0..5 {
        try_move_player(-1, 0, &mut w);
        try_move_player(0, -1, &mut w);
    }
    let p = w.positions[0].unwrap();
    assert!(p.x >= 0 && p.x <= 79 && p.y >= 0 && p.y <= 49);
    assert_eq!((p.x, p.y), (1, 1));
    let mut w2 = world_with_player(78, 48, false, open_map());
    for _ in 0..5 {
        try_move_player(1, 0, &mut w2);
        try_move_player(0, 1, &mut w2);
    }
    let p2 = w2.positions[0].unwrap();
    assert!(p2.x >= 0 && p2.x <= 79 && p2.y >= 0 && p2.y <= 49);
    assert_eq!((p2.x, p2.y), (78, 48));
}

#[test]
fn fov_range_zero_is_origin_only() {
    let map = open_map();
    let v = field_of_view(Point { x: 5, y: 5 }, 0, &map);
    assert_eq!(v.len(), 1);
    assert_eq!(v[0], Point { x: 5, y: 5 });
}

#[test]
fn fov_origin_and_neighbors_in_open_room() {
    let map = open_map();
    let v = field_of_view(Point { x: 10, y: 10 }, 8, &map);
    for dy in -1..=1i32 {
        for dx in -1..=1i32 {
            assert!(contains_point(&v, Point { x: 10 + dx, y: 10 + dy }));
        }
    }
    // a cell further than the radius is not visible
    assert!(!contains_point(&v, Point { x: 30, y: 10 }));
}

#[test]
fn fov_symmetry_samples() {
    let mut map = open_map();
    // a short wall between the two probes
    for y in 8..=12i32 {
        let idx = map.xy_idx(15, y);
        map.tiles[idx] = TileType::Wall;
    }
    let probes = [
        (Point { x: 12, y: 10 }, Point { x: 18, y: 10 }),
        (Point { x: 12, y: 10 }, Point { x: 14, y: 10 }),
        (Point { x: 13, y: 7 }, Point { x: 17, y: 13 }),
        (Point { x: 10, y: 10 }, Point { x: 11, y: 11 }),
    ];
    for (a, b) in probes {
        let fa = field_of_view(a, 8, &map);
        let fb = field_of_view(b, 8, &map);
        assert_eq!(contains_point(&fa, b), contains_point(&fb, a));
    }
}

#[test]
fn fov_wall_edge_visible_but_not_behind() {
    let mut map = open_map();
    for y in 5..=15i32 {
        let idx = map.xy_idx(15, y);
        map.tiles[idx] = TileType::Wall;
    }
    let v = field_of_view(Point { x: 12, y: 10 }, 8, &map);
    // the wall itself is visible, the cell straight behind it is not
    assert!(contains_point(&v, Point { x: 15, y: 10 }));
    assert!(!contains_point(&v, Point { x: 17, y: 10 }));
}

#[test]
fn visibility_reveals_around_player() {
    let mut st = State {
        ecs: world_with_player(10, 10, true, open_map()),
        runstate: RunState::Running,
    };
    st.tick(None);
    assert_eq!(st.runstate, RunState::Paused);
    for dy in -1..=1i32 {
        for dx in -1..=1i32 {
            let idx = st.ecs.map.xy_idx(10 + dx, 10 + dy);
            assert!(st.ecs.map.revealed_tiles[idx]);
            assert!(st.ecs.map.visible_tiles[idx]);
        }
    }
    // a currently visible cell is always revealed
    for i in 0..4000usize {
        if st.ecs.map.visible_tiles[i] {
            assert!(st.ecs.map.revealed_tiles[i]);
        }
    }
    // the viewshed is fresh and in bounds
    let vs = st.ecs.viewsheds[0].as_ref().unwrap();
    assert!(!vs.dirty);
    for p in vs.visible_tiles.iter() {
        assert!(p.x >= 0 && p.x < 80 && p.y >= 0 && p.y < 50);
    }
}

#[test]
fn visibility_pass_is_idempotent() {
    let mut w = world_with_player(10, 10, true, open_map());
    let mut vis = VisibilitySystem {};
    vis.run(&mut w);
    assert!(!w.viewsheds[0].as_ref().unwrap().dirty);
    let tiles_after_first = w.viewsheds[0].as_ref().unwrap().visible_tiles.clone();
    let visible_after_first = w.map.visible_tiles.clone();
    let revealed_after_first = w.map.revealed_tiles.clone();
    vis.run(&mut w);
    assert!(!w.viewsheds[0].as_ref().unwrap().dirty);
    assert_eq!(
        w.viewsheds[0].as_ref().unwrap().visible_tiles,
        tiles_after_first
    );
    assert_eq!(w.map.visible_tiles, visible_after_first);
    assert_eq!(w.map.revealed_tiles, revealed_after_first);
}

#[test]
fn monster_shouts_when_player_is_seen() {
    let mut w = world_with_player(11, 10, true, open_map());
    w.positions.push(Some(Position { x: 12, y: 10 }));
    w.renderables.push(None);
    w.players.push(false);
    w.monsters.push(true);
    w.names.push(Some(Name {
        name: "orc #0".to_string(),
    }));
    w.viewsheds.push(Some(Viewshed {
        visible_tiles: Vec::new(),
        range: 8,
        dirty: true,
    }));
    let mut st = State {
        ecs: w,
        runstate: RunState::Running,
    };
    // first pass: the monster's viewshed is still empty, then gets filled
    st.tick(None);
    assert!(st.ecs.log.is_empty());
    // second pass: the monster now sees the player's cell
    st.runstate = RunState::Running;
    st.tick(None);
    assert!(st
        .ecs
        .log
        .iter()
        .any(|s| s == "orc #0 shouts insults"));
    let len_after = st.ecs.log.len();
    // move the player out of range; no new notice on the next pass
    st.ecs.positions[0] = Some(Position { x: 30, y: 10 });
    st.ecs.player_pos = Point { x: 30, y: 10 };
    st.runstate = RunState::Running;
    st.tick(None);
    assert_eq!(st.ecs.log.len(), len_after);
}

#[test]
fn monster_ai_alone_reads_stale_viewshed() {
    let mut w = world_with_player(11, 10, true, open_map());
    w.positions.push(Some(Position { x: 12, y: 10 }));
    w.renderables.push(None);
    w.players.push(false);
    w.monsters.push(true);
    w.names.push(Some(Name {
        name: "goblin #3".to_string(),
    }));
    w.viewsheds.push(Some(Viewshed {
        visible_tiles: vec![Point { x: 11, y: 10 }],
        range: 8,
        dirty: false,
    }));
    let mut ai = MonsterAI {};
    ai.run(&mut w);
    assert_eq!(w.log.len(), 1);
    assert_eq!(w.log[0], "goblin #3 shouts insults");
}

#[test]
fn cell_appearance_follows_rendering_rules() {
    let mut map = open_map();
    let vis_idx = map.xy_idx(5, 5);
    map.visible_tiles[vis_idx] = true;
    map.revealed_tiles[vis_idx] = true;
    let rev_idx = map.xy_idx(7, 5);
    map.revealed_tiles[rev_idx] = true;
    let wall_idx = map.xy_idx(0, 5);
    map.visible_tiles[wall_idx] = true;
    map.revealed_tiles[wall_idx] = true;
    assert_eq!(
        map.cell_appearance(5, 5),
        Some((46u16, Color { r: 0, g: 204, b: 153 }))
    );
    assert_eq!(
        map.cell_appearance(7, 5),
        Some((46u16, Color { r: 128, g: 128, b: 128 }))
    );
    assert_eq!(
        map.cell_appearance(0, 5),
        Some((35u16, Color { r: 0, g: 255, b: 0 }))
    );
    assert_eq!(map.cell_appearance(9, 9), None);
    assert!(map.is_visible(5, 5));
    assert!(!map.is_visible(9, 9));
}

#[test]
fn xy_idx_is_row_major() {
    let map = open_map();
    assert_eq!(map.xy_idx(0, 0), 0);
    assert_eq!(map.xy_idx(3, 2), 163);
    assert_eq!(map.xy_idx(79, 49), 3999);
}

#[test]
fn rect_center_and_intersect() {
    let a = Rect::new(10, 10, 6, 6);
    assert_eq!((a.x1, a.y1, a.x2, a.y2), (10, 10, 16, 16));
    assert_eq!(a.center(), (13, 13));
    let b = Rect::new(16, 16, 6, 6);
    assert!(a.intersect(&b));
    let c = Rect::new(17, 17, 6, 6);
    assert!(!a.intersect(&c));
    assert!(!c.intersect(&a));
}
