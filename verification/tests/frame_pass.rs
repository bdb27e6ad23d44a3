use lilah::components::{
    Component, ComponentKind, Layer, Rigidbody, Scene, SceneAsset, SceneData, Sfx, Sprite,
    TextureAsset, Tile, TileSheet, Transform,
};
use lilah::gameobject::GameObject;
use lilah::math::Vec2;
use lilah::world::World;

fn sheet() -> TileSheet {
    TileSheet {
        filename: "tiles.png".to_string(),
        path: "tiles.png".to_string(),
        absolute_path: "assets/tiles.png".to_string(),
        tile_size: (16, 16),
        sheet_size: (64, 64),
    }
}

fn tile_at(x: i64, y: i64) -> ((i32, i32), Tile) {
    (
        (x as i32, y as i32),
        Tile { sheet: "tiles.png".to_string(), sheet_id: (1, 2), position: Vec2::new(x, y) },
    )
}

fn scene_data() -> SceneData {
    SceneData {
        name: "level".to_string(),
        path: "level.json".to_string(),
        tile_sheets: vec![sheet()],
        layers: vec![Layer {
            tiles: vec![tile_at(0, 0), tile_at(16, 0)],
            visible: true,
            collision: true,
            tile_sheet: "tiles.png".to_string(),
            current_tile_item: 0,
        }],
        markers: vec![],
    }
}

#[test]
fn scene_load_builds_colliders_from_tiles() {
    let mut sc = Scene::new("level".to_string());
    let textures = vec![TextureAsset { id: "assets/tiles.png".to_string(), size: (64, 64) }];
    let scenes = vec![SceneAsset { id: "level".to_string(), data: scene_data() }];
    sc.load(&textures, &scenes);
    assert_eq!(sc.rigidbodies.len(), 2);
    assert_eq!(sc.rigidbodies[0].position, Vec2::new(0, 0));
    assert_eq!(sc.rigidbodies[0].bounds, Vec2::new(16, 16));
    assert!(sc.rigidbodies[0].solid);
    assert_eq!(sc.rigidbodies[1].position, Vec2::new(16, 0));
    assert_eq!(sc.tiles.len(), 1);
    assert_eq!(sc.tiles[0].len(), 2);
    let sp = &sc.tiles[0][0];
    assert_eq!(sp.texture_id, "assets/tiles.png");
    assert_eq!(sp.size, (4, 4));
    assert_eq!(sp.base_size, (64, 64));
    assert_eq!(sp.index_cut, (1, 2));
    assert_eq!(sp.sort, 0);
    assert_eq!(sc.transforms[0][1].position, Vec2::new(16, 0));
}

#[test]
fn entity_load_advances_lifecycle_and_seeds_body() {
    let mut g = GameObject::new("hero".to_string());
    g.push_component(Component::Transform(Transform::new(Vec2::new(30, 40))));
    g.push_component(Component::Sprite(Sprite::new("hero.png")));
    g.push_component(Component::Rigidbody(Rigidbody::new_without_pos()));
    let textures = vec![TextureAsset { id: "hero.png".to_string(), size: (32, 48) }];
    let fonts: Vec<String> = vec![];
    let sfx: Vec<String> = vec![];
    let scenes = vec![];
    assert!(!g.init && !g.start);
    let _ = g.load(&textures, &fonts, &sfx, &scenes);
    assert!(g.init && !g.start);
    let body = g.get(ComponentKind::Rigidbody).as_rigidbody().unwrap();
    assert_eq!(body.position, Vec2::new(30, 40));
    assert_eq!(body.bounds, Vec2::new(32, 48));
    let sp = g.get(ComponentKind::Sprite).as_sprite().unwrap();
    assert_eq!(sp.base_size, (32, 48));
    let _ = g.load(&textures, &fonts, &sfx, &scenes);
    assert!(g.init && g.start);
}

#[test]
fn entity_load_drains_armed_sounds() {
    let mut g = GameObject::new("noisy".to_string());
    let mut s = Sfx::new("step".to_string(), "step.wav".to_string());
    s.play();
    s.volume = 96;
    g.push_component(Component::Sfx(s));
    g.push_component(Component::Sfx(Sfx::new("idle".to_string(), "idle.wav".to_string())));
    let textures = vec![];
    let fonts: Vec<String> = vec![];
    let sfx = vec!["step.wav".to_string()];
    let scenes = vec![];
    let (su, _) = g.load(&textures, &fonts, &sfx, &scenes);
    let updates = su.sfx.unwrap();
    assert_eq!(updates.len(), 1);
    assert_eq!(updates[0].0, "step.wav");
    assert_eq!(updates[0].1, 96);
    let drained = g.wrap_all(ComponentKind::Sfx);
    assert!(!drained[0].as_sfx().unwrap().play_state);
}

#[test]
fn tick_synchronizes_transform_with_body() {
    let mut g = GameObject::new("hero".to_string());
    let mut t = Transform::new(Vec2::new(1, 1));
    t.scale = Vec2::new(2, 2);
    t.pivot = Vec2::new(3, 3);
    g.push_component(Component::Transform(t));
    let mut body = Rigidbody::new(Vec2::new(50, 60));
    body.rotation = 7;
    g.push_component(Component::Rigidbody(body));
    g.update(16);
    let t = g.get(ComponentKind::Transform).as_transform().unwrap();
    assert_eq!(t.position, Vec2::new(50, 60));
    assert_eq!(t.rotation, 7);
    let b = g.get(ComponentKind::Rigidbody).as_rigidbody().unwrap();
    assert_eq!(b.scale, Vec2::new(2, 2));
    assert_eq!(b.pivot, Vec2::new(3, 3));
}

#[test]
fn full_frame_moves_and_blocks() {
    let mut world = World::new();
    let mut mover = GameObject::new("mover".to_string());
    let mut mb = Rigidbody::new(Vec2::new(0, 0));
    mb.bounds = Vec2::new(10, 10);
    mb.velocity = Vec2::new(1, 0);
    mover.push_component(Component::Rigidbody(mb));
    mover.init = true;
    mover.start = true;
    let mut free = GameObject::new("free".to_string());
    let mut fb = Rigidbody::new(Vec2::new(500, 0));
    fb.bounds = Vec2::new(10, 10);
    fb.velocity = Vec2::new(2, 0);
    free.push_component(Component::Rigidbody(fb));
    free.init = true;
    free.start = true;
    world.state.insert(mover);
    world.state.insert(free);
    let updates = world.update(2);
    assert_eq!(updates.len(), 2);
    let moved = world.get(&"mover".to_string());
    let b = moved.get(ComponentKind::Rigidbody).as_rigidbody().unwrap();
    assert_eq!(b.position, Vec2::new(2, 0));
    let far = world.get(&"free".to_string());
    let fb2 = far.get(ComponentKind::Rigidbody).as_rigidbody().unwrap();
    assert_eq!(fb2.position, Vec2::new(504, 0));
}

#[test]
fn full_frame_blocks_and_back_references() {
    // two bare solid colliders; the mover is blocked over the whole frame
    // and both reference each other afterwards
    let mut world = World::new();
    let mut mover = GameObject::new("mover".to_string());
    let mut mb = Rigidbody::new(Vec2::new(0, 0));
    mb.bounds = Vec2::new(10, 10);
    mb.velocity = Vec2::new(1, 0);
    mover.push_component(Component::Rigidbody(mb));
    mover.init = true;
    mover.start = true;
    let mut wall = GameObject::new("wall".to_string());
    let mut wb = Rigidbody::new(Vec2::new(8, 0));
    wb.bounds = Vec2::new(10, 10);
    wall.push_component(Component::Rigidbody(wb));
    wall.init = true;
    wall.start = true;
    world.state.insert(mover);
    world.state.insert(wall);
    let _ = world.update(2);
    let a = world.get(&"mover".to_string());
    let ab = a.get(ComponentKind::Rigidbody).as_rigidbody().unwrap();
    assert_eq!(ab.position, Vec2::new(0, 0));
    let b = world.get(&"wall".to_string());
    let bb = b.get(ComponentKind::Rigidbody).as_rigidbody().unwrap();
    assert_eq!(bb.position, Vec2::new(8, 0));
    assert_eq!(ab.colliding.as_ref().unwrap().name, "wall");
    assert_eq!(bb.colliding.as_ref().unwrap().name, "mover");
}
