use lilah::components::{Component, Rigidbody, Scene};
use lilah::gameobject::GameObject;
use lilah::math::{Rect, Vec2};
use lilah::world::WorldState;

fn body(x: i64, y: i64, w: i64, h: i64, vx: i64, solid: bool) -> Rigidbody {
    let mut b = Rigidbody::new(Vec2::new(x, y));
    b.bounds = Vec2::new(w, h);
    b.velocity = Vec2::new(vx, 0);
    b.solid = solid;
    b
}

fn entity(name: &str, b: Rigidbody) -> GameObject {
    let mut g = GameObject::new(name.to_string());
    g.push_component(Component::Rigidbody(b));
    g.init = true;
    g.start = true;
    g
}

#[test]
fn overlapping_bodies_hit() {
    let a = body(0, 0, 10, 10, 0, true);
    let b = body(8, 0, 10, 10, 0, true);
    let (hit, _) = a.check_collision_sat(&b);
    assert!(hit);
}

#[test]
fn separated_bodies_miss_with_zero_translation() {
    let a = body(0, 0, 10, 10, 0, true);
    let b = body(100, 0, 10, 10, 0, true);
    let (hit, mtv) = a.check_collision_sat(&b);
    assert!(!hit);
    assert_eq!(mtv.axis, Vec2::new(0, 0));
    assert_eq!(mtv.depth, 0);
}

#[test]
fn touching_edges_count_as_overlap() {
    let a = body(0, 0, 10, 10, 0, true);
    let b = body(10, 0, 10, 10, 0, true);
    let (hit, _) = a.check_collision_sat(&b);
    assert!(hit);
}

#[test]
fn collision_symmetry() {
    let a = body(0, 3, 10, 12, 0, true);
    let b = body(7, -2, 14, 10, 0, true);
    let (hit_ab, mtv_ab) = a.check_collision_sat(&b);
    let (hit_ba, mtv_ba) = b.check_collision_sat(&a);
    assert_eq!(hit_ab, hit_ba);
    assert!(hit_ab);
    // normalized magnitudes agree: d1^2 * |axis2|^2 == d2^2 * |axis1|^2
    let l_ab = mtv_ab.axis.magnitude_sqr() as i128;
    let l_ba = mtv_ba.axis.magnitude_sqr() as i128;
    let d_ab = mtv_ab.depth as i128;
    let d_ba = mtv_ba.depth as i128;
    assert_eq!(d_ab * d_ab * l_ba, d_ba * d_ba * l_ab);
}

#[test]
fn least_penetration_axis_is_chosen() {
    let r1 = Rect::from_extents(0, 0, 10, 10);
    let r2 = Rect::from_extents(8, 0, 10, 10);
    let (hit, mtv) = r1.intersects(&r2);
    assert!(hit);
    // horizontal penetration 2 on an axis of length 10: depth is measured
    // in axis-length units
    assert_eq!(mtv.depth, 20);
    assert_eq!(mtv.axis.magnitude_sqr(), 100);
    assert_eq!(mtv.axis.y, 0);
}

#[test]
fn resolution_convergence_one_step() {
    // both solid, velocity only on x: after one horizontal sub-step the
    // horizontal overlap may not grow
    let mut w = WorldState::new();
    w.gameobjects.push(entity("a", body(0, 0, 10, 10, 1, true)));
    w.gameobjects.push(entity("b", body(8, 0, 10, 10, 0, true)));
    // pre-frame x-overlap: a covers [-5,5], b covers [3,13] -> 2
    w.update_vel_x(2);
    // integrated: a at x=2 -> overlap 4, the step is undone for both
    w.resolve_x(2);
    let a = w.gameobjects[0].get(lilah::components::ComponentKind::Rigidbody).as_rigidbody().unwrap().clone();
    let b = w.gameobjects[1].get(lilah::components::ComponentKind::Rigidbody).as_rigidbody().unwrap().clone();
    assert_eq!(a.position, Vec2::new(0, 0));
    assert_eq!(b.position, Vec2::new(8, 0));
    assert!(a.colliding.is_some());
    assert!(b.colliding.is_some());
}

#[test]
fn solid_trigger_distinction() {
    // a is a trigger (not solid), b is solid; a moves into b.
    // the mover a is pushed back because the side it resolves against is
    // solid; b itself is never corrected because a is not solid; both
    // record the collision back-reference.
    let mut w = WorldState::new();
    w.gameobjects.push(entity("a", body(0, 0, 10, 10, 1, false)));
    w.gameobjects.push(entity("b", body(8, 0, 10, 10, 0, true)));
    w.update_vel_x(2);
    w.resolve_x(2);
    let a = w.gameobjects[0].get(lilah::components::ComponentKind::Rigidbody).as_rigidbody().unwrap().clone();
    let b = w.gameobjects[1].get(lilah::components::ComponentKind::Rigidbody).as_rigidbody().unwrap().clone();
    assert_eq!(a.position, Vec2::new(0, 0));
    assert_eq!(b.position, Vec2::new(8, 0));
    let a_ref = a.colliding.unwrap();
    let b_ref = b.colliding.unwrap();
    assert_eq!(a_ref.uuid, w.gameobjects[1].id.uuid);
    assert_eq!(b_ref.uuid, w.gameobjects[0].id.uuid);
}

#[test]
fn non_colliding_pass_clears_back_reference() {
    let mut w = WorldState::new();
    let mut a = body(0, 0, 10, 10, 0, true);
    a.colliding = Some(lilah::gameobject::GameObjectId::new("ghost".to_string()));
    w.gameobjects.push(entity("a", a));
    w.gameobjects.push(entity("b", body(200, 0, 10, 10, 0, true)));
    w.update_vel_x(2);
    w.resolve_x(2);
    let a = w.gameobjects[0].get(lilah::components::ComponentKind::Rigidbody).as_rigidbody().unwrap().clone();
    assert!(a.colliding.is_none());
}

#[test]
fn aabb_interval_test() {
    let a = body(0, 0, 10, 10, 0, true);
    let b = body(9, 9, 10, 10, 0, true);
    assert!(a.check_collision_aabb(&b));
    let c = body(50, 0, 10, 10, 0, true);
    assert!(!a.check_collision_aabb(&c));
}

#[test]
fn collision_facts_cover_ordered_pairs() {
    let mut w = WorldState::new();
    w.gameobjects.push(entity("a", body(0, 0, 10, 10, 0, true)));
    w.gameobjects.push(entity("b", body(8, 0, 10, 10, 0, true)));
    w.gameobjects.push(entity("c", body(300, 0, 10, 10, 0, true)));
    let facts = w.check_collision();
    // three entities, each tested against the two others, in pass order
    assert_eq!(facts.len(), 6);
    assert!(facts[0].hit); // a against b
    assert!(!facts[1].hit); // a against c
    assert_eq!(facts[0].a.name, "a");
    assert_eq!(facts[0].b.name, "b");
    assert_eq!(facts[1].mtv.depth, 0);
    // symmetric pair reports the same overlap flag
    let ab = facts.iter().find(|f| f.a.name == "a" && f.b.name == "b").unwrap();
    let ba = facts.iter().find(|f| f.a.name == "b" && f.b.name == "a").unwrap();
    assert_eq!(ab.hit, ba.hit);
}

#[test]
fn collision_facts_include_scene_bodies() {
    let mut w = WorldState::new();
    w.gameobjects.push(entity("mover", body(0, 0, 10, 10, 0, true)));
    let mut holder = GameObject::new("level".to_string());
    let mut sc = Scene::new("level".to_string());
    let mut tile_body = Rigidbody::new(Vec2::new(4, 0));
    tile_body.bounds = Vec2::new(16, 16);
    sc.rigidbodies.push(tile_body);
    holder.push_component(Component::Scene(sc));
    holder.init = true;
    w.gameobjects.push(holder);
    let facts = w.check_collision();
    // the mover against the level's one static body; the level itself has
    // no body of its own and contributes no row
    assert_eq!(facts.len(), 1);
    assert!(facts[0].hit);
    assert_eq!(facts[0].a.name, "mover");
    assert_eq!(facts[0].b.name, "level");
}
