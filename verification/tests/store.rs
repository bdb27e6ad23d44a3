use lilah::components::{Component, ComponentKind, Rigidbody, Sfx, Transform};
use lilah::gameobject::GameObject;
use lilah::math::Vec2;

fn transform_at(x: i64, y: i64) -> Transform {
    Transform::new(Vec2::new(x, y))
}

#[test]
fn has_then_get_never_fails() {
    let mut g = GameObject::new("player".to_string());
    g.push_component(Component::Transform(transform_at(3, 4)));
    assert!(g.has(ComponentKind::Transform));
    let c = g.get(ComponentKind::Transform);
    let t = c.as_transform().unwrap();
    assert_eq!(t.position, Vec2::new(3, 4));
}

#[test]
fn get_twice_observes_same_value() {
    let mut g = GameObject::new("player".to_string());
    g.push_component(Component::Transform(transform_at(7, 9)));
    let first = match g.get(ComponentKind::Transform).as_transform() {
        Some(t) => t.position,
        None => panic!("expected a transform"),
    };
    let second = match g.get(ComponentKind::Transform).as_transform() {
        Some(t) => t.position,
        None => panic!("expected a transform"),
    };
    assert_eq!(first, second);
}

#[test]
fn missing_kind_reports_absent() {
    let g = GameObject::new("empty".to_string());
    assert!(!g.has(ComponentKind::Rigidbody));
    assert!(g.wrap_component(ComponentKind::Rigidbody).is_none());
}

#[test]
fn first_match_wins_on_duplicates() {
    let mut g = GameObject::new("dup".to_string());
    g.push_component(Component::Transform(transform_at(1, 1)));
    g.push_component(Component::Transform(transform_at(2, 2)));
    let t = g.get(ComponentKind::Transform).as_transform().unwrap();
    assert_eq!(t.position, Vec2::new(1, 1));
}

#[test]
fn set_component_replaces_first_of_kind() {
    let mut g = GameObject::new("dup".to_string());
    g.push_component(Component::Transform(transform_at(1, 1)));
    g.push_component(Component::Transform(transform_at(2, 2)));
    g.set_component(Component::Transform(transform_at(5, 5)));
    let all = g.wrap_all(ComponentKind::Transform);
    assert_eq!(all.len(), 2);
    assert_eq!(all[0].as_transform().unwrap().position, Vec2::new(5, 5));
    assert_eq!(all[1].as_transform().unwrap().position, Vec2::new(2, 2));
}

#[test]
fn clone_fidelity_every_kind() {
    let mut g = GameObject::new("hero".to_string());
    g.push_component(Component::Transform(transform_at(10, 20)));
    let mut body = Rigidbody::new(Vec2::new(10, 20));
    body.bounds = Vec2::new(16, 16);
    body.solid = false;
    g.push_component(Component::Rigidbody(body));
    let mut step = Sfx::new("step".to_string(), "step.wav".to_string());
    step.play();
    g.push_component(Component::Sfx(step));
    g.push_component(Component::Sfx(Sfx::new("jump".to_string(), "jump.wav".to_string())));

    let c = g.clone();
    assert_eq!(c.id.name, g.id.name);
    assert_eq!(c.id.uuid, g.id.uuid);
    assert_eq!(c.init, g.init);
    assert_eq!(c.start, g.start);

    let kinds = [
        ComponentKind::Transform,
        ComponentKind::Rigidbody,
        ComponentKind::Sfx,
        ComponentKind::Text,
    ];
    for k in kinds {
        let mine = g.wrap_all(k);
        let theirs = c.wrap_all(k);
        assert_eq!(mine.len(), theirs.len());
        for (a, b) in mine.iter().zip(theirs.iter()) {
            assert_eq!(a, b);
        }
    }
    let sfx_list = c.wrap_all(ComponentKind::Sfx);
    assert_eq!(sfx_list.len(), 2);
    assert!(sfx_list[0].as_sfx().unwrap().play_state);
    assert_eq!(sfx_list[1].as_sfx().unwrap().name, "jump");
}

#[test]
fn builder_appends_in_order() {
    let g = GameObject::new("built".to_string())
        .with(Component::Transform(transform_at(0, 0)))
        .with(Component::Rigidbody(Rigidbody::new_without_pos()));
    assert!(g.has(ComponentKind::Transform));
    assert!(g.has(ComponentKind::Rigidbody));
    assert_eq!(g.index_of_kind(ComponentKind::Transform), 0);
    assert_eq!(g.index_of_kind(ComponentKind::Rigidbody), 1);
}

#[test]
fn build_seeds_collider_from_transform() {
    let g = GameObject::new("built".to_string())
        .with(Component::Transform(transform_at(12, 34)))
        .with(Component::Rigidbody(Rigidbody::new_without_pos()))
        .build();
    let b = g.get(ComponentKind::Rigidbody).as_rigidbody().unwrap();
    assert_eq!(b.position, Vec2::new(12, 34));
}
