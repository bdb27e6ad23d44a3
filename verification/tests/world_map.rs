use lilah::components::{Component, Transform};
use lilah::gameobject::GameObject;
use lilah::math::Vec2;
use lilah::world::WorldState;

#[test]
fn insert_keys_by_unique_id() {
    let mut w = WorldState::new();
    let a = GameObject::new("a".to_string());
    let b = GameObject::new("b".to_string());
    w.insert(a);
    w.insert(b);
    assert_eq!(w.gameobjects.len(), 2);
    assert_ne!(w.gameobjects[0].id.uuid, w.gameobjects[1].id.uuid);
}

#[test]
fn insert_assigns_script_ordinal() {
    let mut w = WorldState::new();
    w.insert(GameObject::new("a".to_string()));
    w.insert(GameObject::new("b".to_string()));
    assert_eq!(w.gameobjects[0].wren_id, 0);
    assert_eq!(w.gameobjects[1].wren_id, 1);
}

#[test]
fn reinserting_same_id_replaces_not_duplicates() {
    let mut w = WorldState::new();
    let a = GameObject::new("a".to_string());
    let mut a2 = a.clone();
    a2.id.name = "renamed".to_string();
    w.insert(a);
    w.insert(a2);
    assert_eq!(w.gameobjects.len(), 1);
    assert_eq!(w.gameobjects[0].id.name, "renamed");
}

#[test]
fn wrap_finds_by_name_or_uuid() {
    let mut w = WorldState::new();
    let mut a = GameObject::new("camera".to_string());
    a.push_component(Component::Transform(Transform::new(Vec2::new(5, 6))));
    let uuid = a.id.uuid.clone();
    w.insert(a);
    let by_name = w.wrap(&"camera".to_string()).unwrap();
    assert_eq!(by_name.id.uuid, uuid);
    let by_uuid = w.wrap(&uuid).unwrap();
    assert_eq!(by_uuid.id.name, "camera");
    assert!(w.wrap(&"nobody".to_string()).is_none());
}

#[test]
fn get_returns_the_named_entity() {
    let mut w = WorldState::new();
    w.insert(GameObject::new("solo".to_string()));
    let g = w.get(&"solo".to_string());
    assert_eq!(g.id.name, "solo");
}

#[test]
fn remove_by_unique_id() {
    let mut w = WorldState::new();
    let a = GameObject::new("a".to_string());
    let uuid = a.id.uuid.clone();
    w.insert(a);
    w.insert(GameObject::new("b".to_string()));
    w.remove_uuid(&uuid);
    assert_eq!(w.gameobjects.len(), 1);
    assert_eq!(w.gameobjects[0].id.name, "b");
    // removing an id that no longer lives is a no-op
    w.remove_uuid(&uuid);
    assert_eq!(w.gameobjects.len(), 1);
}

#[test]
fn uuids_stay_unique_across_churn() {
    let mut w = WorldState::new();
    let mut uuids: Vec<String> = Vec::new();
    for i in 0..8 {
        let g = GameObject::new(format!("e{}", i));
        uuids.push(g.id.uuid.clone());
        w.insert(g);
    }
    w.remove_uuid(&uuids[2]);
    w.remove_uuid(&uuids[5]);
    w.insert(GameObject::new("late".to_string()));
    for i in 0..w.gameobjects.len() {
        for j in 0..w.gameobjects.len() {
            if i != j {
                assert_ne!(w.gameobjects[i].id.uuid, w.gameobjects[j].id.uuid);
            }
        }
    }
}
