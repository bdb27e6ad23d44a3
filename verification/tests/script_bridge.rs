use lilah::components::{Component, ComponentBehaviour, Rigidbody};
use lilah::gameobject::{GameObject, GameObjectId};
use lilah::math::Vec2;
use lilah::scripting::{
    next_frame, parse_audio_command, plan_frame, plan_module_tick, AudioAction, ScriptCall,
    TickRun,
};
use lilah::world::WorldState;

fn behaviour_entity(name: &str, module: &str, init: bool, start: bool) -> GameObject {
    let mut g = GameObject::new(name.to_string());
    g.push_component(Component::Behaviour(ComponentBehaviour::new(module.to_string())));
    g.init = init;
    g.start = start;
    g
}

fn module_calls(plan: &[ScriptCall]) -> Vec<String> {
    let mut out = Vec::new();
    for c in plan {
        match c {
            ScriptCall::ModuleSetup(m) => out.push(format!("setup:{}", m)),
            ScriptCall::ModuleStart(m) => out.push(format!("start:{}", m)),
            ScriptCall::ModuleUpdate(m) => out.push(format!("update:{}", m)),
            _ => {}
        }
    }
    out
}

#[test]
fn lifecycle_sequencing_over_three_frames() {
    let module = "Mover".to_string();
    let gos: Vec<GameObject> = vec![behaviour_entity("e", "Mover", false, false)];
    let mut frame: u64 = 0;
    let mut observed: Vec<String> = Vec::new();
    for _ in 0..5 {
        let plan = plan_module_tick(&module, frame, &gos);
        observed.extend(module_calls(&plan));
        frame = next_frame(frame);
    }
    assert_eq!(
        observed,
        vec![
            "setup:Mover".to_string(),
            "start:Mover".to_string(),
            "update:Mover".to_string(),
            "update:Mover".to_string(),
            "update:Mover".to_string(),
        ]
    );
}

#[test]
fn frame_counter_saturates() {
    assert_eq!(next_frame(0), 1);
    assert_eq!(next_frame(7), 8);
    assert_eq!(next_frame(u64::MAX), u64::MAX);
}

#[test]
fn entity_dispatch_by_lifecycle_flags() {
    let module = "Mover".to_string();
    let fresh = behaviour_entity("fresh", "Mover", true, false);
    let running = behaviour_entity("running", "Mover", true, true);
    let other = behaviour_entity("other", "Jumper", true, true);
    let gos = vec![fresh, running, other];
    let plan = plan_module_tick(&module, 10, &gos);
    let mut starts = 0;
    let mut updates = 0;
    for c in &plan {
        match c {
            ScriptCall::EntityStart { module: m, .. } => {
                assert_eq!(m, "Mover");
                starts += 1;
            }
            ScriptCall::EntityUpdate { module: m, .. } => {
                assert_eq!(m, "Mover");
                updates += 1;
            }
            _ => {}
        }
    }
    assert_eq!(starts, 1);
    assert_eq!(updates, 1);
}

#[test]
fn collision_callback_follows_update() {
    let module = "Mover".to_string();
    let mut g = behaviour_entity("hit", "Mover", true, true);
    let mut body = Rigidbody::new(Vec2::new(0, 0));
    body.colliding = Some(GameObjectId::new("wall".to_string()));
    g.push_component(Component::Rigidbody(body));
    let gos = vec![g];
    let plan = plan_module_tick(&module, 10, &gos);
    let mut saw_update_at = None;
    let mut saw_collision_at = None;
    for (i, c) in plan.iter().enumerate() {
        match c {
            ScriptCall::EntityUpdate { .. } => saw_update_at = Some(i),
            ScriptCall::OnCollision { other_name, .. } => {
                assert_eq!(other_name, "wall");
                saw_collision_at = Some(i);
            }
            _ => {}
        }
    }
    assert!(saw_update_at.unwrap() < saw_collision_at.unwrap());
}

#[test]
fn dispatch_isolation_between_modules() {
    // a failure reported for every call of the first module must not keep
    // the second module's update out of reach
    let modules = vec![("First".to_string(), 10u64), ("Second".to_string(), 10u64)];
    let gos: Vec<GameObject> = vec![behaviour_entity("e1", "First", true, true)];
    let plan = plan_frame(&modules, &gos);
    let mut run = TickRun::new(plan);
    let mut second_updated = false;
    loop {
        let call = match run.next_call() {
            Some(c) => c.clone(),
            None => break,
        };
        if let ScriptCall::ModuleUpdate(m) = &call {
            if m == "Second" {
                second_updated = true;
            }
        }
        // report every call as failed; the run must still advance
        run.record_result(true);
    }
    assert!(second_updated);
}

#[test]
fn audio_command_mapping() {
    assert_eq!(parse_audio_command(false, &"play".to_string()), AudioAction::PushVolume);
    assert_eq!(parse_audio_command(true, &"play".to_string()), AudioAction::Play);
    assert_eq!(parse_audio_command(true, &"pause".to_string()), AudioAction::Pause);
    assert_eq!(parse_audio_command(true, &"pause_fade".to_string()), AudioAction::PauseFade);
    assert_eq!(parse_audio_command(true, &"start".to_string()), AudioAction::StartSong);
    assert_eq!(parse_audio_command(true, &"start_fade".to_string()), AudioAction::StartSongFade);
    assert_eq!(parse_audio_command(true, &"warble".to_string()), AudioAction::NoOp);
}

#[test]
fn received_state_overwrites_and_destroys() {
    let mut w = WorldState::new();
    let stay = GameObject::new("stay".to_string());
    let doomed = GameObject::new("doomed".to_string());
    let doomed_uuid = doomed.id.uuid.clone();
    let stay_uuid = stay.id.uuid.clone();
    w.insert(stay);
    w.insert(doomed);
    let incoming = GameObject::new("incoming".to_string());
    let incoming_uuid = incoming.id.uuid.clone();
    let destroy = vec![doomed_uuid.clone()];
    lilah::scripting::apply_received(&mut w, vec![incoming], &destroy);
    assert_eq!(w.gameobjects.len(), 2);
    assert!(w.index_of_uuid(&doomed_uuid) == w.gameobjects.len());
    assert!(w.index_of_uuid(&stay_uuid) < w.gameobjects.len());
    assert!(w.index_of_uuid(&incoming_uuid) < w.gameobjects.len());
}

#[test]
fn received_entities_land_with_their_content() {
    // the machine is authoritative: a received entity replaces its native
    // counterpart wholesale, an untouched entity survives unchanged
    let mut w = WorldState::new();
    let mut native = GameObject::new("player".to_string());
    native.init = true;
    let uuid = native.id.uuid.clone();
    let bystander = GameObject::new("bystander".to_string());
    let bystander_uuid = bystander.id.uuid.clone();
    w.insert(native);
    w.insert(bystander);
    // the machine hands back the same entity, renamed and started
    let mut authored = w.get(&uuid).clone();
    authored.id.name = "renamed".to_string();
    authored.start = true;
    let destroy: Vec<String> = vec![];
    lilah::scripting::apply_received(&mut w, vec![authored], &destroy);
    assert_eq!(w.gameobjects.len(), 2);
    let back = w.get(&uuid);
    assert_eq!(back.id.name, "renamed");
    assert!(back.init && back.start);
    let untouched = w.get(&bystander_uuid);
    assert_eq!(untouched.id.name, "bystander");
}

#[test]
fn fullscreen_toggle_decision() {
    assert!(lilah::scripting::fullscreen_toggle_needed(true, false));
    assert!(lilah::scripting::fullscreen_toggle_needed(false, true));
    assert!(!lilah::scripting::fullscreen_toggle_needed(true, true));
    assert!(!lilah::scripting::fullscreen_toggle_needed(false, false));
}
