//! The decision logic of the bridge to the embedded scripting virtual
//! machine: module lifecycle driven by a persistent frame counter, the
//! per-frame call plan for every loaded module, the audio command parser,
//! and the application of the state the machine hands back.
//!
//! The host executes each planned call against the machine and reports
//! failures; a failure never removes later calls from the plan.

use crate::components::{Component, ComponentKind};
use crate::gameobject::GameObject;
use crate::world::{go_like_mod_ordinal, last_uuid_in, str_present_before, uuid_index, WorldState};
use vstd::prelude::*;

verus! {

/// The lifecycle stage a module's frame counter selects: one `setup`, then
/// one `start`, then `update` ever after.
#[derive(Clone, Copy, PartialEq, Eq, Structural, Debug)]
pub enum LifecyclePhase {
    Setup,
    Start,
    Update,
}

/// The stage the given frame counter selects.
pub open spec fn spec_lifecycle_phase(frame: u64) -> LifecyclePhase {
    if frame == 0 {
        LifecyclePhase::Setup
    } else if frame == 1 {
        LifecyclePhase::Start
    } else {
        LifecyclePhase::Update
    }
}

/// The stage the given frame counter selects, computed.
pub fn lifecycle_phase(frame: u64) -> (r: LifecyclePhase)
    ensures
        r == spec_lifecycle_phase(frame),
{
    if frame == 0 {
        LifecyclePhase::Setup
    } else if frame == 1 {
        LifecyclePhase::Start
    } else {
        LifecyclePhase::Update
    }
}

/// The frame counter after one tick: incremented, saturating at the top so
/// it never wraps back into the one-time stages.
pub fn next_frame(frame: u64) -> (r: u64)
    ensures
        frame < u64::MAX ==> r == frame + 1,
        frame == u64::MAX ==> r == frame,
{
    if frame < u64::MAX {
        frame + 1
    } else {
        frame
    }
}

/// One call the host must make into the virtual machine.
#[derive(PartialEq, Debug)]
pub enum ScriptCall {
    /// Tick the machine's suspended fibers.
    TickFibers,
    /// The module class's one-time `setup()`.
    ModuleSetup(String),
    /// The module class's one-time `start()`.
    ModuleStart(String),
    /// The module class's per-frame `update()`.
    ModuleUpdate(String),
    /// The module's static `start(entity)` for one freshly initialized
    /// entity: re-point the current-gameobject slot and call.
    EntityStart { module: String, entity_uuid: String, behaviour_uuid: String },
    /// The module's static `update(entity)` for one started entity.
    EntityUpdate { module: String, entity_uuid: String, behaviour_uuid: String },
    /// The module's `onCollision(info)` with the colliding entity's
    /// identity.
    OnCollision {
        module: String,
        entity_uuid: String,
        behaviour_uuid: String,
        other_name: String,
        other_uuid: String,
    },
}

impl Clone for ScriptCall {
    /// An exact copy.
    fn clone(&self) -> (r: Self)
        ensures
            r == *self,
    {
        match self {
            ScriptCall::TickFibers => ScriptCall::TickFibers,
            ScriptCall::ModuleSetup(m) => ScriptCall::ModuleSetup(m.clone()),
            ScriptCall::ModuleStart(m) => ScriptCall::ModuleStart(m.clone()),
            ScriptCall::ModuleUpdate(m) => ScriptCall::ModuleUpdate(m.clone()),
            ScriptCall::EntityStart { module, entity_uuid, behaviour_uuid } => {
                ScriptCall::EntityStart {
                    module: module.clone(),
                    entity_uuid: entity_uuid.clone(),
                    behaviour_uuid: behaviour_uuid.clone(),
                }
            },
            ScriptCall::EntityUpdate { module, entity_uuid, behaviour_uuid } => {
                ScriptCall::EntityUpdate {
                    module: module.clone(),
                    entity_uuid: entity_uuid.clone(),
                    behaviour_uuid: behaviour_uuid.clone(),
                }
            },
            ScriptCall::OnCollision {
                module,
                entity_uuid,
                behaviour_uuid,
                other_name,
                other_uuid,
            } => {
                ScriptCall::OnCollision {
                    module: module.clone(),
                    entity_uuid: entity_uuid.clone(),
                    behaviour_uuid: behaviour_uuid.clone(),
                    other_name: other_name.clone(),
                    other_uuid: other_uuid.clone(),
                }
            },
        }
    }
}

/// Whether the call is a module-level lifecycle call (of any module).
pub open spec fn is_lifecycle_call(c: ScriptCall) -> bool {
    match c {
        ScriptCall::ModuleSetup(_) => true,
        ScriptCall::ModuleStart(_) => true,
        ScriptCall::ModuleUpdate(_) => true,
        _ => false,
    }
}

/// The module-level lifecycle calls of a plan, in order.
pub open spec fn lifecycle_calls(p: Seq<ScriptCall>) -> Seq<ScriptCall>
    decreases p.len(),
{
    if p.len() == 0 {
        Seq::empty()
    } else if is_lifecycle_call(p.last()) {
        lifecycle_calls(p.drop_last()).push(p.last())
    } else {
        lifecycle_calls(p.drop_last())
    }
}

/// The start-stage dispatch calls one entity's behaviours contribute to a
/// module's plan: one `start(entity)` per behaviour naming the module, for
/// an entity that is initialized but not yet started.
pub open spec fn entity_start_calls(g: GameObject, n: int, module: String) -> Seq<ScriptCall>
    decreases n,
{
    if n <= 0 || n > g.components@.len() {
        Seq::empty()
    } else {
        let prev = entity_start_calls(g, n - 1, module);
        match g.components@[n - 1] {
            Component::Behaviour(b) => {
                if b.component@ == module@ && g.init && !g.start {
                    prev.push(
                        ScriptCall::EntityStart {
                            module: module,
                            entity_uuid: g.id.uuid,
                            behaviour_uuid: b.uuid,
                        },
                    )
                } else {
                    prev
                }
            },
            _ => prev,
        }
    }
}

/// The update-stage dispatch calls one entity's behaviours contribute: a
/// late `start(entity)` for an entity not yet started, or `update(entity)`
/// followed, when its body touches another, by `onCollision(info)`.
pub open spec fn entity_update_calls(g: GameObject, n: int, module: String) -> Seq<ScriptCall>
    decreases n,
{
    if n <= 0 || n > g.components@.len() {
        Seq::empty()
    } else {
        let prev = entity_update_calls(g, n - 1, module);
        match g.components@[n - 1] {
            Component::Behaviour(b) => {
                if b.component@ == module@ && g.init && !g.start {
                    prev.push(
                        ScriptCall::EntityStart {
                            module: module,
                            entity_uuid: g.id.uuid,
                            behaviour_uuid: b.uuid,
                        },
                    )
                } else if b.component@ == module@ && g.start {
                    let upd = prev.push(
                        ScriptCall::EntityUpdate {
                            module: module,
                            entity_uuid: g.id.uuid,
                            behaviour_uuid: b.uuid,
                        },
                    );
                    if crate::world::go_has_rb(g) && crate::world::go_rb(g).colliding.is_some() {
                        upd.push(
                            ScriptCall::OnCollision {
                                module: module,
                                entity_uuid: g.id.uuid,
                                behaviour_uuid: b.uuid,
                                other_name: crate::world::go_rb(g).colliding.unwrap().name,
                                other_uuid: crate::world::go_rb(g).colliding.unwrap().uuid,
                            },
                        )
                    } else {
                        upd
                    }
                } else {
                    prev
                }
            },
            _ => prev,
        }
    }
}

/// The start-stage dispatch calls of the first `n` entities.
pub open spec fn world_start_calls(s: Seq<GameObject>, n: int, module: String) -> Seq<ScriptCall>
    decreases n,
{
    if n <= 0 || n > s.len() {
        Seq::empty()
    } else {
        world_start_calls(s, n - 1, module) + entity_start_calls(
            s[n - 1],
            s[n - 1].components@.len() as int,
            module,
        )
    }
}

/// The update-stage dispatch calls of the first `n` entities.
pub open spec fn world_update_calls(s: Seq<GameObject>, n: int, module: String) -> Seq<ScriptCall>
    decreases n,
{
    if n <= 0 || n > s.len() {
        Seq::empty()
    } else {
        world_update_calls(s, n - 1, module) + entity_update_calls(
            s[n - 1],
            s[n - 1].components@.len() as int,
            module,
        )
    }
}

/// One module's plan for one frame: exactly one lifecycle call as the frame
/// counter prescribes, and the per-entity dispatch the stage allows.
pub open spec fn spec_module_plan(module: String, frame: u64, s: Seq<GameObject>) -> Seq<
    ScriptCall,
> {
    match spec_lifecycle_phase(frame) {
        LifecyclePhase::Setup => seq![ScriptCall::ModuleSetup(module)],
        LifecyclePhase::Start => seq![ScriptCall::ModuleStart(module)] + world_start_calls(
            s,
            s.len() as int,
            module,
        ),
        LifecyclePhase::Update => seq![
            ScriptCall::TickFibers,
            ScriptCall::ModuleUpdate(module),
        ] + world_update_calls(s, s.len() as int, module),
    }
}

/// Plans one module's calls for one frame: the lifecycle call its counter
/// prescribes, then, stage permitting, the dispatch calls for every entity
/// whose behaviour names the module. An entity naming an unloaded module is
/// never reached here: only loaded modules are planned, and the miss is a
/// silent no-op.
pub fn plan_module_tick(module: &String, frame: u64, gos: &Vec<GameObject>) -> (r: Vec<ScriptCall>)
    ensures
        r@ == spec_module_plan(*module, frame, gos@),
{
    let mut r: Vec<ScriptCall> = Vec::new();
    let phase = lifecycle_phase(frame);
    match phase {
        LifecyclePhase::Setup => {
            r.push(ScriptCall::ModuleSetup(module.clone()));
            proof {
                assert(r@ =~= spec_module_plan(*module, frame, gos@));
            }
        },
        LifecyclePhase::Start => {
            r.push(ScriptCall::ModuleStart(module.clone()));
            let mut i: usize = 0;
            while i < gos.len()
                invariant
                    i <= gos.len(),
                    spec_lifecycle_phase(frame) == LifecyclePhase::Start,
                    r@ == seq![ScriptCall::ModuleStart(*module)] + world_start_calls(
                        gos@,
                        i as int,
                        *module,
                    ),
                decreases gos.len() - i,
            {
                let mut n: usize = 0;
                while n < gos[i].components.len()
                    invariant
                        i < gos.len(),
                        n <= gos[i as int].components.len(),
                        spec_lifecycle_phase(frame) == LifecyclePhase::Start,
                        r@ == seq![ScriptCall::ModuleStart(*module)] + world_start_calls(
                            gos@,
                            i as int,
                            *module,
                        ) + entity_start_calls(gos@[i as int], n as int, *module),
                    decreases gos[i as int].components.len() - n,
                {
                    match &gos[i].components[n] {
                        Component::Behaviour(b) => {
                            if b.component == *module && gos[i].init && !gos[i].start {
                                r.push(
                                    ScriptCall::EntityStart {
                                        module: module.clone(),
                                        entity_uuid: gos[i].id.uuid.clone(),
                                        behaviour_uuid: b.uuid.clone(),
                                    },
                                );
                            }
                        },
                        _ => {},
                    }
                    n = n + 1;
                }
                proof {
                    assert(world_start_calls(gos@, i as int + 1, *module) == world_start_calls(
                        gos@,
                        i as int,
                        *module,
                    ) + entity_start_calls(
                        gos@[i as int],
                        gos@[i as int].components@.len() as int,
                        *module,
                    ));
                }
                i = i + 1;
            }
        },
        LifecyclePhase::Update => {
            r.push(ScriptCall::TickFibers);
            r.push(ScriptCall::ModuleUpdate(module.clone()));
            proof {
                assert(r@ =~= seq![
                    ScriptCall::TickFibers,
                    ScriptCall::ModuleUpdate(*module),
                ] + world_update_calls(gos@, 0int, *module));
            }
            let mut i: usize = 0;
            while i < gos.len()
                invariant
                    i <= gos.len(),
                    spec_lifecycle_phase(frame) == LifecyclePhase::Update,
                    r@ == seq![
                        ScriptCall::TickFibers,
                        ScriptCall::ModuleUpdate(*module),
                    ] + world_update_calls(gos@, i as int, *module),
                decreases gos.len() - i,
            {
                let mut n: usize = 0;
                while n < gos[i].components.len()
                    invariant
                        i < gos.len(),
                        n <= gos[i as int].components.len(),
                        spec_lifecycle_phase(frame) == LifecyclePhase::Update,
                        r@ == seq![
                            ScriptCall::TickFibers,
                            ScriptCall::ModuleUpdate(*module),
                        ] + world_update_calls(gos@, i as int, *module) + entity_update_calls(
                            gos@[i as int],
                            n as int,
                            *module,
                        ),
                    decreases gos[i as int].components.len() - n,
                {
                    match &gos[i].components[n] {
                        Component::Behaviour(b) => {
                            if b.component == *module && gos[i].init && !gos[i].start {
                                r.push(
                                    ScriptCall::EntityStart {
                                        module: module.clone(),
                                        entity_uuid: gos[i].id.uuid.clone(),
                                        behaviour_uuid: b.uuid.clone(),
                                    },
                                );
                            } else if b.component == *module && gos[i].start {
                                r.push(
                                    ScriptCall::EntityUpdate {
                                        module: module.clone(),
                                        entity_uuid: gos[i].id.uuid.clone(),
                                        behaviour_uuid: b.uuid.clone(),
                                    },
                                );
                                proof {
                                    crate::gameobject::lemma_kind_index_spec(
                                        gos@[i as int].components@,
                                        ComponentKind::Rigidbody,
                                    );
                                }
                                if gos[i].has(ComponentKind::Rigidbody) {
                                    let body = match gos[i].get(
                                        ComponentKind::Rigidbody,
                                    ).as_rigidbody() {
                                        Some(c) => c,
                                        None => vstd::pervasive::unreached(),
                                    };
                                    match &body.colliding {
                                        Some(coll) => {
                                            r.push(
                                                ScriptCall::OnCollision {
                                                    module: module.clone(),
                                                    entity_uuid: gos[i].id.uuid.clone(),
                                                    behaviour_uuid: b.uuid.clone(),
                                                    other_name: coll.name.clone(),
                                                    other_uuid: coll.uuid.clone(),
                                                },
                                            );
                                        },
                                        None => {},
                                    }
                                }
                            }
                        },
                        _ => {},
                    }
                    n = n + 1;
                }
                proof {
                    assert(world_update_calls(gos@, i as int + 1, *module) == world_update_calls(
                        gos@,
                        i as int,
                        *module,
                    ) + entity_update_calls(
                        gos@[i as int],
                        gos@[i as int].components@.len() as int,
                        *module,
                    ));
                }
                i = i + 1;
            }
        },
    }
    r
}

/// The frame plan over the loaded modules, in registry order: each module's
/// plan one after another.
pub open spec fn spec_frame_plan(ms: Seq<(String, u64)>, s: Seq<GameObject>) -> Seq<ScriptCall>
    decreases ms.len(),
{
    if ms.len() == 0 {
        Seq::empty()
    } else {
        spec_frame_plan(ms.drop_last(), s) + spec_module_plan(ms.last().0, ms.last().1, s)
    }
}

/// Plans one whole frame: every loaded module's plan, module after module.
/// One module's plan never depends on another module's: a failure inside
/// one module's calls leaves every other module's calls in place.
pub fn plan_frame(modules: &Vec<(String, u64)>, gos: &Vec<GameObject>) -> (r: Vec<ScriptCall>)
    ensures
        r@ == spec_frame_plan(modules@, gos@),
{
    let mut r: Vec<ScriptCall> = Vec::new();
    let mut m: usize = 0;
    while m < modules.len()
        invariant
            m <= modules.len(),
            r@ == spec_frame_plan(modules@.take(m as int), gos@),
        decreases modules.len() - m,
    {
        let mut sub = plan_module_tick(&modules[m].0, modules[m].1, gos);
        let mut k: usize = 0;
        while k < sub.len()
            invariant
                k <= sub.len(),
                r@ == spec_frame_plan(modules@.take(m as int), gos@) + sub@.take(k as int),
            decreases sub.len() - k,
        {
            r.push(sub[k].clone());
            proof {
                assert(sub@.take(k as int + 1) =~= sub@.take(k as int).push(sub@[k as int]));
            }
            k = k + 1;
        }
        proof {
            assert(sub@.take(sub@.len() as int) =~= sub@);
            assert(modules@.take(m as int + 1).drop_last() =~= modules@.take(m as int));
            assert(modules@.take(m as int + 1).last() == modules@[m as int]);
        }
        m = m + 1;
    }
    proof {
        assert(modules@.take(modules@.len() as int) =~= modules@);
    }
    r
}

/// One frame's calls being executed: the host takes the next call, makes
/// it, and reports how it went; the report never changes what comes next.
pub struct TickRun {
    pub plan: Vec<ScriptCall>,
    pub next: usize,
}

/// The run has moved past exactly one call, its plan untouched.
pub open spec fn run_advanced(a: TickRun, b: TickRun) -> bool {
    &&& b.plan@ == a.plan@
    &&& b.next == a.next + 1
}

impl TickRun {
    /// A run at the head of the given plan.
    pub fn new(plan: Vec<ScriptCall>) -> (r: TickRun)
        ensures
            r.plan == plan,
            r.next == 0,
    {
        TickRun { plan, next: 0 }
    }

    /// The call the host must make next, or nothing when the frame is done.
    pub fn next_call(&self) -> (r: Option<&ScriptCall>)
        ensures
            self.next < self.plan@.len() ==> r == Some(&self.plan@[self.next as int]),
            self.next >= self.plan@.len() ==> r.is_none(),
    {
        if self.next < self.plan.len() {
            Some(&self.plan[self.next])
        } else {
            None
        }
    }

    /// Records the outcome of the current call and moves to the next one.
    /// A failed call is the host's to log; it neither aborts the frame nor
    /// changes which call comes next.
    pub fn record_result(&mut self, failed: bool)
        requires
            old(self).next < old(self).plan@.len(),
        ensures
            run_advanced(*old(self), *final(self)),
    {
        let _ = failed;
        let len = self.plan.len();
        assert(self.next < len);
        self.next = self.next + 1;
    }
}

/// Module dispatch isolation law: whether the host reports the current call
/// as succeeded or failed, the run continues at the same place with the
/// same remaining plan — one module's runtime error cannot keep another
/// module's calls from being made.
pub proof fn lemma_dispatch_isolation(r0: TickRun, after_ok: TickRun, after_failure: TickRun)
    requires
        run_advanced(r0, after_ok),
        run_advanced(r0, after_failure),
    ensures
        after_ok.plan@ == after_failure.plan@,
        after_ok.next == after_failure.next,
{
}

/// The frame plan of two loaded modules is the first module's plan followed
/// by the second's: the second module's calls stand in the plan whatever
/// the first module's calls are or do.
pub proof fn lemma_frame_plan_parts(
    m1: (String, u64),
    m2: (String, u64),
    s: Seq<GameObject>,
)
    ensures
        spec_frame_plan(seq![m1, m2], s) == spec_module_plan(m1.0, m1.1, s) + spec_module_plan(
            m2.0,
            m2.1,
            s,
        ),
{
    let ms = seq![m1, m2];
    assert(ms.drop_last() =~= seq![m1]);
    assert(seq![m1].drop_last() =~= Seq::<(String, u64)>::empty());
    assert(spec_frame_plan(Seq::empty(), s) == Seq::<ScriptCall>::empty());
    assert(spec_frame_plan(seq![m1], s) =~= spec_module_plan(m1.0, m1.1, s));
}

/// Appending a non-lifecycle call leaves the lifecycle calls unchanged.
proof fn lemma_lifecycle_push_non(p: Seq<ScriptCall>, c: ScriptCall)
    requires
        !is_lifecycle_call(c),
    ensures
        lifecycle_calls(p.push(c)) == lifecycle_calls(p),
{
    assert(p.push(c).drop_last() =~= p);
    assert(p.push(c).last() == c);
}

/// A single lifecycle call is its own lifecycle sequence.
proof fn lemma_lifecycle_single(c: ScriptCall)
    requires
        is_lifecycle_call(c),
    ensures
        lifecycle_calls(seq![c]) == seq![c],
{
    assert(seq![c].drop_last() =~= Seq::<ScriptCall>::empty());
    assert(seq![c].last() == c);
    assert(lifecycle_calls(Seq::<ScriptCall>::empty()) =~= Seq::<ScriptCall>::empty());
    assert(lifecycle_calls(seq![c]) =~= seq![c]);
}

/// The module-level lifecycle calls distribute over plan concatenation.
proof fn lemma_lifecycle_calls_concat(a: Seq<ScriptCall>, b: Seq<ScriptCall>)
    ensures
        lifecycle_calls(a + b) == lifecycle_calls(a) + lifecycle_calls(b),
    decreases b.len(),
{
    if b.len() == 0 {
        assert(a + b =~= a);
        assert(lifecycle_calls(a) + lifecycle_calls(b) =~= lifecycle_calls(a));
    } else {
        lemma_lifecycle_calls_concat(a, b.drop_last());
        assert((a + b).drop_last() =~= a + b.drop_last());
        assert((a + b).last() == b.last());
        if is_lifecycle_call(b.last()) {
            assert(lifecycle_calls(a) + lifecycle_calls(b) =~= (lifecycle_calls(a)
                + lifecycle_calls(b.drop_last())).push(b.last()));
        }
    }
}

/// Per-entity dispatch contributes no module-level lifecycle calls.
proof fn lemma_entity_start_no_lifecycle(g: GameObject, n: int, module: String)
    ensures
        lifecycle_calls(entity_start_calls(g, n, module)) == Seq::<ScriptCall>::empty(),
    decreases n,
{
    if n <= 0 || n > g.components@.len() {
        assert(lifecycle_calls(Seq::<ScriptCall>::empty()) =~= Seq::<ScriptCall>::empty());
    } else {
        lemma_entity_start_no_lifecycle(g, n - 1, module);
        let prev = entity_start_calls(g, n - 1, module);
        match g.components@[n - 1] {
            Component::Behaviour(b) => {
                if b.component@ == module@ && g.init && !g.start {
                    lemma_lifecycle_push_non(
                        prev,
                        ScriptCall::EntityStart {
                            module: module,
                            entity_uuid: g.id.uuid,
                            behaviour_uuid: b.uuid,
                        },
                    );
                }
            },
            _ => {},
        }
    }
}

/// Per-entity dispatch contributes no module-level lifecycle calls.
proof fn lemma_entity_update_no_lifecycle(g: GameObject, n: int, module: String)
    ensures
        lifecycle_calls(entity_update_calls(g, n, module)) == Seq::<ScriptCall>::empty(),
    decreases n,
{
    if n <= 0 || n > g.components@.len() {
        assert(lifecycle_calls(Seq::<ScriptCall>::empty()) =~= Seq::<ScriptCall>::empty());
    } else {
        lemma_entity_update_no_lifecycle(g, n - 1, module);
        let prev = entity_update_calls(g, n - 1, module);
        match g.components@[n - 1] {
            Component::Behaviour(b) => {
                if b.component@ == module@ && g.init && !g.start {
                    lemma_lifecycle_push_non(
                        prev,
                        ScriptCall::EntityStart {
                            module: module,
                            entity_uuid: g.id.uuid,
                            behaviour_uuid: b.uuid,
                        },
                    );
                } else if b.component@ == module@ && g.start {
                    let u = ScriptCall::EntityUpdate {
                        module: module,
                        entity_uuid: g.id.uuid,
                        behaviour_uuid: b.uuid,
                    };
                    lemma_lifecycle_push_non(prev, u);
                    if crate::world::go_has_rb(g) && crate::world::go_rb(g).colliding.is_some() {
                        lemma_lifecycle_push_non(
                            prev.push(u),
                            ScriptCall::OnCollision {
                                module: module,
                                entity_uuid: g.id.uuid,
                                behaviour_uuid: b.uuid,
                                other_name: crate::world::go_rb(g).colliding.unwrap().name,
                                other_uuid: crate::world::go_rb(g).colliding.unwrap().uuid,
                            },
                        );
                    }
                }
            },
            _ => {},
        }
    }
}

proof fn lemma_world_start_no_lifecycle(s: Seq<GameObject>, n: int, module: String)
    ensures
        lifecycle_calls(world_start_calls(s, n, module)) == Seq::<ScriptCall>::empty(),
    decreases n,
{
    if !(n <= 0 || n > s.len()) {
        lemma_world_start_no_lifecycle(s, n - 1, module);
        lemma_entity_start_no_lifecycle(s[n - 1], s[n - 1].components@.len() as int, module);
        lemma_lifecycle_calls_concat(
            world_start_calls(s, n - 1, module),
            entity_start_calls(s[n - 1], s[n - 1].components@.len() as int, module),
        );
        assert(lifecycle_calls(world_start_calls(s, n, module)) =~= Seq::<ScriptCall>::empty());
    }
}

proof fn lemma_world_update_no_lifecycle(s: Seq<GameObject>, n: int, module: String)
    ensures
        lifecycle_calls(world_update_calls(s, n, module)) == Seq::<ScriptCall>::empty(),
    decreases n,
{
    if !(n <= 0 || n > s.len()) {
        lemma_world_update_no_lifecycle(s, n - 1, module);
        lemma_entity_update_no_lifecycle(s[n - 1], s[n - 1].components@.len() as int, module);
        lemma_lifecycle_calls_concat(
            world_update_calls(s, n - 1, module),
            entity_update_calls(s[n - 1], s[n - 1].components@.len() as int, module),
        );
        assert(lifecycle_calls(world_update_calls(s, n, module)) =~= Seq::<ScriptCall>::empty());
    }
}

/// Lifecycle sequencing law: from a fresh counter, three successive ticks
/// plan exactly one module-level `setup`, then exactly one `start`, then
/// exactly one `update` — and every tick after the second plans exactly one
/// `update` and never another `setup` or `start`, whatever entities live.
pub proof fn lemma_lifecycle_sequencing(
    module: String,
    s0: Seq<GameObject>,
    s1: Seq<GameObject>,
    s2: Seq<GameObject>,
)
    ensures
        lifecycle_calls(spec_module_plan(module, 0, s0)) == seq![ScriptCall::ModuleSetup(module)],
        next_frame_spec(0) == 1,
        lifecycle_calls(spec_module_plan(module, 1, s1)) == seq![ScriptCall::ModuleStart(module)],
        next_frame_spec(1) == 2,
        forall|f: u64|
            f >= 2 ==> lifecycle_calls(spec_module_plan(module, f, s2)) == seq![
                ScriptCall::ModuleUpdate(module),
            ],
{
    let setup_plan = spec_module_plan(module, 0, s0);
    assert(setup_plan =~= seq![ScriptCall::ModuleSetup(module)]);
    lemma_lifecycle_single(ScriptCall::ModuleSetup(module));
    let start_head = seq![ScriptCall::ModuleStart(module)];
    lemma_world_start_no_lifecycle(s1, s1.len() as int, module);
    lemma_lifecycle_calls_concat(start_head, world_start_calls(s1, s1.len() as int, module));
    lemma_lifecycle_single(ScriptCall::ModuleStart(module));
    assert(lifecycle_calls(spec_module_plan(module, 1, s1)) =~= seq![
        ScriptCall::ModuleStart(module),
    ]);
    assert forall|f: u64| f >= 2 implies lifecycle_calls(spec_module_plan(module, f, s2)) == seq![
        ScriptCall::ModuleUpdate(module),
    ] by {
        let update_head = seq![ScriptCall::TickFibers, ScriptCall::ModuleUpdate(module)];
        lemma_world_update_no_lifecycle(s2, s2.len() as int, module);
        lemma_lifecycle_calls_concat(
            update_head,
            world_update_calls(s2, s2.len() as int, module),
        );
        assert(update_head.drop_last() =~= seq![ScriptCall::TickFibers]);
        assert(seq![ScriptCall::TickFibers].drop_last() =~= Seq::<ScriptCall>::empty());
        assert(lifecycle_calls(Seq::<ScriptCall>::empty()) =~= Seq::<ScriptCall>::empty());
        assert(lifecycle_calls(seq![ScriptCall::TickFibers]) =~= Seq::<ScriptCall>::empty());
        assert(lifecycle_calls(update_head) =~= seq![ScriptCall::ModuleUpdate(module)]);
        assert(lifecycle_calls(spec_module_plan(module, f, s2)) =~= seq![
            ScriptCall::ModuleUpdate(module),
        ]);
    }
}

/// What the frame counter becomes after one tick.
pub open spec fn next_frame_spec(frame: u64) -> u64 {
    if frame < 0xffffffffffffffff {
        (frame + 1) as u64
    } else {
        frame
    }
}

/// What the host must do with the audio device after reading the machine's
/// audio-control object.
#[derive(Clone, Copy, PartialEq, Eq, Structural, Debug)]
pub enum AudioAction {
    /// Resume playback.
    Play,
    /// Pause playback.
    Pause,
    /// Fade playback out over the machine-given time.
    PauseFade,
    /// Start the machine-named song.
    StartSong,
    /// Halt, then fade the machine-named song in.
    StartSongFade,
    /// Not dirty: push the device's volume back into the machine instead.
    PushVolume,
    /// Dirty but unrecognized: set the volume and do nothing else.
    NoOp,
}

/// The action an audio-control read maps to.
pub open spec fn spec_audio_action(dirty: bool, cmd: Seq<char>) -> AudioAction {
    if !dirty {
        AudioAction::PushVolume
    } else if cmd == "play"@ {
        AudioAction::Play
    } else if cmd == "pause"@ {
        AudioAction::Pause
    } else if cmd == "pause_fade"@ {
        AudioAction::PauseFade
    } else if cmd == "start"@ {
        AudioAction::StartSong
    } else if cmd == "start_fade"@ {
        AudioAction::StartSongFade
    } else {
        AudioAction::NoOp
    }
}

/// Maps the machine's audio command to the host action: `play`, `pause`,
/// `pause_fade`, `start` and `start_fade` dispatch to the device; a clean
/// control object instead pushes the native volume back to the machine; any
/// other command does nothing.
pub fn parse_audio_command(dirty: bool, command: &String) -> (r: AudioAction)
    ensures
        r == spec_audio_action(dirty, command@),
{
    if !dirty {
        return AudioAction::PushVolume;
    }
    if *command == "play".to_owned() {
        AudioAction::Play
    } else if *command == "pause".to_owned() {
        AudioAction::Pause
    } else if *command == "pause_fade".to_owned() {
        AudioAction::PauseFade
    } else if *command == "start".to_owned() {
        AudioAction::StartSong
    } else if *command == "start_fade".to_owned() {
        AudioAction::StartSongFade
    } else {
        AudioAction::NoOp
    }
}

/// The window must be toggled exactly when the machine's fullscreen flag
/// disagrees with the window's.
pub fn fullscreen_toggle_needed(vm_fullscreen: bool, native_fullscreen: bool) -> (r: bool)
    ensures
        r == (vm_fullscreen != native_fullscreen),
{
    vm_fullscreen != native_fullscreen
}

/// Applies the state the machine hands back at the end of a tick: every
/// machine-authored entity is written into the world keyed by its unique id
/// (the machine is authoritative for entities it touched, and for a
/// repeated id its last entry wins), then every id on the destroy list is
/// removed. Destruction wins over insertion; everything else is untouched,
/// and nothing but the old world and the received list reaches the result.
pub fn apply_received(state: &mut WorldState, received: Vec<GameObject>, destroy: &Vec<String>)
    requires
        old(state).wf(),
    ensures
        final(state).wf(),
        // every destroyed id is gone
        forall|d: int|
            0 <= d < destroy@.len() ==> uuid_index(
                final(state).gameobjects@,
                (#[trigger] destroy@[d])@,
            ) == final(state).gameobjects@.len(),
        // every received entity stands in the world keyed by its unique id,
        // equal to what was received but for the assigned ordinal, unless
        // its id is on the destroy list
        forall|u: Seq<char>|
            #[trigger] last_uuid_in(received@, u) >= 0 && !str_present_before(
                destroy@,
                destroy@.len() as int,
                u,
            ) ==> uuid_index(final(state).gameobjects@, u) < final(state).gameobjects@.len()
                && go_like_mod_ordinal(
                final(state).gameobjects@[uuid_index(final(state).gameobjects@, u)],
                received@[last_uuid_in(received@, u)],
            ),
        // entities neither replaced by a received entry nor destroyed are
        // unchanged
        forall|u: Seq<char>|
            uuid_index(old(state).gameobjects@, u) < old(state).gameobjects@.len()
                && #[trigger] last_uuid_in(received@, u) == -1 && !str_present_before(
                destroy@,
                destroy@.len() as int,
                u,
            ) ==> uuid_index(final(state).gameobjects@, u) < final(state).gameobjects@.len()
                && final(state).gameobjects@[uuid_index(final(state).gameobjects@, u)] == old(
                state,
            ).gameobjects@[uuid_index(old(state).gameobjects@, u)],
        // nothing else lives: every final entity came from the old world or
        // the received list
        forall|j: int|
            0 <= j < final(state).gameobjects@.len() ==> uuid_index(
                old(state).gameobjects@,
                (#[trigger] final(state).gameobjects@[j]).id.uuid@,
            ) < old(state).gameobjects@.len() || last_uuid_in(
                received@,
                final(state).gameobjects@[j].id.uuid@,
            ) >= 0,
        final(state).textures == old(state).textures,
        final(state).fonts == old(state).fonts,
        final(state).music == old(state).music,
        final(state).sfx == old(state).sfx,
        final(state).scenes == old(state).scenes,
{
    let ghost rcv0 = received@;
    let ghost s0m = old(state).gameobjects@;
    proof {
        assert forall|j: int| 0 <= j < s0m.len() implies uuid_index(
            s0m,
            (#[trigger] s0m[j]).id.uuid@,
        ) < s0m.len() by {
            crate::world::lemma_uuid_index_spec(s0m, s0m[j].id.uuid@);
        }
    }
    let mut rcv = received;
    let n = rcv.len();
    let mut i: usize = 0;
    while i < n
        invariant
            state.wf(),
            i <= n,
            n == rcv0.len(),
            rcv@ == rcv0.skip(i as int),
            s0m == old(state).gameobjects@,
            forall|u: Seq<char>|
                #[trigger] last_uuid_in(rcv0.take(i as int), u) >= 0 ==> uuid_index(
                    state.gameobjects@,
                    u,
                ) < state.gameobjects@.len() && go_like_mod_ordinal(
                    state.gameobjects@[uuid_index(state.gameobjects@, u)],
                    rcv0[last_uuid_in(rcv0.take(i as int), u)],
                ),
            forall|u: Seq<char>|
                uuid_index(s0m, u) < s0m.len() && #[trigger] last_uuid_in(rcv0.take(i as int), u)
                    == -1 ==> uuid_index(state.gameobjects@, u) < state.gameobjects@.len()
                    && state.gameobjects@[uuid_index(state.gameobjects@, u)] == s0m[uuid_index(
                    s0m,
                    u,
                )],
            forall|j: int|
                0 <= j < state.gameobjects@.len() ==> uuid_index(
                    s0m,
                    (#[trigger] state.gameobjects@[j]).id.uuid@,
                ) < s0m.len() || last_uuid_in(rcv0.take(i as int), state.gameobjects@[j].id.uuid@)
                    >= 0,
            state.textures == old(state).textures,
            state.fonts == old(state).fonts,
            state.music == old(state).music,
            state.sfx == old(state).sfx,
            state.scenes == old(state).scenes,
        decreases n - i,
    {
        let ghost pre = state.gameobjects@;
        let g = rcv.remove(0);
        proof {
            assert(rcv0.skip(i as int)[0] == rcv0[i as int]);
            assert(rcv@ =~= rcv0.skip(i as int + 1));
        }
        state.insert(g);
        proof {
            let cur = state.gameobjects@;
            let guuid = rcv0[i as int].id.uuid@;
            let g2v = GameObject {
                id: rcv0[i as int].id,
                wren_id: pre.len() as usize,
                components: rcv0[i as int].components,
                init: rcv0[i as int].init,
                start: rcv0[i as int].start,
            };
            let ui = uuid_index(pre, guuid);
            crate::world::lemma_uuid_index_spec(pre, guuid);
            lemma_last_take_step(rcv0, i as int);
            assert forall|u: Seq<char>| #[trigger] last_uuid_in(rcv0.take(i as int + 1), u)
                >= 0 implies uuid_index(cur, u) < cur.len() && go_like_mod_ordinal(
                cur[uuid_index(cur, u)],
                rcv0[last_uuid_in(rcv0.take(i as int + 1), u)],
            ) by {
                if u == guuid {
                    if ui < pre.len() {
                        crate::world::lemma_lookup_after_update(pre, ui, g2v, u);
                    } else {
                        crate::world::lemma_lookup_after_push(pre, g2v, u);
                    }
                } else {
                    if ui < pre.len() {
                        crate::world::lemma_lookup_after_update(pre, ui, g2v, u);
                    } else {
                        crate::world::lemma_lookup_after_push(pre, g2v, u);
                    }
                }
            }
            assert forall|u: Seq<char>|
                uuid_index(s0m, u) < s0m.len() && #[trigger] last_uuid_in(
                    rcv0.take(i as int + 1),
                    u,
                ) == -1 implies uuid_index(cur, u) < cur.len() && cur[uuid_index(cur, u)]
                == s0m[uuid_index(s0m, u)] by {
                assert(u != guuid);
                assert(last_uuid_in(rcv0.take(i as int), u) == -1);
                if ui < pre.len() {
                    crate::world::lemma_lookup_after_update(pre, ui, g2v, u);
                } else {
                    crate::world::lemma_lookup_after_push(pre, g2v, u);
                }
            }
            assert forall|j: int| 0 <= j < cur.len() implies uuid_index(
                s0m,
                (#[trigger] cur[j]).id.uuid@,
            ) < s0m.len() || last_uuid_in(rcv0.take(i as int + 1), cur[j].id.uuid@) >= 0 by {
                if ui < pre.len() && j == ui {
                    assert(cur[j] == g2v);
                } else if ui == pre.len() && j == pre.len() {
                    assert(cur[j] == g2v);
                } else {
                    assert(cur[j] == pre[j]);
                    let pu = pre[j].id.uuid@;
                    if last_uuid_in(rcv0.take(i as int), pu) >= 0 {
                        assert(last_uuid_in(rcv0.take(i as int + 1), pu) >= 0);
                    }
                }
            }
        }
        i = i + 1;
    }
    proof {
        assert(rcv0.take(n as int) =~= rcv0);
    }
    let ghost s1m = state.gameobjects@;
    let mut d: usize = 0;
    while d < destroy.len()
        invariant
            state.wf(),
            d <= destroy@.len(),
            n == rcv0.len(),
            s0m == old(state).gameobjects@,
            forall|t: int|
                0 <= t < d ==> uuid_index(state.gameobjects@, (#[trigger] destroy@[t])@)
                    == state.gameobjects@.len(),
            forall|u: Seq<char>|
                #[trigger] last_uuid_in(rcv0, u) >= 0 && !str_present_before(destroy@, d as int, u)
                    ==> uuid_index(state.gameobjects@, u) < state.gameobjects@.len()
                    && go_like_mod_ordinal(
                    state.gameobjects@[uuid_index(state.gameobjects@, u)],
                    rcv0[last_uuid_in(rcv0, u)],
                ),
            forall|u: Seq<char>|
                uuid_index(s0m, u) < s0m.len() && #[trigger] last_uuid_in(rcv0, u) == -1
                    && !str_present_before(destroy@, d as int, u) ==> uuid_index(
                    state.gameobjects@,
                    u,
                ) < state.gameobjects@.len() && state.gameobjects@[uuid_index(
                    state.gameobjects@,
                    u,
                )] == s0m[uuid_index(s0m, u)],
            forall|j: int|
                0 <= j < state.gameobjects@.len() ==> uuid_index(
                    s0m,
                    (#[trigger] state.gameobjects@[j]).id.uuid@,
                ) < s0m.len() || last_uuid_in(rcv0, state.gameobjects@[j].id.uuid@) >= 0,
            state.textures == old(state).textures,
            state.fonts == old(state).fonts,
            state.music == old(state).music,
            state.sfx == old(state).sfx,
            state.scenes == old(state).scenes,
        decreases destroy.len() - d,
    {
        let ghost pre = state.gameobjects@;
        state.remove_uuid(&destroy[d]);
        proof {
            let cur = state.gameobjects@;
            let du = destroy@[d as int]@;
            let ui = uuid_index(pre, du);
            crate::world::lemma_uuid_index_spec(pre, du);
            assert forall|t: int| 0 <= t <= d implies uuid_index(cur, (#[trigger] destroy@[t])@)
                == cur.len() by {
                crate::world::lemma_uuid_index_spec(pre, destroy@[t]@);
                assert forall|j: int| 0 <= j < cur.len() implies (#[trigger] cur[j]).id.uuid@
                    != destroy@[t]@ by {
                    if ui < pre.len() {
                        let j0: int = if j < ui {
                            j
                        } else {
                            j + 1
                        };
                        assert(cur[j] == pre[j0]);
                        if t < d {
                            lemma_uuid_absent_means_no_match(pre, destroy@[t]@, j0);
                        } else {
                            if pre[j0].id.uuid@ == du {
                                assert(pre[ui].id.uuid@ == du);
                                assert(j0 != ui);
                            }
                        }
                    } else {
                        assert(cur == pre);
                        lemma_uuid_absent_means_no_match(pre, destroy@[t]@, j);
                    }
                }
                lemma_no_match_means_absent(cur, destroy@[t]@);
            }
            assert forall|u: Seq<char>| #[trigger] last_uuid_in(rcv0, u) >= 0
                && !str_present_before(destroy@, d as int + 1, u) implies uuid_index(cur, u)
                < cur.len() && go_like_mod_ordinal(
                cur[uuid_index(cur, u)],
                rcv0[last_uuid_in(rcv0, u)],
            ) by {
                assert(!str_present_before(destroy@, d as int, u));
                assert(u != du);
                if ui < pre.len() {
                    crate::world::lemma_lookup_after_remove(pre, ui, u);
                } else {
                    assert(cur == pre);
                }
            }
            assert forall|u: Seq<char>|
                uuid_index(s0m, u) < s0m.len() && #[trigger] last_uuid_in(rcv0, u) == -1
                    && !str_present_before(destroy@, d as int + 1, u) implies uuid_index(cur, u)
                < cur.len() && cur[uuid_index(cur, u)] == s0m[uuid_index(s0m, u)] by {
                assert(!str_present_before(destroy@, d as int, u));
                assert(u != du);
                if ui < pre.len() {
                    crate::world::lemma_lookup_after_remove(pre, ui, u);
                } else {
                    assert(cur == pre);
                }
            }
            assert forall|j: int| 0 <= j < cur.len() implies uuid_index(
                s0m,
                (#[trigger] cur[j]).id.uuid@,
            ) < s0m.len() || last_uuid_in(rcv0, cur[j].id.uuid@) >= 0 by {
                if ui < pre.len() {
                    let j0: int = if j < ui {
                        j
                    } else {
                        j + 1
                    };
                    assert(cur[j] == pre[j0]);
                } else {
                    assert(cur == pre);
                }
            }
        }
        d = d + 1;
    }
    proof {
        assert(rcv0 == received@);
    }
}

/// Extending a prefix by one entry moves the last position of that entry's
/// id to the new slot and leaves every other id's last position unchanged.
proof fn lemma_last_take_step(rcv0: Seq<GameObject>, i: int)
    requires
        0 <= i < rcv0.len(),
    ensures
        forall|u: Seq<char>|
            #[trigger] last_uuid_in(rcv0.take(i + 1), u) == (if rcv0[i].id.uuid@ == u {
                i
            } else {
                last_uuid_in(rcv0.take(i), u)
            }),
{
    assert(rcv0.take(i + 1).drop_last() =~= rcv0.take(i));
    assert(rcv0.take(i + 1).last() == rcv0[i]);
}

/// An id whose first position is the list length matches no element.
proof fn lemma_uuid_absent_means_no_match(s: Seq<GameObject>, u: Seq<char>, j: int)
    requires
        uuid_index(s, u) == s.len(),
        0 <= j < s.len(),
    ensures
        s[j].id.uuid@ != u,
{
    crate::world::lemma_uuid_index_spec(s, u);
}

/// An id that matches no element has the list length as its first position.
proof fn lemma_no_match_means_absent(s: Seq<GameObject>, u: Seq<char>)
    requires
        forall|j: int| 0 <= j < s.len() ==> (#[trigger] s[j]).id.uuid@ != u,
    ensures
        uuid_index(s, u) == s.len(),
{
    crate::world::lemma_uuid_index_spec(s, u);
}

} // verus!
