//! The authoritative world: all live entities keyed by their unique id,
//! the asset tables, and the axis-separated collision pass.

use crate::components::{Component, ComponentKind, Rigidbody, SceneAsset, TextureAsset};
use crate::gameobject::{
    anim_in, has_kind, kind_index, rb_in, scene_in, GameObject, GameObjectId,
};
use crate::math::{Mtv, Vec2};
use vstd::prelude::*;

verus! {

/// Side effects a load pass asks the host to perform: a texture to
/// rasterize anew, and sound effects to start at given volumes.
pub struct StateUpdateContainer {
    /// Texture asset id whose pixels must be uploaded again.
    pub textures: Option<String>,
    /// Sound files to start playing, each at its volume.
    pub sfx: Option<Vec<(String, i64)>>,
}

/// No two entities of the list share a unique id.
pub open spec fn uuids_unique(s: Seq<GameObject>) -> bool {
    forall|i: int, j: int|
        0 <= i < j < s.len() ==> (#[trigger] s[i]).id.uuid@ != (#[trigger] s[j]).id.uuid@
}

/// The position of the first entity with the given unique id, searched from
/// position `i` on; the list length when there is none.
pub open spec fn uuid_index_from(s: Seq<GameObject>, uuid: Seq<char>, i: int) -> int
    decreases s.len() - i,
{
    if i < 0 || i >= s.len() {
        s.len() as int
    } else if s[i].id.uuid@ == uuid {
        i
    } else {
        uuid_index_from(s, uuid, i + 1)
    }
}

/// The position of the first entity with the given unique id; the list
/// length when there is none.
pub open spec fn uuid_index(s: Seq<GameObject>, uuid: Seq<char>) -> int {
    uuid_index_from(s, uuid, 0)
}

/// The position of the first entity whose name or unique id equals the
/// key, searched from position `i` on; the list length when there is none.
pub open spec fn key_index_from(s: Seq<GameObject>, key: Seq<char>, i: int) -> int
    decreases s.len() - i,
{
    if i < 0 || i >= s.len() {
        s.len() as int
    } else if s[i].id.name@ == key || s[i].id.uuid@ == key {
        i
    } else {
        key_index_from(s, key, i + 1)
    }
}

/// The position of the first entity whose name or unique id equals the key.
pub open spec fn key_index(s: Seq<GameObject>, key: Seq<char>) -> int {
    key_index_from(s, key, 0)
}

/// The first entity position of the given unique id lies within the list
/// and carries that id, and no earlier position does.
pub proof fn lemma_uuid_index_spec(s: Seq<GameObject>, uuid: Seq<char>)
    ensures
        0 <= uuid_index(s, uuid) <= s.len(),
        uuid_index(s, uuid) < s.len() ==> s[uuid_index(s, uuid)].id.uuid@ == uuid,
        forall|j: int| 0 <= j < uuid_index(s, uuid) ==> (#[trigger] s[j]).id.uuid@ != uuid,
{
    lemma_uuid_index_from_spec(s, uuid, 0);
}

proof fn lemma_uuid_index_from_spec(s: Seq<GameObject>, uuid: Seq<char>, i: int)
    requires
        0 <= i <= s.len(),
    ensures
        i <= uuid_index_from(s, uuid, i) <= s.len(),
        uuid_index_from(s, uuid, i) < s.len() ==> s[uuid_index_from(s, uuid, i)].id.uuid@ == uuid,
        forall|j: int| i <= j < uuid_index_from(s, uuid, i) ==> (#[trigger] s[j]).id.uuid@ != uuid,
    decreases s.len() - i,
{
    if i < s.len() && s[i].id.uuid@ != uuid {
        lemma_uuid_index_from_spec(s, uuid, i + 1);
    }
}

/// Whether one of the first `n` strings of the list equals the id.
pub open spec fn str_present_before(d: Seq<String>, n: int, u: Seq<char>) -> bool
    decreases n,
{
    if n <= 0 || n > d.len() {
        false
    } else {
        str_present_before(d, n - 1, u) || d[n - 1]@ == u
    }
}

/// The position of the last entity in the list with the given unique id;
/// -1 when there is none.
pub open spec fn last_uuid_in(rcv: Seq<GameObject>, u: Seq<char>) -> int
    decreases rcv.len(),
{
    if rcv.len() == 0 {
        -1
    } else if rcv.last().id.uuid@ == u {
        rcv.len() - 1
    } else {
        last_uuid_in(rcv.drop_last(), u)
    }
}

/// The last position with a given unique id lies within the list and
/// carries that id.
pub proof fn lemma_last_uuid_spec(rcv: Seq<GameObject>, u: Seq<char>)
    ensures
        -1 <= last_uuid_in(rcv, u) < rcv.len(),
        last_uuid_in(rcv, u) >= 0 ==> rcv[last_uuid_in(rcv, u)].id.uuid@ == u,
    decreases rcv.len(),
{
    if rcv.len() > 0 && rcv.last().id.uuid@ != u {
        lemma_last_uuid_spec(rcv.drop_last(), u);
        if last_uuid_in(rcv, u) >= 0 {
            assert(rcv.drop_last()[last_uuid_in(rcv, u)] == rcv[last_uuid_in(rcv, u)]);
        }
    }
}

/// Equal but for the script-visible ordinal, which insertion assigns.
pub open spec fn go_like_mod_ordinal(a: GameObject, b: GameObject) -> bool {
    &&& a.id == b.id
    &&& a.components == b.components
    &&& a.init == b.init
    &&& a.start == b.start
}

/// A slot that carries the id, with no earlier slot carrying it, is the
/// id's first position.
proof fn lemma_uuid_index_is(s: Seq<GameObject>, u: Seq<char>, ui: int)
    requires
        0 <= ui < s.len(),
        s[ui].id.uuid@ == u,
        forall|j: int| 0 <= j < ui ==> (#[trigger] s[j]).id.uuid@ != u,
    ensures
        uuid_index(s, u) == ui,
{
    lemma_uuid_index_is_from(s, u, ui, 0);
}

proof fn lemma_uuid_index_is_from(s: Seq<GameObject>, u: Seq<char>, ui: int, i: int)
    requires
        0 <= i <= ui < s.len(),
        s[ui].id.uuid@ == u,
        forall|j: int| 0 <= j < ui ==> (#[trigger] s[j]).id.uuid@ != u,
    ensures
        uuid_index_from(s, u, i) == ui,
    decreases ui - i,
{
    if i < ui {
        lemma_uuid_index_is_from(s, u, ui, i + 1);
    }
}

/// Lists whose slots carry the same unique ids slot by slot give every id
/// the same first position.
proof fn lemma_uuid_index_view_congruence(a: Seq<GameObject>, b: Seq<GameObject>, u: Seq<char>)
    requires
        a.len() == b.len(),
        forall|j: int| 0 <= j < a.len() ==> (#[trigger] a[j]).id.uuid@ == b[j].id.uuid@,
    ensures
        uuid_index(a, u) == uuid_index(b, u),
{
    lemma_uuid_index_view_congruence_from(a, b, u, 0);
}

proof fn lemma_uuid_index_view_congruence_from(
    a: Seq<GameObject>,
    b: Seq<GameObject>,
    u: Seq<char>,
    i: int,
)
    requires
        a.len() == b.len(),
        forall|j: int| 0 <= j < a.len() ==> (#[trigger] a[j]).id.uuid@ == b[j].id.uuid@,
    ensures
        uuid_index_from(a, u, i) == uuid_index_from(b, u, i),
    decreases a.len() - i,
{
    if 0 <= i && i < a.len() && a[i].id.uuid@ != u {
        lemma_uuid_index_view_congruence_from(a, b, u, i + 1);
    }
}

/// Lookups after replacing the slot that carries an id with another entity
/// of the same id: every id's first position is unchanged, every other
/// slot's value is unchanged.
pub proof fn lemma_lookup_after_update(s: Seq<GameObject>, ui: int, g2: GameObject, u: Seq<char>)
    requires
        0 <= ui < s.len(),
        s[ui].id.uuid@ == g2.id.uuid@,
    ensures
        uuid_index(s.update(ui, g2), u) == uuid_index(s, u),
        u != g2.id.uuid@ && uuid_index(s, u) < s.len() ==> s.update(ui, g2)[uuid_index(s, u)]
            == s[uuid_index(s, u)],
{
    let s2 = s.update(ui, g2);
    assert forall|j: int| 0 <= j < s.len() implies (#[trigger] s[j]).id.uuid@
        == s2[j].id.uuid@ by {}
    lemma_uuid_index_view_congruence(s, s2, u);
    if u != g2.id.uuid@ && uuid_index(s, u) < s.len() {
        lemma_uuid_index_spec(s, u);
        assert(uuid_index(s, u) != ui);
    }
}

/// Lookups after appending an entity whose id is fresh: the new id's first
/// position is the old length, every other id's first position and value
/// are unchanged.
pub proof fn lemma_lookup_after_push(s: Seq<GameObject>, g2: GameObject, u: Seq<char>)
    ensures
        u == g2.id.uuid@ && uuid_index(s, u) == s.len() ==> uuid_index(s.push(g2), u) == s.len(),
        u != g2.id.uuid@ && uuid_index(s, u) < s.len() ==> uuid_index(s.push(g2), u)
            == uuid_index(s, u) && s.push(g2)[uuid_index(s, u)] == s[uuid_index(s, u)],
        u != g2.id.uuid@ && uuid_index(s, u) == s.len() ==> uuid_index(s.push(g2), u) == s.len()
            + 1,
{
    lemma_uuid_index_spec(s, u);
    let s2 = s.push(g2);
    if uuid_index(s, u) < s.len() {
        assert forall|j: int| 0 <= j < uuid_index(s, u) implies (#[trigger] s2[j]).id.uuid@
            != u by {
            assert(s2[j] == s[j]);
        }
        assert(s2[uuid_index(s, u)] == s[uuid_index(s, u)]);
        lemma_uuid_index_is(s2, u, uuid_index(s, u));
    } else {
        if u == g2.id.uuid@ {
            assert forall|j: int| 0 <= j < s.len() implies (#[trigger] s2[j]).id.uuid@ != u by {
                assert(s2[j] == s[j]);
            }
            assert(s2[s.len() as int].id.uuid@ == u);
            lemma_uuid_index_is(s2, u, s.len() as int);
        } else {
            assert forall|j: int| 0 <= j < s2.len() implies (#[trigger] s2[j]).id.uuid@ != u by {
                if j < s.len() {
                    assert(s2[j] == s[j]);
                }
            }
            lemma_uuid_no_match_absent(s2, u);
        }
    }
}

/// An id that matches no slot has the list length as its first position.
proof fn lemma_uuid_no_match_absent(s: Seq<GameObject>, u: Seq<char>)
    requires
        forall|j: int| 0 <= j < s.len() ==> (#[trigger] s[j]).id.uuid@ != u,
    ensures
        uuid_index(s, u) == s.len(),
{
    lemma_uuid_index_spec(s, u);
}

/// Lookups after removing the slot of one id, the ids being unique: every
/// other id keeps its presence and its value.
pub proof fn lemma_lookup_after_remove(s: Seq<GameObject>, ri: int, u: Seq<char>)
    requires
        uuids_unique(s),
        0 <= ri < s.len(),
        u != s[ri].id.uuid@,
    ensures
        uuid_index(s, u) < s.len() ==> uuid_index(s.remove(ri), u) < s.remove(ri).len()
            && s.remove(ri)[uuid_index(s.remove(ri), u)] == s[uuid_index(s, u)],
        uuid_index(s, u) == s.len() ==> uuid_index(s.remove(ri), u) == s.remove(ri).len(),
{
    let s2 = s.remove(ri);
    lemma_uuid_index_spec(s, u);
    if uuid_index(s, u) < s.len() {
        let oi = uuid_index(s, u);
        assert(oi != ri);
        let mi: int = if oi < ri {
            oi
        } else {
            oi - 1
        };
        assert(s2[mi] == s[oi]);
        assert forall|j: int| 0 <= j < mi implies (#[trigger] s2[j]).id.uuid@ != u by {
            let j0: int = if j < ri {
                j
            } else {
                j + 1
            };
            assert(s2[j] == s[j0]);
            assert(j0 < oi);
        }
        lemma_uuid_index_is(s2, u, mi);
    } else {
        assert forall|j: int| 0 <= j < s2.len() implies (#[trigger] s2[j]).id.uuid@ != u by {
            let j0: int = if j < ri {
                j
            } else {
                j + 1
            };
            assert(s2[j] == s[j0]);
        }
        lemma_uuid_no_match_absent(s2, u);
    }
}

/// The world's authoritative state: the live entities, unique ids never
/// shared, and the asset tables keyed by string ids.
pub struct WorldState {
    pub gameobjects: Vec<GameObject>,
    pub textures: Vec<TextureAsset>,
    pub fonts: Vec<String>,
    pub music: Vec<String>,
    pub sfx: Vec<String>,
    pub scenes: Vec<SceneAsset>,
}

impl WorldState {
    /// The map invariant: every live entity's unique id is its own.
    pub open spec fn wf(&self) -> bool {
        uuids_unique(self.gameobjects@)
    }

    /// A fresh world: no entities, empty asset tables.
    pub fn new() -> (r: WorldState)
        ensures
            r.wf(),
            r.gameobjects@.len() == 0,
            r.textures@.len() == 0,
            r.fonts@.len() == 0,
            r.music@.len() == 0,
            r.sfx@.len() == 0,
            r.scenes@.len() == 0,
    {
        WorldState {
            gameobjects: Vec::new(),
            textures: Vec::new(),
            fonts: Vec::new(),
            music: Vec::new(),
            sfx: Vec::new(),
            scenes: Vec::new(),
        }
    }

    /// The position of the entity with the given unique id, when it lives.
    pub fn index_of_uuid(&self, uuid: &String) -> (r: usize)
        ensures
            r as int == uuid_index(self.gameobjects@, uuid@),
    {
        let mut i: usize = 0;
        while i < self.gameobjects.len()
            invariant
                i <= self.gameobjects.len(),
                uuid_index(self.gameobjects@, uuid@) == uuid_index_from(
                    self.gameobjects@,
                    uuid@,
                    i as int,
                ),
            decreases self.gameobjects.len() - i,
        {
            if self.gameobjects[i].id.uuid == *uuid {
                return i;
            }
            i = i + 1;
        }
        self.gameobjects.len()
    }

    /// The first entity whose name or unique id equals the key, or nothing.
    pub fn wrap(&self, key: &String) -> (r: Option<&GameObject>)
        ensures
            key_index(self.gameobjects@, key@) < self.gameobjects@.len() ==> r == Some(
                &self.gameobjects@[key_index(self.gameobjects@, key@)],
            ),
            key_index(self.gameobjects@, key@) == self.gameobjects@.len() ==> r.is_none(),
    {
        let mut i: usize = 0;
        while i < self.gameobjects.len()
            invariant
                i <= self.gameobjects.len(),
                key_index(self.gameobjects@, key@) == key_index_from(
                    self.gameobjects@,
                    key@,
                    i as int,
                ),
            decreases self.gameobjects.len() - i,
        {
            if self.gameobjects[i].id.name == *key || self.gameobjects[i].id.uuid == *key {
                return Some(&self.gameobjects[i]);
            }
            i = i + 1;
        }
        None
    }

    /// The first entity whose name or unique id equals the key. The caller
    /// must know such an entity lives: a missing key is a caller error.
    pub fn get(&self, key: &String) -> (r: &GameObject)
        requires
            key_index(self.gameobjects@, key@) < self.gameobjects@.len(),
        ensures
            r == &self.gameobjects@[key_index(self.gameobjects@, key@)],
    {
        match self.wrap(key) {
            Some(g) => g,
            None => vstd::pervasive::unreached(),
        }
    }

    /// Inserts the entity keyed by its unique id, assigning it the next
    /// script-visible ordinal: an entity with the same id is replaced, any
    /// other is appended. Id uniqueness is preserved.
    pub fn insert(&mut self, g: GameObject)
        requires
            old(self).wf(),
        ensures
            final(self).wf(),
            ({
                let g2 = GameObject {
                    id: g.id,
                    wren_id: old(self).gameobjects@.len() as usize,
                    components: g.components,
                    init: g.init,
                    start: g.start,
                };
                let ui = uuid_index(old(self).gameobjects@, g.id.uuid@);
                if ui < old(self).gameobjects@.len() {
                    final(self).gameobjects@ == old(self).gameobjects@.update(ui, g2)
                } else {
                    final(self).gameobjects@ == old(self).gameobjects@.push(g2)
                }
            }),
            final(self).textures == old(self).textures,
            final(self).fonts == old(self).fonts,
            final(self).music == old(self).music,
            final(self).sfx == old(self).sfx,
            final(self).scenes == old(self).scenes,
    {
        let mut g2 = g;
        g2.wren_id = self.gameobjects.len();
        self.insert_keyed(g2);
    }

    /// Inserts the entity keyed by its unique id, keeping its ordinal: an
    /// entity with the same id is replaced, any other is appended. Id
    /// uniqueness is preserved.
    pub fn insert_wren(&mut self, g: GameObject)
        requires
            old(self).wf(),
        ensures
            final(self).wf(),
            ({
                let ui = uuid_index(old(self).gameobjects@, g.id.uuid@);
                if ui < old(self).gameobjects@.len() {
                    final(self).gameobjects@ == old(self).gameobjects@.update(ui, g)
                } else {
                    final(self).gameobjects@ == old(self).gameobjects@.push(g)
                }
            }),
            final(self).textures == old(self).textures,
            final(self).fonts == old(self).fonts,
            final(self).music == old(self).music,
            final(self).sfx == old(self).sfx,
            final(self).scenes == old(self).scenes,
    {
        self.insert_keyed(g);
    }

    /// The shared insertion: replace the entity with the same unique id, or
    /// append.
    fn insert_keyed(&mut self, g: GameObject)
        requires
            old(self).wf(),
        ensures
            final(self).wf(),
            ({
                let ui = uuid_index(old(self).gameobjects@, g.id.uuid@);
                if ui < old(self).gameobjects@.len() {
                    final(self).gameobjects@ == old(self).gameobjects@.update(ui, g)
                } else {
                    final(self).gameobjects@ == old(self).gameobjects@.push(g)
                }
            }),
            final(self).textures == old(self).textures,
            final(self).fonts == old(self).fonts,
            final(self).music == old(self).music,
            final(self).sfx == old(self).sfx,
            final(self).scenes == old(self).scenes,
    {
        let ui = self.index_of_uuid(&g.id.uuid);
        proof {
            lemma_uuid_index_spec(self.gameobjects@, g.id.uuid@);
        }
        if ui < self.gameobjects.len() {
            self.gameobjects.set(ui, g);
            proof {
                let s0 = old(self).gameobjects@;
                let s1 = self.gameobjects@;
                let uix = uuid_index(s0, g.id.uuid@);
                assert forall|i: int, j: int| 0 <= i < j < s1.len() implies (
                #[trigger] s1[i]).id.uuid@ != (#[trigger] s1[j]).id.uuid@ by {
                    if i != uix && j != uix {
                        assert(s1[i] == s0[i] && s1[j] == s0[j]);
                    }
                }
            }
        } else {
            self.gameobjects.push(g);
            proof {
                let s0 = old(self).gameobjects@;
                let s1 = self.gameobjects@;
                assert forall|i: int, j: int| 0 <= i < j < s1.len() implies (
                #[trigger] s1[i]).id.uuid@ != (#[trigger] s1[j]).id.uuid@ by {
                    if j == s0.len() {
                        assert(s1[i] == s0[i]);
                        assert(s1[j].id.uuid@ == g.id.uuid@);
                        lemma_uuid_index_spec(s0, g.id.uuid@);
                    } else {
                        assert(s1[i] == s0[i] && s1[j] == s0[j]);
                    }
                }
            }
        }
    }

    /// Removes the entity with the given unique id, when it lives; the rest
    /// keep their order. Id uniqueness is preserved.
    pub fn remove_uuid(&mut self, uuid: &String)
        requires
            old(self).wf(),
        ensures
            final(self).wf(),
            ({
                let ui = uuid_index(old(self).gameobjects@, uuid@);
                if ui < old(self).gameobjects@.len() {
                    final(self).gameobjects@ == old(self).gameobjects@.remove(ui)
                } else {
                    final(self).gameobjects@ == old(self).gameobjects@
                }
            }),
            final(self).textures == old(self).textures,
            final(self).fonts == old(self).fonts,
            final(self).music == old(self).music,
            final(self).sfx == old(self).sfx,
            final(self).scenes == old(self).scenes,
    {
        let ui = self.index_of_uuid(uuid);
        if ui < self.gameobjects.len() {
            self.gameobjects.remove(ui);
            proof {
                let s0 = old(self).gameobjects@;
                let s1 = self.gameobjects@;
                let uix = uuid_index(s0, uuid@);
                assert forall|i: int, j: int| 0 <= i < j < s1.len() implies (
                #[trigger] s1[i]).id.uuid@ != (#[trigger] s1[j]).id.uuid@ by {
                    let i0: int = if i < uix {
                        i
                    } else {
                        i + 1
                    };
                    let j0: int = if j < uix {
                        j
                    } else {
                        j + 1
                    };
                    assert(s1[i] == s0[i0]);
                    assert(s1[j] == s0[j0]);
                }
            }
        }
    }
}

/// Uniqueness law: in a well-formed world no two live entities share a
/// unique id, whatever insertions and removals produced it.
pub proof fn lemma_uuid_unique(w: &WorldState, i: int, j: int)
    requires
        w.wf(),
        0 <= i < w.gameobjects@.len(),
        0 <= j < w.gameobjects@.len(),
        i != j,
    ensures
        w.gameobjects@[i].id.uuid@ != w.gameobjects@[j].id.uuid@,
{
}

/// Whether the entity carries a rigidbody.
pub open spec fn go_has_rb(g: GameObject) -> bool {
    has_kind(g.components@, ComponentKind::Rigidbody)
}

/// The entity's first rigidbody.
pub open spec fn go_rb(g: GameObject) -> Rigidbody {
    rb_in(g.components@[kind_index(g.components@, ComponentKind::Rigidbody)])
}

/// Whether the entity carries a scene.
pub open spec fn go_has_scene(g: GameObject) -> bool {
    has_kind(g.components@, ComponentKind::Scene)
}

/// The entity's first scene.
pub open spec fn go_scene(g: GameObject) -> crate::components::Scene {
    scene_in(g.components@[kind_index(g.components@, ComponentKind::Scene)])
}

/// The entity after one horizontal integration step: the first rigidbody's
/// position advanced by its velocity, its collision back-reference cleared;
/// an entity without a body is untouched.
pub open spec fn integrated_x(g0: GameObject, g1: GameObject, dt: int) -> bool {
    if go_has_rb(g0) {
        let rb = go_rb(g0);
        &&& g1.id == g0.id
        &&& g1.wren_id == g0.wren_id
        &&& g1.init == g0.init
        &&& g1.start == g0.start
        &&& g1.components@ == g0.components@.update(
            kind_index(g0.components@, ComponentKind::Rigidbody),
            Component::Rigidbody(
                Rigidbody {
                    position: Vec2 {
                        x: (rb.position.x + rb.velocity.x * dt) as i64,
                        y: rb.position.y,
                    },
                    parent: rb.parent,
                    pivot: rb.pivot,
                    scale: rb.scale,
                    rotation: rb.rotation,
                    bounds: rb.bounds,
                    velocity: rb.velocity,
                    colliding: None,
                    solid: rb.solid,
                },
            ),
        )
    } else {
        g1 == g0
    }
}

/// The entity after one vertical integration step.
pub open spec fn integrated_y(g0: GameObject, g1: GameObject, dt: int) -> bool {
    if go_has_rb(g0) {
        let rb = go_rb(g0);
        &&& g1.id == g0.id
        &&& g1.wren_id == g0.wren_id
        &&& g1.init == g0.init
        &&& g1.start == g0.start
        &&& g1.components@ == g0.components@.update(
            kind_index(g0.components@, ComponentKind::Rigidbody),
            Component::Rigidbody(
                Rigidbody {
                    position: Vec2 {
                        x: rb.position.x,
                        y: (rb.position.y + rb.velocity.y * dt) as i64,
                    },
                    parent: rb.parent,
                    pivot: rb.pivot,
                    scale: rb.scale,
                    rotation: rb.rotation,
                    bounds: rb.bounds,
                    velocity: rb.velocity,
                    colliding: rb.colliding,
                    solid: rb.solid,
                },
            ),
        )
    } else {
        g1 == g0
    }
}

/// Solidity of the side being resolved against: its rigidbody's flag, or
/// solid outright for the static bodies a scene contributes.
pub open spec fn b_solid(s: Seq<GameObject>, j: int) -> bool {
    if go_has_rb(s[j]) {
        go_rb(s[j]).solid
    } else {
        true
    }
}

/// An entity-against-entity overlap: both carry bodies, neither carries a
/// scene, and the separating-axis test reports an overlap.
pub open spec fn pair_ee_hit(ga: GameObject, gb: GameObject) -> bool {
    &&& go_has_rb(ga)
    &&& go_has_rb(gb)
    &&& !go_has_scene(ga)
    &&& !go_has_scene(gb)
    &&& crate::math::sat_overlaps(
        crate::components::rb_aabb(go_rb(ga)),
        crate::components::rb_aabb(go_rb(gb)),
    )
}

/// An entity-against-scene overlap: the other side carries a scene one of
/// whose static bodies the entity's body overlaps.
pub open spec fn pair_es_hit(ga: GameObject, gb: GameObject) -> bool {
    &&& go_has_rb(ga)
    &&& go_has_scene(gb)
    &&& exists|k: int|
        0 <= k < go_scene(gb).rigidbodies@.len() && crate::math::sat_overlaps(
            crate::components::rb_aabb(go_rb(ga)),
            crate::components::rb_aabb(#[trigger] go_scene(gb).rigidbodies@[k]),
        )
}

/// The overlap against partner `j` qualifies for resolution: a distinct,
/// initialized pair with a reported overlap.
pub open spec fn qual_hit(s: Seq<GameObject>, i: int, j: int) -> bool {
    &&& i != j
    &&& s[i].init
    &&& s[j].init
    &&& (pair_ee_hit(s[i], s[j]) || pair_es_hit(s[i], s[j]))
}

/// The first partner entity `i` qualifies against, searched from `j` on;
/// the list length when there is none.
pub open spec fn first_qual_from(s: Seq<GameObject>, i: int, j: int) -> int
    decreases s.len() - j,
{
    if j < 0 || j >= s.len() {
        s.len() as int
    } else if qual_hit(s, i, j) {
        j
    } else {
        first_qual_from(s, i, j + 1)
    }
}

/// The first partner entity `i` qualifies against; the list length when
/// there is none.
pub open spec fn first_qual(s: Seq<GameObject>, i: int) -> int {
    first_qual_from(s, i, 0)
}

/// The first qualifying partner lies within the list and qualifies, and no
/// earlier partner does.
pub proof fn lemma_first_qual_spec(s: Seq<GameObject>, i: int)
    ensures
        0 <= first_qual(s, i) <= s.len(),
        first_qual(s, i) < s.len() ==> qual_hit(s, i, first_qual(s, i)),
        forall|j: int| 0 <= j < first_qual(s, i) ==> !qual_hit(s, i, j),
{
    lemma_first_qual_from_spec(s, i, 0);
}

proof fn lemma_first_qual_from_spec(s: Seq<GameObject>, i: int, j: int)
    requires
        0 <= j <= s.len(),
    ensures
        j <= first_qual_from(s, i, j) <= s.len(),
        first_qual_from(s, i, j) < s.len() ==> qual_hit(s, i, first_qual_from(s, i, j)),
        forall|t: int| j <= t < first_qual_from(s, i, j) ==> !qual_hit(s, i, t),
    decreases s.len() - j,
{
    if j < s.len() && !qual_hit(s, i, j) {
        lemma_first_qual_from_spec(s, i, j + 1);
    }
}

/// The entity after horizontal resolution against the snapshot `s`: where a
/// qualifying partner exists, the back-reference names the first one, and
/// where that partner is solid the horizontal integration is undone.
pub open spec fn resolved_x(s: Seq<GameObject>, i: int, g1: GameObject, dt: int) -> bool {
    if go_has_rb(s[i]) && first_qual(s, i) < s.len() {
        let j = first_qual(s, i);
        let rb = go_rb(s[i]);
        &&& g1.id == s[i].id
        &&& g1.wren_id == s[i].wren_id
        &&& g1.init == s[i].init
        &&& g1.start == s[i].start
        &&& g1.components@ == s[i].components@.update(
            kind_index(s[i].components@, ComponentKind::Rigidbody),
            Component::Rigidbody(
                Rigidbody {
                    position: Vec2 {
                        x: if b_solid(s, j) {
                            (rb.position.x - rb.velocity.x * dt) as i64
                        } else {
                            rb.position.x
                        },
                        y: rb.position.y,
                    },
                    colliding: Some(s[j].id),
                    parent: rb.parent,
                    pivot: rb.pivot,
                    scale: rb.scale,
                    rotation: rb.rotation,
                    bounds: rb.bounds,
                    velocity: rb.velocity,
                    solid: rb.solid,
                },
            ),
        )
    } else {
        g1 == s[i]
    }
}

/// The entity after vertical resolution against the snapshot `s`.
pub open spec fn resolved_y(s: Seq<GameObject>, i: int, g1: GameObject, dt: int) -> bool {
    if go_has_rb(s[i]) && first_qual(s, i) < s.len() {
        let j = first_qual(s, i);
        let rb = go_rb(s[i]);
        &&& g1.id == s[i].id
        &&& g1.wren_id == s[i].wren_id
        &&& g1.init == s[i].init
        &&& g1.start == s[i].start
        &&& g1.components@ == s[i].components@.update(
            kind_index(s[i].components@, ComponentKind::Rigidbody),
            Component::Rigidbody(
                Rigidbody {
                    position: Vec2 {
                        x: rb.position.x,
                        y: if b_solid(s, j) {
                            (rb.position.y - rb.velocity.y * dt) as i64
                        } else {
                            rb.position.y
                        },
                    },
                    colliding: Some(s[j].id),
                    parent: rb.parent,
                    pivot: rb.pivot,
                    scale: rb.scale,
                    rotation: rb.rotation,
                    bounds: rb.bounds,
                    velocity: rb.velocity,
                    solid: rb.solid,
                },
            ),
        )
    } else {
        g1 == s[i]
    }
}

/// The body's horizontal coordinates and velocity lie in the range one
/// horizontal step keeps free of overflow and inside the simulated range.
pub open spec fn rb_phys_ok_x(rb: Rigidbody, dt: int) -> bool {
    &&& 0 <= dt <= 32768
    &&& -1048576 <= rb.velocity.x <= 1048576
    &&& -131072 <= rb.position.x <= 131072
    &&& -131072 <= rb.position.x + rb.velocity.x * dt <= 131072
}

/// The body's vertical coordinates and velocity lie in the range one
/// vertical step keeps free of overflow and inside the simulated range.
pub open spec fn rb_phys_ok_y(rb: Rigidbody, dt: int) -> bool {
    &&& 0 <= dt <= 32768
    &&& -1048576 <= rb.velocity.y <= 1048576
    &&& -131072 <= rb.position.y <= 131072
    &&& -131072 <= rb.position.y + rb.velocity.y * dt <= 131072
}

/// The body's pivot and scaled extents lie in the collider's range.
pub open spec fn rb_extents_ok(rb: Rigidbody) -> bool {
    &&& -65536 <= rb.pivot.x <= 65536
    &&& -65536 <= rb.pivot.y <= 65536
    &&& 1 <= crate::components::rb_w(rb) <= 262144
    &&& 1 <= crate::components::rb_h(rb) <= 262144
}

/// The body's coordinates, extents and velocity lie in the range one frame
/// of integration, resolution and collision testing keeps free of overflow:
/// positions stay within the simulated range before and after a step on
/// either axis, and the collider stays in the separating-axis test's range.
pub open spec fn rb_phys_ok(rb: Rigidbody, dt: int) -> bool {
    &&& rb_phys_ok_x(rb, dt)
    &&& rb_phys_ok_y(rb, dt)
    &&& rb_extents_ok(rb)
}

/// Every body of the world — each entity's first rigidbody and every static
/// body of each scene — lies in the physics range for step `dt`.
pub open spec fn world_phys_ok(s: Seq<GameObject>, dt: int) -> bool {
    forall|i: int|
        0 <= i < s.len() ==> {
            &&& (go_has_rb(#[trigger] s[i]) ==> rb_phys_ok(go_rb(s[i]), dt))
            &&& (go_has_scene(s[i]) ==> forall|k: int|
                0 <= k < go_scene(s[i]).rigidbodies@.len() ==> rb_phys_ok(
                    #[trigger] go_scene(s[i]).rigidbodies@[k],
                    dt,
                ))
        }
}

/// The resolution decision recorded for entity `t`: its first qualifying
/// partner's identity and solidity, or nothing.
pub open spec fn decision_ok(
    s: Seq<GameObject>,
    t: int,
    d: Option<(GameObjectId, bool)>,
) -> bool {
    if go_has_rb(s[t]) && first_qual(s, t) < s.len() {
        d == Some((s[first_qual(s, t)].id, b_solid(s, first_qual(s, t))))
    } else {
        d.is_none()
    }
}

/// The body's horizontal coordinates admit undoing one integration step.
pub open spec fn rb_resolve_ok_x(rb: Rigidbody, dt: int) -> bool {
    &&& 0 <= dt <= 32768
    &&& -1048576 <= rb.velocity.x <= 1048576
    &&& -262144 <= rb.position.x <= 262144
    &&& -262144 <= rb.position.x - rb.velocity.x * dt <= 262144
}

/// The body's vertical coordinates admit undoing one integration step.
pub open spec fn rb_resolve_ok_y(rb: Rigidbody, dt: int) -> bool {
    &&& 0 <= dt <= 32768
    &&& -1048576 <= rb.velocity.y <= 1048576
    &&& -262144 <= rb.position.y <= 262144
    &&& -262144 <= rb.position.y - rb.velocity.y * dt <= 262144
}

/// Every entity body admits undoing one horizontal step.
pub open spec fn world_resolve_ok_x(s: Seq<GameObject>, dt: int) -> bool {
    forall|i: int|
        0 <= i < s.len() ==> (go_has_rb(#[trigger] s[i]) ==> rb_resolve_ok_x(go_rb(s[i]), dt))
}

/// Every entity body admits undoing one vertical step.
pub open spec fn world_resolve_ok_y(s: Seq<GameObject>, dt: int) -> bool {
    forall|i: int|
        0 <= i < s.len() ==> (go_has_rb(#[trigger] s[i]) ==> rb_resolve_ok_y(go_rb(s[i]), dt))
}

/// Every body's collider lies in the separating-axis test's range.
pub open spec fn world_rects_ok(s: Seq<GameObject>) -> bool {
    forall|i: int|
        0 <= i < s.len() ==> {
            &&& (go_has_rb(#[trigger] s[i]) ==> crate::components::rb_rect_ok(go_rb(s[i])))
            &&& (go_has_scene(s[i]) ==> forall|k: int|
                0 <= k < go_scene(s[i]).rigidbodies@.len() ==> crate::components::rb_rect_ok(
                    #[trigger] go_scene(s[i]).rigidbodies@[k],
                ))
        }
}

/// Whether entity `ga`'s body overlaps entity `gb`: against `gb`'s own body
/// where both are plain bodies, or against any static body of `gb`'s scene.
fn hit_between(ga: &GameObject, gb: &GameObject) -> (r: bool)
    requires
        go_has_rb(*ga),
        crate::components::rb_rect_ok(go_rb(*ga)),
        go_has_rb(*gb) ==> crate::components::rb_rect_ok(go_rb(*gb)),
        go_has_scene(*gb) ==> forall|k: int|
            0 <= k < go_scene(*gb).rigidbodies@.len() ==> crate::components::rb_rect_ok(
                #[trigger] go_scene(*gb).rigidbodies@[k],
            ),
    ensures
        r == (pair_ee_hit(*ga, *gb) || pair_es_hit(*ga, *gb)),
{
    proof {
        crate::gameobject::lemma_kind_index_spec(ga.components@, ComponentKind::Rigidbody);
        crate::gameobject::lemma_kind_index_spec(gb.components@, ComponentKind::Rigidbody);
        crate::gameobject::lemma_kind_index_spec(gb.components@, ComponentKind::Scene);
    }
    let rba = match ga.get(ComponentKind::Rigidbody).as_rigidbody() {
        Some(c) => c,
        None => vstd::pervasive::unreached(),
    };
    proof {
        assert(*rba == go_rb(*ga));
    }
    let mut hit = false;
    if gb.has(ComponentKind::Rigidbody) && !ga.has(ComponentKind::Scene) && !gb.has(
        ComponentKind::Scene,
    ) {
        let rbb = match gb.get(ComponentKind::Rigidbody).as_rigidbody() {
            Some(c) => c,
            None => vstd::pervasive::unreached(),
        };
        proof {
            assert(*rbb == go_rb(*gb));
        }
        let check = rba.check_collision_sat(rbb);
        if check.0 {
            hit = true;
        }
    }
    if !hit && gb.has(ComponentKind::Scene) {
        let sc = match gb.get(ComponentKind::Scene).as_scene() {
            Some(c) => c,
            None => vstd::pervasive::unreached(),
        };
        proof {
            assert(*sc == go_scene(*gb));
        }
        let mut k: usize = 0;
        while k < sc.rigidbodies.len()
            invariant
                k <= sc.rigidbodies.len(),
                go_has_rb(*ga),
                go_has_scene(*gb),
                crate::components::rb_rect_ok(go_rb(*ga)),
                sc == &go_scene(*gb),
                rba == &go_rb(*ga),
                forall|t: int|
                    0 <= t < sc.rigidbodies@.len() ==> crate::components::rb_rect_ok(
                        #[trigger] sc.rigidbodies@[t],
                    ),
                forall|t: int|
                    0 <= t < k ==> !crate::math::sat_overlaps(
                        crate::components::rb_aabb(go_rb(*ga)),
                        crate::components::rb_aabb(#[trigger] sc.rigidbodies@[t]),
                    ),
            decreases sc.rigidbodies.len() - k,
        {
            let check = rba.check_collision_sat(&sc.rigidbodies[k]);
            if check.0 {
                proof {
                    assert(crate::math::sat_overlaps(
                        crate::components::rb_aabb(go_rb(*ga)),
                        crate::components::rb_aabb(go_scene(*gb).rigidbodies@[k as int]),
                    ));
                    assert(exists|kk: int|
                        0 <= kk < go_scene(*gb).rigidbodies@.len() && crate::math::sat_overlaps(
                            crate::components::rb_aabb(go_rb(*ga)),
                            crate::components::rb_aabb(
                                #[trigger] go_scene(*gb).rigidbodies@[kk],
                            ),
                        )) by {
                        assert((k as int) < go_scene(*gb).rigidbodies@.len()
                            && crate::math::sat_overlaps(
                            crate::components::rb_aabb(go_rb(*ga)),
                            crate::components::rb_aabb(go_scene(*gb).rigidbodies@[k as int]),
                        ));
                    }
                    assert(pair_es_hit(*ga, *gb));
                }
                return true;
            }
            k = k + 1;
        }
    }
    hit
}

/// The first partner the entity at `i` qualifies against, or the list
/// length when there is none.
fn first_qual_exec(s: &Vec<GameObject>, i: usize) -> (r: usize)
    requires
        i < s@.len(),
        go_has_rb(s@[i as int]),
        world_rects_ok(s@),
    ensures
        r as int == first_qual(s@, i as int),
{
    let mut j: usize = 0;
    while j < s.len()
        invariant
            j <= s@.len(),
            i < s@.len(),
            go_has_rb(s@[i as int]),
            world_rects_ok(s@),
            first_qual(s@, i as int) == first_qual_from(s@, i as int, j as int),
        decreases s.len() - j,
    {
        if j != i && s[i].init && s[j].init {
            if hit_between(&s[i], &s[j]) {
                return j;
            }
        }
        j = j + 1;
    }
    s.len()
}

impl WorldState {
    /// Integrates every body's horizontal velocity into its position and
    /// clears the collision back-references: the first half of one
    /// horizontal sub-step.
    pub fn update_vel_x(&mut self, dt: i64)
        requires
            forall|i: int|
                0 <= i < old(self).gameobjects@.len() ==> (go_has_rb(
                    #[trigger] old(self).gameobjects@[i],
                ) ==> rb_phys_ok_x(go_rb(old(self).gameobjects@[i]), dt as int)),
        ensures
            final(self).gameobjects@.len() == old(self).gameobjects@.len(),
            forall|i: int|
                0 <= i < old(self).gameobjects@.len() ==> integrated_x(
                    old(self).gameobjects@[i],
                    #[trigger] final(self).gameobjects@[i],
                    dt as int,
                ),
            final(self).textures == old(self).textures,
            final(self).fonts == old(self).fonts,
            final(self).music == old(self).music,
            final(self).sfx == old(self).sfx,
            final(self).scenes == old(self).scenes,
    {
        let ghost s0 = self.gameobjects@;
        let mut i: usize = 0;
        while i < self.gameobjects.len()
            invariant
                i <= self.gameobjects.len(),
                self.gameobjects@.len() == s0.len(),
                forall|t: int|
                    0 <= t < s0.len() ==> (go_has_rb(#[trigger] s0[t]) ==> rb_phys_ok_x(
                        go_rb(s0[t]),
                        dt as int,
                    )),
                forall|t: int|
                    0 <= t < i ==> integrated_x(s0[t], #[trigger] self.gameobjects@[t], dt as int),
                forall|t: int| i <= t < s0.len() ==> #[trigger] self.gameobjects@[t] == s0[t],
                self.textures == old(self).textures,
                self.fonts == old(self).fonts,
                self.music == old(self).music,
                self.sfx == old(self).sfx,
                self.scenes == old(self).scenes,
            decreases self.gameobjects.len() - i,
        {
            let ghost pre = self.gameobjects@;
            let mut g = self.gameobjects.remove(i);
            if g.has(ComponentKind::Rigidbody) {
                proof {
                    crate::gameobject::lemma_kind_index_spec(
                        g.components@,
                        ComponentKind::Rigidbody,
                    );
                }
                let ki = g.index_of_kind(ComponentKind::Rigidbody);
                let c = g.components.remove(ki);
                let mut rb = match c {
                    Component::Rigidbody(b) => b,
                    _ => vstd::pervasive::unreached(),
                };
                rb.colliding = None;
                rb.update_vel_x(dt);
                g.components.insert(ki, Component::Rigidbody(rb));
                proof {
                    assert(g.components@ =~= s0[i as int].components@.update(
                        kind_index(s0[i as int].components@, ComponentKind::Rigidbody),
                        g.components@[kind_index(
                            s0[i as int].components@,
                            ComponentKind::Rigidbody,
                        )],
                    ));
                }
            }
            self.gameobjects.insert(i, g);
            proof {
                assert(forall|t: int|
                    0 <= t < i ==> #[trigger] self.gameobjects@[t] == pre[t]);
                assert(forall|t: int|
                    i < t < s0.len() ==> #[trigger] self.gameobjects@[t] == pre[t]);
            }
            i = i + 1;
        }
    }

    /// Resolves the horizontal sub-step against the current snapshot: every
    /// body that overlaps a qualifying partner takes the back-reference to
    /// its first partner, and where that partner is solid the horizontal
    /// integration is undone.
    pub fn resolve_x(&mut self, dt: i64)
        requires
            world_rects_ok(old(self).gameobjects@),
            world_resolve_ok_x(old(self).gameobjects@, dt as int),
        ensures
            final(self).gameobjects@.len() == old(self).gameobjects@.len(),
            forall|i: int|
                0 <= i < old(self).gameobjects@.len() ==> resolved_x(
                    old(self).gameobjects@,
                    i,
                    #[trigger] final(self).gameobjects@[i],
                    dt as int,
                ),
            final(self).textures == old(self).textures,
            final(self).fonts == old(self).fonts,
            final(self).music == old(self).music,
            final(self).sfx == old(self).sfx,
            final(self).scenes == old(self).scenes,
    {
        let ghost s0 = self.gameobjects@;
        let mut decisions: Vec<Option<(GameObjectId, bool)>> = Vec::new();
        let mut i: usize = 0;
        while i < self.gameobjects.len()
            invariant
                i <= self.gameobjects.len(),
                self.gameobjects@ == s0,
                world_rects_ok(s0),
                decisions@.len() == i,
                forall|t: int| 0 <= t < i ==> decision_ok(s0, t, #[trigger] decisions@[t]),
                self.textures == old(self).textures,
                self.fonts == old(self).fonts,
                self.music == old(self).music,
                self.sfx == old(self).sfx,
                self.scenes == old(self).scenes,
            decreases self.gameobjects.len() - i,
        {
            let d: Option<(GameObjectId, bool)> = if self.gameobjects[i].has(
                ComponentKind::Rigidbody,
            ) {
                let j = first_qual_exec(&self.gameobjects, i);
                if j < self.gameobjects.len() {
                    let solid = if self.gameobjects[j].has(ComponentKind::Rigidbody) {
                        proof {
                            crate::gameobject::lemma_kind_index_spec(
                                self.gameobjects@[j as int].components@,
                                ComponentKind::Rigidbody,
                            );
                        }
                        match self.gameobjects[j].get(ComponentKind::Rigidbody).as_rigidbody() {
                            Some(b) => b.solid,
                            None => vstd::pervasive::unreached(),
                        }
                    } else {
                        true
                    };
                    Some((self.gameobjects[j].id.clone(), solid))
                } else {
                    None
                }
            } else {
                None
            };
            decisions.push(d);
            i = i + 1;
        }
        let mut i: usize = 0;
        while i < self.gameobjects.len()
            invariant
                i <= self.gameobjects.len(),
                self.gameobjects@.len() == s0.len(),
                decisions@.len() == s0.len(),
                world_resolve_ok_x(s0, dt as int),
                forall|t: int| 0 <= t < s0.len() ==> decision_ok(s0, t, #[trigger] decisions@[t]),
                forall|t: int|
                    0 <= t < i ==> resolved_x(s0, t, #[trigger] self.gameobjects@[t], dt as int),
                forall|t: int| i <= t < s0.len() ==> #[trigger] self.gameobjects@[t] == s0[t],
                self.textures == old(self).textures,
                self.fonts == old(self).fonts,
                self.music == old(self).music,
                self.sfx == old(self).sfx,
                self.scenes == old(self).scenes,
            decreases self.gameobjects.len() - i,
        {
            let ghost pre = self.gameobjects@;
            let corrected = match &decisions[i] {
                Some(pair) => {
                    let bid = pair.0.clone();
                    let solid = pair.1;
                    let mut g = self.gameobjects.remove(i);
                    proof {
                        crate::gameobject::lemma_kind_index_spec(
                            g.components@,
                            ComponentKind::Rigidbody,
                        );
                    }
                    let ki = g.index_of_kind(ComponentKind::Rigidbody);
                    let c = g.components.remove(ki);
                    let mut rb = match c {
                        Component::Rigidbody(b) => b,
                        _ => vstd::pervasive::unreached(),
                    };
                    rb.colliding = Some(bid);
                    if solid {
                        rb.update_correct_x(dt);
                    }
                    g.components.insert(ki, Component::Rigidbody(rb));
                    self.gameobjects.insert(i, g);
                    proof {
                        assert(self.gameobjects@[i as int].components@ =~= s0[i as int].components@
                            .update(
                            kind_index(s0[i as int].components@, ComponentKind::Rigidbody),
                            self.gameobjects@[i as int].components@[kind_index(
                                s0[i as int].components@,
                                ComponentKind::Rigidbody,
                            )],
                        ));
                    }
                    true
                },
                None => { false },
            };
            proof {
                if corrected {
                    assert(forall|t: int|
                        0 <= t < i ==> #[trigger] self.gameobjects@[t] == pre[t]);
                    assert(forall|t: int|
                        i < t < s0.len() ==> #[trigger] self.gameobjects@[t] == pre[t]);
                }
                assert(resolved_x(s0, i as int, self.gameobjects@[i as int], dt as int));
            }
            i = i + 1;
        }
    }

    /// Resolves the vertical sub-step against the current snapshot.
    pub fn resolve_y(&mut self, dt: i64)
        requires
            world_rects_ok(old(self).gameobjects@),
            world_resolve_ok_y(old(self).gameobjects@, dt as int),
        ensures
            final(self).gameobjects@.len() == old(self).gameobjects@.len(),
            forall|i: int|
                0 <= i < old(self).gameobjects@.len() ==> resolved_y(
                    old(self).gameobjects@,
                    i,
                    #[trigger] final(self).gameobjects@[i],
                    dt as int,
                ),
            final(self).textures == old(self).textures,
            final(self).fonts == old(self).fonts,
            final(self).music == old(self).music,
            final(self).sfx == old(self).sfx,
            final(self).scenes == old(self).scenes,
    {
        let ghost s0 = self.gameobjects@;
        let mut decisions: Vec<Option<(GameObjectId, bool)>> = Vec::new();
        let mut i: usize = 0;
        while i < self.gameobjects.len()
            invariant
                i <= self.gameobjects.len(),
                self.gameobjects@ == s0,
                world_rects_ok(s0),
                decisions@.len() == i,
                forall|t: int| 0 <= t < i ==> decision_ok(s0, t, #[trigger] decisions@[t]),
                self.textures == old(self).textures,
                self.fonts == old(self).fonts,
                self.music == old(self).music,
                self.sfx == old(self).sfx,
                self.scenes == old(self).scenes,
            decreases self.gameobjects.len() - i,
        {
            let d: Option<(GameObjectId, bool)> = if self.gameobjects[i].has(
                ComponentKind::Rigidbody,
            ) {
                let j = first_qual_exec(&self.gameobjects, i);
                if j < self.gameobjects.len() {
                    let solid = if self.gameobjects[j].has(ComponentKind::Rigidbody) {
                        proof {
                            crate::gameobject::lemma_kind_index_spec(
                                self.gameobjects@[j as int].components@,
                                ComponentKind::Rigidbody,
                            );
                        }
                        match self.gameobjects[j].get(ComponentKind::Rigidbody).as_rigidbody() {
                            Some(b) => b.solid,
                            None => vstd::pervasive::unreached(),
                        }
                    } else {
                        true
                    };
                    Some((self.gameobjects[j].id.clone(), solid))
                } else {
                    None
                }
            } else {
                None
            };
            decisions.push(d);
            i = i + 1;
        }
        let mut i: usize = 0;
        while i < self.gameobjects.len()
            invariant
                i <= self.gameobjects.len(),
                self.gameobjects@.len() == s0.len(),
                decisions@.len() == s0.len(),
                world_resolve_ok_y(s0, dt as int),
                forall|t: int| 0 <= t < s0.len() ==> decision_ok(s0, t, #[trigger] decisions@[t]),
                forall|t: int|
                    0 <= t < i ==> resolved_y(s0, t, #[trigger] self.gameobjects@[t], dt as int),
                forall|t: int| i <= t < s0.len() ==> #[trigger] self.gameobjects@[t] == s0[t],
                self.textures == old(self).textures,
                self.fonts == old(self).fonts,
                self.music == old(self).music,
                self.sfx == old(self).sfx,
                self.scenes == old(self).scenes,
            decreases self.gameobjects.len() - i,
        {
            let ghost pre = self.gameobjects@;
            let corrected = match &decisions[i] {
                Some(pair) => {
                    let bid = pair.0.clone();
                    let solid = pair.1;
                    let mut g = self.gameobjects.remove(i);
                    proof {
                        crate::gameobject::lemma_kind_index_spec(
                            g.components@,
                            ComponentKind::Rigidbody,
                        );
                    }
                    let ki = g.index_of_kind(ComponentKind::Rigidbody);
                    let c = g.components.remove(ki);
                    let mut rb = match c {
                        Component::Rigidbody(b) => b,
                        _ => vstd::pervasive::unreached(),
                    };
                    rb.colliding = Some(bid);
                    if solid {
                        rb.update_correct_y(dt);
                    }
                    g.components.insert(ki, Component::Rigidbody(rb));
                    self.gameobjects.insert(i, g);
                    proof {
                        assert(self.gameobjects@[i as int].components@ =~= s0[i as int].components@
                            .update(
                            kind_index(s0[i as int].components@, ComponentKind::Rigidbody),
                            self.gameobjects@[i as int].components@[kind_index(
                                s0[i as int].components@,
                                ComponentKind::Rigidbody,
                            )],
                        ));
                    }
                    true
                },
                None => { false },
            };
            proof {
                if corrected {
                    assert(forall|t: int|
                        0 <= t < i ==> #[trigger] self.gameobjects@[t] == pre[t]);
                    assert(forall|t: int|
                        i < t < s0.len() ==> #[trigger] self.gameobjects@[t] == pre[t]);
                }
                assert(resolved_y(s0, i as int, self.gameobjects@[i as int], dt as int));
            }
            i = i + 1;
        }
    }

    /// Integrates every body's vertical velocity into its position: the
    /// first half of one vertical sub-step. Back-references survive from the
    /// horizontal sub-step.
    pub fn update_vel_y(&mut self, dt: i64)
        requires
            forall|i: int|
                0 <= i < old(self).gameobjects@.len() ==> (go_has_rb(
                    #[trigger] old(self).gameobjects@[i],
                ) ==> rb_phys_ok_y(go_rb(old(self).gameobjects@[i]), dt as int)),
        ensures
            final(self).gameobjects@.len() == old(self).gameobjects@.len(),
            forall|i: int|
                0 <= i < old(self).gameobjects@.len() ==> integrated_y(
                    old(self).gameobjects@[i],
                    #[trigger] final(self).gameobjects@[i],
                    dt as int,
                ),
            final(self).textures == old(self).textures,
            final(self).fonts == old(self).fonts,
            final(self).music == old(self).music,
            final(self).sfx == old(self).sfx,
            final(self).scenes == old(self).scenes,
    {
        let ghost s0 = self.gameobjects@;
        let mut i: usize = 0;
        while i < self.gameobjects.len()
            invariant
                i <= self.gameobjects.len(),
                self.gameobjects@.len() == s0.len(),
                forall|t: int|
                    0 <= t < s0.len() ==> (go_has_rb(#[trigger] s0[t]) ==> rb_phys_ok_y(
                        go_rb(s0[t]),
                        dt as int,
                    )),
                forall|t: int|
                    0 <= t < i ==> integrated_y(s0[t], #[trigger] self.gameobjects@[t], dt as int),
                forall|t: int| i <= t < s0.len() ==> #[trigger] self.gameobjects@[t] == s0[t],
                self.textures == old(self).textures,
                self.fonts == old(self).fonts,
                self.music == old(self).music,
                self.sfx == old(self).sfx,
                self.scenes == old(self).scenes,
            decreases self.gameobjects.len() - i,
        {
            let ghost pre = self.gameobjects@;
            let mut g = self.gameobjects.remove(i);
            if g.has(ComponentKind::Rigidbody) {
                proof {
                    crate::gameobject::lemma_kind_index_spec(
                        g.components@,
                        ComponentKind::Rigidbody,
                    );
                }
                let ki = g.index_of_kind(ComponentKind::Rigidbody);
                let c = g.components.remove(ki);
                let mut rb = match c {
                    Component::Rigidbody(b) => b,
                    _ => vstd::pervasive::unreached(),
                };
                rb.update_vel_y(dt);
                g.components.insert(ki, Component::Rigidbody(rb));
                proof {
                    assert(g.components@ =~= s0[i as int].components@.update(
                        kind_index(s0[i as int].components@, ComponentKind::Rigidbody),
                        g.components@[kind_index(
                            s0[i as int].components@,
                            ComponentKind::Rigidbody,
                        )],
                    ));
                }
            }
            self.gameobjects.insert(i, g);
            proof {
                assert(forall|t: int|
                    0 <= t < i ==> #[trigger] self.gameobjects@[t] == pre[t]);
                assert(forall|t: int|
                    i < t < s0.len() ==> #[trigger] self.gameobjects@[t] == pre[t]);
            }
            i = i + 1;
        }
    }
}

/// One pairwise collision fact: the two entities' identities, whether
/// their shapes overlap, and the minimum translation data when they do.
/// Facts are computed fresh every physics sub-step and never persisted.
#[derive(PartialEq, Debug)]
pub struct CollisionFact {
    pub a: GameObjectId,
    pub b: GameObjectId,
    pub hit: bool,
    pub mtv: Mtv,
}

impl Clone for CollisionFact {
    /// An exact copy.
    fn clone(&self) -> (r: Self)
        ensures
            r == *self,
    {
        CollisionFact { a: self.a.clone(), b: self.b.clone(), hit: self.hit, mtv: self.mtv }
    }
}

/// The fact slots one ordered pair contributes: one entity-against-entity
/// slot (marked by body index -1) where both are plain bodies, and one slot
/// per static body of the second entity's scene. Each slot is (first
/// entity, second entity, scene body index).
pub open spec fn pair_fact_slots(s: Seq<GameObject>, i: int, j: int) -> Seq<(int, int, int)> {
    (if go_has_rb(s[i]) && go_has_rb(s[j]) && !go_has_scene(s[i]) && !go_has_scene(s[j]) {
        seq![(i, j, -1int)]
    } else {
        Seq::empty()
    }) + (if go_has_rb(s[i]) && go_has_scene(s[j]) {
        Seq::new(go_scene(s[j]).rigidbodies@.len(), |k: int| (i, j, k))
    } else {
        Seq::empty()
    })
}

/// The fact slots entity `i` contributes against the first `n` partners.
pub open spec fn row_fact_slots(s: Seq<GameObject>, i: int, n: int) -> Seq<(int, int, int)>
    decreases n,
{
    if n <= 0 || n > s.len() {
        Seq::empty()
    } else if n - 1 == i {
        row_fact_slots(s, i, n - 1)
    } else {
        row_fact_slots(s, i, n - 1) + pair_fact_slots(s, i, n - 1)
    }
}

/// The fact slots of the first `n` entities, in pass order.
pub open spec fn all_fact_slots(s: Seq<GameObject>, n: int) -> Seq<(int, int, int)>
    decreases n,
{
    if n <= 0 || n > s.len() {
        Seq::empty()
    } else {
        all_fact_slots(s, n - 1) + row_fact_slots(s, n - 1, s.len() as int)
    }
}

/// The shape a fact slot tests against: the second entity's own collider,
/// or one static body of its scene.
pub open spec fn slot_shape(s: Seq<GameObject>, t: (int, int, int)) -> Seq<Vec2> {
    if t.2 == -1 {
        crate::components::rb_aabb(go_rb(s[t.1]))
    } else {
        crate::components::rb_aabb(go_scene(s[t.1]).rigidbodies@[t.2])
    }
}

/// The fact carries the slot's identities and the separating-axis result
/// for the slot's pair of shapes.
pub open spec fn fact_ok(s: Seq<GameObject>, f: CollisionFact, t: (int, int, int)) -> bool {
    &&& f.a == s[t.0].id
    &&& f.b == s[t.1].id
    &&& f.hit == crate::math::sat_overlaps(crate::components::rb_aabb(go_rb(s[t.0])), slot_shape(s, t))
    &&& f.hit ==> crate::math::is_min_mtv(
        crate::components::rb_aabb(go_rb(s[t.0])),
        slot_shape(s, t),
        f.mtv,
    )
    &&& !f.hit ==> f.mtv == crate::math::zero_mtv()
}

impl WorldState {
    /// Emits the pairwise collision facts of the current snapshot: for
    /// every ordered pair of distinct entities, the separating-axis result
    /// of the first one's body against the second one's body, and against
    /// every static body the second one's scene contributes. A pair without
    /// the needed components is a normal nothing-to-do and contributes no
    /// fact.
    pub fn check_collision(&self) -> (r: Vec<CollisionFact>)
        requires
            world_rects_ok(self.gameobjects@),
        ensures
            r@.len() == all_fact_slots(self.gameobjects@, self.gameobjects@.len() as int).len(),
            forall|fi: int|
                0 <= fi < r@.len() ==> fact_ok(
                    self.gameobjects@,
                    #[trigger] r@[fi],
                    all_fact_slots(self.gameobjects@, self.gameobjects@.len() as int)[fi],
                ),
    {
        let ghost s = self.gameobjects@;
        let mut r: Vec<CollisionFact> = Vec::new();
        let mut i: usize = 0;
        while i < self.gameobjects.len()
            invariant
                i <= self.gameobjects.len(),
                s == self.gameobjects@,
                world_rects_ok(s),
                r@.len() == all_fact_slots(s, i as int).len(),
                forall|fi: int|
                    0 <= fi < r@.len() ==> fact_ok(
                        s,
                        #[trigger] r@[fi],
                        all_fact_slots(s, i as int)[fi],
                    ),
            decreases self.gameobjects.len() - i,
        {
            let mut j: usize = 0;
            while j < self.gameobjects.len()
                invariant
                    i < self.gameobjects.len(),
                    j <= self.gameobjects.len(),
                    s == self.gameobjects@,
                    world_rects_ok(s),
                    r@.len() == all_fact_slots(s, i as int).len() + row_fact_slots(
                        s,
                        i as int,
                        j as int,
                    ).len(),
                    forall|fi: int|
                        0 <= fi < r@.len() ==> fact_ok(
                            s,
                            #[trigger] r@[fi],
                            (all_fact_slots(s, i as int) + row_fact_slots(s, i as int, j as int))[fi],
                        ),
                decreases self.gameobjects.len() - j,
            {
                let ghost base = all_fact_slots(s, i as int) + row_fact_slots(
                    s,
                    i as int,
                    j as int,
                );
                if j != i {
                    let gi = &self.gameobjects[i];
                    let gj = &self.gameobjects[j];
                    if gi.has(ComponentKind::Rigidbody) && gj.has(ComponentKind::Rigidbody)
                        && !gi.has(ComponentKind::Scene) && !gj.has(ComponentKind::Scene) {
                        proof {
                            crate::gameobject::lemma_kind_index_spec(
                                gi.components@,
                                ComponentKind::Rigidbody,
                            );
                            crate::gameobject::lemma_kind_index_spec(
                                gj.components@,
                                ComponentKind::Rigidbody,
                            );
                        }
                        let bi = match gi.get(ComponentKind::Rigidbody).as_rigidbody() {
                            Some(b) => b,
                            None => vstd::pervasive::unreached(),
                        };
                        let bj = match gj.get(ComponentKind::Rigidbody).as_rigidbody() {
                            Some(b) => b,
                            None => vstd::pervasive::unreached(),
                        };
                        proof {
                            assert(*bi == go_rb(s[i as int]));
                            assert(*bj == go_rb(s[j as int]));
                        }
                        let check = bi.check_collision_sat(bj);
                        r.push(
                            CollisionFact {
                                a: gi.id.clone(),
                                b: gj.id.clone(),
                                hit: check.0,
                                mtv: check.1,
                            },
                        );
                        proof {
                            assert(fact_ok(
                                s,
                                r@[r@.len() - 1],
                                (i as int, j as int, -1int),
                            ));
                        }
                    }
                    if gi.has(ComponentKind::Rigidbody) && gj.has(ComponentKind::Scene) {
                        proof {
                            crate::gameobject::lemma_kind_index_spec(
                                gi.components@,
                                ComponentKind::Rigidbody,
                            );
                            crate::gameobject::lemma_kind_index_spec(
                                gj.components@,
                                ComponentKind::Scene,
                            );
                        }
                        let bi = match gi.get(ComponentKind::Rigidbody).as_rigidbody() {
                            Some(b) => b,
                            None => vstd::pervasive::unreached(),
                        };
                        let sc = match gj.get(ComponentKind::Scene).as_scene() {
                            Some(c) => c,
                            None => vstd::pervasive::unreached(),
                        };
                        proof {
                            assert(*bi == go_rb(s[i as int]));
                            assert(*sc == go_scene(s[j as int]));
                        }
                        let ghost ee_part = if go_has_rb(s[i as int]) && go_has_rb(s[j as int])
                            && !go_has_scene(s[i as int]) && !go_has_scene(s[j as int]) {
                            seq![(i as int, j as int, -1int)]
                        } else {
                            Seq::<(int, int, int)>::empty()
                        };
                        let mut k: usize = 0;
                        while k < sc.rigidbodies.len()
                            invariant
                                i < self.gameobjects.len(),
                                j < self.gameobjects.len(),
                                i != j,
                                k <= sc.rigidbodies.len(),
                                s == self.gameobjects@,
                                world_rects_ok(s),
                                go_has_rb(s[i as int]),
                                go_has_scene(s[j as int]),
                                gi == &s[i as int],
                                gj == &s[j as int],
                                bi == &go_rb(s[i as int]),
                                sc == &go_scene(s[j as int]),
                                ee_part == (if go_has_rb(s[i as int]) && go_has_rb(s[j as int])
                                    && !go_has_scene(s[i as int]) && !go_has_scene(
                                    s[j as int],
                                ) {
                                    seq![(i as int, j as int, -1int)]
                                } else {
                                    Seq::<(int, int, int)>::empty()
                                }),
                                base == all_fact_slots(s, i as int) + row_fact_slots(
                                    s,
                                    i as int,
                                    j as int,
                                ),
                                r@.len() == base.len() + ee_part.len() + k,
                                forall|fi: int|
                                    0 <= fi < r@.len() ==> fact_ok(
                                        s,
                                        #[trigger] r@[fi],
                                        (base + ee_part + Seq::new(
                                            sc.rigidbodies@.len(),
                                            |kk: int| (i as int, j as int, kk),
                                        ).take(k as int))[fi],
                                    ),
                            decreases sc.rigidbodies.len() - k,
                        {
                            let check = bi.check_collision_sat(&sc.rigidbodies[k]);
                            r.push(
                                CollisionFact {
                                    a: gi.id.clone(),
                                    b: gj.id.clone(),
                                    hit: check.0,
                                    mtv: check.1,
                                },
                            );
                            proof {
                                assert(slot_shape(s, (i as int, j as int, k as int))
                                    == crate::components::rb_aabb(
                                    go_scene(s[j as int]).rigidbodies@[k as int],
                                ));
                                assert(fact_ok(
                                    s,
                                    r@[r@.len() - 1],
                                    (i as int, j as int, k as int),
                                ));
                                let full = Seq::new(
                                    sc.rigidbodies@.len(),
                                    |kk: int| (i as int, j as int, kk),
                                );
                                assert(full.take(k as int + 1).drop_last() =~= full.take(
                                    k as int,
                                ));
                                assert((base + ee_part + full.take(k as int + 1)) =~= (base
                                    + ee_part + full.take(k as int)).push(
                                    (i as int, j as int, k as int),
                                ));
                            }
                            k = k + 1;
                        }
                        proof {
                            let full = Seq::new(
                                sc.rigidbodies@.len(),
                                |kk: int| (i as int, j as int, kk),
                            );
                            assert(full.take(full.len() as int) =~= full);
                        }
                    }
                }
                proof {
                    assert(row_fact_slots(s, i as int, j as int + 1) == (if j as int == i as int {
                        row_fact_slots(s, i as int, j as int)
                    } else {
                        row_fact_slots(s, i as int, j as int) + pair_fact_slots(
                            s,
                            i as int,
                            j as int,
                        )
                    }));
                    assert((all_fact_slots(s, i as int) + row_fact_slots(
                        s,
                        i as int,
                        j as int + 1,
                    )) =~= (if j as int == i as int {
                        base
                    } else {
                        base + pair_fact_slots(s, i as int, j as int)
                    }));
                }
                j = j + 1;
            }
            proof {
                assert(all_fact_slots(s, i as int + 1) == all_fact_slots(s, i as int)
                    + row_fact_slots(s, i as int, s.len() as int));
            }
            i = i + 1;
        }
        r
    }
}

/// The entity is fit for one load-and-tick pass: loadable when not yet
/// initialized, its first sprite well formed, and its first animator in
/// tick range when a sprite is there to animate.
pub open spec fn go_loadtick_ok(
    g: GameObject,
    textures: Seq<TextureAsset>,
    scenes: Seq<SceneAsset>,
    dt: int,
) -> bool {
    &&& !g.init ==> crate::gameobject::store_loadable(g.components@, textures, scenes)
    &&& has_kind(g.components@, ComponentKind::Sprite)
        ==> crate::gameobject::sprite_wf(
        crate::gameobject::sprite_in(
            g.components@[kind_index(g.components@, ComponentKind::Sprite)],
        ),
    )
    &&& has_kind(g.components@, ComponentKind::Sprite) && has_kind(
        g.components@,
        ComponentKind::Animator,
    ) ==> crate::gameobject::anim_tickable(
        anim_in(g.components@[kind_index(g.components@, ComponentKind::Animator)]),
        dt,
    )
}

/// Every live entity is fit for one load-and-tick pass.
pub open spec fn world_loadtick_ok(
    s: Seq<GameObject>,
    textures: Seq<TextureAsset>,
    scenes: Seq<SceneAsset>,
    dt: int,
) -> bool {
    forall|i: int| 0 <= i < s.len() ==> go_loadtick_ok(#[trigger] s[i], textures, scenes, dt)
}

/// The entity after one load pass, as `GameObject::load` promises it.
pub open spec fn go_loaded_rel(
    g0: GameObject,
    g1: GameObject,
    textures: Seq<TextureAsset>,
    scenes: Seq<SceneAsset>,
    sfx_ids: Seq<String>,
) -> bool {
    &&& g1.id == g0.id
    &&& g1.wren_id == g0.wren_id
    &&& (g0.init ==> g1.init && g1.start)
    &&& (!g0.init ==> g1.init && g1.start == g0.start)
    &&& g1.components@.len() == g0.components@.len()
    &&& forall|j: int|
        0 <= j < g0.components@.len() ==> crate::gameobject::load_rel_at(
            g0.components@,
            j,
            #[trigger] g1.components@[j],
            g0.init,
            textures,
            scenes,
            sfx_ids,
        )
}

/// The entity after one tick pass, as `GameObject::update` promises it.
pub open spec fn go_ticked_rel(g0: GameObject, g1: GameObject, dt: int) -> bool {
    &&& g1.components@ == crate::gameobject::go_ticked(g0.components@, dt)
    &&& g1.id == g0.id
    &&& g1.wren_id == g0.wren_id
    &&& g1.init == g0.init
    &&& g1.start == g0.start
}

/// Left edge of the body's collision rectangle.
pub open spec fn rb_left(rb: Rigidbody) -> int {
    crate::components::rb_cx(rb) - crate::components::rb_w(rb) / 2
}

/// Right edge of the body's collision rectangle.
pub open spec fn rb_right(rb: Rigidbody) -> int {
    rb_left(rb) + crate::components::rb_w(rb)
}

/// Bottom edge of the body's collision rectangle.
pub open spec fn rb_bottom(rb: Rigidbody) -> int {
    crate::components::rb_cy(rb) - crate::components::rb_h(rb) / 2
}

/// Top edge of the body's collision rectangle.
pub open spec fn rb_top(rb: Rigidbody) -> int {
    rb_bottom(rb) + crate::components::rb_h(rb)
}

/// Horizontal penetration of two bodies: the overlap of their horizontal
/// extents while their vertical extents intersect, and zero otherwise.
pub open spec fn pen_x(a: Rigidbody, b: Rigidbody) -> int {
    if rb_bottom(a) <= rb_top(b) && rb_bottom(b) <= rb_top(a) {
        crate::math::max2(
            0,
            crate::math::min2(rb_right(a), rb_right(b)) - crate::math::max2(
                rb_left(a),
                rb_left(b),
            ),
        )
    } else {
        0
    }
}

/// The corner sequence of a body in range is the axis-aligned rectangle of
/// its four edges.
pub proof fn lemma_rb_aabb_is_aabb(rb: Rigidbody)
    requires
        crate::components::rb_rect_ok(rb),
    ensures
        crate::math::is_aabb(
            crate::components::rb_aabb(rb),
            rb_left(rb),
            rb_bottom(rb),
            rb_right(rb),
            rb_top(rb),
        ),
{
}

/// Axis-separated resolution convergence law: for a world of two solid,
/// initialized, scene-free bodies, one horizontal sub-step — integration
/// followed by resolution — never increases the horizontal penetration.
/// Where the integrated bodies overlap, both are pushed back to where they
/// started; where they do not, there is no penetration at all.
pub proof fn lemma_resolution_convergence(
    s0: Seq<GameObject>,
    s1: Seq<GameObject>,
    s2: Seq<GameObject>,
    dt: int,
)
    requires
        s0.len() == 2,
        s1.len() == 2,
        s2.len() == 2,
        world_phys_ok(s0, dt),
        forall|i: int| 0 <= i < 2 ==> go_has_rb(#[trigger] s0[i]),
        forall|i: int| 0 <= i < 2 ==> !go_has_scene(#[trigger] s0[i]),
        forall|i: int| 0 <= i < 2 ==> (#[trigger] s0[i]).init,
        forall|i: int| 0 <= i < 2 ==> go_rb(#[trigger] s0[i]).solid,
        forall|i: int| 0 <= i < 2 ==> go_rb(#[trigger] s0[i]).velocity.y == 0,
        forall|i: int| 0 <= i < 2 ==> integrated_x(s0[i], #[trigger] s1[i], dt),
        forall|i: int| 0 <= i < 2 ==> resolved_x(s1, i, #[trigger] s2[i], dt),
    ensures
        pen_x(go_rb(s2[0]), go_rb(s2[1])) <= pen_x(go_rb(s0[0]), go_rb(s0[1])),
{
    lemma_step_entity(s0[0], s1[0], dt);
    lemma_step_entity(s0[1], s1[1], dt);
    let a0 = go_rb(s0[0]);
    let b0 = go_rb(s0[1]);
    let a1 = go_rb(s1[0]);
    let b1 = go_rb(s1[1]);
    lemma_rb_aabb_is_aabb(a1);
    lemma_rb_aabb_is_aabb(b1);
    crate::math::lemma_sat_aabb(
        crate::components::rb_aabb(a1),
        rb_left(a1),
        rb_bottom(a1),
        rb_right(a1),
        rb_top(a1),
        crate::components::rb_aabb(b1),
        rb_left(b1),
        rb_bottom(b1),
        rb_right(b1),
        rb_top(b1),
    );
    if crate::math::sat_overlaps(
        crate::components::rb_aabb(a1),
        crate::components::rb_aabb(b1),
    ) {
        // both qualify against each other; both are solid, so both undo the step
        assert(qual_hit(s1, 0, 1));
        assert(!qual_hit(s1, 0, 0));
        assert(first_qual_from(s1, 0, 1) == 1);
        assert(first_qual_from(s1, 0, 0) == 1);
        assert(first_qual(s1, 0) == 1);
        crate::math::lemma_sat_symmetric(
            crate::components::rb_aabb(a1),
            crate::components::rb_aabb(b1),
        );
        assert(qual_hit(s1, 1, 0));
        assert(first_qual_from(s1, 1, 0) == 0);
        assert(first_qual(s1, 1) == 0);
        lemma_resolved_entity(s1, 0, s2[0], dt);
        lemma_resolved_entity(s1, 1, s2[1], dt);
        let a2 = go_rb(s2[0]);
        let b2 = go_rb(s2[1]);
        assert(a2.position.x == a0.position.x);
        assert(a2.position.y == a0.position.y);
        assert(b2.position.x == b0.position.x);
        assert(b2.position.y == b0.position.y);
        assert(pen_x(a2, b2) == pen_x(a0, b0));
    } else {
        // no qualifying partner on either side: the step stands, but the
        // bodies do not even touch
        assert(!qual_hit(s1, 0, 0));
        assert(!qual_hit(s1, 0, 1));
        assert(first_qual_from(s1, 0, 2) == 2);
        assert(first_qual_from(s1, 0, 1) == 2);
        assert(first_qual_from(s1, 0, 0) == 2);
        assert(first_qual(s1, 0) == 2);
        crate::math::lemma_sat_symmetric(
            crate::components::rb_aabb(a1),
            crate::components::rb_aabb(b1),
        );
        assert(!qual_hit(s1, 1, 0));
        assert(!qual_hit(s1, 1, 1));
        assert(first_qual_from(s1, 1, 2) == 2);
        assert(first_qual_from(s1, 1, 1) == 2);
        assert(first_qual_from(s1, 1, 0) == 2);
        assert(first_qual(s1, 1) == 2);
        assert(s2[0] == s1[0]);
        assert(s2[1] == s1[1]);
        assert(pen_x(go_rb(s2[0]), go_rb(s2[1])) == 0);
        assert(pen_x(a0, b0) >= 0);
    }
}

/// After a load the entity is still fit for its tick: kinds are preserved
/// slot by slot, the loaded sprite stays well formed, and the animator is
/// untouched.
proof fn lemma_tick_ok_after_load(
    g0: GameObject,
    g1: GameObject,
    textures: Seq<TextureAsset>,
    scenes: Seq<SceneAsset>,
    sfx_ids: Seq<String>,
    dt: int,
)
    requires
        go_loaded_rel(g0, g1, textures, scenes, sfx_ids),
        go_loadtick_ok(g0, textures, scenes, dt),
        crate::gameobject::textures_wf(textures),
    ensures
        has_kind(g1.components@, ComponentKind::Sprite) ==> crate::gameobject::sprite_wf(
            crate::gameobject::sprite_in(
                g1.components@[kind_index(g1.components@, ComponentKind::Sprite)],
            ),
        ),
        has_kind(g1.components@, ComponentKind::Sprite) && has_kind(
            g1.components@,
            ComponentKind::Animator,
        ) ==> crate::gameobject::anim_tickable(
            anim_in(g1.components@[kind_index(g1.components@, ComponentKind::Animator)]),
            dt,
        ),
{
    let s0 = g0.components@;
    let s1 = g1.components@;
    assert forall|j: int| 0 <= j < s0.len() implies (#[trigger] s1[j]).kind() == s0[j].kind() by {
        assert(crate::gameobject::load_rel_at(s0, j, s1[j], g0.init, textures, scenes, sfx_ids));
    }
    crate::gameobject::lemma_kind_index_congruence(s0, s1, ComponentKind::Sprite);
    crate::gameobject::lemma_kind_index_congruence(s0, s1, ComponentKind::Animator);
    crate::gameobject::lemma_kind_index_spec(s0, ComponentKind::Sprite);
    crate::gameobject::lemma_kind_index_spec(s0, ComponentKind::Animator);
    crate::gameobject::lemma_kind_index_spec(s0, ComponentKind::Text);
    if has_kind(s0, ComponentKind::Sprite) {
        let si = kind_index(s0, ComponentKind::Sprite);
        let sp0 = crate::gameobject::sprite_in(s0[si]);
        assert(crate::gameobject::load_rel_at(s0, si, s1[si], g0.init, textures, scenes, sfx_ids));
        if !g0.init {
            let sp1 = crate::components::sprite_loaded(sp0, textures);
            match crate::components::texture_size_of(textures, sp0.texture_id@) {
                Some(sz) => {
                    crate::components::lemma_texture_size_found(textures, sp0.texture_id@, sz);
                },
                None => {},
            }
            assert(crate::gameobject::sprite_wf(sp1));
        }
    }
    if has_kind(s0, ComponentKind::Animator) {
        let ai = kind_index(s0, ComponentKind::Animator);
        assert(crate::gameobject::load_rel_at(s0, ai, s1[ai], g0.init, textures, scenes, sfx_ids));
        assert(s1[ai] == s0[ai]);
    }
}

/// The side-effect container is exactly what loading the entity produces:
/// the rasterize request of its first text, when that text changed and its
/// font is loaded, and one play request per armed sound whose file is
/// loaded, in store order.
pub open spec fn su_matches(
    su: StateUpdateContainer,
    g: GameObject,
    fonts: Seq<String>,
    sfx_ids: Seq<String>,
) -> bool {
    &&& su.textures == (if has_kind(g.components@, ComponentKind::Text)
        && crate::gameobject::text_in(
        g.components@[kind_index(g.components@, ComponentKind::Text)],
    ).changed && crate::components::id_present(
        fonts,
        crate::gameobject::text_in(
            g.components@[kind_index(g.components@, ComponentKind::Text)],
        ).font@,
    ) {
        Some(
            crate::gameobject::text_in(
                g.components@[kind_index(g.components@, ComponentKind::Text)],
            ).texture_id,
        )
    } else {
        None::<String>
    })
    &&& su.sfx.is_some()
    &&& su.sfx.unwrap()@ == crate::gameobject::sfx_updates_of(g.components@, sfx_ids)
}

/// The lists are linked entity by entity through the loaded intermediates
/// `mids`: each is its `s0` counterpart loaded, and each `s1` entity is the
/// intermediate ticked.
pub open spec fn loadtick_chain(
    s0: Seq<GameObject>,
    mids: Seq<GameObject>,
    s1: Seq<GameObject>,
    textures: Seq<TextureAsset>,
    scenes: Seq<SceneAsset>,
    sfx_ids: Seq<String>,
    dt: int,
) -> bool {
    &&& mids.len() == s0.len()
    &&& forall|i: int|
        0 <= i < s0.len() ==> go_loaded_rel(#[trigger] s0[i], mids[i], textures, scenes, sfx_ids)
            && go_ticked_rel(mids[i], s1[i], dt)
}

/// Every entity of `s1` is its `s0` counterpart first loaded against the
/// tables and then ticked.
pub open spec fn loadtick_post(
    s0: Seq<GameObject>,
    s1: Seq<GameObject>,
    textures: Seq<TextureAsset>,
    scenes: Seq<SceneAsset>,
    sfx_ids: Seq<String>,
    dt: int,
) -> bool {
    exists|mids: Seq<GameObject>|
        #[trigger] loadtick_chain(s0, mids, s1, textures, scenes, sfx_ids, dt)
}

impl WorldState {
    /// One load-and-tick pass over every live entity: each is loaded
    /// against the asset tables, then its per-frame component rules run.
    /// The collected side-effect requests are returned for the host.
    pub fn update_go(&mut self, dt: i64) -> (r: Vec<StateUpdateContainer>)
        requires
            crate::gameobject::textures_wf(old(self).textures@),
            world_loadtick_ok(
                old(self).gameobjects@,
                old(self).textures@,
                old(self).scenes@,
                dt as int,
            ),
        ensures
            final(self).gameobjects@.len() == old(self).gameobjects@.len(),
            loadtick_post(
                old(self).gameobjects@,
                final(self).gameobjects@,
                old(self).textures@,
                old(self).scenes@,
                old(self).sfx@,
                dt as int,
            ),
            r@.len() == old(self).gameobjects@.len(),
            forall|i: int|
                0 <= i < old(self).gameobjects@.len() ==> su_matches(
                    #[trigger] r@[i],
                    old(self).gameobjects@[i],
                    old(self).fonts@,
                    old(self).sfx@,
                ),
            forall|i: int|
                0 <= i < old(self).gameobjects@.len() ==> (#[trigger] final(self).gameobjects@[i]).id
                    == old(self).gameobjects@[i].id,
            old(self).wf() ==> final(self).wf(),
            final(self).textures == old(self).textures,
            final(self).fonts == old(self).fonts,
            final(self).music == old(self).music,
            final(self).sfx == old(self).sfx,
            final(self).scenes == old(self).scenes,
    {
        let ghost s0 = self.gameobjects@;
        let ghost tex0 = self.textures@;
        let ghost sc0 = self.scenes@;
        let ghost fn0 = self.fonts@;
        let ghost fx0 = self.sfx@;
        let ghost mut mids: Seq<GameObject> = Seq::empty();
        let mut r: Vec<StateUpdateContainer> = Vec::new();
        let mut i: usize = 0;
        while i < self.gameobjects.len()
            invariant
                i <= self.gameobjects.len(),
                self.gameobjects@.len() == s0.len(),
                crate::gameobject::textures_wf(tex0),
                world_loadtick_ok(s0, tex0, sc0, dt as int),
                r@.len() == i,
                mids.len() == i,
                forall|t: int|
                    0 <= t < i ==> go_loaded_rel(#[trigger] s0[t], mids[t], tex0, sc0, fx0)
                        && go_ticked_rel(mids[t], self.gameobjects@[t], dt as int),
                forall|t: int| 0 <= t < i ==> su_matches(#[trigger] r@[t], s0[t], fn0, fx0),
                forall|t: int|
                    0 <= t < i ==> (#[trigger] self.gameobjects@[t]).id == s0[t].id,
                forall|t: int| i <= t < s0.len() ==> #[trigger] self.gameobjects@[t] == s0[t],
                self.fonts@ == fn0,
                self.textures == old(self).textures,
                self.fonts == old(self).fonts,
                self.music == old(self).music,
                self.sfx == old(self).sfx,
                self.scenes == old(self).scenes,
                self.textures@ == tex0,
                self.scenes@ == sc0,
                self.sfx@ == fx0,
            decreases self.gameobjects.len() - i,
        {
            let ghost pre = self.gameobjects@;
            let mut g = self.gameobjects.remove(i);
            let lr = g.load(&self.textures, &self.fonts, &self.sfx, &self.scenes);
            let _ = lr;
            let ghost mid = g;
            proof {
                lemma_tick_ok_after_load(s0[i as int], mid, tex0, sc0, fx0, dt as int);
            }
            g.update(dt);
            self.gameobjects.insert(i, g);
            r.push(StateUpdateContainer { textures: lr.0.textures, sfx: lr.0.sfx });
            proof {
                mids = mids.push(mid);
                assert(go_loaded_rel(s0[i as int], mid, tex0, sc0, fx0));
                assert(go_ticked_rel(mid, self.gameobjects@[i as int], dt as int));
                assert(su_matches(r@[i as int], s0[i as int], fn0, fx0));
                assert(self.gameobjects@[i as int].id == s0[i as int].id);
                assert(forall|t: int|
                    0 <= t < i ==> #[trigger] self.gameobjects@[t] == pre[t]);
                assert(forall|t: int|
                    i < t < s0.len() ==> #[trigger] self.gameobjects@[t] == pre[t]);
                assert(forall|t: int| 0 <= t < i ==> mids[t] == mids.drop_last()[t]);
            }
            i = i + 1;
        }
        proof {
            assert(loadtick_chain(s0, mids, self.gameobjects@, tex0, sc0, fx0, dt as int));
            if uuids_unique(s0) {
                let cur = self.gameobjects@;
                assert forall|a: int, b: int| 0 <= a < b < cur.len() implies (
                #[trigger] cur[a]).id.uuid@ != (#[trigger] cur[b]).id.uuid@ by {
                    assert(cur[a].id == s0[a].id);
                    assert(cur[b].id == s0[b].id);
                }
            }
        }
        r
    }
}

/// Non-rigidbody slots, kinds, identity and flags survive one horizontal
/// integration step.
proof fn lemma_integrated_x_slots(g0: GameObject, g1: GameObject, dt: int)
    requires
        integrated_x(g0, g1, dt),
    ensures
        g1.components@.len() == g0.components@.len(),
        forall|j: int|
            0 <= j < g0.components@.len() ==> (#[trigger] g1.components@[j]).kind()
                == g0.components@[j].kind(),
        forall|j: int|
            0 <= j < g0.components@.len() && (#[trigger] g0.components@[j]).kind()
                != ComponentKind::Rigidbody ==> g1.components@[j] == g0.components@[j],
        g1.id == g0.id,
        g1.wren_id == g0.wren_id,
        g1.init == g0.init,
        g1.start == g0.start,
{
    if go_has_rb(g0) {
        crate::gameobject::lemma_kind_index_spec(g0.components@, ComponentKind::Rigidbody);
    }
}

/// Non-rigidbody slots, kinds, identity and flags survive one vertical
/// integration step.
proof fn lemma_integrated_y_slots(g0: GameObject, g1: GameObject, dt: int)
    requires
        integrated_y(g0, g1, dt),
    ensures
        g1.components@.len() == g0.components@.len(),
        forall|j: int|
            0 <= j < g0.components@.len() ==> (#[trigger] g1.components@[j]).kind()
                == g0.components@[j].kind(),
        forall|j: int|
            0 <= j < g0.components@.len() && (#[trigger] g0.components@[j]).kind()
                != ComponentKind::Rigidbody ==> g1.components@[j] == g0.components@[j],
        g1.id == g0.id,
        g1.wren_id == g0.wren_id,
        g1.init == g0.init,
        g1.start == g0.start,
{
    if go_has_rb(g0) {
        crate::gameobject::lemma_kind_index_spec(g0.components@, ComponentKind::Rigidbody);
    }
}

/// Non-rigidbody slots, kinds, identity and flags survive one resolution
/// step.
proof fn lemma_resolved_slots(s: Seq<GameObject>, i: int, g1: GameObject, dt: int, vertical: bool)
    requires
        0 <= i < s.len(),
        vertical ==> resolved_y(s, i, g1, dt),
        !vertical ==> resolved_x(s, i, g1, dt),
    ensures
        g1.components@.len() == s[i].components@.len(),
        forall|j: int|
            0 <= j < s[i].components@.len() ==> (#[trigger] g1.components@[j]).kind()
                == s[i].components@[j].kind(),
        forall|j: int|
            0 <= j < s[i].components@.len() && (#[trigger] s[i].components@[j]).kind()
                != ComponentKind::Rigidbody ==> g1.components@[j] == s[i].components@[j],
        g1.id == s[i].id,
        g1.wren_id == s[i].wren_id,
        g1.init == s[i].init,
        g1.start == s[i].start,
{
    if go_has_rb(s[i]) {
        crate::gameobject::lemma_kind_index_spec(s[i].components@, ComponentKind::Rigidbody);
    }
}

/// Fitness for the load-and-tick pass survives a step that touches only
/// rigidbody slots.
proof fn lemma_loadtick_preserved(
    g0: GameObject,
    g1: GameObject,
    textures: Seq<TextureAsset>,
    scenes: Seq<SceneAsset>,
    dt: int,
)
    requires
        g1.components@.len() == g0.components@.len(),
        forall|j: int|
            0 <= j < g0.components@.len() ==> (#[trigger] g1.components@[j]).kind()
                == g0.components@[j].kind(),
        forall|j: int|
            0 <= j < g0.components@.len() && (#[trigger] g0.components@[j]).kind()
                != ComponentKind::Rigidbody ==> g1.components@[j] == g0.components@[j],
        g1.init == g0.init,
        go_loadtick_ok(g0, textures, scenes, dt),
    ensures
        go_loadtick_ok(g1, textures, scenes, dt),
{
    let s0 = g0.components@;
    let s1 = g1.components@;
    crate::gameobject::lemma_kind_index_congruence(s0, s1, ComponentKind::Sprite);
    crate::gameobject::lemma_kind_index_congruence(s0, s1, ComponentKind::Animator);
    crate::gameobject::lemma_kind_index_congruence(s0, s1, ComponentKind::Scene);
    crate::gameobject::lemma_kind_index_spec(s0, ComponentKind::Sprite);
    crate::gameobject::lemma_kind_index_spec(s0, ComponentKind::Animator);
    crate::gameobject::lemma_kind_index_spec(s0, ComponentKind::Scene);
}

/// The frame driver's world: the authoritative state and the draw-order
/// scratch list.
pub struct World {
    pub state: WorldState,
    pub sort_fudge: Vec<(String, u32)>,
}

impl World {
    /// A fresh world around a fresh state.
    pub fn new() -> (r: World)
        ensures
            r.state.wf(),
            r.state.gameobjects@.len() == 0,
            r.sort_fudge@.len() == 0,
    {
        World { state: WorldState::new(), sort_fudge: Vec::new() }
    }

    /// The first entity whose name or unique id equals the key, or nothing.
    pub fn wrap(&self, key: &String) -> (r: Option<&GameObject>)
        ensures
            key_index(self.state.gameobjects@, key@) < self.state.gameobjects@.len() ==> r == Some(
                &self.state.gameobjects@[key_index(self.state.gameobjects@, key@)],
            ),
            key_index(self.state.gameobjects@, key@) == self.state.gameobjects@.len()
                ==> r.is_none(),
    {
        self.state.wrap(key)
    }

    /// The first entity whose name or unique id equals the key. The caller
    /// must know such an entity lives.
    pub fn get(&self, key: &String) -> (r: &GameObject)
        requires
            key_index(self.state.gameobjects@, key@) < self.state.gameobjects@.len(),
        ensures
            r == &self.state.gameobjects@[key_index(self.state.gameobjects@, key@)],
    {
        self.state.get(key)
    }

    /// One native frame step: the horizontal sub-step (integrate, then
    /// detect and resolve against the snapshot), the vertical sub-step, and
    /// then the load-and-tick pass over every entity. Returns the
    /// side-effect requests the host must perform.
    pub fn update(&mut self, dt: i64) -> (r: Vec<StateUpdateContainer>)
        requires
            world_phys_ok(old(self).state.gameobjects@, dt as int),
            world_rects_ok(old(self).state.gameobjects@),
            crate::gameobject::textures_wf(old(self).state.textures@),
            world_loadtick_ok(
                old(self).state.gameobjects@,
                old(self).state.textures@,
                old(self).state.scenes@,
                dt as int,
            ),
        ensures
            final(self).state.gameobjects@.len() == old(self).state.gameobjects@.len(),
            r@.len() == old(self).state.gameobjects@.len(),
            frame_post(
                old(self).state.gameobjects@,
                final(self).state.gameobjects@,
                r@,
                old(self).state.textures@,
                old(self).state.scenes@,
                old(self).state.fonts@,
                old(self).state.sfx@,
                dt as int,
            ),
            forall|i: int|
                0 <= i < old(self).state.gameobjects@.len() ==> (#[trigger] final(
                self).state.gameobjects@[i]).id == old(self).state.gameobjects@[i].id,
            old(self).state.wf() ==> final(self).state.wf(),
            final(self).state.textures == old(self).state.textures,
            final(self).state.fonts == old(self).state.fonts,
            final(self).state.music == old(self).state.music,
            final(self).state.sfx == old(self).state.sfx,
            final(self).state.scenes == old(self).state.scenes,
    {
        let ghost s0 = self.state.gameobjects@;
        let ghost dti = dt as int;
        self.state.update_vel_x(dt);
        let ghost m1 = self.state.gameobjects@;
        proof {
            assert forall|i: int| 0 <= i < s0.len() implies {
                &&& (go_has_rb(#[trigger] m1[i]) ==> crate::components::rb_rect_ok(go_rb(m1[i]))
                    && rb_resolve_ok_x(go_rb(m1[i]), dti) && rb_phys_ok_y(go_rb(m1[i]), dti))
                &&& (go_has_scene(m1[i]) ==> forall|k: int|
                    0 <= k < go_scene(m1[i]).rigidbodies@.len() ==> crate::components::rb_rect_ok(
                        #[trigger] go_scene(m1[i]).rigidbodies@[k],
                    ))
                &&& go_loadtick_ok(
                    m1[i],
                    old(self).state.textures@,
                    old(self).state.scenes@,
                    dti,
                )
            } by {
                lemma_integrated_x_slots(s0[i], m1[i], dti);
                crate::gameobject::lemma_kind_index_congruence(
                    s0[i].components@,
                    m1[i].components@,
                    ComponentKind::Rigidbody,
                );
                lemma_loadtick_preserved(
                    s0[i],
                    m1[i],
                    old(self).state.textures@,
                    old(self).state.scenes@,
                    dti,
                );
                if go_has_rb(s0[i]) {
                    lemma_step_entity(s0[i], m1[i], dti);
                }
                crate::gameobject::lemma_kind_index_spec(
                    s0[i].components@,
                    ComponentKind::Scene,
                );
                crate::gameobject::lemma_kind_index_congruence(
                    s0[i].components@,
                    m1[i].components@,
                    ComponentKind::Scene,
                );
                assert(go_has_rb(m1[i]) == go_has_rb(s0[i]));
                assert(go_has_scene(m1[i]) == go_has_scene(s0[i]));
                if go_has_rb(m1[i]) {
                    assert(crate::components::rb_rect_ok(go_rb(m1[i])));
                    assert(rb_resolve_ok_x(go_rb(m1[i]), dti));
                    assert(rb_phys_ok_y(go_rb(m1[i]), dti));
                }
                if go_has_scene(m1[i]) {
                    assert(go_scene(m1[i]) == go_scene(s0[i]));
                    assert(forall|k: int|
                        0 <= k < go_scene(m1[i]).rigidbodies@.len()
                            ==> crate::components::rb_rect_ok(
                            #[trigger] go_scene(m1[i]).rigidbodies@[k],
                        ));
                }
                assert(go_loadtick_ok(m1[i], old(self).state.textures@, old(self).state.scenes@, dti));
            }
        }
        self.state.resolve_x(dt);
        let ghost m2 = self.state.gameobjects@;
        proof {
            assert forall|i: int| 0 <= i < s0.len() implies {
                &&& (go_has_rb(#[trigger] m2[i]) ==> rb_phys_ok_y(go_rb(m2[i]), dti)
                    && rb_extents_ok(go_rb(m2[i])) && -131072 <= go_rb(m2[i]).position.x <= 131072)
                &&& go_loadtick_ok(
                    m2[i],
                    old(self).state.textures@,
                    old(self).state.scenes@,
                    dti,
                )
                &&& (go_has_scene(m2[i]) ==> go_scene(m2[i]) == go_scene(m1[i]))
            } by {
                lemma_resolved_slots(m1, i, m2[i], dti, false);
                crate::gameobject::lemma_kind_index_congruence(
                    m1[i].components@,
                    m2[i].components@,
                    ComponentKind::Rigidbody,
                );
                lemma_loadtick_preserved(
                    m1[i],
                    m2[i],
                    old(self).state.textures@,
                    old(self).state.scenes@,
                    dti,
                );
                lemma_integrated_x_slots(s0[i], m1[i], dti);
                crate::gameobject::lemma_kind_index_congruence(
                    s0[i].components@,
                    m1[i].components@,
                    ComponentKind::Rigidbody,
                );
                if go_has_rb(s0[i]) {
                    lemma_step_entity(s0[i], m1[i], dti);
                    lemma_resolved_rb_fields(m1, i, m2[i], dti, false);
                }
                crate::gameobject::lemma_kind_index_spec(
                    m1[i].components@,
                    ComponentKind::Scene,
                );
                crate::gameobject::lemma_kind_index_congruence(
                    m1[i].components@,
                    m2[i].components@,
                    ComponentKind::Scene,
                );
                assert(go_has_rb(m2[i]) == go_has_rb(m1[i]));
                assert(go_has_rb(m1[i]) == go_has_rb(s0[i]));
                assert(go_has_scene(m2[i]) == go_has_scene(m1[i]));
                if go_has_rb(m2[i]) {
                    assert(rb_phys_ok_y(go_rb(m2[i]), dti));
                    assert(rb_extents_ok(go_rb(m2[i])));
                    assert(-131072 <= go_rb(m2[i]).position.x <= 131072);
                }
                if go_has_scene(m2[i]) {
                    assert(go_scene(m2[i]) == go_scene(m1[i]));
                }
                assert(go_loadtick_ok(m2[i], old(self).state.textures@, old(self).state.scenes@, dti));
            }
        }
        self.state.update_vel_y(dt);
        let ghost m3 = self.state.gameobjects@;
        proof {
            assert forall|i: int| 0 <= i < s0.len() implies {
                &&& (go_has_rb(#[trigger] m3[i]) ==> crate::components::rb_rect_ok(go_rb(m3[i]))
                    && rb_resolve_ok_y(go_rb(m3[i]), dti))
                &&& go_loadtick_ok(
                    m3[i],
                    old(self).state.textures@,
                    old(self).state.scenes@,
                    dti,
                )
                &&& (go_has_scene(m3[i]) ==> forall|k: int|
                    0 <= k < go_scene(m3[i]).rigidbodies@.len() ==> crate::components::rb_rect_ok(
                        #[trigger] go_scene(m3[i]).rigidbodies@[k],
                    ))
            } by {
                lemma_integrated_y_slots(m2[i], m3[i], dti);
                crate::gameobject::lemma_kind_index_congruence(
                    m2[i].components@,
                    m3[i].components@,
                    ComponentKind::Rigidbody,
                );
                lemma_loadtick_preserved(
                    m2[i],
                    m3[i],
                    old(self).state.textures@,
                    old(self).state.scenes@,
                    dti,
                );
                lemma_resolved_slots(m1, i, m2[i], dti, false);
                crate::gameobject::lemma_kind_index_congruence(
                    m1[i].components@,
                    m2[i].components@,
                    ComponentKind::Rigidbody,
                );
                lemma_integrated_x_slots(s0[i], m1[i], dti);
                crate::gameobject::lemma_kind_index_congruence(
                    s0[i].components@,
                    m1[i].components@,
                    ComponentKind::Rigidbody,
                );
                if go_has_rb(m2[i]) {
                    lemma_integrated_y_rb_fields(m2[i], m3[i], dti);
                    lemma_integrated_x_slots(s0[i], m1[i], dti);
                    lemma_step_entity(s0[i], m1[i], dti);
                    lemma_resolved_rb_fields(m1, i, m2[i], dti, false);
                }
                crate::gameobject::lemma_kind_index_spec(
                    m2[i].components@,
                    ComponentKind::Scene,
                );
                crate::gameobject::lemma_kind_index_congruence(
                    m2[i].components@,
                    m3[i].components@,
                    ComponentKind::Scene,
                );
                crate::gameobject::lemma_kind_index_spec(
                    m1[i].components@,
                    ComponentKind::Scene,
                );
                crate::gameobject::lemma_kind_index_congruence(
                    m1[i].components@,
                    m2[i].components@,
                    ComponentKind::Scene,
                );
                crate::gameobject::lemma_kind_index_spec(
                    s0[i].components@,
                    ComponentKind::Scene,
                );
                crate::gameobject::lemma_kind_index_congruence(
                    s0[i].components@,
                    m1[i].components@,
                    ComponentKind::Scene,
                );
                assert(go_has_rb(m3[i]) == go_has_rb(m2[i]));
                assert(go_has_scene(m3[i]) == go_has_scene(m2[i]));
                if go_has_rb(m3[i]) {
                    assert(crate::components::rb_rect_ok(go_rb(m3[i])));
                    assert(rb_resolve_ok_y(go_rb(m3[i]), dti));
                }
                if go_has_scene(m3[i]) {
                    assert(go_scene(m3[i]) == go_scene(m2[i]));
                    assert(go_scene(m2[i]) == go_scene(m1[i]));
                    assert(go_scene(m1[i]) == go_scene(s0[i]));
                    assert(forall|k: int|
                        0 <= k < go_scene(m3[i]).rigidbodies@.len()
                            ==> crate::components::rb_rect_ok(
                            #[trigger] go_scene(m3[i]).rigidbodies@[k],
                        ));
                }
                assert(go_loadtick_ok(m3[i], old(self).state.textures@, old(self).state.scenes@, dti));
            }
        }
        self.state.resolve_y(dt);
        let ghost m4 = self.state.gameobjects@;
        proof {
            assert forall|i: int| 0 <= i < s0.len() implies go_loadtick_ok(
                #[trigger] m4[i],
                old(self).state.textures@,
                old(self).state.scenes@,
                dti,
            ) by {
                lemma_resolved_slots(m3, i, m4[i], dti, true);
                lemma_loadtick_preserved(
                    m3[i],
                    m4[i],
                    old(self).state.textures@,
                    old(self).state.scenes@,
                    dti,
                );
                lemma_integrated_y_slots(m2[i], m3[i], dti);
                lemma_loadtick_preserved(
                    m2[i],
                    m3[i],
                    old(self).state.textures@,
                    old(self).state.scenes@,
                    dti,
                );
                lemma_resolved_slots(m1, i, m2[i], dti, false);
                lemma_loadtick_preserved(
                    m1[i],
                    m2[i],
                    old(self).state.textures@,
                    old(self).state.scenes@,
                    dti,
                );
                lemma_integrated_x_slots(s0[i], m1[i], dti);
                lemma_loadtick_preserved(
                    s0[i],
                    m1[i],
                    old(self).state.textures@,
                    old(self).state.scenes@,
                    dti,
                );
            }
        }
        let r = self.state.update_go(dt);
        proof {
            assert forall|i: int| 0 <= i < s0.len() implies (#[trigger] self.state.gameobjects@[i]).id
                == s0[i].id by {
                lemma_integrated_x_slots(s0[i], m1[i], dti);
                lemma_resolved_slots(m1, i, m2[i], dti, false);
                lemma_integrated_y_slots(m2[i], m3[i], dti);
                lemma_resolved_slots(m3, i, m4[i], dti, true);
            }
            if uuids_unique(s0) {
                let cur = self.state.gameobjects@;
                assert forall|a: int, b: int| 0 <= a < b < cur.len() implies (
                #[trigger] cur[a]).id.uuid@ != (#[trigger] cur[b]).id.uuid@ by {
                    assert(cur[a].id == s0[a].id);
                    assert(cur[b].id == s0[b].id);
                }
            }
            assert(frame_chain(m1, m2, m3, m4) && m1.len() == s0.len() && m2.len() == s0.len()
                && m3.len() == s0.len() && m4.len() == s0.len() && (forall|i: int|
                0 <= i < s0.len() ==> integrated_x(s0[i], #[trigger] m1[i], dt as int)) && (
            forall|i: int| 0 <= i < s0.len() ==> resolved_x(m1, i, #[trigger] m2[i], dt as int))
                && (forall|i: int|
                0 <= i < s0.len() ==> integrated_y(m2[i], #[trigger] m3[i], dt as int)) && (
            forall|i: int| 0 <= i < s0.len() ==> resolved_y(m3, i, #[trigger] m4[i], dt as int))
                && loadtick_post(
                m4,
                self.state.gameobjects@,
                old(self).state.textures@,
                old(self).state.scenes@,
                old(self).state.sfx@,
                dt as int,
            ) && r@.len() == s0.len() && (forall|i: int|
                0 <= i < s0.len() ==> su_matches(
                    #[trigger] r@[i],
                    m4[i],
                    old(self).state.fonts@,
                    old(self).state.sfx@,
                )));
            assert(frame_post(
                s0,
                self.state.gameobjects@,
                r@,
                old(self).state.textures@,
                old(self).state.scenes@,
                old(self).state.fonts@,
                old(self).state.sfx@,
                dt as int,
            ));
        }
        r
    }
}

/// Marker for one frame's chain of intermediate entity lists: the
/// horizontally integrated, horizontally resolved, vertically integrated
/// and vertically resolved states.
pub open spec fn frame_chain(
    m1: Seq<GameObject>,
    m2: Seq<GameObject>,
    m3: Seq<GameObject>,
    m4: Seq<GameObject>,
) -> bool {
    true
}

/// One whole native frame: there is a chain of intermediate entity lists —
/// horizontally integrated, horizontally resolved against that snapshot,
/// vertically integrated, vertically resolved — and the final entities are
/// the last of these, each loaded and ticked.
pub open spec fn frame_post(
    s0: Seq<GameObject>,
    sfinal: Seq<GameObject>,
    r: Seq<StateUpdateContainer>,
    textures: Seq<TextureAsset>,
    scenes: Seq<SceneAsset>,
    fonts: Seq<String>,
    sfx_ids: Seq<String>,
    dt: int,
) -> bool {
    exists|m1: Seq<GameObject>, m2: Seq<GameObject>, m3: Seq<GameObject>, m4: Seq<GameObject>|
        {
            &&& #[trigger] frame_chain(m1, m2, m3, m4)
            &&& m1.len() == s0.len() && m2.len() == s0.len() && m3.len() == s0.len()
                && m4.len() == s0.len()
            &&& forall|i: int| 0 <= i < s0.len() ==> integrated_x(s0[i], #[trigger] m1[i], dt)
            &&& forall|i: int| 0 <= i < s0.len() ==> resolved_x(m1, i, #[trigger] m2[i], dt)
            &&& forall|i: int| 0 <= i < s0.len() ==> integrated_y(m2[i], #[trigger] m3[i], dt)
            &&& forall|i: int| 0 <= i < s0.len() ==> resolved_y(m3, i, #[trigger] m4[i], dt)
            &&& loadtick_post(m4, sfinal, textures, scenes, sfx_ids, dt)
            &&& r.len() == s0.len()
            &&& forall|i: int| 0 <= i < s0.len() ==> su_matches(#[trigger] r[i], m4[i], fonts, sfx_ids)
        }
}

/// Rigidbody field facts after one resolution step.
proof fn lemma_resolved_rb_fields(
    s: Seq<GameObject>,
    i: int,
    g1: GameObject,
    dt: int,
    vertical: bool,
)
    requires
        0 <= i < s.len(),
        go_has_rb(s[i]),
        vertical ==> resolved_y(s, i, g1, dt),
        !vertical ==> resolved_x(s, i, g1, dt),
        !vertical ==> rb_resolve_ok_x(go_rb(s[i]), dt),
        vertical ==> rb_resolve_ok_y(go_rb(s[i]), dt),
    ensures
        go_has_rb(g1),
        go_rb(g1).velocity == go_rb(s[i]).velocity,
        go_rb(g1).pivot == go_rb(s[i]).pivot,
        go_rb(g1).scale == go_rb(s[i]).scale,
        go_rb(g1).bounds == go_rb(s[i]).bounds,
        !vertical ==> go_rb(g1).position.y == go_rb(s[i]).position.y,
        !vertical ==> (go_rb(g1).position.x == go_rb(s[i]).position.x || go_rb(g1).position.x
            == go_rb(s[i]).position.x - go_rb(s[i]).velocity.x * dt),
        vertical ==> go_rb(g1).position.x == go_rb(s[i]).position.x,
        vertical ==> (go_rb(g1).position.y == go_rb(s[i]).position.y || go_rb(g1).position.y
            == go_rb(s[i]).position.y - go_rb(s[i]).velocity.y * dt),
        go_rb(g1).parent == go_rb(s[i]).parent,
        go_rb(g1).rotation == go_rb(s[i]).rotation,
        go_rb(g1).solid == go_rb(s[i]).solid,
        first_qual(s, i) == s.len() ==> g1 == s[i],
        first_qual(s, i) < s.len() ==> go_rb(g1).colliding == Some(s[first_qual(s, i)].id),
        first_qual(s, i) < s.len() && b_solid(s, first_qual(s, i)) && !vertical ==> go_rb(
            g1,
        ).position.x == go_rb(s[i]).position.x - go_rb(s[i]).velocity.x * dt,
        first_qual(s, i) < s.len() && b_solid(s, first_qual(s, i)) && vertical ==> go_rb(
            g1,
        ).position.y == go_rb(s[i]).position.y - go_rb(s[i]).velocity.y * dt,
{
    lemma_first_qual_spec(s, i);
    crate::gameobject::lemma_kind_index_spec(s[i].components@, ComponentKind::Rigidbody);
    crate::gameobject::lemma_kind_index_congruence(
        s[i].components@,
        g1.components@,
        ComponentKind::Rigidbody,
    );
    let ki = kind_index(s[i].components@, ComponentKind::Rigidbody);
    let j = first_qual(s, i);
    let rb = go_rb(s[i]);
    assert(kind_index(g1.components@, ComponentKind::Rigidbody) == ki);
    assert(0 <= ki < s[i].components@.len());
    if j < s.len() && vertical {
        assert(g1.components@[ki] == Component::Rigidbody(
            Rigidbody {
                position: Vec2 {
                    x: rb.position.x,
                    y: if b_solid(s, j) {
                        (rb.position.y - rb.velocity.y * dt) as i64
                    } else {
                        rb.position.y
                    },
                },
                colliding: Some(s[j].id),
                parent: rb.parent,
                pivot: rb.pivot,
                scale: rb.scale,
                rotation: rb.rotation,
                bounds: rb.bounds,
                velocity: rb.velocity,
                solid: rb.solid,
            },
        ));
    } else if j < s.len() {
        assert(g1.components@[ki] == Component::Rigidbody(
            Rigidbody {
                position: Vec2 {
                    x: if b_solid(s, j) {
                        (rb.position.x - rb.velocity.x * dt) as i64
                    } else {
                        rb.position.x
                    },
                    y: rb.position.y,
                },
                colliding: Some(s[j].id),
                parent: rb.parent,
                pivot: rb.pivot,
                scale: rb.scale,
                rotation: rb.rotation,
                bounds: rb.bounds,
                velocity: rb.velocity,
                solid: rb.solid,
            },
        ));
    }
}

/// Rigidbody field facts after one vertical integration step.
proof fn lemma_integrated_y_rb_fields(g0: GameObject, g1: GameObject, dt: int)
    requires
        go_has_rb(g0),
        rb_phys_ok_y(go_rb(g0), dt),
        integrated_y(g0, g1, dt),
    ensures
        go_has_rb(g1),
        go_rb(g1).position.x == go_rb(g0).position.x,
        go_rb(g1).position.y == go_rb(g0).position.y + go_rb(g0).velocity.y * dt,
        go_rb(g1).velocity == go_rb(g0).velocity,
        go_rb(g1).pivot == go_rb(g0).pivot,
        go_rb(g1).scale == go_rb(g0).scale,
        go_rb(g1).bounds == go_rb(g0).bounds,
        go_rb(g1).solid == go_rb(g0).solid,
        go_rb(g1).parent == go_rb(g0).parent,
        go_rb(g1).rotation == go_rb(g0).rotation,
        go_rb(g1).colliding == go_rb(g0).colliding,
{
    crate::gameobject::lemma_kind_index_spec(g0.components@, ComponentKind::Rigidbody);
    crate::gameobject::lemma_kind_index_congruence(
        g0.components@,
        g1.components@,
        ComponentKind::Rigidbody,
    );
}

/// The body after one horizontal integration step: position advanced by
/// the horizontal velocity, back-reference cleared, all else kept.
pub open spec fn rb_stepped_x(rb: Rigidbody, dt: int) -> Rigidbody {
    Rigidbody {
        position: Vec2 { x: (rb.position.x + rb.velocity.x * dt) as i64, y: rb.position.y },
        parent: rb.parent,
        pivot: rb.pivot,
        scale: rb.scale,
        rotation: rb.rotation,
        bounds: rb.bounds,
        velocity: rb.velocity,
        colliding: None,
        solid: rb.solid,
    }
}

/// A store of exactly one rigidbody holds that body first and nothing of
/// any other kind.
proof fn lemma_single_rb_kinds(s: Seq<Component>)
    requires
        s.len() == 1,
        s[0].kind() == ComponentKind::Rigidbody,
    ensures
        has_kind(s, ComponentKind::Rigidbody),
        kind_index(s, ComponentKind::Rigidbody) == 0,
        !has_kind(s, ComponentKind::Scene),
        !has_kind(s, ComponentKind::Sprite),
        !has_kind(s, ComponentKind::Transform),
        !has_kind(s, ComponentKind::Animator),
        !has_kind(s, ComponentKind::Text),
        !has_kind(s, ComponentKind::Sfx),
        !has_kind(s, ComponentKind::Behaviour),
{
    crate::gameobject::lemma_kind_index_spec(s, ComponentKind::Rigidbody);
    crate::gameobject::lemma_kind_index_spec(s, ComponentKind::Scene);
    crate::gameobject::lemma_kind_index_spec(s, ComponentKind::Sprite);
    crate::gameobject::lemma_kind_index_spec(s, ComponentKind::Transform);
    crate::gameobject::lemma_kind_index_spec(s, ComponentKind::Animator);
    crate::gameobject::lemma_kind_index_spec(s, ComponentKind::Text);
    crate::gameobject::lemma_kind_index_spec(s, ComponentKind::Sfx);
    crate::gameobject::lemma_kind_index_spec(s, ComponentKind::Behaviour);
}

/// The per-frame tick leaves a store of one bare rigidbody untouched: every
/// synchronization rule needs a component kind the store does not hold.
proof fn lemma_bare_tick_identity(s: Seq<Component>, dt: int)
    requires
        s.len() == 1,
        s[0].kind() == ComponentKind::Rigidbody,
    ensures
        crate::gameobject::go_ticked(s, dt) == s,
{
    lemma_single_rb_kinds(s);
    assert(crate::gameobject::stage_rb_from_sprite(s) == s);
    assert(crate::gameobject::stage_rb_from_transform(s) == s);
    assert(crate::gameobject::stage_transform_from_rb(s) == s);
    assert(crate::gameobject::stage_anim(s, dt) == s);
    assert(crate::gameobject::stage_sprite_from_anim(s) == s);
}

/// The load pass leaves an already-initialized bare rigidbody entity's
/// store untouched: the entity carries nothing the pass works on.
proof fn lemma_bare_load_identity(
    g0: GameObject,
    g1: GameObject,
    textures: Seq<TextureAsset>,
    scenes: Seq<SceneAsset>,
    sfx_ids: Seq<String>,
)
    requires
        g0.components@.len() == 1,
        g0.components@[0].kind() == ComponentKind::Rigidbody,
        g0.init,
        go_loaded_rel(g0, g1, textures, scenes, sfx_ids),
    ensures
        g1.components@ == g0.components@,
        g1.id == g0.id,
        g1.init,
{
    assert(crate::gameobject::load_rel_at(
        g0.components@,
        0,
        g1.components@[0],
        g0.init,
        textures,
        scenes,
        sfx_ids,
    ));
    assert(g1.components@ =~= g0.components@);
}

/// Whole-frame convergence and back-reference law: for a world of exactly
/// two initialized entities that are bare solid colliders (one rigidbody
/// each, nothing else) moving only horizontally, one whole frame never
/// increases the horizontal penetration; and where the two integrated
/// bodies overlap, both finish the frame exactly where they started it,
/// each carrying the collision back-reference to the other's identity.
#[verifier::rlimit(90)]
pub proof fn lemma_frame_convergence(
    s0: Seq<GameObject>,
    sfinal: Seq<GameObject>,
    r: Seq<StateUpdateContainer>,
    textures: Seq<TextureAsset>,
    scenes: Seq<SceneAsset>,
    fonts: Seq<String>,
    sfx_ids: Seq<String>,
    dt: int,
)
    requires
        s0.len() == 2,
        sfinal.len() == 2,
        forall|i: int|
            0 <= i < 2 ==> (#[trigger] s0[i]).components@.len() == 1
                && s0[i].components@[0].kind() == ComponentKind::Rigidbody,
        forall|i: int| 0 <= i < 2 ==> (#[trigger] s0[i]).init,
        world_phys_ok(s0, dt),
        forall|i: int| 0 <= i < 2 ==> go_rb(#[trigger] s0[i]).solid,
        forall|i: int| 0 <= i < 2 ==> go_rb(#[trigger] s0[i]).velocity.y == 0,
        frame_post(s0, sfinal, r, textures, scenes, fonts, sfx_ids, dt),
    ensures
        pen_x(go_rb(sfinal[0]), go_rb(sfinal[1])) <= pen_x(go_rb(s0[0]), go_rb(s0[1])),
        crate::math::sat_overlaps(
            crate::components::rb_aabb(rb_stepped_x(go_rb(s0[0]), dt)),
            crate::components::rb_aabb(rb_stepped_x(go_rb(s0[1]), dt)),
        ) ==> {
            &&& go_rb(sfinal[0]).position == go_rb(s0[0]).position
            &&& go_rb(sfinal[1]).position == go_rb(s0[1]).position
            &&& go_rb(sfinal[0]).colliding == Some(s0[1].id)
            &&& go_rb(sfinal[1]).colliding == Some(s0[0].id)
        },
{
    let (m1, m2, m3, m4): (Seq<GameObject>, Seq<GameObject>, Seq<GameObject>, Seq<GameObject>) =
        choose|m1: Seq<GameObject>, m2: Seq<GameObject>, m3: Seq<GameObject>, m4: Seq<GameObject>|
        {
            &&& #[trigger] frame_chain(m1, m2, m3, m4)
            &&& m1.len() == s0.len() && m2.len() == s0.len() && m3.len() == s0.len()
                && m4.len() == s0.len()
            &&& forall|i: int| 0 <= i < s0.len() ==> integrated_x(s0[i], #[trigger] m1[i], dt)
            &&& forall|i: int| 0 <= i < s0.len() ==> resolved_x(m1, i, #[trigger] m2[i], dt)
            &&& forall|i: int| 0 <= i < s0.len() ==> integrated_y(m2[i], #[trigger] m3[i], dt)
            &&& forall|i: int| 0 <= i < s0.len() ==> resolved_y(m3, i, #[trigger] m4[i], dt)
            &&& loadtick_post(m4, sfinal, textures, scenes, sfx_ids, dt)
            &&& r.len() == s0.len()
            &&& forall|i: int| 0 <= i < s0.len() ==> su_matches(#[trigger] r[i], m4[i], fonts, sfx_ids)
        };
    let mids = choose|mids: Seq<GameObject>|
        #[trigger] loadtick_chain(m4, mids, sfinal, textures, scenes, sfx_ids, dt);
    assert forall|i: int| 0 <= i < 2 implies {
        &&& go_rb(#[trigger] m4[i]).position == go_rb(m2[i]).position
        &&& go_rb(m4[i]).pivot == go_rb(m2[i]).pivot
        &&& go_rb(m4[i]).scale == go_rb(m2[i]).scale
        &&& go_rb(m4[i]).bounds == go_rb(m2[i]).bounds
        &&& go_rb(sfinal[i]) == go_rb(m4[i])
        &&& m1[i].id == s0[i].id
        &&& go_rb(m1[i]) == rb_stepped_x(go_rb(s0[i]), dt)
        &&& !go_has_scene(m1[i])
        &&& go_has_rb(m1[i])
        &&& m1[i].init
        &&& go_rb(m4[i]).colliding == go_rb(m2[i]).colliding || (first_qual(m3, i) < 2
            && go_rb(m4[i]).colliding == Some(m3[first_qual(m3, i)].id))
        &&& m3[i].id == s0[i].id
    } by {
        lemma_single_rb_kinds(s0[i].components@);
        lemma_step_entity(s0[i], m1[i], dt);
        lemma_integrated_x_slots(s0[i], m1[i], dt);
        assert(go_rb(m1[i]) == rb_stepped_x(go_rb(s0[i]), dt));
        lemma_resolved_slots(m1, i, m2[i], dt, false);
        lemma_resolved_rb_fields(m1, i, m2[i], dt, false);
        assert(go_rb(m2[i]).velocity.y == 0);
        assert(rb_phys_ok_y(go_rb(m2[i]), dt));
        lemma_integrated_y_slots(m2[i], m3[i], dt);
        lemma_integrated_y_rb_fields(m2[i], m3[i], dt);
        assert(go_rb(m3[i]).position.y == go_rb(m2[i]).position.y);
        assert(rb_resolve_ok_y(go_rb(m3[i]), dt));
        lemma_resolved_slots(m3, i, m4[i], dt, true);
        lemma_resolved_rb_fields(m3, i, m4[i], dt, true);
        assert(go_rb(m4[i]).position.y == go_rb(m3[i]).position.y);
        // the load-and-tick pass leaves a bare initialized collider alone
        assert(m4[i].components@.len() == 1 && m4[i].components@[0].kind()
            == ComponentKind::Rigidbody && m4[i].init);
        assert(go_loaded_rel(m4[i], mids[i], textures, scenes, sfx_ids) && go_ticked_rel(
            mids[i],
            sfinal[i],
            dt,
        ));
        lemma_bare_load_identity(m4[i], mids[i], textures, scenes, sfx_ids);
        lemma_bare_tick_identity(mids[i].components@, dt);
        assert(sfinal[i].components@ == m4[i].components@);
        lemma_single_rb_kinds(m4[i].components@);
        assert(go_rb(sfinal[i]) == go_rb(m4[i]));
    }
    assert forall|i: int| 0 <= i < 2 implies go_has_rb(#[trigger] s0[i]) && !go_has_scene(
        s0[i],
    ) by {
        lemma_single_rb_kinds(s0[i].components@);
    }
    lemma_resolution_convergence(s0, m1, m2, dt);
    assert(pen_x(go_rb(m4[0]), go_rb(m4[1])) == pen_x(go_rb(m2[0]), go_rb(m2[1])));
    assert(pen_x(go_rb(sfinal[0]), go_rb(sfinal[1])) == pen_x(go_rb(m2[0]), go_rb(m2[1])));
    if crate::math::sat_overlaps(
        crate::components::rb_aabb(rb_stepped_x(go_rb(s0[0]), dt)),
        crate::components::rb_aabb(rb_stepped_x(go_rb(s0[1]), dt)),
    ) {
        // both sides qualify in the horizontal sub-step and both are solid,
        // so both are pushed back to where they started, referencing each
        // other
        assert(qual_hit(m1, 0, 1));
        assert(!qual_hit(m1, 0, 0));
        assert(first_qual_from(m1, 0, 1) == 1);
        assert(first_qual_from(m1, 0, 0) == 1);
        assert(first_qual(m1, 0) == 1);
        crate::math::lemma_sat_symmetric(
            crate::components::rb_aabb(go_rb(m1[0])),
            crate::components::rb_aabb(go_rb(m1[1])),
        );
        assert(qual_hit(m1, 1, 0));
        assert(first_qual_from(m1, 1, 0) == 0);
        assert(first_qual(m1, 1) == 0);
        lemma_resolved_rb_fields(m1, 0int, m2[0], dt, false);
        lemma_resolved_rb_fields(m1, 1int, m2[1], dt, false);
        assert(go_rb(m2[0]).position.x == go_rb(s0[0]).position.x);
        assert(go_rb(m2[1]).position.x == go_rb(s0[1]).position.x);
        assert(go_rb(m2[0]).colliding == Some(s0[1].id));
        assert(go_rb(m2[1]).colliding == Some(s0[0].id));
        assert forall|i: int| 0 <= i < 2 implies go_rb(#[trigger] m4[i]).colliding == Some(
            s0[1 - i].id,
        ) by {
            if first_qual(m3, i) < 2 {
                lemma_first_qual_spec(m3, i);
                assert(qual_hit(m3, i, first_qual(m3, i)));
                assert(first_qual(m3, i) == 1 - i);
            }
        }
        assert(go_rb(sfinal[0]).position == go_rb(s0[0]).position);
        assert(go_rb(sfinal[1]).position == go_rb(s0[1]).position);
    }
}

/// Unpacks one horizontal integration step at the entity level: the body
/// keeps everything but its horizontal position, which advances by the
/// velocity, and the identity and flags survive.
proof fn lemma_step_entity(g0: GameObject, g1: GameObject, dt: int)
    requires
        go_has_rb(g0),
        rb_phys_ok(go_rb(g0), dt),
        integrated_x(g0, g1, dt),
    ensures
        go_has_rb(g1),
        !go_has_scene(g0) ==> !go_has_scene(g1),
        g1.init == g0.init,
        g1.id == g0.id,
        go_rb(g1).position.x == go_rb(g0).position.x + go_rb(g0).velocity.x * dt,
        go_rb(g1).position.y == go_rb(g0).position.y,
        go_rb(g1).velocity == go_rb(g0).velocity,
        go_rb(g1).pivot == go_rb(g0).pivot,
        go_rb(g1).scale == go_rb(g0).scale,
        go_rb(g1).bounds == go_rb(g0).bounds,
        go_rb(g1).solid == go_rb(g0).solid,
        go_rb(g1).parent == go_rb(g0).parent,
        go_rb(g1).rotation == go_rb(g0).rotation,
        go_rb(g1).colliding.is_none(),
        crate::components::rb_rect_ok(go_rb(g1)),
        rb_resolve_ok_x(go_rb(g1), dt),
{
    crate::gameobject::lemma_kind_index_spec(g0.components@, ComponentKind::Rigidbody);
    crate::gameobject::lemma_kind_index_congruence(
        g0.components@,
        g1.components@,
        ComponentKind::Rigidbody,
    );
    crate::gameobject::lemma_kind_index_congruence(
        g0.components@,
        g1.components@,
        ComponentKind::Scene,
    );
}

/// Unpacks one horizontal resolution at the entity level for a corrected
/// solid hit: the body returns to where the step started.
proof fn lemma_resolved_entity(s: Seq<GameObject>, i: int, g2: GameObject, dt: int)
    requires
        0 <= i < s.len(),
        go_has_rb(s[i]),
        first_qual(s, i) < s.len(),
        b_solid(s, first_qual(s, i)),
        rb_resolve_ok_x(go_rb(s[i]), dt),
        resolved_x(s, i, g2, dt),
    ensures
        go_has_rb(g2),
        go_rb(g2).position.x == go_rb(s[i]).position.x - go_rb(s[i]).velocity.x * dt,
        go_rb(g2).position.y == go_rb(s[i]).position.y,
        go_rb(g2).velocity == go_rb(s[i]).velocity,
        go_rb(g2).pivot == go_rb(s[i]).pivot,
        go_rb(g2).scale == go_rb(s[i]).scale,
        go_rb(g2).bounds == go_rb(s[i]).bounds,
        go_rb(g2).solid == go_rb(s[i]).solid,
        g2.init == s[i].init,
        g2.id == s[i].id,
{
    crate::gameobject::lemma_kind_index_spec(s[i].components@, ComponentKind::Rigidbody);
    crate::gameobject::lemma_kind_index_congruence(
        s[i].components@,
        g2.components@,
        ComponentKind::Rigidbody,
    );
}

} // verus!
