//! Entities: an identity, a store of components, and the lifecycle flags the
//! per-frame protocol drives.

use crate::components::{Component, ComponentKind};
use vstd::prelude::*;

verus! {

/// Identity of an entity: a mutable, non-unique name and a unique id
/// generated once at creation.
#[derive(PartialEq, Debug)]
pub struct GameObjectId {
    pub name: String,
    /// Unique id generated randomly per execution. Do not rely on it being
    /// the same between plays.
    pub uuid: String,
}

impl Clone for GameObjectId {
    /// An exact copy.
    fn clone(&self) -> (r: Self)
        ensures
            r == *self,
    {
        GameObjectId { name: self.name.clone(), uuid: self.uuid.clone() }
    }
}

/// Relies on uuid::Uuid::new_v4 and its hyphenated Display form: a freshly
/// generated random version-4 identifier, rendered to its canonical string.
/// The value is random, so nothing is promised about it.
#[verifier::external_body]
pub fn new_uuid() -> (r: String) {
    uuid::Uuid::new_v4().to_string()
}

impl GameObjectId {
    /// A new identity under the given name, with a freshly generated unique
    /// id.
    pub fn new(name: String) -> (r: Self)
        ensures
            r.name == name,
    {
        GameObjectId { name, uuid: new_uuid() }
    }
}

/// The position of the first component of the given kind, searched from
/// position `i` on; the store length when there is none.
pub open spec fn kind_index_from(s: Seq<Component>, k: ComponentKind, i: int) -> int
    decreases s.len() - i,
{
    if i < 0 || i >= s.len() {
        s.len() as int
    } else if s[i].kind() == k {
        i
    } else {
        kind_index_from(s, k, i + 1)
    }
}

/// The position of the first component of the given kind; the store length
/// when there is none.
pub open spec fn kind_index(s: Seq<Component>, k: ComponentKind) -> int {
    kind_index_from(s, k, 0)
}

/// Whether the store holds a component of the given kind.
pub open spec fn has_kind(s: Seq<Component>, k: ComponentKind) -> bool {
    kind_index(s, k) < s.len()
}

/// The first component of the given kind, when the store holds one.
pub open spec fn first_of_kind(s: Seq<Component>, k: ComponentKind) -> Option<Component> {
    if has_kind(s, k) {
        Some(s[kind_index(s, k)])
    } else {
        None
    }
}

/// All components of the given kind, in store order.
pub open spec fn of_kind(s: Seq<Component>, k: ComponentKind) -> Seq<Component>
    decreases s.len(),
{
    if s.len() == 0 {
        Seq::empty()
    } else if s.last().kind() == k {
        of_kind(s.drop_last(), k).push(s.last())
    } else {
        of_kind(s.drop_last(), k)
    }
}

/// The first position of the given kind lies within the store and holds
/// that kind, and no earlier position does.
pub proof fn lemma_kind_index_spec(s: Seq<Component>, k: ComponentKind)
    ensures
        0 <= kind_index(s, k) <= s.len(),
        kind_index(s, k) < s.len() ==> s[kind_index(s, k)].kind() == k,
        forall|j: int| 0 <= j < kind_index(s, k) ==> (#[trigger] s[j]).kind() != k,
{
    lemma_kind_index_from_spec(s, k, 0);
}

proof fn lemma_kind_index_from_spec(s: Seq<Component>, k: ComponentKind, i: int)
    requires
        0 <= i <= s.len(),
    ensures
        i <= kind_index_from(s, k, i) <= s.len(),
        kind_index_from(s, k, i) < s.len() ==> s[kind_index_from(s, k, i)].kind() == k,
        forall|j: int| i <= j < kind_index_from(s, k, i) ==> (#[trigger] s[j]).kind() != k,
    decreases s.len() - i,
{
    if i < s.len() && s[i].kind() != k {
        lemma_kind_index_from_spec(s, k, i + 1);
    }
}

/// An entity: identity, insertion-ordered component store, and the
/// lifecycle flags the per-frame protocol drives.
pub struct GameObject {
    pub id: GameObjectId,
    /// The ordinal the scripting bridge knows this entity under.
    pub wren_id: usize,
    pub components: Vec<Component>,
    pub init: bool,
    pub start: bool,
}

/// Everything of the entity except its component store is unchanged.
pub open spec fn go_unchanged_but_components(a: &GameObject, b: &GameObject) -> bool {
    &&& b.id == a.id
    &&& b.wren_id == a.wren_id
    &&& b.init == a.init
    &&& b.start == a.start
}

impl Clone for GameObject {
    /// A copy with the same identity and flags, every component cloned in
    /// order, each equal in content to its source.
    fn clone(&self) -> (r: Self)
        ensures
            r.id == self.id,
            r.wren_id == self.wren_id,
            r.init == self.init,
            r.start == self.start,
            r.components@.len() == self.components@.len(),
            forall|i: int|
                0 <= i < self.components@.len() ==> (#[trigger] r.components@[i]).like(
                    &self.components@[i],
                ) && r.components@[i].kind() == self.components@[i].kind(),
    {
        let mut components: Vec<Component> = Vec::new();
        let mut i: usize = 0;
        while i < self.components.len()
            invariant
                i <= self.components.len(),
                components@.len() == i,
                forall|j: int|
                    0 <= j < i ==> (#[trigger] components@[j]).like(&self.components@[j])
                        && components@[j].kind() == self.components@[j].kind(),
            decreases self.components.len() - i,
        {
            components.push(self.components[i].clone());
            i = i + 1;
        }
        GameObject {
            id: self.id.clone(),
            components,
            wren_id: self.wren_id,
            init: self.init,
            start: self.start,
        }
    }
}

impl GameObject {
    /// A fresh entity under the given name: empty store, lifecycle not yet
    /// begun.
    pub fn new(name: String) -> (r: Self)
        ensures
            r.id.name == name,
            r.components@.len() == 0,
            r.wren_id == 0,
            !r.init,
            !r.start,
    {
        GameObject {
            id: GameObjectId::new(name),
            components: Vec::new(),
            wren_id: 0,
            init: false,
            start: false,
        }
    }

    /// Appends a component; no uniqueness check is made.
    pub fn push_component(&mut self, c: Component)
        ensures
            final(self).components@ == old(self).components@.push(c),
            go_unchanged_but_components(old(self), final(self)),
    {
        self.components.push(c);
    }

    /// Builder form of `push_component`.
    pub fn with(self, c: Component) -> (r: GameObject)
        ensures
            r.components@ == self.components@.push(c),
            r.id == self.id,
            r.wren_id == self.wren_id,
            r.init == self.init,
            r.start == self.start,
    {
        let mut g = self;
        g.components.push(c);
        g
    }

    /// The position of the first component of the given kind; the store
    /// length when there is none.
    pub fn index_of_kind(&self, k: ComponentKind) -> (r: usize)
        ensures
            r as int == kind_index(self.components@, k),
    {
        let mut i: usize = 0;
        while i < self.components.len()
            invariant
                i <= self.components.len(),
                kind_index(self.components@, k) == kind_index_from(
                    self.components@,
                    k,
                    i as int,
                ),
            decreases self.components.len() - i,
        {
            if self.components[i].kind_of() == k {
                return i;
            }
            i = i + 1;
        }
        self.components.len()
    }

    /// Finishes a built entity: where both a collider and a transform were
    /// attached, the collider starts at the transform's position.
    pub fn build(self) -> (r: GameObject)
        ensures
            r.id == self.id,
            r.wren_id == self.wren_id,
            r.init == self.init,
            r.start == self.start,
            ({
                let s = self.components@;
                if has_kind(s, ComponentKind::Rigidbody) && has_kind(
                    s,
                    ComponentKind::Transform,
                ) {
                    let rb = rb_in(s[kind_index(s, ComponentKind::Rigidbody)]);
                    r.components@ == s.update(
                        kind_index(s, ComponentKind::Rigidbody),
                        Component::Rigidbody(
                            crate::components::Rigidbody {
                                position: trans_in(
                                    s[kind_index(s, ComponentKind::Transform)],
                                ).position,
                                parent: rb.parent,
                                pivot: rb.pivot,
                                scale: rb.scale,
                                rotation: rb.rotation,
                                bounds: rb.bounds,
                                velocity: rb.velocity,
                                colliding: rb.colliding,
                                solid: rb.solid,
                            },
                        ),
                    )
                } else {
                    r.components@ == s
                }
            }),
    {
        let mut g = self;
        let ghost s0 = g.components@;
        if g.has(ComponentKind::Rigidbody) && g.has(ComponentKind::Transform) {
            proof {
                lemma_kind_index_spec(s0, ComponentKind::Rigidbody);
                lemma_kind_index_spec(s0, ComponentKind::Transform);
            }
            let p = match g.get(ComponentKind::Transform).as_transform() {
                Some(t) => t.position,
                None => vstd::pervasive::unreached(),
            };
            let ri = g.index_of_kind(ComponentKind::Rigidbody);
            let c = g.components.remove(ri);
            let mut rb = match c {
                Component::Rigidbody(b) => b,
                _ => vstd::pervasive::unreached(),
            };
            rb.position = p;
            g.components.insert(ri, Component::Rigidbody(rb));
            proof {
                assert(g.components@ =~= s0.update(
                    kind_index(s0, ComponentKind::Rigidbody),
                    g.components@[kind_index(s0, ComponentKind::Rigidbody)],
                ));
            }
        }
        g
    }

    /// Whether the store holds a component of the given kind.
    pub fn has(&self, k: ComponentKind) -> (r: bool)
        ensures
            r == has_kind(self.components@, k),
    {
        let mut i: usize = 0;
        while i < self.components.len()
            invariant
                i <= self.components.len(),
                kind_index(self.components@, k) == kind_index_from(
                    self.components@,
                    k,
                    i as int,
                ),
            decreases self.components.len() - i,
        {
            if self.components[i].kind_of() == k {
                return true;
            }
            i = i + 1;
        }
        false
    }

    /// The first component of the given kind, or nothing: lookup that
    /// cannot fail fatally.
    pub fn wrap_component(&self, k: ComponentKind) -> (r: Option<&Component>)
        ensures
            (match r {
                Some(c) => first_of_kind(self.components@, k) == Some(*c),
                None => first_of_kind(self.components@, k).is_none(),
            }),
    {
        let mut i: usize = 0;
        while i < self.components.len()
            invariant
                i <= self.components.len(),
                kind_index(self.components@, k) == kind_index_from(
                    self.components@,
                    k,
                    i as int,
                ),
            decreases self.components.len() - i,
        {
            if self.components[i].kind_of() == k {
                return Some(&self.components[i]);
            }
            i = i + 1;
        }
        None
    }

    /// The first component of the given kind. The caller must have checked
    /// `has` first: absence is a caller error.
    pub fn get(&self, k: ComponentKind) -> (r: &Component)
        requires
            has_kind(self.components@, k),
        ensures
            Some(*r) == first_of_kind(self.components@, k),
    {
        let mut i: usize = 0;
        loop
            invariant
                i <= self.components.len(),
                has_kind(self.components@, k),
                kind_index(self.components@, k) == kind_index_from(
                    self.components@,
                    k,
                    i as int,
                ),
            decreases self.components.len() - i,
        {
            proof {
                lemma_kind_index_from_spec(self.components@, k, i as int);
            }
            if i < self.components.len() {
                if self.components[i].kind_of() == k {
                    return &self.components[i];
                }
                i = i + 1;
            } else {
                proof {
                    assert(false);
                }
            }
        }
    }

    /// Replaces the first component of the same kind as `c` with `c`. The
    /// caller must know such a component is present.
    pub fn set_component(&mut self, c: Component)
        requires
            has_kind(old(self).components@, c.kind()),
        ensures
            final(self).components@ == old(self).components@.update(
                kind_index(old(self).components@, c.kind()),
                c,
            ),
            go_unchanged_but_components(old(self), final(self)),
    {
        let k = c.kind_of();
        let mut i: usize = 0;
        loop
            invariant
                i <= self.components.len(),
                *self == *old(self),
                k == c.kind(),
                has_kind(self.components@, k),
                kind_index(self.components@, k) == kind_index_from(
                    self.components@,
                    k,
                    i as int,
                ),
            decreases self.components.len() - i,
        {
            proof {
                lemma_kind_index_from_spec(self.components@, k, i as int);
            }
            if i < self.components.len() {
                if self.components[i].kind_of() == k {
                    self.components.set(i, c);
                    return ;
                }
                i = i + 1;
            } else {
                proof {
                    assert(false);
                }
            }
        }
    }

    /// Clones of all components of the given kind, in store order: the
    /// lookup for kinds of which several instances are legal.
    pub fn wrap_all(&self, k: ComponentKind) -> (r: Vec<Component>)
        ensures
            r@.len() == of_kind(self.components@, k).len(),
            forall|i: int|
                0 <= i < r@.len() ==> (#[trigger] r@[i]).like(&of_kind(self.components@, k)[i])
                    && r@[i].kind() == k,
    {
        let mut r: Vec<Component> = Vec::new();
        let mut i: usize = 0;
        while i < self.components.len()
            invariant
                i <= self.components.len(),
                r@.len() == of_kind(self.components@.take(i as int), k).len(),
                forall|j: int|
                    0 <= j < r@.len() ==> (#[trigger] r@[j]).like(
                        &of_kind(self.components@.take(i as int), k)[j],
                    ) && r@[j].kind() == k,
                forall|j: int|
                    0 <= j < r@.len() ==> of_kind(self.components@.take(i as int), k)[j].kind()
                        == k,
            decreases self.components.len() - i,
        {
            let ghost pre = self.components@.take(i as int);
            let ghost post = self.components@.take(i as int + 1);
            proof {
                assert(post.drop_last() =~= pre);
                assert(post.last() == self.components@[i as int]);
                lemma_of_kind_kinds(pre, k);
            }
            if self.components[i].kind_of() == k {
                r.push(self.components[i].clone());
            }
            i = i + 1;
        }
        proof {
            assert(self.components@.take(self.components@.len() as int) =~= self.components@);
        }
        r
    }
}

/// The first text of the store, where the store holds one.
pub open spec fn text_in(c: Component) -> crate::components::Text {
    match c {
        Component::Text(t) => t,
        _ => vstd::pervasive::arbitrary(),
    }
}

/// The first sprite of the store, where the store holds one.
pub open spec fn sprite_in(c: Component) -> crate::components::Sprite {
    match c {
        Component::Sprite(t) => t,
        _ => vstd::pervasive::arbitrary(),
    }
}

/// The rigidbody held by a component, where it holds one.
pub open spec fn rb_in(c: Component) -> crate::components::Rigidbody {
    match c {
        Component::Rigidbody(t) => t,
        _ => vstd::pervasive::arbitrary(),
    }
}

/// The transform held by a component, where it holds one.
pub open spec fn trans_in(c: Component) -> crate::components::Transform {
    match c {
        Component::Transform(t) => t,
        _ => vstd::pervasive::arbitrary(),
    }
}

/// The scene held by a component, where it holds one.
pub open spec fn scene_in(c: Component) -> crate::components::Scene {
    match c {
        Component::Scene(t) => t,
        _ => vstd::pervasive::arbitrary(),
    }
}

/// The animator held by a component, where it holds one.
pub open spec fn anim_in(c: Component) -> crate::components::Animator {
    match c {
        Component::Animator(t) => t,
        _ => vstd::pervasive::arbitrary(),
    }
}

/// The text after its load pass: no longer changed, the draw-order flag
/// cleared.
pub open spec fn text_loaded(t: crate::components::Text) -> crate::components::Text {
    crate::components::Text {
        parent: t.parent,
        text: t.text,
        font_size: t.font_size,
        font: t.font,
        texture_id: t.texture_id,
        changed: false,
        sort: t.sort,
        sort_dirty: false,
    }
}

/// A sound component after the drain pass: disarmed when it was armed and
/// its file is loaded, untouched otherwise.
pub open spec fn sfx_drained(c: Component, ids: Seq<String>) -> Component {
    match c {
        Component::Sfx(f) => {
            if f.play_state && crate::components::id_present(ids, f.file@) {
                Component::Sfx(
                    crate::components::Sfx {
                        name: f.name,
                        parent: f.parent,
                        file: f.file,
                        play_state: false,
                        volume: f.volume,
                        channel: f.channel,
                    },
                )
            } else {
                c
            }
        },
        _ => c,
    }
}

/// The play requests the drain pass collects: one per armed sound whose
/// file is loaded, in store order.
pub open spec fn sfx_updates_of(s: Seq<Component>, ids: Seq<String>) -> Seq<(String, i64)>
    decreases s.len(),
{
    if s.len() == 0 {
        Seq::empty()
    } else {
        let prev = sfx_updates_of(s.drop_last(), ids);
        match s.last() {
            Component::Sfx(f) => {
                if f.play_state && crate::components::id_present(ids, f.file@) {
                    prev.push((f.file, f.volume))
                } else {
                    prev
                }
            },
            _ => prev,
        }
    }
}

/// The rigidbody after the load pass: extents from the loaded sprite's cell
/// and position seeded from the transform, where the store holds them.
pub open spec fn rb_loaded(
    s: Seq<Component>,
    rb: crate::components::Rigidbody,
    textures: Seq<crate::components::TextureAsset>,
) -> crate::components::Rigidbody {
    let b = if has_kind(s, ComponentKind::Sprite) {
        let sp = crate::components::sprite_loaded(
            sprite_in(s[kind_index(s, ComponentKind::Sprite)]),
            textures,
        );
        crate::math::Vec2 {
            x: (sp.base_size.0 / sp.size.0) as i64,
            y: (sp.base_size.1 / sp.size.1) as i64,
        }
    } else {
        rb.bounds
    };
    let p = if has_kind(s, ComponentKind::Transform) {
        trans_in(s[kind_index(s, ComponentKind::Transform)]).position
    } else {
        rb.position
    };
    crate::components::Rigidbody {
        position: p,
        parent: rb.parent,
        pivot: rb.pivot,
        scale: rb.scale,
        rotation: rb.rotation,
        bounds: b,
        velocity: rb.velocity,
        colliding: rb.colliding,
        solid: rb.solid,
    }
}

/// How one store slot relates across the load pass: the first text is
/// marked loaded, every armed sound with a loaded file is disarmed, and on
/// the first (initializing) load the first sprite is bound to its texture,
/// the first scene is built, and the first rigidbody takes its extents and
/// position.
pub open spec fn load_rel_at(
    s: Seq<Component>,
    i: int,
    nc: Component,
    was_init: bool,
    textures: Seq<crate::components::TextureAsset>,
    scenes: Seq<crate::components::SceneAsset>,
    sfx_ids: Seq<String>,
) -> bool {
    let c = s[i];
    if c.kind() == ComponentKind::Text && i == kind_index(s, ComponentKind::Text) {
        nc == Component::Text(text_loaded(text_in(c)))
    } else if c.kind() == ComponentKind::Sfx {
        nc == sfx_drained(c, sfx_ids)
    } else if !was_init && c.kind() == ComponentKind::Sprite && i == kind_index(
        s,
        ComponentKind::Sprite,
    ) {
        nc == Component::Sprite(crate::components::sprite_loaded(sprite_in(c), textures))
    } else if !was_init && c.kind() == ComponentKind::Rigidbody && i == kind_index(
        s,
        ComponentKind::Rigidbody,
    ) {
        nc == Component::Rigidbody(rb_loaded(s, rb_in(c), textures))
    } else if !was_init && c.kind() == ComponentKind::Scene && i == kind_index(
        s,
        ComponentKind::Scene,
    ) {
        nc.kind() == ComponentKind::Scene && crate::components::scene_loaded(
            scene_in(c),
            scene_in(nc),
            textures,
            scenes,
        )
    } else {
        nc == c
    }
}

/// The sprite's numeric fields lie in the range its load keeps free of
/// overflow.
pub open spec fn sprite_wf(sp: crate::components::Sprite) -> bool {
    &&& sp.size.0 >= 1
    &&& sp.size.1 >= 1
    &&& sp.base_size.0 <= 65535
    &&& sp.base_size.1 <= 65535
    &&& 0 <= sp.index_cut.0 <= 32767
    &&& 0 <= sp.index_cut.1 <= 32767
}

/// Every texture in the table fits the pixel range.
pub open spec fn textures_wf(textures: Seq<crate::components::TextureAsset>) -> bool {
    forall|i: int|
        0 <= i < textures.len() ==> (#[trigger] textures[i]).size.0 <= 65535 && textures[i].size.1
            <= 65535
}

/// The store is fit for an initializing load: its first sprite is well
/// formed and its first scene is fresh with a well-formed, loaded asset.
pub open spec fn store_loadable(
    s: Seq<Component>,
    textures: Seq<crate::components::TextureAsset>,
    scenes: Seq<crate::components::SceneAsset>,
) -> bool {
    &&& has_kind(s, ComponentKind::Sprite) ==> sprite_wf(
        sprite_in(s[kind_index(s, ComponentKind::Sprite)]),
    )
    &&& has_kind(s, ComponentKind::Scene) ==> {
        let sc = scene_in(s[kind_index(s, ComponentKind::Scene)]);
        &&& crate::components::scene_find(scenes, sc.file@) < scenes.len()
        &&& crate::components::scene_data_wf(
            &scenes[crate::components::scene_find(scenes, sc.file@)].data,
        )
        &&& sc.tiles@.len() == 0
        &&& sc.transforms@.len() == 0
        &&& sc.rigidbodies@.len() == 0
    }
}

impl GameObject {
    /// The per-frame load pass of the entity. Drains armed sounds into play
    /// requests and surfaces the first text's rasterize request; on the
    /// first call it also binds the first sprite to its texture, builds the
    /// first scene, and seeds the first rigidbody from sprite and
    /// transform; the lifecycle flags advance from fresh to initialized to
    /// started over successive calls.
    #[verifier::rlimit(60)]
    pub fn load(
        &mut self,
        textures: &Vec<crate::components::TextureAsset>,
        fonts: &Vec<String>,
        sfx: &Vec<String>,
        scenes: &Vec<crate::components::SceneAsset>,
    ) -> (r: (crate::world::StateUpdateContainer, bool))
        requires
            textures_wf(textures@),
            !old(self).init ==> store_loadable(old(self).components@, textures@, scenes@),
        ensures
            final(self).id == old(self).id,
            final(self).wren_id == old(self).wren_id,
            old(self).init ==> final(self).init && final(self).start,
            !old(self).init ==> final(self).init && final(self).start == old(self).start,
            final(self).components@.len() == old(self).components@.len(),
            forall|i: int|
                0 <= i < old(self).components@.len() ==> load_rel_at(
                    old(self).components@,
                    i,
                    #[trigger] final(self).components@[i],
                    old(self).init,
                    textures@,
                    scenes@,
                    sfx@,
                ),
            r.0.textures == (if has_kind(old(self).components@, ComponentKind::Text) && text_in(
                old(self).components@[kind_index(old(self).components@, ComponentKind::Text)],
            ).changed && crate::components::id_present(
                fonts@,
                text_in(
                    old(self).components@[kind_index(old(self).components@, ComponentKind::Text)],
                ).font@,
            ) {
                Some(
                    text_in(
                        old(self).components@[kind_index(
                            old(self).components@,
                            ComponentKind::Text,
                        )],
                    ).texture_id,
                )
            } else {
                None::<String>
            }),
            r.0.sfx.is_some() && r.0.sfx.unwrap()@ == sfx_updates_of(old(self).components@, sfx@),
            r.1 == (has_kind(old(self).components@, ComponentKind::Text) && text_in(
                old(self).components@[kind_index(old(self).components@, ComponentKind::Text)],
            ).sort_dirty),
    {
        let ghost s0 = self.components@;
        let mut sort_flag = false;
        let mut tex_update: Option<String> = None;
        if self.has(ComponentKind::Text) {
            proof {
                lemma_kind_index_spec(s0, ComponentKind::Text);
            }
            let mut t = match self.get(ComponentKind::Text).as_text() {
                Some(t) => t.clone(),
                None => vstd::pervasive::unreached(),
            };
            let lr = t.load(fonts);
            sort_flag = lr.0;
            tex_update = lr.1;
            self.set_component(Component::Text(t));
        }
        let ghost s1 = self.components@;
        let mut updates: Vec<(String, i64)> = Vec::new();
        let mut i: usize = 0;
        while i < self.components.len()
            invariant
                i <= self.components.len(),
                self.id == old(self).id,
                self.wren_id == old(self).wren_id,
                self.init == old(self).init,
                self.start == old(self).start,
                self.components@.len() == s1.len(),
                s1.len() == s0.len(),
                forall|j: int|
                    0 <= j < i ==> #[trigger] self.components@[j] == sfx_drained(s1[j], sfx@),
                forall|j: int| i <= j < s1.len() ==> #[trigger] self.components@[j] == s1[j],
                forall|j: int| 0 <= j < s1.len() ==> (#[trigger] s1[j]).kind() == s0[j].kind(),
                updates@ == sfx_updates_of(s1.take(i as int), sfx@),
            decreases self.components.len() - i,
        {
            let ghost pre = s1.take(i as int);
            let ghost post = s1.take(i as int + 1);
            proof {
                assert(post.drop_last() =~= pre);
                assert(post.last() == s1[i as int]);
            }
            let armed = match self.components[i].as_sfx() {
                Some(f) => f.play_state && crate::components::find_id(sfx, &f.file),
                None => false,
            };
            if armed {
                let f = match self.components[i].as_sfx() {
                    Some(f) => f.clone(),
                    None => vstd::pervasive::unreached(),
                };
                updates.push((f.file.clone(), f.volume));
                let nf = crate::components::Sfx {
                    name: f.name,
                    parent: f.parent,
                    file: f.file,
                    play_state: false,
                    volume: f.volume,
                    channel: f.channel,
                };
                self.components.set(i, Component::Sfx(nf));
            }
            i = i + 1;
        }
        proof {
            assert(s1.take(s1.len() as int) =~= s1);
        }
        let su = crate::world::StateUpdateContainer { textures: tex_update, sfx: Some(updates) };
        if self.init {
            self.start = true;
            proof {
                lemma_kind_index_spec(s0, ComponentKind::Text);
                lemma_sfx_updates_congruence(s1, s0, sfx@);
                assert forall|ix: int| 0 <= ix < s0.len() implies load_rel_at(
                    s0,
                    ix,
                    #[trigger] self.components@[ix],
                    true,
                    textures@,
                    scenes@,
                    sfx@,
                ) by {
                    assert(self.components@[ix] == sfx_drained(s1[ix], sfx@));
                }
            }
            return (su, sort_flag);
        }
        let ghost s2 = self.components@;
        proof {
            lemma_kind_index_spec(s0, ComponentKind::Text);
            lemma_kind_index_congruence(s0, s2, ComponentKind::Scene);
            lemma_kind_index_congruence(s0, s2, ComponentKind::Sprite);
            lemma_kind_index_congruence(s0, s2, ComponentKind::Transform);
            lemma_kind_index_congruence(s0, s2, ComponentKind::Rigidbody);
            lemma_kind_index_spec(s2, ComponentKind::Scene);
            lemma_kind_index_spec(s2, ComponentKind::Sprite);
        }
        if self.has(ComponentKind::Scene) {
            let mut sc = match self.get(ComponentKind::Scene).as_scene() {
                Some(c) => c.clone(),
                None => vstd::pervasive::unreached(),
            };
            sc.load(textures, scenes);
            self.set_component(Component::Scene(sc));
        }
        let ghost s3 = self.components@;
        if self.has(ComponentKind::Sprite) {
            proof {
                lemma_kind_index_congruence(s2, s3, ComponentKind::Sprite);
            }
            let mut sp = match self.get(ComponentKind::Sprite).as_sprite() {
                Some(c) => c.clone(),
                None => vstd::pervasive::unreached(),
            };
            sp.load(textures);
            self.set_component(Component::Sprite(sp));
        }
        let ghost s4 = self.components@;
        if self.has(ComponentKind::Rigidbody) {
            proof {
                lemma_kind_index_congruence(s2, s3, ComponentKind::Rigidbody);
                lemma_kind_index_congruence(s3, s4, ComponentKind::Rigidbody);
                lemma_kind_index_congruence(s3, s4, ComponentKind::Sprite);
                lemma_kind_index_congruence(s3, s4, ComponentKind::Transform);
                lemma_kind_index_congruence(s2, s3, ComponentKind::Transform);
                lemma_kind_index_spec(s4, ComponentKind::Rigidbody);
                lemma_kind_index_spec(s4, ComponentKind::Sprite);
                lemma_kind_index_spec(s4, ComponentKind::Transform);
            }
            let mut body = match self.get(ComponentKind::Rigidbody).as_rigidbody() {
                Some(c) => c.clone(),
                None => vstd::pervasive::unreached(),
            };
            if self.has(ComponentKind::Sprite) {
                let cell = match self.get(ComponentKind::Sprite).as_sprite() {
                    Some(sp) => sp.get_size(),
                    None => vstd::pervasive::unreached(),
                };
                body.bounds = crate::math::Vec2 { x: cell.0 as i64, y: cell.1 as i64 };
            }
            if self.has(ComponentKind::Transform) {
                let p = match self.get(ComponentKind::Transform).as_transform() {
                    Some(t) => t.position,
                    None => vstd::pervasive::unreached(),
                };
                body.position = p;
            }
            self.set_component(Component::Rigidbody(body));
        }
        self.init = true;
        proof {
            let sf = self.components@;
            lemma_kind_index_spec(s0, ComponentKind::Text);
            lemma_sfx_updates_congruence(s1, s0, sfx@);
            lemma_kind_index_spec(s0, ComponentKind::Scene);
            lemma_kind_index_spec(s0, ComponentKind::Sprite);
            lemma_kind_index_spec(s0, ComponentKind::Rigidbody);
            lemma_kind_index_spec(s0, ComponentKind::Transform);
            assert forall|ix: int| 0 <= ix < s0.len() implies load_rel_at(
                s0,
                ix,
                #[trigger] sf[ix],
                false,
                textures@,
                scenes@,
                sfx@,
            ) by {
                lemma_kind_index_congruence(s0, s2, ComponentKind::Scene);
                lemma_kind_index_congruence(s0, s2, ComponentKind::Sprite);
                lemma_kind_index_congruence(s0, s2, ComponentKind::Rigidbody);
                lemma_kind_index_congruence(s0, s2, ComponentKind::Transform);
                lemma_kind_index_congruence(s2, s3, ComponentKind::Sprite);
                lemma_kind_index_congruence(s2, s3, ComponentKind::Rigidbody);
                lemma_kind_index_congruence(s2, s3, ComponentKind::Transform);
                lemma_kind_index_congruence(s3, s4, ComponentKind::Rigidbody);
                lemma_kind_index_congruence(s3, s4, ComponentKind::Sprite);
                lemma_kind_index_congruence(s3, s4, ComponentKind::Transform);
                assert(s2[ix] == sfx_drained(s1[ix], sfx@));
            }
        }
        (su, sort_flag)
    }
}

/// One tick stage: the first rigidbody takes its extents from the first
/// sprite's cell.
pub open spec fn stage_rb_from_sprite(s: Seq<Component>) -> Seq<Component> {
    if has_kind(s, ComponentKind::Sprite) && has_kind(s, ComponentKind::Rigidbody) {
        let sp = sprite_in(s[kind_index(s, ComponentKind::Sprite)]);
        let rb = rb_in(s[kind_index(s, ComponentKind::Rigidbody)]);
        s.update(
            kind_index(s, ComponentKind::Rigidbody),
            Component::Rigidbody(
                crate::components::Rigidbody {
                    bounds: crate::math::Vec2 {
                        x: (sp.base_size.0 / sp.size.0) as i64,
                        y: (sp.base_size.1 / sp.size.1) as i64,
                    },
                    position: rb.position,
                    parent: rb.parent,
                    pivot: rb.pivot,
                    scale: rb.scale,
                    rotation: rb.rotation,
                    velocity: rb.velocity,
                    colliding: rb.colliding,
                    solid: rb.solid,
                },
            ),
        )
    } else {
        s
    }
}

/// One tick stage: the first rigidbody takes scale and pivot from the first
/// transform.
pub open spec fn stage_rb_from_transform(s: Seq<Component>) -> Seq<Component> {
    if has_kind(s, ComponentKind::Transform) && has_kind(s, ComponentKind::Rigidbody) {
        let tr = trans_in(s[kind_index(s, ComponentKind::Transform)]);
        let rb = rb_in(s[kind_index(s, ComponentKind::Rigidbody)]);
        s.update(
            kind_index(s, ComponentKind::Rigidbody),
            Component::Rigidbody(
                crate::components::Rigidbody {
                    scale: tr.scale,
                    pivot: tr.pivot,
                    position: rb.position,
                    parent: rb.parent,
                    rotation: rb.rotation,
                    bounds: rb.bounds,
                    velocity: rb.velocity,
                    colliding: rb.colliding,
                    solid: rb.solid,
                },
            ),
        )
    } else {
        s
    }
}

/// One tick stage: the first transform follows the first rigidbody's
/// position and orientation.
pub open spec fn stage_transform_from_rb(s: Seq<Component>) -> Seq<Component> {
    if has_kind(s, ComponentKind::Rigidbody) && has_kind(s, ComponentKind::Transform) {
        let rb = rb_in(s[kind_index(s, ComponentKind::Rigidbody)]);
        let tr = trans_in(s[kind_index(s, ComponentKind::Transform)]);
        s.update(
            kind_index(s, ComponentKind::Transform),
            Component::Transform(
                crate::components::Transform {
                    position: rb.position,
                    rotation: rb.rotation,
                    parent: tr.parent,
                    pivot: tr.pivot,
                    scale: tr.scale,
                },
            ),
        )
    } else {
        s
    }
}

/// One tick stage: the first animator advances its playing head, where a
/// sprite is present to animate.
pub open spec fn stage_anim(s: Seq<Component>, dt: int) -> Seq<Component> {
    if has_kind(s, ComponentKind::Sprite) && has_kind(s, ComponentKind::Animator) {
        let a = anim_in(s[kind_index(s, ComponentKind::Animator)]);
        s.update(
            kind_index(s, ComponentKind::Animator),
            Component::Animator(
                crate::components::Animator {
                    current_frame: crate::components::anim_step(a, dt) as i64,
                    parent: a.parent,
                    states: a.states,
                    current_state: a.current_state,
                    speed: a.speed,
                    playing: a.playing,
                },
            ),
        )
    } else {
        s
    }
}

/// One tick stage: the first sprite is pointed at the cell the first
/// animator's head stands on, where the animator names a state.
pub open spec fn stage_sprite_from_anim(s: Seq<Component>) -> Seq<Component> {
    if has_kind(s, ComponentKind::Animator) && has_kind(s, ComponentKind::Sprite) {
        let a = anim_in(s[kind_index(s, ComponentKind::Animator)]);
        let sp = sprite_in(s[kind_index(s, ComponentKind::Sprite)]);
        if a.current_state@ != "None"@ {
            let p = crate::components::state_lookup(a.states@, a.current_state@).unwrap();
            s.update(
                kind_index(s, ComponentKind::Sprite),
                Component::Sprite(
                    crate::components::Sprite {
                        index: (
                            ((a.current_frame / 1000000) * (sp.base_size.0 / sp.size.0)) as i32,
                            (p.1 * (sp.base_size.1 / sp.size.1)) as i32,
                        ),
                        parent: sp.parent,
                        base_size: sp.base_size,
                        index_cut: sp.index_cut,
                        size: sp.size,
                        texture_id: sp.texture_id,
                        sort: sp.sort,
                        sort_dirty: sp.sort_dirty,
                    },
                ),
            )
        } else {
            s
        }
    } else {
        s
    }
}

/// The whole per-frame tick of an entity's store: collider extents from
/// sprite, collider scale and pivot from transform, transform position from
/// collider, the animator's head advanced, and the sprite's cell re-pointed.
pub open spec fn go_ticked(s: Seq<Component>, dt: int) -> Seq<Component> {
    stage_sprite_from_anim(
        stage_anim(stage_transform_from_rb(stage_rb_from_transform(stage_rb_from_sprite(s))), dt),
    )
}

/// The animator's numeric fields lie in the range one tick and one sprite
/// re-point keep free of overflow, and a named current state exists with an
/// in-range cell.
pub open spec fn anim_tickable(a: crate::components::Animator, dt: int) -> bool {
    &&& 0 <= dt <= 32768
    &&& 0 <= a.speed <= 1000000
    &&& 0 <= a.current_frame <= 32767 * 1000000
    &&& a.current_state@ != "None"@ ==> ({
        let p = crate::components::state_lookup(a.states@, a.current_state@);
        &&& p.is_some()
        &&& 0 <= p.unwrap().0 <= 32767
        &&& 0 <= p.unwrap().1 <= 32767
    })
}

/// Stores that agree on every sound slot collect the same play requests.
pub proof fn lemma_sfx_updates_congruence(a: Seq<Component>, b: Seq<Component>, ids: Seq<String>)
    requires
        a.len() == b.len(),
        forall|j: int|
            0 <= j < a.len() ==> a[j] == b[j] || ((#[trigger] a[j]).kind() != ComponentKind::Sfx
                && b[j].kind() != ComponentKind::Sfx),
    ensures
        sfx_updates_of(a, ids) == sfx_updates_of(b, ids),
    decreases a.len(),
{
    if a.len() > 0 {
        assert(a.drop_last().len() == b.drop_last().len());
        assert forall|j: int| 0 <= j < a.drop_last().len() implies a.drop_last()[j]
            == b.drop_last()[j] || ((#[trigger] a.drop_last()[j]).kind() != ComponentKind::Sfx
            && b.drop_last()[j].kind() != ComponentKind::Sfx) by {
            assert(a.drop_last()[j] == a[j]);
            assert(b.drop_last()[j] == b[j]);
        }
        lemma_sfx_updates_congruence(a.drop_last(), b.drop_last(), ids);
        assert(a.last() == a[a.len() - 1]);
        assert(b.last() == b[b.len() - 1]);
    }
}

impl GameObject {
    /// The per-frame tick of the entity: each component pair's
    /// synchronization rule is applied in a fixed order — collider extents
    /// from sprite, collider scale and pivot from transform, transform
    /// position and orientation from collider, the animator's head advanced
    /// by `dt`, and the sprite's cell re-pointed at the head.
    #[verifier::rlimit(60)]
    pub fn update(&mut self, dt: i64)
        requires
            has_kind(old(self).components@, ComponentKind::Sprite) ==> ({
                let sp = sprite_in(
                    old(self).components@[kind_index(
                        old(self).components@,
                        ComponentKind::Sprite,
                    )],
                );
                sp.size.0 >= 1 && sp.size.1 >= 1 && sp.base_size.0 <= 65535 && sp.base_size.1
                    <= 65535
            }),
            has_kind(old(self).components@, ComponentKind::Sprite) && has_kind(
                old(self).components@,
                ComponentKind::Animator,
            ) ==> anim_tickable(
                anim_in(
                    old(self).components@[kind_index(
                        old(self).components@,
                        ComponentKind::Animator,
                    )],
                ),
                dt as int,
            ),
        ensures
            final(self).components@ == go_ticked(old(self).components@, dt as int),
            go_unchanged_but_components(old(self), final(self)),
    {
        let ghost s0 = self.components@;
        if self.has(ComponentKind::Sprite) && self.has(ComponentKind::Rigidbody) {
            proof {
                lemma_kind_index_spec(s0, ComponentKind::Sprite);
                lemma_kind_index_spec(s0, ComponentKind::Rigidbody);
            }
            let cell = match self.get(ComponentKind::Sprite).as_sprite() {
                Some(sp) => sp.get_size(),
                None => vstd::pervasive::unreached(),
            };
            let mut body = match self.get(ComponentKind::Rigidbody).as_rigidbody() {
                Some(c) => c.clone(),
                None => vstd::pervasive::unreached(),
            };
            body.bounds = crate::math::Vec2 { x: cell.0 as i64, y: cell.1 as i64 };
            self.set_component(Component::Rigidbody(body));
        }
        let ghost s1 = self.components@;
        proof {
            assert(s1 =~= stage_rb_from_sprite(s0));
            lemma_kind_index_congruence(s0, s1, ComponentKind::Transform);
            lemma_kind_index_congruence(s0, s1, ComponentKind::Rigidbody);
            lemma_kind_index_congruence(s0, s1, ComponentKind::Sprite);
            lemma_kind_index_congruence(s0, s1, ComponentKind::Animator);
        }
        if self.has(ComponentKind::Transform) && self.has(ComponentKind::Rigidbody) {
            proof {
                lemma_kind_index_spec(s1, ComponentKind::Transform);
                lemma_kind_index_spec(s1, ComponentKind::Rigidbody);
            }
            let mut body = match self.get(ComponentKind::Rigidbody).as_rigidbody() {
                Some(c) => c.clone(),
                None => vstd::pervasive::unreached(),
            };
            let tr = match self.get(ComponentKind::Transform).as_transform() {
                Some(t) => t.clone(),
                None => vstd::pervasive::unreached(),
            };
            body.tick_from_transform(&tr);
            self.set_component(Component::Rigidbody(body));
        }
        let ghost s2 = self.components@;
        proof {
            assert(s2 =~= stage_rb_from_transform(s1));
            lemma_kind_index_congruence(s1, s2, ComponentKind::Transform);
            lemma_kind_index_congruence(s1, s2, ComponentKind::Rigidbody);
            lemma_kind_index_congruence(s1, s2, ComponentKind::Sprite);
            lemma_kind_index_congruence(s1, s2, ComponentKind::Animator);
        }
        if self.has(ComponentKind::Rigidbody) && self.has(ComponentKind::Transform) {
            proof {
                lemma_kind_index_spec(s2, ComponentKind::Transform);
                lemma_kind_index_spec(s2, ComponentKind::Rigidbody);
            }
            let body = match self.get(ComponentKind::Rigidbody).as_rigidbody() {
                Some(c) => c.clone(),
                None => vstd::pervasive::unreached(),
            };
            let mut tr = match self.get(ComponentKind::Transform).as_transform() {
                Some(t) => t.clone(),
                None => vstd::pervasive::unreached(),
            };
            tr.tick_from_rigidbody(&body);
            self.set_component(Component::Transform(tr));
        }
        let ghost s3 = self.components@;
        proof {
            assert(s3 =~= stage_transform_from_rb(s2));
            lemma_kind_index_congruence(s2, s3, ComponentKind::Sprite);
            lemma_kind_index_congruence(s2, s3, ComponentKind::Animator);
        }
        if self.has(ComponentKind::Sprite) && self.has(ComponentKind::Animator) {
            proof {
                lemma_kind_index_spec(s3, ComponentKind::Sprite);
                lemma_kind_index_spec(s3, ComponentKind::Animator);
            }
            let ai = self.index_of_kind(ComponentKind::Animator);
            let c = self.components.remove(ai);
            let mut a = match c {
                Component::Animator(a) => a,
                _ => vstd::pervasive::unreached(),
            };
            a.update(dt);
            self.components.insert(ai, Component::Animator(a));
            proof {
                assert(self.components@ =~= s3.update(
                    kind_index(s3, ComponentKind::Animator),
                    self.components@[kind_index(s3, ComponentKind::Animator)],
                ));
            }
        }
        let ghost s4 = self.components@;
        proof {
            if has_kind(s3, ComponentKind::Sprite) && has_kind(s3, ComponentKind::Animator) {
                let ga = anim_in(s3[kind_index(s3, ComponentKind::Animator)]);
                assert(ga == anim_in(s0[kind_index(s0, ComponentKind::Animator)]));
                assert(0 <= dt as int * ga.speed as int <= 32768000000000) by (nonlinear_arith)
                    requires
                        0 <= dt <= 32768,
                        0 <= ga.speed <= 1000000,
                ;
                if ga.current_state@ != "None"@ {
                    let p = crate::components::state_lookup(ga.states@, ga.current_state@);
                    assert(0 <= p.unwrap().0 as int * 1000000 <= 32767000000) by (nonlinear_arith)
                        requires
                            0 <= p.unwrap().0 <= 32767,
                    ;
                }
                assert(0 <= crate::components::anim_step(ga, dt as int)
                    <= 32800768000000000);
            }
            assert(s4 =~= stage_anim(s3, dt as int));
            lemma_kind_index_congruence(s3, s4, ComponentKind::Sprite);
            lemma_kind_index_congruence(s3, s4, ComponentKind::Animator);
        }
        if self.has(ComponentKind::Animator) && self.has(ComponentKind::Sprite) {
            proof {
                lemma_kind_index_spec(s4, ComponentKind::Sprite);
                lemma_kind_index_spec(s4, ComponentKind::Animator);
            }
            let a = match self.get(ComponentKind::Animator).as_animator() {
                Some(c) => c.clone(),
                None => vstd::pervasive::unreached(),
            };
            let mut sp = match self.get(ComponentKind::Sprite).as_sprite() {
                Some(c) => c.clone(),
                None => vstd::pervasive::unreached(),
            };
            a.update_sprite(&mut sp);
            self.set_component(Component::Sprite(sp));
        }
        proof {
            assert(self.components@ =~= go_ticked(s0, dt as int));
        }
    }
}

/// Stores whose slots carry the same kinds slot by slot have the same
/// first position of every kind.
pub proof fn lemma_kind_index_congruence(a: Seq<Component>, b: Seq<Component>, k: ComponentKind)
    requires
        a.len() == b.len(),
        forall|j: int| 0 <= j < a.len() ==> (#[trigger] a[j]).kind() == b[j].kind(),
    ensures
        kind_index(a, k) == kind_index(b, k),
{
    lemma_kind_index_congruence_from(a, b, k, 0);
}

proof fn lemma_kind_index_congruence_from(
    a: Seq<Component>,
    b: Seq<Component>,
    k: ComponentKind,
    i: int,
)
    requires
        a.len() == b.len(),
        forall|j: int| 0 <= j < a.len() ==> (#[trigger] a[j]).kind() == b[j].kind(),
    ensures
        kind_index_from(a, k, i) == kind_index_from(b, k, i),
    decreases a.len() - i,
{
    if 0 <= i < a.len() && a[i].kind() != k {
        lemma_kind_index_congruence_from(a, b, k, i + 1);
    }
}

/// Idempotent lookup law: a kind the store reports present is exactly a
/// kind whose first lookup yields a component, and, the store being
/// unchanged between them, two successive lookups of the same kind see the
/// same component value.
pub proof fn lemma_lookup_idempotent(g: &GameObject, k: ComponentKind)
    ensures
        has_kind(g.components@, k) <==> first_of_kind(g.components@, k).is_some(),
        first_of_kind(g.components@, k) == first_of_kind(g.components@, k),
        has_kind(g.components@, k) ==> first_of_kind(g.components@, k) == Some(
            g.components@[kind_index(g.components@, k)],
        ),
{
    lemma_kind_index_spec(g.components@, k);
}

/// Clone fidelity law: between two stores whose slots are pairwise equal in
/// content — as an entity and its clone are — the lists selected by any
/// kind have equal length and are pairwise equal in content.
pub proof fn lemma_clone_fidelity(a: Seq<Component>, b: Seq<Component>, k: ComponentKind)
    requires
        b.len() == a.len(),
        forall|i: int|
            0 <= i < a.len() ==> (#[trigger] b[i]).like(&a[i]) && b[i].kind() == a[i].kind(),
    ensures
        of_kind(b, k).len() == of_kind(a, k).len(),
        forall|i: int|
            0 <= i < of_kind(a, k).len() ==> (#[trigger] of_kind(b, k)[i]).like(&of_kind(a, k)[i]),
    decreases a.len(),
{
    if a.len() > 0 {
        assert forall|i: int| 0 <= i < a.drop_last().len() implies (#[trigger] b.drop_last()[i])
            .like(&a.drop_last()[i]) && b.drop_last()[i].kind() == a.drop_last()[i].kind() by {
            assert(a.drop_last()[i] == a[i]);
            assert(b.drop_last()[i] == b[i]);
        }
        lemma_clone_fidelity(a.drop_last(), b.drop_last(), k);
        assert(a.last() == a[a.len() - 1]);
        assert(b.last() == b[b.len() - 1]);
        assert(b.last().kind() == a.last().kind());
    }
}

/// Every element selected by kind carries that kind.
pub proof fn lemma_of_kind_kinds(s: Seq<Component>, k: ComponentKind)
    ensures
        forall|j: int| 0 <= j < of_kind(s, k).len() ==> (#[trigger] of_kind(s, k)[j]).kind() == k,
    decreases s.len(),
{
    if s.len() > 0 {
        lemma_of_kind_kinds(s.drop_last(), k);
    }
}

} // verus!
