//! The concrete component kinds an entity can carry, as one tagged variant
//! type, together with their per-frame update rules.
//!
//! Every component knows how to clone itself exactly; cloning an entity
//! value-copies each component, which the bridge to the scripting virtual
//! machine relies on every frame.

use crate::math::Vec2;
use vstd::prelude::*;

verus! {

/// The kind tag of a component, the key of every store lookup.
#[derive(Clone, Copy, PartialEq, Eq, Structural, Debug)]
pub enum ComponentKind {
    Transform,
    Rigidbody,
    Sprite,
    Text,
    Scene,
    Animator,
    Behaviour,
    Sfx,
}

/// Transform component: where an entity stands, how it is scaled and turned.
#[derive(PartialEq, Debug)]
pub struct Transform {
    pub parent: String,
    pub position: Vec2,
    pub pivot: Vec2,
    pub scale: Vec2,
    /// Orientation in fixed-point angle units; carried for the renderer and
    /// the scripting bridge, not interpreted by the collision pass (see
    /// `rb_aabb`).
    pub rotation: i64,
}

/// Rigidbody component: the collision body of an entity.
#[derive(PartialEq, Debug)]
pub struct Rigidbody {
    pub position: Vec2,
    pub parent: String,
    pub pivot: Vec2,
    pub scale: Vec2,
    pub rotation: i64,
    /// Extents of the collider, before scaling.
    pub bounds: Vec2,
    pub velocity: Vec2,
    /// Identity of the entity currently collided with, if any.
    pub colliding: Option<crate::gameobject::GameObjectId>,
    /// When false, `colliding` is still populated but collisions never
    /// correct this body's position.
    pub solid: bool,
}

/// Sprite component: which cell of which texture an entity shows.
#[derive(PartialEq, Debug)]
pub struct Sprite {
    pub parent: String,
    /// Size of the whole sprite sheet, in pixels.
    pub base_size: (u32, u32),
    /// Cell position the sheet was cut at.
    pub index_cut: (i32, i32),
    /// Number of columns and rows the sheet is cut into; always at least one
    /// of each.
    pub size: (u32, u32),
    /// Current cell position on the sheet, in pixels.
    pub index: (i32, i32),
    /// Texture asset id.
    pub texture_id: String,
    pub sort: u32,
    pub sort_dirty: bool,
}

/// Text component: a line of text rasterized through a font asset.
#[derive(PartialEq, Debug)]
pub struct Text {
    pub parent: String,
    pub text: String,
    pub font_size: u32,
    pub font: String,
    /// Texture asset id the rasterized line is uploaded under.
    pub texture_id: String,
    pub changed: bool,
    pub sort: u32,
    pub sort_dirty: bool,
}

/// A named point of interest placed in a scene.
#[derive(PartialEq, Debug)]
pub struct Marker {
    pub position: Vec2,
    pub name: String,
}

/// A tile placed in a scene layer.
#[derive(PartialEq, Debug)]
pub struct Tile {
    pub sheet: String,
    pub sheet_id: (u32, u32),
    pub position: Vec2,
}

/// One layer of a scene: tiles keyed by their cell, and whether the layer
/// takes part in collision.
#[derive(PartialEq, Debug)]
pub struct Layer {
    pub tiles: Vec<((i32, i32), Tile)>,
    pub visible: bool,
    pub collision: bool,
    pub tile_sheet: String,
    pub current_tile_item: i32,
}

/// A tile sheet a scene draws from.
#[derive(PartialEq, Debug)]
pub struct TileSheet {
    pub filename: String,
    pub path: String,
    pub absolute_path: String,
    pub tile_size: (u32, u32),
    pub sheet_size: (u32, u32),
}

/// The authored content of a scene, as loaded from the asset table.
#[derive(PartialEq, Debug)]
pub struct SceneData {
    pub name: String,
    pub path: String,
    pub tile_sheets: Vec<TileSheet>,
    pub layers: Vec<Layer>,
    pub markers: Vec<Marker>,
}

/// Scene component: a static tile map, its markers, and the rigid bodies its
/// collision layers contribute.
#[derive(PartialEq, Debug)]
pub struct Scene {
    pub parent: String,
    pub file: String,
    pub tiles: Vec<Vec<Sprite>>,
    pub markers: Vec<Marker>,
    pub transforms: Vec<Vec<Transform>>,
    pub rigidbodies: Vec<Rigidbody>,
}

/// Animator component: named sprite-sheet states and a playing head.
///
/// `current_frame` counts micro-frames: one displayed frame is
/// `FRAME_SCALE` micro-frames, so a fractional head survives integer ticks.
#[derive(PartialEq, Debug)]
pub struct Animator {
    pub parent: String,
    /// State name to (frame count, sheet row).
    pub states: Vec<(String, (i32, i32))>,
    pub current_state: String,
    /// Head position in micro-frames.
    pub current_frame: i64,
    /// Playback speed in micro-frames per microsecond tick.
    pub speed: i64,
    pub playing: bool,
}

/// Behaviour component: binds the owning entity to a named script class.
#[derive(PartialEq, Debug)]
pub struct ComponentBehaviour {
    pub parent: String,
    /// Name of the script class to dispatch against.
    pub component: String,
    pub uuid: String,
}

/// Sfx component: a triggerable sound effect.
#[derive(PartialEq, Debug)]
pub struct Sfx {
    pub name: String,
    pub parent: String,
    pub file: String,
    pub play_state: bool,
    pub volume: i64,
    pub channel: Option<i32>,
}

/// A component value: one of the concrete kinds.
#[derive(PartialEq, Debug)]
pub enum Component {
    Transform(Transform),
    Rigidbody(Rigidbody),
    Sprite(Sprite),
    Text(Text),
    Scene(Scene),
    Animator(Animator),
    Behaviour(ComponentBehaviour),
    Sfx(Sfx),
}

impl Component {
    /// The kind tag of this component value.
    pub open spec fn kind(&self) -> ComponentKind {
        match self {
            Component::Transform(_) => ComponentKind::Transform,
            Component::Rigidbody(_) => ComponentKind::Rigidbody,
            Component::Sprite(_) => ComponentKind::Sprite,
            Component::Text(_) => ComponentKind::Text,
            Component::Scene(_) => ComponentKind::Scene,
            Component::Animator(_) => ComponentKind::Animator,
            Component::Behaviour(_) => ComponentKind::Behaviour,
            Component::Sfx(_) => ComponentKind::Sfx,
        }
    }

    /// The kind tag, computed.
    pub fn kind_of(&self) -> (k: ComponentKind)
        ensures
            k == self.kind(),
    {
        match self {
            Component::Transform(_) => ComponentKind::Transform,
            Component::Rigidbody(_) => ComponentKind::Rigidbody,
            Component::Sprite(_) => ComponentKind::Sprite,
            Component::Text(_) => ComponentKind::Text,
            Component::Scene(_) => ComponentKind::Scene,
            Component::Animator(_) => ComponentKind::Animator,
            Component::Behaviour(_) => ComponentKind::Behaviour,
            Component::Sfx(_) => ComponentKind::Sfx,
        }
    }
}

impl Clone for Transform {
    /// An exact copy.
    fn clone(&self) -> (r: Self)
        ensures
            r == *self,
    {
        Transform {
            parent: self.parent.clone(),
            position: self.position,
            pivot: self.pivot,
            scale: self.scale,
            rotation: self.rotation,
        }
    }
}

impl Clone for Rigidbody {
    /// An exact copy.
    fn clone(&self) -> (r: Self)
        ensures
            r == *self,
    {
        Rigidbody {
            position: self.position,
            parent: self.parent.clone(),
            pivot: self.pivot,
            scale: self.scale,
            rotation: self.rotation,
            bounds: self.bounds,
            velocity: self.velocity,
            colliding: match &self.colliding {
                Some(id) => Some(id.clone()),
                None => None,
            },
            solid: self.solid,
        }
    }
}

impl Clone for Sprite {
    /// An exact copy.
    fn clone(&self) -> (r: Self)
        ensures
            r == *self,
    {
        Sprite {
            parent: self.parent.clone(),
            base_size: self.base_size,
            index_cut: self.index_cut,
            size: self.size,
            index: self.index,
            texture_id: self.texture_id.clone(),
            sort: self.sort,
            sort_dirty: self.sort_dirty,
        }
    }
}

impl Clone for Text {
    /// An exact copy.
    fn clone(&self) -> (r: Self)
        ensures
            r == *self,
    {
        Text {
            parent: self.parent.clone(),
            text: self.text.clone(),
            font_size: self.font_size,
            font: self.font.clone(),
            texture_id: self.texture_id.clone(),
            changed: self.changed,
            sort: self.sort,
            sort_dirty: self.sort_dirty,
        }
    }
}

impl Clone for Marker {
    /// An exact copy.
    fn clone(&self) -> (r: Self)
        ensures
            r == *self,
    {
        Marker { position: self.position, name: self.name.clone() }
    }
}

impl Clone for Tile {
    /// An exact copy.
    fn clone(&self) -> (r: Self)
        ensures
            r == *self,
    {
        Tile { sheet: self.sheet.clone(), sheet_id: self.sheet_id, position: self.position }
    }
}

impl Layer {
    /// Content equality: every field equal, the tile list compared element
    /// by element.
    pub open spec fn like(&self, o: &Layer) -> bool {
        &&& self.tiles@ == o.tiles@
        &&& self.visible == o.visible
        &&& self.collision == o.collision
        &&& self.tile_sheet == o.tile_sheet
        &&& self.current_tile_item == o.current_tile_item
    }
}

impl Clone for Layer {
    /// A copy equal in content.
    fn clone(&self) -> (r: Self)
        ensures
            r.like(self),
    {
        let mut tiles: Vec<((i32, i32), Tile)> = Vec::new();
        let mut i: usize = 0;
        while i < self.tiles.len()
            invariant
                i <= self.tiles.len(),
                tiles@ =~= self.tiles@.take(i as int),
            decreases self.tiles.len() - i,
        {
            let entry = (self.tiles[i].0, self.tiles[i].1.clone());
            tiles.push(entry);
            i = i + 1;
        }
        proof {
            assert(tiles@ =~= self.tiles@);
        }
        Layer {
            tiles,
            visible: self.visible,
            collision: self.collision,
            tile_sheet: self.tile_sheet.clone(),
            current_tile_item: self.current_tile_item,
        }
    }
}

impl Clone for TileSheet {
    /// An exact copy.
    fn clone(&self) -> (r: Self)
        ensures
            r == *self,
    {
        TileSheet {
            filename: self.filename.clone(),
            path: self.path.clone(),
            absolute_path: self.absolute_path.clone(),
            tile_size: self.tile_size,
            sheet_size: self.sheet_size,
        }
    }
}

/// An exact copy of a vector whose elements clone exactly.
fn clone_markers(v: &Vec<Marker>) -> (r: Vec<Marker>)
    ensures
        r@ == v@,
{
    let mut r: Vec<Marker> = Vec::new();
    let mut i: usize = 0;
    while i < v.len()
        invariant
            i <= v.len(),
            r@ =~= v@.take(i as int),
        decreases v.len() - i,
    {
        r.push(v[i].clone());
        i = i + 1;
    }
    proof {
        assert(r@ =~= v@);
    }
    r
}

/// An exact copy of a vector whose elements clone exactly.
fn clone_tile_sheets(v: &Vec<TileSheet>) -> (r: Vec<TileSheet>)
    ensures
        r@ == v@,
{
    let mut r: Vec<TileSheet> = Vec::new();
    let mut i: usize = 0;
    while i < v.len()
        invariant
            i <= v.len(),
            r@ =~= v@.take(i as int),
        decreases v.len() - i,
    {
        r.push(v[i].clone());
        i = i + 1;
    }
    proof {
        assert(r@ =~= v@);
    }
    r
}

/// A copy of a layer list, equal in content element by element.
fn clone_layers(v: &Vec<Layer>) -> (r: Vec<Layer>)
    ensures
        r@.len() == v@.len(),
        forall|i: int| 0 <= i < v@.len() ==> (#[trigger] r@[i]).like(&v@[i]),
{
    let mut r: Vec<Layer> = Vec::new();
    let mut i: usize = 0;
    while i < v.len()
        invariant
            i <= v.len(),
            r@.len() == i,
            forall|j: int| 0 <= j < i ==> (#[trigger] r@[j]).like(&v@[j]),
        decreases v.len() - i,
    {
        r.push(v[i].clone());
        i = i + 1;
    }
    r
}

/// An exact copy of a vector whose elements clone exactly.
pub fn clone_rigidbodies(v: &Vec<Rigidbody>) -> (r: Vec<Rigidbody>)
    ensures
        r@ == v@,
{
    let mut r: Vec<Rigidbody> = Vec::new();
    let mut i: usize = 0;
    while i < v.len()
        invariant
            i <= v.len(),
            r@ =~= v@.take(i as int),
        decreases v.len() - i,
    {
        r.push(v[i].clone());
        i = i + 1;
    }
    proof {
        assert(r@ =~= v@);
    }
    r
}

/// An exact copy of a vector whose elements clone exactly.
fn clone_sprites(v: &Vec<Sprite>) -> (r: Vec<Sprite>)
    ensures
        r@ == v@,
{
    let mut r: Vec<Sprite> = Vec::new();
    let mut i: usize = 0;
    while i < v.len()
        invariant
            i <= v.len(),
            r@ =~= v@.take(i as int),
        decreases v.len() - i,
    {
        r.push(v[i].clone());
        i = i + 1;
    }
    proof {
        assert(r@ =~= v@);
    }
    r
}

/// An exact copy of a vector whose elements clone exactly.
fn clone_transforms(v: &Vec<Transform>) -> (r: Vec<Transform>)
    ensures
        r@ == v@,
{
    let mut r: Vec<Transform> = Vec::new();
    let mut i: usize = 0;
    while i < v.len()
        invariant
            i <= v.len(),
            r@ =~= v@.take(i as int),
        decreases v.len() - i,
    {
        r.push(v[i].clone());
        i = i + 1;
    }
    proof {
        assert(r@ =~= v@);
    }
    r
}

impl SceneData {
    /// Content equality: every field equal, the layer list compared layer by
    /// layer.
    pub open spec fn like(&self, o: &SceneData) -> bool {
        &&& self.name == o.name
        &&& self.path == o.path
        &&& self.tile_sheets@ == o.tile_sheets@
        &&& self.layers@.len() == o.layers@.len()
        &&& forall|i: int| 0 <= i < self.layers@.len() ==> (#[trigger] self.layers@[i]).like(&o.layers@[i])
        &&& self.markers@ == o.markers@
    }
}

impl Clone for SceneData {
    /// A copy equal in content.
    fn clone(&self) -> (r: Self)
        ensures
            r.like(self),
    {
        SceneData {
            name: self.name.clone(),
            path: self.path.clone(),
            tile_sheets: clone_tile_sheets(&self.tile_sheets),
            layers: clone_layers(&self.layers),
            markers: clone_markers(&self.markers),
        }
    }
}

impl Scene {
    /// Content equality: every field equal, the nested tile and transform
    /// lists compared row by row.
    pub open spec fn like(&self, o: &Scene) -> bool {
        &&& self.parent == o.parent
        &&& self.file == o.file
        &&& self.tiles@.len() == o.tiles@.len()
        &&& forall|i: int| 0 <= i < self.tiles@.len() ==> (#[trigger] self.tiles@[i])@ == o.tiles@[i]@
        &&& self.markers@ == o.markers@
        &&& self.transforms@.len() == o.transforms@.len()
        &&& forall|i: int|
            0 <= i < self.transforms@.len() ==> (#[trigger] self.transforms@[i])@ == o.transforms@[i]@
        &&& self.rigidbodies@ == o.rigidbodies@
    }
}

impl Clone for Scene {
    /// A copy equal in content.
    fn clone(&self) -> (r: Self)
        ensures
            r.like(self),
    {
        let mut tiles: Vec<Vec<Sprite>> = Vec::new();
        let mut i: usize = 0;
        while i < self.tiles.len()
            invariant
                i <= self.tiles.len(),
                tiles@.len() == i,
                forall|k: int| 0 <= k < i ==> (#[trigger] tiles@[k])@ == self.tiles@[k]@,
            decreases self.tiles.len() - i,
        {
            tiles.push(clone_sprites(&self.tiles[i]));
            i = i + 1;
        }
        let mut transforms: Vec<Vec<Transform>> = Vec::new();
        let mut j: usize = 0;
        while j < self.transforms.len()
            invariant
                j <= self.transforms.len(),
                transforms@.len() == j,
                forall|k: int| 0 <= k < j ==> (#[trigger] transforms@[k])@ == self.transforms@[k]@,
            decreases self.transforms.len() - j,
        {
            transforms.push(clone_transforms(&self.transforms[j]));
            j = j + 1;
        }
        Scene {
            parent: self.parent.clone(),
            file: self.file.clone(),
            tiles,
            markers: clone_markers(&self.markers),
            transforms,
            rigidbodies: clone_rigidbodies(&self.rigidbodies),
        }
    }
}

impl Animator {
    /// Content equality: every field equal, the state table compared entry
    /// by entry.
    pub open spec fn like(&self, o: &Animator) -> bool {
        &&& self.parent == o.parent
        &&& self.states@ == o.states@
        &&& self.current_state == o.current_state
        &&& self.current_frame == o.current_frame
        &&& self.speed == o.speed
        &&& self.playing == o.playing
    }
}

impl Clone for Animator {
    /// A copy equal in content.
    fn clone(&self) -> (r: Self)
        ensures
            r.like(self),
    {
        let mut states: Vec<(String, (i32, i32))> = Vec::new();
        let mut i: usize = 0;
        while i < self.states.len()
            invariant
                i <= self.states.len(),
                states@ =~= self.states@.take(i as int),
            decreases self.states.len() - i,
        {
            let entry = (self.states[i].0.clone(), self.states[i].1);
            states.push(entry);
            i = i + 1;
        }
        proof {
            assert(states@ =~= self.states@);
        }
        Animator {
            parent: self.parent.clone(),
            states,
            current_state: self.current_state.clone(),
            current_frame: self.current_frame,
            speed: self.speed,
            playing: self.playing,
        }
    }
}

impl Clone for ComponentBehaviour {
    /// An exact copy.
    fn clone(&self) -> (r: Self)
        ensures
            r == *self,
    {
        ComponentBehaviour {
            parent: self.parent.clone(),
            component: self.component.clone(),
            uuid: self.uuid.clone(),
        }
    }
}

impl Clone for Sfx {
    /// An exact copy.
    fn clone(&self) -> (r: Self)
        ensures
            r == *self,
    {
        Sfx {
            name: self.name.clone(),
            parent: self.parent.clone(),
            file: self.file.clone(),
            play_state: self.play_state,
            volume: self.volume,
            channel: self.channel,
        }
    }
}

impl Component {
    /// Content equality of two component values: the same kind, holding
    /// equal data. Plain equality except for the kinds that own nested
    /// vectors, which are compared element by element.
    pub open spec fn like(&self, o: &Component) -> bool {
        match (self, o) {
            (Component::Transform(a), Component::Transform(b)) => a == b,
            (Component::Rigidbody(a), Component::Rigidbody(b)) => a == b,
            (Component::Sprite(a), Component::Sprite(b)) => a == b,
            (Component::Text(a), Component::Text(b)) => a == b,
            (Component::Scene(a), Component::Scene(b)) => a.like(b),
            (Component::Animator(a), Component::Animator(b)) => a.like(b),
            (Component::Behaviour(a), Component::Behaviour(b)) => a == b,
            (Component::Sfx(a), Component::Sfx(b)) => a == b,
            _ => false,
        }
    }
}

/// A texture asset entry: its string id and its pixel size. The pixel data
/// itself stays with the renderer outside this crate.
#[derive(PartialEq, Debug)]
pub struct TextureAsset {
    pub id: String,
    pub size: (u32, u32),
}

impl Clone for TextureAsset {
    /// An exact copy.
    fn clone(&self) -> (r: Self)
        ensures
            r == *self,
    {
        TextureAsset { id: self.id.clone(), size: self.size }
    }
}

/// A scene asset entry: its string id and the authored scene content.
#[derive(PartialEq, Debug)]
pub struct SceneAsset {
    pub id: String,
    pub data: SceneData,
}

/// The size of the texture under the given id, if the table holds it;
/// searched from position `i` on, first match winning.
pub open spec fn texture_size_from(s: Seq<TextureAsset>, id: Seq<char>, i: int) -> Option<
    (u32, u32),
>
    decreases s.len() - i,
{
    if i < 0 || i >= s.len() {
        None
    } else if s[i].id@ == id {
        Some(s[i].size)
    } else {
        texture_size_from(s, id, i + 1)
    }
}

/// The size of the texture under the given id, if the table holds it.
pub open spec fn texture_size_of(s: Seq<TextureAsset>, id: Seq<char>) -> Option<(u32, u32)> {
    texture_size_from(s, id, 0)
}

/// Looks the texture id up in the asset table, first match winning.
pub fn find_texture_size(textures: &Vec<TextureAsset>, id: &String) -> (r: Option<(u32, u32)>)
    ensures
        r == texture_size_of(textures@, id@),
{
    let mut i: usize = 0;
    while i < textures.len()
        invariant
            i <= textures.len(),
            texture_size_of(textures@, id@) == texture_size_from(textures@, id@, i as int),
        decreases textures.len() - i,
    {
        if textures[i].id == *id {
            return Some(textures[i].size);
        }
        i = i + 1;
    }
    None
}

/// Whether the id table holds the given id, searched from position `i` on.
pub open spec fn id_present_from(s: Seq<String>, id: Seq<char>, i: int) -> bool
    decreases s.len() - i,
{
    if i < 0 || i >= s.len() {
        false
    } else if s[i]@ == id {
        true
    } else {
        id_present_from(s, id, i + 1)
    }
}

/// Whether the id table holds the given id.
pub open spec fn id_present(s: Seq<String>, id: Seq<char>) -> bool {
    id_present_from(s, id, 0)
}

/// Looks an id up in a plain id table.
pub fn find_id(ids: &Vec<String>, id: &String) -> (r: bool)
    ensures
        r == id_present(ids@, id@),
{
    let mut i: usize = 0;
    while i < ids.len()
        invariant
            i <= ids.len(),
            id_present(ids@, id@) == id_present_from(ids@, id@, i as int),
        decreases ids.len() - i,
    {
        if ids[i] == *id {
            return true;
        }
        i = i + 1;
    }
    false
}

impl Sfx {
    /// A fresh sound-effect component for the given file, not yet playing,
    /// at full volume.
    pub fn new(name: String, file: String) -> (r: Self)
        ensures
            r.name == name,
            r.parent@ == Seq::<char>::empty(),
            r.file == file,
            !r.play_state,
            r.volume == 128,
            r.channel.is_none(),
    {
        Sfx {
            parent: String::new(),
            name,
            file,
            play_state: false,
            volume: 128,
            channel: None,
        }
    }

    /// Arms the effect: it is played and disarmed by the next load pass.
    pub fn play(&mut self)
        ensures
            final(self).play_state,
            final(self).name == old(self).name,
            final(self).parent == old(self).parent,
            final(self).file == old(self).file,
            final(self).volume == old(self).volume,
            final(self).channel == old(self).channel,
    {
        self.play_state = true;
    }
}

impl Transform {
    /// A fresh transform at the given position, unscaled and unturned.
    pub fn new(pos: Vec2) -> (r: Self)
        ensures
            r.parent@ == Seq::<char>::empty(),
            r.position == pos,
            r.pivot == (Vec2 { x: 0, y: 0 }),
            r.rotation == 0,
            r.scale == (Vec2 { x: 1, y: 1 }),
    {
        Transform {
            parent: String::new(),
            position: pos,
            pivot: Vec2::zero(),
            rotation: 0,
            scale: Vec2::one(),
        }
    }

    /// The position relative to the parent; with no parent chain resolved,
    /// the position itself.
    pub fn relative_position(&self) -> (r: Vec2)
        ensures
            r == self.position,
    {
        self.position
    }

    /// The position mapped into screen coordinates: offset by the camera,
    /// with the vertical axis flipped against the screen height.
    pub fn world_to_screen_position(&self, camera: &Vec2, screen_y: i64) -> (r: Vec2)
        requires
            crate::math::vec_small(self.position),
            crate::math::vec_small(*camera),
            -1000000000 <= screen_y <= 1000000000,
        ensures
            r.x == self.position.x - camera.x,
            r.y == -self.position.y + screen_y - camera.y,
    {
        Vec2 { x: self.position.x - camera.x, y: (-self.position.y + screen_y) - camera.y }
    }

    /// The pivot expressed as a fraction of the given size, scaled: the
    /// quotient is taken in integer units.
    pub fn get_pivot(&self, size: &Vec2) -> (r: Vec2)
        requires
            0 <= self.pivot.x <= 1000000000,
            0 <= self.pivot.y <= 1000000000,
            1 <= size.x,
            1 <= size.y,
            0 <= self.scale.x <= 1000000000,
            0 <= self.scale.y <= 1000000000,
        ensures
            r.x == (self.pivot.x / size.x) * self.scale.x,
            r.y == (self.pivot.y / size.y) * self.scale.y,
    {
        proof {
            crate::math::lemma_product_bound(
                (self.pivot.x / size.x) as int,
                self.scale.x as int,
                1000000000,
            );
            crate::math::lemma_product_bound(
                (self.pivot.y / size.y) as int,
                self.scale.y as int,
                1000000000,
            );
        }
        Vec2 { x: (self.pivot.x / size.x) * self.scale.x, y: (self.pivot.y / size.y) * self.scale.y }
    }
}

/// The coordinates, velocity and step length let the position be integrated
/// one frame without leaving the simulated coordinate range.
pub open spec fn integrate_ok(pos: int, vel: int, dt: int) -> bool {
    &&& 0 <= dt <= 32768
    &&& -1048576 <= vel <= 1048576
    &&& -262144 <= pos <= 262144
    &&& -262144 <= pos + vel * dt <= 262144
}

impl Rigidbody {
    /// A fresh solid body at the given position, at rest, with unit extents.
    pub fn new(pos: Vec2) -> (r: Self)
        ensures
            r.parent@ == Seq::<char>::empty(),
            r.bounds == (Vec2 { x: 1, y: 1 }),
            r.pivot == (Vec2 { x: 0, y: 0 }),
            r.velocity == (Vec2 { x: 0, y: 0 }),
            r.rotation == 0,
            r.position == pos,
            r.scale == (Vec2 { x: 1, y: 1 }),
            r.colliding.is_none(),
            r.solid,
    {
        Rigidbody {
            parent: String::new(),
            bounds: Vec2::one(),
            pivot: Vec2::zero(),
            velocity: Vec2::zero(),
            rotation: 0,
            position: pos,
            scale: Vec2::one(),
            colliding: None,
            solid: true,
        }
    }

    /// A fresh solid body at the origin.
    pub fn new_without_pos() -> (r: Self)
        ensures
            r.parent@ == Seq::<char>::empty(),
            r.bounds == (Vec2 { x: 1, y: 1 }),
            r.pivot == (Vec2 { x: 0, y: 0 }),
            r.velocity == (Vec2 { x: 0, y: 0 }),
            r.rotation == 0,
            r.position == (Vec2 { x: 0, y: 0 }),
            r.scale == (Vec2 { x: 1, y: 1 }),
            r.colliding.is_none(),
            r.solid,
    {
        Rigidbody {
            parent: String::new(),
            bounds: Vec2::one(),
            pivot: Vec2::zero(),
            velocity: Vec2::zero(),
            scale: Vec2::one(),
            rotation: 0,
            position: Vec2::zero(),
            colliding: None,
            solid: true,
        }
    }

    /// Integrates the horizontal velocity into the position over `dt`.
    pub fn update_vel_x(&mut self, dt: i64)
        requires
            integrate_ok(old(self).position.x as int, old(self).velocity.x as int, dt as int),
        ensures
            final(self).position.x == old(self).position.x + old(self).velocity.x * dt,
            final(self).position.y == old(self).position.y,
            unchanged_but_position(old(self), final(self)),
    {
        proof {
            crate::math::lemma_product_bound(self.velocity.x as int, dt as int, 1048576);
        }
        self.position.x = self.position.x + self.velocity.x * dt;
    }

    /// Integrates the vertical velocity into the position over `dt`.
    pub fn update_vel_y(&mut self, dt: i64)
        requires
            integrate_ok(old(self).position.y as int, old(self).velocity.y as int, dt as int),
        ensures
            final(self).position.y == old(self).position.y + old(self).velocity.y * dt,
            final(self).position.x == old(self).position.x,
            unchanged_but_position(old(self), final(self)),
    {
        proof {
            crate::math::lemma_product_bound(self.velocity.y as int, dt as int, 1048576);
        }
        self.position.y = self.position.y + self.velocity.y * dt;
    }

    /// Undoes one horizontal integration step: the correction applied when a
    /// collision against a solid body is resolved.
    pub fn update_correct_x(&mut self, dt: i64)
        requires
            integrate_ok(
                old(self).position.x - old(self).velocity.x * dt,
                old(self).velocity.x as int,
                dt as int,
            ),
        ensures
            final(self).position.x == old(self).position.x - old(self).velocity.x * dt,
            final(self).position.y == old(self).position.y,
            unchanged_but_position(old(self), final(self)),
    {
        proof {
            crate::math::lemma_product_bound(self.velocity.x as int, dt as int, 1048576);
        }
        self.position.x = self.position.x - self.velocity.x * dt;
    }

    /// Undoes one vertical integration step.
    pub fn update_correct_y(&mut self, dt: i64)
        requires
            integrate_ok(
                old(self).position.y - old(self).velocity.y * dt,
                old(self).velocity.y as int,
                dt as int,
            ),
        ensures
            final(self).position.y == old(self).position.y - old(self).velocity.y * dt,
            final(self).position.x == old(self).position.x,
            unchanged_but_position(old(self), final(self)),
    {
        proof {
            crate::math::lemma_product_bound(self.velocity.y as int, dt as int, 1048576);
        }
        self.position.y = self.position.y - self.velocity.y * dt;
    }

    /// Simple axis-aligned interval test: the two bodies' extent rectangles,
    /// anchored at position less pivot, touch or overlap on both axes.
    pub fn check_collision_aabb(&self, other: &Rigidbody) -> (r: bool)
        requires
            rb_extent_ok(*self),
            rb_extent_ok(*other),
        ensures
            r == aabb_hit(*self, *other),
    {
        let left_a = self.position.x - self.pivot.x;
        let left_b = other.position.x - other.pivot.x;
        let right_a = left_a + self.bounds.x * self.scale.x;
        let right_b = left_b + other.bounds.x * other.scale.x;
        let top_a = self.position.y - self.pivot.y;
        let top_b = other.position.y - other.pivot.y;
        let bottom_a = top_a + self.bounds.y * self.scale.y;
        let bottom_b = top_b + other.bounds.y * other.scale.y;
        bottom_a >= top_b && top_a <= bottom_b && right_a >= left_b && left_a <= right_b
    }
}

/// Every field of the body except the position is unchanged.
pub open spec fn unchanged_but_position(a: &Rigidbody, b: &Rigidbody) -> bool {
    &&& b.parent == a.parent
    &&& b.pivot == a.pivot
    &&& b.scale == a.scale
    &&& b.rotation == a.rotation
    &&& b.bounds == a.bounds
    &&& b.velocity == a.velocity
    &&& b.colliding == a.colliding
    &&& b.solid == a.solid
}

/// The body's position, pivot and scaled extents lie in the range where the
/// interval tests are free of overflow.
pub open spec fn rb_extent_ok(rb: Rigidbody) -> bool {
    &&& -262144 <= rb.position.x - rb.pivot.x <= 262144
    &&& -262144 <= rb.position.y - rb.pivot.y <= 262144
    &&& 0 <= rb.bounds.x * rb.scale.x <= 262144
    &&& 0 <= rb.bounds.y * rb.scale.y <= 262144
}

/// The axis-aligned interval test of `check_collision_aabb`, written out.
pub open spec fn aabb_hit(a: Rigidbody, b: Rigidbody) -> bool {
    let left_a = a.position.x - a.pivot.x;
    let left_b = b.position.x - b.pivot.x;
    let right_a = left_a + a.bounds.x * a.scale.x;
    let right_b = left_b + b.bounds.x * b.scale.x;
    let top_a = a.position.y - a.pivot.y;
    let top_b = b.position.y - b.pivot.y;
    let bottom_a = top_a + a.bounds.y * a.scale.y;
    let bottom_b = top_b + b.bounds.y * b.scale.y;
    bottom_a >= top_b && top_a <= bottom_b && right_a >= left_b && left_a <= right_b
}

/// Scaled width of the body's collider.
pub open spec fn rb_w(rb: Rigidbody) -> int {
    rb.bounds.x * rb.scale.x
}

/// Scaled height of the body's collider.
pub open spec fn rb_h(rb: Rigidbody) -> int {
    rb.bounds.y * rb.scale.y
}

/// Horizontal centre of the body's collider.
pub open spec fn rb_cx(rb: Rigidbody) -> int {
    rb.position.x + rb.pivot.x
}

/// Vertical centre of the body's collider.
pub open spec fn rb_cy(rb: Rigidbody) -> int {
    rb.position.y + rb.pivot.y
}

/// The body's collider lies in the range the separating-axis test admits:
/// positive scaled extents and a centre within the simulated range.
pub open spec fn rb_rect_ok(rb: Rigidbody) -> bool {
    &&& 1 <= rb_w(rb) <= 262144
    &&& 1 <= rb_h(rb) <= 262144
    &&& -262144 <= rb_cx(rb) <= 262144
    &&& -262144 <= rb_cy(rb) <= 262144
}

/// The corner sequence of the body's collision rectangle, in the winding
/// order the test expects. Colliders are axis-aligned by design in this
/// integer model: an orientation angle has no exact integer corners, so
/// `rotation` is carried for the renderer and the bridge but never turns
/// the collider. A host that wants oriented collision can build the four
/// corners itself — from its own sine and cosine — and run
/// `Rect::intersects` directly, which accepts any convex quadrilateral.
pub open spec fn rb_aabb(rb: Rigidbody) -> Seq<Vec2> {
    let l = rb_cx(rb) - rb_w(rb) / 2;
    let b = rb_cy(rb) - rb_h(rb) / 2;
    let r = l + rb_w(rb);
    let t = b + rb_h(rb);
    seq![
        Vec2 { x: l as i64, y: t as i64 },
        Vec2 { x: r as i64, y: t as i64 },
        Vec2 { x: r as i64, y: b as i64 },
        Vec2 { x: l as i64, y: b as i64 },
    ]
}

impl Rigidbody {
    /// Separating-axis collision test between the two bodies' collision
    /// rectangles: whether they overlap, and the minimum translation data
    /// when they do.
    pub fn check_collision_sat(&self, other: &Rigidbody) -> (res: (bool, crate::math::Mtv))
        requires
            rb_rect_ok(*self),
            rb_rect_ok(*other),
        ensures
            res.0 == crate::math::sat_overlaps(rb_aabb(*self), rb_aabb(*other)),
            res.0 ==> crate::math::is_min_mtv(rb_aabb(*self), rb_aabb(*other), res.1),
            !res.0 ==> res.1 == crate::math::zero_mtv(),
    {
        let w1 = self.bounds.x * self.scale.x;
        let h1 = self.bounds.y * self.scale.y;
        let cx1 = self.position.x + self.pivot.x;
        let cy1 = self.position.y + self.pivot.y;
        let w2 = other.bounds.x * other.scale.x;
        let h2 = other.bounds.y * other.scale.y;
        let cx2 = other.position.x + other.pivot.x;
        let cy2 = other.position.y + other.pivot.y;
        let r1 = crate::math::Rect::from_extents(cx1, cy1, w1, h1);
        let r2 = crate::math::Rect::from_extents(cx2, cy2, w2, h2);
        proof {
            assert(r1@ =~= rb_aabb(*self));
            assert(r2@ =~= rb_aabb(*other));
        }
        r1.intersects(&r2)
    }
}

/// Collision symmetry law for bodies: the separating-axis test over two
/// bodies' collision rectangles reports the same overlap flag whichever
/// body runs it.
pub proof fn lemma_body_collision_symmetry(a: Rigidbody, b: Rigidbody)
    ensures
        crate::math::sat_overlaps(rb_aabb(a), rb_aabb(b)) == crate::math::sat_overlaps(
            rb_aabb(b),
            rb_aabb(a),
        ),
{
    crate::math::lemma_sat_symmetric(rb_aabb(a), rb_aabb(b));
}

impl Sprite {
    /// A fresh sprite over the named texture, uncut, drawn first.
    pub fn new(t_id: &str) -> (r: Self)
        ensures
            r.parent@ == Seq::<char>::empty(),
            r.size == (1u32, 1u32),
            r.base_size == (1u32, 1u32),
            r.index_cut == (0i32, 0i32),
            r.index == (0i32, 0i32),
            r.texture_id@ == t_id@,
            r.sort == 0,
            r.sort_dirty,
    {
        Sprite {
            parent: String::new(),
            size: (1, 1),
            base_size: (1, 1),
            index_cut: (0, 0),
            index: (0, 0),
            texture_id: t_id.to_owned(),
            sort: 0,
            sort_dirty: true,
        }
    }

    /// Moves the sprite to another draw layer and marks the order dirty.
    pub fn set_sort(&mut self, s: u32)
        ensures
            final(self).sort == s,
            final(self).sort_dirty,
            sprite_unchanged_but_sort(old(self), final(self)),
    {
        self.sort_dirty = true;
        self.sort = s;
    }

    pub fn get_sort(&self) -> (r: u32)
        ensures
            r == self.sort,
    {
        self.sort
    }

    /// Reads and clears the dirty flag on the draw order.
    pub fn check_dirty(&mut self) -> (r: bool)
        ensures
            r == old(self).sort_dirty,
            !final(self).sort_dirty,
            final(self).sort == old(self).sort,
            sprite_unchanged_but_sort(old(self), final(self)),
    {
        if self.sort_dirty {
            self.sort_dirty = false;
            true
        } else {
            false
        }
    }

    /// Pixel size of one cell of the sheet.
    pub fn get_size(&self) -> (r: (u32, u32))
        requires
            self.size.0 >= 1,
            self.size.1 >= 1,
        ensures
            r.0 == self.base_size.0 / self.size.0,
            r.1 == self.base_size.1 / self.size.1,
    {
        (self.base_size.0 / self.size.0, self.base_size.1 / self.size.1)
    }

    /// Cuts the sheet into `col` by `row` cells, starting at the given cell.
    pub fn cut_sprite_sheet(&mut self, ind: i32, ind2: i32, col: u32, row: u32)
        requires
            col >= 1,
            row >= 1,
        ensures
            final(self).size == (col, row),
            final(self).index_cut == (ind, ind2),
            final(self).index == (0i32, 0i32),
            final(self).parent == old(self).parent,
            final(self).base_size == old(self).base_size,
            final(self).texture_id == old(self).texture_id,
            final(self).sort == old(self).sort,
            final(self).sort_dirty == old(self).sort_dirty,
    {
        self.size = (col, row);
        self.index_cut = (ind, ind2);
        self.index = (0, 0);
    }

    /// Points the sprite at the cell `(ind, ind2)` of its sheet, in pixels.
    pub fn anim_sprite_sheet(&mut self, ind: i32, ind2: i32)
        requires
            old(self).size.0 >= 1,
            old(self).size.1 >= 1,
            old(self).base_size.0 <= 65535,
            old(self).base_size.1 <= 65535,
            0 <= ind <= 32767,
            0 <= ind2 <= 32767,
        ensures
            final(self).index.0 == ind * (old(self).base_size.0 / old(self).size.0),
            final(self).index.1 == ind2 * (old(self).base_size.1 / old(self).size.1),
            final(self).parent == old(self).parent,
            final(self).base_size == old(self).base_size,
            final(self).index_cut == old(self).index_cut,
            final(self).size == old(self).size,
            final(self).texture_id == old(self).texture_id,
            final(self).sort == old(self).sort,
            final(self).sort_dirty == old(self).sort_dirty,
    {
        let cw = self.base_size.0 / self.size.0;
        let ch = self.base_size.1 / self.size.1;
        proof {
            assert(0 <= cw <= 65535) by (nonlinear_arith)
                requires
                    cw == self.base_size.0 / self.size.0,
                    self.base_size.0 <= 65535,
                    self.size.0 >= 1,
            ;
            assert(0 <= ch <= 65535) by (nonlinear_arith)
                requires
                    ch == self.base_size.1 / self.size.1,
                    self.base_size.1 <= 65535,
                    self.size.1 >= 1,
            ;
            crate::math::lemma_product_bound2(ind as int, cw as int, 32767, 65535);
            crate::math::lemma_product_bound2(ind2 as int, ch as int, 32767, 65535);
        }
        self.index = (ind * (cw as i32), ind2 * (ch as i32));
    }

    /// Binds the sprite to its texture: takes the sheet size from the asset
    /// table, when the table holds the texture, and re-points the current
    /// cell at the cut position. The pixel upload itself happens outside.
    pub fn load(&mut self, textures: &Vec<TextureAsset>) -> (found: bool)
        requires
            old(self).size.0 >= 1,
            old(self).size.1 >= 1,
            old(self).base_size.0 <= 65535,
            old(self).base_size.1 <= 65535,
            0 <= old(self).index_cut.0 <= 32767,
            0 <= old(self).index_cut.1 <= 32767,
            forall|i: int|
                0 <= i < textures@.len() ==> (#[trigger] textures@[i]).size.0 <= 65535
                    && textures@[i].size.1 <= 65535,
        ensures
            found == texture_size_of(textures@, old(self).texture_id@).is_some(),
            *final(self) == sprite_loaded(*old(self), textures@),
            final(self).base_size == (match texture_size_of(textures@, old(self).texture_id@) {
                Some(s) => s,
                None => old(self).base_size,
            }),
            final(self).index.0 == old(self).index_cut.0 * (final(self).base_size.0 / old(
                self,
            ).size.0),
            final(self).index.1 == old(self).index_cut.1 * (final(self).base_size.1 / old(
                self,
            ).size.1),
            final(self).parent == old(self).parent,
            final(self).index_cut == old(self).index_cut,
            final(self).size == old(self).size,
            final(self).texture_id == old(self).texture_id,
            final(self).sort == old(self).sort,
            final(self).sort_dirty == old(self).sort_dirty,
    {
        let found = match find_texture_size(textures, &self.texture_id) {
            Some(s) => {
                proof {
                    lemma_texture_size_found(textures@, self.texture_id@, s);
                }
                self.base_size = s;
                true
            },
            None => false,
        };
        let ic = self.index_cut;
        self.anim_sprite_sheet(ic.0, ic.1);
        found
    }
}

/// The sprite after its load pass: the sheet size taken from the texture
/// table when the table holds the texture, and the current cell re-pointed
/// at the cut position.
pub open spec fn sprite_loaded(sp: Sprite, textures: Seq<TextureAsset>) -> Sprite {
    let bs = match texture_size_of(textures, sp.texture_id@) {
        Some(s) => s,
        None => sp.base_size,
    };
    Sprite {
        parent: sp.parent,
        base_size: bs,
        index_cut: sp.index_cut,
        size: sp.size,
        index: (
            (sp.index_cut.0 * (bs.0 / sp.size.0) as i32) as i32,
            (sp.index_cut.1 * (bs.1 / sp.size.1) as i32) as i32,
        ),
        texture_id: sp.texture_id,
        sort: sp.sort,
        sort_dirty: sp.sort_dirty,
    }
}

/// A found texture size respects the size bounds that hold of every table
/// entry.
pub proof fn lemma_texture_size_found(s: Seq<TextureAsset>, id: Seq<char>, sz: (u32, u32))
    requires
        texture_size_of(s, id) == Some::<(u32, u32)>(sz),
        forall|i: int|
            0 <= i < s.len() ==> (#[trigger] s[i]).size.0 <= 65535 && s[i].size.1 <= 65535,
    ensures
        sz.0 <= 65535,
        sz.1 <= 65535,
{
    lemma_texture_size_found_from(s, id, 0, sz);
}

proof fn lemma_texture_size_found_from(s: Seq<TextureAsset>, id: Seq<char>, i: int, sz: (u32, u32))
    requires
        texture_size_from(s, id, i) == Some::<(u32, u32)>(sz),
        forall|j: int|
            0 <= j < s.len() ==> (#[trigger] s[j]).size.0 <= 65535 && s[j].size.1 <= 65535,
    ensures
        sz.0 <= 65535,
        sz.1 <= 65535,
    decreases s.len() - i,
{
    if i < 0 || i >= s.len() {
    } else if s[i].id@ == id {
    } else {
        lemma_texture_size_found_from(s, id, i + 1, sz);
    }
}

/// Every sprite field except the sort fields is unchanged.
pub open spec fn sprite_unchanged_but_sort(a: &Sprite, b: &Sprite) -> bool {
    &&& b.parent == a.parent
    &&& b.base_size == a.base_size
    &&& b.index_cut == a.index_cut
    &&& b.size == a.size
    &&& b.index == a.index
    &&& b.texture_id == a.texture_id
}

impl Text {
    /// A fresh text component over the given font, marked changed so the
    /// first load pass rasterizes it. The texture id is freshly generated.
    pub fn new(t: &str, font: &str) -> (r: Self)
        ensures
            r.parent@ == Seq::<char>::empty(),
            r.text@ == t@,
            r.font_size == 24,
            r.font@ == font@,
            r.changed,
            r.sort == 1000,
            r.sort_dirty,
    {
        Text {
            parent: String::new(),
            text: t.to_owned(),
            font_size: 24,
            font: font.to_owned(),
            texture_id: crate::gameobject::new_uuid(),
            changed: true,
            sort: 1000,
            sort_dirty: true,
        }
    }

    /// Moves the text to another draw layer and marks the order dirty.
    pub fn set_sort(&mut self, s: u32)
        ensures
            final(self).sort == s,
            final(self).sort_dirty,
            text_unchanged_but_state(old(self), final(self)),
            final(self).changed == old(self).changed,
    {
        self.sort_dirty = true;
        self.sort = s;
    }

    pub fn get_sort(&self) -> (r: u32)
        ensures
            r == self.sort,
    {
        self.sort
    }

    pub fn get_text(&self) -> (r: &String)
        ensures
            r == &self.text,
    {
        &self.text
    }

    /// Replaces the text and marks it for re-rasterization.
    pub fn set_text(&mut self, t: &str)
        ensures
            final(self).text@ == t@,
            final(self).changed,
            final(self).font == old(self).font,
            final(self).font_size == old(self).font_size,
            final(self).parent == old(self).parent,
            final(self).texture_id == old(self).texture_id,
            final(self).sort == old(self).sort,
            final(self).sort_dirty == old(self).sort_dirty,
    {
        self.text = t.to_owned();
        self.changed = true;
    }

    pub fn get_font(&self) -> (r: &String)
        ensures
            r == &self.font,
    {
        &self.font
    }

    /// Switches the font and marks the text for re-rasterization.
    pub fn set_font(&mut self, t: &str)
        ensures
            final(self).font@ == t@,
            final(self).changed,
            final(self).text == old(self).text,
            final(self).font_size == old(self).font_size,
            final(self).parent == old(self).parent,
            final(self).texture_id == old(self).texture_id,
            final(self).sort == old(self).sort,
            final(self).sort_dirty == old(self).sort_dirty,
    {
        self.font = t.to_owned();
        self.changed = true;
    }

    pub fn get_font_size(&self) -> (r: u32)
        ensures
            r == self.font_size,
    {
        self.font_size
    }

    /// Changes the font size and marks the text for re-rasterization.
    pub fn set_font_size(&mut self, s: u32)
        ensures
            final(self).font_size == s,
            final(self).changed,
            final(self).text == old(self).text,
            final(self).font == old(self).font,
            final(self).parent == old(self).parent,
            final(self).texture_id == old(self).texture_id,
            final(self).sort == old(self).sort,
            final(self).sort_dirty == old(self).sort_dirty,
    {
        self.font_size = s;
        self.changed = true;
    }

    /// The load pass of the text: clears the draw-order dirty flag,
    /// reporting it, and when the text changed and its font is loaded, asks
    /// for its texture to be rasterized anew. The rasterizing itself happens
    /// outside; here only the request is decided.
    pub fn load(&mut self, fonts: &Vec<String>) -> (r: (bool, Option<String>))
        ensures
            r.0 == old(self).sort_dirty,
            !final(self).sort_dirty,
            !final(self).changed,
            r.1 == (if old(self).changed && id_present(fonts@, old(self).font@) {
                Some(old(self).texture_id)
            } else {
                None::<String>
            }),
            final(self).text == old(self).text,
            final(self).font == old(self).font,
            final(self).font_size == old(self).font_size,
            final(self).parent == old(self).parent,
            final(self).texture_id == old(self).texture_id,
            final(self).sort == old(self).sort,
    {
        let was_dirty = if self.sort_dirty {
            self.sort_dirty = false;
            true
        } else {
            false
        };
        let request = if self.changed {
            self.changed = false;
            if find_id(fonts, &self.font) {
                Some(self.texture_id.clone())
            } else {
                None
            }
        } else {
            None
        };
        (was_dirty, request)
    }
}

/// Every text field except `changed`, `sort` and `sort_dirty` is unchanged.
pub open spec fn text_unchanged_but_state(a: &Text, b: &Text) -> bool {
    &&& b.parent == a.parent
    &&& b.text == a.text
    &&& b.font_size == a.font_size
    &&& b.font == a.font
    &&& b.texture_id == a.texture_id
}

/// One displayed frame of an animator, in micro-frames.
pub const FRAME_SCALE: i64 = 1000000;

/// The state table entry under the given name, searched from position `i`
/// on, first match winning.
pub open spec fn state_lookup_from(
    s: Seq<(String, (i32, i32))>,
    key: Seq<char>,
    i: int,
) -> Option<(i32, i32)>
    decreases s.len() - i,
{
    if i < 0 || i >= s.len() {
        None
    } else if s[i].0@ == key {
        Some(s[i].1)
    } else {
        state_lookup_from(s, key, i + 1)
    }
}

/// The state table entry under the given name, if any.
pub open spec fn state_lookup(s: Seq<(String, (i32, i32))>, key: Seq<char>) -> Option<(i32, i32)> {
    state_lookup_from(s, key, 0)
}

/// The position of the first state table entry under the given name,
/// searched from position `i` on; the table length when there is none.
pub open spec fn state_index_from(s: Seq<(String, (i32, i32))>, key: Seq<char>, i: int) -> int
    decreases s.len() - i,
{
    if i < 0 || i >= s.len() {
        s.len() as int
    } else if s[i].0@ == key {
        i
    } else {
        state_index_from(s, key, i + 1)
    }
}

/// The position of the first state table entry under the given name; the
/// table length when there is none.
pub open spec fn state_index(s: Seq<(String, (i32, i32))>, key: Seq<char>) -> int {
    state_index_from(s, key, 0)
}

/// The animator's playing head is live: it is playing and points at a named
/// state.
pub open spec fn anim_active(a: Animator) -> bool {
    a.playing && a.current_state@ != "None"@
}

/// The frame limit of the animator's current state, in micro-frames.
pub open spec fn anim_limit(a: Animator) -> int {
    match state_lookup(a.states@, a.current_state@) {
        Some(p) => p.0 as int * (FRAME_SCALE as int),
        None => 0,
    }
}

/// Where the playing head stands after one tick of `dt`: wrapped to zero
/// when past the state's frame limit, advanced by `dt * speed` micro-frames,
/// and wrapped again.
pub open spec fn anim_step(a: Animator, dt: int) -> int {
    if anim_active(a) {
        let limit = anim_limit(a);
        let base: int = if a.current_frame > limit {
            0
        } else {
            a.current_frame as int
        };
        let next = base + dt * a.speed;
        if next > limit {
            0
        } else {
            next
        }
    } else {
        a.current_frame as int
    }
}

/// The animator's numeric fields lie in the range one tick keeps free of
/// overflow, and a live head always points at an existing state.
pub open spec fn anim_ok(a: Animator, dt: int) -> bool {
    &&& 0 <= dt <= 32768
    &&& 0 <= a.speed <= 1000000
    &&& 0 <= a.current_frame <= 4000000000000000
    &&& anim_active(a) ==> state_lookup(a.states@, a.current_state@).is_some()
}

impl Animator {
    /// A fresh animator with no states, stopped, at standard speed.
    pub fn new() -> (r: Self)
        ensures
            r.parent@ == Seq::<char>::empty(),
            r.states@.len() == 0,
            r.current_state@ == "None"@,
            r.current_frame == 0,
            r.speed == 10,
            !r.playing,
    {
        Animator {
            parent: String::new(),
            states: Vec::new(),
            current_state: "None".to_owned(),
            current_frame: 0,
            speed: 10,
            playing: false,
        }
    }

    /// Adds or replaces the state named `key` with frame count `i` on sheet
    /// row `j`.
    pub fn insert_state(&mut self, key: &str, i: i32, j: i32)
        ensures
            ({
                let s = old(self).states@;
                let ix = state_index(s, key@);
                &&& (ix < s.len() ==> {
                    &&& final(self).states@.len() == s.len()
                    &&& final(self).states@[ix].0@ == key@
                    &&& final(self).states@[ix].1 == (i, j)
                    &&& forall|m: int|
                        0 <= m < s.len() && m != ix ==> final(self).states@[m] == s[m]
                })
                &&& (ix == s.len() ==> {
                    &&& final(self).states@.len() == s.len() + 1
                    &&& final(self).states@[ix].0@ == key@
                    &&& final(self).states@[ix].1 == (i, j)
                    &&& forall|m: int| 0 <= m < s.len() ==> final(self).states@[m] == s[m]
                })
            }),
            final(self).parent == old(self).parent,
            final(self).current_state == old(self).current_state,
            final(self).current_frame == old(self).current_frame,
            final(self).speed == old(self).speed,
            final(self).playing == old(self).playing,
    {
        let key_owned = key.to_owned();
        let mut ix: usize = 0;
        while ix < self.states.len()
            invariant
                ix <= self.states.len(),
                key_owned@ == key@,
                *self == *old(self),
                state_index(self.states@, key@) == state_index_from(self.states@, key@, ix as int),
            decreases self.states.len() - ix,
        {
            if self.states[ix].0 == key_owned {
                let entry = (self.states[ix].0.clone(), (i, j));
                self.states.set(ix, entry);
                return ;
            }
            ix = ix + 1;
        }
        self.states.push((key_owned, (i, j)));
    }

    /// Builder form of `insert_state`.
    pub fn with(self, key: &str, i: i32, j: i32) -> (r: Animator)
        ensures
            ({
                let s = self.states@;
                let ix = state_index(s, key@);
                &&& (ix < s.len() ==> {
                    &&& r.states@.len() == s.len()
                    &&& r.states@[ix].0@ == key@
                    &&& r.states@[ix].1 == (i, j)
                    &&& forall|m: int| 0 <= m < s.len() && m != ix ==> r.states@[m] == s[m]
                })
                &&& (ix == s.len() ==> {
                    &&& r.states@.len() == s.len() + 1
                    &&& r.states@[ix].0@ == key@
                    &&& r.states@[ix].1 == (i, j)
                    &&& forall|m: int| 0 <= m < s.len() ==> r.states@[m] == s[m]
                })
            }),
            r.parent == self.parent,
            r.current_state == self.current_state,
            r.current_frame == self.current_frame,
            r.speed == self.speed,
            r.playing == self.playing,
    {
        let mut a = self;
        a.insert_state(key, i, j);
        a
    }

    /// Builder: sets the playback speed.
    pub fn at_speed(self, s: i64) -> (r: Animator)
        ensures
            r.speed == s,
            r.parent == self.parent,
            r.states@ == self.states@,
            r.current_state == self.current_state,
            r.current_frame == self.current_frame,
            r.playing == self.playing,
    {
        let mut a = self;
        a.speed = s;
        a
    }

    /// Builder: places the playing head.
    pub fn at_frame(self, s: i64) -> (r: Animator)
        ensures
            r.current_frame == s,
            r.parent == self.parent,
            r.states@ == self.states@,
            r.current_state == self.current_state,
            r.speed == self.speed,
            r.playing == self.playing,
    {
        let mut a = self;
        a.current_frame = s;
        a
    }

    /// Builder: selects the starting state, when it exists.
    pub fn start_with(self, key: &str) -> (r: Animator)
        ensures
            r.current_state@ == (if state_lookup(self.states@, key@).is_some() {
                key@
            } else {
                self.current_state@
            }),
            r.parent == self.parent,
            r.states@ == self.states@,
            r.current_frame == self.current_frame,
            r.speed == self.speed,
            r.playing == self.playing,
    {
        let mut a = self;
        a.set_state(key);
        a
    }

    /// Builder: finishes the animator already playing.
    pub fn build_playing(self) -> (r: Animator)
        ensures
            r.playing,
            r.parent == self.parent,
            r.states@ == self.states@,
            r.current_state == self.current_state,
            r.current_frame == self.current_frame,
            r.speed == self.speed,
    {
        let mut a = self;
        a.playing = true;
        a
    }

    /// Builder: finishes the animator as it stands.
    pub fn build(self) -> (r: Animator)
        ensures
            r == self,
    {
        self
    }

    /// Starts playback.
    pub fn play(&mut self)
        ensures
            final(self).playing,
            anim_unchanged_but_playing(old(self), final(self)),
    {
        self.playing = true;
    }

    /// Stops playback.
    pub fn stop(&mut self)
        ensures
            !final(self).playing,
            anim_unchanged_but_playing(old(self), final(self)),
    {
        self.playing = false;
    }

    /// Selects the named state, when it exists; otherwise nothing changes.
    pub fn set_state(&mut self, st: &str)
        ensures
            final(self).current_state@ == (if state_lookup(old(self).states@, st@).is_some() {
                st@
            } else {
                old(self).current_state@
            }),
            final(self).parent == old(self).parent,
            final(self).states@ == old(self).states@,
            final(self).current_frame == old(self).current_frame,
            final(self).speed == old(self).speed,
            final(self).playing == old(self).playing,
    {
        let key = st.to_owned();
        let mut ix: usize = 0;
        while ix < self.states.len()
            invariant
                ix <= self.states.len(),
                key@ == st@,
                *self == *old(self),
                state_lookup(self.states@, st@) == state_lookup_from(self.states@, st@, ix as int),
            decreases self.states.len() - ix,
        {
            if self.states[ix].0 == key {
                self.current_state = key;
                return ;
            }
            ix = ix + 1;
        }
    }

    pub fn get_state(&self) -> (r: &String)
        ensures
            r == &self.current_state,
    {
        &self.current_state
    }

    /// One tick of the playing head: advance by `dt * speed` micro-frames,
    /// wrapping to zero past the current state's frame limit.
    pub fn update(&mut self, dt: i64)
        requires
            anim_ok(*old(self), dt as int),
        ensures
            final(self).current_frame == anim_step(*old(self), dt as int),
            final(self).parent == old(self).parent,
            final(self).states == old(self).states,
            final(self).current_state == old(self).current_state,
            final(self).speed == old(self).speed,
            final(self).playing == old(self).playing,
    {
        let none_name = "None".to_owned();
        if self.playing && !(self.current_state == none_name) {
            let limit = match self.lookup_state(&self.current_state) {
                Some(p) => {
                    proof {
                        crate::math::lemma_product_bound2(p.0 as int, FRAME_SCALE as int, 2147483648, 1000000);
                    }
                    (p.0 as i64) * FRAME_SCALE
                },
                None => 0,  // unreachable under anim_ok
            };
            if self.current_frame > limit {
                self.current_frame = 0;
            }
            proof {
                crate::math::lemma_product_bound2(dt as int, self.speed as int, 32768, 1000000);
            }
            self.current_frame = self.current_frame + dt * self.speed;
            if self.current_frame > limit {
                self.current_frame = 0;
            }
        }
    }

    /// The state table entry under the given name, first match winning.
    pub fn lookup_state(&self, key: &String) -> (r: Option<(i32, i32)>)
        ensures
            r == state_lookup(self.states@, key@),
    {
        let mut ix: usize = 0;
        while ix < self.states.len()
            invariant
                ix <= self.states.len(),
                state_lookup(self.states@, key@) == state_lookup_from(
                    self.states@,
                    key@,
                    ix as int,
                ),
            decreases self.states.len() - ix,
        {
            if self.states[ix].0 == *key {
                return Some(self.states[ix].1);
            }
            ix = ix + 1;
        }
        None
    }

    /// Points the sprite at the cell the playing head stands on.
    pub fn update_sprite(&self, sprite: &mut Sprite)
        requires
            old(sprite).size.0 >= 1,
            old(sprite).size.1 >= 1,
            old(sprite).base_size.0 <= 65535,
            old(sprite).base_size.1 <= 65535,
            0 <= self.current_frame <= 32767 * (FRAME_SCALE as int),
            self.current_state@ != "None"@ ==> ({
                let p = state_lookup(self.states@, self.current_state@);
                p.is_some() && 0 <= p.unwrap().1 <= 32767
            }),
        ensures
            self.current_state@ != "None"@ ==> ({
                let p = state_lookup(self.states@, self.current_state@).unwrap();
                &&& final(sprite).index.0 == (self.current_frame / FRAME_SCALE) * (old(
                    sprite,
                ).base_size.0 / old(sprite).size.0)
                &&& final(sprite).index.1 == p.1 * (old(sprite).base_size.1 / old(sprite).size.1)
                &&& final(sprite).parent == old(sprite).parent
                &&& final(sprite).base_size == old(sprite).base_size
                &&& final(sprite).index_cut == old(sprite).index_cut
                &&& final(sprite).size == old(sprite).size
                &&& final(sprite).texture_id == old(sprite).texture_id
                &&& final(sprite).sort == old(sprite).sort
                &&& final(sprite).sort_dirty == old(sprite).sort_dirty
            }),
            self.current_state@ == "None"@ ==> *final(sprite) == *old(sprite),
    {
        let none_name = "None".to_owned();
        if !(self.current_state == none_name) {
            let p = match self.lookup_state(&self.current_state) {
                Some(p) => p,
                None => (0, 0),  // unreachable under the precondition
            };
            let frame = (self.current_frame / FRAME_SCALE) as i32;
            sprite.anim_sprite_sheet(frame, p.1);
        }
    }
}

/// Every animator field except the playing flag is unchanged.
pub open spec fn anim_unchanged_but_playing(a: &Animator, b: &Animator) -> bool {
    &&& b.parent == a.parent
    &&& b.states@ == a.states@
    &&& b.current_state == a.current_state
    &&& b.current_frame == a.current_frame
    &&& b.speed == a.speed
}

/// The position of the first tile sheet with the given path, searched from
/// position `i` on; the sheet-list length when there is none.
pub open spec fn sheet_find_from(sheets: Seq<TileSheet>, path: Seq<char>, i: int) -> int
    decreases sheets.len() - i,
{
    if i < 0 || i >= sheets.len() {
        sheets.len() as int
    } else if sheets[i].path@ == path {
        i
    } else {
        sheet_find_from(sheets, path, i + 1)
    }
}

/// The position of the first tile sheet with the given path; the sheet-list
/// length when there is none.
pub open spec fn sheet_find(sheets: Seq<TileSheet>, path: Seq<char>) -> int {
    sheet_find_from(sheets, path, 0)
}

/// The sheet a tile cuts from: the first sheet matching its path, or the
/// first sheet of the scene when none matches.
pub open spec fn tile_sheet_at(sheets: Seq<TileSheet>, path: Seq<char>) -> int {
    if sheet_find(sheets, path) < sheets.len() {
        sheet_find(sheets, path)
    } else {
        0int
    }
}

/// The position of the first scene asset under the given id, searched from
/// position `i` on; the table length when there is none.
pub open spec fn scene_find_from(s: Seq<SceneAsset>, id: Seq<char>, i: int) -> int
    decreases s.len() - i,
{
    if i < 0 || i >= s.len() {
        s.len() as int
    } else if s[i].id@ == id {
        i
    } else {
        scene_find_from(s, id, i + 1)
    }
}

/// The position of the first scene asset under the given id; the table
/// length when there is none.
pub open spec fn scene_find(s: Seq<SceneAsset>, id: Seq<char>) -> int {
    scene_find_from(s, id, 0)
}

/// Looks the sheet path up in the scene's sheet list; the list length when
/// there is none.
pub fn find_sheet(sheets: &Vec<TileSheet>, path: &String) -> (r: usize)
    ensures
        r as int == sheet_find(sheets@, path@),
{
    let mut i: usize = 0;
    while i < sheets.len()
        invariant
            i <= sheets.len(),
            sheet_find(sheets@, path@) == sheet_find_from(sheets@, path@, i as int),
        decreases sheets.len() - i,
    {
        if sheets[i].path == *path {
            return i;
        }
        i = i + 1;
    }
    sheets.len()
}

/// Looks the scene id up in the scene asset table; the table length when
/// there is none.
pub fn find_scene(scenes: &Vec<SceneAsset>, id: &String) -> (r: usize)
    ensures
        r as int == scene_find(scenes@, id@),
{
    let mut i: usize = 0;
    while i < scenes.len()
        invariant
            i <= scenes.len(),
            scene_find(scenes@, id@) == scene_find_from(scenes@, id@, i as int),
        decreases scenes.len() - i,
    {
        if scenes[i].id == *id {
            return i;
        }
        i = i + 1;
    }
    scenes.len()
}

/// Position and extents of the bodies one layer's tiles contribute, in tile
/// order.
pub open spec fn layer_bodies(tiles: Seq<((i32, i32), Tile)>, sheets: Seq<TileSheet>) -> Seq<
    (Vec2, Vec2),
>
    decreases tiles.len(),
{
    if tiles.len() == 0 {
        Seq::empty()
    } else {
        let t = tiles.last().1;
        let si = tile_sheet_at(sheets, t.sheet@);
        layer_bodies(tiles.drop_last(), sheets).push(
            (
                t.position,
                Vec2 {
                    x: sheets[si].tile_size.0 as i64,
                    y: sheets[si].tile_size.1 as i64,
                },
            ),
        )
    }
}

/// Position and extents of the bodies a scene's collision layers
/// contribute, layer by layer.
pub open spec fn scene_bodies(layers: Seq<Layer>, sheets: Seq<TileSheet>) -> Seq<(Vec2, Vec2)>
    decreases layers.len(),
{
    if layers.len() == 0 {
        Seq::empty()
    } else if layers.last().collision {
        scene_bodies(layers.drop_last(), sheets) + layer_bodies(layers.last().tiles@, sheets)
    } else {
        scene_bodies(layers.drop_last(), sheets)
    }
}

/// A scene body is a fresh solid resting body at the given position with
/// the given extents.
pub open spec fn body_matches(rb: Rigidbody, p: (Vec2, Vec2)) -> bool {
    &&& rb.position == p.0
    &&& rb.bounds == p.1
    &&& rb.parent@ == Seq::<char>::empty()
    &&& rb.pivot == (Vec2 { x: 0, y: 0 })
    &&& rb.scale == (Vec2 { x: 1, y: 1 })
    &&& rb.velocity == (Vec2 { x: 0, y: 0 })
    &&& rb.rotation == 0
    &&& rb.colliding.is_none()
    &&& rb.solid
}

/// The scene data is well formed enough to build tiles from: there is a
/// sheet to fall back on, every sheet's tile size is positive and fits its
/// sheet size, sizes stay within pixel range, and every tile's cell lies in
/// range.
pub open spec fn scene_data_wf(d: &SceneData) -> bool {
    &&& d.tile_sheets@.len() >= 1
    &&& d.layers@.len() < 4294967296
    &&& forall|i: int|
        0 <= i < d.tile_sheets@.len() ==> {
            let sh = #[trigger] d.tile_sheets@[i];
            &&& 1 <= sh.tile_size.0 <= sh.sheet_size.0 <= 65535
            &&& 1 <= sh.tile_size.1 <= sh.sheet_size.1 <= 65535
        }
    &&& forall|li: int, ti: int|
        0 <= li < d.layers@.len() && 0 <= ti < d.layers@[li].tiles@.len() ==> {
            let t = (#[trigger] d.layers@[li].tiles@[ti]).1;
            t.sheet_id.0 <= 32767 && t.sheet_id.1 <= 32767
        }
}

/// The sprite built for a tile: cut from the matching sheet, sorted into
/// its layer, sized from the texture table.
pub open spec fn tile_sprite_ok(
    sp: Sprite,
    t: Tile,
    sheets: Seq<TileSheet>,
    textures: Seq<TextureAsset>,
    li: int,
) -> bool {
    let fi = sheet_find(sheets, t.sheet@);
    let si = tile_sheet_at(sheets, t.sheet@);
    let tex: Seq<char> = if fi < sheets.len() {
        sheets[fi].absolute_path@
    } else {
        Seq::empty()
    };
    let bs = match texture_size_of(textures, tex) {
        Some(s) => s,
        None => (1u32, 1u32),
    };
    &&& sp.texture_id@ == tex
    &&& sp.size.0 == sheets[si].sheet_size.0 / sheets[si].tile_size.0
    &&& sp.size.1 == sheets[si].sheet_size.1 / sheets[si].tile_size.1
    &&& sp.index_cut.0 == t.sheet_id.0
    &&& sp.index_cut.1 == t.sheet_id.1
    &&& sp.base_size == bs
    &&& sp.index.0 == sp.index_cut.0 * (bs.0 as int / sp.size.0 as int)
    &&& sp.index.1 == sp.index_cut.1 * (bs.1 as int / sp.size.1 as int)
    &&& sp.sort == li
    &&& sp.sort_dirty
    &&& sp.parent@ == Seq::<char>::empty()
}

/// The transform built for a tile: at the tile's position, fresh otherwise.
pub open spec fn tile_trans_ok(tr: Transform, t: Tile) -> bool {
    &&& tr.position == t.position
    &&& tr.parent@ == Seq::<char>::empty()
    &&& tr.pivot == (Vec2 { x: 0, y: 0 })
    &&& tr.scale == (Vec2 { x: 1, y: 1 })
    &&& tr.rotation == 0
}

/// One built layer row: a sprite and a transform per tile, each as the
/// tile prescribes.
pub open spec fn layer_rows_ok(
    tiles_row: Seq<Sprite>,
    trans_row: Seq<Transform>,
    layer: Layer,
    sheets: Seq<TileSheet>,
    textures: Seq<TextureAsset>,
    li: int,
) -> bool {
    &&& tiles_row.len() == layer.tiles@.len()
    &&& trans_row.len() == layer.tiles@.len()
    &&& forall|ti: int|
        0 <= ti < layer.tiles@.len() ==> tile_sprite_ok(
            tiles_row[ti],
            (#[trigger] layer.tiles@[ti]).1,
            sheets,
            textures,
            li,
        ) && tile_trans_ok(trans_row[ti], layer.tiles@[ti].1)
}

/// The built scene `nsc` is what loading `osc` against the given tables
/// yields: markers copied, one sprite and transform row per layer, and the
/// collision layers' bodies in order.
pub open spec fn scene_loaded(
    osc: Scene,
    nsc: Scene,
    textures: Seq<TextureAsset>,
    scenes: Seq<SceneAsset>,
) -> bool {
    let data = scenes[scene_find(scenes, osc.file@)].data;
    &&& nsc.file == osc.file
    &&& nsc.parent == osc.parent
    &&& nsc.markers@ == data.markers@
    &&& nsc.tiles@.len() == data.layers@.len()
    &&& nsc.transforms@.len() == data.layers@.len()
    &&& forall|li: int|
        0 <= li < data.layers@.len() ==> layer_rows_ok(
            (#[trigger] nsc.tiles@[li])@,
            nsc.transforms@[li]@,
            data.layers@[li],
            data.tile_sheets@,
            textures,
            li,
        )
    &&& nsc.rigidbodies@.len() == scene_bodies(data.layers@, data.tile_sheets@).len()
    &&& forall|bi: int|
        0 <= bi < nsc.rigidbodies@.len() ==> body_matches(
            #[trigger] nsc.rigidbodies@[bi],
            scene_bodies(data.layers@, data.tile_sheets@)[bi],
        )
}

impl Scene {
    /// A fresh, empty scene over the named asset.
    pub fn new(file_name: String) -> (r: Self)
        ensures
            r.parent@ == Seq::<char>::empty(),
            r.file == file_name,
            r.tiles@.len() == 0,
            r.transforms@.len() == 0,
            r.rigidbodies@.len() == 0,
            r.markers@.len() == 0,
    {
        Scene {
            parent: String::new(),
            file: file_name,
            tiles: Vec::new(),
            transforms: Vec::new(),
            rigidbodies: Vec::new(),
            markers: Vec::new(),
        }
    }

    /// Builds the scene from its asset: one sprite and one transform per
    /// tile, layer by layer, and one solid body per tile of each collision
    /// layer, extents taken from the tile's sheet. The caller must know the
    /// scene asset is loaded: a missing asset is a content error.
    pub fn load(&mut self, textures: &Vec<TextureAsset>, scenes: &Vec<SceneAsset>)
        requires
            scene_find(scenes@, old(self).file@) < scenes@.len(),
            scene_data_wf(&scenes@[scene_find(scenes@, old(self).file@)].data),
            forall|i: int|
                0 <= i < textures@.len() ==> (#[trigger] textures@[i]).size.0 <= 65535
                    && textures@[i].size.1 <= 65535,
            old(self).tiles@.len() == 0,
            old(self).transforms@.len() == 0,
            old(self).rigidbodies@.len() == 0,
        ensures
            scene_loaded(*old(self), *final(self), textures@, scenes@),
    {
        let sx = find_scene(scenes, &self.file);
        let data = &scenes[sx].data;
        self.markers = clone_markers(&data.markers);
        let ghost layers = data.layers@;
        let ghost sheets = data.tile_sheets@;
        let mut li: usize = 0;
        while li < data.layers.len()
            invariant
                li <= data.layers.len(),
                data == &scenes@[scene_find(scenes@, old(self).file@)].data,
                scene_data_wf(data),
                layers == data.layers@,
                sheets == data.tile_sheets@,
                forall|i: int|
                    0 <= i < textures@.len() ==> (#[trigger] textures@[i]).size.0 <= 65535
                        && textures@[i].size.1 <= 65535,
                self.file == old(self).file,
                self.parent == old(self).parent,
                self.markers@ == data.markers@,
                self.tiles@.len() == li,
                self.transforms@.len() == li,
                forall|lj: int|
                    0 <= lj < li ==> layer_rows_ok(
                        (#[trigger] self.tiles@[lj])@,
                        self.transforms@[lj]@,
                        layers[lj],
                        sheets,
                        textures@,
                        lj,
                    ),
                self.rigidbodies@.len() == scene_bodies(layers.take(li as int), sheets).len(),
                forall|bi: int|
                    0 <= bi < self.rigidbodies@.len() ==> body_matches(
                        #[trigger] self.rigidbodies@[bi],
                        scene_bodies(layers.take(li as int), sheets)[bi],
                    ),
            decreases data.layers.len() - li,
        {
            let layer = &data.layers[li];
            let mut current_tiles: Vec<Sprite> = Vec::new();
            let mut current_trans: Vec<Transform> = Vec::new();
            let mut ti: usize = 0;
            while ti < layer.tiles.len()
                invariant
                    ti <= layer.tiles.len(),
                    li < layers.len(),
                    layer == &layers[li as int],
                    data == &scenes@[scene_find(scenes@, old(self).file@)].data,
                    scene_data_wf(data),
                    layers == data.layers@,
                    sheets == data.tile_sheets@,
                    forall|i: int|
                        0 <= i < textures@.len() ==> (#[trigger] textures@[i]).size.0 <= 65535
                            && textures@[i].size.1 <= 65535,
                    self.file == old(self).file,
                    self.parent == old(self).parent,
                    self.markers@ == data.markers@,
                    self.tiles@.len() == li,
                    self.transforms@.len() == li,
                    forall|lj: int|
                        0 <= lj < li ==> layer_rows_ok(
                            (#[trigger] self.tiles@[lj])@,
                            self.transforms@[lj]@,
                            layers[lj],
                            sheets,
                            textures@,
                            lj,
                        ),
                    current_tiles@.len() == ti,
                    current_trans@.len() == ti,
                    forall|tj: int|
                        0 <= tj < ti ==> tile_sprite_ok(
                            current_tiles@[tj],
                            (#[trigger] layers[li as int].tiles@[tj]).1,
                            sheets,
                            textures@,
                            li as int,
                        ) && tile_trans_ok(current_trans@[tj], layers[li as int].tiles@[tj].1),
                    self.rigidbodies@.len() == scene_bodies(layers.take(li as int), sheets).len()
                        + if layers[li as int].collision {
                        layer_bodies(layers[li as int].tiles@.take(ti as int), sheets).len()
                    } else {
                        0
                    },
                    forall|bi: int|
                        0 <= bi < self.rigidbodies@.len() ==> body_matches(
                            #[trigger] self.rigidbodies@[bi],
                            (scene_bodies(layers.take(li as int), sheets) + if layers[li as int].collision {
                                layer_bodies(layers[li as int].tiles@.take(ti as int), sheets)
                            } else {
                                Seq::empty()
                            })[bi],
                        ),
                decreases layer.tiles.len() - ti,
            {
                let t = &layer.tiles[ti].1;
                let fi = find_sheet(&data.tile_sheets, &t.sheet);
                let found = fi < data.tile_sheets.len();
                let si = if found {
                    fi
                } else {
                    0
                };
                let current_sheet = if found {
                    data.tile_sheets[fi].absolute_path.clone()
                } else {
                    String::new()
                };
                let mut new_tile = Sprite::new(current_sheet.as_str());
                let cols = data.tile_sheets[si].sheet_size.0 / data.tile_sheets[si].tile_size.0;
                let rows = data.tile_sheets[si].sheet_size.1 / data.tile_sheets[si].tile_size.1;
                proof {
                    assert(1 <= cols) by (nonlinear_arith)
                        requires
                            cols == data.tile_sheets@[si as int].sheet_size.0 / data.tile_sheets@[si as int].tile_size.0,
                            1 <= data.tile_sheets@[si as int].tile_size.0 <= data.tile_sheets@[si as int].sheet_size.0,
                    ;
                    assert(1 <= rows) by (nonlinear_arith)
                        requires
                            rows == data.tile_sheets@[si as int].sheet_size.1 / data.tile_sheets@[si as int].tile_size.1,
                            1 <= data.tile_sheets@[si as int].tile_size.1 <= data.tile_sheets@[si as int].sheet_size.1,
                    ;
                }
                new_tile.cut_sprite_sheet(
                    t.sheet_id.0 as i32,
                    t.sheet_id.1 as i32,
                    cols,
                    rows,
                );
                new_tile.sort = li as u32;
                new_tile.load(textures);
                proof {
                    assert((#[trigger] layers[li as int].tiles@[ti as int]).1.sheet_id.0
                        <= 32767);
                    assert(layers[li as int].tiles@[ti as int].1.sheet_id.1 <= 32767);
                    assert(tile_sprite_ok(
                        new_tile,
                        layers[li as int].tiles@[ti as int].1,
                        sheets,
                        textures@,
                        li as int,
                    ));
                }
                current_tiles.push(new_tile);
                current_trans.push(Transform::new(t.position));
                if layer.collision {
                    let mut r = Rigidbody::new(t.position);
                    r.bounds = Vec2 {
                        x: data.tile_sheets[si].tile_size.0 as i64,
                        y: data.tile_sheets[si].tile_size.1 as i64,
                    };
                    self.rigidbodies.push(r);
                }
                proof {
                    let tls = layers[li as int].tiles@;
                    assert(tls.take(ti as int + 1).drop_last() =~= tls.take(ti as int));
                    assert(tls.take(ti as int + 1).last() == tls[ti as int]);
                }
                ti = ti + 1;
            }
            self.tiles.push(current_tiles);
            self.transforms.push(current_trans);
            proof {
                assert(layers[li as int].tiles@.take(layers[li as int].tiles@.len() as int)
                    =~= layers[li as int].tiles@);
                assert(layers.take(li as int + 1).drop_last() =~= layers.take(li as int));
                assert(layers.take(li as int + 1).last() == layers[li as int]);
            }
            li = li + 1;
        }
        proof {
            assert(layers.take(layers.len() as int) =~= layers);
        }
    }
}

impl ComponentBehaviour {
    /// A fresh behaviour bound to the named script class, with a fresh
    /// unique id.
    pub fn new(s: String) -> (r: Self)
        ensures
            r.parent@ == Seq::<char>::empty(),
            r.component == s,
    {
        ComponentBehaviour {
            parent: String::new(),
            component: s,
            uuid: crate::gameobject::new_uuid(),
        }
    }

    /// The name of the script class this behaviour dispatches against.
    pub fn get_component(&self) -> (r: &String)
        ensures
            r == &self.component,
    {
        &self.component
    }
}

impl Rigidbody {
    /// Per-frame rule: the collider takes its extents from the sprite's
    /// cell size.
    pub fn tick_from_sprite(&mut self, d: &Sprite)
        requires
            d.size.0 >= 1,
            d.size.1 >= 1,
        ensures
            final(self).bounds.x == d.base_size.0 / d.size.0,
            final(self).bounds.y == d.base_size.1 / d.size.1,
            final(self).parent == old(self).parent,
            final(self).position == old(self).position,
            final(self).pivot == old(self).pivot,
            final(self).scale == old(self).scale,
            final(self).rotation == old(self).rotation,
            final(self).velocity == old(self).velocity,
            final(self).colliding == old(self).colliding,
            final(self).solid == old(self).solid,
    {
        let size = d.get_size();
        self.bounds = Vec2 { x: size.0 as i64, y: size.1 as i64 };
    }

    /// Per-frame rule: the collider takes scale and pivot from the
    /// transform.
    pub fn tick_from_transform(&mut self, d: &Transform)
        ensures
            final(self).scale == d.scale,
            final(self).pivot == d.pivot,
            final(self).parent == old(self).parent,
            final(self).position == old(self).position,
            final(self).rotation == old(self).rotation,
            final(self).bounds == old(self).bounds,
            final(self).velocity == old(self).velocity,
            final(self).colliding == old(self).colliding,
            final(self).solid == old(self).solid,
    {
        self.scale = d.scale;
        self.pivot = d.pivot;
    }
}

impl Transform {
    /// Per-frame rule: the transform follows the collider's position and
    /// orientation.
    pub fn tick_from_rigidbody(&mut self, d: &Rigidbody)
        ensures
            final(self).position == d.position,
            final(self).rotation == d.rotation,
            final(self).parent == old(self).parent,
            final(self).pivot == old(self).pivot,
            final(self).scale == old(self).scale,
    {
        self.position = d.position;
        self.rotation = d.rotation;
    }
}

impl Component {
    /// The transform held by this component, when it is one.
    pub fn as_transform(&self) -> (r: Option<&Transform>)
        ensures
            (match self {
                Component::Transform(c) => r == Some(c),
                _ => r.is_none(),
            }),
    {
        match self {
            Component::Transform(c) => Some(c),
            _ => None,
        }
    }

    /// The rigidbody held by this component, when it is one.
    pub fn as_rigidbody(&self) -> (r: Option<&Rigidbody>)
        ensures
            (match self {
                Component::Rigidbody(c) => r == Some(c),
                _ => r.is_none(),
            }),
    {
        match self {
            Component::Rigidbody(c) => Some(c),
            _ => None,
        }
    }

    /// The sprite held by this component, when it is one.
    pub fn as_sprite(&self) -> (r: Option<&Sprite>)
        ensures
            (match self {
                Component::Sprite(c) => r == Some(c),
                _ => r.is_none(),
            }),
    {
        match self {
            Component::Sprite(c) => Some(c),
            _ => None,
        }
    }

    /// The text held by this component, when it is one.
    pub fn as_text(&self) -> (r: Option<&Text>)
        ensures
            (match self {
                Component::Text(c) => r == Some(c),
                _ => r.is_none(),
            }),
    {
        match self {
            Component::Text(c) => Some(c),
            _ => None,
        }
    }

    /// The scene held by this component, when it is one.
    pub fn as_scene(&self) -> (r: Option<&Scene>)
        ensures
            (match self {
                Component::Scene(c) => r == Some(c),
                _ => r.is_none(),
            }),
    {
        match self {
            Component::Scene(c) => Some(c),
            _ => None,
        }
    }

    /// The animator held by this component, when it is one.
    pub fn as_animator(&self) -> (r: Option<&Animator>)
        ensures
            (match self {
                Component::Animator(c) => r == Some(c),
                _ => r.is_none(),
            }),
    {
        match self {
            Component::Animator(c) => Some(c),
            _ => None,
        }
    }

    /// The behaviour held by this component, when it is one.
    pub fn as_behaviour(&self) -> (r: Option<&ComponentBehaviour>)
        ensures
            (match self {
                Component::Behaviour(c) => r == Some(c),
                _ => r.is_none(),
            }),
    {
        match self {
            Component::Behaviour(c) => Some(c),
            _ => None,
        }
    }

    /// The sound effect held by this component, when it is one.
    pub fn as_sfx(&self) -> (r: Option<&Sfx>)
        ensures
            (match self {
                Component::Sfx(c) => r == Some(c),
                _ => r.is_none(),
            }),
    {
        match self {
            Component::Sfx(c) => Some(c),
            _ => None,
        }
    }
}

impl Clone for Component {
    /// A copy equal in content, whatever the kind: the polymorphic clone
    /// every entity copy relies on.
    fn clone(&self) -> (r: Self)
        ensures
            r.like(self),
            r.kind() == self.kind(),
    {
        match self {
            Component::Transform(c) => Component::Transform(c.clone()),
            Component::Rigidbody(c) => Component::Rigidbody(c.clone()),
            Component::Sprite(c) => Component::Sprite(c.clone()),
            Component::Text(c) => Component::Text(c.clone()),
            Component::Scene(c) => Component::Scene(c.clone()),
            Component::Animator(c) => Component::Animator(c.clone()),
            Component::Behaviour(c) => Component::Behaviour(c.clone()),
            Component::Sfx(c) => Component::Sfx(c.clone()),
        }
    }
}

} // verus!
