//! Key and mouse state: direct mappings from key codes and abstract named
//! bindings, as the host's event loop reports them.

use crate::math::Vec2;
use vstd::prelude::*;

verus! {

/// Pressed state of one key or button.
#[derive(Debug, Eq, Copy, Clone, PartialEq, Structural)]
pub struct InputInfo {
    /// Held down right now.
    pub pressed: bool,
    /// Went down this frame; cleared by the first query.
    pub pressed_down: bool,
}

/// An abstract axis binding: two key codes pulling in opposite directions.
#[derive(Debug, Eq, Copy, Clone, PartialEq, Structural)]
pub struct BindingInfo {
    /// Key for the +1 direction.
    pub positive: i32,
    /// Key for the -1 direction.
    pub negative: i32,
}

/// The position of the first mapping entry for the key, searched from `i`
/// on; the table length when there is none.
pub open spec fn map_index_from(s: Seq<(i32, InputInfo)>, key: i32, i: int) -> int
    decreases s.len() - i,
{
    if i < 0 || i >= s.len() {
        s.len() as int
    } else if s[i].0 == key {
        i
    } else {
        map_index_from(s, key, i + 1)
    }
}

/// The position of the first mapping entry for the key; the table length
/// when there is none.
pub open spec fn map_index(s: Seq<(i32, InputInfo)>, key: i32) -> int {
    map_index_from(s, key, 0)
}

/// The position of the first binding entry under the name, searched from
/// `i` on; the table length when there is none.
pub open spec fn bind_index_from(s: Seq<(String, BindingInfo)>, key: Seq<char>, i: int) -> int
    decreases s.len() - i,
{
    if i < 0 || i >= s.len() {
        s.len() as int
    } else if s[i].0@ == key {
        i
    } else {
        bind_index_from(s, key, i + 1)
    }
}

/// The position of the first binding entry under the name; the table length
/// when there is none.
pub open spec fn bind_index(s: Seq<(String, BindingInfo)>, key: Seq<char>) -> int {
    bind_index_from(s, key, 0)
}

/// The first mapping position lies within the table and holds the key, and
/// no earlier position does.
pub proof fn lemma_map_index_spec(s: Seq<(i32, InputInfo)>, key: i32)
    ensures
        0 <= map_index(s, key) <= s.len(),
        map_index(s, key) < s.len() ==> s[map_index(s, key)].0 == key,
{
    lemma_map_index_from_spec(s, key, 0);
}

proof fn lemma_map_index_from_spec(s: Seq<(i32, InputInfo)>, key: i32, i: int)
    requires
        0 <= i <= s.len(),
    ensures
        i <= map_index_from(s, key, i) <= s.len(),
        map_index_from(s, key, i) < s.len() ==> s[map_index_from(s, key, i)].0 == key,
    decreases s.len() - i,
{
    if i < s.len() && s[i].0 != key {
        lemma_map_index_from_spec(s, key, i + 1);
    }
}

/// The first binding position lies within the table and holds the name, and
/// no earlier position does.
pub proof fn lemma_bind_index_spec(s: Seq<(String, BindingInfo)>, key: Seq<char>)
    ensures
        0 <= bind_index(s, key) <= s.len(),
        bind_index(s, key) < s.len() ==> s[bind_index(s, key)].0@ == key,
{
    lemma_bind_index_from_spec(s, key, 0);
}

proof fn lemma_bind_index_from_spec(s: Seq<(String, BindingInfo)>, key: Seq<char>, i: int)
    requires
        0 <= i <= s.len(),
    ensures
        i <= bind_index_from(s, key, i) <= s.len(),
        bind_index_from(s, key, i) < s.len() ==> s[bind_index_from(s, key, i)].0@ == key,
    decreases s.len() - i,
{
    if i < s.len() && s[i].0@ != key {
        lemma_bind_index_from_spec(s, key, i + 1);
    }
}

/// The pressed state of a key in a mapping table: absent keys read as
/// released.
pub open spec fn key_pressed(s: Seq<(i32, InputInfo)>, key: i32) -> bool {
    map_index(s, key) < s.len() && s[map_index(s, key)].1.pressed
}

/// Direct key and mouse mappings, the pointer position, and the abstract
/// bindings. Key and button codes are the host's scan codes.
#[derive(Debug)]
pub struct Input {
    /// Key mappings, unique by code, first entry winning.
    pub mappings: Vec<(i32, InputInfo)>,
    /// Mouse button mappings, unique by code.
    pub mouse_mapping: Vec<(i32, InputInfo)>,
    /// Pointer position.
    pub mouse_pos: Vec2,
    /// Abstract named axis bindings.
    pub bindings: Vec<(String, BindingInfo)>,
}

impl Input {
    /// Fresh input state: nothing mapped, pointer at the origin.
    pub fn new() -> (r: Input)
        ensures
            r.mappings@.len() == 0,
            r.mouse_mapping@.len() == 0,
            r.mouse_pos == (Vec2 { x: 0, y: 0 }),
            r.bindings@.len() == 0,
    {
        Input {
            mappings: Vec::new(),
            mouse_mapping: Vec::new(),
            mouse_pos: Vec2::zero(),
            bindings: Vec::new(),
        }
    }

    /// Moves the pointer.
    pub fn update_mouse_pos(&mut self, pos: Vec2)
        ensures
            final(self).mouse_pos == pos,
            final(self).mappings@ == old(self).mappings@,
            final(self).mouse_mapping@ == old(self).mouse_mapping@,
            final(self).bindings@ == old(self).bindings@,
    {
        self.mouse_pos = pos;
    }

    /// Writes the key's state: the existing entry is replaced, a new key is
    /// appended.
    pub fn update_mapping(&mut self, key: i32, info: InputInfo)
        ensures
            ({
                let s = old(self).mappings@;
                let ix = map_index(s, key);
                if ix < s.len() {
                    final(self).mappings@ == s.update(ix, (key, info))
                } else {
                    final(self).mappings@ == s.push((key, info))
                }
            }),
            final(self).mouse_mapping@ == old(self).mouse_mapping@,
            final(self).mouse_pos == old(self).mouse_pos,
            final(self).bindings@ == old(self).bindings@,
    {
        let mut i: usize = 0;
        while i < self.mappings.len()
            invariant
                i <= self.mappings.len(),
                *self == *old(self),
                map_index(self.mappings@, key) == map_index_from(self.mappings@, key, i as int),
            decreases self.mappings.len() - i,
        {
            if self.mappings[i].0 == key {
                self.mappings.set(i, (key, info));
                return ;
            }
            i = i + 1;
        }
        self.mappings.push((key, info));
    }

    /// Writes a mouse button's state: the existing entry is replaced, a new
    /// button is appended.
    pub fn update_mouse(&mut self, key: i32, info: InputInfo)
        ensures
            ({
                let s = old(self).mouse_mapping@;
                let ix = map_index(s, key);
                if ix < s.len() {
                    final(self).mouse_mapping@ == s.update(ix, (key, info))
                } else {
                    final(self).mouse_mapping@ == s.push((key, info))
                }
            }),
            final(self).mappings@ == old(self).mappings@,
            final(self).mouse_pos == old(self).mouse_pos,
            final(self).bindings@ == old(self).bindings@,
    {
        let mut i: usize = 0;
        while i < self.mouse_mapping.len()
            invariant
                i <= self.mouse_mapping.len(),
                *self == *old(self),
                map_index(self.mouse_mapping@, key) == map_index_from(
                    self.mouse_mapping@,
                    key,
                    i as int,
                ),
            decreases self.mouse_mapping.len() - i,
        {
            if self.mouse_mapping[i].0 == key {
                self.mouse_mapping.set(i, (key, info));
                return ;
            }
            i = i + 1;
        }
        self.mouse_mapping.push((key, info));
    }

    /// Writes a named binding: the existing entry is replaced, a new name is
    /// appended.
    pub fn update_binding(&mut self, key: &str, info: BindingInfo)
        ensures
            ({
                let s = old(self).bindings@;
                let ix = bind_index(s, key@);
                if ix < s.len() {
                    &&& final(self).bindings@.len() == s.len()
                    &&& final(self).bindings@[ix].0@ == key@
                    &&& final(self).bindings@[ix].1 == info
                    &&& forall|m: int| 0 <= m < s.len() && m != ix ==> final(self).bindings@[m] == s[m]
                } else {
                    &&& final(self).bindings@.len() == s.len() + 1
                    &&& final(self).bindings@[ix].0@ == key@
                    &&& final(self).bindings@[ix].1 == info
                    &&& forall|m: int| 0 <= m < s.len() ==> final(self).bindings@[m] == s[m]
                }
            }),
            final(self).mappings@ == old(self).mappings@,
            final(self).mouse_mapping@ == old(self).mouse_mapping@,
            final(self).mouse_pos == old(self).mouse_pos,
    {
        let key_owned = key.to_owned();
        let mut i: usize = 0;
        while i < self.bindings.len()
            invariant
                i <= self.bindings.len(),
                key_owned@ == key@,
                *self == *old(self),
                bind_index(self.bindings@, key@) == bind_index_from(
                    self.bindings@,
                    key@,
                    i as int,
                ),
            decreases self.bindings.len() - i,
        {
            if self.bindings[i].0 == key_owned {
                self.bindings.set(i, (key_owned, info));
                return ;
            }
            i = i + 1;
        }
        self.bindings.push((key_owned, info));
    }

    /// The key's mapping entry, when one exists.
    pub fn get_mapping(&self, key: i32) -> (r: Option<InputInfo>)
        ensures
            map_index(self.mappings@, key) < self.mappings@.len() ==> r == Some(
                self.mappings@[map_index(self.mappings@, key)].1,
            ),
            map_index(self.mappings@, key) == self.mappings@.len() ==> r.is_none(),
    {
        let mut i: usize = 0;
        while i < self.mappings.len()
            invariant
                i <= self.mappings.len(),
                map_index(self.mappings@, key) == map_index_from(self.mappings@, key, i as int),
            decreases self.mappings.len() - i,
        {
            if self.mappings[i].0 == key {
                return Some(self.mappings[i].1);
            }
            i = i + 1;
        }
        None
    }

    /// The button's mouse mapping entry, when one exists.
    pub fn get_mouse_mapping(&self, key: i32) -> (r: Option<InputInfo>)
        ensures
            map_index(self.mouse_mapping@, key) < self.mouse_mapping@.len() ==> r == Some(
                self.mouse_mapping@[map_index(self.mouse_mapping@, key)].1,
            ),
            map_index(self.mouse_mapping@, key) == self.mouse_mapping@.len() ==> r.is_none(),
    {
        let mut i: usize = 0;
        while i < self.mouse_mapping.len()
            invariant
                i <= self.mouse_mapping.len(),
                map_index(self.mouse_mapping@, key) == map_index_from(
                    self.mouse_mapping@,
                    key,
                    i as int,
                ),
            decreases self.mouse_mapping.len() - i,
        {
            if self.mouse_mapping[i].0 == key {
                return Some(self.mouse_mapping[i].1);
            }
            i = i + 1;
        }
        None
    }

    /// The named binding, when one exists.
    pub fn get_binding(&self, key: &String) -> (r: Option<BindingInfo>)
        ensures
            bind_index(self.bindings@, key@) < self.bindings@.len() ==> r == Some(
                self.bindings@[bind_index(self.bindings@, key@)].1,
            ),
            bind_index(self.bindings@, key@) == self.bindings@.len() ==> r.is_none(),
    {
        let mut i: usize = 0;
        while i < self.bindings.len()
            invariant
                i <= self.bindings.len(),
                bind_index(self.bindings@, key@) == bind_index_from(
                    self.bindings@,
                    key@,
                    i as int,
                ),
            decreases self.bindings.len() - i,
        {
            if self.bindings[i].0 == *key {
                return Some(self.bindings[i].1);
            }
            i = i + 1;
        }
        None
    }

    /// Whether the key is held: an unmapped key reads as released.
    pub fn get_key(&self, key: i32) -> (r: bool)
        ensures
            r == key_pressed(self.mappings@, key),
    {
        proof {
            lemma_map_index_spec(self.mappings@, key);
        }
        match self.get_mapping(key) {
            Some(p) => p.pressed,
            None => false,
        }
    }

    /// Whether the button is held: an unmapped button reads as released.
    pub fn get_mouse(&self, key: i32) -> (r: bool)
        ensures
            r == key_pressed(self.mouse_mapping@, key),
    {
        proof {
            lemma_map_index_spec(self.mouse_mapping@, key);
        }
        match self.get_mouse_mapping(key) {
            Some(p) => p.pressed,
            None => false,
        }
    }

    /// Whether the key went down this frame; the flag is consumed, so only
    /// the first query of a frame sees it.
    pub fn get_key_down(&mut self, key: i32) -> (r: bool)
        ensures
            ({
                let s = old(self).mappings@;
                let ix = map_index(s, key);
                if ix < s.len() {
                    &&& r == s[ix].1.pressed_down
                    &&& final(self).mappings@ == s.update(
                        ix,
                        (key, InputInfo { pressed: s[ix].1.pressed, pressed_down: false }),
                    )
                } else {
                    &&& r == false
                    &&& final(self).mappings@ == s
                }
            }),
            final(self).mouse_mapping@ == old(self).mouse_mapping@,
            final(self).mouse_pos == old(self).mouse_pos,
            final(self).bindings@ == old(self).bindings@,
    {
        let mut i: usize = 0;
        while i < self.mappings.len()
            invariant
                i <= self.mappings.len(),
                *self == *old(self),
                map_index(self.mappings@, key) == map_index_from(self.mappings@, key, i as int),
            decreases self.mappings.len() - i,
        {
            if self.mappings[i].0 == key {
                let ret = self.mappings[i].1.pressed_down;
                let kept = self.mappings[i].1.pressed;
                self.mappings.set(i, (key, InputInfo { pressed: kept, pressed_down: false }));
                return ret;
            }
            i = i + 1;
        }
        false
    }

    /// Whether the button went down this frame; the flag is consumed.
    pub fn get_mouse_down(&mut self, key: i32) -> (r: bool)
        ensures
            ({
                let s = old(self).mouse_mapping@;
                let ix = map_index(s, key);
                if ix < s.len() {
                    &&& r == s[ix].1.pressed_down
                    &&& final(self).mouse_mapping@ == s.update(
                        ix,
                        (key, InputInfo { pressed: s[ix].1.pressed, pressed_down: false }),
                    )
                } else {
                    &&& r == false
                    &&& final(self).mouse_mapping@ == s
                }
            }),
            final(self).mappings@ == old(self).mappings@,
            final(self).mouse_pos == old(self).mouse_pos,
            final(self).bindings@ == old(self).bindings@,
    {
        let mut i: usize = 0;
        while i < self.mouse_mapping.len()
            invariant
                i <= self.mouse_mapping.len(),
                *self == *old(self),
                map_index(self.mouse_mapping@, key) == map_index_from(
                    self.mouse_mapping@,
                    key,
                    i as int,
                ),
            decreases self.mouse_mapping.len() - i,
        {
            if self.mouse_mapping[i].0 == key {
                let ret = self.mouse_mapping[i].1.pressed_down;
                let kept = self.mouse_mapping[i].1.pressed;
                self.mouse_mapping.set(i, (key, InputInfo { pressed: kept, pressed_down: false }));
                return ret;
            }
            i = i + 1;
        }
        false
    }

    /// The -1, 0 or +1 an axis binding reads as: each held key pulls its
    /// way, an unbound name reads as 0.
    pub fn bind_to_axis(&self, axis: &String) -> (r: i32)
        ensures
            r == spec_axis(self.bindings@, self.mappings@, axis@),
            -1 <= r <= 1,
    {
        proof {
            lemma_bind_index_spec(self.bindings@, axis@);
        }
        let ax = match self.get_binding(axis) {
            Some(p) => p,
            None => {
                return 0;
            },
        };
        let mut ret: i32 = 0;
        if self.get_key(ax.negative) {
            ret = ret - 1;
        }
        if self.get_key(ax.positive) {
            ret = ret + 1;
        }
        ret
    }

    /// Two axis bindings read as one vector.
    pub fn bind_to_2d(&self, key: &String, key2: &String) -> (r: Vec2)
        ensures
            r.x == spec_axis(self.bindings@, self.mappings@, key@),
            r.y == spec_axis(self.bindings@, self.mappings@, key2@),
    {
        Vec2 { x: self.bind_to_axis(key) as i64, y: self.bind_to_axis(key2) as i64 }
    }
}

/// What an axis binding reads as: -1, 0 or +1 from the two keys' held
/// states; 0 for an unbound name.
pub open spec fn spec_axis(
    bindings: Seq<(String, BindingInfo)>,
    mappings: Seq<(i32, InputInfo)>,
    axis: Seq<char>,
) -> int {
    if bind_index(bindings, axis) < bindings.len() {
        let b = bindings[bind_index(bindings, axis)].1;
        (if key_pressed(mappings, b.negative) {
            -1int
        } else {
            0int
        }) + (if key_pressed(mappings, b.positive) {
            1int
        } else {
            0int
        })
    } else {
        0int
    }
}

} // verus!
