use vstd::prelude::*;

use crate::hierarchy::{
    Class, Hierarchy, classes_wf, cum_offset, is_ancestor, isSubclassOf, lemma_ancestor_le,
    lemma_ancestor_trans, lemma_ancestors_ordered, lemma_cum_offset_fits, offsetOf,
};

verus! {

/// What a view is: the concrete value's bytes, the identity of its concrete
/// class, the class it is currently read as, and where that class's
/// substructure starts in the bytes.
pub struct ObjectModel {
    pub bytes: Seq<u8>,
    pub concrete: int,
    pub class: int,
    pub offset: int,
}

/// A well-formed view: the bytes are a whole value of the concrete class,
/// the current class is on its ancestor chain, and the offset is that
/// ancestor's position inside it.
pub open spec fn view_wf(c: Seq<Class>, m: ObjectModel) -> bool {
    &&& classes_wf(c)
    &&& 0 <= m.concrete < c.len()
    &&& m.bytes.len() == c[m.concrete].size
    &&& is_ancestor(c, m.class, m.concrete)
    &&& m.offset == cum_offset(c, m.class, m.concrete)
}

/// The same value read as class `target`.
pub open spec fn cast_model(c: Seq<Class>, m: ObjectModel, target: int) -> ObjectModel {
    ObjectModel {
        bytes: m.bytes,
        concrete: m.concrete,
        class: target,
        offset: cum_offset(c, target, m.concrete),
    }
}

/// The little-endian 32-bit integer stored at byte `i`.
pub open spec fn le_u32(s: Seq<u8>, i: int) -> int {
    s[i] + s[i + 1] * 256 + s[i + 2] * 65536 + s[i + 3] * 16777216
}

/// The bytes `s` with the little-endian encoding of `v` stored at byte `i`.
pub open spec fn store_u32(s: Seq<u8>, i: int, v: u32) -> Seq<u8> {
    s.update(i, (v % 256) as u8).update(i + 1, ((v / 256) % 256) as u8).update(
        i + 2,
        ((v / 65536) % 256) as u8,
    ).update(i + 3, (v / 16777216) as u8)
}

/// A typed view over the bytes of one concrete value.
pub struct Object {
    object: Vec<u8>,
    concrete: usize,
    class: usize,
    offset: usize,
}

impl View for Object {
    type V = ObjectModel;

    closed spec fn view(&self) -> ObjectModel {
        ObjectModel {
            bytes: self.object@,
            concrete: self.concrete as int,
            class: self.class as int,
            offset: self.offset as int,
        }
    }
}

impl Clone for Object {
    /// Duplicates the view: the bytes are copied, the offset and the
    /// concrete and current classes are kept, and no cast is run again.
    fn clone(&self) -> (r: Self)
        ensures
            r@ == self@,
    {
        Object {
            object: self.object.clone(),
            concrete: self.concrete,
            class: self.class,
            offset: self.offset,
        }
    }
}

impl Object {
    pub open spec fn wf(&self, h: &Hierarchy) -> bool {
        view_wf(h.classes@, self@)
    }

    /// A view over `object`, the bytes of a value of class `class`, read as
    /// that class.
    pub fn new(h: &Hierarchy, class: usize, object: Vec<u8>) -> (r: Object)
        requires
            h.wf(),
            class < h.classes@.len(),
            object@.len() == h.classes@[class as int].size,
        ensures
            r.wf(h),
            r@ == (ObjectModel { bytes: object@, concrete: class as int, class: class as int, offset: 0 }),
    {
        Object { object, concrete: class, class, offset: 0 }
    }

    /// Whether the concrete value is of class `other` or descends from it,
    /// however it is currently viewed.
    pub fn isa(&self, h: &Hierarchy, other: usize) -> (r: bool)
        requires
            self.wf(h),
        ensures
            r == is_ancestor(h.classes@, other as int, self@.concrete),
    {
        isSubclassOf(h, self.concrete, other)
    }

    /// The class the view currently reads the value as.
    pub fn class(&self) -> (r: usize)
        ensures
            r == self@.class,
    {
        self.class
    }

    /// Where the current class's substructure starts in the value's bytes.
    pub fn offset(&self) -> (r: usize)
        ensures
            r == self@.offset,
    {
        self.offset
    }

    /// Re-reads the value as `target`, which must be on the concrete class's
    /// ancestor chain.
    pub fn cast(self, h: &Hierarchy, target: usize) -> (r: Object)
        requires
            self.wf(h),
            is_ancestor(h.classes@, target as int, self@.concrete),
        ensures
            r.wf(h),
            r@ == cast_model(h.classes@, self@, target as int),
    {
        let ghost c = h.classes@;
        proof {
            lemma_ancestor_le(c, target as int, self.concrete as int);
            lemma_ancestor_le(c, self.class as int, self.concrete as int);
            lemma_cum_offset_fits(c, target as int, self.concrete as int);
        }
        let offset = if isSubclassOf(h, self.class, target) {
            // upwards: the target is embedded in the current class
            proof {
                lemma_ancestor_trans(c, target as int, self.class as int, self.concrete as int);
            }
            self.offset + offsetOf(h, target, self.class)
        } else {
            // downwards: the current class is embedded in the target
            proof {
                lemma_ancestors_ordered(c, target as int, self.class as int, self.concrete as int);
                lemma_ancestor_trans(c, self.class as int, target as int, self.concrete as int);
                lemma_cum_offset_fits(c, self.class as int, target as int);
            }
            self.offset - offsetOf(h, self.class, target)
        };
        Object { object: self.object, concrete: self.concrete, class: target, offset }
    }

    /// Re-reads the value as `target`, or gives `None` when the concrete
    /// class is neither `target` nor one of its descendants.
    pub fn try_cast(self, h: &Hierarchy, target: usize) -> (r: Option<Object>)
        requires
            self.wf(h),
        ensures
            r is Some <==> is_ancestor(h.classes@, target as int, self@.concrete),
            r is Some ==> r->0.wf(h) && r->0@ == cast_model(h.classes@, self@, target as int),
    {
        let ghost c = h.classes@;
        proof {
            lemma_ancestor_le(c, self.class as int, self.concrete as int);
        }
        if isSubclassOf(h, self.class, target) {
            proof {
                lemma_ancestor_trans(c, target as int, self.class as int, self.concrete as int);
            }
        } else if !self.isa(h, target) {
            return None;
        }
        Some(self.cast(h, target))
    }
    /// Reads the 32-bit little-endian field at byte `at` of the current
    /// class's layout.
    pub fn read_u32(&self, h: &Hierarchy, at: usize) -> (r: u32)
        requires
            self.wf(h),
            at + 4 <= h.classes@[self@.class].size,
        ensures
            r == le_u32(self@.bytes, self@.offset + at),
    {
        proof {
            lemma_cum_offset_fits(h.classes@, self.class as int, self.concrete as int);
        }
        let i = self.offset + at;
        let b0 = self.object[i] as u32;
        let b1 = self.object[i + 1] as u32;
        let b2 = self.object[i + 2] as u32;
        let b3 = self.object[i + 3] as u32;
        assert(b0 + b1 * 256 + b2 * 65536 + b3 * 16777216 <= 0xffff_ffff) by (nonlinear_arith)
            requires
                b0 < 256,
                b1 < 256,
                b2 < 256,
                b3 < 256,
        ;
        b0 + b1 * 256 + b2 * 65536 + b3 * 16777216
    }

    /// Stores `v` as the 32-bit little-endian field at byte `at` of the
    /// current class's layout.
    pub fn write_u32(&mut self, h: &Hierarchy, at: usize, v: u32)
        requires
            old(self).wf(h),
            at + 4 <= h.classes@[old(self)@.class].size,
        ensures
            final(self).wf(h),
            final(self)@ == (ObjectModel {
                bytes: store_u32(old(self)@.bytes, old(self)@.offset + at, v),
                ..old(self)@
            }),
    {
        proof {
            lemma_cum_offset_fits(h.classes@, self.class as int, self.concrete as int);
        }
        let i = self.offset + at;
        self.object.set(i, (v % 256) as u8);
        self.object.set(i + 1, ((v / 256) % 256) as u8);
        self.object.set(i + 2, ((v / 65536) % 256) as u8);
        self.object.set(i + 3, (v / 16777216) as u8);
    }
}

/// A field reads back the value last stored in it.
pub proof fn lemma_read_after_write(s: Seq<u8>, i: int, v: u32)
    requires
        0 <= i,
        i + 4 <= s.len(),
    ensures
        le_u32(store_u32(s, i, v), i) == v,
{
    let t = store_u32(s, i, v);
    let x = v as int;
    assert(t[i] == x % 256);
    assert(t[i + 1] == (x / 256) % 256);
    assert(t[i + 2] == (x / 65536) % 256);
    assert(t[i + 3] == x / 16777216);
    assert(x % 256 + ((x / 256) % 256) * 256 + ((x / 65536) % 256) * 65536 + (x / 16777216)
        * 16777216 == x) by (nonlinear_arith)
        requires
            0 <= x < 0x1_0000_0000,
    ;
}

/// Casting a view up to an ancestor and back again gives the original view,
/// so every field of the value reads as before.
pub proof fn lemma_round_trip(c: Seq<Class>, m: ObjectModel, base: int)
    requires
        view_wf(c, m),
        is_ancestor(c, base, m.class),
    ensures
        view_wf(c, cast_model(c, m, base)),
        is_ancestor(c, m.class, cast_model(c, m, base).concrete),
        cast_model(c, cast_model(c, m, base), m.class) == m,
        forall|at: int|
            #![trigger le_u32(m.bytes, m.offset + at)]
            le_u32(cast_model(c, cast_model(c, m, base), m.class).bytes, m.offset + at) == le_u32(
                m.bytes,
                m.offset + at,
            ),
{
    lemma_ancestor_trans(c, base, m.class, m.concrete);
}

/// A view cast to an ancestor reads the ancestor's fields at exactly the
/// cumulative offset of the ancestor inside the current class, and that
/// substructure lies wholly inside the current class's layout.
pub proof fn lemma_offset_correct(c: Seq<Class>, m: ObjectModel, base: int, at: int)
    requires
        view_wf(c, m),
        is_ancestor(c, base, m.class),
    ensures
        cast_model(c, m, base).offset == m.offset + cum_offset(c, base, m.class),
        cum_offset(c, base, m.class) + c[base].size <= c[m.class].size,
        le_u32(cast_model(c, m, base).bytes, cast_model(c, m, base).offset + at) == le_u32(
            m.bytes,
            m.offset + cum_offset(c, base, m.class) + at,
        ),
{
    lemma_ancestor_trans(c, base, m.class, m.concrete);
    lemma_ancestor_le(c, m.class, m.concrete);
    lemma_cum_offset_fits(c, m.class, m.concrete);
    lemma_cum_offset_fits(c, base, m.class);
}

/// A class's parent is one of its ancestors.
pub proof fn lemma_parent_is_ancestor(c: Seq<Class>, d: int)
    requires
        classes_wf(c),
        0 <= d < c.len(),
    ensures
        is_ancestor(c, c[d].parent as int, d),
{
    if d == 0 {
        assert(c[0].parent == 0);
    } else {
        assert(c[d] == c[d]);
        assert(is_ancestor(c, c[d].parent as int, c[d].parent as int));
    }
}

/// A view is always an instance of its own concrete class.
pub proof fn lemma_isa_reflexive(c: Seq<Class>, m: ObjectModel)
    requires
        view_wf(c, m),
    ensures
        is_ancestor(c, m.concrete, m.concrete),
{
}

/// A view is an instance of its concrete class's grandparent.
pub proof fn lemma_isa_transitive(c: Seq<Class>, m: ObjectModel, a: int, b: int)
    requires
        view_wf(c, m),
        c[m.concrete].parent == a,
        c[a].parent == b,
    ensures
        is_ancestor(c, a, m.concrete),
        is_ancestor(c, b, m.concrete),
{
    let d = m.concrete;
    lemma_parent_is_ancestor(c, d);
    lemma_ancestor_le(c, a, d);
    lemma_parent_is_ancestor(c, a);
    lemma_ancestor_trans(c, b, a, d);
}

} // verus!
