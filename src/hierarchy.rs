use vstd::prelude::*;

verus! {

/// The descriptor of one declared class. Its identity is its index in the
/// [`Hierarchy`] that holds it.
pub struct Class {
    /// Identity of the direct parent class; the root is its own parent.
    pub parent: usize,
    /// Byte offset of the embedded parent inside this class's layout.
    pub offset: usize,
    /// Byte size of this class's layout.
    pub size: usize,
}

/// Whether `a` is `d` or one of `d`'s ancestors, walking the parent chain.
pub open spec fn is_ancestor(c: Seq<Class>, a: int, d: int) -> bool
    decreases d,
{
    if a == d {
        true
    } else if 0 < d < c.len() && (c[d].parent as int) < d {
        is_ancestor(c, a, c[d].parent as int)
    } else {
        false
    }
}

/// Byte distance from the start of a `d` value to its embedded `a`
/// substructure, summing the offsets to parent along the chain.
pub open spec fn cum_offset(c: Seq<Class>, a: int, d: int) -> int
    decreases d,
{
    if a == d {
        0
    } else if 0 < d < c.len() && (c[d].parent as int) < d {
        c[d].offset + cum_offset(c, a, c[d].parent as int)
    } else {
        0
    }
}

/// A finite tree rooted at class 0: every other class has a parent declared
/// before it, whose layout fits inside its own at the declared offset.
pub open spec fn classes_wf(c: Seq<Class>) -> bool {
    &&& c.len() >= 1
    &&& c[0].parent == 0
    &&& c[0].offset == 0
    &&& forall|i: int|
        #![trigger c[i]]
        1 <= i < c.len() ==> (c[i].parent as int) < i && c[i].offset + c[c[i].parent as int].size
            <= c[i].size
}

/// Every class declared so far, indexed by identity.
pub struct Hierarchy {
    pub classes: Vec<Class>,
}

impl Hierarchy {
    pub open spec fn wf(&self) -> bool {
        classes_wf(self.classes@)
    }

    /// A hierarchy holding only the root class [`DynamicObjectBase`].
    pub fn new() -> (r: Hierarchy)
        ensures
            r.wf(),
            r.classes@.len() == 1,
            r.classes@[0] == (Class { parent: 0, offset: 0, size: 0 }),
    {
        let mut classes: Vec<Class> = Vec::new();
        classes.push(Class { parent: 0, offset: 0, size: 0 });
        Hierarchy { classes }
    }

    pub fn len(&self) -> (r: usize)
        ensures
            r == self.classes@.len(),
    {
        self.classes.len()
    }
}

/// The root of every hierarchy; its identity is 0.
pub struct DynamicObjectBase;

impl DynamicObjectBase {
    pub const ID: usize = 0;

    pub fn id() -> (r: usize)
        ensures
            r == 0,
    {
        Self::ID
    }
}

pub proof fn lemma_ancestor_le(c: Seq<Class>, a: int, d: int)
    requires
        is_ancestor(c, a, d),
    ensures
        a <= d,
    decreases d,
{
    if a != d {
        lemma_ancestor_le(c, a, c[d].parent as int);
    }
}

/// Tests whether `parent` is `child` or one of its ancestors.
pub fn isSubclassOf(h: &Hierarchy, child: usize, parent: usize) -> (r: bool)
    requires
        h.wf(),
        child < h.classes@.len(),
    ensures
        r == is_ancestor(h.classes@, parent as int, child as int),
{
    let mut cur: usize = child;
    loop
        invariant
            h.wf(),
            cur < h.classes@.len(),
            is_ancestor(h.classes@, parent as int, child as int) == is_ancestor(
                h.classes@,
                parent as int,
                cur as int,
            ),
        decreases cur,
    {
        if cur == parent {
            return true;
        }
        if cur == 0 {
            return false;
        }
        let next = h.classes[cur].parent;
        assert(h.classes@[cur as int].parent < cur);
        cur = next;
    }
}

/// Distinct declared classes have distinct identities, and the is-a
/// relation tells them apart: no two distinct classes are each other's
/// ancestors.
pub proof fn lemma_identity_unique(c: Seq<Class>, i: int, j: int)
    requires
        classes_wf(c),
        0 <= i < c.len(),
        0 <= j < c.len(),
        i != j,
    ensures
        !(is_ancestor(c, i, j) && is_ancestor(c, j, i)),
{
    if is_ancestor(c, i, j) && is_ancestor(c, j, i) {
        lemma_ancestor_le(c, i, j);
        lemma_ancestor_le(c, j, i);
    }
}

/// A class's layout holds each ancestor's layout at the cumulative offset.
pub proof fn lemma_cum_offset_fits(c: Seq<Class>, a: int, d: int)
    requires
        classes_wf(c),
        0 <= d < c.len(),
        is_ancestor(c, a, d),
    ensures
        0 <= a,
        cum_offset(c, a, d) + c[a].size <= c[d].size,
        0 <= cum_offset(c, a, d),
    decreases d,
{
    if a != d {
        let p = c[d].parent as int;
        assert(c[d] == c[d]);
        lemma_cum_offset_fits(c, a, p);
    }
}

/// Ancestry composes, and so do offsets along it.
pub proof fn lemma_ancestor_trans(c: Seq<Class>, a: int, b: int, d: int)
    requires
        classes_wf(c),
        0 <= d < c.len(),
        is_ancestor(c, a, b),
        is_ancestor(c, b, d),
    ensures
        is_ancestor(c, a, d),
        cum_offset(c, a, d) == cum_offset(c, a, b) + cum_offset(c, b, d),
    decreases d,
{
    if b != d {
        let p = c[d].parent as int;
        assert(c[d] == c[d]);
        lemma_ancestor_le(c, a, b);
        lemma_ancestor_le(c, b, p);
        lemma_ancestor_trans(c, a, b, p);
    }
}

/// Two ancestors of one class lie on a single chain.
pub proof fn lemma_ancestors_ordered(c: Seq<Class>, x: int, y: int, d: int)
    requires
        classes_wf(c),
        0 <= d < c.len(),
        is_ancestor(c, x, d),
        is_ancestor(c, y, d),
    ensures
        is_ancestor(c, x, y) || is_ancestor(c, y, x),
    decreases d,
{
    if x != d && y != d {
        let p = c[d].parent as int;
        assert(c[d] == c[d]);
        lemma_ancestors_ordered(c, x, y, p);
    }
}

/// The byte distance from a `child` value to its embedded `parent`
/// substructure.
pub fn offsetOf(h: &Hierarchy, parent: usize, child: usize) -> (r: usize)
    requires
        h.wf(),
        child < h.classes@.len(),
        is_ancestor(h.classes@, parent as int, child as int),
    ensures
        r == cum_offset(h.classes@, parent as int, child as int),
{
    let ghost c = h.classes@;
    let mut cur: usize = child;
    let mut acc: usize = 0;
    proof {
        lemma_cum_offset_fits(c, parent as int, child as int);
    }
    while cur != parent
        invariant
            h.wf(),
            c == h.classes@,
            cur < c.len(),
            is_ancestor(c, parent as int, cur as int),
            acc + cum_offset(c, parent as int, cur as int) == cum_offset(
                c,
                parent as int,
                child as int,
            ),
            cum_offset(c, parent as int, child as int) <= c[child as int].size,
            0 <= cum_offset(c, parent as int, cur as int),
        decreases cur,
    {
        let cls = &h.classes[cur];
        assert(c[cur as int] == c[cur as int]);
        proof {
            lemma_cum_offset_fits(c, parent as int, cls.parent as int);
        }
        acc = acc + cls.offset;
        cur = cls.parent;
    }
    acc
}

/// Compares two class identities.
pub struct IsSameClass {
    pub a: usize,
    pub b: usize,
}

impl IsSameClass {
    /// Whether both identities name the same class.
    pub fn value(&self) -> (r: bool)
        ensures
            r == (self.a == self.b),
    {
        self.a == self.b
    }
}

/// Why a class declaration was refused.
#[derive(Debug, PartialEq, Eq, Structural)]
pub enum DeclError {
    /// The named parent is not a declared class.
    UnknownParent,
    /// No parent field was named, and the parent is not the root.
    MissingParentField,
    /// The parent's layout does not fit at the given offset.
    ParentDoesNotFit,
}

/// Declares a class whose parent `parent` is embedded at byte offset
/// `parent_field`, in a layout of `size` bytes, and returns its fresh
/// identity. The offset may be left out only when the parent is the root;
/// it is then 0.
pub fn subclass(h: &mut Hierarchy, parent: usize, parent_field: Option<usize>, size: usize) -> (r:
    Result<usize, DeclError>)
    requires
        old(h).wf(),
    ensures
        final(h).wf(),
        parent >= old(h).classes@.len() ==> r == Err::<usize, DeclError>(DeclError::UnknownParent),
        parent < old(h).classes@.len() && parent_field is None && parent != 0 ==> r == Err::<
            usize,
            DeclError,
        >(DeclError::MissingParentField),
        ({
            let off = match parent_field {
                Some(f) => f as int,
                None => 0,
            };
            parent < old(h).classes@.len() && (parent_field is Some || parent == 0) && off
                + old(h).classes@[parent as int].size > size ==> r == Err::<usize, DeclError>(
                DeclError::ParentDoesNotFit,
            )
        }),
        r is Err ==> *final(h) == *old(h),
        r is Ok ==> {
            let id = r->Ok_0;
            &&& id == old(h).classes@.len()
            &&& forall|j: int|
                0 <= j < old(h).classes@.len() ==> j != id && !#[trigger] is_ancestor(
                    final(h).classes@,
                    id as int,
                    j,
                )
            &&& final(h).classes@ == old(h).classes@.push(
                Class {
                    parent,
                    offset: match parent_field {
                        Some(f) => f,
                        None => 0,
                    },
                    size,
                },
            )
        },
        r is Ok <==> (parent < old(h).classes@.len() && (parent_field is Some || parent == 0) && ({
            let off = match parent_field {
                Some(f) => f as int,
                None => 0,
            };
            off + old(h).classes@[parent as int].size <= size
        })),
{
    if parent >= h.classes.len() {
        return Err(DeclError::UnknownParent);
    }
    let offset = match parent_field {
        Some(f) => f,
        None => {
            if parent != DynamicObjectBase::ID {
                return Err(DeclError::MissingParentField);
            }
            0
        },
    };
    let psize = h.classes[parent].size;
    if psize > size || offset > size - psize {
        return Err(DeclError::ParentDoesNotFit);
    }
    let id = h.classes.len();
    h.classes.push(Class { parent, offset, size });
    proof {
        let c = final(h).classes@;
        assert forall|i: int|
            #![trigger c[i]]
            1 <= i < c.len() implies (c[i].parent as int) < i && c[i].offset + c[c[i].parent as int].size
            <= c[i].size by {
            if i < id {
                assert(c[i] == old(h).classes@[i]);
                assert(old(h).classes@[i] == old(h).classes@[i]);
            }
        }
        assert forall|j: int|
            0 <= j < old(h).classes@.len() implies !#[trigger] is_ancestor(c, id as int, j) by {
            if is_ancestor(c, id as int, j) {
                lemma_ancestor_le(c, id as int, j);
            }
        }
    }
    Ok(id)
}

} // verus!
