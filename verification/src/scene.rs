//! The scene: the objects of the canvas, in the order of their creation.

use vstd::prelude::*;
use crate::globals::OBJC_MAX_OBJ_COUNT;
use crate::objects::behavior::{DrawCommand, Drawable, ObjectView, RaytracerObjects};

verus! {

/// The objects of the canvas. An object created earlier stands before one
/// created later.
#[derive(Clone, Debug)]
pub struct Scene {
    /// The objects, oldest first.
    pub objects: Vec<RaytracerObjects>,
}

/// Why the scene refused a request.
#[derive(Clone, Copy, Debug, PartialEq, Eq)]
pub enum SceneError {
    /// The scene already holds `OBJC_MAX_OBJ_COUNT` objects.
    CapacityExceeded,
    /// The scene has no object at the given index.
    IndexOutOfRange,
    /// The name is not the name of a kind of object.
    UnknownObjectType,
}

impl View for Scene {
    type V = Seq<ObjectView>;

    open spec fn view(&self) -> Seq<ObjectView> {
        Seq::new(self.objects@.len(), |i: int| self.objects@[i]@)
    }
}

impl Scene {
    /// The scene holds at most `OBJC_MAX_OBJ_COUNT` objects, each of them
    /// well formed.
    pub open spec fn wf(&self) -> bool {
        &&& self@.len() <= OBJC_MAX_OBJ_COUNT
        &&& forall|i: int| 0 <= i < self@.len() ==> (#[trigger] self@[i]).wf()
    }

    /// A scene without objects.
    pub fn new() -> (r: Scene)
        ensures
            r@ == Seq::<ObjectView>::empty(),
            r.wf(),
    {
        let r = Scene { objects: Vec::new() };
        assert(r@ =~= Seq::<ObjectView>::empty());
        r
    }

    /// A copy of the scene.
    pub fn duplicate(&self) -> (r: Scene)
        ensures
            r@ == self@,
    {
        let mut objects: Vec<RaytracerObjects> = Vec::new();
        let mut index: usize = 0;
        while index < self.objects.len()
            invariant
                0 <= index <= self.objects.len(),
                objects.len() == index,
                forall|j: int| 0 <= j < index ==> (#[trigger] objects[j])@ == self.objects[j]@,
            decreases self.objects.len() - index,
        {
            objects.push(self.objects[index].duplicate());
            index = index + 1;
        }
        let r = Scene { objects };
        assert(r@ =~= self@);
        r
    }

    /// Whether the scene is well formed.
    pub fn is_valid(&self) -> (r: bool)
        ensures
            r == self.wf(),
    {
        if self.objects.len() > OBJC_MAX_OBJ_COUNT {
            return false;
        }
        let mut index: usize = 0;
        while index < self.objects.len()
            invariant
                0 <= index <= self.objects.len(),
                forall|j: int| 0 <= j < index ==> (#[trigger] self@[j]).wf(),
            decreases self.objects.len() - index,
        {
            if !self.objects[index].is_valid() {
                assert(!self@[index as int].wf());
                return false;
            }
            index = index + 1;
        }
        true
    }

    /// The number of objects.
    pub fn len(&self) -> (n: usize)
        ensures
            n == self@.len(),
    {
        self.objects.len()
    }

    /// Whether the scene has room for one more object.
    pub fn has_room(&self) -> (r: bool)
        ensures
            r == (self@.len() < OBJC_MAX_OBJ_COUNT),
    {
        self.objects.len() < OBJC_MAX_OBJ_COUNT
    }

    /// The shapes of the objects at the indices below `count`, in order.
    pub open spec fn shapes_below(&self, count: int) -> Seq<DrawCommand>
        decreases count,
    {
        if count <= 0 {
            Seq::empty()
        } else {
            self.shapes_below(count - 1) + self.objects@[count - 1].shapes()
        }
    }

    /// The object at `index`, if there is one.
    pub fn get(&self, index: usize) -> (r: Option<&RaytracerObjects>)
        ensures
            r is Some <==> index < self@.len(),
            r matches Some(object) ==> object@ == self@[index as int],
    {
        if index < self.objects.len() {
            Some(&self.objects[index])
        } else {
            None
        }
    }
}

impl Drawable for Scene {
    /// The shapes of all objects, object after object in the order of the
    /// scene.
    open spec fn shapes(&self) -> Seq<DrawCommand> {
        self.shapes_below(self.objects@.len() as int)
    }

    fn draw_object(&self) -> (r: Vec<DrawCommand>) {
        let mut out: Vec<DrawCommand> = Vec::new();
        let mut index: usize = 0;
        while index < self.objects.len()
            invariant
                0 <= index <= self.objects.len(),
                out@ == self.shapes_below(index as int),
            decreases self.objects.len() - index,
        {
            let mut shapes = self.objects[index].draw_object();
            out.append(&mut shapes);
            index = index + 1;
        }
        out
    }
}

} // verus!
