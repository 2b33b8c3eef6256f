use vstd::prelude::*;
use crate::text::{text_object_model, TextObject};
use crate::transform::Color;

verus! {

/// A drawable image, referred to by its file path.
#[derive(Debug, PartialEq)]
pub struct ImageObject {
    pub path: String,
}

impl ImageObject {
    pub fn new(path: String) -> (r: Self)
        ensures
            r.path@ == path@,
    {
        ImageObject { path }
    }
}

impl Clone for ImageObject {
    fn clone(&self) -> (r: Self)
        ensures
            r.path@ == self.path@,
    {
        ImageObject { path: self.path.clone() }
    }
}

/// A drawable vector shape, with fixed-point extents (thousandths of a
/// pixel).
#[derive(Clone, Copy, Debug, PartialEq, Eq, Structural)]
pub enum Shape {
    Circle { radius: i32, color: Color },
    Rect { width: i32, height: i32, color: Color },
}

/// Anything a clip can draw.
#[derive(Debug, PartialEq)]
pub enum Object {
    Shape(Shape),
    Image(ImageObject),
    Text(TextObject),
}

/// Deep equality of two drawable objects: same variant, and the carried
/// data means the same (paths and texts compared by their characters).
pub open spec fn obj_eq(a: Object, b: Object) -> bool {
    match (a, b) {
        (Object::Shape(s1), Object::Shape(s2)) => s1 == s2,
        (Object::Image(i1), Object::Image(i2)) => i1.path@ == i2.path@,
        (Object::Text(t1), Object::Text(t2)) => text_object_model(t1) == text_object_model(t2),
        _ => false,
    }
}

/// Deep object equality is reflexive.
pub proof fn lemma_obj_eq_reflexive(a: Object)
    ensures
        obj_eq(a, a),
{
}

/// Deep object equality is symmetric and transitive.
pub proof fn lemma_obj_eq_equivalence(a: Object, b: Object, c: Object)
    requires
        obj_eq(a, b),
        obj_eq(a, c),
    ensures
        obj_eq(b, a),
        obj_eq(b, c),
{
}

impl Clone for Object {
    fn clone(&self) -> (r: Self)
        ensures
            obj_eq(r, *self),
    {
        match self {
            Object::Shape(s) => Object::Shape(*s),
            Object::Image(i) => Object::Image(i.clone()),
            Object::Text(t) => Object::Text(t.clone()),
        }
    }
}

} // verus!
