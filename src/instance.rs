//! Instances: a primitive group placed in the scene, with an optional
//! transform and its own material and instance ids.

use vstd::prelude::*;
use crate::aabb::{AABB, Point3, Vec3};
use crate::walk::SurfaceHit;

verus! {

/// Which material a surface uses.
#[derive(Clone, Copy, Debug, PartialEq, Eq, Structural)]
pub enum MaterialId {
    Material(u16),
    Light(u16),
    Camera(u16),
}

/// A rigid placement: a translation by an integer offset.
#[derive(Clone, Copy, Debug, PartialEq, Eq, Structural)]
pub struct Transform3 {
    pub translation: Vec3,
}

/// A group of primitives as the scene core reads it: its bounds and the
/// ids it was given.
#[derive(Clone, Copy, Debug, PartialEq, Eq, Structural)]
pub struct Aggregate {
    pub bounds: AABB,
    pub material_id: MaterialId,
    pub instance_id: usize,
}

impl Aggregate {
    pub fn new(bounds: AABB, material_id: MaterialId, instance_id: usize) -> (a: Aggregate)
        ensures
            a == (Aggregate { bounds, material_id, instance_id }),
    {
        Aggregate { bounds, material_id, instance_id }
    }

    pub fn get_instance_id(&self) -> (r: usize)
        ensures
            r == self.instance_id,
    {
        self.instance_id
    }

    pub fn get_material_id(&self) -> (r: MaterialId)
        ensures
            r == self.material_id,
    {
        self.material_id
    }
}

/// An aggregate placed in the scene.
#[derive(Clone, Copy, Debug)]
pub struct Instance {
    pub aggregate: Aggregate,
    pub transform: Option<Transform3>,
    pub material_id: MaterialId,
    pub instance_id: usize,
}

/// `p` moved by `t`.
pub open spec fn moved(p: Point3, t: Vec3) -> Point3 {
    Point3 { x: (p.x + t.x) as i32, y: (p.y + t.y) as i32, z: (p.z + t.z) as i32 }
}

/// `p + t` stays within the coordinate range.
pub open spec fn move_fits(p: Point3, t: Vec3) -> bool {
    &&& i32::MIN <= p.x + t.x <= i32::MAX
    &&& i32::MIN <= p.y + t.y <= i32::MAX
    &&& i32::MIN <= p.z + t.z <= i32::MAX
}

fn move_point(p: Point3, t: Vec3) -> (r: Point3)
    requires
        move_fits(p, t),
    ensures
        r == moved(p, t),
{
    Point3 { x: p.x + t.x, y: p.y + t.y, z: p.z + t.z }
}

impl Instance {
    /// Places `aggregate`; a missing material or instance id is taken from
    /// the aggregate.
    pub fn new(
        aggregate: Aggregate,
        transform: Option<Transform3>,
        material_id: Option<MaterialId>,
        instance_id: Option<usize>,
    ) -> (r: Instance)
        ensures
            r.aggregate == aggregate,
            r.transform == transform,
            r.material_id == (match material_id {
                Some(id) => id,
                None => aggregate.material_id,
            }),
            r.instance_id == (match instance_id {
                Some(id) => id,
                None => aggregate.instance_id,
            }),
    {
        let instance_id = if let Some(id) = instance_id {
            id
        } else {
            aggregate.get_instance_id()
        };
        let material_id = if let Some(id) = material_id {
            id
        } else {
            aggregate.get_material_id()
        };
        Instance { aggregate, transform, material_id, instance_id }
    }

    /// The transformed bounds stay within the coordinate range.
    pub open spec fn fits(&self) -> bool {
        match self.transform {
            Some(t) => move_fits(self.aggregate.bounds.min, t.translation) && move_fits(
                self.aggregate.bounds.max,
                t.translation,
            ),
            None => true,
        }
    }

    /// The bounds of the aggregate, moved by the transform if there is one.
    pub open spec fn bounds_spec(&self) -> AABB {
        match self.transform {
            Some(t) => AABB {
                min: moved(self.aggregate.bounds.min, t.translation),
                max: moved(self.aggregate.bounds.max, t.translation),
            },
            None => self.aggregate.bounds,
        }
    }

    pub fn bounding_box(&self) -> (r: AABB)
        requires
            self.fits(),
        ensures
            r == self.bounds_spec(),
    {
        let aabb = self.aggregate.bounds;
        match self.transform {
            Some(t) => AABB::new(
                move_point(aabb.min, t.translation),
                move_point(aabb.max, t.translation),
            ),
            None => aabb,
        }
    }

    pub fn get_instance_id(&self) -> (r: usize)
        ensures
            r == self.instance_id,
    {
        self.instance_id
    }

    pub fn get_material_id(&self) -> (r: MaterialId)
        ensures
            r == self.material_id,
    {
        self.material_id
    }

    /// A hit on the aggregate as a hit on this instance: it carries the
    /// instance's material and instance ids.
    pub fn label_hit(&self, hit: Option<SurfaceHit>) -> (r: Option<SurfaceHit>)
        ensures
            r == (match hit {
                Some(h) => Some(
                    SurfaceHit {
                        point: h.point,
                        normal: h.normal,
                        material_id: self.material_id,
                        instance_id: self.instance_id,
                        is_light: h.is_light,
                    },
                ),
                None => None,
            }),
    {
        match hit {
            Some(h) => Some(
                SurfaceHit {
                    point: h.point,
                    normal: h.normal,
                    material_id: self.material_id,
                    instance_id: self.instance_id,
                    is_light: h.is_light,
                },
            ),
            None => None,
        }
    }
}

impl From<Aggregate> for Instance {
    /// Places an aggregate as it is, keeping its material and instance ids.
    fn from(data: Aggregate) -> Instance {
        let instance_id = data.get_instance_id();
        let material_id = data.get_material_id();
        Instance::new(data, None, Some(material_id), Some(instance_id))
    }
}

impl vstd::std_specs::convert::FromSpecImpl<Aggregate> for Instance {
    open spec fn obeys_from_spec() -> bool {
        true
    }

    open spec fn from_spec(v: Aggregate) -> Instance {
        Instance {
            aggregate: v,
            transform: None,
            material_id: v.material_id,
            instance_id: v.instance_id,
        }
    }
}

} // verus!
