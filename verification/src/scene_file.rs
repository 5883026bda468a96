//! The integer and enumerated parts of a scene description: which kind of
//! object, which kind of material, and the render settings stored with a
//! scene.
use vstd::prelude::*;

verus! {

broadcast use vstd::string::to_string_from_display_ensures_for_str;

/// The geometric primitive an object of a scene is made of.
#[derive(Debug, Clone, Copy, PartialEq, Eq, Structural)]
pub enum ObjectKind {
    Sphere,
    Cube,
    Cylinder,
    Plane,
}

impl ObjectKind {
    /// The text by which the kind is shown to a user.
    pub open spec fn name(self) -> Seq<char> {
        match self {
            ObjectKind::Sphere => "Sphere"@,
            ObjectKind::Cube => "Cube"@,
            ObjectKind::Cylinder => "Cylinder"@,
            ObjectKind::Plane => "Plane"@,
        }
    }

    /// The display text of the kind: its variant's name.
    pub fn to_string(&self) -> (s: String)
        ensures
            s@ == self.name(),
    {
        match self {
            ObjectKind::Sphere => "Sphere".to_string(),
            ObjectKind::Cube => "Cube".to_string(),
            ObjectKind::Cylinder => "Cylinder".to_string(),
            ObjectKind::Plane => "Plane".to_string(),
        }
    }
}

/// Two object kinds that are shown alike are the same kind.
pub proof fn lemma_object_kind_name_injective(a: ObjectKind, b: ObjectKind)
    ensures
        a.name() == b.name() ==> a == b,
{
    reveal_strlit("Sphere");
    reveal_strlit("Cube");
    reveal_strlit("Cylinder");
    reveal_strlit("Plane");
    if a.name() == b.name() && a != b {
        // The four names differ in length or in one of their first two letters.
        assert(a.name().len() != b.name().len() || a.name()[0] != b.name()[0]
            || a.name()[1] != b.name()[1]);
    }
}

/// How the surface of an object responds to light.
#[derive(Debug, Clone, Copy, PartialEq, Eq, Structural)]
pub enum MaterialKind {
    Diffuse,
    Reflective,
    Emissive,
    Dielectric,
}

impl MaterialKind {
    /// The text by which the kind is shown to a user.
    pub open spec fn name(self) -> Seq<char> {
        match self {
            MaterialKind::Diffuse => "Diffuse"@,
            MaterialKind::Reflective => "Reflective"@,
            MaterialKind::Emissive => "Emissive"@,
            MaterialKind::Dielectric => "Dielectric"@,
        }
    }

    /// The display text of the kind: its variant's name.
    pub fn to_string(&self) -> (s: String)
        ensures
            s@ == self.name(),
    {
        match self {
            MaterialKind::Diffuse => "Diffuse".to_string(),
            MaterialKind::Reflective => "Reflective".to_string(),
            MaterialKind::Emissive => "Emissive".to_string(),
            MaterialKind::Dielectric => "Dielectric".to_string(),
        }
    }
}

/// Two material kinds that are shown alike are the same kind.
pub proof fn lemma_material_kind_name_injective(a: MaterialKind, b: MaterialKind)
    ensures
        a.name() == b.name() ==> a == b,
{
    reveal_strlit("Diffuse");
    reveal_strlit("Reflective");
    reveal_strlit("Emissive");
    reveal_strlit("Dielectric");
    if a.name() == b.name() && a != b {
        // The four names differ in length or in their first letter.
        assert(a.name().len() != b.name().len() || a.name()[0] != b.name()[0]);
    }
}

/// The render settings stored with a scene: image size in pixels, rays per
/// pixel and the maximum number of bounces of a ray.
#[derive(Debug, Clone, Copy, PartialEq, Eq, Structural)]
pub struct RenderSettings {
    pub width: u32,
    pub height: u32,
    pub samples: u32,
    pub depth: u32,
}

impl Default for RenderSettings {
    /// A 600 x 400 image, 256 samples per pixel, at most 16 bounces.
    fn default() -> (s: Self)
        ensures
            s.width == 600,
            s.height == 400,
            s.samples == 256,
            s.depth == 16,
    {
        RenderSettings { width: 600, height: 400, samples: 256, depth: 16 }
    }
}

/// Where one object of a scene file lands in the built scene: its kind, its
/// material's kind, and the id under which its material is registered.
#[derive(Debug, Clone, Copy, PartialEq, Eq, Structural)]
pub struct Placement {
    pub kind: ObjectKind,
    pub material: MaterialKind,
    pub material_id: usize,
}

/// How a scene is built from its objects: each object registers a material
/// of its own, in order, so object `i` uses material `i`.
pub fn plan_scene(objects: &Vec<(ObjectKind, MaterialKind)>) -> (plan: Vec<Placement>)
    ensures
        plan.len() == objects.len(),
        forall|i: int|
            0 <= i < plan.len() ==> (#[trigger] plan[i]).kind == objects[i].0
                && plan[i].material == objects[i].1 && plan[i].material_id == i,
{
    let mut plan: Vec<Placement> = Vec::new();
    let mut i: usize = 0;
    while i < objects.len()
        invariant
            i <= objects.len(),
            plan.len() == i,
            forall|j: int|
                0 <= j < i ==> (#[trigger] plan[j]).kind == objects[j].0
                    && plan[j].material == objects[j].1 && plan[j].material_id == j,
        decreases objects.len() - i,
    {
        let (kind, material) = objects[i];
        plan.push(Placement { kind, material, material_id: i });
        i = i + 1;
    }
    plan
}

/// The kinds of the objects of the demo scene, in order: a diffuse floor
/// plane, a diffuse sphere, a reflective cube, a diffuse cylinder, a small
/// diffuse sphere, an emissive sphere as the light, and a glass sphere.
pub fn default_scene_kinds() -> (kinds: Vec<(ObjectKind, MaterialKind)>)
    ensures
        kinds@ == seq![
            (ObjectKind::Plane, MaterialKind::Diffuse),
            (ObjectKind::Sphere, MaterialKind::Diffuse),
            (ObjectKind::Cube, MaterialKind::Reflective),
            (ObjectKind::Cylinder, MaterialKind::Diffuse),
            (ObjectKind::Sphere, MaterialKind::Diffuse),
            (ObjectKind::Sphere, MaterialKind::Emissive),
            (ObjectKind::Sphere, MaterialKind::Dielectric),
        ],
{
    vec![
        (ObjectKind::Plane, MaterialKind::Diffuse),
        (ObjectKind::Sphere, MaterialKind::Diffuse),
        (ObjectKind::Cube, MaterialKind::Reflective),
        (ObjectKind::Cylinder, MaterialKind::Diffuse),
        (ObjectKind::Sphere, MaterialKind::Diffuse),
        (ObjectKind::Sphere, MaterialKind::Emissive),
        (ObjectKind::Sphere, MaterialKind::Dielectric),
    ]
}

} // verus!
