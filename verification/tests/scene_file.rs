use rt::scene_file::{
    default_scene_kinds, plan_scene, MaterialKind, ObjectKind, Placement, RenderSettings,
};

#[test]
fn object_kinds_display_their_names() {
    assert_eq!(ObjectKind::Sphere.to_string(), "Sphere");
    assert_eq!(ObjectKind::Cube.to_string(), "Cube");
    assert_eq!(ObjectKind::Cylinder.to_string(), "Cylinder");
    assert_eq!(ObjectKind::Plane.to_string(), "Plane");
}

#[test]
fn material_kinds_display_their_names() {
    assert_eq!(MaterialKind::Diffuse.to_string(), "Diffuse");
    assert_eq!(MaterialKind::Reflective.to_string(), "Reflective");
    assert_eq!(MaterialKind::Emissive.to_string(), "Emissive");
    assert_eq!(MaterialKind::Dielectric.to_string(), "Dielectric");
}

#[test]
fn kind_names_tell_kinds_apart() {
    let objects = [ObjectKind::Sphere, ObjectKind::Cube, ObjectKind::Cylinder, ObjectKind::Plane];
    for (i, a) in objects.iter().enumerate() {
        for (j, b) in objects.iter().enumerate() {
            assert_eq!(a.to_string() == b.to_string(), i == j);
            assert_eq!(a == b, i == j);
        }
    }
    let materials = [
        MaterialKind::Diffuse,
        MaterialKind::Reflective,
        MaterialKind::Emissive,
        MaterialKind::Dielectric,
    ];
    for (i, a) in materials.iter().enumerate() {
        for (j, b) in materials.iter().enumerate() {
            assert_eq!(a.to_string() == b.to_string(), i == j);
            assert_eq!(a == b, i == j);
        }
    }
}

#[test]
fn render_settings_default() {
    let s = RenderSettings::default();
    assert_eq!(s.width, 600);
    assert_eq!(s.height, 400);
    assert_eq!(s.samples, 256);
    assert_eq!(s.depth, 16);
    assert_eq!(
        s,
        RenderSettings { width: 600, height: 400, samples: 256, depth: 16 }
    );
}

#[test]
fn render_settings_copy_keeps_fields() {
    let s = RenderSettings { width: 320, height: 240, samples: 64, depth: 8 };
    let t = s;
    assert_eq!(t.width, 320);
    assert_eq!(t.height, 240);
    assert_eq!(t.samples, 64);
    assert_eq!(t.depth, 8);
    assert_ne!(t, RenderSettings::default());
}

#[test]
fn plan_scene_gives_each_object_its_own_material() {
    let objects = vec![
        (ObjectKind::Cube, MaterialKind::Dielectric),
        (ObjectKind::Sphere, MaterialKind::Diffuse),
        (ObjectKind::Sphere, MaterialKind::Diffuse),
    ];
    let plan = plan_scene(&objects);
    assert_eq!(
        plan,
        vec![
            Placement { kind: ObjectKind::Cube, material: MaterialKind::Dielectric, material_id: 0 },
            Placement { kind: ObjectKind::Sphere, material: MaterialKind::Diffuse, material_id: 1 },
            Placement { kind: ObjectKind::Sphere, material: MaterialKind::Diffuse, material_id: 2 },
        ]
    );
    assert!(plan_scene(&vec![]).is_empty());
}

#[test]
fn default_scene_kinds_are_the_demo_scene() {
    let kinds = default_scene_kinds();
    assert!(!kinds.is_empty());
    assert_eq!(
        kinds,
        vec![
            (ObjectKind::Plane, MaterialKind::Diffuse),
            (ObjectKind::Sphere, MaterialKind::Diffuse),
            (ObjectKind::Cube, MaterialKind::Reflective),
            (ObjectKind::Cylinder, MaterialKind::Diffuse),
            (ObjectKind::Sphere, MaterialKind::Diffuse),
            (ObjectKind::Sphere, MaterialKind::Emissive),
            (ObjectKind::Sphere, MaterialKind::Dielectric),
        ]
    );
}
