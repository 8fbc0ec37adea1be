use raytrace::fixed::Fx;
use raytrace::fixed::SCALE;
use raytrace::scenes::default_camera;
use raytrace::scenes::reflective;
use raytrace::scenes::scene_axis_spheres;
use raytrace::scenes::scene_ball_on_plane;
use raytrace::scenes::scene_one_sphere;
use raytrace::scenes::scene_sphere_occlusion_test;
use raytrace::scenes::scene_sphere_surface_test;
use raytrace::scenes::surface_glossy;
use raytrace::scenes::test_surface;
use raytrace::shapes::Shape;
use raytrace::color::LinearColor;

#[test]
fn glossy_and_reflective_finishes() {
    let c = LinearColor { red: Fx { v: SCALE }, green: Fx { v: 0 }, blue: Fx { v: 0 } };
    let s = surface_glossy(c);
    assert_eq!(s.ambient.v, 2_000_000);
    assert_eq!(s.specular.v, 5_000_000);
    assert_eq!(s.light.v, 6_000_000);
    assert_eq!(s.reflection.v, 0);
    assert!(!s.checked);
    let r = reflective(s);
    assert_eq!(r.reflection.v, 2_000_000);
    assert_eq!(r.color, c);
    let t = test_surface(Fx { v: 4_000_000 }, Fx { v: 6_000_000 });
    assert_eq!(t.light.v, 4_000_000);
    assert_eq!(t.specular.v, 6_000_000);
}

#[test]
fn demo_scenes_have_their_catalog_shapes() {
    assert_eq!(scene_sphere_occlusion_test().objects.len(), 6);
    assert_eq!(scene_sphere_surface_test().objects.len(), 25);
    assert_eq!(scene_one_sphere().objects.len(), 4);
    assert_eq!(scene_axis_spheres().objects.len(), 4);
    assert_eq!(scene_ball_on_plane().objects.len(), 2);
}

#[test]
fn demo_scenes_share_the_render_settings() {
    for scene in [
        scene_sphere_occlusion_test(),
        scene_sphere_surface_test(),
        scene_one_sphere(),
        scene_axis_spheres(),
        scene_ball_on_plane(),
    ] {
        assert_eq!(scene.reflect_limit, 2);
        assert_eq!(scene.oversample, 2);
        assert_eq!(scene.camera, default_camera());
        assert_eq!(scene.background.red.v, 0);
    }
}

#[test]
fn surface_test_grid_varies_light_and_specular() {
    let scene = scene_sphere_surface_test();
    match &scene.objects[7] {
        Shape::Sphere(s) => {
            // index 7: column 2, row 1 of the five-by-five grid
            assert_eq!(s.center.x.v, 0);
            assert_eq!(s.center.z.v, -10_000_000);
            assert_eq!(s.surface.light.v, 4_000_000);
            assert_eq!(s.surface.specular.v, 2_000_000);
            assert_eq!(s.r.v, 4_000_000);
        },
        _ => panic!("expected a sphere"),
    }
}
