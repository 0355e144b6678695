use rebound::color::{Color, COLOR_ONE};
use rebound::trace::{color, color_step, MaterialKind, RayResolution, StepAction};

fn white() -> Color {
    Color::new(COLOR_ONE, COLOR_ONE, COLOR_ONE)
}

#[test]
fn miss_finishes_with_background() {
    let a = color_step(&RayResolution::Miss, 0, 5);
    assert!(matches!(a, StepAction::FinishBackground));
}

#[test]
fn emissive_surface_finishes_with_its_emission() {
    let glow = Color::new(COLOR_ONE, 100, 200);
    let res = RayResolution::Surface { material: MaterialKind::Emissive { color: glow } };
    match color_step(&res, 0, 5) {
        StepAction::FinishEmitted { emitted } => assert_eq!(emitted, glow),
        _ => panic!("an emissive surface must not bounce"),
    }
}

#[test]
fn lambertian_below_the_bound_bounces_with_its_albedo() {
    let albedo = Color::new(1000, 2000, 3000);
    let res = RayResolution::Surface { material: MaterialKind::Lambertian { albedo } };
    match color_step(&res, 2, 5) {
        StepAction::Bounce { emitted, attenuation } => {
            assert_eq!(emitted, Color::new(0, 0, 0));
            assert_eq!(attenuation, albedo);
        },
        _ => panic!("a diffuse surface below the bound must bounce"),
    }
}

#[test]
fn any_surface_at_the_bound_is_terminal() {
    let albedo = Color::new(1000, 2000, 3000);
    let res = RayResolution::Surface { material: MaterialKind::Metal { albedo } };
    match color_step(&res, 5, 5) {
        StepAction::FinishEmitted { emitted } => assert_eq!(emitted, Color::new(0, 0, 0)),
        _ => panic!("the depth bound must end the recursion"),
    }
}

#[test]
fn depth_bound_zero_never_bounces() {
    let kinds = [
        MaterialKind::Lambertian { albedo: white() },
        MaterialKind::Metal { albedo: white() },
        MaterialKind::Emissive { color: white() },
    ];
    for material in kinds {
        let a = color_step(&RayResolution::Surface { material }, 0, 0);
        assert!(!matches!(a, StepAction::Bounce { .. }));
    }
}

#[test]
fn empty_path_is_the_background() {
    let bg = Color::new(111, 222, 333);
    let c = color(&bg, &Vec::new(), 3);
    assert_eq!(c, bg);
}

#[test]
fn emissive_only_path_returns_exactly_the_emission() {
    let glow = Color::new(40000, 30000, 20000);
    let bg = Color::new(1, 2, 3);
    let hits = vec![MaterialKind::Emissive { color: glow }];
    for max_depth in [0usize, 1, 3, 10] {
        assert_eq!(color(&bg, &hits, max_depth), glow);
    }
}

#[test]
fn depth_zero_returns_only_emission_for_any_path() {
    let bg = Color::new(7, 7, 7);
    let hits = vec![
        MaterialKind::Lambertian { albedo: white() },
        MaterialKind::Emissive { color: white() },
    ];
    // The first surface is diffuse and emits black; with no bounces allowed
    // the path's color is exactly that black emission.
    assert_eq!(color(&bg, &hits, 0), Color::new(0, 0, 0));
}

#[test]
fn perfect_mirror_passes_the_light_through_unchanged() {
    let glow = Color::new(50000, 40000, 30000);
    let bg = Color::new(0, 0, 0);
    let hits = vec![
        MaterialKind::Metal { albedo: white() },
        MaterialKind::Emissive { color: glow },
    ];
    // black + 1.0 * glow == glow, exactly, in fixed point.
    assert_eq!(color(&bg, &hits, 2), glow);
}

#[test]
fn half_albedo_halves_the_light() {
    let glow = Color::new(40000, 20000, 0);
    let bg = Color::new(0, 0, 0);
    let hits = vec![
        MaterialKind::Lambertian { albedo: Color::all(COLOR_ONE / 2) },
        MaterialKind::Emissive { color: glow },
    ];
    assert_eq!(color(&bg, &hits, 2), Color::new(20000, 10000, 0));
}

#[test]
fn short_path_ends_in_the_background() {
    let bg = Color::new(10000, 10000, 10000);
    let hits = vec![MaterialKind::Lambertian { albedo: white() }];
    // The diffuse bounce met nothing: black + 1.0 * background.
    assert_eq!(color(&bg, &hits, 3), bg);
}
