use rebound::config::{config_from_args, Config, ConfigError};
use rebound::scenes::{lookup_scene, SceneId};

#[test]
fn defaults_apply_when_arguments_absent() {
    let c: Config = config_from_args(false, None, None, None, Some("thinlens1")).unwrap();
    assert_eq!(c.sample_root, 1);
    assert_eq!(c.max_depth, 3);
    assert_eq!(c.output_file, "output.ppm");
    assert_eq!(c.scene_name, "thinlens1");
    assert!(!c.quiet);
}

#[test]
fn explicit_arguments_parse() {
    let c = config_from_args(
        true,
        Some("4"),
        Some("7"),
        Some("render.ppm"),
        Some("thinlens2"),
    )
    .unwrap();
    assert!(c.quiet);
    assert_eq!(c.sample_root, 4);
    assert_eq!(c.max_depth, 7);
    assert_eq!(c.output_file, "render.ppm");
    assert_eq!(c.scene_name, "thinlens2");
}

#[test]
fn zero_sample_root_is_rejected() {
    let r = config_from_args(false, Some("0"), None, None, Some("thinlens1"));
    assert_eq!(r.unwrap_err(), ConfigError::InvalidSampleRoot);
}

#[test]
fn malformed_sample_root_is_rejected() {
    let r = config_from_args(false, Some("abc"), None, None, Some("thinlens1"));
    assert_eq!(r.unwrap_err(), ConfigError::InvalidSampleRoot);
    let r = config_from_args(false, Some(""), None, None, Some("thinlens1"));
    assert_eq!(r.unwrap_err(), ConfigError::InvalidSampleRoot);
    let r = config_from_args(false, Some("12x"), None, None, Some("thinlens1"));
    assert_eq!(r.unwrap_err(), ConfigError::InvalidSampleRoot);
}

#[test]
fn malformed_depth_is_rejected() {
    let r = config_from_args(false, Some("2"), Some("deep"), None, Some("thinlens1"));
    assert_eq!(r.unwrap_err(), ConfigError::InvalidDepth);
}

#[test]
fn depth_zero_is_accepted() {
    let c = config_from_args(false, None, Some("0"), None, Some("thinlens1")).unwrap();
    assert_eq!(c.max_depth, 0);
}

#[test]
fn missing_scene_name_is_rejected() {
    let r = config_from_args(false, None, None, None, None);
    assert_eq!(r.unwrap_err(), ConfigError::MissingSceneName);
}

#[test]
fn sample_root_error_comes_before_depth_error() {
    let r = config_from_args(false, Some("bad"), Some("bad"), None, None);
    assert_eq!(r.unwrap_err(), ConfigError::InvalidSampleRoot);
}

#[test]
fn overlong_number_is_rejected() {
    let r = config_from_args(
        false,
        Some("99999999999999999999999999"),
        None,
        None,
        Some("thinlens1"),
    );
    assert_eq!(r.unwrap_err(), ConfigError::InvalidSampleRoot);
}

#[test]
fn known_scene_names_are_found() {
    assert_eq!(
        lookup_scene(&String::from("thinlens1")),
        Some(SceneId::ThinLens1)
    );
    assert_eq!(
        lookup_scene(&String::from("thinlens2")),
        Some(SceneId::ThinLens2)
    );
}

#[test]
fn unknown_scene_name_is_not_found() {
    assert_eq!(lookup_scene(&String::from("cornell")), None);
    assert_eq!(lookup_scene(&String::from("")), None);
    assert_eq!(lookup_scene(&String::from("thinlens3")), None);
}
