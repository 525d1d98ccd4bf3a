use oxproc::color::{
    color_enabled, color_esc_for, current_mode, init, parse_env_mode, prefix, reset_code,
    ColorMode,
};
use oxproc::dirs::{project_id, state_dir_for_project, xdg_state_home};

#[test]
fn index_deterministic() {
    let a = color_esc_for("api");
    let b = color_esc_for("api");
    assert_eq!(a, b);
}

#[test]
fn prefix_shapes_colored() {
    let config = init(Some(ColorMode::Always), None);
    let p = prefix("api", &config, false);
    assert!(p.starts_with("["));
    assert!(p.ends_with("] "));
    assert!(p.contains(reset_code()));
}

#[test]
fn prefix_plain_without_color() {
    let config = init(Some(ColorMode::Never), None);
    let p = prefix("api", &config, true);
    assert_eq!(p, "[api] ");
}

#[test]
fn env_mode_parsing() {
    assert_eq!(
        parse_env_mode(Some(&"ALWAYS".to_string()), false),
        Some(ColorMode::Always)
    );
    assert_eq!(
        parse_env_mode(Some(&"never".to_string()), false),
        Some(ColorMode::Never)
    );
    assert_eq!(
        parse_env_mode(Some(&"Auto".to_string()), true),
        Some(ColorMode::Auto)
    );
    assert_eq!(
        parse_env_mode(Some(&"garbage".to_string()), true),
        Some(ColorMode::Never)
    );
    assert_eq!(parse_env_mode(None, true), Some(ColorMode::Never));
    assert_eq!(parse_env_mode(None, false), None);
}

#[test]
fn mode_resolution_order() {
    let c = init(Some(ColorMode::Never), Some(ColorMode::Always));
    assert_eq!(current_mode(&c), ColorMode::Never);
    let c = init(None, Some(ColorMode::Always));
    assert_eq!(current_mode(&c), ColorMode::Always);
    let c = init(None, None);
    assert_eq!(current_mode(&c), ColorMode::Auto);
    assert!(color_enabled(&c, true));
    assert!(!color_enabled(&c, false));
}

#[test]
fn project_id_is_stable_hex() {
    let a = project_id("/tmp/project");
    let b = project_id("/tmp/project");
    assert_eq!(a, b);
    assert_eq!(a.len(), 12);
    assert!(a.chars().all(|c| c.is_ascii_hexdigit() && !c.is_ascii_uppercase()));
    assert_ne!(project_id("/tmp/a"), project_id("/tmp/b"));
    // The identifier is a digest, not a transcription of the path bytes.
    assert_ne!(project_id("aaaaaa"), "616161616161");
}

#[test]
fn state_dir_layout() {
    let home = xdg_state_home(None, Some(&"/home/dev".to_string()));
    assert_eq!(home, "/home/dev/.local/state");
    let over = xdg_state_home(Some(&"/custom".to_string()), Some(&"/home/dev".to_string()));
    assert_eq!(over, "/custom");
    let none = xdg_state_home(None, None);
    assert_eq!(none, ".oxproc-state");
    let dir = state_dir_for_project("/custom", "/tmp/project");
    assert_eq!(dir, format!("/custom/oxproc/{}", project_id("/tmp/project")));
}
