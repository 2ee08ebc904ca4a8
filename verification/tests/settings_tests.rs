use luxifer::ui_settings::{
    clamp_splash_ms, default_charon_url, default_modal_backdrop_alpha, default_splash_ms,
    default_true, default_workplace_id, is_former_default_theme, needs_rewrite, ThemePalette,
    SPLASH_MS_MAX,
};

#[test]
fn defaults_of_older_settings_files() {
    assert_eq!(default_splash_ms(), 1500);
    assert_eq!(default_modal_backdrop_alpha(), 200);
    assert_eq!(default_charon_url(), "http://127.0.0.1:3737");
    assert!(default_true());
    assert!(!default_workplace_id().is_empty());
}

#[test]
fn splash_ms_wird_geklemmt() {
    assert_eq!(clamp_splash_ms(99_999), SPLASH_MS_MAX);
    assert_eq!(clamp_splash_ms(0), 0);
    assert_eq!(clamp_splash_ms(700), 700);
}

#[test]
fn alte_benutzerfarben_bleiben_beim_palette_upgrade_erhalten() {
    assert!(is_former_default_theme([59, 130, 246], [96, 102, 112]));
    assert!(!is_former_default_theme([10, 20, 30], [40, 50, 60]));
}

#[test]
fn rewrite_when_id_missing_or_format_old() {
    assert!(needs_rewrite(false, Some(2)));
    assert!(needs_rewrite(true, Some(1)));
    assert!(needs_rewrite(true, None));
    assert!(!needs_rewrite(true, Some(2)));
}

#[test]
fn workshop_palette_is_default() {
    let p = ThemePalette::default();
    assert_eq!(p.background, [0x11, 0x13, 0x18]);
    assert_eq!(p.danger, [0xf8, 0x71, 0x71]);
}
