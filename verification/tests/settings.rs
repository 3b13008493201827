use whispera::storage::{sound_theme_known, Settings};

#[test]
fn defaults_valid() {
    assert!(Settings::default().validate().is_ok());
}

#[test]
fn malformed_color_rejected() {
    let mut s = Settings::default();
    s.color = "#nope!!".into();
    assert!(s.validate().is_err());
}

#[test]
fn color_refusal_message() {
    let mut s = Settings::default();
    s.color = "#12345".into();
    assert_eq!(s.validate().unwrap_err(), "Color HEX invalido");
}

#[test]
fn scale_bounds_are_float_bit_patterns() {
    assert_eq!(whispera::storage::SCALE_MIN_BITS, 0.6f64.to_bits());
    assert_eq!(whispera::storage::SCALE_MAX_BITS, 1.25f64.to_bits());
    assert_eq!(whispera::storage::SCALE_DEFAULT_BITS, 0.85f64.to_bits());
    assert_eq!(Settings::default().recorder_scale_bits, 0.85f64.to_bits());
}

#[test]
fn settings_refusals_name_the_field() {
    let mut s = Settings::default();
    s.sound_theme = "bell".into();
    assert_eq!(s.validate().unwrap_err(), "Sonido o tamano no valido");
    let mut s = Settings::default();
    s.recorder_scale_bits = 2.0f64.to_bits();
    assert!(s.validate().is_err());
    let mut s = Settings::default();
    s.recorder_scale_bits = 1.25f64.to_bits();
    assert!(s.validate().is_ok());
    s.recorder_scale_bits = 0.6f64.to_bits();
    assert!(s.validate().is_ok());
    s.recorder_scale_bits = f64::NAN.to_bits();
    assert!(s.validate().is_err());
    let mut s = Settings::default();
    s.model = "gpt".into();
    assert_eq!(s.validate().unwrap_err(), "Modelo no admitido");
    let mut s = Settings::default();
    s.language = "fr".into();
    assert_eq!(s.validate().unwrap_err(), "Idioma no admitido");
    let mut s = Settings::default();
    s.pattern = "dots".into();
    assert_eq!(s.validate().unwrap_err(), "Apariencia no admitida");
    let mut s = Settings::default();
    s.hotkey = "   ".into();
    assert_eq!(s.validate().unwrap_err(), "Atajo invalido");
    let mut s = Settings::default();
    s.hotkey = "K".repeat(81);
    assert!(s.validate().is_err());
    let mut s = Settings::default();
    s.color = "#A0b1C2".into();
    assert!(s.validate().is_ok());
}

#[test]
fn sound_themes() {
    assert!(sound_theme_known("cristal"));
    assert!(sound_theme_known("destello"));
    assert!(!sound_theme_known("Cristal"));
}
