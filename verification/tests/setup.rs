use whispera::onboarding::{
    checked_key, import_groq_key, key_status_error, pick_groq_key, saved_key, validation_key,
};

#[test]
fn keys_are_trimmed_and_checked() {
    assert_eq!(checked_key("  gsk_abc \n").unwrap(), "gsk_abc");
    assert!(checked_key("   ").is_none());
    assert!(checked_key("gsk abc").is_none());
    assert!(checked_key("gsk\u{3000}abc").is_none());
    assert!(checked_key(&"k".repeat(1024)).is_some());
    assert!(checked_key(&"k".repeat(1025)).is_none());
    // the limit is in bytes: 512 two-byte characters fit, 513 do not
    assert!(checked_key(&"ñ".repeat(512)).is_some());
    assert!(checked_key(&"ñ".repeat(513)).is_none());
}

#[test]
fn key_messages_differ_by_screen() {
    assert_eq!(validation_key(" ").unwrap_err(), "Invalid key / Clave no valida");
    assert_eq!(saved_key(" ").unwrap_err(), "Clave no valida");
    assert_eq!(saved_key(" gsk_1 ").unwrap(), "gsk_1");
    assert_eq!(validation_key("gsk_1").unwrap(), "gsk_1");
}

#[test]
fn key_probe_status() {
    assert!(key_status_error(200).is_none());
    assert!(key_status_error(204).is_none());
    assert_eq!(
        key_status_error(401).unwrap(),
        "Groq HTTP 401. Check key or retry / Revisa la clave o reintenta"
    );
    assert!(key_status_error(301).is_some());
}

#[test]
fn folder_key_prefers_env_file() {
    let entries = vec![
        ("OTHER".to_string(), "x".to_string()),
        ("GROQ_API_KEY".to_string(), " gsk_env ".to_string()),
        ("GROQ_API_KEY".to_string(), "gsk_second".to_string()),
    ];
    assert_eq!(pick_groq_key(&entries, Some("gsk_json".into())).unwrap(), "gsk_env");
    let empty_env = vec![("GROQ_API_KEY".to_string(), String::new())];
    assert_eq!(pick_groq_key(&empty_env, Some("gsk_json".into())).unwrap(), "gsk_json");
    assert_eq!(
        pick_groq_key(&vec![], None).unwrap_err(),
        "No se encontro una clave Groq en esa carpeta"
    );
    assert_eq!(pick_groq_key(&vec![], Some("a b".into())).unwrap_err(), "Clave no valida");
}

#[test]
fn folder_key_from_settings_file() {
    let json = br#"{"groq_api_key":"gsk_file","hotkey":"F8"}"#.to_vec();
    assert_eq!(import_groq_key(&vec![], Some(json)).unwrap(), "gsk_file");
    let not_string = br#"{"groq_api_key":42}"#.to_vec();
    assert!(import_groq_key(&vec![], Some(not_string)).is_err());
    let broken = b"{not json".to_vec();
    assert_eq!(
        import_groq_key(&vec![], Some(broken)).unwrap_err(),
        "No se encontro una clave Groq en esa carpeta"
    );
    assert!(import_groq_key(&vec![], None).is_err());
}
