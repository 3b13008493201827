use whispera::legacy::{legacy_document, legacy_history_from, legacy_rules_from, legacy_settings_from};
use whispera::legacy::{already_imported, legacy_file_size};
use whispera::legacy::{
    check_found, history_rows, imported_settings, legacy_color, merge_rules, plan_import,
    import_done_message, LegacyEntry, LegacyRule, LegacySettings,
};
use whispera::storage::Rule;

fn legacy_rule(source: &str, target: &str) -> LegacyRule {
    LegacyRule {
        source: Some(source.into()),
        target: Some(target.into()),
        enabled: None,
    }
}

fn entry(text: &str, timestamp: &str) -> LegacyEntry {
    LegacyEntry {
        text: Some(text.into()),
        timestamp: Some(timestamp.into()),
    }
}

#[test]
fn legacy_colors_map_to_hex() {
    assert_eq!(legacy_color("red"), "#F51C28");
    assert_eq!(legacy_color("bordo"), "#800020");
    assert_eq!(legacy_color("bordeaux"), "#800020");
    assert_eq!(legacy_color("purple"), "#9024DC");
    assert_eq!(legacy_color("gold"), "#E5B322");
    assert_eq!(legacy_color("white"), "#F3F3F3");
    assert_eq!(legacy_color("#123456"), "#123456");
}

#[test]
fn imported_settings_keep_only_known_fields() {
    let s = imported_settings(&LegacySettings {
        hotkey: Some("F8".into()),
        groq_model: None,
        pill_color: Some("gold".into()),
    });
    assert_eq!(s.hotkey, "F8");
    assert_eq!(s.model, "whisper-large-v3-turbo");
    assert_eq!(s.color, "#E5B322");
    assert_eq!(s.language, "es");
}

#[test]
fn nothing_found_is_refused() {
    assert_eq!(
        check_found(false, false, false).unwrap_err(),
        "No se encontraron archivos de Whispera en esa carpeta"
    );
    assert!(check_found(false, true, false).is_ok());
}

#[test]
fn merge_appends_new_rules_once() {
    let stored = vec![Rule {
        id: "a".into(),
        source: "grok".into(),
        target: "Groq".into(),
        enabled: true,
    }];
    let items = vec![
        legacy_rule("grok", "Groq"),
        LegacyRule {
            source: Some("wisper".into()),
            target: Some("Whisper".into()),
            enabled: Some(false),
        },
        legacy_rule("wisper", "Whisper"),
    ];
    let merged = merge_rules(stored.clone(), &items).unwrap();
    assert_eq!(merged.len(), 2);
    assert_eq!(merged[0].id, "a");
    assert_eq!(merged[1].source, "wisper");
    assert!(!merged[1].enabled);
    let id: Vec<char> = merged[1].id.chars().collect();
    assert_eq!(id.len(), 36);
    assert_eq!((id[8], id[13], id[14], id[18], id[23]), ('-', '-', '4', '-', '-'));
    assert!(id.iter().all(|c| *c == '-' || c.is_ascii_digit() || ('a'..='f').contains(c)));
    // importing the same entries again adds nothing
    let again = merge_rules(merged.clone(), &items).unwrap();
    assert_eq!(again.len(), 2);
    assert_eq!(again[1].id, merged[1].id);
}

#[test]
fn merge_refuses_broken_entries() {
    assert_eq!(
        merge_rules(vec![], &[LegacyRule { source: None, target: Some("x".into()), enabled: None }])
            .unwrap_err(),
        "Palabra anterior invalida"
    );
    assert_eq!(
        merge_rules(vec![], &[LegacyRule { source: Some("x".into()), target: None, enabled: None }])
            .unwrap_err(),
        "Correccion anterior invalida"
    );
    assert_eq!(
        merge_rules(vec![], &[legacy_rule("", "Test")]).unwrap_err(),
        "Regla anterior vacia"
    );
}

#[test]
fn history_rows_need_text_and_date() {
    let rows = history_rows(&[entry("Prueba", "2026-01-01T12:00:00")]).unwrap();
    assert_eq!(rows.len(), 1);
    assert_eq!(rows[0].text, "Prueba");
    assert_eq!(rows[0].timestamp, "2026-01-01T12:00:00");
    assert_eq!(
        history_rows(&[LegacyEntry { text: None, timestamp: Some("x".into()) }]).unwrap_err(),
        "Transcripcion anterior invalida"
    );
    assert_eq!(
        history_rows(&[LegacyEntry { text: Some("x".into()), timestamp: None }]).unwrap_err(),
        "Fecha de transcripcion invalida"
    );
}

#[test]
fn import_plan_checks_everything_before_writing() {
    let plan = plan_import(
        Some(LegacySettings { hotkey: Some("F8".into()), groq_model: None, pill_color: None }),
        Some(Some(vec![entry("Prueba", "2026-01-01T12:00:00")])),
        Some(Some(vec![legacy_rule("grok", "Groq")])),
        Ok(vec![]),
    )
    .unwrap();
    assert_eq!(plan.settings.unwrap().hotkey, "F8");
    assert_eq!(plan.history.len(), 1);
    assert_eq!(plan.rules.unwrap().len(), 1);
    // an invalid dictionary refuses the whole import, history included
    assert!(plan_import(
        None,
        Some(Some(vec![entry("Test", "2026-01-01")])),
        Some(Some(vec![legacy_rule("", "Test")])),
        Ok(vec![]),
    )
    .is_err());
    assert_eq!(
        plan_import(None, Some(None), None, Ok(vec![])).err().unwrap(),
        "El historial anterior no es una lista"
    );
    assert!(plan_import(None, None, Some(None), Ok(vec![])).is_err());
    assert!(plan_import(None, None, Some(Some(vec![])), Err("db".into())).is_err());
    // an unknown model makes the preferences invalid
    assert!(plan_import(
        Some(LegacySettings { hotkey: None, groq_model: Some("gpt".into()), pill_color: None }),
        None,
        None,
        Ok(vec![]),
    )
    .is_err());
    let empty = plan_import(None, None, None, Ok(vec![])).unwrap();
    assert!(empty.settings.is_none() && empty.history.is_empty() && empty.rules.is_none());
    assert!(import_done_message().contains("La clave API no se importa"));
}

#[test]
fn legacy_files_have_a_size_limit() {
    assert!(legacy_file_size(32_000_000).is_ok());
    assert_eq!(
        legacy_file_size(32_000_001).unwrap_err(),
        "Archivo de importacion demasiado grande"
    );
    assert_eq!(already_imported(), "Esta carpeta ya fue importada");
}

#[test]
fn invalid_legacy_preferences_name_the_problem() {
    let refused = plan_import(
        Some(LegacySettings { hotkey: None, groq_model: None, pill_color: Some("pink".into()) }),
        None,
        None,
        Ok(vec![]),
    );
    assert_eq!(refused.err().unwrap(), "Color HEX invalido");
    let refused = plan_import(
        Some(LegacySettings { hotkey: Some(" ".into()), groq_model: None, pill_color: None }),
        None,
        None,
        Ok(vec![]),
    );
    assert_eq!(refused.err().unwrap(), "Atajo invalido");
}

#[test]
fn legacy_files_are_read_from_json() {
    let settings = br#"{"groq_api_key":"synthetic-secret-for-test","hotkey":"F8"}"#;
    assert!(legacy_document(settings).is_ok());
    let ls = legacy_settings_from(settings);
    assert_eq!(ls.hotkey.as_deref(), Some("F8"));
    assert!(ls.groq_model.is_none() && ls.pill_color.is_none());
    let plan = plan_import(Some(ls), None, None, Ok(vec![])).unwrap();
    assert_eq!(plan.settings.unwrap().hotkey, "F8");

    let history = br#"[{"timestamp":"2026-01-01","text":"Test"}]"#;
    let rules = br#"[{"source":"","target":"Test"}]"#;
    let entries = legacy_history_from(history).unwrap();
    assert_eq!(entries[0].text.as_deref(), Some("Test"));
    assert_eq!(entries[0].timestamp.as_deref(), Some("2026-01-01"));
    // an invalid dictionary refuses the history too
    assert_eq!(
        plan_import(None, Some(Some(entries)), Some(legacy_rules_from(rules)), Ok(vec![]))
            .err()
            .unwrap(),
        "Regla anterior vacia"
    );

    let nested = br#"{"corrections":[{"source":"grok","target":"Groq","enabled":false},{"source":1}]}"#;
    let items = legacy_rules_from(nested).unwrap();
    assert_eq!(items.len(), 2);
    assert_eq!(items[0].enabled, Some(false));
    assert_eq!(items[1].source, None);
    assert!(legacy_rules_from(br#"{"other":[]}"#).is_none());
    assert!(legacy_history_from(br#"{"text":"x"}"#).is_none());
    assert_eq!(
        legacy_document(b"[{").unwrap_err(),
        "Un archivo anterior contiene JSON invalido; no se importo nada"
    );
}
