use whispera::groq::{audio_extension, connect_error, http_error, request_fields, upload_size};
use whispera::storage::{Rule, Settings};

fn field_pairs(settings: &Settings, rules: &[Rule], word_times: bool) -> Vec<(String, String)> {
    request_fields(settings, rules, word_times)
        .into_iter()
        .map(|f| (f.name, f.value))
        .collect()
}

#[test]
fn request_fields_follow_settings() {
    let settings = Settings::default();
    let fields = field_pairs(&settings, &[], false);
    assert_eq!(
        fields,
        vec![
            ("model".to_string(), "whisper-large-v3-turbo".to_string()),
            ("response_format".to_string(), "json".to_string()),
            ("temperature".to_string(), "0".to_string()),
            ("language".to_string(), "es".to_string()),
        ]
    );
    let mut auto = Settings::default();
    auto.language = "auto".into();
    let rules = vec![Rule {
        id: "1".into(),
        source: "grok".into(),
        target: "Groq".into(),
        enabled: true,
    }];
    let fields = field_pairs(&auto, &rules, true);
    assert_eq!(fields.len(), 5);
    assert_eq!(fields[1].1, "verbose_json");
    assert_eq!(
        fields[3],
        ("timestamp_granularities[]".to_string(), "word".to_string())
    );
    assert_eq!(fields[4].0, "prompt");
    assert!(fields[4].1.ends_with("Groq; "));
}

#[test]
fn audio_extensions_are_compared_in_lowercase() {
    assert_eq!(audio_extension("WAV").unwrap(), "wav");
    assert_eq!(audio_extension("Mp3").unwrap(), "mp3");
    assert_eq!(audio_extension("txt").unwrap_err(), "Formato de audio no admitido");
    assert!(audio_extension("").is_err());
}

#[test]
fn upload_size_limits() {
    assert!(upload_size(true, 1).is_ok());
    assert!(upload_size(true, 24_000_000).is_ok());
    assert!(upload_size(true, 24_000_001).is_err());
    assert!(upload_size(true, 0).is_err());
    assert_eq!(
        upload_size(false, 10).unwrap_err(),
        "Selecciona un archivo de audio de hasta 24 MB. El original no se modifica."
    );
}

#[test]
fn service_errors_keep_the_audio() {
    assert_eq!(
        http_error(429),
        "Groq respondio HTTP 429. El audio original sigue disponible para reintentar."
    );
    assert_eq!(
        connect_error(),
        "No se pudo conectar con Groq. El audio original sigue disponible."
    );
}
