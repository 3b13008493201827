use whispera::groq::{corrections, prompt, stable_desc_order, transcript_text, validate_rules};
use whispera::storage::Rule;

fn rule(source: &str, target: &str) -> Rule {
    Rule {
        id: source.to_string(),
        source: source.to_string(),
        target: target.to_string(),
        enabled: true,
    }
}

#[test]
fn longest_rules_and_punctuation_keep_original_boundaries() {
    let rules = vec![
        rule("foo", "short"),
        rule("foo bar", "long"),
        rule("C++", "C plus plus"),
    ];
    assert_eq!(
        corrections("foo bar, foo! C++ XC++ C++x", &rules),
        "long, short! C plus plus XC++ C++x"
    );
}

#[test]
fn rules_reject_duplicates_and_noops() {
    assert!(validate_rules(&[rule("Groq", "Groq")]).is_err());
    assert!(validate_rules(&[rule("grok", "Groq"), rule(" GROK ", "Otro")]).is_err());
    assert!(validate_rules(&[rule("grok", "Groq")]).is_ok());
}

#[test]
fn prompt_contains_active_dictionary_with_bounded_unicode() {
    let mut disabled = rule("wrong", "Excluded");
    disabled.enabled = false;
    let rules = vec![rule("grok", "Groq"), disabled, rule("huge", &"ñ".repeat(900))];
    let p = prompt(&rules);
    assert!(p.contains("Groq"));
    assert!(!p.contains("Excluded"));
    assert!(p.chars().count() <= 600);
}

#[test]
fn corrections_respect_words_and_literals() {
    let r = Rule {
        id: "1".into(),
        source: "grok".into(),
        target: "Groq $1".into(),
        enabled: true,
    };
    assert_eq!(corrections("GROK grokking", &[r]), "Groq $1 grokking");
}

#[test]
fn rule_refusals_name_the_problem() {
    assert_eq!(
        validate_rules(&[rule("Groq", "groq ")]).unwrap_err(),
        "La correccion debe cambiar la palabra"
    );
    assert_eq!(
        validate_rules(&[rule("  ", "x")]).unwrap_err(),
        "Correccion vacia o demasiado larga"
    );
    assert_eq!(
        validate_rules(&[rule("a", &"b".repeat(501))]).unwrap_err(),
        "Correccion vacia o demasiado larga"
    );
    let mut same_id = rule("otra", "Distinta");
    same_id.id = "grok".into();
    assert_eq!(
        validate_rules(&[rule("grok", "Groq"), same_id]).unwrap_err(),
        "Ya existe una regla para esa palabra"
    );
    let mut no_id = rule("a", "b");
    no_id.id = String::new();
    assert!(validate_rules(&[no_id]).is_err());
    let many: Vec<Rule> = (0..5001).map(|i| rule(&format!("w{i}"), "x")).collect();
    assert_eq!(validate_rules(&many).unwrap_err(), "Demasiadas correcciones");
    assert!(validate_rules(&[]).is_ok());
}

#[test]
fn disabled_and_blank_rules_change_nothing() {
    let mut off = rule("hola", "adios");
    off.enabled = false;
    let blank = rule("   ", "x");
    let text = "hola mundo, hola";
    assert_eq!(corrections(text, &[off, blank]), text);
    assert_eq!(corrections(text, &[]), text);
}

#[test]
fn corrections_match_whole_words_without_case() {
    let rules = vec![rule("whisper", "Whispera")];
    assert_eq!(
        corrections("WHISPER whispering Whisper.", &rules),
        "Whispera whispering Whispera."
    );
}

#[test]
fn prompt_lists_longest_sources_first() {
    let rules = vec![rule("ab", "Corta"), rule("abcdef", "Larga")];
    assert_eq!(
        prompt(&rules),
        "Transcripcion fiel, con puntuacion. Vocabulario y ortografia preferida: Larga; Corta; "
    );
    assert_eq!(
        prompt(&[]),
        "Transcripcion fiel, con puntuacion. Vocabulario y ortografia preferida: "
    );
}

#[test]
fn stable_order_keeps_ties_in_place() {
    let keys = vec![3, 5, 3, 1, 5];
    let keep = vec![true, true, true, true, false];
    assert_eq!(stable_desc_order(&keys, &keep), vec![1, 0, 2, 3]);
}

#[test]
fn transcript_text_applies_dictionary_on_request() {
    let rules = vec![rule("grok", "Groq")];
    assert_eq!(
        transcript_text(Some("grok dice".into()), &rules, true).unwrap(),
        "Groq dice"
    );
    assert_eq!(
        transcript_text(Some("grok dice".into()), &rules, false).unwrap(),
        "grok dice"
    );
    assert_eq!(
        transcript_text(None, &rules, true).unwrap_err(),
        "Groq no devolvio texto"
    );
}

#[test]
fn only_active_rules_matter() {
    let mut off = rule("mundo", "planeta");
    off.enabled = false;
    let all = vec![rule("hola", "Hola"), off, rule("  ", "x"), rule("adios", "Adios")];
    let active = vec![rule("hola", "Hola"), rule("adios", "Adios")];
    let text = "hola mundo, adios";
    assert_eq!(corrections(text, &all), corrections(text, &active));
    assert_eq!(corrections(text, &all), "Hola mundo, Adios");
}

#[test]
fn same_length_rules_apply_in_dictionary_order() {
    // both sources have three characters: the first rule is applied first
    let rules = vec![rule("abc", "xyz"), rule("xyz", "fin")];
    assert_eq!(corrections("abc", &rules), "fin");
    let swapped = vec![rule("xyz", "fin"), rule("abc", "xyz")];
    assert_eq!(corrections("abc", &swapped), "xyz");
}

#[test]
fn corrections_search_left_to_right_without_overlap() {
    let r = Rule {
        id: "1".into(),
        source: "AA".into(),
        target: "b".into(),
        enabled: true,
    };
    assert_eq!(corrections("aaa aA Aa_", &[r]), "aaa b Aa_");
}
