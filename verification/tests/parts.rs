use whispera::incremental::{
    audio_present, cached_part, fallback_eligible, final_windows, finish_route, join_parts,
    join_whole, owned_text, part_text, plan_version, retry_delay, run_step, session_info,
    upload_stopped, validate_join, window, CutSlot, FinishRoute, RunStep, Window, WordSlot,
};
use whispera::storage::Rule;

fn near(before: bool, word: &str) -> CutSlot {
    CutSlot::Near {
        before,
        word: Some(word.to_string()),
    }
}

fn inside(word: &str) -> WordSlot {
    WordSlot::Inside(Some(word.to_string()))
}

#[test]
fn intervals_cover_tail_and_wait_for_context() {
    assert!(window(0, 60_000, 1000, false).is_none());
    assert_eq!(
        window(0, 61_000, 1000, false).unwrap(),
        Window {
            start: 0,
            end: 60_000,
            from: 0,
            to: 61_000
        }
    );
    let second = window(1, 120_200, 1000, true).unwrap();
    assert_eq!(
        (second.start, second.end, second.from, second.to),
        (60_000, 120_000, 59_000, 120_200)
    );
    assert_eq!(window(2, 120_200, 1000, true).unwrap().end, 120_200);
    assert!(window(3, 180_000, 1000, true).is_none());
    assert!(window(0, 0, 1000, true).is_none());
    assert!(window(0, 20, 0, true).is_none());
}

// The words below are those of the original scenario, placed against the cut
// at sample 60 000 (1000 samples per second) the way the app places them:
// "hola," ends its midpoint at 59.6 s, "mundo" at 60.3 s, both within 0.8 s.
#[test]
fn ambiguous_boundaries_fall_back_without_guessing_repeated_words() {
    let left = Some(vec![near(true, "hola,"), near(false, "mundo")]);
    let right = Some(vec![near(true, "Hola"), near(false, "mundo.")]);
    assert!(validate_join(&left, &right).is_ok());
    // "hola" now straddles the cut (midpoint 60.1 s), "mundo" at 60.45 s
    let left = Some(vec![near(false, "hola"), near(false, "mundo")]);
    assert!(fallback_eligible(&validate_join(&left, &right).unwrap_err()));
    assert!(!fallback_eligible("Groq respondio HTTP 429"));
    assert!(!fallback_eligible("No se pudo conectar con Groq"));
}

// Midpoints against the cores 0..60 000 and 60 000..120 000: "antes" at
// 59 250, "cruce" at 60 000 (owned by the second part), "despues" at 60 550.
#[test]
fn boundary_words_belong_to_only_one_interval() {
    let first = Some(vec![inside("antes"), WordSlot::Outside]);
    let second = Some(vec![WordSlot::Outside, inside("cruce"), inside("despues")]);
    assert_eq!(owned_text(first, None).unwrap(), "antes");
    assert_eq!(owned_text(second, None).unwrap(), "cruce despues");
    assert!(owned_text(None, Some("hola".into())).is_err());
}

#[test]
fn join_errors_name_their_cause() {
    let ok = Some(vec![near(true, "a")]);
    assert_eq!(
        validate_join(&None, &ok).unwrap_err(),
        "Alineacion: faltan tiempos guardados"
    );
    assert_eq!(
        validate_join(&Some(vec![CutSlot::BadTime]), &ok).unwrap_err(),
        "Alineacion: tiempo invalido"
    );
    assert_eq!(
        validate_join(
            &ok,
            &Some(vec![CutSlot::Near {
                before: true,
                word: None
            }])
        )
        .unwrap_err(),
        "Alineacion: palabra invalida"
    );
    // far words and punctuation-only words are ignored
    let left = Some(vec![CutSlot::Far, near(true, "¡A!"), near(false, "...")]);
    assert!(validate_join(&left, &ok).is_ok());
}

#[test]
fn owned_text_refusals() {
    assert_eq!(
        owned_text(Some(vec![inside("a"), WordSlot::BadTime]), None).unwrap_err(),
        "Tiempo de palabra invalido"
    );
    assert_eq!(
        owned_text(Some(vec![WordSlot::Inside(None)]), None).unwrap_err(),
        "Palabra invalida"
    );
    assert_eq!(
        owned_text(Some(vec![]), Some("  hola ".into())).unwrap_err(),
        "Respuesta sin tiempos; texto conservado pendiente de reintento"
    );
    assert_eq!(owned_text(Some(vec![]), Some("  ".into())).unwrap(), "");
    assert_eq!(
        owned_text(Some(vec![inside("  uno "), inside("dos")]), None).unwrap(),
        "uno dos"
    );
    assert_eq!(
        owned_text(None, None).unwrap_err(),
        "Groq no devolvio tiempos de palabras; reintenta el audio guardado"
    );
}

#[test]
fn final_windows_split_every_sample() {
    let ws = final_windows(150_000, 1000);
    assert_eq!(ws.len(), 3);
    assert_eq!(ws[0], Window { start: 0, end: 60_000, from: 0, to: 61_000 });
    assert_eq!(ws[2], Window { start: 120_000, end: 150_000, from: 119_000, to: 150_000 });
    assert!(final_windows(0, 1000).is_empty());
    assert!(final_windows(10, 0).is_empty());
}

#[test]
fn fallback_only_for_join_problems() {
    assert!(fallback_eligible("Alineacion: union ambigua; usando audio completo"));
    assert!(fallback_eligible("Cache de segmento invalida"));
    assert!(fallback_eligible("Segmento guardado incompatible"));
    assert!(!fallback_eligible("alineacion: x"));
}

#[test]
fn finish_route_cases() {
    assert_eq!(finish_route(true, 2, 1_000_000, 1000), FinishRoute::WholeAudio);
    assert_eq!(finish_route(false, 2, 60_999, 1000), FinishRoute::WholeAudio);
    assert_eq!(finish_route(false, 2, 61_000, 1000), FinishRoute::Parts);
    assert_eq!(finish_route(false, 1, 10, 1000), FinishRoute::Parts);
}

#[test]
fn plan_and_session_checks() {
    assert_eq!(plan_version(1).unwrap(), 1);
    assert_eq!(plan_version(2).unwrap(), 2);
    assert_eq!(plan_version(3).unwrap_err(), "Version de segmentos no admitida");
    assert_eq!(session_info(16_000, 3201).unwrap(), (1600, 16_000));
    assert_eq!(
        session_info(0, 10).unwrap_err(),
        "Frecuencia de audio no admitida"
    );
    assert!(session_info(192_001, 10).is_err());
    assert!(session_info(192_000, 10).is_ok());
}

#[test]
fn cached_parts_must_keep_their_core() {
    let w = Window { start: 60_000, end: 120_000, from: 59_000, to: 121_000 };
    let longer = Window { to: 125_000, ..w };
    assert_eq!(cached_part(&longer, &w, "hola".into()).unwrap(), "hola");
    let moved = Window { from: 58_000, ..w };
    assert_eq!(
        cached_part(&moved, &w, "hola".into()).unwrap_err(),
        "Segmento guardado incompatible"
    );
}

#[test]
fn retries_only_for_transient_failures() {
    let e = "No se pudo conectar con Groq";
    assert_eq!(retry_delay(0, e), Some(2));
    assert_eq!(retry_delay(1, e), Some(4));
    assert_eq!(retry_delay(2, e), None);
    assert_eq!(retry_delay(0, "Groq respondio HTTP 503"), Some(2));
    assert_eq!(retry_delay(0, "Groq respondio HTTP 429"), None);
}

#[test]
fn worker_steps() {
    assert_eq!(run_step(true, 0, 1_000_000, 1000), RunStep::Stop);
    assert_eq!(run_step(false, 0, 60_500, 1000), RunStep::Wait);
    assert_eq!(
        run_step(false, 0, 61_000, 1000),
        RunStep::Send(Window { start: 0, end: 60_000, from: 0, to: 61_000 })
    );
}

#[test]
fn parts_join_with_dictionary_once() {
    let rules = vec![Rule {
        id: "1".into(),
        source: "hola mundo".into(),
        target: "Hola, mundo".into(),
        enabled: true,
    }];
    let texts = vec!["hola".to_string(), "mundo segunda".to_string()];
    assert_eq!(join_parts(&texts, &rules), "Hola, mundo segunda");
    assert_eq!(join_whole(&texts, &rules), "hola\n\nmundo segunda");
    assert_eq!(join_parts(&[], &rules), "");
}

#[test]
fn live_part_keeps_its_core_at_stop() {
    let live = window(1, 121_500, 1000, false).unwrap();
    let at_stop = window(1, 300_000, 1000, true).unwrap();
    assert_eq!((live.start, live.end, live.from), (at_stop.start, at_stop.end, at_stop.from));
    assert!(live.to <= at_stop.to);
}

#[test]
fn every_sample_has_one_owner() {
    let samples = 185_250;
    let ws = final_windows(samples, 1000);
    assert_eq!(ws.first().unwrap().start, 0);
    assert_eq!(ws.last().unwrap().end, samples);
    for pair in ws.windows(2) {
        assert_eq!(pair[0].end, pair[1].start);
    }
    for t in [0u64, 59_999, 60_000, 185_249] {
        let owners = ws.iter().filter(|w| w.start <= t && t < w.end).count();
        assert_eq!(owners, 1);
        assert!(ws[(t / 60_000) as usize].start <= t);
    }
}

#[test]
fn join_and_placement_errors_send_the_whole_audio() {
    let ok = Some(vec![near(true, "a")]);
    for e in [
        validate_join(&None, &ok).unwrap_err(),
        validate_join(&Some(vec![CutSlot::BadTime]), &ok).unwrap_err(),
        validate_join(&ok, &Some(vec![near(true, "b")])).unwrap_err(),
        part_text(Some(vec![WordSlot::BadTime]), None).unwrap_err(),
        part_text(None, None).unwrap_err(),
    ] {
        assert!(fallback_eligible(&e), "{e}");
    }
    assert_eq!(
        part_text(Some(vec![WordSlot::Inside(None)]), None).unwrap_err(),
        "Alineacion: Palabra invalida"
    );
    assert_eq!(part_text(Some(vec![inside("hola")]), None).unwrap(), "hola");
}

#[test]
fn service_failures_never_send_the_whole_audio() {
    for status in [400u16, 401, 429, 500, 503] {
        assert!(!fallback_eligible(&whispera::groq::http_error(status)));
    }
    assert!(!fallback_eligible(&whispera::groq::connect_error()));
    assert!(!fallback_eligible(&upload_stopped()));
    assert_eq!(audio_present(0).unwrap_err(), "Audio vacio");
    assert!(audio_present(1).is_ok());
}

#[test]
fn live_uploads_end_with_the_session() {
    let end = whispera::incremental::live_uploads_end;
    assert!(!end("a", "a", "recording"));
    assert!(end("a", "b", "recording"));
    assert!(end("a", "a", "error"));
}

#[test]
fn parts_of_very_long_recordings_are_computed() {
    let w = window(0, u64::MAX, 1000, true).unwrap();
    assert_eq!(w, Window { start: 0, end: 60_000, from: 0, to: 61_000 });
    assert!(window(0, u64::MAX, 1000, false).is_some());
}
