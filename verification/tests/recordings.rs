use whispera::audio::{recorder_next, RecorderEvent, RecorderState};
use whispera::system_audio::{mute_allowed, restore_failed, restore_step, RestoreStep};
use whispera::audio::{
    capture_health, check_session_id, finish_check, pause_phase, pcm_parts, pcm_samples,
    recorder_action, recovery_listed, recovery_order, refusal, stop_phase, trim_block, trim_plan,
    Manifest, RecorderAction, RecorderCommand,
};

#[test]
fn rejects_traversal() {
    assert!(check_session_id("../x").is_err());
}

#[test]
fn session_ids_must_be_uuids() {
    assert!(check_session_id("67e55044-10b1-426f-9247-bb680e5fe0c8").is_ok());
    assert_eq!(
        check_session_id("..\\x").unwrap_err(),
        "Identificador de audio invalido"
    );
    assert!(check_session_id("").is_err());
}

#[test]
fn pcm_is_little_endian_and_ignores_an_odd_byte() {
    assert_eq!(pcm_samples(&[0x01, 0x00, 0xff, 0xff, 0x00, 0x80, 0x7f]), vec![1, -1, -32768]);
    assert!(pcm_samples(&[]).is_empty());
}

#[test]
fn parts_cover_the_recording() {
    assert_eq!(
        pcm_parts(10, 4, 16_000).unwrap(),
        vec![(0, 4), (4, 4), (8, 2)]
    );
    // an odd part size is rounded down to whole samples; the odd last byte holds no sample
    assert_eq!(pcm_parts(7, 5, 16_000).unwrap(), vec![(0, 4), (4, 3)]);
    assert_eq!(
        pcm_parts(1, 4, 16_000).unwrap_err(),
        "El archivo de audio esta vacio"
    );
    assert_eq!(
        pcm_parts(10, 1, 16_000).unwrap_err(),
        "Formato de recuperacion invalido"
    );
    assert!(pcm_parts(10, 4, 0).is_err());
}

#[test]
fn trimming_keeps_neighbours_of_audible_blocks() {
    assert_eq!(trim_block(16_000), 8000);
    assert_eq!(trim_block(1), 1);
    let audible = [false, false, true, false, false, false, true];
    assert_eq!(
        trim_plan(1, 16, true, &audible).unwrap(),
        vec![false, true, true, true, false, true, true]
    );
    assert!(trim_plan(2, 16, true, &audible).is_none());
    assert!(trim_plan(1, 24, true, &audible).is_none());
    assert!(trim_plan(1, 16, false, &audible).is_none());
    assert!(trim_plan(1, 16, true, &[false, false]).is_none());
}

#[test]
fn recoveries_are_listed_when_unfinished_with_audio() {
    let m = Manifest {
        id: "x".into(),
        sample_rate: 16_000,
        created_at: "2026-01-01".into(),
    };
    assert!(recovery_listed(false, false, Some(&m), 2));
    assert!(!recovery_listed(true, false, Some(&m), 2));
    assert!(!recovery_listed(false, true, Some(&m), 2));
    assert!(!recovery_listed(false, false, None, 2));
    assert!(!recovery_listed(false, false, Some(&m), 0));
    let silent = Manifest { sample_rate: 0, ..m };
    assert!(!recovery_listed(false, false, Some(&silent), 2));
}

#[test]
fn recoveries_newest_first() {
    let created: Vec<String> = [
        "2026-01-02T10:00:00",
        "2026-03-01T08:00:00",
        "2026-01-02T10:00:00",
        "2025-12-31T23:59:59",
        "2026-03-01T08:00:01",
    ]
    .iter()
    .map(|s| s.to_string())
    .collect();
    assert_eq!(recovery_order(&created), vec![4, 1, 0, 2, 3]);
    assert!(recovery_order(&vec![]).is_empty());
}

#[test]
fn recorder_commands() {
    assert_eq!(recorder_action(false, false, RecorderCommand::Start), RecorderAction::Begin);
    assert_eq!(recorder_action(true, false, RecorderCommand::Start), RecorderAction::RefuseStart);
    assert_eq!(
        recorder_action(true, false, RecorderCommand::Pause),
        RecorderAction::SetPaused { paused: true }
    );
    assert_eq!(
        recorder_action(true, true, RecorderCommand::Pause),
        RecorderAction::SetPaused { paused: false }
    );
    assert_eq!(recorder_action(false, false, RecorderCommand::Pause), RecorderAction::RefusePause);
    assert_eq!(recorder_action(true, true, RecorderCommand::Stop), RecorderAction::Finish);
    assert_eq!(recorder_action(false, false, RecorderCommand::Stop), RecorderAction::RefuseStop);
    assert_eq!(recorder_action(true, false, RecorderCommand::Closed), RecorderAction::Shutdown);
    assert_eq!(refusal(RecorderAction::RefuseStart).unwrap(), "Ya estas grabando");
    assert_eq!(refusal(RecorderAction::RefuseStop).unwrap(), "No hay grabacion activa");
    assert!(refusal(RecorderAction::Begin).is_none());
    assert_eq!(pause_phase(true), "paused");
    assert_eq!(pause_phase(false), "recording");
    assert_eq!(stop_phase(true), "ready");
    assert_eq!(stop_phase(false), "error");
    assert!(finish_check(1).is_ok());
    assert_eq!(
        finish_check(0).unwrap_err(),
        "El microfono no entrego audio. Revisa los permisos de Windows."
    );
    assert!(capture_health(false).is_ok());
    assert!(capture_health(true).unwrap_err().ends_with("Recuperar."));
}

#[test]
fn parts_hold_every_sample_once() {
    let parts = pcm_parts(1_000_001, 300_001, 16_000).unwrap();
    let samples: u64 = parts.iter().map(|p| p.1 / 2).sum();
    assert_eq!(samples, 500_000);
    for pair in parts.windows(2) {
        assert_eq!(pair[0].0 + pair[0].1, pair[1].0);
    }
    assert!(parts.iter().all(|p| p.1 <= 300_000));
}

#[test]
fn system_sound_journal() {
    assert!(mute_allowed(false).is_ok());
    assert_eq!(
        mute_allowed(true).unwrap_err(),
        "Hay una restauracion de sonido pendiente"
    );
    assert_eq!(restore_step(false, true), RestoreStep::Nothing);
    assert_eq!(restore_step(true, false), RestoreStep::DeleteJournal);
    assert_eq!(restore_step(true, true), RestoreStep::KeepJournal);
    assert!(restore_failed().starts_with("No se pudo restaurar"));
}

#[test]
fn session_ids_in_every_uuid_form() {
    assert!(check_session_id("67E55044-10B1-426F-9247-BB680E5FE0C8").is_ok());
    assert!(check_session_id("67e5504410b1426f9247bb680e5fe0c8").is_ok());
    assert!(check_session_id("{67e55044-10b1-426f-9247-bb680e5fe0c8}").is_ok());
    assert!(check_session_id("urn:uuid:67e55044-10b1-426f-9247-bb680e5fe0c8").is_ok());
    assert!(check_session_id("67e55044-10b1-426f-9247-bb680e5fe0c").is_err());
    assert!(check_session_id("67e55044_10b1_426f_9247_bb680e5fe0c8").is_err());
    assert!(check_session_id("g7e55044-10b1-426f-9247-bb680e5fe0c8").is_err());
}

#[test]
fn rejoined_parts_give_back_every_sample() {
    let bytes: Vec<u8> = (0..23u8).map(|b| b.wrapping_mul(37)).collect();
    let whole = pcm_samples(&bytes);
    let mut joined: Vec<i16> = Vec::new();
    for (offset, size) in pcm_parts(bytes.len() as u64, 7, 16_000).unwrap() {
        let (start, end) = (offset as usize, (offset + size) as usize);
        joined.extend(pcm_samples(&bytes[start..end]));
    }
    assert_eq!(joined, whole);
    assert_eq!(joined.len(), 11);
}

#[test]
fn recorder_state_over_commands() {
    let idle = RecorderState { active: false, paused: false };
    let start = |began| RecorderEvent::Command { command: RecorderCommand::Start, began };
    let cmd = |command| RecorderEvent::Command { command, began: false };
    assert_eq!(recorder_next(idle, start(false)), idle);
    let running = recorder_next(idle, start(true));
    assert_eq!(running, RecorderState { active: true, paused: false });
    assert_eq!(recorder_next(running, start(true)), running);
    let paused = recorder_next(running, cmd(RecorderCommand::Pause));
    assert_eq!(paused, RecorderState { active: true, paused: true });
    assert_eq!(recorder_next(paused, cmd(RecorderCommand::Pause)), running);
    assert_eq!(recorder_next(idle, cmd(RecorderCommand::Pause)), idle);
    assert_eq!(recorder_next(paused, cmd(RecorderCommand::Stop)), idle);
    assert_eq!(recorder_next(running, cmd(RecorderCommand::Closed)), idle);
    assert_eq!(recorder_next(paused, RecorderEvent::Fault), idle);
    assert_eq!(recorder_action(false, false, RecorderCommand::Start), RecorderAction::Begin);
    assert_eq!(recorder_action(true, false, RecorderCommand::Start), RecorderAction::RefuseStart);
}
