use whispera::engine::{finish_effects, idle_phase};
use whispera::engine::{copy_failed, key_required, paste_gate, transcription_slot};
use whispera::engine::{
    active, control_plan, copy_allowed, hide_after_completion, import_allowed, numbered_file,
    progress_text, recovery_visible, retry_allowed, reveal_allowed, shortcut_action,
    stops_on_shutdown, ControlPlan, FinishKind, ShortcutAction,
};

#[test]
fn only_successful_live_dictation_auto_hides() {
    let mut phase = "done";
    let mut error = String::new();
    assert!(hide_after_completion(true, phase, &error));
    assert!(!hide_after_completion(false, phase, &error));
    error = "Clipboard failed".into();
    assert!(!hide_after_completion(true, phase, &error));
    error.clear();
    for p in ["idle", "recording", "paused", "processing", "error"] {
        phase = p;
        assert!(!hide_after_completion(true, phase, &error));
    }
}

#[test]
fn recorder_actions_by_phase() {
    assert_eq!(
        control_plan("start", "idle", false, false).unwrap(),
        ControlPlan::Start { restore_sound: true }
    );
    assert_eq!(
        control_plan("start", "recording", false, false).unwrap(),
        ControlPlan::Start { restore_sound: false }
    );
    assert_eq!(control_plan("pause", "recording", false, false).unwrap(), ControlPlan::Pause);
    assert_eq!(
        control_plan("mute", "paused", true, false).unwrap(),
        ControlPlan::Mute { restore: true }
    );
    assert_eq!(
        control_plan("mute", "idle", false, false).unwrap_err(),
        "No hay grabacion activa"
    );
    assert_eq!(
        control_plan("stop", "recording", false, false).unwrap(),
        ControlPlan::Finish(FinishKind::Stop)
    );
    assert_eq!(
        control_plan("save", "recording", false, false).unwrap(),
        ControlPlan::Finish(FinishKind::Save)
    );
    assert_eq!(
        control_plan("cancel", "paused", false, false).unwrap(),
        ControlPlan::Finish(FinishKind::Cancel)
    );
    assert_eq!(
        control_plan("stop", "recording", false, true).unwrap_err(),
        "La transcripcion sigue en curso"
    );
    assert_eq!(
        control_plan("explode", "idle", false, false).unwrap_err(),
        "Accion no valida"
    );
}

#[test]
fn busy_phases_block_other_work() {
    assert!(active("recording") && active("paused") && !active("processing"));
    assert!(recovery_visible("a", "b", "recording"));
    assert!(!recovery_visible("a", "a", "processing"));
    assert!(recovery_visible("a", "a", "done"));
    assert_eq!(
        retry_allowed("paused").unwrap_err(),
        "Finaliza la grabacion actual primero"
    );
    assert!(retry_allowed("idle").is_ok());
    assert_eq!(
        reveal_allowed("processing").unwrap_err(),
        "Espera a que termine el proceso actual"
    );
    assert!(import_allowed("idle", false).is_ok());
    assert!(import_allowed("idle", true).is_err());
    assert!(stops_on_shutdown("paused"));
    assert!(!stops_on_shutdown("processing"));
    assert_eq!(copy_allowed("").unwrap_err(), "No hay texto para copiar");
    assert!(copy_allowed("x").is_ok());
}

#[test]
fn shortcut_toggles_recording() {
    assert_eq!(shortcut_action("processing"), None);
    assert_eq!(shortcut_action("recording"), Some(ShortcutAction::Stop));
    assert_eq!(shortcut_action("idle"), Some(ShortcutAction::Start));
}

#[test]
fn progress_and_file_names() {
    assert_eq!(progress_text(0, 3), "Parte 1 de 3");
    assert_eq!(progress_text(9, 12), "Parte 10 de 12");
    assert_eq!(numbered_file("live", 7, "json"), "live-0007.json");
    assert_eq!(numbered_file("part", 12345, "wav"), "part-12345.wav");
}

#[test]
fn paste_needs_a_verified_clipboard_and_a_target() {
    assert!(paste_gate(true, true).is_ok());
    assert_eq!(
        paste_gate(false, true).unwrap_err(),
        "No se pudo verificar el portapapeles. El texto esta guardado."
    );
    assert_eq!(
        paste_gate(true, false).unwrap_err(),
        "Texto copiado. No habia un campo de destino externo al iniciar."
    );
    assert!(key_required(true).is_ok());
    assert!(key_required(false).unwrap_err().starts_with("Configura o importa"));
    assert!(transcription_slot(false).is_ok());
    assert_eq!(
        transcription_slot(true).unwrap_err(),
        "Ya hay una transcripcion en curso"
    );
    assert!(copy_failed().contains("no se pudo copiar"));
}

#[test]
fn sound_is_restored_after_a_failed_muted_recording() {
    assert!(whispera::engine::sound_recovery_due("error", true));
    assert!(!whispera::engine::sound_recovery_due("error", false));
    assert!(!whispera::engine::sound_recovery_due("recording", true));
}

#[test]
fn finishing_a_recording_by_kind() {
    let stop = finish_effects(FinishKind::Stop);
    assert!(stop.transcribe && !stop.forget_target && !stop.mark_cancelled);
    assert!(!stop.reset_view && !stop.hide_recorder);
    let save = finish_effects(FinishKind::Save);
    assert!(!save.transcribe && save.forget_target && !save.mark_cancelled);
    assert!(!save.reset_view && !save.hide_recorder);
    let cancel = finish_effects(FinishKind::Cancel);
    assert!(!cancel.transcribe && cancel.forget_target && cancel.mark_cancelled);
    assert!(cancel.reset_view && cancel.hide_recorder);
    assert_eq!(idle_phase(), "idle");
}
