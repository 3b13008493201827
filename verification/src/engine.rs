//! Decisions of the dictation engine: which recorder actions are allowed in
//! which phase, what is shown and hidden, and the names of the files a
//! session keeps.
use vstd::prelude::*;
use crate::health::{busy, busy_spec};
use crate::text::{append_chars, chars_of, decimal, decimal_chars, str_eq, string_of, zero_padded, zero_padded_chars};

verus! {

/// How a recording ends.
#[derive(Clone, Copy, Debug, PartialEq, Eq, Structural)]
pub enum FinishKind {
    /// Transcribe it, then copy and paste the text.
    Stop,
    /// Keep the audio for later; nothing is transcribed or pasted.
    Save,
    /// Drop the recording from view; the audio stays on disk.
    Cancel,
}

/// What an action of the recorder does.
#[derive(Clone, Copy, Debug, PartialEq, Eq, Structural)]
pub enum ControlPlan {
    /// Start recording; restore system sound first unless a recording is
    /// already active.
    Start { restore_sound: bool },
    /// Pause or resume.
    Pause,
    /// Mute the system sound, or restore it when it is muted.
    Mute { restore: bool },
    /// End the recording.
    Finish(FinishKind),
}

/// Recording or paused.
pub open spec fn active_spec(phase: Seq<char>) -> bool {
    phase == "recording"@ || phase == "paused"@
}

pub fn active(phase: &str) -> (r: bool)
    ensures
        r == active_spec(phase@),
{
    str_eq(phase, "recording") || str_eq(phase, "paused")
}

/// The plan for a recorder action, or why it is refused: nothing is done
/// while a transcription runs; muting needs an active recording; unknown
/// actions are refused.
pub open spec fn control_plan_spec(action: Seq<char>, phase: Seq<char>, muted: bool, processing: bool) -> Result<ControlPlan, Seq<char>> {
    if processing {
        Err("La transcripcion sigue en curso"@)
    } else if action == "start"@ {
        Ok(ControlPlan::Start { restore_sound: !active_spec(phase) })
    } else if action == "pause"@ {
        Ok(ControlPlan::Pause)
    } else if action == "mute"@ {
        if !active_spec(phase) {
            Err("No hay grabacion activa"@)
        } else {
            Ok(ControlPlan::Mute { restore: muted })
        }
    } else if action == "stop"@ {
        Ok(ControlPlan::Finish(FinishKind::Stop))
    } else if action == "save"@ {
        Ok(ControlPlan::Finish(FinishKind::Save))
    } else if action == "cancel"@ {
        Ok(ControlPlan::Finish(FinishKind::Cancel))
    } else {
        Err("Accion no valida"@)
    }
}

pub fn control_plan(action: &str, phase: &str, muted: bool, processing: bool) -> (r: Result<ControlPlan, String>)
    ensures
        r matches Ok(p) ==> control_plan_spec(action@, phase@, muted, processing) == Ok::<ControlPlan, Seq<char>>(p),
        r matches Err(m) ==> control_plan_spec(action@, phase@, muted, processing) == Err::<ControlPlan, Seq<char>>(m@),
{
    if processing {
        return Err(String::from_str("La transcripcion sigue en curso"));
    }
    if str_eq(action, "start") {
        Ok(ControlPlan::Start { restore_sound: !active(phase) })
    } else if str_eq(action, "pause") {
        Ok(ControlPlan::Pause)
    } else if str_eq(action, "mute") {
        if !active(phase) {
            Err(String::from_str("No hay grabacion activa"))
        } else {
            Ok(ControlPlan::Mute { restore: muted })
        }
    } else if str_eq(action, "stop") {
        Ok(ControlPlan::Finish(FinishKind::Stop))
    } else if str_eq(action, "save") {
        Ok(ControlPlan::Finish(FinishKind::Save))
    } else if str_eq(action, "cancel") {
        Ok(ControlPlan::Finish(FinishKind::Cancel))
    } else {
        Err(String::from_str("Accion no valida"))
    }
}

/// The recorder window hides by itself only after a live dictation that
/// finished without any error.
pub fn hide_after_completion(live_dictation: bool, phase: &str, error: &str) -> (r: bool)
    ensures
        r == (live_dictation && phase@ == "done"@ && error@.len() == 0),
{
    live_dictation && str_eq(phase, "done") && error.is_empty()
}

/// A recovery entry is listed unless it is the session currently being
/// recorded or processed.
pub fn recovery_visible(id: &str, session: &str, phase: &str) -> (r: bool)
    ensures
        r == (id@ != session@ || !busy_spec(phase@)),
{
    !str_eq(id, session) || !busy(phase)
}

/// Retrying a saved recording waits for the current one.
pub fn retry_allowed(phase: &str) -> (r: Result<(), String>)
    ensures
        r is Ok <==> !busy_spec(phase@),
        r matches Err(m) ==> m@ == "Finaliza la grabacion actual primero"@,
{
    if busy(phase) {
        return Err(String::from_str("Finaliza la grabacion actual primero"));
    }
    Ok(())
}

/// Opening a recording's folder waits for the current work.
pub fn reveal_allowed(phase: &str) -> (r: Result<(), String>)
    ensures
        r is Ok <==> !busy_spec(phase@),
        r matches Err(m) ==> m@ == "Espera a que termine el proceso actual"@,
{
    if busy(phase) {
        return Err(String::from_str("Espera a que termine el proceso actual"));
    }
    Ok(())
}

/// Importing a file waits for any recording or transcription.
pub fn import_allowed(phase: &str, processing: bool) -> (r: Result<(), String>)
    ensures
        r is Ok <==> !(busy_spec(phase@) || processing),
        r matches Err(m) ==> m@ == "Termina la grabacion o transcripcion actual antes de importar"@,
{
    if busy(phase) || processing {
        return Err(String::from_str("Termina la grabacion o transcripcion actual antes de importar"));
    }
    Ok(())
}

/// On quitting, an active recording is stopped so its audio is closed.
pub fn stops_on_shutdown(phase: &str) -> (r: bool)
    ensures
        r == active_spec(phase@),
{
    active(phase)
}

/// Copying the last text needs a text.
pub fn copy_allowed(text: &str) -> (r: Result<(), String>)
    ensures
        r is Ok <==> text@.len() > 0,
        r matches Err(m) ==> m@ == "No hay texto para copiar"@,
{
    if text.is_empty() {
        return Err(String::from_str("No hay texto para copiar"));
    }
    Ok(())
}

/// What the global shortcut does.
#[derive(Clone, Copy, Debug, PartialEq, Eq, Structural)]
pub enum ShortcutAction {
    /// Start a recording and show the recorder.
    Start,
    /// Stop the recording and transcribe it.
    Stop,
}

/// The global shortcut does nothing while a transcription runs, stops an
/// active recording, and starts one otherwise.
pub fn shortcut_action(phase: &str) -> (r: Option<ShortcutAction>)
    ensures
        phase@ == "processing"@ ==> r is None,
        phase@ != "processing"@ && active_spec(phase@) ==> r == Some(ShortcutAction::Stop),
        phase@ != "processing"@ && !active_spec(phase@) ==> r == Some(ShortcutAction::Start),
{
    if str_eq(phase, "processing") {
        None
    } else if active(phase) {
        Some(ShortcutAction::Stop)
    } else {
        Some(ShortcutAction::Start)
    }
}

/// "Parte i de n", counting parts from one.
pub open spec fn progress_text_spec(index: nat, total: nat) -> Seq<char> {
    "Parte "@ + decimal(index + 1) + " de "@ + decimal(total)
}

/// The progress shown while part `index` (from zero) of `total` is processed.
pub fn progress_text(index: u64, total: u64) -> (s: String)
    requires
        index < total,
    ensures
        s@ == progress_text_spec(index as nat, total as nat),
{
    let mut v = chars_of("Parte ");
    let a = decimal_chars(index + 1);
    append_chars(&mut v, a.as_slice(), 0, a.len());
    let de = chars_of(" de ");
    append_chars(&mut v, de.as_slice(), 0, de.len());
    let b = decimal_chars(total);
    append_chars(&mut v, b.as_slice(), 0, b.len());
    assert(a@.subrange(0, a.len() as int) == a@);
    assert(de@.subrange(0, de.len() as int) == de@);
    assert(b@.subrange(0, b.len() as int) == b@);
    string_of(v.as_slice())
}

/// `prefix-NNNN.ext`, the index in at least four digits.
pub open spec fn numbered_file_spec(prefix: Seq<char>, index: nat, ext: Seq<char>) -> Seq<char> {
    prefix + "-"@ + zero_padded(index, 4) + "."@ + ext
}

/// The name of a numbered file of a session (parts, caches, snapshots).
pub fn numbered_file(prefix: &str, index: u64, ext: &str) -> (s: String)
    ensures
        s@ == numbered_file_spec(prefix@, index as nat, ext@),
{
    let mut v = chars_of(prefix);
    let dash = chars_of("-");
    append_chars(&mut v, dash.as_slice(), 0, dash.len());
    let n = zero_padded_chars(index, 4);
    append_chars(&mut v, n.as_slice(), 0, n.len());
    let dot = chars_of(".");
    append_chars(&mut v, dot.as_slice(), 0, dot.len());
    let e = chars_of(ext);
    append_chars(&mut v, e.as_slice(), 0, e.len());
    assert(dash@.subrange(0, dash.len() as int) == dash@);
    assert(n@.subrange(0, n.len() as int) == n@);
    assert(dot@.subrange(0, dot.len() as int) == dot@);
    assert(e@.subrange(0, e.len() as int) == e@);
    string_of(v.as_slice())
}

/// The system sound is given back by the background check when a recording
/// failed while the speakers were muted.
pub fn sound_recovery_due(phase: &str, muted: bool) -> (r: bool)
    ensures
        r == (phase@ == "error"@ && muted),
{
    muted && str_eq(phase, "error")
}

/// Recording needs a configured key.
pub fn key_required(key_configured: bool) -> (r: Result<(), String>)
    ensures
        r is Ok <==> key_configured,
        r matches Err(m) ==> m@ == "Configura o importa la clave Groq antes de grabar"@,
{
    if key_configured {
        Ok(())
    } else {
        Err(String::from_str("Configura o importa la clave Groq antes de grabar"))
    }
}

/// One transcription at a time: `already` is whether one was running when
/// this one claimed the engine.
pub fn transcription_slot(already: bool) -> (r: Result<(), String>)
    ensures
        r is Ok <==> !already,
        r matches Err(m) ==> m@ == "Ya hay una transcripcion en curso"@,
{
    if already {
        Err(String::from_str("Ya hay una transcripcion en curso"))
    } else {
        Ok(())
    }
}

/// Whether the text is pasted after the clipboard was written: only once
/// the clipboard was read back with the text, and only into the window
/// remembered at the start; otherwise the reason shown, the text being kept.
pub fn paste_gate(copied: bool, has_target: bool) -> (r: Result<(), String>)
    ensures
        !copied ==> (r matches Err(m) && m@ == "No se pudo verificar el portapapeles. El texto esta guardado."@),
        copied && !has_target ==> (r matches Err(m) && m@ == "Texto copiado. No habia un campo de destino externo al iniciar."@),
        r is Ok <==> (copied && has_target),
{
    if !copied {
        return Err(String::from_str("No se pudo verificar el portapapeles. El texto esta guardado."));
    }
    if !has_target {
        return Err(String::from_str("Texto copiado. No habia un campo de destino externo al iniciar."));
    }
    Ok(())
}

/// Attempts at writing the clipboard and reading it back before pasting.
pub const CLIPBOARD_ATTEMPTS: u32 = 3;

/// The note shown when the text could not be copied automatically.
pub fn copy_failed() -> (m: String)
    ensures
        m@ == "Texto guardado; no se pudo copiar automaticamente."@,
{
    String::from_str("Texto guardado; no se pudo copiar automaticamente.")
}

/// What ending a recording does once its audio is closed.
#[derive(Clone, Copy, Debug, PartialEq, Eq, Structural)]
pub struct FinishEffects {
    /// Transcribe the recording (and then copy and paste the text).
    pub transcribe: bool,
    /// Forget the window remembered for pasting.
    pub forget_target: bool,
    /// Mark the session as cancelled on disk, so it is not offered for
    /// recovery.
    pub mark_cancelled: bool,
    /// Show the recorder as idle again: phase `idle`, no seconds, no text.
    pub reset_view: bool,
    /// Hide the recorder window.
    pub hide_recorder: bool,
}

/// Stopping transcribes; saving keeps the audio for later; cancelling marks
/// it cancelled and puts the recorder back to idle, out of sight. Neither
/// saving nor cancelling can paste: the remembered window is forgotten.
pub open spec fn finish_effects_spec(kind: FinishKind) -> FinishEffects {
    match kind {
        FinishKind::Stop => FinishEffects {
            transcribe: true,
            forget_target: false,
            mark_cancelled: false,
            reset_view: false,
            hide_recorder: false,
        },
        FinishKind::Save => FinishEffects {
            transcribe: false,
            forget_target: true,
            mark_cancelled: false,
            reset_view: false,
            hide_recorder: false,
        },
        FinishKind::Cancel => FinishEffects {
            transcribe: false,
            forget_target: true,
            mark_cancelled: true,
            reset_view: true,
            hide_recorder: true,
        },
    }
}

pub fn finish_effects(kind: FinishKind) -> (e: FinishEffects)
    ensures
        e == finish_effects_spec(kind),
{
    match kind {
        FinishKind::Stop => FinishEffects {
            transcribe: true,
            forget_target: false,
            mark_cancelled: false,
            reset_view: false,
            hide_recorder: false,
        },
        FinishKind::Save => FinishEffects {
            transcribe: false,
            forget_target: true,
            mark_cancelled: false,
            reset_view: false,
            hide_recorder: false,
        },
        FinishKind::Cancel => FinishEffects {
            transcribe: false,
            forget_target: true,
            mark_cancelled: true,
            reset_view: true,
            hide_recorder: true,
        },
    }
}

/// The phase the recorder shows after a cancel.
pub fn idle_phase() -> (p: String)
    ensures
        p@ == "idle"@,
{
    String::from_str("idle")
}

/// Saving or cancelling never leads to a paste: only stopping transcribes
/// and pastes, and only stopping, saving or cancelling ends a recording.
pub proof fn law_only_stop_publishes(action: Seq<char>, phase: Seq<char>, muted: bool, processing: bool)
    ensures
        control_plan_spec(action, phase, muted, processing) == Ok::<ControlPlan, Seq<char>>(ControlPlan::Finish(FinishKind::Stop))
            <==> (!processing && action == "stop"@),
        processing ==> control_plan_spec(action, phase, muted, processing) is Err,
        forall|k: FinishKind| #[trigger] finish_effects_spec(k).transcribe <==> k == FinishKind::Stop,
        forall|k: FinishKind| k != FinishKind::Stop ==> #[trigger] finish_effects_spec(k).forget_target,
{
    reveal_strlit("start");
    reveal_strlit("pause");
    reveal_strlit("mute");
    reveal_strlit("stop");
    reveal_strlit("save");
    reveal_strlit("cancel");
    assert("stop"@ != "start"@) by {
        assert("stop"@.len() != "start"@.len());
    }
    assert("stop"@ != "pause"@) by {
        assert("stop"@.len() != "pause"@.len());
    }
    assert("stop"@ != "mute"@) by {
        assert("stop"@[0] != "mute"@[0]);
    }
}

/// During a recording (recording or paused) with no transcription running,
/// the mute control mutes the system sound when it is not muted and restores
/// it when it is; with no recording it is refused.
pub proof fn law_mute_toggles(phase: Seq<char>, muted: bool)
    ensures
        (phase == "recording"@ || phase == "paused"@) ==> control_plan_spec("mute"@, phase, muted, false)
            == Ok::<ControlPlan, Seq<char>>(ControlPlan::Mute { restore: muted }),
        !(phase == "recording"@ || phase == "paused"@) ==> control_plan_spec("mute"@, phase, muted, false)
            == Err::<ControlPlan, Seq<char>>("No hay grabacion activa"@),
        forall|b: bool| control_plan_spec("mute"@, phase, muted, false) == Ok::<ControlPlan, Seq<char>>(
            ControlPlan::Mute { restore: b }) ==> b == muted,
{
    reveal_strlit("start");
    reveal_strlit("pause");
    reveal_strlit("mute");
    assert("mute"@ != "start"@) by {
        assert("mute"@.len() != "start"@.len());
    }
    assert("mute"@ != "pause"@) by {
        assert("mute"@.len() != "pause"@.len());
    }
}

/// What each recorder control does when no transcription runs: start
/// restores the system sound first unless a recording is under way, pause
/// pauses or resumes, stop, save and cancel end the recording in their own
/// way, and any other action is refused; while a transcription runs every
/// control is refused.
pub proof fn law_control_actions(phase: Seq<char>, muted: bool)
    ensures
        control_plan_spec("start"@, phase, muted, false) == Ok::<ControlPlan, Seq<char>>(
            ControlPlan::Start { restore_sound: !(phase == "recording"@ || phase == "paused"@) }),
        control_plan_spec("pause"@, phase, muted, false) == Ok::<ControlPlan, Seq<char>>(ControlPlan::Pause),
        control_plan_spec("stop"@, phase, muted, false) == Ok::<ControlPlan, Seq<char>>(
            ControlPlan::Finish(FinishKind::Stop)),
        control_plan_spec("save"@, phase, muted, false) == Ok::<ControlPlan, Seq<char>>(
            ControlPlan::Finish(FinishKind::Save)),
        control_plan_spec("cancel"@, phase, muted, false) == Ok::<ControlPlan, Seq<char>>(
            ControlPlan::Finish(FinishKind::Cancel)),
        forall|action: Seq<char>| control_plan_spec(action, phase, muted, true) == Err::<ControlPlan, Seq<char>>(
            "La transcripcion sigue en curso"@),
        forall|action: Seq<char>|
            !(action == "start"@ || action == "pause"@ || action == "mute"@ || action == "stop"@
                || action == "save"@ || action == "cancel"@) ==> control_plan_spec(action, phase, muted, false)
                == Err::<ControlPlan, Seq<char>>("Accion no valida"@),
{
    reveal_strlit("start");
    reveal_strlit("pause");
    reveal_strlit("mute");
    reveal_strlit("stop");
    reveal_strlit("save");
    reveal_strlit("cancel");
    assert("pause"@ != "start"@) by {
        assert("pause"@[0] != "start"@[0]);
    }
    assert("stop"@ != "start"@) by {
        assert("stop"@.len() != "start"@.len());
    }
    assert("stop"@ != "pause"@) by {
        assert("stop"@.len() != "pause"@.len());
    }
    assert("stop"@ != "mute"@) by {
        assert("stop"@[0] != "mute"@[0]);
    }
    assert("save"@ != "start"@) by {
        assert("save"@.len() != "start"@.len());
    }
    assert("save"@ != "pause"@) by {
        assert("save"@.len() != "pause"@.len());
    }
    assert("save"@ != "mute"@) by {
        assert("save"@[0] != "mute"@[0]);
    }
    assert("save"@ != "stop"@) by {
        assert("save"@[1] != "stop"@[1]);
    }
    assert("cancel"@ != "start"@) by {
        assert("cancel"@.len() != "start"@.len());
    }
    assert("cancel"@ != "pause"@) by {
        assert("cancel"@.len() != "pause"@.len());
    }
    assert("cancel"@ != "mute"@) by {
        assert("cancel"@.len() != "mute"@.len());
    }
    assert("cancel"@ != "stop"@) by {
        assert("cancel"@.len() != "stop"@.len());
    }
    assert("cancel"@ != "save"@) by {
        assert("cancel"@.len() != "save"@.len());
    }
}

/// Parts are counted from one: the first part reads "Parte 1 de n" and the
/// last one "Parte n de n".
pub proof fn law_progress_counts_from_one(total: nat)
    requires
        total > 0,
    ensures
        progress_text_spec(0, total) == "Parte "@ + decimal(1) + " de "@ + decimal(total),
        progress_text_spec((total - 1) as nat, total) == "Parte "@ + decimal(total) + " de "@ + decimal(total),
{
}

} // verus!
