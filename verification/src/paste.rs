//! Pasting the transcript back where the user was typing: which window is
//! remembered when a recording starts, when pasting into it is still safe,
//! and the key presses that paste exactly once.
use vstd::prelude::*;

verus! {

/// The window that had the keyboard when a recording started: its handle,
/// the handle of its focused control (`0` for none) and its process.
#[derive(Clone, Copy, Debug, PartialEq, Eq, Structural)]
pub struct Target {
    pub hwnd: isize,
    pub focus: isize,
    pub pid: u32,
}

/// The target to remember, from the foreground window, the thread and
/// process that own it (`thread == 0` where that could not be read), this
/// process, and the focused control of that thread. The app's own windows are
/// never a target.
pub fn capture_target(hwnd: isize, thread: u32, pid: u32, own_pid: u32, focus: isize) -> (r: Option<Target>)
    ensures
        r is None <==> (thread == 0 || pid == own_pid),
        r matches Some(t) ==> t == (Target { hwnd, focus, pid }),
{
    if thread == 0 || pid == own_pid {
        None
    } else {
        Some(Target { hwnd, focus, pid })
    }
}

pub open spec fn window_gone_text() -> Seq<char> {
    "El destino original ya no existe. Texto conservado en el portapapeles."@
}

pub open spec fn field_gone_text() -> Seq<char> {
    "El campo original ya no existe. No se pego en otro campo; texto copiado."@
}

/// Whether pasting into `target` is still safe, given whether its window
/// still exists and which process owns it now, and the same of its focused
/// control. A window or control that now belongs to another process is
/// treated as gone: the text is never pasted elsewhere.
pub fn check_target(
    target: &Target,
    window_alive: bool,
    window_pid: u32,
    focus_alive: bool,
    focus_pid: u32,
) -> (r: Result<(), String>)
    ensures
        !window_alive || window_pid != target.pid ==> (r matches Err(m) && m@ == window_gone_text()),
        window_alive && window_pid == target.pid && target.focus != 0 && (!focus_alive || focus_pid
            != target.pid) ==> (r matches Err(m) && m@ == field_gone_text()),
        r is Ok <==> (window_alive && window_pid == target.pid && (target.focus == 0 || (
        focus_alive && focus_pid == target.pid))),
{
    if !window_alive || window_pid != target.pid {
        return Err(
            String::from_str("El destino original ya no existe. Texto conservado en el portapapeles."),
        );
    }
    if target.focus != 0 && (!focus_alive || focus_pid != target.pid) {
        return Err(
            String::from_str("El campo original ya no existe. No se pego en otro campo; texto copiado."),
        );
    }
    Ok(())
}

/// Whether the focused control is given the keyboard back: only while it
/// exists and still belongs to the target's process.
pub fn focus_restorable(target: &Target, focus_alive: bool, focus_pid: u32) -> (r: bool)
    ensures
        r == (focus_alive && focus_pid == target.pid),
{
    focus_alive && focus_pid == target.pid
}

/// Whether the input of thread `id` is attached to this thread (`current`)
/// before the target is brought forward: not for no thread, not for this
/// thread, and once only.
pub fn should_attach(id: u32, current: u32, attached: &Vec<u32>) -> (r: bool)
    ensures
        r == (id != 0 && id != current && !attached@.contains(id)),
{
    if id == 0 || id == current {
        return false;
    }
    let mut i: usize = 0;
    while i < attached.len()
        invariant
            i <= attached.len(),
            forall|k: int| 0 <= k < i ==> attached@[k] != id,
        decreases attached.len() - i,
    {
        if attached[i] == id {
            assert(attached@[i as int] == id);
            return false;
        }
        i += 1;
    }
    true
}

/// How many times the target's window is checked for the foreground.
pub const PASTE_ATTEMPTS: u32 = 8;

/// Virtual-key code of Control.
pub const VK_CONTROL: u16 = 0x11;

/// Virtual-key code of V.
pub const VK_V: u16 = 0x56;

/// The key events of one paste, each a virtual key and whether it is
/// released: Control down, V down, V up, Control up.
pub open spec fn paste_keys_spec() -> Seq<(u16, bool)> {
    seq![(VK_CONTROL, false), (VK_V, false), (VK_V, true), (VK_CONTROL, true)]
}

pub fn paste_keys() -> (r: Vec<(u16, bool)>)
    ensures
        r@ == paste_keys_spec(),
{
    let mut r: Vec<(u16, bool)> = Vec::new();
    r.push((VK_CONTROL, false));
    r.push((VK_V, false));
    r.push((VK_V, true));
    r.push((VK_CONTROL, true));
    r
}

/// What the paste loop does at a check of the foreground window.
#[derive(PartialEq, Eq, Structural, Clone, Copy, Debug)]
pub enum PasteStep {
    /// The target is in front: send the key events, once.
    Send,
    /// Wait, ask for the target to come forward, and check again.
    Wait,
    /// Wait and ask once more, then report that the target did not return.
    WaitThenGiveUp,
}

/// The step at check number `attempt` (from 0) of `PASTE_ATTEMPTS`.
pub fn paste_step(attempt: u32, on_target: bool) -> (r: PasteStep)
    requires
        attempt < PASTE_ATTEMPTS,
    ensures
        on_target ==> r == PasteStep::Send,
        !on_target && attempt + 1 < PASTE_ATTEMPTS ==> r == PasteStep::Wait,
        !on_target && attempt + 1 == PASTE_ATTEMPTS ==> r == PasteStep::WaitThenGiveUp,
        r == paste_step_spec(attempt, on_target),
{
    if on_target {
        PasteStep::Send
    } else if attempt + 1 < PASTE_ATTEMPTS {
        PasteStep::Wait
    } else {
        PasteStep::WaitThenGiveUp
    }
}

/// The steps the paste loop takes for the foreground checks `seen`
/// (whether the target was in front at each check): one step per check, and
/// the loop ends after sending or after `PASTE_ATTEMPTS` checks.
pub open spec fn paste_polls(seen: Seq<bool>) -> Seq<PasteStep>
    decreases seen.len(),
{
    if seen.len() == 0 {
        Seq::empty()
    } else {
        let prev = paste_polls(seen.drop_last());
        if prev.contains(PasteStep::Send) || prev.len() >= PASTE_ATTEMPTS || prev.len() < seen.len() - 1 {
            prev
        } else {
            prev.push(paste_step_spec(prev.len() as u32, seen.last()))
        }
    }
}

pub open spec fn paste_step_spec(attempt: u32, on_target: bool) -> PasteStep {
    if on_target {
        PasteStep::Send
    } else if attempt + 1 < PASTE_ATTEMPTS {
        PasteStep::Wait
    } else {
        PasteStep::WaitThenGiveUp
    }
}

/// The paste loop sends the keys at most once, and only at a check that
/// found the target in front: every step before a send waited, the send is
/// the last step, and at most `PASTE_ATTEMPTS` checks are made; when the
/// target never came to the front, the loop gives up at its last check.
pub proof fn law_paste_sends_once(seen: Seq<bool>)
    ensures
        paste_polls(seen).len() <= PASTE_ATTEMPTS,
        paste_polls(seen).len() <= seen.len(),
        forall|i: int|
            0 <= i < paste_polls(seen).len() ==> (#[trigger] paste_polls(seen)[i] == PasteStep::Send
                <==> seen[i]),
        forall|i: int|
            0 <= i < paste_polls(seen).len() && #[trigger] paste_polls(seen)[i] == PasteStep::Send
                ==> i == paste_polls(seen).len() - 1,
        paste_polls(seen).len() == PASTE_ATTEMPTS && !paste_polls(seen).contains(PasteStep::Send)
            ==> paste_polls(seen).last() == PasteStep::WaitThenGiveUp,
    decreases seen.len(),
{
    if seen.len() > 0 {
        let prev_seen = seen.drop_last();
        law_paste_sends_once(prev_seen);
        let prev = paste_polls(prev_seen);
        let cur = paste_polls(seen);
        assert forall|i: int| 0 <= i < prev.len() implies prev_seen[i] == seen[i] by {}
        if !(prev.contains(PasteStep::Send) || prev.len() >= PASTE_ATTEMPTS || prev.len() < seen.len() - 1) {
            let n = prev.len() as int;
            assert(cur[n] == paste_step_spec(n as u32, seen[n]));
            assert forall|i: int| 0 <= i < cur.len() implies (#[trigger] cur[i] == PasteStep::Send <==> seen[i]) by {
                if i < n {
                    assert(cur[i] == prev[i]);
                }
            }
            assert forall|i: int| 0 <= i < cur.len() && #[trigger] cur[i] == PasteStep::Send implies i == cur.len() - 1 by {
                if i < n {
                    assert(cur[i] == prev[i]);
                    assert(prev.contains(PasteStep::Send));
                }
            }
            if cur.len() == PASTE_ATTEMPTS && !cur.contains(PasteStep::Send) {
                assert(!seen[n]);
            }
        }
    }
}

pub open spec fn paste_blocked_text() -> Seq<char> {
    "Windows bloqueo el pegado. Puede haber distintos permisos entre las apps; el texto sigue copiado."@
}

pub open spec fn target_lost_text() -> Seq<char> {
    "No se pudo volver al destino. El texto sigue copiado; no se pego en otra ventana."@
}

/// The outcome of sending the key events: all of them must have been taken.
pub fn paste_sent(sent: u32, expected: u32) -> (r: Result<(), String>)
    ensures
        r is Ok <==> sent == expected,
        r matches Err(m) ==> m@ == paste_blocked_text(),
{
    if sent == expected {
        Ok(())
    } else {
        Err(
            String::from_str(
                "Windows bloqueo el pegado. Puede haber distintos permisos entre las apps; el texto sigue copiado.",
            ),
        )
    }
}

/// The message when the target never came back to the foreground.
pub fn target_lost() -> (m: String)
    ensures
        m@ == target_lost_text(),
{
    String::from_str("No se pudo volver al destino. El texto sigue copiado; no se pego en otra ventana.")
}

/// A paste is Control+V: Control (0x11) goes down, then V (0x56) goes
/// down and up, then Control comes up, so no key is left held.
pub proof fn law_paste_is_control_v()
    ensures
        paste_keys_spec() == seq![(0x11u16, false), (0x56u16, false), (0x56u16, true), (0x11u16, true)],
        forall|i: int| 0 <= i < 4 && !(#[trigger] paste_keys_spec()[i]).1 ==> exists|j: int| i < j < 4
            && paste_keys_spec()[j] == (paste_keys_spec()[i].0, true),
{
    let k = paste_keys_spec();
    assert(k[0] == (0x11u16, false) && k[3] == (0x11u16, true));
    assert(k[1] == (0x56u16, false) && k[2] == (0x56u16, true));
    assert forall|i: int| 0 <= i < 4 && !(#[trigger] paste_keys_spec()[i]).1 implies exists|j: int| i < j < 4
        && paste_keys_spec()[j] == (paste_keys_spec()[i].0, true) by {
        if i == 0 {
            assert(k[3] == (k[0].0, true));
        } else if i == 1 {
            assert(k[2] == (k[1].0, true));
        }
    }
}

} // verus!
