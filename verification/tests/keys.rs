use whispera::paste::{
    capture_target, check_target, focus_restorable, paste_keys, paste_sent, paste_step,
    should_attach, target_lost, PasteStep, Target, PASTE_ATTEMPTS,
};
use whispera::shortcuts::{key_accelerator, shortcut_input, ShortcutInput};
use whispera::sounds::sound_clip;
use whispera::storage::Settings;

#[test]
fn single_characters_are_looked_up_in_the_layout() {
    assert_eq!(shortcut_input("Control+Shift+Space"), ShortcutInput::Accelerator);
    assert_eq!(shortcut_input("q"), ShortcutInput::Key('q'));
    assert_eq!(shortcut_input("ñ"), ShortcutInput::Key('ñ'));
    assert_eq!(shortcut_input(""), ShortcutInput::Accelerator);
}

#[test]
fn layout_codes_become_accelerators() {
    // 'q' on a US layout: VK 0x51, no shift state
    assert_eq!(key_accelerator(0x0051).unwrap(), "KeyQ");
    // '!' : Shift + 1
    assert_eq!(key_accelerator(0x0131).unwrap(), "Shift+Digit1");
    // AltGr: Control and Alt
    assert_eq!(key_accelerator(0x06BA).unwrap(), "Control+Alt+Semicolon");
    assert_eq!(key_accelerator(0x0720).unwrap(), "Control+Alt+Shift+Space");
    assert_eq!(key_accelerator(0x00E2).unwrap(), "IntlBackslash");
    assert_eq!(
        key_accelerator(-1).unwrap_err(),
        "Esa tecla no existe en la distribucion de Windows"
    );
    assert_eq!(
        key_accelerator(0x0070).unwrap_err(),
        "Usa un atajo como Control+Shift+Space"
    );
}

#[test]
fn sound_clips_by_theme() {
    let mut s = Settings::default();
    assert_eq!(sound_clip(&s, false).unwrap(), "cristal-start.wav");
    s.sound_theme = "pop".into();
    assert_eq!(sound_clip(&s, true).unwrap(), "pop-stop.wav");
    s.sound_theme = "unknown".into();
    assert_eq!(sound_clip(&s, true).unwrap(), "cristal-stop.wav");
    s.sounds = false;
    assert!(sound_clip(&s, false).is_none());
}

#[test]
fn own_windows_are_never_a_paste_target() {
    assert_eq!(
        capture_target(10, 5, 77, 99, 11),
        Some(Target { hwnd: 10, focus: 11, pid: 77 })
    );
    assert_eq!(capture_target(10, 5, 99, 99, 11), None);
    assert_eq!(capture_target(10, 0, 77, 99, 11), None);
}

#[test]
fn paste_only_into_the_same_process() {
    let t = Target { hwnd: 10, focus: 11, pid: 77 };
    assert!(check_target(&t, true, 77, true, 77).is_ok());
    assert_eq!(
        check_target(&t, false, 77, true, 77).unwrap_err(),
        "El destino original ya no existe. Texto conservado en el portapapeles."
    );
    assert!(check_target(&t, true, 78, true, 77).is_err());
    assert_eq!(
        check_target(&t, true, 77, true, 78).unwrap_err(),
        "El campo original ya no existe. No se pego en otro campo; texto copiado."
    );
    let no_focus = Target { focus: 0, ..t };
    assert!(check_target(&no_focus, true, 77, false, 0).is_ok());
    assert!(focus_restorable(&t, true, 77));
    assert!(!focus_restorable(&t, true, 1));
}

#[test]
fn threads_are_attached_once() {
    assert!(should_attach(5, 1, &vec![]));
    assert!(!should_attach(0, 1, &vec![]));
    assert!(!should_attach(1, 1, &vec![]));
    assert!(!should_attach(5, 1, &vec![3, 5]));
}

#[test]
fn one_paste_of_control_v() {
    assert_eq!(
        paste_keys(),
        vec![(0x11, false), (0x56, false), (0x56, true), (0x11, true)]
    );
    assert_eq!(paste_step(0, true), PasteStep::Send);
    assert_eq!(paste_step(0, false), PasteStep::Wait);
    assert_eq!(paste_step(PASTE_ATTEMPTS - 1, false), PasteStep::WaitThenGiveUp);
    assert!(paste_sent(4, 4).is_ok());
    assert!(paste_sent(2, 4).unwrap_err().starts_with("Windows bloqueo el pegado"));
    assert!(target_lost().starts_with("No se pudo volver al destino"));
}

#[test]
fn paste_loop_sends_at_most_once() {
    let run = |seen: &[bool]| {
        let mut steps = Vec::new();
        for (i, on_target) in seen.iter().enumerate().take(PASTE_ATTEMPTS as usize) {
            let step = paste_step(i as u32, *on_target);
            steps.push(step);
            if step == PasteStep::Send {
                break;
            }
        }
        steps
    };
    assert_eq!(run(&[false, false, true, true]), vec![PasteStep::Wait, PasteStep::Wait, PasteStep::Send]);
    let never = run(&[false; 12]);
    assert_eq!(never.len(), PASTE_ATTEMPTS as usize);
    assert_eq!(never.last(), Some(&PasteStep::WaitThenGiveUp));
    assert!(!never.contains(&PasteStep::Send));
}
