//! The global shortcut: a one-character setting names a key of the keyboard
//! layout, which becomes an accelerator such as `Control+Alt+KeyQ`.
use vstd::prelude::*;
use crate::text::{chars_of, join, join_strings};

verus! {

/// How a shortcut setting is read: an accelerator written out, or a single
/// character to look up in the keyboard layout.
#[derive(PartialEq, Eq, Structural, Clone, Copy, Debug)]
pub enum ShortcutInput {
    Accelerator,
    Key(char),
}

pub fn shortcut_input(value: &str) -> (r: ShortcutInput)
    ensures
        value@.len() == 1 ==> r == ShortcutInput::Key(value@[0]),
        value@.len() != 1 ==> r == ShortcutInput::Accelerator,
{
    let chars = chars_of(value);
    if chars.len() == 1 {
        ShortcutInput::Key(chars[0])
    } else {
        ShortcutInput::Accelerator
    }
}

/// The accelerator name of a virtual-key code (its low byte), if it has one.
pub open spec fn key_name(key: u16) -> Option<Seq<char>> {
    if 65 <= key <= 90 {
        Some("Key"@.push(key as char))
    } else if 48 <= key <= 57 {
        Some("Digit"@.push(key as char))
    } else if key == 32 {
        Some("Space"@)
    } else if key == 186 {
        Some("Semicolon"@)
    } else if key == 187 {
        Some("Equal"@)
    } else if key == 188 {
        Some("Comma"@)
    } else if key == 189 {
        Some("Minus"@)
    } else if key == 190 {
        Some("Period"@)
    } else if key == 191 {
        Some("Slash"@)
    } else if key == 192 {
        Some("Backquote"@)
    } else if key == 219 {
        Some("BracketLeft"@)
    } else if key == 220 {
        Some("Backslash"@)
    } else if key == 221 {
        Some("BracketRight"@)
    } else if key == 222 {
        Some("Quote"@)
    } else if key == 226 {
        Some("IntlBackslash"@)
    } else {
        None
    }
}

/// The modifiers that the shift state (the high byte) asks for, in the
/// order Control, Alt, Shift.
pub open spec fn modifier_names(flags: u16) -> Seq<Seq<char>> {
    (if flags & 2 != 0 { seq!["Control"@] } else { Seq::empty() })
        + (if flags & 4 != 0 { seq!["Alt"@] } else { Seq::empty() })
        + (if flags & 1 != 0 { seq!["Shift"@] } else { Seq::empty() })
}

pub open spec fn missing_key_text() -> Seq<char> {
    "Esa tecla no existe en la distribucion de Windows"@
}

pub open spec fn unusable_key_text() -> Seq<char> {
    "Usa un atajo como Control+Shift+Space"@
}

fn name_of(key: u16) -> (r: Option<String>)
    requires
        key < 256,
    ensures
        r is Some <==> key_name(key) is Some,
        r matches Some(n) ==> key_name(key) == Some(n@),
{
    if 65 <= key && key <= 90 {
        let mut s = String::from_str("Key");
        let c = (key as u8) as char;
        assert(c == key as char);
        crate::text::push_char(&mut s, c);
        Some(s)
    } else if 48 <= key && key <= 57 {
        let mut s = String::from_str("Digit");
        let c = (key as u8) as char;
        assert(c == key as char);
        crate::text::push_char(&mut s, c);
        Some(s)
    } else if key == 32 {
        Some(String::from_str("Space"))
    } else if key == 186 {
        Some(String::from_str("Semicolon"))
    } else if key == 187 {
        Some(String::from_str("Equal"))
    } else if key == 188 {
        Some(String::from_str("Comma"))
    } else if key == 189 {
        Some(String::from_str("Minus"))
    } else if key == 190 {
        Some(String::from_str("Period"))
    } else if key == 191 {
        Some(String::from_str("Slash"))
    } else if key == 192 {
        Some(String::from_str("Backquote"))
    } else if key == 219 {
        Some(String::from_str("BracketLeft"))
    } else if key == 220 {
        Some(String::from_str("Backslash"))
    } else if key == 221 {
        Some(String::from_str("BracketRight"))
    } else if key == 222 {
        Some(String::from_str("Quote"))
    } else if key == 226 {
        Some(String::from_str("IntlBackslash"))
    } else {
        None
    }
}

/// The accelerator for the code that the keyboard layout gives a character
/// (`-1` where the layout has no key for it): the modifiers of the high byte,
/// then the key of the low byte, joined by `+`.
pub fn key_accelerator(code: i16) -> (r: Result<String, String>)
    ensures
        code == -1 ==> (r matches Err(m) && m@ == missing_key_text()),
        code != -1 ==> match key_name((code as u16) & 255) {
            None => r matches Err(m) && m@ == unusable_key_text(),
            Some(name) => r matches Ok(a) && a@ == join(
                modifier_names((code as u16) >> 8).push(name),
                "+"@,
            ),
        },
{
    if code == -1 {
        return Err(String::from_str("Esa tecla no existe en la distribucion de Windows"));
    }
    let bits = code as u16;
    let key = bits & 255;
    assert(bits & 255 < 256) by (bit_vector);
    let name = match name_of(key) {
        Some(n) => n,
        None => return Err(String::from_str("Usa un atajo como Control+Shift+Space")),
    };
    let flags = bits >> 8;
    let mut parts: Vec<String> = Vec::new();
    if flags & 2 != 0 {
        parts.push(String::from_str("Control"));
    }
    if flags & 4 != 0 {
        parts.push(String::from_str("Alt"));
    }
    if flags & 1 != 0 {
        parts.push(String::from_str("Shift"));
    }
    let ghost head = parts@.map_values(|p: String| p@);
    assert(head == modifier_names(flags));
    parts.push(name);
    assert(parts@.map_values(|p: String| p@) == modifier_names(flags).push(name@));
    Ok(join_strings(parts.as_slice(), "+"))
}

/// A letter key is named `Key` and its letter, a digit key `Digit` and its
/// digit; besides these only the space bar and the punctuation keys of the
/// layout (codes 186 to 192, 219 to 222 and 226) have names.
pub proof fn law_key_names(key: u16)
    ensures
        65 <= key <= 90 ==> key_name(key) == Some("Key"@ + seq![key as char]),
        48 <= key <= 57 ==> key_name(key) == Some("Digit"@ + seq![key as char]),
        key == 32 ==> key_name(key) == Some("Space"@),
        key_name(key) is Some <==> (65 <= key <= 90 || 48 <= key <= 57 || key == 32 || 186 <= key
            <= 192 || 219 <= key <= 222 || key == 226),
{
    assert("Key"@.push(key as char) =~= "Key"@ + seq![key as char]);
    assert("Digit"@.push(key as char) =~= "Digit"@ + seq![key as char]);
}

} // verus!
