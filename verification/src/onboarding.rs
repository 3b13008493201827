//! First-run setup: what the setup screen shows, and the rules an API key
//! must meet before it is checked against Groq or stored.
use vstd::prelude::*;
use crate::json::{json_string_at, string_field, string_view};
use crate::text::{byte_len, byte_len_exceeds, chars_of, is_white_space, string_of, trim, trim_chars, white_space, decimal, decimal_chars, append_chars};

verus! {

/// What the setup screen shows: whether setup was finished, whether the app
/// starts with the system, and the name of the default microphone.
pub struct SetupInfo {
    pub complete: bool,
    pub startup: bool,
    pub microphone: Option<String>,
}

/// The longest key accepted, in UTF-8 bytes.
pub const MAX_KEY_BYTES: usize = 1024;

/// A trimmed key is accepted when it is not empty, fits in `MAX_KEY_BYTES`
/// bytes and holds no white space.
pub open spec fn key_accepted(k: Seq<char>) -> bool {
    &&& k.len() > 0
    &&& byte_len(k) <= MAX_KEY_BYTES
    &&& forall|i: int| 0 <= i < k.len() ==> !is_white_space(#[trigger] k[i])
}

/// The key with surrounding white space removed, if that is accepted.
pub fn checked_key(key: &str) -> (r: Option<String>)
    ensures
        r is Some <==> key_accepted(trim(key@)),
        r matches Some(k) ==> k@ == trim(key@),
{
    let chars = chars_of(key);
    let k = trim_chars(chars.as_slice());
    if k.len() == 0 || byte_len_exceeds(k.as_slice(), MAX_KEY_BYTES) {
        return None;
    }
    let mut i: usize = 0;
    while i < k.len()
        invariant
            i <= k.len(),
            k@ == trim(key@),
            forall|j: int| 0 <= j < i ==> !is_white_space(#[trigger] k@[j]),
        decreases k.len() - i,
    {
        if white_space(k[i]) {
            assert(is_white_space(k@[i as int]));
            return None;
        }
        i += 1;
    }
    Some(string_of(k.as_slice()))
}

pub open spec fn invalid_key_text() -> Seq<char> {
    "Invalid key / Clave no valida"@
}

pub open spec fn unsaved_key_text() -> Seq<char> {
    "Clave no valida"@
}

/// The key to check against Groq on the setup screen, or the message shown
/// when it is not acceptable.
pub fn validation_key(key: &str) -> (r: Result<String, String>)
    ensures
        r is Ok <==> key_accepted(trim(key@)),
        r matches Ok(k) ==> k@ == trim(key@),
        r matches Err(m) ==> m@ == invalid_key_text(),
{
    match checked_key(key) {
        Some(k) => Ok(k),
        None => Err(String::from_str("Invalid key / Clave no valida")),
    }
}

/// The key to store from the settings screen, or the message shown when it
/// is not acceptable.
pub fn saved_key(key: &str) -> (r: Result<String, String>)
    ensures
        r is Ok <==> key_accepted(trim(key@)),
        r matches Ok(k) ==> k@ == trim(key@),
        r matches Err(m) ==> m@ == unsaved_key_text(),
{
    match checked_key(key) {
        Some(k) => Ok(k),
        None => Err(String::from_str("Clave no valida")),
    }
}

/// The message for an HTTP status that is not a success (outside 200..=299).
pub open spec fn key_status_text(status: u16) -> Seq<char> {
    "Groq HTTP "@ + decimal(status as nat) + ". Check key or retry / Revisa la clave o reintenta"@
}

/// What the probe of a key with Groq's model list answered: nothing to report
/// on a success status, else the message shown.
pub fn key_status_error(status: u16) -> (r: Option<String>)
    ensures
        r is None <==> 200 <= status <= 299,
        r matches Some(m) ==> m@ == key_status_text(status),
{
    if 200 <= status && status <= 299 {
        return None;
    }
    let head = chars_of("Groq HTTP ");
    let tail = chars_of(". Check key or retry / Revisa la clave o reintenta");
    let digits = decimal_chars(status as u64);
    let mut out: Vec<char> = Vec::new();
    append_chars(&mut out, head.as_slice(), 0, head.len());
    append_chars(&mut out, digits.as_slice(), 0, digits.len());
    append_chars(&mut out, tail.as_slice(), 0, tail.len());
    proof {
        assert(head@.subrange(0, head.len() as int) == head@);
        assert(digits@.subrange(0, digits.len() as int) == digits@);
        assert(tail@.subrange(0, tail.len() as int) == tail@);
    }
    Some(string_of(out.as_slice()))
}

/// The value of the first `GROQ_API_KEY` entry of a `.env` file, or the
/// empty text where there is none.
pub open spec fn env_key(entries: Seq<(String, String)>) -> Seq<char>
    decreases entries.len(),
{
    if entries.len() == 0 {
        Seq::empty()
    } else if entries[0].0@ == "GROQ_API_KEY"@ {
        entries[0].1@
    } else {
        env_key(entries.drop_first())
    }
}

/// The key found in a folder of the earlier desktop app: the `.env` entry
/// first, the settings file's `groq_api_key` where that is empty.
pub open spec fn found_key(entries: Seq<(String, String)>, settings_key: Option<Seq<char>>) -> Seq<char> {
    let k = env_key(entries);
    if k.len() > 0 {
        k
    } else {
        match settings_key {
            Some(s) => s,
            None => Seq::empty(),
        }
    }
}

pub open spec fn no_key_text() -> Seq<char> {
    "No se encontro una clave Groq en esa carpeta"@
}

/// What a folder import answers for the key `found` there: `no_key_text`
/// where none was found, else what `saved_key` answers for it.
pub open spec fn key_pick(found: Seq<char>, r: Result<String, String>) -> bool {
    if found.len() == 0 {
        r matches Err(m) && m@ == no_key_text()
    } else {
        &&& r is Ok <==> key_accepted(trim(found))
        &&& r matches Ok(k) ==> k@ == trim(found)
        &&& r matches Err(m) ==> m@ == unsaved_key_text()
    }
}

fn first_env_key(entries: &Vec<(String, String)>) -> (r: Vec<char>)
    ensures
        r@ == env_key(entries@),
{
    let mut i: usize = 0;
    assert(entries@.subrange(0, entries.len() as int) == entries@);
    while i < entries.len()
        invariant
            i <= entries.len(),
            env_key(entries@) == env_key(entries@.subrange(i as int, entries.len() as int)),
        decreases entries.len() - i,
    {
        let ghost rest = entries@.subrange(i as int, entries.len() as int);
        assert(rest[0] == entries@[i as int]);
        assert(rest.drop_first() == entries@.subrange(i + 1, entries.len() as int));
        if crate::text::str_eq(entries[i].0.as_str(), "GROQ_API_KEY") {
            return chars_of(entries[i].1.as_str());
        }
        i += 1;
    }
    Vec::new()
}

/// The key to store from what was read in a folder: its `.env` entries and
/// the string under `groq_api_key` in its settings file.
pub fn pick_groq_key(entries: &Vec<(String, String)>, settings_key: Option<String>) -> (r: Result<String, String>)
    ensures
        key_pick(found_key(entries@, string_view(settings_key)), r),
{
    let mut key = first_env_key(entries);
    if key.len() == 0 {
        if let Some(s) = settings_key {
            key = chars_of(s.as_str());
        }
    }
    if key.len() == 0 {
        return Err(String::from_str("No se encontro una clave Groq en esa carpeta"));
    }
    let text = string_of(key.as_slice());
    saved_key(text.as_str())
}

/// The key read from the settings file of a folder, if it was read.
pub open spec fn settings_file_key(settings_file: Option<Vec<u8>>) -> Option<Seq<char>> {
    match settings_file {
        Some(bytes) => json_string_at(bytes@, "groq_api_key"@),
        None => None,
    }
}

/// Imports the key of the earlier desktop app from a folder, given the
/// entries of its `.env` file and the bytes of its settings file where they
/// could be read.
pub fn import_groq_key(entries: &Vec<(String, String)>, settings_file: Option<Vec<u8>>) -> (r: Result<String, String>)
    ensures
        key_pick(found_key(entries@, settings_file_key(settings_file)), r),
{
    let settings_key = match settings_file {
        Some(bytes) => string_field(bytes.as_slice(), "groq_api_key"),
        None => None,
    };
    pick_groq_key(entries, settings_key)
}

/// A key, once trimmed, is accepted exactly when it is not empty, has at
/// most 1024 bytes and holds no white space.
pub proof fn law_key_rules(k: Seq<char>)
    ensures
        key_accepted(k) <==> (k.len() > 0 && byte_len(k) <= 1024 && forall|i: int| 0 <= i < k.len()
            ==> !is_white_space(#[trigger] k[i])),
{
}

proof fn lemma_env_key(entries: Seq<(String, String)>, i: int)
    requires
        0 <= i < entries.len(),
        entries[i].0@ == "GROQ_API_KEY"@,
        forall|j: int| 0 <= j < i ==> (#[trigger] entries[j]).0@ != "GROQ_API_KEY"@,
    ensures
        env_key(entries) == entries[i].1@,
    decreases i,
{
    if i > 0 {
        assert(entries[0].0@ != "GROQ_API_KEY"@);
        let rest = entries.drop_first();
        assert forall|j: int| 0 <= j < i - 1 implies (#[trigger] rest[j]).0@ != "GROQ_API_KEY"@ by {
            assert(rest[j] == entries[j + 1]);
        }
        lemma_env_key(rest, i - 1);
    }
}

proof fn lemma_no_env_key(entries: Seq<(String, String)>)
    requires
        forall|j: int| 0 <= j < entries.len() ==> (#[trigger] entries[j]).0@ != "GROQ_API_KEY"@,
    ensures
        env_key(entries) == Seq::<char>::empty(),
    decreases entries.len(),
{
    if entries.len() > 0 {
        assert(entries[0].0@ != "GROQ_API_KEY"@);
        let rest = entries.drop_first();
        assert forall|j: int| 0 <= j < rest.len() implies (#[trigger] rest[j]).0@ != "GROQ_API_KEY"@ by {
            assert(rest[j] == entries[j + 1]);
        }
        lemma_no_env_key(rest);
    }
}

/// The key found in a folder is the value of the first `GROQ_API_KEY` entry
/// of its `.env` file when that value is not empty; otherwise the settings
/// file's key, if it has one; otherwise nothing.
pub proof fn law_env_key_first(entries: Seq<(String, String)>, settings_key: Option<Seq<char>>)
    ensures
        forall|i: int|
            0 <= i < entries.len() && (#[trigger] entries[i]).0@ == "GROQ_API_KEY"@ && (forall|j: int|
                0 <= j < i ==> (#[trigger] entries[j]).0@ != "GROQ_API_KEY"@) ==> found_key(entries, settings_key)
                == (if entries[i].1@.len() > 0 {
                entries[i].1@
            } else {
                match settings_key {
                    Some(s) => s,
                    None => Seq::empty(),
                }
            }),
        (forall|j: int| 0 <= j < entries.len() ==> (#[trigger] entries[j]).0@ != "GROQ_API_KEY"@)
            ==> found_key(entries, settings_key) == (match settings_key {
            Some(s) => s,
            None => Seq::empty(),
        }),
{
    assert forall|i: int|
        0 <= i < entries.len() && (#[trigger] entries[i]).0@ == "GROQ_API_KEY"@ && (forall|j: int|
            0 <= j < i ==> (#[trigger] entries[j]).0@ != "GROQ_API_KEY"@) implies found_key(entries, settings_key)
            == (if entries[i].1@.len() > 0 {
            entries[i].1@
        } else {
            match settings_key {
                Some(s) => s,
                None => Seq::empty(),
            }
        }) by {
        lemma_env_key(entries, i);
    }
    if forall|j: int| 0 <= j < entries.len() ==> (#[trigger] entries[j]).0@ != "GROQ_API_KEY"@ {
        lemma_no_env_key(entries);
    }
}

} // verus!
