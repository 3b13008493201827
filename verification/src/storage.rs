//! Preferences, dictionary entries and history entries, and the rules that
//! decide which preferences can be saved.
use vstd::prelude::*;
use crate::text::{byte_len, byte_len_exceeds, chars_of, str_eq, trim, trim_chars};

verus! {

/// One dictionary entry: occurrences of `source` become `target`.
#[derive(Clone, Debug)]
pub struct Rule {
    pub id: String,
    pub source: String,
    pub target: String,
    pub enabled: bool,
}

/// One saved transcription.
#[derive(Clone, Debug)]
pub struct Transcript {
    pub id: String,
    pub timestamp: String,
    pub text: String,
}

/// The user's preferences. The recorder scale, a 64-bit float in the
/// interface, is held by its IEEE-754 bit pattern, on which the range check
/// is exact.
#[derive(Clone, Debug)]
pub struct Settings {
    pub model: String,
    pub language: String,
    pub hotkey: String,
    pub color: String,
    pub pattern: String,
    pub placement: String,
    pub auto_copy: bool,
    pub auto_paste: bool,
    pub sound_theme: String,
    pub sounds: bool,
    pub recorder_scale_bits: u64,
    pub trim_silence: bool,
    pub watchdog: bool,
    pub incremental_transcription: bool,
}

/// Bit pattern of the float 0.6, the smallest recorder scale.
pub const SCALE_MIN_BITS: u64 = 0x3FE3_3333_3333_3333;

/// Bit pattern of the float 1.25, the largest recorder scale.
pub const SCALE_MAX_BITS: u64 = 0x3FF4_0000_0000_0000;

/// Bit pattern of the float 0.85, the default recorder scale.
pub const SCALE_DEFAULT_BITS: u64 = 0x3FEB_3333_3333_3333;

/// A float is finite and lies in `0.6..=1.25` exactly when its bit pattern
/// lies between those of the two bounds: positive finite floats are ordered
/// as their bit patterns, and every negative float, infinity or NaN has a
/// pattern outside that interval.
pub open spec fn scale_in_range(bits: u64) -> bool {
    SCALE_MIN_BITS <= bits <= SCALE_MAX_BITS
}

pub open spec fn is_sound_theme(s: Seq<char>) -> bool {
    ||| s == "pop"@
    ||| s == "marimba"@
    ||| s == "cristal"@
    ||| s == "gota"@
    ||| s == "madera"@
    ||| s == "seda"@
    ||| s == "pulso"@
    ||| s == "orbita"@
    ||| s == "tecla"@
    ||| s == "destello"@
}

/// Whether `theme` names one of the sound themes.
pub fn sound_theme_known(theme: &str) -> (r: bool)
    ensures
        r == is_sound_theme(theme@),
{
    str_eq(theme, "pop") || str_eq(theme, "marimba") || str_eq(theme, "cristal") || str_eq(
        theme,
        "gota",
    ) || str_eq(theme, "madera") || str_eq(theme, "seda") || str_eq(theme, "pulso") || str_eq(
        theme,
        "orbita",
    ) || str_eq(theme, "tecla") || str_eq(theme, "destello")
}

pub open spec fn is_model(s: Seq<char>) -> bool {
    s == "whisper-large-v3-turbo"@ || s == "whisper-large-v3"@
}

pub open spec fn is_language(s: Seq<char>) -> bool {
    s == "es"@ || s == "en"@ || s == "pt"@ || s == "auto"@
}

pub open spec fn is_hex_digit(c: char) -> bool {
    ('0' <= c <= '9') || ('a' <= c <= 'f') || ('A' <= c <= 'F')
}

/// `#` followed by six hexadecimal digits.
pub open spec fn is_hex_color(s: Seq<char>) -> bool {
    s.len() == 7 && s[0] == '#' && forall|i: int| 1 <= i < 7 ==> is_hex_digit(#[trigger] s[i])
}

pub open spec fn is_pattern(s: Seq<char>) -> bool {
    s == "wave"@ || s == "stairs"@
}

pub open spec fn is_placement(s: Seq<char>) -> bool {
    s == "left"@ || s == "right"@ || s == "top"@ || s == "bottom"@
}

/// A shortcut is not blank and has at most 80 bytes.
pub open spec fn is_hotkey(s: Seq<char>) -> bool {
    trim(s).len() > 0 && byte_len(s) <= 80
}

/// Why preferences are refused.
#[derive(Clone, Copy, Debug, PartialEq, Eq)]
pub enum SettingsProblem {
    SoundOrSize,
    Model,
    Language,
    Color,
    Appearance,
    Hotkey,
}

pub open spec fn settings_problem_text(p: SettingsProblem) -> Seq<char> {
    match p {
        SettingsProblem::SoundOrSize => "Sonido o tamano no valido"@,
        SettingsProblem::Model => "Modelo no admitido"@,
        SettingsProblem::Language => "Idioma no admitido"@,
        SettingsProblem::Color => "Color HEX invalido"@,
        SettingsProblem::Appearance => "Apariencia no admitida"@,
        SettingsProblem::Hotkey => "Atajo invalido"@,
    }
}

impl SettingsProblem {
    pub fn message(&self) -> (m: String)
        ensures
            m@ == settings_problem_text(*self),
    {
        match self {
            SettingsProblem::SoundOrSize => String::from_str("Sonido o tamano no valido"),
            SettingsProblem::Model => String::from_str("Modelo no admitido"),
            SettingsProblem::Language => String::from_str("Idioma no admitido"),
            SettingsProblem::Color => String::from_str("Color HEX invalido"),
            SettingsProblem::Appearance => String::from_str("Apariencia no admitida"),
            SettingsProblem::Hotkey => String::from_str("Atajo invalido"),
        }
    }
}

impl Settings {
    /// The first problem with these preferences, in the order they are
    /// checked, or `None`.
    pub open spec fn problem(self) -> Option<SettingsProblem> {
        if !is_sound_theme(self.sound_theme@) || !scale_in_range(self.recorder_scale_bits) {
            Some(SettingsProblem::SoundOrSize)
        } else if !is_model(self.model@) {
            Some(SettingsProblem::Model)
        } else if !is_language(self.language@) {
            Some(SettingsProblem::Language)
        } else if !is_hex_color(self.color@) {
            Some(SettingsProblem::Color)
        } else if !is_pattern(self.pattern@) || !is_placement(self.placement@) {
            Some(SettingsProblem::Appearance)
        } else if !is_hotkey(self.hotkey@) {
            Some(SettingsProblem::Hotkey)
        } else {
            None
        }
    }

    /// Accepts preferences with a known sound theme, a recorder scale in
    /// `0.6..=1.25`, a known model and language, a `#RRGGBB` color, a known
    /// pattern and placement, and a non-blank shortcut of at most 80 bytes;
    /// otherwise reports the first problem.
    pub fn validate(&self) -> (r: Result<(), String>)
        ensures
            r is Ok <==> self.problem() is None,
            r matches Err(m) ==> m@ == settings_problem_text(self.problem()->0),
    {
        let theme_ok = sound_theme_known(self.sound_theme.as_str());
        if !theme_ok || !(SCALE_MIN_BITS <= self.recorder_scale_bits && self.recorder_scale_bits
            <= SCALE_MAX_BITS) {
            return Err(SettingsProblem::SoundOrSize.message());
        }
        let model = self.model.as_str();
        if !(str_eq(model, "whisper-large-v3-turbo") || str_eq(model, "whisper-large-v3")) {
            return Err(SettingsProblem::Model.message());
        }
        let lang = self.language.as_str();
        if !(str_eq(lang, "es") || str_eq(lang, "en") || str_eq(lang, "pt") || str_eq(lang, "auto")) {
            return Err(SettingsProblem::Language.message());
        }
        if !hex_color(self.color.as_str()) {
            return Err(SettingsProblem::Color.message());
        }
        let pattern = self.pattern.as_str();
        let place = self.placement.as_str();
        if !(str_eq(pattern, "wave") || str_eq(pattern, "stairs")) || !(str_eq(place, "left")
            || str_eq(place, "right") || str_eq(place, "top") || str_eq(place, "bottom")) {
            return Err(SettingsProblem::Appearance.message());
        }
        let hotkey = chars_of(self.hotkey.as_str());
        if trim_chars(hotkey.as_slice()).len() == 0 || byte_len_exceeds(hotkey.as_slice(), 80) {
            return Err(SettingsProblem::Hotkey.message());
        }
        Ok(())
    }
}

fn hex_digit(c: char) -> (r: bool)
    ensures
        r == is_hex_digit(c),
{
    ('0' <= c && c <= '9') || ('a' <= c && c <= 'f') || ('A' <= c && c <= 'F')
}

fn hex_color(s: &str) -> (r: bool)
    ensures
        r == is_hex_color(s@),
{
    let v = chars_of(s);
    if v.len() != 7 || v[0] != '#' {
        return false;
    }
    let mut i: usize = 1;
    while i < 7
        invariant
            1 <= i <= 7,
            v@ == s@,
            v.len() == 7,
            forall|j: int| 1 <= j < i ==> is_hex_digit(#[trigger] v@[j]),
        decreases 7 - i,
    {
        if !hex_digit(v[i]) {
            return false;
        }
        i += 1;
    }
    true
}

/// The default preferences.
pub open spec fn default_settings_spec(s: Settings) -> bool {
    &&& s.model@ == "whisper-large-v3-turbo"@
    &&& s.language@ == "es"@
    &&& s.hotkey@ == "Control+Shift+Space"@
    &&& s.color@ == "#9024DC"@
    &&& s.pattern@ == "wave"@
    &&& s.placement@ == "right"@
    &&& s.auto_copy
    &&& s.auto_paste
    &&& s.sound_theme@ == "cristal"@
    &&& s.sounds
    &&& s.recorder_scale_bits == SCALE_DEFAULT_BITS
    &&& s.trim_silence
    &&& s.watchdog
    &&& s.incremental_transcription
}

impl Default for Settings {
    fn default() -> (s: Self)
        ensures
            default_settings_spec(s),
    {
        Settings {
            model: String::from_str("whisper-large-v3-turbo"),
            language: String::from_str("es"),
            hotkey: String::from_str("Control+Shift+Space"),
            color: String::from_str("#9024DC"),
            pattern: String::from_str("wave"),
            placement: String::from_str("right"),
            auto_copy: true,
            auto_paste: true,
            sound_theme: String::from_str("cristal"),
            sounds: true,
            recorder_scale_bits: SCALE_DEFAULT_BITS,
            trim_silence: true,
            watchdog: true,
            incremental_transcription: true,
        }
    }
}

/// The transcription language can be Spanish, English, Portuguese or
/// automatic: preferences that pass every other check are accepted exactly
/// when the language is `es`, `en`, `pt` or `auto`, and otherwise refused
/// for the language.
pub proof fn law_languages(s: Settings)
    requires
        is_sound_theme(s.sound_theme@),
        scale_in_range(s.recorder_scale_bits),
        is_model(s.model@),
        is_hex_color(s.color@),
        is_pattern(s.pattern@),
        is_placement(s.placement@),
        is_hotkey(s.hotkey@),
    ensures
        s.problem() is None <==> (s.language@ == "es"@ || s.language@ == "en"@ || s.language@
            == "pt"@ || s.language@ == "auto"@),
        s.problem() is Some ==> s.problem() == Some(SettingsProblem::Language),
{
}

/// The values each preference can take, listed: one of the ten sound
/// themes, a scale from 0.6 to 1.25, one of the two models, one of the four
/// languages, a `#RRGGBB` color, the wave or stairs pattern, a placement at
/// the left, right, top or bottom, and a non-blank shortcut of at most 80
/// bytes. Preferences are accepted exactly when all of these hold.
pub proof fn law_settings_values(s: Settings)
    ensures
        s.problem() is None <==> {
            &&& (s.sound_theme@ == "pop"@ || s.sound_theme@ == "marimba"@ || s.sound_theme@
                == "cristal"@ || s.sound_theme@ == "gota"@ || s.sound_theme@ == "madera"@
                || s.sound_theme@ == "seda"@ || s.sound_theme@ == "pulso"@ || s.sound_theme@
                == "orbita"@ || s.sound_theme@ == "tecla"@ || s.sound_theme@ == "destello"@)
            &&& 0x3FE3_3333_3333_3333u64 <= s.recorder_scale_bits <= 0x3FF4_0000_0000_0000u64
            &&& (s.model@ == "whisper-large-v3-turbo"@ || s.model@ == "whisper-large-v3"@)
            &&& (s.language@ == "es"@ || s.language@ == "en"@ || s.language@ == "pt"@
                || s.language@ == "auto"@)
            &&& s.color@.len() == 7
            &&& s.color@[0] == '#'
            &&& (forall|i: int| 1 <= i < 7 ==> {
                let c = #[trigger] s.color@[i];
                ('0' <= c <= '9') || ('a' <= c <= 'f') || ('A' <= c <= 'F')
            })
            &&& (s.pattern@ == "wave"@ || s.pattern@ == "stairs"@)
            &&& (s.placement@ == "left"@ || s.placement@ == "right"@ || s.placement@ == "top"@
                || s.placement@ == "bottom"@)
            &&& trim(s.hotkey@).len() > 0
            &&& byte_len(s.hotkey@) <= 80
        },
{
}

} // verus!
