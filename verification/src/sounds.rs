//! Start and stop cues: which clip of the sound bank plays.
use vstd::prelude::*;
use crate::storage::{is_sound_theme, sound_theme_known, Settings};
use crate::text::{append_chars, chars_of, string_of};

verus! {

/// The clip of `theme` for the start or the stop of a recording; an unknown
/// theme plays the `cristal` clips.
pub open spec fn clip_name(theme: Seq<char>, stop: bool) -> Seq<char> {
    (if is_sound_theme(theme) {
        theme
    } else {
        "cristal"@
    }) + (if stop {
        "-stop.wav"@
    } else {
        "-start.wav"@
    })
}

/// The clip to play at the start (`stop == false`) or stop of a recording,
/// or `None` where sounds are off.
pub fn sound_clip(settings: &Settings, stop: bool) -> (r: Option<String>)
    ensures
        !settings.sounds ==> r is None,
        settings.sounds ==> (r matches Some(c) && c@ == clip_name(settings.sound_theme@, stop)),
{
    if !settings.sounds {
        return None;
    }
    let theme = settings.sound_theme.as_str();
    let mut out = if sound_theme_known(theme) {
        chars_of(theme)
    } else {
        chars_of("cristal")
    };
    let tail = if stop {
        chars_of("-stop.wav")
    } else {
        chars_of("-start.wav")
    };
    append_chars(&mut out, tail.as_slice(), 0, tail.len());
    assert(tail@.subrange(0, tail.len() as int) == tail@);
    Some(string_of(out.as_slice()))
}

/// Starting and stopping never play the same clip, and a theme that is not
/// one of the known ones plays exactly what `cristal` plays.
pub proof fn law_clips(theme: Seq<char>, stop: bool)
    ensures
        clip_name(theme, true) != clip_name(theme, false),
        !is_sound_theme(theme) ==> clip_name(theme, stop) == clip_name("cristal"@, stop),
{
    reveal_strlit("-stop.wav");
    reveal_strlit("-start.wav");
    reveal_strlit("cristal");
    assert(clip_name(theme, true).len() != clip_name(theme, false).len());
    assert(is_sound_theme("cristal"@));
}

} // verus!
