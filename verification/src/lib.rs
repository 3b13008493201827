use vstd::prelude::*;

pub mod audio;
pub mod engine;
pub mod floating_window;
pub mod groq;
pub mod health;
pub mod incremental;
pub mod json;
pub mod legacy;
pub mod onboarding;
pub mod paste;
pub mod shortcuts;
pub mod sounds;
pub mod storage;
pub mod system_audio;
pub mod text;

verus! {

} // verus!
