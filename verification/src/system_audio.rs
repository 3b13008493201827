//! Muting the computer's speakers while recording: the previous state of
//! every output device is journaled first, so it can always be restored.
use vstd::prelude::*;

verus! {

/// Muting is refused while an earlier journal still waits to be restored,
/// so the state it remembers is never overwritten by a muted one.
pub fn mute_allowed(journal_exists: bool) -> (r: Result<(), String>)
    ensures
        r is Ok <==> !journal_exists,
        r matches Err(m) ==> m@ == "Hay una restauracion de sonido pendiente"@,
{
    if journal_exists {
        Err(String::from_str("Hay una restauracion de sonido pendiente"))
    } else {
        Ok(())
    }
}

/// What restoring does with the journal: with none there is nothing to do;
/// the journal is deleted only when every device was restored, and kept for
/// a later attempt otherwise.
#[derive(PartialEq, Eq, Structural, Clone, Copy, Debug)]
pub enum RestoreStep {
    Nothing,
    DeleteJournal,
    KeepJournal,
}

pub fn restore_step(journal_exists: bool, any_failed: bool) -> (r: RestoreStep)
    ensures
        !journal_exists ==> r == RestoreStep::Nothing,
        journal_exists && !any_failed ==> r == RestoreStep::DeleteJournal,
        journal_exists && any_failed ==> r == RestoreStep::KeepJournal,
{
    if !journal_exists {
        RestoreStep::Nothing
    } else if any_failed {
        RestoreStep::KeepJournal
    } else {
        RestoreStep::DeleteJournal
    }
}

/// The message when some device could not be restored.
pub fn restore_failed() -> (m: String)
    ensures
        m@ == "No se pudo restaurar algun dispositivo de sonido. Se reintentara al abrir Whispera."@,
{
    String::from_str("No se pudo restaurar algun dispositivo de sonido. Se reintentara al abrir Whispera.")
}

} // verus!
