//! Taking a persisted key back out of storage.
use vstd::prelude::*;

verus! {

/// Provides an interface that allows a previously persisted key to be unpersisted.
pub trait KVStoreUnpersister {
    /// Unpersist (i.e., remove) the writeable previously persisted under the provided key.
    /// Returns `true` if the key was present, and `false` otherwise.
    fn unpersist(&self, key: &str) -> Result<bool, std::io::Error>;
}

/// The error `std::io::Error::new(ErrorKind::Other, message)` makes.
pub uninterp spec fn other_io_error_of(message: Seq<char>) -> std::io::Error;

/// Calls `std::io::Error::new` with `ErrorKind::Other` and the message; the
/// error is `other_io_error_of` the message.
#[verifier::external_body]
fn other_io_error(message: &str) -> (r: std::io::Error)
    ensures
        r == other_io_error_of(message@),
{
    std::io::Error::new(std::io::ErrorKind::Other, message)
}

/// What unpersisting a key from a file store does next.
pub enum UnpersistStep {
    /// Remove the key's file, sync its directory, then look again.
    Remove,
    /// Stop with this answer.
    Finish(Result<bool, std::io::Error>),
}

/// The answer unpersisting a key from a file store gives once no removal
/// is due, given whether its file was removed and whether a file is there
/// now: a key whose file was never there answers `false`; one whose file
/// was removed answers `true`, or fails with an `Other` error "Unpersisting
/// key failed" if its file is still there.
pub open spec fn unpersist_answer(removed: bool, file_present: bool) -> Result<bool, std::io::Error> {
    if !removed {
        Ok(false)
    } else if file_present {
        Err(other_io_error_of("Unpersisting key failed"@))
    } else {
        Ok(true)
    }
}

/// The next step of unpersisting a key from a file store, given whether its
/// file has been removed already and whether a file is there now: a
/// present file that was not removed yet is removed; otherwise the answer
/// is `unpersist_answer`.
pub fn unpersist_step(removed: bool, file_present: bool) -> (step: UnpersistStep)
    ensures
        !removed && file_present ==> step is Remove,
        removed || !file_present ==> step == UnpersistStep::Finish(unpersist_answer(removed, file_present)),
{
    if !removed {
        if !file_present {
            UnpersistStep::Finish(Ok(false))
        } else {
            UnpersistStep::Remove
        }
    } else if file_present {
        UnpersistStep::Finish(Err(other_io_error("Unpersisting key failed")))
    } else {
        UnpersistStep::Finish(Ok(true))
    }
}

/// An unpersist that answers `true` leaves no file behind, so unpersisting
/// the same key again finds none and answers `false`.
pub proof fn law_second_unpersist_answers_false(file_present_after: bool)
    requires
        unpersist_answer(true, file_present_after) == Ok::<bool, std::io::Error>(true),
    ensures
        !file_present_after,
        unpersist_answer(false, file_present_after) == Ok::<bool, std::io::Error>(false),
{
}

} // verus!
