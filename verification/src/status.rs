//! Publication status of a manga, decoded from the catalogue's integer code.

use vstd::prelude::*;

verus! {

/// Publication status as the host understands it.
#[derive(Clone, Copy, Debug, PartialEq, Eq, Structural)]
pub enum MangaStatus {
    Unknown,
    Ongoing,
    Completed,
}

/// The status that a catalogue code stands for: 1 is ongoing, 2 is
/// completed, every other integer is unknown.
pub open spec fn status_of_code(code: int) -> MangaStatus {
    if code == 1 {
        MangaStatus::Ongoing
    } else if code == 2 {
        MangaStatus::Completed
    } else {
        MangaStatus::Unknown
    }
}

/// Decodes the catalogue's status code.
pub fn manga_status(status: i64) -> (res: MangaStatus)
    ensures
        res == status_of_code(status as int),
        res == MangaStatus::Ongoing <==> status == 1,
        res == MangaStatus::Completed <==> status == 2,
        res == MangaStatus::Unknown <==> status != 1 && status != 2,
{
    match status {
        1 => MangaStatus::Ongoing,
        2 => MangaStatus::Completed,
        _ => MangaStatus::Unknown,
    }
}

} // verus!
