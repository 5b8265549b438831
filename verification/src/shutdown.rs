use vstd::prelude::*;

verus! {

/// Offset-advance rule: a malformed update with no `update_id` reads
/// as id 0 — real update ids are positive, so 0 never advances the poll
/// offset, and an older replay never moves it backwards.
pub fn should_advance_offset(id: u64, off: u64) -> (advance: bool)
    ensures
        advance == (id > 0 && id >= off),
{
    id > 0 && id >= off
}

/// The poll offset after acknowledging update `id`.
pub open spec fn acked(off: u64, id: u64) -> int {
    if id > 0 && id >= off {
        id + 1
    } else {
        off as int
    }
}

/// Acknowledge a handled update: the offset moves just past `id` when
/// the rule above allows it, and stays otherwise.
pub fn ack_update(offset: &mut u64, id: u64)
    requires
        id < u64::MAX,
    ensures
        *final(offset) == acked(*old(offset), id),
{
    if should_advance_offset(id, *offset) {
        *offset = id + 1;
    }
}

/// The offset only moves forward: an acknowledgement never lowers it,
/// a poison id 0 or an older replay leaves it as it was, and the same
/// update acknowledged twice moves it once.
pub proof fn law_offset_never_moves_back(off: u64, id: u64)
    requires
        id < u64::MAX,
    ensures
        acked(off, id) >= off,
        (id == 0 || id < off) ==> acked(off, id) == off,
        acked(off, id) > off ==> acked(acked(off, id) as u64, id) == acked(off, id),
{
}

} // verus!
