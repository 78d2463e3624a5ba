//! Which frames are replayed.
use vstd::prelude::*;

use crate::proto::tags;

verus! {

/// Whether frames with this type byte are replayed: queries, function calls, the
/// steps of the extended protocol but Close and Flush, and the end of a session.
pub open spec fn replayed(tag: u8) -> bool {
    ||| tag == tags::F_QUERY
    ||| tag == tags::F_PARSE
    ||| tag == tags::F_BIND
    ||| tag == tags::F_DESCRIBE
    ||| tag == tags::F_EXECUTE
    ||| tag == tags::F_FUNCTION_CALL
    ||| tag == tags::F_SYNC
    ||| tag == tags::F_TERMINATE
}

/// Whether frames with this type byte are replayed.
pub fn should_replay_frame(tag: u8) -> (r: bool)
    ensures
        r == replayed(tag),
{
    tag == tags::F_QUERY || tag == tags::F_PARSE || tag == tags::F_BIND || tag == tags::F_DESCRIBE
        || tag == tags::F_EXECUTE || tag == tags::F_FUNCTION_CALL || tag == tags::F_SYNC || tag
        == tags::F_TERMINATE
}

} // verus!
