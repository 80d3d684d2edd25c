//! The season the battles count for.

use vstd::prelude::*;

verus! {

/// The current season and when it changes.
pub struct Season {
    pub season_id: u32,
    pub last_update_time: u64,
    pub next_update_time: u64,
}

/// No season yet: every field is 0.
pub fn new_season() -> (r: Season)
    ensures
        r.season_id == 0,
        r.last_update_time == 0,
        r.next_update_time == 0,
{
    Season { season_id: 0, last_update_time: 0, next_update_time: 0 }
}

} // verus!
