use vstd::prelude::*;

verus! {

/// One download of a game, from one address.
pub struct HotRecord {
    pub game_id: u128,
    pub ip: String,
}

/// A stored download record: its number, the record, and when it was made
/// (nanoseconds since the Unix epoch).
pub struct NumberedHotRecord {
    pub id: i64,
    pub hot_record: HotRecord,
    pub download_time: i128,
}

/// How often a game was downloaded.
pub struct TopCountItem {
    pub game_id: u128,
    pub count: i64,
}

impl TopCountItem {
    /// The item for one row of the most-downloaded view; a row without a count
    /// counts zero. The row must name a game.
    pub fn from_row(game_id: Option<u128>, count: Option<i64>) -> (r: TopCountItem)
        requires
            game_id is Some,
        ensures
            r.game_id == game_id->0,
            r.count == match count {
                Some(c) => c,
                None => 0,
            },
    {
        TopCountItem {
            game_id: match game_id {
                Some(g) => g,
                None => 0,
            },
            count: match count {
                Some(c) => c,
                None => 0,
            },
        }
    }
}

} // verus!
