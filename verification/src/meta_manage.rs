use vstd::prelude::*;

verus! {

/// Address of the search service and the key that authorises it.
pub struct SearchConfig {
    pub host: String,
    pub api_key: String,
}

/// A game as the search index holds it.
pub struct GameMeta {
    pub id: u128,
    pub name: String,
    pub catalog: String,
    pub tags: Vec<String>,
    /// Index in VNDB.
    pub database_id: Option<i32>,
}

} // verus!
