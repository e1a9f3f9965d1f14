//! Detection of known players on a lobby screen: text normalization, fuzzy
//! scoring, player-card geometry and aggregation of scan results.

pub mod text;
pub mod fuzzy;
pub mod layout;
pub mod blacklist;
pub mod scan;
pub mod window;
pub mod paths;
