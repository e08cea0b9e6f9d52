//! Verified core of a Steam achievement and statistics manager: the decisions
//! that sit between the user's requests and the Steam client calls.

pub mod backend;
pub mod steam_client;
