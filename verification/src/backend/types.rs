use vstd::prelude::*;

verus! {

/// Errors reported by the backend to its callers.
#[derive(Debug, Clone, Copy, PartialEq, Eq, Structural)]
pub enum SamError {
    UnknownError,
    SteamConnectionFailed,
    Timeout,
    ProfilePrivate,
    LockUnlockAchievementFailed,
    StatStoreFailed,
}

/// Errors of a single call into the Steam client.
#[derive(Debug, Clone, Copy, PartialEq, Eq, Structural)]
pub enum SteamClientError {
    NullVtable,
    UnknownError,
}

/// `k_EResultOK`: the one result code that means success.
pub const ERESULT_OK: i32 = 1;


/// The kind of an entry of a game's stats schema.
#[derive(Debug, Clone, Copy, PartialEq, Eq, Structural)]
pub enum UserStatType {
    Invalid,
    Integer,
    Float,
    AverageRate,
    Achievements,
    GroupAchievements,
}

/// The schema kind numbered `raw`; numbers without a kind are `Invalid`.
pub open spec fn stat_type_of(raw: u8) -> UserStatType {
    if raw == 1 {
        UserStatType::Integer
    } else if raw == 2 {
        UserStatType::Float
    } else if raw == 3 {
        UserStatType::AverageRate
    } else if raw == 4 {
        UserStatType::Achievements
    } else if raw == 5 {
        UserStatType::GroupAchievements
    } else {
        UserStatType::Invalid
    }
}

impl UserStatType {
    /// The schema kind numbered `raw`; numbers without a kind are `Invalid`.
    pub fn from_u8(raw: u8) -> (t: UserStatType)
        ensures
            t == stat_type_of(raw),
    {
        match raw {
            1 => UserStatType::Integer,
            2 => UserStatType::Float,
            3 => UserStatType::AverageRate,
            4 => UserStatType::Achievements,
            5 => UserStatType::GroupAchievements,
            _ => UserStatType::Invalid,
        }
    }
}

/// Callbacks the backend waits for, by the Steam callback number.
#[derive(Debug, Clone, Copy, PartialEq, Eq, Structural)]
pub enum SteamCallbackId {
    ApiCallCompleted,
    UserStatsReceived,
    GlobalAchievementPercentagesReady,
}

/// The number Steam gives each awaited callback.
pub open spec fn callback_number(id: SteamCallbackId) -> i32 {
    match id {
        SteamCallbackId::ApiCallCompleted => 703,
        SteamCallbackId::UserStatsReceived => 1101,
        SteamCallbackId::GlobalAchievementPercentagesReady => 1110,
    }
}

impl SteamCallbackId {
    /// The number Steam gives this callback.
    pub fn number(self) -> (n: i32)
        ensures
            n == callback_number(self),
    {
        match self {
            SteamCallbackId::ApiCallCompleted => 703,
            SteamCallbackId::UserStatsReceived => 1101,
            SteamCallbackId::GlobalAchievementPercentagesReady => 1110,
        }
    }
}

} // verus!
