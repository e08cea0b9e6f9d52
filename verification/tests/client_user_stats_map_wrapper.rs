use sam_stats::steam_client::client_user_stats_map_wrapper::{
    app_id_of_game, is_call_completion, is_user_stats_received, native_name_ok, payload_usable, read_outcome,
    PumpedMessage,
};
use sam_stats::backend::types::{SteamCallbackId, SteamClientError};

#[test]
fn user_stats_messages_are_filtered() {
    let ok = PumpedMessage { id: 1101, has_payload: true, payload_size: 24 };
    assert!(is_user_stats_received(&ok, 24));
    assert!(!is_user_stats_received(&ok, 32));
    assert!(!is_user_stats_received(&PumpedMessage { id: 1101, has_payload: false, payload_size: 24 }, 24));
    assert!(!is_user_stats_received(&PumpedMessage { id: 703, has_payload: true, payload_size: 24 }, 24));
}

#[test]
fn completed_calls_are_recognised() {
    let msg = PumpedMessage { id: 703, has_payload: true, payload_size: 16 };
    assert!(is_call_completion(&msg, 16));
    assert!(!is_call_completion(&msg, 24));
    assert!(!is_call_completion(&PumpedMessage { id: 703, has_payload: false, payload_size: 16 }, 16));
    assert!(!is_call_completion(&PumpedMessage { id: 1101, has_payload: true, payload_size: 16 }, 16));
    assert!(payload_usable(true, false));
    assert!(!payload_usable(true, true));
    assert!(!payload_usable(false, false));
}

#[test]
fn game_ids_keep_their_app() {
    assert_eq!(app_id_of_game(440), 440);
    assert_eq!(app_id_of_game((7u64 << 32) | 730), 730);
}

#[test]
fn names_and_call_results() {
    assert!(native_name_ok("ACH_WIN_ONE_GAME"));
    assert!(!native_name_ok("ACH\0WIN"));
    assert_eq!(read_outcome(true, 5i32), Ok(5));
    assert_eq!(read_outcome(false, 5i32), Err(SteamClientError::UnknownError));
    assert_eq!(SteamCallbackId::UserStatsReceived.number(), 1101);
    assert_eq!(SteamCallbackId::ApiCallCompleted.number(), 703);
    assert_eq!(SteamCallbackId::GlobalAchievementPercentagesReady.number(), 1110);
}
