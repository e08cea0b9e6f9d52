use sam_stats::backend::stats_access::{
    app_server_command, as_unknown_error, first_result_for_app, idle_app_server_command, set_stealth,
    spawn_app_server, stealth, user_stats_wait_outcome, verify_readback, AppScoped, LoadState, PrimeFrame,
    PrimeStep, Stealth, StealthSwitch, MAX_REFUSALS, USER_STATS_FRAMES,
};
use sam_stats::backend::types::{SamError, SteamClientError, ERESULT_OK};

#[test]
fn stealth_reads_back_what_was_set() {
    let mut switch = StealthSwitch::new();
    assert!(!stealth(&switch));
    set_stealth(&mut switch, true);
    assert!(stealth(&switch));
    set_stealth(&mut switch, false);
    assert!(!stealth(&switch));
}

#[test]
fn server_arguments_follow_the_mode() {
    assert_eq!(spawn_app_server(440, false), vec!["--app=440".to_string()]);
    assert_eq!(
        spawn_app_server(4294967295, true),
        vec!["--app=4294967295".to_string(), "--stealth".to_string()]
    );
    assert_eq!(spawn_app_server(0, false), vec!["--app=0".to_string()]);
    let mut switch = StealthSwitch::new();
    set_stealth(&mut switch, true);
    assert_eq!(
        app_server_command(&switch, 730),
        vec!["--app=730".to_string(), "--stealth".to_string()]
    );
    assert_eq!(idle_app_server_command(730), vec!["--app=730".to_string()]);
}

#[test]
fn unknown_error_stands_for_any_failure() {
    assert_eq!(as_unknown_error::<u32, &str>(Ok(5)), Ok(5));
    assert_eq!(as_unknown_error::<u32, &str>(Err("pipe")), Err(SamError::UnknownError));
    assert_eq!(user_stats_wait_outcome(Some(8)), Ok(8));
    assert_eq!(user_stats_wait_outcome(None), Err(SamError::Timeout));
}

#[test]
fn readback_confirms_only_the_written_flag() {
    assert!(verify_readback(Ok((true, 10)), true));
    assert!(!verify_readback(Ok((false, 0)), true));
    assert!(verify_readback(Err(SteamClientError::NullVtable), false));
}

#[test]
fn app_scoped_outcomes() {
    let scoped = AppScoped::new(7u8);
    assert_eq!(*scoped.steam(), 7);
    assert!(scoped.verify_achievement("ACH_WIN", false));
    assert_eq!(AppScoped::<u8>::prime_outcome(Ok(ERESULT_OK)), Ok(true));
    assert_eq!(AppScoped::<u8>::prime_outcome(Ok(2)), Ok(false));
    assert_eq!(AppScoped::<u8>::prime_outcome(Err(SamError::Timeout)), Ok(false));
    assert_eq!(AppScoped::<u8>::prime_outcome(Err(SamError::UnknownError)), Err(SamError::UnknownError));
    assert_eq!(AppScoped::<u8>::percentages_outcome(Ok(Some(ERESULT_OK))), Ok(true));
    assert_eq!(AppScoped::<u8>::percentages_outcome(Ok(Some(3))), Ok(false));
    assert_eq!(AppScoped::<u8>::percentages_outcome(Ok(None)), Ok(false));
    assert_eq!(AppScoped::<u8>::percentages_outcome(Err(SamError::UnknownError)), Err(SamError::UnknownError));
    assert_eq!(AppScoped::<u8>::other_user_stats_outcome(Ok(ERESULT_OK)), Ok(()));
    assert_eq!(AppScoped::<u8>::other_user_stats_outcome(Ok(15)), Err(SamError::ProfilePrivate));
    assert_eq!(AppScoped::<u8>::other_user_stats_outcome(Err(SamError::Timeout)), Err(SamError::Timeout));
}

#[test]
fn load_state_gives_up_after_refusals() {
    let mut load = LoadState::new();
    for n in 1..MAX_REFUSALS {
        assert_eq!(load.prime_begin(), PrimeStep::SendRequest);
        assert_eq!(load.record_request(Ok(false)), PrimeStep::Answer(false));
        assert_eq!(load.refusals(), n);
        assert!(!load.load_attempted());
    }
    assert_eq!(load.prime_begin(), PrimeStep::SendRequest);
    assert_eq!(load.record_request(Ok(false)), PrimeStep::Answer(false));
    assert!(load.load_attempted());
    assert_eq!(load.prime_begin(), PrimeStep::Answer(false));
}

#[test]
fn load_state_loads_and_forgets_a_stale_load() {
    let mut load = LoadState::new();
    assert_eq!(load.record_request(Ok(true)), PrimeStep::AwaitCallback);
    assert!(load.load_attempted());
    assert!(load.record_callback(ERESULT_OK));
    assert!(load.loaded());
    assert_eq!(load.prime_begin(), PrimeStep::Answer(true));
    load.forget_load_if_stale(&Ok(true));
    assert!(load.loaded());
    load.forget_load_if_stale(&Err(SteamClientError::UnknownError));
    assert!(load.loaded());
    load.forget_load_if_stale(&Ok(false));
    assert!(!load.loaded());
    assert!(!load.load_attempted());
    assert_eq!(load.refusals(), 0);
    assert_eq!(load.prime_begin(), PrimeStep::SendRequest);
}

#[test]
fn load_state_request_failure_stops_requests() {
    let mut load = LoadState::new();
    assert_eq!(load.record_request(Err(SteamClientError::NullVtable)), PrimeStep::Answer(false));
    assert!(load.load_attempted());
    assert!(!load.loaded());
    assert_eq!(load.prime_begin(), PrimeStep::Answer(false));
}

#[test]
fn first_callback_for_the_app_counts() {
    let callbacks = vec![(10u32, 1i32), (440, 2), (440, 1)];
    assert_eq!(first_result_for_app(&callbacks, 440), Some(2));
    assert_eq!(first_result_for_app(&callbacks, 730), None);
    assert_eq!(first_result_for_app(&Vec::new(), 440), None);
}

#[test]
fn stealth_prime_flow() {
    assert_eq!(
        Stealth::<u8, u8>::new::<SteamClientError>(1, Err(SteamClientError::NullVtable), 440).err(),
        Some(SamError::SteamConnectionFailed)
    );
    let mut st = Stealth::<u8, u8>::new::<SteamClientError>(1, Ok(2), 440).ok().unwrap();
    assert_eq!(st.app_id(), 440);
    assert_eq!(*st.map(), 2);
    assert_eq!(*st.steam(), 1);
    assert!(st.needs_load::<()>(Ok(true)));
    assert!(st.needs_load::<()>(Err(())));
    assert!(!st.needs_load::<()>(Ok(false)));
    assert_eq!(st.prime_begin(), PrimeStep::SendRequest);
    assert_eq!(st.prime_requested(Ok(true)), PrimeStep::AwaitCallback);
    assert_eq!(st.prime_frame(&vec![(730, 1)]), PrimeFrame::Waiting);
    assert_eq!(st.prime_frame(&vec![(730, 1), (440, ERESULT_OK)]), PrimeFrame::Loaded(true));
    assert_eq!(st.prime_begin(), PrimeStep::Answer(true));
    assert!(!st.needs_load::<()>(Ok(true)));
    st.store_answered(&Ok(false));
    assert_eq!(st.prime_begin(), PrimeStep::SendRequest);
}

#[test]
fn stealth_prime_with_a_failing_result_code() {
    let mut st = Stealth::<(), ()>::new::<()>((), Ok(()), 10).ok().unwrap();
    assert_eq!(st.prime_requested(Ok(true)), PrimeStep::AwaitCallback);
    assert_eq!(st.prime_frame(&vec![(10, 5)]), PrimeFrame::Loaded(false));
    assert_eq!(st.prime_begin(), PrimeStep::Answer(false));
}

#[test]
fn stealth_call_outcomes() {
    assert_eq!(Stealth::<(), ()>::percentages_handle(Ok(77)), Some(77));
    assert_eq!(Stealth::<(), ()>::percentages_handle(Ok(0)), None);
    assert_eq!(Stealth::<(), ()>::percentages_handle(Err(SteamClientError::NullVtable)), None);
    assert!(Stealth::<(), ()>::percentages_ready(Some(ERESULT_OK)));
    assert!(!Stealth::<(), ()>::percentages_ready(Some(2)));
    assert!(!Stealth::<(), ()>::percentages_ready(None));
    assert_eq!(Stealth::<(), ()>::other_user_stats_received(Some(ERESULT_OK)), Ok(()));
    assert_eq!(Stealth::<(), ()>::other_user_stats_received(Some(17)), Err(SamError::ProfilePrivate));
    assert_eq!(Stealth::<(), ()>::other_user_stats_received(None), Err(SamError::Timeout));
}

#[test]
fn stealth_language_is_cached() {
    let mut st = Stealth::<(), ()>::new::<()>((), Ok(()), 10).ok().unwrap();
    assert_eq!(st.cached_language(), None);
    assert_eq!(st.remember_language(Some("french".to_string()), "english".to_string()), "french");
    assert_eq!(st.cached_language(), Some("french".to_string()));
    assert_eq!(st.remember_language(None, "german".to_string()), "german");
    assert_eq!(st.cached_language(), Some("german".to_string()));
}

#[test]
fn stealth_prime_times_out_after_the_frame_budget() {
    let mut st = Stealth::<(), ()>::new::<()>((), Ok(()), 10).ok().unwrap();
    assert_eq!(st.prime_requested(Ok(true)), PrimeStep::AwaitCallback);
    for _ in 1..USER_STATS_FRAMES {
        assert_eq!(st.prime_frame(&vec![(11, 1)]), PrimeFrame::Waiting);
    }
    assert_eq!(st.prime_frame(&Vec::new()), PrimeFrame::TimedOut);
    assert!(!st.loaded());
    assert_eq!(st.prime_begin(), PrimeStep::Answer(false));
    assert_eq!(USER_STATS_FRAMES, 1800);
}
