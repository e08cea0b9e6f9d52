use sam_stats::backend::app_manager::AppManager;
use sam_stats::backend::user_unlock_times::{
    account_id, owns_app, parse_u64, steam_app_id_env, steam_id64_from_text, unlock_entry,
    unlock_list, STEAMID64_BASE,
};

#[test]
fn unlock_entries() {
    let e = unlock_entry("A".into(), "Alpha".into(), Some((true, 1600000000)));
    assert!(e.achieved);
    assert_eq!(e.unlock_time, Some(1600000000));
    let zero = unlock_entry("A".into(), "Alpha".into(), Some((true, 0)));
    assert_eq!(zero.unlock_time, None);
    let locked = unlock_entry("A".into(), "Alpha".into(), Some((false, 55)));
    assert_eq!(locked.unlock_time, None);
    let unread = unlock_entry("A".into(), "Alpha".into(), None);
    assert!(!unread.achieved);
    assert_eq!(unread.unlock_time, None);
}

#[test]
fn unlock_list_and_counts() {
    let names = vec![("A".to_string(), "Alpha".to_string()), ("B".to_string(), "Beta".to_string()), ("C".to_string(), "Gamma".to_string())];
    let reads = vec![Some((true, 10)), None, Some((true, 0))];
    let list = unlock_list(&names, &reads);
    assert_eq!(list.len(), 3);
    assert_eq!(list[1].api_name, "B");
    assert_eq!(list[1].display_name, "Beta");
    assert!(!list[1].achieved);
    assert_eq!(list[2].unlock_time, None);
    assert_eq!(AppManager::fetch_user_achievement_count(&list), (2, 3));
    assert_eq!(AppManager::fetch_user_achievement_count(&Vec::new()), (0, 0));
}

#[test]
fn u64_text_reads_like_rust() {
    assert_eq!(parse_u64("0"), Some(0));
    assert_eq!(parse_u64("+42"), Some(42));
    assert_eq!(parse_u64("18446744073709551615"), Some(u64::MAX));
    assert_eq!(parse_u64("18446744073709551616"), None);
    assert_eq!(parse_u64("99999999999999999999x"), None);
    assert_eq!(parse_u64(""), None);
    assert_eq!(parse_u64("+"), None);
    assert_eq!(parse_u64("-1"), None);
    assert_eq!(parse_u64("12a"), None);
    assert_eq!(parse_u64(" 1"), None);
    for s in ["0", "+7", "123456789", "18446744073709551615", "18446744073709551616", "", "+", "-0", "1_0"] {
        assert_eq!(parse_u64(s), s.parse::<u64>().ok(), "{s}");
    }
}

#[test]
fn friend_text_is_a_steam_id_only_above_the_base() {
    assert_eq!(steam_id64_from_text("76561197960287930"), Some(76561197960287930));
    assert_eq!(steam_id64_from_text(&STEAMID64_BASE.to_string()), Some(STEAMID64_BASE));
    assert_eq!(steam_id64_from_text("12345"), None);
    assert_eq!(steam_id64_from_text("gaben"), None);
    assert_eq!(steam_id64_from_text(" \t76561197960287930\u{3000}\n"), Some(76561197960287930));
    assert_eq!(steam_id64_from_text("7656 1197960287930"), None);
    assert_eq!(steam_id64_from_text("   "), None);
    for s in ["  42  ", "\u{a0}76561197960287930", "\u{200b}76561197960287930", "\u{85}+76561197960287931\u{2029}"] {
        let expected = s.trim().parse::<u64>().ok().filter(|v| *v >= STEAMID64_BASE);
        assert_eq!(steam_id64_from_text(s), expected, "{s:?}");
    }
}

#[test]
fn app_ownership_and_environment() {
    assert!(owns_app(&vec![10, 440, 730], 440));
    assert!(!owns_app(&vec![10, 730], 440));
    assert_eq!(steam_app_id_env(440, false), Some("440".to_string()));
    assert_eq!(steam_app_id_env(440, true), None);
}

#[test]
fn account_ids_are_the_low_half() {
    assert_eq!(account_id(76561197960287930), 22202);
    assert_eq!(account_id(5), 5);
}
