use sam_stats::backend::app_manager::{
    AchievementDefinition, AchievementInfo, AppManager, BaseStatDefinition, FloatStatDefinition,
    IntegerStatDefinition, ResetNext, StatDefinition,
};
use sam_stats::backend::types::{SamError, SteamClientError};

fn achievement(id: &str, locked: &str, permission: i32) -> AchievementDefinition {
    AchievementDefinition {
        id: id.to_string(),
        app_id: 440,
        name: format!("{id} name"),
        description: format!("{id} description"),
        icon_normal: format!("{id}.jpg"),
        icon_locked: locked.to_string(),
        is_hidden: false,
        permission,
    }
}

fn base(id: &str) -> BaseStatDefinition {
    BaseStatDefinition { id: id.to_string(), display_name: id.to_string(), permission: 0, app_id: 440 }
}

fn int_stat(id: &str, min: i32, max: i32, increment_only: bool, default: i32) -> StatDefinition {
    StatDefinition::Integer(IntegerStatDefinition {
        base: base(id),
        min_value: min,
        max_value: max,
        max_change: 0,
        increment_only,
        default_value: default,
        set_by_trusted_game_server: false,
    })
}

fn float_stat(id: &str) -> StatDefinition {
    StatDefinition::Float(FloatStatDefinition { base: base(id), increment_only: false })
}

fn manager_with(stats: Vec<StatDefinition>, achievements: Vec<AchievementDefinition>) -> AppManager {
    let mut m = AppManager::new(440);
    m.install_definitions(stats, achievements, "english");
    m
}

#[test]
fn current_stats_are_requested_once() {
    let mut m = AppManager::new(440);
    assert_eq!(m.app_id(), 440);
    assert!(m.current_stats_needed::<()>(Ok(true)));
    assert!(m.current_stats_needed::<()>(Err(())));
    assert!(!m.current_stats_needed::<()>(Ok(false)));
    assert_eq!(m.current_stats_primed(Ok(false)), Ok(()));
    assert!(m.current_stats_needed::<()>(Ok(true)));
    assert_eq!(m.current_stats_primed(Err(SamError::UnknownError)), Err(SamError::UnknownError));
    assert_eq!(m.current_stats_primed(Ok(true)), Ok(()));
    assert!(!m.current_stats_needed::<()>(Ok(true)));
}

#[test]
fn definitions_are_kept_per_language() {
    let mut m = AppManager::new(440);
    assert!(m.needs_definitions("english"));
    assert_eq!(m.language_or_default(), "");
    m.install_definitions(Vec::new(), Vec::new(), "french");
    assert!(!m.needs_definitions("french"));
    assert!(m.needs_definitions("FRENCH"));
    assert!(m.needs_definitions(""));
    assert_eq!(m.language_or_default(), "french");
}

#[test]
fn achievement_rows_skip_unreadable_and_unnamed() {
    let m = manager_with(
        Vec::new(),
        vec![achievement("A", "", 0), achievement("", "x", 0), achievement("B", "B_gray.jpg", 2), achievement("C", "", 0)],
    );
    let reads = vec![
        Ok((true, 1700000000)),
        Ok((true, 5)),
        Ok((false, 99)),
        Err(SteamClientError::UnknownError),
    ];
    let rows = m.achievement_rows(&reads).ok().unwrap();
    assert_eq!(rows.len(), 2);
    let (i, a) = &rows[0];
    assert_eq!(*i, 0);
    assert_eq!(a.id, "A");
    assert!(a.is_achieved);
    assert_eq!(a.unlock_time, Some(1700000000));
    assert_eq!(a.icon_locked, "A.jpg");
    assert_eq!(a.name, "A name");
    let (j, b) = &rows[1];
    assert_eq!(*j, 2);
    assert!(!b.is_achieved);
    assert_eq!(b.unlock_time, None);
    assert_eq!(b.icon_locked, "B_gray.jpg");
    assert_eq!(b.permission, 2);
}

#[test]
fn achievement_rows_fail_when_steam_serves_none() {
    let m = manager_with(Vec::new(), vec![achievement("A", "", 0), achievement("B", "", 0)]);
    let reads = vec![Err(SteamClientError::UnknownError), Err(SteamClientError::NullVtable)];
    assert_eq!(m.achievement_rows(&reads).err(), Some(SamError::SteamConnectionFailed));
    let unnamed = manager_with(Vec::new(), vec![achievement("", "", 0)]);
    assert_eq!(unnamed.achievement_rows(&vec![Err(SteamClientError::UnknownError)]).ok().map(|v| v.len()), Some(0));
    let empty = manager_with(Vec::new(), Vec::new());
    assert_eq!(empty.achievement_rows(&Vec::new()).ok().map(|v| v.len()), Some(0));
}

#[test]
fn statistic_rows_and_their_failure() {
    let m = manager_with(vec![int_stat("kills", 0, 100, true, 0), float_stat(""), float_stat("time")], Vec::new());
    assert_eq!(m.statistic_rows(&vec![true, true, true]), Ok(vec![0, 2]));
    assert_eq!(m.statistic_rows(&vec![false, true, true]), Ok(vec![2]));
    assert_eq!(m.statistic_rows(&vec![false, true, false]), Err(SamError::SteamConnectionFailed));
    let with_achievements = manager_with(vec![int_stat("kills", 0, 100, true, 0)], vec![achievement("A", "", 0)]);
    assert_eq!(with_achievements.statistic_rows(&vec![false]), Ok(Vec::new()));
}

#[test]
fn int_stat_state_reads_the_schema() {
    let m = manager_with(vec![float_stat("kills"), int_stat("kills", -5, 50, true, 7), int_stat("kills", 0, 1, false, 0)], Vec::new());
    let st = m.read_int_stat_state("kills", Ok(12));
    assert_eq!((st.min, st.max, st.increment_only, st.default, st.current), (-5, 50, true, 7, Some(12)));
    let missing = m.read_int_stat_state("deaths", Err(SteamClientError::UnknownError));
    assert_eq!(
        (missing.min, missing.max, missing.increment_only, missing.default, missing.current),
        (i32::MIN, i32::MAX, false, 0, None)
    );
    assert_eq!(m.float_stat_index("kills"), Some(0));
    assert_eq!(m.float_stat_index("deaths"), None);
}

#[test]
fn refused_write_is_not_pending() {
    let mut m = AppManager::new(440);
    assert_eq!(
        m.record_achievement_write("A", true, Err(SteamClientError::UnknownError)),
        Err(SamError::LockUnlockAchievementFailed)
    );
    assert!(m.take_pending_writes().is_empty());
}

#[test]
fn store_confirms_the_last_write_of_each_achievement() {
    let mut m = AppManager::new(440);
    assert_eq!(m.record_achievement_write("A", true, Ok(())), Ok(()));
    assert_eq!(m.record_achievement_write("B", true, Ok(())), Ok(()));
    assert_eq!(m.record_achievement_write("A", false, Ok(())), Ok(()));
    assert_eq!(m.record_achievement_write("C", true, Ok(())), Ok(()));
    let taken = m.take_pending_writes();
    assert_eq!(
        taken,
        vec![("C".to_string(), true), ("A".to_string(), false), ("B".to_string(), true)]
    );
    assert!(m.take_pending_writes().is_empty());
}

#[test]
fn store_outcomes() {
    assert_eq!(AppManager::store_outcome(Err(SteamClientError::UnknownError), &vec![]), Err(SamError::StatStoreFailed));
    assert_eq!(AppManager::store_outcome(Ok(false), &vec![]), Ok(false));
    assert_eq!(AppManager::store_outcome(Ok(true), &vec![]), Ok(true));
    assert_eq!(AppManager::store_outcome(Ok(true), &vec![false, true]), Ok(true));
    assert_eq!(AppManager::store_outcome(Ok(true), &vec![false, false]), Err(SamError::LockUnlockAchievementFailed));
}

#[test]
fn unlock_all_writes_only_lockable_locked_achievements() {
    let rows = vec![
        AchievementInfo { id: "A".into(), is_achieved: false, unlock_time: None, icon_normal: String::new(), icon_locked: String::new(), permission: 0, name: String::new(), description: String::new() },
        AchievementInfo { id: "B".into(), is_achieved: true, unlock_time: Some(3), icon_normal: String::new(), icon_locked: String::new(), permission: 0, name: String::new(), description: String::new() },
        AchievementInfo { id: "C".into(), is_achieved: false, unlock_time: None, icon_normal: String::new(), icon_locked: String::new(), permission: 1, name: String::new(), description: String::new() },
        AchievementInfo { id: "D".into(), is_achieved: false, unlock_time: None, icon_normal: String::new(), icon_locked: String::new(), permission: 0, name: String::new(), description: String::new() },
    ];
    assert_eq!(AppManager::unlock_all_targets(&rows), vec!["A".to_string(), "D".to_string()]);
    let mut m = AppManager::new(440);
    assert!(!m.record_unlock::<()>("A".to_string(), Ok(())));
    assert!(m.record_unlock::<()>("D".to_string(), Err(())));
    assert_eq!(m.take_pending_writes(), vec![("A".to_string(), true)]);
    assert_eq!(AppManager::unlock_all_outcome(Ok(true), false), Ok(true));
    assert_eq!(AppManager::unlock_all_outcome(Ok(true), true), Err(SamError::LockUnlockAchievementFailed));
    assert_eq!(AppManager::unlock_all_outcome(Err(SamError::StatStoreFailed), true), Err(SamError::StatStoreFailed));
}

#[test]
fn stat_writes_and_resets() {
    assert_eq!(AppManager::stat_write_outcome::<i32, ()>(Ok(3)), Ok(()));
    assert_eq!(AppManager::stat_write_outcome::<i32, ()>(Err(())), Err(SamError::UnknownError));
    assert!(matches!(AppManager::reset_outcome::<()>(Ok(true)), ResetNext::Store));
    assert!(matches!(AppManager::reset_outcome::<()>(Ok(false)), ResetNext::Answer(Ok(false))));
    assert!(matches!(AppManager::reset_outcome::<()>(Err(())), ResetNext::Answer(Err(SamError::UnknownError))));
    let mut m = AppManager::new(440);
    assert_eq!(m.record_achievement_write("A", true, Ok(())), Ok(()));
    m.begin_reset(false);
    assert_eq!(m.take_pending_writes().len(), 1);
    assert_eq!(m.record_achievement_write("A", true, Ok(())), Ok(()));
    m.begin_reset(true);
    assert!(m.take_pending_writes().is_empty());
}
