use sam_stats::backend::schema::{
    achievement_definition, float_definition, get_localized_string, icon_url, integer_definition, is_bits_key,
    language_fallback, resolve_stat_type, schema_spelling, AchievementSchema, FloatStatSchema, IntegerStatSchema,
    LocalizedText, definitions_of, stat_kind, SchemaEntry,
};
use sam_stats::backend::app_manager::StatDefinition;
use sam_stats::backend::types::UserStatType;

fn langs() -> Vec<String> {
    vec!["english".to_string(), "LATAM".to_string(), "french".to_string()]
}

fn text(a: &str, b: &str, c: &str) -> LocalizedText {
    LocalizedText { in_language: a.to_string(), in_english: b.to_string(), own: c.to_string() }
}

#[test]
fn spelling_is_the_schema_own() {
    assert_eq!(schema_spelling(&langs(), "latam"), Some("LATAM".to_string()));
    assert_eq!(schema_spelling(&langs(), "French"), Some("french".to_string()));
    assert_eq!(schema_spelling(&langs(), "german"), None);
    assert_eq!(schema_spelling(&langs(), ""), None);
}

#[test]
fn missing_language_falls_back_to_the_game() {
    assert_eq!(language_fallback(&langs(), Some("Latam".to_string())), "LATAM");
    assert_eq!(language_fallback(&langs(), Some("schinese".to_string())), "schinese");
    assert_eq!(language_fallback(&langs(), Some(String::new())), "english");
    assert_eq!(language_fallback(&langs(), None), "english");
}

#[test]
fn localized_text_falls_back_in_order() {
    assert_eq!(get_localized_string(&text("Bonjour", "Hello", "raw"), "french", "id"), "Bonjour");
    assert_eq!(get_localized_string(&text("", "Hello", "raw"), "french", "id"), "Hello");
    assert_eq!(get_localized_string(&text("", "Hello", "raw"), "english", "id"), "raw");
    assert_eq!(get_localized_string(&text("", "", ""), "french", "id"), "id");
}

#[test]
fn stat_types_from_both_schema_formats() {
    assert_eq!(resolve_stat_type(Some(UserStatType::Float), 1), UserStatType::Float);
    assert_eq!(resolve_stat_type(Some(UserStatType::Invalid), 4), UserStatType::Achievements);
    assert_eq!(resolve_stat_type(None, 1), UserStatType::Integer);
    assert_eq!(resolve_stat_type(None, 3), UserStatType::AverageRate);
    assert_eq!(resolve_stat_type(None, 5), UserStatType::GroupAchievements);
    assert_eq!(resolve_stat_type(None, 257), UserStatType::Integer);
    assert_eq!(resolve_stat_type(None, 9), UserStatType::Invalid);
    assert_eq!(resolve_stat_type(None, -254), UserStatType::Float);
}

#[test]
fn bits_key_ignores_case() {
    assert!(is_bits_key("bits"));
    assert!(is_bits_key("BiTs"));
    assert!(!is_bits_key("bit"));
    assert!(!is_bits_key("bitsy"));
}

#[test]
fn icons_live_on_the_cdn() {
    assert_eq!(
        icon_url(440, "abc.jpg"),
        "https://cdn.steamstatic.com/steamcommunity/public/images/apps/440/abc.jpg"
    );
}

#[test]
fn definitions_apply_schema_defaults() {
    let int_schema = IntegerStatSchema {
        name: "kills".into(),
        display_name: text("", "", ""),
        permission: None,
        min: None,
        max: Some(1000),
        max_change: None,
        increment_only: Some(true),
        default: None,
        set_by_trusted_game_server: None,
    };
    let d = integer_definition(440, &int_schema, "english");
    assert_eq!(d.base.id, "kills");
    assert_eq!(d.base.display_name, "kills");
    assert_eq!((d.base.permission, d.base.app_id), (0, 440));
    assert_eq!((d.min_value, d.max_value, d.max_change, d.default_value), (i32::MIN, 1000, 0, 0));
    assert!(d.increment_only && !d.set_by_trusted_game_server);

    let f = float_definition(440, &FloatStatSchema { name: "time".into(), display_name: text("Temps", "", ""), permission: Some(2), increment_only: None }, "french");
    assert_eq!(f.base.display_name, "Temps");
    assert_eq!(f.base.permission, 2);
    assert!(!f.increment_only);

    let a = achievement_definition(
        730,
        &AchievementSchema {
            name: "WIN".into(),
            display_name: text("", "Win", ""),
            description: text("", "", ""),
            icon: "w.jpg".into(),
            icon_gray: "g.jpg".into(),
            hidden: Some(true),
            permission: None,
        },
        "german",
    );
    assert_eq!(a.id, "WIN");
    assert_eq!(a.name, "Win");
    assert_eq!(a.description, "");
    assert_eq!(a.icon_normal, "https://cdn.steamstatic.com/steamcommunity/public/images/apps/730/w.jpg");
    assert_eq!(a.icon_locked, "https://cdn.steamstatic.com/steamcommunity/public/images/apps/730/g.jpg");
    assert!(a.is_hidden);
    assert_eq!(a.permission, 0);
}

fn node(key: &str) -> SchemaEntry {
    SchemaEntry { key: key.into(), valid: true, text: None, int: None, flag: None, stat_type: None, children: Vec::new() }
}

fn text_node(key: &str, text: &str) -> SchemaEntry {
    SchemaEntry { text: Some(text.into()), ..node(key) }
}

fn int_node(key: &str, v: i32) -> SchemaEntry {
    SchemaEntry { int: Some(v), ..node(key) }
}

fn with(mut n: SchemaEntry, children: Vec<SchemaEntry>) -> SchemaEntry {
    n.children = children;
    n
}

fn schema() -> SchemaEntry {
    with(node("stats"), vec![
        with(node("1"), vec![
            int_node("type_int", 1),
            text_node("name", "kills"),
            int_node("max", 500),
            with(node("display"), vec![with(text_node("name", "Kills"), vec![text_node("french", "Victimes")])]),
        ]),
        with(node("2"), vec![
            SchemaEntry { stat_type: Some(UserStatType::Float), ..text_node("type", "FLOAT") },
            text_node("name", "time"),
            SchemaEntry { flag: Some(true), ..node("IncrementOnly") },
        ]),
        with(SchemaEntry { valid: false, ..node("3") }, vec![int_node("type", 1), text_node("name", "ghost")]),
        with(node("4"), vec![
            int_node("type", 4),
            with(node("BITS"), vec![
                with(node("0"), vec![
                    text_node("name", "WIN"),
                    with(node("display"), vec![
                        with(node("name"), vec![text_node("english", "Win")]),
                        text_node("icon", "w.jpg"),
                        SchemaEntry { flag: Some(true), ..node("hidden") },
                    ]),
                ]),
                with(node("1"), vec![text_node("name", "LOSE"), int_node("permission", 2)]),
            ]),
            with(node("other"), vec![with(node("0"), vec![text_node("name", "NOT_A_BIT")])]),
            node("bits"),
        ]),
        with(node("5"), vec![int_node("type", 9), text_node("name", "unknown")]),
    ])
}

#[test]
fn schema_walk_yields_definitions_in_order() {
    let stats = schema();
    assert_eq!(stat_kind(&stats.children[0]), UserStatType::Integer);
    assert_eq!(stat_kind(&stats.children[1]), UserStatType::Float);
    assert_eq!(stat_kind(&stats.children[3]), UserStatType::Achievements);
    assert_eq!(stat_kind(&stats.children[4]), UserStatType::Invalid);
    let (defs, achievements, positions) = definitions_of(440, &stats, "french");
    assert_eq!(positions, vec![0, 1]);
    assert_eq!(defs.len(), 2);
    match &defs[0] {
        StatDefinition::Integer(d) => {
            assert_eq!(d.base.id, "kills");
            assert_eq!(d.base.display_name, "Victimes");
            assert_eq!((d.min_value, d.max_value, d.default_value), (i32::MIN, 500, 0));
            assert!(!d.increment_only);
        }
        StatDefinition::Float(_) => panic!("kills is an integer stat"),
    }
    match &defs[1] {
        StatDefinition::Float(d) => {
            assert_eq!(d.base.id, "time");
            assert_eq!(d.base.display_name, "time");
            assert!(d.increment_only);
        }
        StatDefinition::Integer(_) => panic!("time is a float stat"),
    }
    assert_eq!(achievements.len(), 2);
    assert_eq!(achievements[0].id, "WIN");
    assert_eq!(achievements[0].name, "Win");
    assert!(achievements[0].is_hidden);
    assert_eq!(achievements[0].icon_normal, "https://cdn.steamstatic.com/steamcommunity/public/images/apps/440/w.jpg");
    assert_eq!(achievements[0].icon_locked, "https://cdn.steamstatic.com/steamcommunity/public/images/apps/440/");
    assert_eq!(achievements[1].id, "LOSE");
    assert_eq!(achievements[1].name, "LOSE");
    assert_eq!(achievements[1].permission, 2);
}
