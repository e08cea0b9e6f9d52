use crate::backend::app_manager::{AchievementDefinition, BaseStatDefinition, FloatStatDefinition, IntegerStatDefinition, StatDefinition};
use crate::backend::text::{decimal, eq_ignore_ascii_case, push_decimal, str_eq, str_eq_ignore_ascii_case};
use crate::backend::types::{stat_type_of, UserStatType};
use vstd::prelude::*;
use vstd::string::*;

verus! {

// ---------------------------------------------------------------------------
// Languages
// ---------------------------------------------------------------------------

/// The first of `languages` that spells `language`, ASCII case aside.
pub open spec fn first_spelling(languages: Seq<Seq<char>>, language: Seq<char>) -> Option<Seq<char>>
    decreases languages.len(),
{
    if languages.len() == 0 {
        None
    } else if eq_ignore_ascii_case(languages[0], language) {
        Some(languages[0])
    } else {
        first_spelling(languages.drop_first(), language)
    }
}

/// The schema's own spelling of `language`: schemas disagree on how they
/// spell a language (`LATAM` vs `latam`), so it is matched without ASCII case.
/// An empty language has no spelling.
pub open spec fn spelling_of(languages: Seq<Seq<char>>, language: Seq<char>) -> Option<Seq<char>> {
    if language.len() == 0 {
        None
    } else {
        first_spelling(languages, language)
    }
}

/// The schema's own spelling of `language`, if it offers that language.
pub fn schema_spelling(languages: &Vec<String>, language: &str) -> (found: Option<String>)
    ensures
        match found {
            Some(s) => spelling_of(languages@.map_values(|l: String| l@), language@) == Some(s@),
            None => spelling_of(languages@.map_values(|l: String| l@), language@) is None,
        },
{
    let ghost all = languages@.map_values(|l: String| l@);
    if language.is_empty() {
        return None;
    }
    let mut i: usize = 0;
    assert(all.skip(0) =~= all);
    while i < languages.len()
        invariant
            i <= languages.len(),
            all == languages@.map_values(|l: String| l@),
            language@.len() > 0,
            first_spelling(all, language@) == first_spelling(all.skip(i as int), language@),
        decreases languages.len() - i,
    {
        assert(all.skip(i as int).drop_first() =~= all.skip(i + 1));
        assert(all.skip(i as int)[0] == languages@[i as int]@);
        if str_eq_ignore_ascii_case(languages[i].as_str(), language) {
            return Some(languages[i].clone());
        }
        i = i + 1;
    }
    None
}

/// Law: a spelling found for a language is one the schema offers, and spells
/// the language asked for, ASCII case aside; none is found only when the
/// schema offers no such spelling.
pub proof fn law_spelling_offered(languages: Seq<Seq<char>>, language: Seq<char>)
    ensures
        match spelling_of(languages, language) {
            Some(s) => languages.contains(s) && eq_ignore_ascii_case(s, language),
            None => language.len() == 0 || forall|i: int| 0 <= i < languages.len() ==> !eq_ignore_ascii_case(#[trigger] languages[i], language),
        },
    decreases languages.len(),
{
    if language.len() > 0 && languages.len() > 0 {
        let rest = languages.drop_first();
        law_spelling_offered(rest, language);
        if !eq_ignore_ascii_case(languages[0], language) {
            match first_spelling(rest, language) {
                Some(s) => {
                    let j = choose|j: int| 0 <= j < rest.len() && rest[j] == s;
                    assert(languages[j + 1] == s);
                },
                None => {
                    assert forall|i: int| 0 <= i < languages.len() implies !eq_ignore_ascii_case(#[trigger] languages[i], language) by {
                        if i > 0 {
                            assert(languages[i] == rest[i - 1]);
                        }
                    }
                },
            }
        } else {
            assert(languages[0] == languages[0]);
        }
    }
}

/// The language to read a schema in when it lacks the one asked for: the
/// game's current language (in the schema's spelling when it has one),
/// and english when the game reports none.
pub open spec fn fallback_language(languages: Seq<Seq<char>>, current: Option<Seq<char>>) -> Seq<char> {
    match current {
        Some(c) if c.len() > 0 => match spelling_of(languages, c) {
            Some(s) => s,
            None => c,
        },
        _ => "english"@,
    }
}

/// The language to read a schema in when it does not offer the one asked
/// for; `current` is the game's current language, if Steam reports one.
pub fn language_fallback(languages: &Vec<String>, current: Option<String>) -> (l: String)
    ensures
        l@ == fallback_language(languages@.map_values(|s: String| s@), match current {
            Some(c) => Some(c@),
            None => None,
        }),
{
    match current {
        Some(c) => {
            if c.as_str().is_empty() {
                return "english".to_owned();
            }
            match schema_spelling(languages, c.as_str()) {
                Some(s) => s,
                None => c,
            }
        },
        None => "english".to_owned(),
    }
}

/// The texts a schema offers for one name: in the language asked for, in
/// english, and the node's own value. An empty text is a missing one.
pub struct LocalizedText {
    pub in_language: String,
    pub in_english: String,
    pub own: String,
}

/// The localized text: the asked language's, else english's, else the
/// node's own value, else `default_value`.
pub open spec fn localized(t: LocalizedText, language: Seq<char>, default_value: Seq<char>) -> Seq<char> {
    localized_seq(t.in_language@, t.in_english@, t.own@, language, default_value)
}

/// The first non-empty of: the text in `language`, the english text (unless
/// `language` is english), the node's own text, `default_value`.
pub open spec fn localized_seq(
    in_language: Seq<char>,
    in_english: Seq<char>,
    own: Seq<char>,
    language: Seq<char>,
    default_value: Seq<char>,
) -> Seq<char> {
    if in_language.len() > 0 {
        in_language
    } else if language != "english"@ && in_english.len() > 0 {
        in_english
    } else if own.len() > 0 {
        own
    } else {
        default_value
    }
}

/// The localized text of a schema name (see `localized`).
pub fn get_localized_string(t: &LocalizedText, language: &str, default_value: &str) -> (s: String)
    ensures
        s@ == localized(*t, language@, default_value@),
{
    if !t.in_language.as_str().is_empty() {
        return t.in_language.clone();
    }
    if !str_eq(language, "english") && !t.in_english.as_str().is_empty() {
        return t.in_english.clone();
    }
    if !t.own.as_str().is_empty() {
        return t.own.clone();
    }
    default_value.to_owned()
}

// ---------------------------------------------------------------------------
// Entries of the stats schema
// ---------------------------------------------------------------------------

/// The kind of a schema entry: the kind its `type` names, in the newer
/// schema format; else the number it gives (`type_int`, or `type`), in the
/// older one, read as a byte.
pub fn resolve_stat_type(parsed: Option<UserStatType>, raw_type: i32) -> (t: UserStatType)
    ensures
        t == match parsed {
            Some(p) if p != UserStatType::Invalid => p,
            _ => stat_type_of(raw_type as u8),
        },
{
    match parsed {
        Some(p) => {
            if p != UserStatType::Invalid {
                return p;
            }
        },
        None => {},
    }
    UserStatType::from_u8(raw_type as u8)
}

/// Whether an achievement entry's child holds the achievement bits: its key
/// is `bits` in any case.
pub fn is_bits_key(key: &str) -> (b: bool)
    ensures
        b == eq_ignore_ascii_case(key@, "bits"@),
{
    str_eq_ignore_ascii_case(key, "bits")
}

/// Where Steam serves the icons of an app's achievements.
pub open spec fn icon_url_spec(app_id: u32, file: Seq<char>) -> Seq<char> {
    "https://cdn.steamstatic.com/steamcommunity/public/images/apps/"@ + decimal(app_id as nat) + "/"@ + file
}

/// The address of icon `file` of app `app_id`.
pub fn icon_url(app_id: u32, file: &str) -> (url: String)
    ensures
        url@ == icon_url_spec(app_id, file@),
{
    let mut url = "https://cdn.steamstatic.com/steamcommunity/public/images/apps/".to_owned();
    push_decimal(&mut url, app_id as u64);
    url.append("/");
    url.append(file);
    url
}

/// What the schema gives for an integer stat; an absent value is `None`.
pub struct IntegerStatSchema {
    pub name: String,
    pub display_name: LocalizedText,
    pub permission: Option<i32>,
    pub min: Option<i32>,
    pub max: Option<i32>,
    pub max_change: Option<i32>,
    pub increment_only: Option<bool>,
    pub default: Option<i32>,
    pub set_by_trusted_game_server: Option<bool>,
}

/// What the schema gives for a float or average-rate stat, besides its
/// numeric limits; an absent value is `None`.
pub struct FloatStatSchema {
    pub name: String,
    pub display_name: LocalizedText,
    pub permission: Option<i32>,
    pub increment_only: Option<bool>,
}

/// What the schema gives for one achievement bit; an absent value is `None`.
pub struct AchievementSchema {
    pub name: String,
    pub display_name: LocalizedText,
    pub description: LocalizedText,
    pub icon: String,
    pub icon_gray: String,
    pub hidden: Option<bool>,
    pub permission: Option<i32>,
}

/// `v`, or `d` when absent.
pub open spec fn or_else<T>(v: Option<T>, d: T) -> T {
    match v {
        Some(x) => x,
        None => d,
    }
}

fn unwrap_or_i32(v: Option<i32>, d: i32) -> (x: i32)
    ensures
        x == or_else(v, d),
{
    match v {
        Some(x) => x,
        None => d,
    }
}

fn unwrap_or_bool(v: Option<bool>, d: bool) -> (x: bool)
    ensures
        x == or_else(v, d),
{
    match v {
        Some(x) => x,
        None => d,
    }
}

/// The definition of an integer stat of app `app_id`, named in `language`
/// (falling back to its id). Absent values default to permission 0, the
/// full `i32` range, no change limit, not increment-only, default 0.
pub fn integer_definition(app_id: u32, schema: &IntegerStatSchema, language: &str) -> (d: IntegerStatDefinition)
    ensures
        d.base.id@ == schema.name@,
        d.base.display_name@ == localized(schema.display_name, language@, schema.name@),
        d.base.permission == or_else(schema.permission, 0),
        d.base.app_id == app_id,
        d.min_value == or_else(schema.min, i32::MIN),
        d.max_value == or_else(schema.max, i32::MAX),
        d.max_change == or_else(schema.max_change, 0),
        d.increment_only == or_else(schema.increment_only, false),
        d.default_value == or_else(schema.default, 0),
        d.set_by_trusted_game_server == or_else(schema.set_by_trusted_game_server, false),
{
    let display_name = get_localized_string(&schema.display_name, language, schema.name.as_str());
    IntegerStatDefinition {
        base: BaseStatDefinition {
            id: schema.name.clone(),
            display_name,
            permission: unwrap_or_i32(schema.permission, 0),
            app_id,
        },
        min_value: unwrap_or_i32(schema.min, i32::MIN),
        max_value: unwrap_or_i32(schema.max, i32::MAX),
        max_change: unwrap_or_i32(schema.max_change, 0),
        increment_only: unwrap_or_bool(schema.increment_only, false),
        default_value: unwrap_or_i32(schema.default, 0),
        set_by_trusted_game_server: unwrap_or_bool(schema.set_by_trusted_game_server, false),
    }
}

/// The definition of a float stat of app `app_id`, named in `language`
/// (falling back to its id).
pub fn float_definition(app_id: u32, schema: &FloatStatSchema, language: &str) -> (d: FloatStatDefinition)
    ensures
        d.base.id@ == schema.name@,
        d.base.display_name@ == localized(schema.display_name, language@, schema.name@),
        d.base.permission == or_else(schema.permission, 0),
        d.base.app_id == app_id,
        d.increment_only == or_else(schema.increment_only, false),
{
    let display_name = get_localized_string(&schema.display_name, language, schema.name.as_str());
    FloatStatDefinition {
        base: BaseStatDefinition {
            id: schema.name.clone(),
            display_name,
            permission: unwrap_or_i32(schema.permission, 0),
            app_id,
        },
        increment_only: unwrap_or_bool(schema.increment_only, false),
    }
}

/// The definition of an achievement of app `app_id`, named and described in
/// `language` (the name falling back to its id, the description to nothing),
/// with its icons on Steam's CDN.
pub fn achievement_definition(app_id: u32, schema: &AchievementSchema, language: &str) -> (d: AchievementDefinition)
    ensures
        d.id@ == schema.name@,
        d.app_id == app_id,
        d.name@ == localized(schema.display_name, language@, schema.name@),
        d.description@ == localized(schema.description, language@, Seq::empty()),
        d.icon_normal@ == icon_url_spec(app_id, schema.icon@),
        d.icon_locked@ == icon_url_spec(app_id, schema.icon_gray@),
        d.is_hidden == or_else(schema.hidden, false),
        d.permission == or_else(schema.permission, 0),
{
    let name = get_localized_string(&schema.display_name, language, schema.name.as_str());
    let description = get_localized_string(&schema.description, language, "");
    proof {
        reveal_strlit("");
    }
    AchievementDefinition {
        id: schema.name.clone(),
        app_id,
        name,
        description,
        icon_normal: icon_url(app_id, schema.icon.as_str()),
        icon_locked: icon_url(app_id, schema.icon_gray.as_str()),
        is_hidden: unwrap_or_bool(schema.hidden, false),
        permission: unwrap_or_i32(schema.permission, 0),
    }
}


// ---------------------------------------------------------------------------
// The stats schema as a tree, and the walk that turns it into definitions
// ---------------------------------------------------------------------------

/// A node of a game's stats schema: its key, whether it is valid, what it
/// reads as (text, integer, flag, the stat kind its text names), and its
/// children in schema order. Float values are read by the caller.
pub struct SchemaEntry {
    pub key: String,
    pub valid: bool,
    pub text: Option<String>,
    pub int: Option<i32>,
    pub flag: Option<bool>,
    pub stat_type: Option<UserStatType>,
    pub children: Vec<SchemaEntry>,
}

/// The first of `children` whose key is `key`, ASCII case aside.
pub open spec fn first_child(children: Seq<SchemaEntry>, key: Seq<char>) -> Option<SchemaEntry>
    decreases children.len(),
{
    if children.len() == 0 {
        None
    } else if eq_ignore_ascii_case(children[0].key@, key) {
        Some(children[0])
    } else {
        first_child(children.drop_first(), key)
    }
}

/// The child `key` of a node; a missing node has no children.
pub open spec fn child(node: Option<SchemaEntry>, key: Seq<char>) -> Option<SchemaEntry> {
    match node {
        Some(e) => first_child(e.children@, key),
        None => None,
    }
}

/// A node that exists and is valid. A missing or invalid node reads as absent.
pub open spec fn is_valid(node: Option<SchemaEntry>) -> bool {
    node matches Some(e) && e.valid
}

/// What a node reads as text; absent reads as empty.
pub open spec fn read_text(node: Option<SchemaEntry>) -> Seq<char> {
    if is_valid(node) && node->0.text is Some {
        node->0.text->0@
    } else {
        Seq::empty()
    }
}

/// What a node reads as an integer.
pub open spec fn read_int(node: Option<SchemaEntry>) -> Option<i32> {
    if is_valid(node) {
        node->0.int
    } else {
        None
    }
}

/// What a node reads as a flag.
pub open spec fn read_flag(node: Option<SchemaEntry>) -> Option<bool> {
    if is_valid(node) {
        node->0.flag
    } else {
        None
    }
}

/// The stat kind a node's text names.
pub open spec fn read_type(node: Option<SchemaEntry>) -> Option<UserStatType> {
    if is_valid(node) {
        node->0.stat_type
    } else {
        None
    }
}

/// The number the older schema format gives a stat's kind: `type_int` when
/// valid, else `type`, else 0.
pub open spec fn raw_type_of(e: SchemaEntry) -> i32 {
    let type_int = child(Some(e), "type_int"@);
    if is_valid(type_int) {
        or_else(read_int(type_int), 0)
    } else {
        or_else(read_int(child(Some(e), "type"@)), 0)
    }
}

/// The kind of a schema stat (see `resolve_stat_type`).
pub open spec fn kind_of(e: SchemaEntry) -> UserStatType {
    match read_type(child(Some(e), "type"@)) {
        Some(p) => if p != UserStatType::Invalid {
            p
        } else {
            stat_type_of(raw_type_of(e) as u8)
        },
        None => stat_type_of(raw_type_of(e) as u8),
    }
}

/// A kind that yields a stat definition.
pub open spec fn is_stat_kind(k: UserStatType) -> bool {
    k == UserStatType::Integer || k == UserStatType::Float || k == UserStatType::AverageRate
}

/// A kind that holds achievements.
pub open spec fn is_achievement_kind(k: UserStatType) -> bool {
    k == UserStatType::Achievements || k == UserStatType::GroupAchievements
}

/// The positions (among the first `n` schema stats) of the stats that become
/// stat definitions, with their kind: valid entries of a stat kind, in order.
pub open spec fn stat_sources_upto(stats: Seq<SchemaEntry>, n: nat) -> Seq<(int, UserStatType)>
    decreases n,
{
    if n == 0 {
        Seq::empty()
    } else {
        let i = n - 1;
        let rest = stat_sources_upto(stats, i as nat);
        if stats[i].valid && is_stat_kind(kind_of(stats[i])) {
            rest.push((i, kind_of(stats[i])))
        } else {
            rest
        }
    }
}

/// An entry that yields a stat definition: valid, of kind Integer, Float or
/// AverageRate.
pub open spec fn yields_stat(e: SchemaEntry) -> bool {
    e.valid && (kind_of(e) == UserStatType::Integer || kind_of(e) == UserStatType::Float
        || kind_of(e) == UserStatType::AverageRate)
}

/// Law: among the first `n` schema entries, the stat definitions come from
/// exactly those that are valid and of kind Integer, Float or AverageRate,
/// one each, in schema order, each with its entry's kind.
pub proof fn law_stat_sources(stats: Seq<SchemaEntry>, n: nat)
    requires
        n <= stats.len(),
    ensures
        forall|j: int| 0 <= j < stat_sources_upto(stats, n).len() ==> {
            let (p, kind) = #[trigger] stat_sources_upto(stats, n)[j];
            &&& 0 <= p < n
            &&& kind == kind_of(stats[p])
            &&& yields_stat(stats[p])
        },
        forall|j: int, l: int| 0 <= j < l < stat_sources_upto(stats, n).len() ==>
            stat_sources_upto(stats, n)[j].0 < stat_sources_upto(stats, n)[l].0,
        forall|p: int| 0 <= p < n && yields_stat(#[trigger] stats[p]) ==>
            exists|j: int| 0 <= j < stat_sources_upto(stats, n).len() && (#[trigger] stat_sources_upto(stats, n)[j]).0 == p,
    decreases n,
{
    if n > 0 {
        let i = n - 1;
        law_stat_sources(stats, i as nat);
        let rest = stat_sources_upto(stats, i as nat);
        let all = stat_sources_upto(stats, n);
        assert forall|j: int| 0 <= j < all.len() implies {
            let (p, kind) = #[trigger] all[j];
            &&& 0 <= p < n
            &&& kind == kind_of(stats[p])
            &&& yields_stat(stats[p])
        } by {
            if j < rest.len() {
                assert(all[j] == rest[j]);
            }
        }
        assert forall|j: int, l: int| 0 <= j < l < all.len() implies all[j].0 < all[l].0 by {
            assert(all[j] == rest[j]);
            if l < rest.len() {
                assert(all[l] == rest[l]);
            }
        }
        assert forall|p: int| 0 <= p < n && yields_stat(#[trigger] stats[p]) implies
            exists|j: int| 0 <= j < all.len() && (#[trigger] all[j]).0 == p by {
            if p < i {
                let j = choose|j: int| 0 <= j < rest.len() && (#[trigger] rest[j]).0 == p;
                assert(all[j] == rest[j]);
            } else {
                assert(all[all.len() - 1].0 == p);
            }
        }
    }
}

/// Law: an entry of kind Float or AverageRate is described by a float stat
/// definition, one of kind Integer by an integer one.
pub proof fn law_stat_definition_kind(d: StatDefinition, e: SchemaEntry, k: UserStatType, app_id: u32, language: Seq<char>)
    requires
        stat_definition_from(d, e, k, app_id, language),
    ensures
        k == UserStatType::Float || k == UserStatType::AverageRate ==> (d matches StatDefinition::Float(f)
            && f.base.id@ == read_text(child(Some(e), "name"@))),
        k == UserStatType::Integer ==> (d matches StatDefinition::Integer(i)
            && i.base.id@ == read_text(child(Some(e), "name"@))),
{
}

/// The achievement bits among the first `n` children of an achievements
/// entry: the children of each valid, non-empty `bits` group, in order.
pub open spec fn bits_upto(children: Seq<SchemaEntry>, n: nat) -> Seq<SchemaEntry>
    decreases n,
{
    if n == 0 {
        Seq::empty()
    } else {
        let i = n - 1;
        let g = children[i];
        let rest = bits_upto(children, i as nat);
        if eq_ignore_ascii_case(g.key@, "bits"@) && g.valid && g.children@.len() > 0 {
            rest + g.children@
        } else {
            rest
        }
    }
}

/// The achievement bits of the first `n` schema stats: those of every valid
/// entry of an achievements kind, in order.
pub open spec fn achievement_sources_upto(stats: Seq<SchemaEntry>, n: nat) -> Seq<SchemaEntry>
    decreases n,
{
    if n == 0 {
        Seq::empty()
    } else {
        let i = n - 1;
        let rest = achievement_sources_upto(stats, i as nat);
        if stats[i].valid && is_achievement_kind(kind_of(stats[i])) {
            rest + bits_upto(stats[i].children@, stats[i].children@.len())
        } else {
            rest
        }
    }
}

/// A `bits` group: a valid, non-empty child keyed `bits` in any case.
pub open spec fn is_bits_group(g: SchemaEntry) -> bool {
    eq_ignore_ascii_case(g.key@, "bits"@) && g.valid && g.children@.len() > 0
}

/// An entry holding achievements: valid, of kind Achievements or GroupAchievements.
pub open spec fn holds_achievements(e: SchemaEntry) -> bool {
    e.valid && (kind_of(e) == UserStatType::Achievements || kind_of(e) == UserStatType::GroupAchievements)
}

/// `x` is a bit of one of the `bits` groups among the first `n` children.
pub open spec fn is_group_bit(children: Seq<SchemaEntry>, n: nat, x: SchemaEntry) -> bool {
    exists|g: int, b: int| 0 <= g < n && is_bits_group(children[g]) && 0 <= b < children[g].children@.len()
        && x == children[g].children@[b]
}

proof fn lemma_bits_upto(children: Seq<SchemaEntry>, n: nat)
    requires
        n <= children.len(),
    ensures
        forall|j: int| 0 <= j < bits_upto(children, n).len()
            ==> is_group_bit(children, n, #[trigger] bits_upto(children, n)[j]),
        forall|g: int, b: int| 0 <= g < n && is_bits_group(children[g]) && 0 <= b < children[g].children@.len()
            ==> bits_upto(children, n).contains(#[trigger] children[g].children@[b]),
    decreases n,
{
    if n > 0 {
        let i = n - 1;
        lemma_bits_upto(children, i as nat);
        let rest = bits_upto(children, i as nat);
        let all = bits_upto(children, n);
        if is_bits_group(children[i]) {
            let grp = children[i].children@;
            assert(all == rest + grp);
            assert forall|j: int| 0 <= j < all.len() implies is_group_bit(children, n, #[trigger] all[j]) by {
                if j < rest.len() {
                    assert(all[j] == rest[j]);
                    assert(is_group_bit(children, i as nat, rest[j]));
                    let (g, b) = choose|g: int, b: int| 0 <= g < i && is_bits_group(children[g])
                        && 0 <= b < children[g].children@.len() && rest[j] == children[g].children@[b];
                    assert(0 <= g < n);
                } else {
                    assert(all[j] == children[i as int].children@[j - rest.len()]);
                    assert(0 <= i < n);
                }
            }
            assert forall|g: int, b: int| 0 <= g < n && is_bits_group(children[g]) && 0 <= b < children[g].children@.len()
                implies all.contains(#[trigger] children[g].children@[b]) by {
                if g < i {
                    assert(rest.contains(children[g].children@[b]));
                    let j = choose|j: int| 0 <= j < rest.len() && rest[j] == children[g].children@[b];
                    assert(all[j] == rest[j]);
                } else {
                    assert(all[rest.len() + b] == grp[b]);
                }
            }
        } else {
            assert(all == rest);
            assert forall|j: int| 0 <= j < all.len() implies is_group_bit(children, n, #[trigger] all[j]) by {
                assert(is_group_bit(children, i as nat, rest[j]));
                let (g, b) = choose|g: int, b: int| 0 <= g < i && is_bits_group(children[g])
                    && 0 <= b < children[g].children@.len() && rest[j] == children[g].children@[b];
                assert(0 <= g < n);
            }
            assert forall|g: int, b: int| 0 <= g < n && is_bits_group(children[g]) && 0 <= b < children[g].children@.len()
                implies all.contains(#[trigger] children[g].children@[b]) by {
                if g < i {
                    assert(rest.contains(children[g].children@[b]));
                }
            }
        }
    }
}

/// `x` is a bit of a `bits` group of one of the first `n` entries holding achievements.
pub open spec fn is_achievement_bit(stats: Seq<SchemaEntry>, n: nat, x: SchemaEntry) -> bool {
    exists|p: int, g: int, b: int|
        0 <= p < n && holds_achievements(stats[p]) && 0 <= g < stats[p].children@.len()
        && is_bits_group(stats[p].children@[g]) && 0 <= b < stats[p].children@[g].children@.len()
        && x == stats[p].children@[g].children@[b]
}

proof fn lemma_achievement_sources_upto(stats: Seq<SchemaEntry>, n: nat)
    requires
        n <= stats.len(),
    ensures
        forall|j: int| 0 <= j < achievement_sources_upto(stats, n).len()
            ==> is_achievement_bit(stats, n, #[trigger] achievement_sources_upto(stats, n)[j]),
        forall|p: int, g: int, b: int| 0 <= p < n && holds_achievements(stats[p]) && 0 <= g < stats[p].children@.len()
            && is_bits_group(stats[p].children@[g]) && 0 <= b < stats[p].children@[g].children@.len()
            ==> achievement_sources_upto(stats, n).contains(#[trigger] stats[p].children@[g].children@[b]),
    decreases n,
{
    if n > 0 {
        let i = n - 1;
        lemma_achievement_sources_upto(stats, i as nat);
        let rest = achievement_sources_upto(stats, i as nat);
        let all = achievement_sources_upto(stats, n);
        if holds_achievements(stats[i]) {
            let cs = stats[i].children@;
            let bits = bits_upto(cs, cs.len());
            lemma_bits_upto(cs, cs.len());
            assert(all == rest + bits);
            assert forall|j: int| 0 <= j < all.len() implies is_achievement_bit(stats, n, #[trigger] all[j]) by {
                if j < rest.len() {
                    assert(all[j] == rest[j]);
                    assert(is_achievement_bit(stats, i as nat, rest[j]));
                    let (p, g, b) = choose|p: int, g: int, b: int|
                        0 <= p < i && holds_achievements(stats[p]) && 0 <= g < stats[p].children@.len()
                        && is_bits_group(stats[p].children@[g]) && 0 <= b < stats[p].children@[g].children@.len()
                        && rest[j] == stats[p].children@[g].children@[b];
                    assert(0 <= p < n);
                } else {
                    let k = j - rest.len();
                    assert(all[j] == bits[k]);
                    assert(is_group_bit(cs, cs.len(), bits[k]));
                    let (g, b) = choose|g: int, b: int| 0 <= g < cs.len() && is_bits_group(cs[g]) && 0 <= b < cs[g].children@.len()
                        && bits[k] == cs[g].children@[b];
                    assert(stats[i as int].children@[g].children@[b] == all[j]);
                    assert(0 <= i < n && holds_achievements(stats[i as int]));
                }
            }
            assert forall|p: int, g: int, b: int| 0 <= p < n && holds_achievements(stats[p]) && 0 <= g < stats[p].children@.len()
                && is_bits_group(stats[p].children@[g]) && 0 <= b < stats[p].children@[g].children@.len()
                implies all.contains(#[trigger] stats[p].children@[g].children@[b]) by {
                if p < i {
                    assert(rest.contains(stats[p].children@[g].children@[b]));
                    let j = choose|j: int| 0 <= j < rest.len() && rest[j] == stats[p].children@[g].children@[b];
                    assert(all[j] == rest[j]);
                } else {
                    assert(bits.contains(cs[g].children@[b]));
                    let k = choose|k: int| 0 <= k < bits.len() && bits[k] == cs[g].children@[b];
                    assert(all[rest.len() + k] == bits[k]);
                }
            }
        } else {
            assert(all == rest);
            assert forall|j: int| 0 <= j < all.len() implies is_achievement_bit(stats, n, #[trigger] all[j]) by {
                assert(is_achievement_bit(stats, i as nat, rest[j]));
                let (p, g, b) = choose|p: int, g: int, b: int|
                    0 <= p < i && holds_achievements(stats[p]) && 0 <= g < stats[p].children@.len()
                    && is_bits_group(stats[p].children@[g]) && 0 <= b < stats[p].children@[g].children@.len()
                    && rest[j] == stats[p].children@[g].children@[b];
                assert(0 <= p < n);
            }
            assert forall|p: int, g: int, b: int| 0 <= p < n && holds_achievements(stats[p]) && 0 <= g < stats[p].children@.len()
                && is_bits_group(stats[p].children@[g]) && 0 <= b < stats[p].children@[g].children@.len()
                implies all.contains(#[trigger] stats[p].children@[g].children@[b]) by {
                if p < i {
                    assert(rest.contains(stats[p].children@[g].children@[b]));
                }
            }
        }
    }
}

/// Law: the achievement definitions come from exactly the bits of the valid,
/// non-empty `bits` groups (any case) of the valid entries of kind
/// Achievements or GroupAchievements: each source is such a bit, and every
/// such bit is a source.
pub proof fn law_achievement_sources(stats: Seq<SchemaEntry>)
    ensures
        forall|j: int| 0 <= j < achievement_sources_upto(stats, stats.len()).len()
            ==> is_achievement_bit(stats, stats.len(), #[trigger] achievement_sources_upto(stats, stats.len())[j]),
        forall|p: int, g: int, b: int| 0 <= p < stats.len() && holds_achievements(stats[p]) && 0 <= g < stats[p].children@.len()
            && is_bits_group(stats[p].children@[g]) && 0 <= b < stats[p].children@[g].children@.len()
            ==> achievement_sources_upto(stats, stats.len()).contains(#[trigger] stats[p].children@[g].children@[b]),
{
    lemma_achievement_sources_upto(stats, stats.len());
}

/// The localized text of node `node` in `language`, else `default_value`.
pub open spec fn localized_node(node: Option<SchemaEntry>, language: Seq<char>, default_value: Seq<char>) -> Seq<char> {
    localized_seq(read_text(child(node, language)), read_text(child(node, "english"@)), read_text(node), language, default_value)
}

/// `d` is the integer stat definition of schema stat `e` of app `app_id`.
pub open spec fn int_definition_from(d: IntegerStatDefinition, e: SchemaEntry, app_id: u32, language: Seq<char>) -> bool {
    let s = Some(e);
    let name = read_text(child(s, "name"@));
    &&& d.base.id@ == name
    &&& d.base.display_name@ == localized_node(child(child(s, "display"@), "name"@), language, name)
    &&& d.base.permission == or_else(read_int(child(s, "permission"@)), 0)
    &&& d.base.app_id == app_id
    &&& d.min_value == or_else(read_int(child(s, "min"@)), i32::MIN)
    &&& d.max_value == or_else(read_int(child(s, "max"@)), i32::MAX)
    &&& d.max_change == or_else(read_int(child(s, "maxchange"@)), 0)
    &&& d.increment_only == or_else(read_flag(child(s, "incrementonly"@)), false)
    &&& d.default_value == or_else(read_int(child(s, "default"@)), 0)
    &&& d.set_by_trusted_game_server == or_else(read_flag(child(s, "bSetByTrustedGS"@)), false)
}

/// `d` is the float stat definition of schema stat `e` of app `app_id`.
pub open spec fn float_definition_from(d: FloatStatDefinition, e: SchemaEntry, app_id: u32, language: Seq<char>) -> bool {
    let s = Some(e);
    let name = read_text(child(s, "name"@));
    &&& d.base.id@ == name
    &&& d.base.display_name@ == localized_node(child(child(s, "display"@), "name"@), language, name)
    &&& d.base.permission == or_else(read_int(child(s, "permission"@)), 0)
    &&& d.base.app_id == app_id
    &&& d.increment_only == or_else(read_flag(child(s, "incrementonly"@)), false)
}

/// `d` is the stat definition of schema stat `e`, of kind `k`.
pub open spec fn stat_definition_from(d: StatDefinition, e: SchemaEntry, k: UserStatType, app_id: u32, language: Seq<char>) -> bool {
    if k == UserStatType::Integer {
        d matches StatDefinition::Integer(i) && int_definition_from(i, e, app_id, language)
    } else {
        d matches StatDefinition::Float(f) && float_definition_from(f, e, app_id, language)
    }
}

/// `d` is the definition of achievement bit `b` of app `app_id`.
pub open spec fn achievement_definition_from(d: AchievementDefinition, b: SchemaEntry, app_id: u32, language: Seq<char>) -> bool {
    let s = Some(b);
    let display = child(s, "display"@);
    let name = read_text(child(s, "name"@));
    &&& d.id@ == name
    &&& d.app_id == app_id
    &&& d.name@ == localized_node(child(display, "name"@), language, name)
    &&& d.description@ == localized_node(child(display, "desc"@), language, Seq::empty())
    &&& d.icon_normal@ == icon_url_spec(app_id, read_text(child(display, "icon"@)))
    &&& d.icon_locked@ == icon_url_spec(app_id, read_text(child(display, "icon_gray"@)))
    &&& d.is_hidden == or_else(read_flag(child(display, "hidden"@)), false)
    &&& d.permission == or_else(read_int(child(s, "permission"@)), 0)
}

/// The node an optional reference points to.
pub open spec fn deref_node(node: Option<&SchemaEntry>) -> Option<SchemaEntry> {
    match node {
        Some(e) => Some(*e),
        None => None,
    }
}

/// The child `key` of `node`.
pub fn get_child<'a>(node: Option<&'a SchemaEntry>, key: &str) -> (c: Option<&'a SchemaEntry>)
    ensures
        deref_node(c) == child(deref_node(node), key@),
{
    match node {
        None => None,
        Some(e) => {
            let children = &e.children;
            let mut i: usize = 0;
            assert(children@.skip(0) =~= children@);
            while i < children.len()
                invariant
                    i <= children.len(),
                    deref_node(node) == Some(*e),
                    children@ == e.children@,
                    first_child(children@, key@) == first_child(children@.skip(i as int), key@),
                decreases children.len() - i,
            {
                assert(children@.skip(i as int).drop_first() =~= children@.skip(i + 1));
                assert(children@.skip(i as int)[0] == children@[i as int]);
                if str_eq_ignore_ascii_case(children[i].key.as_str(), key) {
                    return Some(&children[i]);
                }
                i = i + 1;
            }
            None
        },
    }
}

fn node_valid(node: Option<&SchemaEntry>) -> (b: bool)
    ensures
        b == is_valid(deref_node(node)),
{
    match node {
        Some(e) => e.valid,
        None => false,
    }
}

fn text_of(node: Option<&SchemaEntry>) -> (t: String)
    ensures
        t@ == read_text(deref_node(node)),
{
    match node {
        Some(e) => if e.valid {
            match &e.text {
                Some(t) => t.clone(),
                None => String::new(),
            }
        } else {
            String::new()
        },
        None => String::new(),
    }
}

fn int_of(node: Option<&SchemaEntry>) -> (v: Option<i32>)
    ensures
        v == read_int(deref_node(node)),
{
    match node {
        Some(e) => if e.valid {
            e.int
        } else {
            None
        },
        None => None,
    }
}

fn flag_of(node: Option<&SchemaEntry>) -> (v: Option<bool>)
    ensures
        v == read_flag(deref_node(node)),
{
    match node {
        Some(e) => if e.valid {
            e.flag
        } else {
            None
        },
        None => None,
    }
}

fn type_of(node: Option<&SchemaEntry>) -> (v: Option<UserStatType>)
    ensures
        v == read_type(deref_node(node)),
{
    match node {
        Some(e) => if e.valid {
            e.stat_type
        } else {
            None
        },
        None => None,
    }
}

fn localized_text_of(node: Option<&SchemaEntry>, language: &str) -> (t: LocalizedText)
    ensures
        forall|d: Seq<char>| localized(t, language@, d) == localized_node(deref_node(node), language@, d),
{
    LocalizedText {
        in_language: text_of(get_child(node, language)),
        in_english: text_of(get_child(node, "english")),
        own: text_of(node),
    }
}

/// The kind of schema stat `e`.
pub fn stat_kind(e: &SchemaEntry) -> (k: UserStatType)
    ensures
        k == kind_of(*e),
{
    let s = Some(e);
    let type_node = get_child(s, "type");
    let type_int = get_child(s, "type_int");
    let raw = if node_valid(type_int) {
        unwrap_or_i32(int_of(type_int), 0)
    } else {
        unwrap_or_i32(int_of(type_node), 0)
    };
    resolve_stat_type(type_of(type_node), raw)
}

fn stat_definition_of(app_id: u32, e: &SchemaEntry, k: UserStatType, language: &str) -> (d: StatDefinition)
    requires
        is_stat_kind(k),
    ensures
        stat_definition_from(d, *e, k, app_id, language@),
{
    let s = Some(e);
    let name = text_of(get_child(s, "name"));
    let display_name = localized_text_of(get_child(get_child(s, "display"), "name"), language);
    if k == UserStatType::Integer {
        let schema = IntegerStatSchema {
            name,
            display_name,
            permission: int_of(get_child(s, "permission")),
            min: int_of(get_child(s, "min")),
            max: int_of(get_child(s, "max")),
            max_change: int_of(get_child(s, "maxchange")),
            increment_only: flag_of(get_child(s, "incrementonly")),
            default: int_of(get_child(s, "default")),
            set_by_trusted_game_server: flag_of(get_child(s, "bSetByTrustedGS")),
        };
        StatDefinition::Integer(integer_definition(app_id, &schema, language))
    } else {
        let schema = FloatStatSchema {
            name,
            display_name,
            permission: int_of(get_child(s, "permission")),
            increment_only: flag_of(get_child(s, "incrementonly")),
        };
        StatDefinition::Float(float_definition(app_id, &schema, language))
    }
}

fn achievement_definition_of(app_id: u32, b: &SchemaEntry, language: &str) -> (d: AchievementDefinition)
    ensures
        achievement_definition_from(d, *b, app_id, language@),
{
    let s = Some(b);
    let display = get_child(s, "display");
    let schema = AchievementSchema {
        name: text_of(get_child(s, "name")),
        display_name: localized_text_of(get_child(display, "name"), language),
        description: localized_text_of(get_child(display, "desc"), language),
        icon: text_of(get_child(display, "icon")),
        icon_gray: text_of(get_child(display, "icon_gray")),
        hidden: flag_of(get_child(display, "hidden")),
        permission: int_of(get_child(s, "permission")),
    };
    achievement_definition(app_id, &schema, language)
}

/// Appends the definitions of the achievement bits of achievements entry `e`.
fn push_achievement_bits(app_id: u32, e: &SchemaEntry, language: &str, out: &mut Vec<AchievementDefinition>)
    ensures
        final(out).len() == old(out).len() + bits_upto(e.children@, e.children@.len()).len(),
        forall|j: int| 0 <= j < old(out).len() ==> #[trigger] final(out)@[j] == old(out)@[j],
        forall|j: int| 0 <= j < bits_upto(e.children@, e.children@.len()).len() ==>
            achievement_definition_from(#[trigger] final(out)@[old(out).len() + j], bits_upto(e.children@, e.children@.len())[j], app_id, language@),
{
    let groups = &e.children;
    let ghost base = old(out).len();
    let mut i: usize = 0;
    while i < groups.len()
        invariant
            i <= groups.len(),
            groups@ == e.children@,
            out.len() == base + bits_upto(groups@, i as nat).len(),
            base == old(out).len(),
            forall|j: int| 0 <= j < base ==> #[trigger] out@[j] == old(out)@[j],
            forall|j: int| 0 <= j < bits_upto(groups@, i as nat).len() ==>
                achievement_definition_from(#[trigger] out@[base + j], bits_upto(groups@, i as nat)[j], app_id, language@),
        decreases groups.len() - i,
    {
        let g = &groups[i];
        let ghost before = out@;
        if is_bits_key(g.key.as_str()) && g.valid && g.children.len() > 0 {
            let bits = &g.children;
            let mut k: usize = 0;
            while k < bits.len()
                invariant
                    k <= bits.len(),
                    bits@ == g.children@,
                    out.len() == before.len() + k,
                    forall|j: int| 0 <= j < before.len() ==> #[trigger] out@[j] == before[j],
                    forall|j: int| 0 <= j < k ==>
                        achievement_definition_from(#[trigger] out@[before.len() + j], bits@[j], app_id, language@),
                decreases bits.len() - k,
            {
                let d = achievement_definition_of(app_id, &bits[k], language);
                out.push(d);
                k = k + 1;
            }
            let ghost prev = bits_upto(groups@, i as nat);
            assert(bits_upto(groups@, (i + 1) as nat) == prev + g.children@);
            assert forall|j: int| 0 <= j < prev.len() + g.children@.len() implies
                achievement_definition_from(#[trigger] out@[base + j], (prev + g.children@)[j], app_id, language@) by {
                if j < prev.len() {
                    assert(out@[base + j] == before[base + j]);
                } else {
                    assert(out@[base + j] == out@[before.len() + (j - prev.len())]);
                }
            }
        } else {
            assert(bits_upto(groups@, (i + 1) as nat) == bits_upto(groups@, i as nat));
        }
        i = i + 1;
    }
}

/// The definitions a schema's `stats` node yields for app `app_id`, named in
/// `language`: a stat definition for each valid entry of a stat kind, an
/// achievement definition for each bit of each valid, non-empty `bits` group
/// of each valid entry of an achievements kind, all in schema order. The
/// third list gives, for each stat definition, the position of its entry
/// among the `stats` node's children (where the caller reads float limits).
pub fn definitions_of(app_id: u32, stats: &SchemaEntry, language: &str) -> (out: (Vec<StatDefinition>, Vec<AchievementDefinition>, Vec<usize>))
    ensures
        out.0.len() == stat_sources_upto(stats.children@, stats.children@.len()).len(),
        out.2.len() == out.0.len(),
        forall|i: int| 0 <= i < out.0.len() ==> {
            let (p, k) = #[trigger] stat_sources_upto(stats.children@, stats.children@.len())[i];
            &&& out.2@[i] == p
            &&& stat_definition_from(out.0@[i], stats.children@[p], k, app_id, language@)
        },
        out.1.len() == achievement_sources_upto(stats.children@, stats.children@.len()).len(),
        forall|i: int| 0 <= i < out.1.len() ==>
            achievement_definition_from(#[trigger] out.1@[i], achievement_sources_upto(stats.children@, stats.children@.len())[i], app_id, language@),
{
    let entries = &stats.children;
    let mut defs: Vec<StatDefinition> = Vec::new();
    let mut positions: Vec<usize> = Vec::new();
    let mut achievements: Vec<AchievementDefinition> = Vec::new();
    let mut i: usize = 0;
    while i < entries.len()
        invariant
            i <= entries.len(),
            entries@ == stats.children@,
            defs.len() == stat_sources_upto(entries@, i as nat).len(),
            positions.len() == defs.len(),
            forall|j: int| 0 <= j < defs.len() ==> {
                let (p, k) = #[trigger] stat_sources_upto(entries@, i as nat)[j];
                &&& 0 <= p < i
                &&& positions@[j] == p
                &&& stat_definition_from(defs@[j], entries@[p], k, app_id, language@)
            },
            achievements.len() == achievement_sources_upto(entries@, i as nat).len(),
            forall|j: int| 0 <= j < achievements.len() ==>
                achievement_definition_from(#[trigger] achievements@[j], achievement_sources_upto(entries@, i as nat)[j], app_id, language@),
        decreases entries.len() - i,
    {
        let e = &entries[i];
        let ghost defs_before = defs@;
        let ghost pos_before = positions@;
        let ghost ach_before = achievements@;
        if e.valid {
            let k = stat_kind(e);
            if k == UserStatType::Integer || k == UserStatType::Float || k == UserStatType::AverageRate {
                let d = stat_definition_of(app_id, e, k, language);
                defs.push(d);
                positions.push(i);
                assert forall|j: int| 0 <= j < defs.len() implies {
                    let (p, kk) = #[trigger] stat_sources_upto(entries@, (i + 1) as nat)[j];
                    &&& 0 <= p < i + 1
                    &&& positions@[j] == p
                    &&& stat_definition_from(defs@[j], entries@[p], kk, app_id, language@)
                } by {
                    if j < defs_before.len() {
                        assert(stat_sources_upto(entries@, (i + 1) as nat)[j] == stat_sources_upto(entries@, i as nat)[j]);
                        assert(defs@[j] == defs_before[j]);
                        assert(positions@[j] == pos_before[j]);
                    }
                }
                assert(achievement_sources_upto(entries@, (i + 1) as nat) == achievement_sources_upto(entries@, i as nat));
            } else if k == UserStatType::Achievements || k == UserStatType::GroupAchievements {
                push_achievement_bits(app_id, e, language, &mut achievements);
                assert(stat_sources_upto(entries@, (i + 1) as nat) == stat_sources_upto(entries@, i as nat));
                let ghost added = bits_upto(e.children@, e.children@.len());
                assert(achievement_sources_upto(entries@, (i + 1) as nat) == achievement_sources_upto(entries@, i as nat) + added);
                assert forall|j: int| 0 <= j < achievements.len() implies
                    achievement_definition_from(#[trigger] achievements@[j], achievement_sources_upto(entries@, (i + 1) as nat)[j], app_id, language@) by {
                    if j < ach_before.len() {
                        assert(achievements@[j] == ach_before[j]);
                    } else {
                        assert(achievements@[j] == achievements@[ach_before.len() + (j - ach_before.len())]);
                    }
                }
            } else {
                assert(stat_sources_upto(entries@, (i + 1) as nat) == stat_sources_upto(entries@, i as nat));
                assert(achievement_sources_upto(entries@, (i + 1) as nat) == achievement_sources_upto(entries@, i as nat));
            }
        } else {
            assert(stat_sources_upto(entries@, (i + 1) as nat) == stat_sources_upto(entries@, i as nat));
            assert(achievement_sources_upto(entries@, (i + 1) as nat) == achievement_sources_upto(entries@, i as nat));
        }
        i = i + 1;
    }
    (defs, achievements, positions)
}

} // verus!
