use crate::backend::app_manager::{unlock_time, unlock_time_of};
use crate::backend::text::{chars_of, decimal, push_decimal};
use vstd::prelude::*;

verus! {

/// The lowest SteamID64 of an individual account.
pub const STEAMID64_BASE: u64 = 76561197960265728;

/// One achievement of another user, as listed for them. The unlock time is
/// in seconds since the Unix epoch.
pub struct AchievementUnlock {
    pub api_name: String,
    pub display_name: String,
    pub achieved: bool,
    pub unlock_time: Option<u32>,
}

/// The listing of achievement `api_name` for a user whose achievement Steam
/// read as `read`; one it could not read counts as not achieved.
pub open spec fn unlock_entry_spec(api_name: String, display_name: String, read: Option<(bool, u32)>) -> AchievementUnlock {
    let (achieved, time) = match read {
        Some(r) => r,
        None => (false, 0u32),
    };
    AchievementUnlock { api_name, display_name, achieved, unlock_time: unlock_time_of(achieved, time) }
}

/// The listing of achievement `api_name` (see `unlock_entry_spec`).
pub fn unlock_entry(api_name: String, display_name: String, read: Option<(bool, u32)>) -> (u: AchievementUnlock)
    ensures
        u == unlock_entry_spec(api_name, display_name, read),
{
    let (achieved, time) = match read {
        Some(r) => r,
        None => (false, 0u32),
    };
    AchievementUnlock { api_name, display_name, achieved, unlock_time: unlock_time(achieved, time) }
}

/// The listing of another user's achievements: `names` are the schema's
/// `(api name, display name)` pairs, `reads[i]` what Steam read for the `i`-th.
pub fn unlock_list(names: &Vec<(String, String)>, reads: &Vec<Option<(bool, u32)>>) -> (out: Vec<AchievementUnlock>)
    requires
        names.len() == reads.len(),
    ensures
        out.len() == names.len(),
        forall|i: int| 0 <= i < out.len() ==> #[trigger] out@[i] == unlock_entry_spec(names@[i].0, names@[i].1, reads@[i]),
{
    let mut out: Vec<AchievementUnlock> = Vec::new();
    let mut i: usize = 0;
    while i < names.len()
        invariant
            i <= names.len(),
            names.len() == reads.len(),
            out.len() == i,
            forall|j: int| 0 <= j < i ==> #[trigger] out@[j] == unlock_entry_spec(names@[j].0, names@[j].1, reads@[j]),
        decreases names.len() - i,
    {
        let entry = unlock_entry(names[i].0.clone(), names[i].1.clone(), reads[i]);
        out.push(entry);
        i = i + 1;
    }
    out
}

/// Law: the listing of an achievement keeps its names; it is achieved only
/// when Steam read it as achieved; it has an unlock time exactly when Steam
/// read it as achieved with a non-zero time, and then that time.
pub proof fn law_unlock_entry(api_name: String, display_name: String, read: Option<(bool, u32)>)
    ensures
        unlock_entry_spec(api_name, display_name, read).api_name == api_name,
        unlock_entry_spec(api_name, display_name, read).display_name == display_name,
        unlock_entry_spec(api_name, display_name, read).achieved == (read is Some && (read->0).0),
        unlock_entry_spec(api_name, display_name, read).unlock_time is Some <==> (read is Some && (read->0).0 && (read->0).1 > 0),
        unlock_entry_spec(api_name, display_name, read).unlock_time is Some ==>
            unlock_entry_spec(api_name, display_name, read).unlock_time == Some((read->0).1),
{
}

/// Law: the achieved count is the number of achieved entries of the listing.
pub proof fn law_achieved_count(list: Seq<AchievementUnlock>, n: nat)
    requires
        n <= list.len(),
    ensures
        achieved_upto(list, n) == list.take(n as int).filter(|u: AchievementUnlock| u.achieved).len(),
    decreases n,
{
    reveal_with_fuel(Seq::<_>::filter, 1);
    if n > 0 {
        law_achieved_count(list, (n - 1) as nat);
        assert(list.take(n as int).drop_last() =~= list.take(n - 1));
        assert(list.take(n as int).last() == list[n - 1]);
    } else {
        assert(list.take(0) =~= Seq::<AchievementUnlock>::empty());
    }
}

/// The number of achieved entries among the first `n` of `list`.
pub open spec fn achieved_upto(list: Seq<AchievementUnlock>, n: nat) -> nat
    decreases n,
{
    if n == 0 {
        0
    } else if list[n - 1].achieved {
        achieved_upto(list, (n - 1) as nat) + 1
    } else {
        achieved_upto(list, (n - 1) as nat)
    }
}

pub(crate) proof fn lemma_achieved_upto_bound(list: Seq<AchievementUnlock>, n: nat)
    ensures
        achieved_upto(list, n) <= n,
    decreases n,
{
    if n > 0 {
        lemma_achieved_upto_bound(list, (n - 1) as nat);
    }
}

/// Whether `c` is an ASCII digit.
pub open spec fn is_digit(c: char) -> bool {
    '0' <= c && c <= '9'
}

/// The number written by the digits `d`.
pub open spec fn digits_value(d: Seq<char>) -> nat
    decreases d.len(),
{
    if d.len() == 0 {
        0
    } else {
        digits_value(d.drop_last()) * 10 + ((d.last() as u32) - 48) as nat
    }
}

/// The text after an optional leading `+`.
pub open spec fn unsigned_digits(s: Seq<char>) -> Seq<char> {
    if s.len() > 0 && s[0] == '+' {
        s.drop_first()
    } else {
        s
    }
}

/// Every character of `d` is an ASCII digit.
pub open spec fn all_digits(d: Seq<char>) -> bool {
    forall|i: int| 0 <= i < d.len() ==> is_digit(#[trigger] d[i])
}

/// How `u64` is read from text: an optional `+`, then one or more ASCII
/// digits whose number fits in a `u64`.
pub open spec fn parse_u64_spec(s: Seq<char>) -> Option<u64> {
    let d = unsigned_digits(s);
    if d.len() > 0 && all_digits(d) && digits_value(d) <= u64::MAX {
        Some(digits_value(d) as u64)
    } else {
        None
    }
}

proof fn lemma_digits_prefix(d: Seq<char>, k: int)
    requires
        0 <= k <= d.len(),
        forall|i: int| 0 <= i < d.len() ==> is_digit(#[trigger] d[i]),
    ensures
        digits_value(d.take(k)) <= digits_value(d),
    decreases d.len(),
{
    if k < d.len() {
        let init = d.drop_last();
        assert(d.take(k) =~= init.take(k));
        lemma_digits_prefix(init, k);
    } else {
        assert(d.take(k) =~= d);
    }
}

/// The `u64` written in `s` (see `parse_u64_spec`).
pub fn parse_u64(s: &str) -> (v: Option<u64>)
    ensures
        v == parse_u64_spec(s@),
{
    let chars = chars_of(s);
    assert(chars@.subrange(0, chars.len() as int) =~= s@);
    parse_u64_chars(&chars, 0, chars.len())
}

fn parse_u64_chars(chars: &Vec<char>, lo: usize, hi: usize) -> (v: Option<u64>)
    requires
        lo <= hi <= chars.len(),
    ensures
        v == parse_u64_spec(chars@.subrange(lo as int, hi as int)),
{
    let ghost text = chars@.subrange(lo as int, hi as int);
    let start: usize = if lo < hi && chars[lo] == '+' { lo + 1 } else { lo };
    let ghost d = unsigned_digits(text);
    assert(d =~= chars@.subrange(start as int, hi as int));
    if start >= hi {
        return None;
    }
    let mut value: u64 = 0;
    let mut i: usize = start;
    while i < hi
        invariant
            lo <= start <= i <= hi <= chars.len(),
            text == chars@.subrange(lo as int, hi as int),
            d == chars@.subrange(start as int, hi as int),
            d == unsigned_digits(text),
            forall|j: int| start <= j < i ==> is_digit(#[trigger] chars@[j]),
            value == digits_value(d.take(i - start)),
        decreases hi - i,
    {
        let c = chars[i];
        if !('0' <= c && c <= '9') {
            assert(d[i - start] == c);
            assert(!is_digit(d[i - start]));
            assert(!all_digits(d));
            assert(parse_u64_spec(text) is None);
            return None;
        }
        let digit: u64 = ((c as u32) - 48) as u64;
        assert(d.take(i + 1 - start).drop_last() =~= d.take(i - start));
        assert(d.take(i + 1 - start).last() == c);
        assert(digits_value(d.take(i + 1 - start)) == value * 10 + digit);
        match value.checked_mul(10) {
            Some(m) => match m.checked_add(digit) {
                Some(n) => {
                    value = n;
                },
                None => {
                    proof {
                        if all_digits(d) {
                            lemma_digits_prefix(d, i + 1 - start);
                        }
                    }
                    assert(parse_u64_spec(text) is None);
                    return None;
                },
            },
            None => {
                proof {
                    if all_digits(d) {
                        lemma_digits_prefix(d, i + 1 - start);
                    }
                }
                assert(parse_u64_spec(text) is None);
                return None;
            },
        }
        i = i + 1;
    }
    assert(d.take(d.len() as int) =~= d);
    Some(value)
}

/// Unicode `White_Space`, the whitespace that trimming removes.
pub open spec fn is_whitespace(c: char) -> bool {
    ||| '\u{9}' <= c && c <= '\u{d}'
    ||| c == ' '
    ||| c == '\u{85}'
    ||| c == '\u{a0}'
    ||| c == '\u{1680}'
    ||| '\u{2000}' <= c && c <= '\u{200a}'
    ||| c == '\u{2028}'
    ||| c == '\u{2029}'
    ||| c == '\u{202f}'
    ||| c == '\u{205f}'
    ||| c == '\u{3000}'
}

fn char_is_whitespace(c: char) -> (b: bool)
    ensures
        b == is_whitespace(c),
{
    ('\u{9}' <= c && c <= '\u{d}') || c == ' ' || c == '\u{85}' || c == '\u{a0}' || c == '\u{1680}'
        || ('\u{2000}' <= c && c <= '\u{200a}') || c == '\u{2028}' || c == '\u{2029}' || c == '\u{202f}'
        || c == '\u{205f}' || c == '\u{3000}'
}

/// The number of whitespace characters `s` starts with.
pub open spec fn leading_whitespace(s: Seq<char>) -> nat
    decreases s.len(),
{
    if s.len() > 0 && is_whitespace(s[0]) {
        1 + leading_whitespace(s.drop_first())
    } else {
        0
    }
}

/// The number of whitespace characters `s` ends with.
pub open spec fn trailing_whitespace(s: Seq<char>) -> nat
    decreases s.len(),
{
    if s.len() > 0 && is_whitespace(s.last()) {
        1 + trailing_whitespace(s.drop_last())
    } else {
        0
    }
}

/// `s` without its leading and trailing whitespace.
pub open spec fn trimmed(s: Seq<char>) -> Seq<char> {
    let rest = s.skip(leading_whitespace(s) as int);
    rest.take(rest.len() - trailing_whitespace(rest))
}

proof fn lemma_leading(s: Seq<char>)
    ensures
        leading_whitespace(s) <= s.len(),
        forall|i: int| 0 <= i < leading_whitespace(s) ==> is_whitespace(#[trigger] s[i]),
        leading_whitespace(s) < s.len() ==> !is_whitespace(s[leading_whitespace(s) as int]),
    decreases s.len(),
{
    if s.len() > 0 && is_whitespace(s[0]) {
        let t = s.drop_first();
        lemma_leading(t);
        assert forall|i: int| 0 <= i < leading_whitespace(s) implies is_whitespace(#[trigger] s[i]) by {
            if i > 0 {
                assert(s[i] == t[i - 1]);
            }
        }
        if leading_whitespace(s) < s.len() {
            assert(s[leading_whitespace(s) as int] == t[leading_whitespace(t) as int]);
        }
    }
}

proof fn lemma_trailing(s: Seq<char>)
    ensures
        trailing_whitespace(s) <= s.len(),
        forall|i: int| s.len() - trailing_whitespace(s) <= i < s.len() ==> is_whitespace(#[trigger] s[i]),
        trailing_whitespace(s) < s.len() ==> !is_whitespace(s[s.len() - trailing_whitespace(s) - 1]),
    decreases s.len(),
{
    if s.len() > 0 && is_whitespace(s.last()) {
        let t = s.drop_last();
        lemma_trailing(t);
        assert forall|i: int| s.len() - trailing_whitespace(s) <= i < s.len() implies is_whitespace(#[trigger] s[i]) by {
            if i < s.len() - 1 {
                assert(s[i] == t[i]);
            }
        }
        if trailing_whitespace(s) < s.len() {
            assert(s[s.len() - trailing_whitespace(s) - 1] == t[t.len() - trailing_whitespace(t) - 1]);
        }
    }
}

/// Law: trimming removes whitespace only, from the two ends, and all of it:
/// the result is a contiguous part of the text with only whitespace before
/// and after it, and it neither starts nor ends with whitespace.
pub proof fn law_trimmed(s: Seq<char>)
    ensures
        exists|lo: int, hi: int| 0 <= lo <= hi <= s.len() && trimmed(s) == s.subrange(lo, hi)
            && (forall|i: int| 0 <= i < lo ==> is_whitespace(#[trigger] s[i]))
            && (forall|i: int| hi <= i < s.len() ==> is_whitespace(#[trigger] s[i])),
        trimmed(s).len() > 0 ==> !is_whitespace(trimmed(s)[0]) && !is_whitespace(trimmed(s).last()),
{
    lemma_leading(s);
    let lo = leading_whitespace(s) as int;
    let rest = s.skip(lo);
    lemma_trailing(rest);
    let hi = lo + rest.len() - trailing_whitespace(rest);
    assert(trimmed(s) =~= s.subrange(lo, hi));
    assert forall|i: int| hi <= i < s.len() implies is_whitespace(#[trigger] s[i]) by {
        assert(s[i] == rest[i - lo]);
    }
    if trimmed(s).len() > 0 {
        assert(trimmed(s)[0] == s[lo]);
        assert(trimmed(s).last() == rest[rest.len() - trailing_whitespace(rest) - 1]);
    }
}

/// The bounds of `chars` without its leading and trailing whitespace.
fn trim_bounds(chars: &Vec<char>) -> (b: (usize, usize))
    ensures
        b.0 <= b.1 <= chars.len(),
        chars@.subrange(b.0 as int, b.1 as int) == trimmed(chars@),
{
    let ghost s = chars@;
    let mut lo: usize = 0;
    assert(s.skip(0) =~= s);
    while lo < chars.len() && char_is_whitespace(chars[lo])
        invariant
            lo <= chars.len(),
            s == chars@,
            leading_whitespace(s) == lo + leading_whitespace(s.skip(lo as int)),
        decreases chars.len() - lo,
    {
        assert(s.skip(lo as int).drop_first() =~= s.skip(lo + 1));
        lo = lo + 1;
    }
    let ghost rest = s.skip(lo as int);
    assert(leading_whitespace(rest) == 0);
    let mut hi: usize = chars.len();
    assert(rest.take(rest.len() as int) =~= rest);
    while hi > lo && char_is_whitespace(chars[hi - 1])
        invariant
            lo <= hi <= chars.len(),
            s == chars@,
            rest == s.skip(lo as int),
            trailing_whitespace(rest) == (chars.len() - hi) + trailing_whitespace(rest.take(hi - lo)),
        decreases hi - lo,
    {
        assert(rest.take(hi - lo).drop_last() =~= rest.take(hi - 1 - lo));
        assert(rest.take(hi - lo).last() == chars@[hi - 1]);
        hi = hi - 1;
    }
    proof {
        if hi > lo {
            assert(rest.take(hi - lo).last() == chars@[hi - 1]);
        }
        assert(trailing_whitespace(rest.take(hi - lo)) == 0);
        assert(chars@.subrange(lo as int, hi as int) =~= rest.take(rest.len() - trailing_whitespace(rest)));
    }
    (lo, hi)
}

/// The SteamID64 a friend is given by, if the text (trimmed) is one: a
/// number at least `STEAMID64_BASE`. Anything else is a persona name to be
/// looked up in the friends list.
pub fn steam_id64_from_text(friend: &str) -> (id: Option<u64>)
    ensures
        id == match parse_u64_spec(trimmed(friend@)) {
            Some(v) => if v >= STEAMID64_BASE { Some(v) } else { None::<u64> },
            None => None::<u64>,
        },
{
    let chars = chars_of(friend);
    let (lo, hi) = trim_bounds(&chars);
    match parse_u64_chars(&chars, lo, hi) {
        Some(v) => if v >= STEAMID64_BASE {
            Some(v)
        } else {
            None
        },
        None => None,
    }
}

/// The account id of a SteamID64: its low 32 bits.
pub fn account_id(steam_id64: u64) -> (id: u32)
    ensures
        id == steam_id64 % 0x1_0000_0000,
{
    let id = steam_id64 as u32;
    assert(id == steam_id64 % 0x1_0000_0000) by (bit_vector)
        requires
            id == steam_id64 as u32,
    ;
    id
}

/// Whether the account owns `app_id`: stealth access is refused for an app
/// not on the account.
pub fn owns_app(subscribed: &Vec<u32>, app_id: u32) -> (owned: bool)
    ensures
        owned == subscribed@.contains(app_id),
{
    let mut i: usize = 0;
    while i < subscribed.len()
        invariant
            i <= subscribed.len(),
            forall|j: int| 0 <= j < i ==> subscribed@[j] != app_id,
        decreases subscribed.len() - i,
    {
        if subscribed[i] == app_id {
            assert(subscribed@[i as int] == app_id);
            return true;
        }
        i = i + 1;
    }
    false
}

/// The value of `SteamAppId` for the Steam client: stealth mode removes it
/// (`None`), so the process never registers as running the app; otherwise
/// it is the app's id.
pub fn steam_app_id_env(app_id: u32, stealth: bool) -> (v: Option<String>)
    ensures
        match v {
            Some(s) => !stealth && s@ == decimal(app_id as nat),
            None => stealth,
        },
{
    if stealth {
        None
    } else {
        let mut s = String::new();
        push_decimal(&mut s, app_id as u64);
        Some(s)
    }
}

} // verus!
