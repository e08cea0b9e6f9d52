use crate::backend::types::{SamError, SteamClientError};
use crate::backend::user_unlock_times::{achieved_upto, lemma_achieved_upto_bound, AchievementUnlock};
use vstd::arithmetic::div_mod::{lemma_add_mod_noop, lemma_add_mod_noop_right};
use vstd::prelude::*;

verus! {

/// Largest prime below 2^16, the modulus of both Adler-32 sums.
pub const ADLER_MOD: u32 = 65521;

/// The running sum `A` of Adler-32: one plus the bytes, modulo `ADLER_MOD`.
pub open spec fn adler_a(data: Seq<u8>) -> nat
    decreases data.len(),
{
    if data.len() == 0 {
        1
    } else {
        ((adler_a(data.drop_last()) + data.last() as nat) % (ADLER_MOD as nat)) as nat
    }
}

/// The running sum `B` of Adler-32: the sum of every prefix's `A`, modulo `ADLER_MOD`.
pub open spec fn adler_b(data: Seq<u8>) -> nat
    decreases data.len(),
{
    if data.len() == 0 {
        0
    } else {
        ((adler_b(data.drop_last()) + adler_a(data)) % (ADLER_MOD as nat)) as nat
    }
}

/// The Adler-32 checksum: `B` in the high half, `A` in the low half.
pub open spec fn adler32_spec(data: Seq<u8>) -> int {
    (adler_b(data) * 65536 + adler_a(data)) as int
}

proof fn lemma_adler_bounds(data: Seq<u8>)
    ensures
        adler_a(data) < ADLER_MOD,
        adler_b(data) < ADLER_MOD,
    decreases data.len(),
{
    if data.len() > 0 {
        lemma_adler_bounds(data.drop_last());
    }
}

/// Law: the Adler-32 sums of a concatenation follow from those of its parts:
/// `A(x ++ y) = A(x) + A(y) - 1` and `B(x ++ y) = B(x) + B(y) + |y| * (A(x) - 1)`,
/// modulo `ADLER_MOD`; and the checksum holds `B` in its high half, `A` in its low half.
pub proof fn law_adler_concat(x: Seq<u8>, y: Seq<u8>)
    ensures
        adler_a(x + y) == (adler_a(x) + adler_a(y) - 1) % (ADLER_MOD as int),
        adler_b(x + y) == (adler_b(x) + adler_b(y) + y.len() * (adler_a(x) - 1)) % (ADLER_MOD as int),
        adler32_spec(x + y) % 65536 == adler_a(x + y),
        adler32_spec(x + y) / 65536 == adler_b(x + y),
    decreases y.len(),
{
    let m = ADLER_MOD as int;
    lemma_adler_bounds(x);
    lemma_adler_bounds(x + y);
    let ax = adler_a(x) as int;
    let bx = adler_b(x) as int;
    if y.len() == 0 {
        assert(x + y =~= x);
        assert(adler_a(y) == 1);
        assert(adler_b(y) == 0);
        assert(y.len() * (ax - 1) == 0);
        assert((ax + 1 - 1) % m == ax);
        assert((bx + 0 + 0) % m == bx);
    } else {
        let y0 = y.drop_last();
        let c = y.last() as int;
        law_adler_concat(x, y0);
        lemma_adler_bounds(y0);
        assert((x + y).drop_last() =~= x + y0);
        assert((x + y).last() == y.last());
        let ay0 = adler_a(y0) as int;
        let by0 = adler_b(y0) as int;
        let n = y0.len() as int;
        let ay = adler_a(y) as int;
        assert(ay == (ay0 + c) % m);
        let axy = adler_a(x + y) as int;
        // A of the concatenation
        assert(adler_a(x + y0) == (ax + ay0 - 1) % m);
        assert(axy == ((ax + ay0 - 1) % m + c) % m);
        lemma_add_mod_noop_right(c, ax + ay0 - 1, m);
        lemma_add_mod_noop_right(ax - 1, ay0 + c, m);
        assert(axy == (ax + ay0 - 1 + c) % m);
        assert((ax + ay - 1) % m == (ax - 1 + (ay0 + c)) % m);
        // B of the concatenation
        let s0 = bx + by0 + n * (ax - 1);
        assert(adler_b(x + y0) == s0 % m);
        assert(adler_b(x + y) == (s0 % m + axy) % m);
        lemma_add_mod_noop(s0, ax + ay0 - 1 + c, m);
        assert(adler_b(x + y) == (s0 + (ax + ay0 - 1 + c)) % m);
        assert(adler_b(y) == (by0 + ay) % m);
        lemma_add_mod_noop_right(by0, ay0 + c, m);
        assert(adler_b(y) == (by0 + ay0 + c) % m);
        assert((n + 1) * (ax - 1) == n * (ax - 1) + (ax - 1)) by (nonlinear_arith);
        let rest = bx + (n + 1) * (ax - 1);
        lemma_add_mod_noop_right(rest, by0 + ay0 + c, m);
        assert((bx + adler_b(y) + y.len() * (ax - 1)) % m == (rest + (by0 + ay0 + c)) % m);
        assert(rest + (by0 + ay0 + c) == s0 + (ax + ay0 - 1 + c));
    }
    let a = adler_a(x + y) as int;
    let b = adler_b(x + y) as int;
    assert((b * 65536 + a) % 65536 == a && (b * 65536 + a) / 65536 == b) by (nonlinear_arith)
        requires
            0 <= a < 65536,
            0 <= b,
    ;
}

/// The sum of the bytes of `data`.
pub open spec fn byte_total(data: Seq<u8>) -> nat
    decreases data.len(),
{
    if data.len() == 0 {
        0
    } else {
        data[0] as nat + byte_total(data.drop_first())
    }
}

/// The sum over the bytes of `data` of `(n - i) * data[i]`, `n` being its
/// length: each byte counted once for every prefix that holds it.
pub open spec fn weighted_total(data: Seq<u8>) -> nat
    decreases data.len(),
{
    if data.len() == 0 {
        0
    } else {
        data.len() * (data[0] as nat) + weighted_total(data.drop_first())
    }
}

proof fn lemma_totals_drop_last(data: Seq<u8>)
    requires
        data.len() > 0,
    ensures
        byte_total(data) == byte_total(data.drop_last()) + data.last() as nat,
        weighted_total(data) == weighted_total(data.drop_last()) + byte_total(data),
    decreases data.len(),
{
    if data.len() == 1 {
        assert(data.drop_first() =~= Seq::<u8>::empty());
        assert(data.drop_last() =~= Seq::<u8>::empty());
        assert(byte_total(Seq::<u8>::empty()) == 0);
        assert(weighted_total(Seq::<u8>::empty()) == 0);
    } else {
        let t = data.drop_first();
        lemma_totals_drop_last(t);
        assert(t.drop_last() =~= data.drop_last().drop_first());
        assert(data.drop_last()[0] == data[0]);
        assert(t.last() == data.last());
        let n = data.len() as int;
        let d0 = data[0] as int;
        assert(n * d0 == (n - 1) * d0 + d0) by (nonlinear_arith);
    }
}

/// Law: Adler-32 in closed form. For `n` bytes, `A = (1 + the byte sum) mod
/// 65521` and `B = (n + the sum of (n - i) * data[i]) mod 65521`; the checksum
/// is `B` in the high half and `A` in the low half. In particular every byte
/// counts: the checksum of one byte `c` is `((1 + c) << 16) | (1 + c)`.
pub proof fn law_adler_closed_form(data: Seq<u8>)
    ensures
        adler_a(data) == (1 + byte_total(data) as int) % (ADLER_MOD as int),
        adler_b(data) == (data.len() as int + weighted_total(data) as int) % (ADLER_MOD as int),
        adler32_spec(data) == adler_b(data) * 65536 + adler_a(data),
        forall|c: u8| #[trigger] adler32_spec(seq![c]) == (1 + c) * 65536 + (1 + c),
    decreases data.len(),
{
    let m = ADLER_MOD as int;
    if data.len() > 0 {
        let init = data.drop_last();
        law_adler_closed_form(init);
        lemma_totals_drop_last(data);
        let c = data.last() as int;
        let s0 = byte_total(init) as int;
        let w0 = weighted_total(init) as int;
        let n0 = init.len() as int;
        assert(adler_a(data) == (adler_a(init) as int + c) % m);
        lemma_add_mod_noop_right(c, 1 + s0, m);
        assert(adler_a(data) == (1 + s0 + c) % m);
        assert(adler_b(data) == (adler_b(init) as int + adler_a(data) as int) % m);
        lemma_add_mod_noop(n0 + w0, 1 + s0 + c, m);
        assert(adler_b(data) == (n0 + w0 + (1 + s0 + c)) % m);
    } else {
        assert(byte_total(data) == 0);
        assert(weighted_total(data) == 0);
    }
    assert forall|c: u8| #[trigger] adler32_spec(seq![c]) == (1 + c) * 65536 + (1 + c) by {
        let one = seq![c];
        assert(one.drop_last() =~= Seq::<u8>::empty());
        assert(adler_a(Seq::<u8>::empty()) == 1);
        assert(adler_b(Seq::<u8>::empty()) == 0);
        assert(adler_a(one) == (1 + c as int) % m);
        assert(adler_b(one) == (0 + adler_a(one) as int) % m);
    }
}

proof fn lemma_pack_halves(a: u32, b: u32)
    requires
        a < 65536,
        b < 65536,
    ensures
        (b << 16u32) | a == b * 65536 + a,
{
    assert((b << 16u32) | a == b * 65536 + a) by (bit_vector)
        requires
            a < 65536,
            b < 65536,
    ;
}

/// Adler-32 checksum of `data`.
pub fn adler32(data: &[u8]) -> (sum: u32)
    ensures
        sum == adler32_spec(data@),
{
    let mut a: u32 = 1;
    let mut b: u32 = 0;
    let mut i: usize = 0;
    while i < data.len()
        invariant
            i <= data.len(),
            a == adler_a(data@.take(i as int)),
            b == adler_b(data@.take(i as int)),
            a < ADLER_MOD,
            b < ADLER_MOD,
        decreases data.len() - i,
    {
        let byte = data[i];
        proof {
            assert(data@.take(i + 1).drop_last() =~= data@.take(i as int));
            assert(data@.take(i + 1).last() == byte);
        }
        a = (a + byte as u32) % ADLER_MOD;
        b = (b + a) % ADLER_MOD;
        i = i + 1;
    }
    proof {
        assert(data@.take(data.len() as int) =~= data@);
        lemma_pack_halves(a, b);
    }
    (b << 16) | a
}


// ---------------------------------------------------------------------------
// Pending achievement writes
// ---------------------------------------------------------------------------

/// Whether some pair of `s` has key `k`.
pub open spec fn has_key<K, V>(s: Seq<(K, V)>, k: K) -> bool {
    exists|j: int| 0 <= j < s.len() && #[trigger] s[j].0 == k
}

/// The pairs of `r` whose key did not occur earlier in `r`, in order.
pub open spec fn keep_first<K, V>(r: Seq<(K, V)>) -> Seq<(K, V)>
    decreases r.len(),
{
    if r.len() == 0 {
        Seq::empty()
    } else {
        let kept = keep_first(r.drop_last());
        if has_key(kept, r.last().0) {
            kept
        } else {
            kept.push(r.last())
        }
    }
}

/// The value of the last pair of `s` with key `k`.
pub open spec fn last_write<K, V>(s: Seq<(K, V)>, k: K) -> Option<V>
    decreases s.len(),
{
    if s.len() == 0 {
        None
    } else if s.last().0 == k {
        Some(s.last().1)
    } else {
        last_write(s.drop_last(), k)
    }
}

/// The value of the first pair of `s` with key `k`.
pub open spec fn first_write<K, V>(s: Seq<(K, V)>, k: K) -> Option<V>
    decreases s.len(),
{
    if s.len() == 0 {
        None
    } else if s[0].0 == k {
        Some(s[0].1)
    } else {
        first_write(s.drop_first(), k)
    }
}

/// The writes that a store must confirm: the last write of each achievement,
/// most recent first.
pub open spec fn latest_writes<K, V>(pending: Seq<(K, V)>) -> Seq<(K, V)> {
    keep_first(pending.reverse())
}

/// The views of pending writes.
pub open spec fn writes_view(v: Seq<(String, bool)>) -> Seq<(Seq<char>, bool)> {
    v.map_values(|p: (String, bool)| (p.0@, p.1))
}

proof fn lemma_first_write_push<K, V>(r: Seq<(K, V)>, x: (K, V), k: K)
    ensures
        first_write(r.push(x), k) == (if first_write(r, k) is Some {
            first_write(r, k)
        } else if x.0 == k {
            Some(x.1)
        } else {
            None
        }),
    decreases r.len(),
{
    if r.len() > 0 {
        assert(r.push(x).drop_first() =~= r.drop_first().push(x));
        lemma_first_write_push(r.drop_first(), x, k);
    } else {
        assert(r.push(x).drop_first() =~= Seq::<(K, V)>::empty());
        assert(first_write(Seq::<(K, V)>::empty(), k) is None);
    }
}

proof fn lemma_first_write_some<K, V>(r: Seq<(K, V)>, k: K)
    ensures
        first_write(r, k) is Some <==> has_key(r, k),
    decreases r.len(),
{
    if r.len() > 0 {
        let t = r.drop_first();
        lemma_first_write_some(t, k);
        if has_key(r, k) && r[0].0 != k {
            let j = choose|j: int| 0 <= j < r.len() && #[trigger] r[j].0 == k;
            assert(t[j - 1].0 == k);
        }
        if has_key(t, k) {
            let j = choose|j: int| 0 <= j < t.len() && #[trigger] t[j].0 == k;
            assert(r[j + 1].0 == k);
        }
        if r[0].0 == k {
            assert(r[0].0 == k);
        }
    }
}

proof fn lemma_has_key_push<K, V>(s: Seq<(K, V)>, x: (K, V), k: K)
    ensures
        has_key(s.push(x), k) <==> has_key(s, k) || x.0 == k,
{
    let t = s.push(x);
    if has_key(t, k) {
        let j = choose|j: int| 0 <= j < t.len() && #[trigger] t[j].0 == k;
        if j < s.len() {
            assert(s[j].0 == k);
        }
    }
    if has_key(s, k) {
        let j = choose|j: int| 0 <= j < s.len() && #[trigger] s[j].0 == k;
        assert(t[j].0 == k);
    }
    if x.0 == k {
        assert(t[s.len() as int].0 == k);
    }
}

proof fn lemma_keep_first<K, V>(r: Seq<(K, V)>)
    ensures
        forall|i: int, j: int| 0 <= i < j < keep_first(r).len() ==> keep_first(r)[i].0 != keep_first(r)[j].0,
        forall|i: int| 0 <= i < keep_first(r).len() ==> first_write(r, #[trigger] keep_first(r)[i].0) == Some(keep_first(r)[i].1),
        forall|k: K| has_key(keep_first(r), k) <==> has_key(r, k),
    decreases r.len(),
{
    if r.len() > 0 {
        let init = r.drop_last();
        let x = r.last();
        lemma_keep_first(init);
        assert(r =~= init.push(x));
        let kept = keep_first(init);
        assert forall|k: K| #[trigger] first_write(r, k) == (if first_write(init, k) is Some {
            first_write(init, k)
        } else if x.0 == k {
            Some(x.1)
        } else {
            None
        }) by {
            lemma_first_write_push(init, x, k);
        }
        assert forall|k: K| #[trigger] has_key(r, k) <==> has_key(init, k) || x.0 == k by {
            lemma_has_key_push(init, x, k);
        }
        assert forall|k: K| first_write(init, k) is Some <==> #[trigger] has_key(init, k) by {
            lemma_first_write_some(init, k);
        }
        if !has_key(kept, x.0) {
            let out = kept.push(x);
            assert forall|k: K| #[trigger] has_key(out, k) <==> has_key(kept, k) || x.0 == k by {
                lemma_has_key_push(kept, x, k);
            }
            assert forall|i: int, j: int| 0 <= i < j < out.len() implies out[i].0 != out[j].0 by {
                if j == out.len() - 1 {
                    assert(kept[i].0 == out[i].0);
                }
            }
            assert forall|i: int| 0 <= i < out.len() implies first_write(r, #[trigger] out[i].0) == Some(out[i].1) by {
                if i == out.len() - 1 {
                    assert(!has_key(init, x.0));
                } else {
                    assert(first_write(init, kept[i].0) == Some(kept[i].1));
                }
            }
        }
    }
}

proof fn lemma_last_write_reverse<K, V>(s: Seq<(K, V)>, k: K)
    ensures
        last_write(s, k) == first_write(s.reverse(), k),
    decreases s.len(),
{
    if s.len() > 0 {
        assert(s.reverse().drop_first() =~= s.drop_last().reverse());
        lemma_last_write_reverse(s.drop_last(), k);
    }
}

/// Law: what a store confirms is, for each achievement written since the
/// last store, exactly one write, and it is the last one made.
pub proof fn law_latest_writes<K, V>(pending: Seq<(K, V)>)
    ensures
        forall|i: int, j: int| 0 <= i < j < latest_writes(pending).len() ==> latest_writes(pending)[i].0 != latest_writes(pending)[j].0,
        forall|i: int| 0 <= i < latest_writes(pending).len() ==> last_write(pending, #[trigger] latest_writes(pending)[i].0) == Some(latest_writes(pending)[i].1),
        forall|k: K| has_key(latest_writes(pending), k) <==> has_key(pending, k),
{
    let r = pending.reverse();
    lemma_keep_first(r);
    assert forall|i: int| 0 <= i < latest_writes(pending).len() implies last_write(pending, #[trigger] latest_writes(pending)[i].0) == Some(latest_writes(pending)[i].1) by {
        lemma_last_write_reverse(pending, latest_writes(pending)[i].0);
    }
    assert forall|k: K| has_key(latest_writes(pending), k) <==> #[trigger] has_key(pending, k) by {
        if has_key(r, k) {
            let j = choose|j: int| 0 <= j < r.len() && #[trigger] r[j].0 == k;
            assert(pending[pending.len() - 1 - j].0 == k);
        }
        if has_key(pending, k) {
            let j = choose|j: int| 0 <= j < pending.len() && #[trigger] pending[j].0 == k;
            assert(r[pending.len() - 1 - j].0 == k);
        }
    }
}


// ---------------------------------------------------------------------------
// Definitions read from the game's stats schema
// ---------------------------------------------------------------------------

/// What every stat definition has.
pub struct BaseStatDefinition {
    pub id: String,
    pub display_name: String,
    pub permission: i32,
    pub app_id: u32,
}

/// An integer stat.
pub struct IntegerStatDefinition {
    pub base: BaseStatDefinition,
    pub min_value: i32,
    pub max_value: i32,
    pub max_change: i32,
    pub increment_only: bool,
    pub default_value: i32,
    pub set_by_trusted_game_server: bool,
}

/// A float or average-rate stat. Its numeric limits are kept by the caller,
/// in the same order as the definitions.
pub struct FloatStatDefinition {
    pub base: BaseStatDefinition,
    pub increment_only: bool,
}

/// A stat of the schema.
pub enum StatDefinition {
    Integer(IntegerStatDefinition),
    Float(FloatStatDefinition),
}

/// An achievement of the schema.
pub struct AchievementDefinition {
    pub id: String,
    pub app_id: u32,
    pub name: String,
    pub description: String,
    pub icon_normal: String,
    pub icon_locked: String,
    pub is_hidden: bool,
    pub permission: i32,
}

/// The id of a stat definition.
pub open spec fn stat_id(d: StatDefinition) -> Seq<char> {
    match d {
        StatDefinition::Integer(i) => i.base.id@,
        StatDefinition::Float(f) => f.base.id@,
    }
}

/// What is known of one stat: its limits, and its current value if Steam served it.
pub struct StatState<T> {
    pub min: T,
    pub max: T,
    pub increment_only: bool,
    pub default: T,
    pub current: Option<T>,
}

/// An achievement as shown to the user. The unlock time is in seconds since
/// the Unix epoch.
pub struct AchievementInfo {
    pub id: String,
    pub is_achieved: bool,
    pub unlock_time: Option<u32>,
    pub icon_normal: String,
    pub icon_locked: String,
    pub permission: i32,
    pub name: String,
    pub description: String,
}

/// An integer stat as shown to the user, with the value it had when read.
pub struct IntStatInfo {
    pub id: String,
    pub app_id: u32,
    pub display_name: String,
    pub int_value: i32,
    pub original_value: i32,
    pub is_increment_only: bool,
    pub permission: i32,
    pub min_value: i32,
    pub max_value: i32,
}

/// The row of integer stat `def` whose value Steam read as `value`.
pub fn int_stat_info(def: &IntegerStatDefinition, value: i32) -> (info: IntStatInfo)
    ensures
        info.id == def.base.id,
        info.app_id == def.base.app_id,
        info.display_name == def.base.display_name,
        info.int_value == value,
        info.original_value == value,
        info.is_increment_only == def.increment_only,
        info.permission == def.base.permission,
        info.min_value == def.min_value,
        info.max_value == def.max_value,
{
    IntStatInfo {
        id: def.base.id.clone(),
        app_id: def.base.app_id,
        display_name: def.base.display_name.clone(),
        int_value: value,
        original_value: value,
        is_increment_only: def.increment_only,
        permission: def.base.permission,
        min_value: def.min_value,
        max_value: def.max_value,
    }
}

/// An unlock time is only meaningful for an achieved achievement, and zero means none.
pub open spec fn unlock_time_of(achieved: bool, time: u32) -> Option<u32> {
    if achieved && time > 0 {
        Some(time)
    } else {
        None
    }
}

/// The unlock time of an achievement as read from Steam.
pub fn unlock_time(achieved: bool, time: u32) -> (t: Option<u32>)
    ensures
        t == unlock_time_of(achieved, time),
{
    if achieved && time > 0 {
        Some(time)
    } else {
        None
    }
}

/// The row of achievement `def` read as `(achieved, time)`; a missing locked
/// icon shows the normal one.
pub open spec fn achievement_row(def: AchievementDefinition, achieved: bool, time: u32) -> AchievementInfo {
    AchievementInfo {
        id: def.id,
        is_achieved: achieved,
        unlock_time: unlock_time_of(achieved, time),
        icon_normal: def.icon_normal,
        icon_locked: if def.icon_locked@.len() == 0 {
            def.icon_normal
        } else {
            def.icon_locked
        },
        permission: def.permission,
        name: def.name,
        description: def.description,
    }
}

/// The rows of the first `n` achievements: those with an id that Steam could read.
pub open spec fn achievement_rows_upto(
    defs: Seq<AchievementDefinition>,
    reads: Seq<Result<(bool, u32), SteamClientError>>,
    n: nat,
) -> Seq<(usize, AchievementInfo)>
    decreases n,
{
    if n == 0 {
        Seq::empty()
    } else {
        let i = n - 1;
        let rest = achievement_rows_upto(defs, reads, i as nat);
        if defs[i].id@.len() > 0 && reads[i] is Ok {
            let (achieved, time) = reads[i]->Ok_0;
            rest.push((i as usize, achievement_row(defs[i], achieved, time)))
        } else {
            rest
        }
    }
}

/// `row` shows definition `def` as Steam read it, `(achieved, time)`: its id,
/// name, description, normal icon and permission; the locked icon, or the
/// normal one when the definition has none; the flag as read; the time only
/// for an achieved achievement with a non-zero time.
pub open spec fn shows_definition(row: AchievementInfo, def: AchievementDefinition, achieved: bool, time: u32) -> bool {
    &&& row.id == def.id
    &&& row.name == def.name
    &&& row.description == def.description
    &&& row.icon_normal == def.icon_normal
    &&& row.icon_locked == (if def.icon_locked@.len() == 0 { def.icon_normal } else { def.icon_locked })
    &&& row.permission == def.permission
    &&& row.is_achieved == achieved
    &&& row.unlock_time == (if achieved && time > 0 { Some(time) } else { None })
}

/// Law: the achievement rows are exactly the definitions (among the first
/// `n`) that have an id and that Steam read, in order, each row showing its
/// definition as read: id, name, description, icons, permission, flag and
/// unlock time.
pub proof fn law_achievement_rows(
    defs: Seq<AchievementDefinition>,
    reads: Seq<Result<(bool, u32), SteamClientError>>,
    n: nat,
)
    requires
        n <= defs.len(),
        n <= reads.len(),
        defs.len() <= usize::MAX,
    ensures
        forall|k: int| 0 <= k < achievement_rows_upto(defs, reads, n).len() ==> {
            let (i, row) = #[trigger] achievement_rows_upto(defs, reads, n)[k];
            &&& i < n
            &&& reads[i as int] is Ok
            &&& defs[i as int].id@.len() > 0
            &&& shows_definition(row, defs[i as int], reads[i as int]->Ok_0.0, reads[i as int]->Ok_0.1)
        },
        forall|k: int, l: int| 0 <= k < l < achievement_rows_upto(defs, reads, n).len() ==>
            achievement_rows_upto(defs, reads, n)[k].0 < achievement_rows_upto(defs, reads, n)[l].0,
        forall|i: int| 0 <= i < n && defs[i].id@.len() > 0 && reads[i] is Ok ==>
            exists|k: int| 0 <= k < achievement_rows_upto(defs, reads, n).len()
                && (#[trigger] achievement_rows_upto(defs, reads, n)[k]).0 == i,
    decreases n,
{
    if n > 0 {
        let i = n - 1;
        law_achievement_rows(defs, reads, i as nat);
        let rest = achievement_rows_upto(defs, reads, i as nat);
        let all = achievement_rows_upto(defs, reads, n);
        assert forall|k: int| 0 <= k < all.len() implies {
            let (j, row) = #[trigger] all[k];
            &&& j < n
            &&& reads[j as int] is Ok
            &&& defs[j as int].id@.len() > 0
            &&& shows_definition(row, defs[j as int], reads[j as int]->Ok_0.0, reads[j as int]->Ok_0.1)
        } by {
            if k < rest.len() {
                assert(all[k] == rest[k]);
            } else {
                assert((i as usize) as int == i);
            }
        }
        assert forall|k: int, l: int| 0 <= k < l < all.len() implies all[k].0 < all[l].0 by {
            assert(all[k] == rest[k]);
            if l < rest.len() {
                assert(all[l] == rest[l]);
            } else {
                assert((i as usize) as int == i);
            }
        }
        assert forall|j: int| 0 <= j < n && defs[j].id@.len() > 0 && reads[j] is Ok implies
            exists|k: int| 0 <= k < all.len() && (#[trigger] all[k]).0 == j by {
            if j < i {
                let k = choose|k: int| 0 <= k < rest.len() && (#[trigger] rest[k]).0 == j;
                assert(all[k] == rest[k]);
            } else {
                assert((i as usize) as int == i);
                assert(all[all.len() - 1].0 == j);
            }
        }
    }
}

/// Some achievement has an id, so Steam could have served it.
pub open spec fn some_readable_achievement(defs: Seq<AchievementDefinition>) -> bool {
    exists|i: int| 0 <= i < defs.len() && (#[trigger] defs[i]).id@.len() > 0
}

/// Some stat has an id, so Steam could have served it.
pub open spec fn some_readable_stat(defs: Seq<StatDefinition>) -> bool {
    exists|i: int| 0 <= i < defs.len() && stat_id(#[trigger] defs[i]).len() > 0
}

/// The indices of the first `n` stats that have an id and were served.
pub open spec fn served_stats_upto(defs: Seq<StatDefinition>, served: Seq<bool>, n: nat) -> Seq<usize>
    decreases n,
{
    if n == 0 {
        Seq::empty()
    } else {
        let i = n - 1;
        let rest = served_stats_upto(defs, served, i as nat);
        if stat_id(defs[i]).len() > 0 && served[i] {
            rest.push(i as usize)
        } else {
            rest
        }
    }
}

/// Law: the stats `get_statistics` reports (among the first `n`) are exactly
/// those that have an id and that Steam served, in schema order.
pub proof fn law_served_stats(defs: Seq<StatDefinition>, served: Seq<bool>, n: nat)
    requires
        n <= defs.len(),
        n <= served.len(),
        defs.len() <= usize::MAX,
    ensures
        forall|k: int| 0 <= k < served_stats_upto(defs, served, n).len() ==> {
            let i = #[trigger] served_stats_upto(defs, served, n)[k];
            &&& i < n
            &&& stat_id(defs[i as int]).len() > 0
            &&& served[i as int]
        },
        forall|k: int, l: int| 0 <= k < l < served_stats_upto(defs, served, n).len() ==>
            served_stats_upto(defs, served, n)[k] < served_stats_upto(defs, served, n)[l],
        forall|i: int| 0 <= i < n && stat_id(defs[i]).len() > 0 && served[i] ==>
            served_stats_upto(defs, served, n).contains(i as usize),
    decreases n,
{
    if n > 0 {
        let i = n - 1;
        law_served_stats(defs, served, i as nat);
        let rest = served_stats_upto(defs, served, i as nat);
        let all = served_stats_upto(defs, served, n);
        assert((i as usize) as int == i);
        assert forall|k: int| 0 <= k < all.len() implies {
            let j = #[trigger] all[k];
            &&& j < n
            &&& stat_id(defs[j as int]).len() > 0
            &&& served[j as int]
        } by {
            if k < rest.len() {
                assert(all[k] == rest[k]);
            }
        }
        assert forall|k: int, l: int| 0 <= k < l < all.len() implies all[k] < all[l] by {
            assert(all[k] == rest[k]);
            if l < rest.len() {
                assert(all[l] == rest[l]);
            }
        }
        assert forall|j: int| 0 <= j < n && stat_id(defs[j]).len() > 0 && served[j] implies all.contains(j as usize) by {
            if j < i {
                let k = choose|k: int| 0 <= k < rest.len() && rest[k] == j as usize;
                assert(all[k] == rest[k]);
            } else {
                assert(all[all.len() - 1] == j as usize);
            }
        }
    }
}

/// `d` is an integer stat with id `id`.
pub open spec fn is_int_stat(d: StatDefinition, id: Seq<char>) -> bool {
    d matches StatDefinition::Integer(i) && i.base.id@ == id
}

/// Law: the integer stat read for `id` is the first integer stat of the
/// schema with that id, and there is none only when no integer stat has it.
pub proof fn law_first_int_stat(defs: Seq<StatDefinition>, id: Seq<char>)
    ensures
        match first_int_stat(defs, id) {
            Some(d) => exists|i: int| 0 <= i < defs.len() && #[trigger] defs[i] == StatDefinition::Integer(d)
                && d.base.id@ == id && forall|j: int| 0 <= j < i ==> !is_int_stat(#[trigger] defs[j], id),
            None => forall|i: int| 0 <= i < defs.len() ==> !is_int_stat(#[trigger] defs[i], id),
        },
    decreases defs.len(),
{
    if defs.len() > 0 {
        let t = defs.drop_first();
        law_first_int_stat(t, id);
        if is_int_stat(defs[0], id) {
            assert(defs[0] == StatDefinition::Integer(first_int_stat(defs, id)->0));
        } else {
            match first_int_stat(t, id) {
                Some(d) => {
                    let i = choose|i: int| 0 <= i < t.len() && #[trigger] t[i] == StatDefinition::Integer(d)
                        && d.base.id@ == id && forall|j: int| 0 <= j < i ==> !is_int_stat(#[trigger] t[j], id);
                    assert(defs[i + 1] == t[i]);
                    assert forall|j: int| 0 <= j < i + 1 implies !is_int_stat(#[trigger] defs[j], id) by {
                        if j > 0 {
                            assert(defs[j] == t[j - 1]);
                        }
                    }
                },
                None => {
                    assert forall|i: int| 0 <= i < defs.len() implies !is_int_stat(#[trigger] defs[i], id) by {
                        if i > 0 {
                            assert(defs[i] == t[i - 1]);
                        }
                    }
                },
            }
        }
    }
}

/// The first integer stat with id `id`.
pub open spec fn first_int_stat(defs: Seq<StatDefinition>, id: Seq<char>) -> Option<IntegerStatDefinition>
    decreases defs.len(),
{
    if defs.len() == 0 {
        None
    } else {
        match defs[0] {
            StatDefinition::Integer(d) => if d.base.id@ == id {
                Some(d)
            } else {
                first_int_stat(defs.drop_first(), id)
            },
            StatDefinition::Float(_) => first_int_stat(defs.drop_first(), id),
        }
    }
}

/// `d` is a float stat with id `id`.
pub open spec fn is_float_stat(d: StatDefinition, id: Seq<char>) -> bool {
    d matches StatDefinition::Float(f) && f.base.id@ == id
}

/// The achievements `unlock_all_achievements` writes: those not yet achieved
/// that the user may change.
pub open spec fn unlock_targets_upto(rows: Seq<AchievementInfo>, n: nat) -> Seq<Seq<char>>
    decreases n,
{
    if n == 0 {
        Seq::empty()
    } else {
        let i = n - 1;
        let rest = unlock_targets_upto(rows, i as nat);
        if !rows[i].is_achieved && rows[i].permission == 0 {
            rest.push(rows[i].id@)
        } else {
            rest
        }
    }
}

/// A row `unlock_all_achievements` writes: not achieved, and one the user
/// may change (permission 0; a protected achievement is never written).
pub open spec fn is_unlock_target(row: AchievementInfo) -> bool {
    !row.is_achieved && row.permission == 0
}

/// The rows unlock-all writes, in row order.
pub open spec fn lockable_rows(rows: Seq<AchievementInfo>) -> Seq<AchievementInfo> {
    rows.filter(|r: AchievementInfo| is_unlock_target(r))
}

/// Law: the achievements unlock-all writes are exactly the ids of the rows
/// that are not achieved and have permission 0, in row order: each comes
/// from such a row, and each such row is written.
pub proof fn law_unlock_targets(rows: Seq<AchievementInfo>)
    ensures
        unlock_targets_upto(rows, rows.len()) == lockable_rows(rows).map_values(|r: AchievementInfo| r.id@),
        forall|j: int| 0 <= j < lockable_rows(rows).len() ==> is_unlock_target(#[trigger] lockable_rows(rows)[j]),
        forall|i: int| 0 <= i < rows.len() && is_unlock_target(#[trigger] rows[i]) ==> lockable_rows(rows).contains(rows[i]),
{
    lemma_unlock_targets_upto(rows, rows.len());
    assert(rows.take(rows.len() as int) =~= rows);
    let p = |r: AchievementInfo| is_unlock_target(r);
    assert forall|j: int| 0 <= j < lockable_rows(rows).len() implies is_unlock_target(#[trigger] lockable_rows(rows)[j]) by {
        rows.lemma_filter_pred(p, j);
    }
    assert forall|i: int| 0 <= i < rows.len() && is_unlock_target(#[trigger] rows[i]) implies lockable_rows(rows).contains(rows[i]) by {
        rows.lemma_filter_contains(p, i);
    }
}

proof fn lemma_unlock_targets_upto(rows: Seq<AchievementInfo>, n: nat)
    requires
        n <= rows.len(),
    ensures
        unlock_targets_upto(rows, n) == rows.take(n as int).filter(|r: AchievementInfo| is_unlock_target(r)).map_values(
            |r: AchievementInfo| r.id@,
        ),
    decreases n,
{
    let p = |r: AchievementInfo| is_unlock_target(r);
    let f = |r: AchievementInfo| r.id@;
    reveal_with_fuel(Seq::<_>::filter, 1);
    if n == 0 {
        assert(rows.take(0) =~= Seq::<AchievementInfo>::empty());
        assert(rows.take(0).filter(p) =~= Seq::<AchievementInfo>::empty());
        assert(rows.take(0).filter(p).map_values(f) =~= Seq::<Seq<char>>::empty());
    } else {
        let i = n - 1;
        lemma_unlock_targets_upto(rows, i as nat);
        let t = rows.take(n as int);
        assert(t.drop_last() =~= rows.take(i as int));
        assert(t.last() == rows[i as int]);
        let sub = rows.take(i as int).filter(p);
        if is_unlock_target(rows[i as int]) {
            assert(t.filter(p) == sub.push(rows[i as int]));
            assert(sub.push(rows[i as int]).map_values(f) =~= sub.map_values(f).push(rows[i as int].id@));
        } else {
            assert(t.filter(p) == sub);
        }
    }
}

// ---------------------------------------------------------------------------
// The manager of one app's stats and achievements
// ---------------------------------------------------------------------------

/// The state of an `AppManager`.
pub struct AppManagerView {
    pub app_id: u32,
    pub loaded_language: Option<Seq<char>>,
    pub user_stats_received: bool,
    pub pending: Seq<(Seq<char>, bool)>,
    pub achievements: Seq<AchievementDefinition>,
    pub stats: Seq<StatDefinition>,
}

/// What `reset_all_stats` does once Steam answered the reset.
pub enum ResetNext {
    /// Commit the reset with a store.
    Store,
    /// Answer the caller with this, storing nothing.
    Answer(Result<bool, SamError>),
}

/// The manager of one app's stats and achievements: its schema definitions,
/// the achievement writes not yet confirmed by a store, and whether the
/// user's current stats were received.
pub struct AppManager {
    app_id: u32,
    loaded_language: Option<String>,
    user_stats_received: bool,
    pending_writes: Vec<(String, bool)>,
    achievement_definitions: Vec<AchievementDefinition>,
    stat_definitions: Vec<StatDefinition>,
}

/// The view of an optional string.
pub open spec fn opt_view(s: Option<String>) -> Option<Seq<char>> {
    match s {
        Some(v) => Some(v@),
        None => None,
    }
}

impl View for AppManager {
    type V = AppManagerView;

    closed spec fn view(&self) -> AppManagerView {
        AppManagerView {
            app_id: self.app_id,
            loaded_language: opt_view(self.loaded_language),
            user_stats_received: self.user_stats_received,
            pending: writes_view(self.pending_writes@),
            achievements: self.achievement_definitions@,
            stats: self.stat_definitions@,
        }
    }
}

impl AppManager {
    /// The manager of `app_id` right after connecting: nothing loaded or pending.
    pub fn new(app_id: u32) -> (m: AppManager)
        ensures
            m@ == (AppManagerView {
                app_id,
                loaded_language: None,
                user_stats_received: false,
                pending: Seq::empty(),
                achievements: Seq::empty(),
                stats: Seq::empty(),
            }),
    {
        let m = AppManager {
            app_id,
            loaded_language: None,
            user_stats_received: false,
            pending_writes: Vec::new(),
            achievement_definitions: Vec::new(),
            stat_definitions: Vec::new(),
        };
        assert(writes_view(m.pending_writes@) =~= Seq::empty());
        m
    }

    /// The stat definitions, in schema order.
    pub fn stat_definitions(&self) -> (d: &Vec<StatDefinition>)
        ensures
            d@ == self@.stats,
    {
        &self.stat_definitions
    }

    /// The achievement definitions, in schema order.
    pub fn achievement_definitions(&self) -> (d: &Vec<AchievementDefinition>)
        ensures
            d@ == self@.achievements,
    {
        &self.achievement_definitions
    }

    /// Whether the user's current stats were received.
    pub fn user_stats_received(&self) -> (b: bool)
        ensures
            b == self@.user_stats_received,
    {
        self.user_stats_received
    }

    /// The managed app.
    pub fn app_id(&self) -> (id: u32)
        ensures
            id == self@.app_id,
    {
        self.app_id
    }

    /// Whether the user's current stats must still be requested: not once
    /// received, and not while Steam reports being offline (it would never answer).
    pub fn current_stats_needed<E>(&self, logged_on: Result<bool, E>) -> (needed: bool)
        ensures
            needed == (!self@.user_stats_received && !(logged_on matches Ok(false))),
    {
        if self.user_stats_received {
            return false;
        }
        match logged_on {
            Ok(false) => false,
            _ => true,
        }
    }

    /// Records the answer of the stats access to the request for current stats.
    pub fn current_stats_primed(&mut self, primed: Result<bool, SamError>) -> (out: Result<(), SamError>)
        ensures
            match primed {
                Ok(received) => out == Ok::<(), SamError>(())
                    && final(self)@ == (AppManagerView {
                        user_stats_received: old(self)@.user_stats_received || received,
                        ..old(self)@
                    }),
                Err(e) => out == Err::<(), SamError>(e) && final(self)@ == old(self)@,
            },
    {
        match primed {
            Ok(received) => {
                if received {
                    self.user_stats_received = true;
                }
                Ok(())
            },
            Err(e) => Err(e),
        }
    }

    /// Whether the definitions must be (re)loaded for `language`: they are
    /// kept only for the language they were parsed in.
    pub fn needs_definitions(&self, language: &str) -> (needed: bool)
        ensures
            needed == (self@.loaded_language != Some(language@)),
    {
        match &self.loaded_language {
            Some(l) => !crate::backend::text::str_eq(l.as_str(), language),
            None => true,
        }
    }

    /// Installs definitions freshly parsed in `language`.
    pub fn install_definitions(
        &mut self,
        stats: Vec<StatDefinition>,
        achievements: Vec<AchievementDefinition>,
        language: &str,
    )
        ensures
            final(self)@ == (AppManagerView {
                loaded_language: Some(language@),
                achievements: achievements@,
                stats: stats@,
                ..old(self)@
            }),
    {
        self.stat_definitions = stats;
        self.achievement_definitions = achievements;
        self.loaded_language = Some(language.to_owned());
    }

    /// The language to list achievements in when only their ids and flags
    /// matter: whatever is already parsed, so nothing is re-parsed.
    pub fn language_or_default(&self) -> (l: String)
        ensures
            l@ == match self@.loaded_language {
                Some(v) => v,
                None => Seq::<char>::empty(),
            },
    {
        match &self.loaded_language {
            Some(l) => l.clone(),
            None => String::new(),
        }
    }

    /// The achievement rows of `get_achievements`. `reads[i]` is Steam's answer
    /// for achievement `i` (ignored for one without an id). Each row comes with
    /// its definition's index. When Steam served none of the achievements that
    /// have an id, the connection failed.
    pub fn achievement_rows(&self, reads: &Vec<Result<(bool, u32), SteamClientError>>) -> (out: Result<Vec<(usize, AchievementInfo)>, SamError>)
        requires
            reads.len() == self@.achievements.len(),
        ensures
            ({
                let rows = achievement_rows_upto(self@.achievements, reads@, self@.achievements.len());
                if rows.len() == 0 && some_readable_achievement(self@.achievements) {
                    out == Err::<Vec<(usize, AchievementInfo)>, SamError>(SamError::SteamConnectionFailed)
                } else {
                    out matches Ok(v) && v@ == rows
                }
            }),
    {
        let defs = &self.achievement_definitions;
        let mut rows: Vec<(usize, AchievementInfo)> = Vec::new();
        let mut readable = false;
        let mut i: usize = 0;
        while i < defs.len()
            invariant
                i <= defs.len(),
                defs@ == self@.achievements,
                reads.len() == defs.len(),
                rows@ == achievement_rows_upto(defs@, reads@, i as nat),
                readable == exists|j: int| 0 <= j < i && (#[trigger] defs@[j]).id@.len() > 0,
            decreases defs.len() - i,
        {
            let def = &defs[i];
            if def.id.as_str().is_empty() {
                i = i + 1;
                continue;
            }
            readable = true;
            match reads[i] {
                Ok((achieved, time)) => {
                    let icon_locked = if def.icon_locked.as_str().is_empty() {
                        def.icon_normal.clone()
                    } else {
                        def.icon_locked.clone()
                    };
                    let row = AchievementInfo {
                        id: def.id.clone(),
                        is_achieved: achieved,
                        unlock_time: unlock_time(achieved, time),
                        icon_normal: def.icon_normal.clone(),
                        icon_locked,
                        permission: def.permission,
                        name: def.name.clone(),
                        description: def.description.clone(),
                    };
                    rows.push((i, row));
                },
                Err(_) => {},
            }
            i = i + 1;
        }
        if rows.len() == 0 && readable {
            return Err(SamError::SteamConnectionFailed);
        }
        Ok(rows)
    }

    /// The stats `get_statistics` reports: indices of the stats that have an
    /// id and that Steam served (`served[i]`). When Steam served none of them
    /// and the app has no achievements to show instead, the connection failed.
    pub fn statistic_rows(&self, served: &Vec<bool>) -> (out: Result<Vec<usize>, SamError>)
        requires
            served.len() == self@.stats.len(),
        ensures
            ({
                let rows = served_stats_upto(self@.stats, served@, self@.stats.len());
                if rows.len() == 0 && some_readable_stat(self@.stats) && !some_readable_achievement(self@.achievements) {
                    out == Err::<Vec<usize>, SamError>(SamError::SteamConnectionFailed)
                } else {
                    out matches Ok(v) && v@ == rows
                }
            }),
    {
        let defs = &self.stat_definitions;
        let mut rows: Vec<usize> = Vec::new();
        let mut readable = false;
        let mut i: usize = 0;
        while i < defs.len()
            invariant
                i <= defs.len(),
                defs@ == self@.stats,
                served.len() == defs.len(),
                rows@ == served_stats_upto(defs@, served@, i as nat),
                readable == exists|j: int| 0 <= j < i && stat_id(#[trigger] defs@[j]).len() > 0,
            decreases defs.len() - i,
        {
            let has_id = match &defs[i] {
                StatDefinition::Integer(d) => !d.base.id.as_str().is_empty(),
                StatDefinition::Float(d) => !d.base.id.as_str().is_empty(),
            };
            if has_id {
                readable = true;
                if served[i] {
                    rows.push(i);
                }
            }
            i = i + 1;
        }
        if rows.len() == 0 && readable && !self.has_readable_achievement() {
            return Err(SamError::SteamConnectionFailed);
        }
        Ok(rows)
    }

    fn has_readable_achievement(&self) -> (b: bool)
        ensures
            b == some_readable_achievement(self@.achievements),
    {
        let defs = &self.achievement_definitions;
        let mut i: usize = 0;
        while i < defs.len()
            invariant
                i <= defs.len(),
                defs@ == self@.achievements,
                forall|j: int| 0 <= j < i ==> (#[trigger] defs@[j]).id@.len() == 0,
            decreases defs.len() - i,
        {
            if !defs[i].id.as_str().is_empty() {
                return true;
            }
            i = i + 1;
        }
        false
    }

    fn int_stat_limits(&self, id: &str) -> (found: Option<(i32, i32, bool, i32)>)
        ensures
            match first_int_stat(self@.stats, id@) {
                Some(d) => found == Some((d.min_value, d.max_value, d.increment_only, d.default_value)),
                None => found is None,
            },
    {
        let key = id.to_owned();
        let defs = &self.stat_definitions;
        let mut i: usize = 0;
        assert(defs@.skip(0) =~= defs@);
        while i < defs.len()
            invariant
                i <= defs.len(),
                defs@ == self@.stats,
                key@ == id@,
                first_int_stat(defs@, id@) == first_int_stat(defs@.skip(i as int), id@),
            decreases defs.len() - i,
        {
            assert(defs@.skip(i as int).drop_first() =~= defs@.skip(i + 1));
            match &defs[i] {
                StatDefinition::Integer(d) => {
                    if d.base.id == key {
                        return Some((d.min_value, d.max_value, d.increment_only, d.default_value));
                    }
                },
                StatDefinition::Float(_) => {},
            }
            i = i + 1;
        }
        None
    }

    /// The index of the first float stat with id `id`; its limits are kept by
    /// the caller, who also reads its current value.
    pub fn float_stat_index(&self, id: &str) -> (found: Option<usize>)
        ensures
            match found {
                Some(k) => k < self@.stats.len() && is_float_stat(self@.stats[k as int], id@)
                    && forall|j: int| 0 <= j < k ==> !is_float_stat(#[trigger] self@.stats[j], id@),
                None => forall|j: int| 0 <= j < self@.stats.len() ==> !is_float_stat(#[trigger] self@.stats[j], id@),
            },
    {
        let key = id.to_owned();
        let defs = &self.stat_definitions;
        let mut i: usize = 0;
        while i < defs.len()
            invariant
                i <= defs.len(),
                defs@ == self@.stats,
                key@ == id@,
                forall|j: int| 0 <= j < i ==> !is_float_stat(#[trigger] defs@[j], id@),
            decreases defs.len() - i,
        {
            match &defs[i] {
                StatDefinition::Float(d) => {
                    if d.base.id == key {
                        return Some(i);
                    }
                },
                StatDefinition::Integer(_) => {},
            }
            i = i + 1;
        }
        None
    }

    /// Records an achievement write (`unlock` or clear) that Steam answered
    /// with `written`: a refused write fails and is not kept; an accepted one
    /// waits for the next store to confirm it.
    pub fn record_achievement_write(&mut self, achievement_id: &str, unlock: bool, written: Result<(), SteamClientError>) -> (out: Result<(), SamError>)
        ensures
            match written {
                Ok(_) => out == Ok::<(), SamError>(())
                    && final(self)@ == (AppManagerView {
                        pending: old(self)@.pending.push((achievement_id@, unlock)),
                        ..old(self)@
                    }),
                Err(_) => out == Err::<(), SamError>(SamError::LockUnlockAchievementFailed)
                    && final(self)@ == old(self)@,
            },
    {
        match written {
            Ok(_) => {
                self.push_pending(achievement_id.to_owned(), unlock);
                Ok(())
            },
            Err(_) => Err(SamError::LockUnlockAchievementFailed),
        }
    }

    fn push_pending(&mut self, id: String, value: bool)
        ensures
            final(self)@ == (AppManagerView { pending: old(self)@.pending.push((id@, value)), ..old(self)@ }),
    {
        self.pending_writes.push((id, value));
        assert(writes_view(self.pending_writes@) =~= writes_view(old(self).pending_writes@).push((id@, value)));
    }

    /// Takes the writes a store must confirm, before the store, so that a
    /// failed store leaves nothing behind: the last write of each achievement,
    /// most recent first. No write is pending afterwards.
    pub fn take_pending_writes(&mut self) -> (taken: Vec<(String, bool)>)
        ensures
            writes_view(taken@) == latest_writes(old(self)@.pending),
            final(self)@ == (AppManagerView { pending: Seq::empty(), ..old(self)@ }),
    {
        let mut pending: Vec<(String, bool)> = Vec::new();
        std::mem::swap(&mut pending, &mut self.pending_writes);
        assert(writes_view(self.pending_writes@) =~= Seq::empty());
        let ghost all = writes_view(pending@);
        let ghost rev = all.reverse();
        let mut out: Vec<(String, bool)> = Vec::new();
        let mut i: usize = pending.len();
        while i > 0
            invariant
                i <= pending.len(),
                all == writes_view(pending@),
                rev == all.reverse(),
                writes_view(out@) == keep_first(rev.take(pending.len() - i)),
            decreases i,
        {
            i = i - 1;
            let n = pending.len() - i;
            assert(rev.take(n as int).drop_last() =~= rev.take(n - 1));
            assert(rev.take(n as int).last() == all[i as int]);
            let id = &pending[i].0;
            let value = pending[i].1;
            if !Self::has_written(&out, id) {
                out.push((id.clone(), value));
                assert(writes_view(out@) =~= writes_view(out@.drop_last()).push((id@, value)));
            }
        }
        assert(rev.take(pending.len() as int) =~= rev);
        out
    }

    fn has_written(out: &Vec<(String, bool)>, id: &String) -> (b: bool)
        ensures
            b == has_key(writes_view(out@), id@),
    {
        let mut j: usize = 0;
        while j < out.len()
            invariant
                j <= out.len(),
                forall|k: int| 0 <= k < j ==> (#[trigger] out@[k]).0@ != id@,
            decreases out.len() - j,
        {
            if out[j].0 == *id {
                assert(writes_view(out@)[j as int].0 == id@);
                return true;
            }
            j = j + 1;
        }
        assert forall|k: int| 0 <= k < writes_view(out@).len() implies #[trigger] writes_view(out@)[k].0 != id@ by {
            assert(writes_view(out@)[k].0 == out@[k].0@);
        }
        false
    }

    /// The answer of `store_stats_and_achievements`. `stored` is Steam's answer
    /// to the store; `confirmed[i]` says whether the read-back of the `i`-th
    /// taken write confirms it (checked only after a store that took, with
    /// writes pending). A failed store is `StatStoreFailed`; a store none of
    /// whose writes took is `LockUnlockAchievementFailed`, as reporting success
    /// there would be a lie; otherwise Steam's answer stands, `Ok(false)`
    /// being Steam declining to store.
    pub fn store_outcome(stored: Result<bool, SteamClientError>, confirmed: &Vec<bool>) -> (out: Result<bool, SamError>)
        ensures
            match stored {
                Err(_) => out == Err::<bool, SamError>(SamError::StatStoreFailed),
                Ok(true) => if confirmed.len() > 0 && forall|i: int| 0 <= i < confirmed.len() ==> !(#[trigger] confirmed@[i]) {
                    out == Err::<bool, SamError>(SamError::LockUnlockAchievementFailed)
                } else {
                    out == Ok::<bool, SamError>(true)
                },
                Ok(false) => out == Ok::<bool, SamError>(false),
            },
    {
        match stored {
            Err(_) => Err(SamError::StatStoreFailed),
            Ok(false) => Ok(false),
            Ok(true) => {
                let mut failed: usize = 0;
                let mut i: usize = 0;
                while i < confirmed.len()
                    invariant
                        i <= confirmed.len(),
                        failed <= i,
                        failed == i <==> forall|j: int| 0 <= j < i ==> !(#[trigger] confirmed@[j]),
                    decreases confirmed.len() - i,
                {
                    if !confirmed[i] {
                        failed = failed + 1;
                    }
                    i = i + 1;
                }
                if confirmed.len() > 0 && failed == confirmed.len() {
                    Err(SamError::LockUnlockAchievementFailed)
                } else {
                    Ok(true)
                }
            },
        }
    }

    /// The achievements `unlock_all_achievements` writes: those not yet
    /// achieved that the user may change (permission 0).
    pub fn unlock_all_targets(rows: &Vec<AchievementInfo>) -> (ids: Vec<String>)
        ensures
            ids@.map_values(|s: String| s@) == unlock_targets_upto(rows@, rows.len() as nat),
    {
        let mut ids: Vec<String> = Vec::new();
        let mut i: usize = 0;
        while i < rows.len()
            invariant
                i <= rows.len(),
                ids@.map_values(|s: String| s@) == unlock_targets_upto(rows@, i as nat),
            decreases rows.len() - i,
        {
            let row = &rows[i];
            if !row.is_achieved && row.permission == 0 {
                ids.push(row.id.clone());
                assert(ids@.map_values(|s: String| s@) =~= ids@.drop_last().map_values(|s: String| s@).push(row.id@));
            }
            i = i + 1;
        }
        ids
    }

    /// Records the write of one achievement by `unlock_all_achievements`;
    /// answers whether it failed. A failed write is skipped, not kept.
    pub fn record_unlock<E>(&mut self, achievement_id: String, written: Result<(), E>) -> (failed: bool)
        ensures
            failed == written is Err,
            written is Ok ==> final(self)@ == (AppManagerView {
                pending: old(self)@.pending.push((achievement_id@, true)),
                ..old(self)@
            }),
            written is Err ==> final(self)@ == old(self)@,
    {
        match written {
            Ok(_) => {
                self.push_pending(achievement_id, true);
                false
            },
            Err(_) => true,
        }
    }

    /// The answer of `unlock_all_achievements`: a failed store stands; else
    /// any achievement that could not be written fails the whole call.
    pub fn unlock_all_outcome(stored: Result<bool, SamError>, has_failures: bool) -> (out: Result<bool, SamError>)
        ensures
            match stored {
                Err(e) => out == Err::<bool, SamError>(e),
                Ok(b) => out == if has_failures {
                    Err::<bool, SamError>(SamError::LockUnlockAchievementFailed)
                } else {
                    Ok::<bool, SamError>(b)
                },
            },
    {
        match stored {
            Err(e) => Err(e),
            Ok(b) => if has_failures {
                Err(SamError::LockUnlockAchievementFailed)
            } else {
                Ok(b)
            },
        }
    }

    /// Whether a stat write Steam answered with `written` may be stored: a
    /// refusal (such as lowering an increment-only stat) is an `UnknownError`.
    pub fn stat_write_outcome<T, E>(written: Result<T, E>) -> (out: Result<(), SamError>)
        ensures
            out == if written is Ok {
                Ok::<(), SamError>(())
            } else {
                Err::<(), SamError>(SamError::UnknownError)
            },
    {
        match written {
            Ok(_) => Ok(()),
            Err(_) => Err(SamError::UnknownError),
        }
    }

    /// Before resetting every stat: a reset that takes the achievements too
    /// leaves no achievement write to confirm.
    pub fn begin_reset(&mut self, achievements_too: bool)
        ensures
            final(self)@ == (AppManagerView {
                pending: if achievements_too { Seq::empty() } else { old(self)@.pending },
                ..old(self)@
            }),
    {
        if achievements_too {
            self.pending_writes = Vec::new();
            assert(writes_view(self.pending_writes@) =~= Seq::empty());
        }
    }

    /// What follows Steam's answer to `ResetAllStats`: store when it took,
    /// answer `Ok(false)` when Steam refused, `UnknownError` when the call failed.
    pub fn reset_outcome<E>(reset: Result<bool, E>) -> (next: ResetNext)
        ensures
            match reset {
                Ok(true) => next is Store,
                Ok(false) => next == ResetNext::Answer(Ok(false)),
                Err(_) => next == ResetNext::Answer(Err(SamError::UnknownError)),
            },
    {
        match reset {
            Ok(true) => ResetNext::Store,
            Ok(false) => ResetNext::Answer(Ok(false)),
            Err(_) => ResetNext::Answer(Err(SamError::UnknownError)),
        }
    }

    /// A user's achieved and total achievement counts for the app, from the
    /// listing of their achievements.
    pub fn fetch_user_achievement_count(list: &Vec<AchievementUnlock>) -> (counts: (u32, u32))
        requires
            list.len() <= u32::MAX,
        ensures
            counts.0 == achieved_upto(list@, list.len() as nat),
            counts.1 == list.len(),
            counts.0 <= counts.1,
    {
        let mut achieved: u32 = 0;
        let mut i: usize = 0;
        while i < list.len()
            invariant
                i <= list.len(),
                list.len() <= u32::MAX,
                achieved == achieved_upto(list@, i as nat),
            decreases list.len() - i,
        {
            proof {
                lemma_achieved_upto_bound(list@, i as nat);
            }
            if list[i].achieved {
                achieved = achieved + 1;
            }
            i = i + 1;
        }
        proof {
            lemma_achieved_upto_bound(list@, list.len() as nat);
        }
        (achieved, list.len() as u32)
    }

    /// The limits and current value of integer stat `id`. `current` is
    /// Steam's answer for it. A stat missing from the schema has the full
    /// `i32` range, no increment-only rule and default 0.
    pub fn read_int_stat_state(&self, id: &str, current: Result<i32, SteamClientError>) -> (st: StatState<i32>)
        ensures
            match first_int_stat(self@.stats, id@) {
                Some(d) => st.min == d.min_value && st.max == d.max_value
                    && st.increment_only == d.increment_only && st.default == d.default_value,
                None => st.min == i32::MIN && st.max == i32::MAX && !st.increment_only && st.default == 0,
            },
            st.current == match current {
                Ok(v) => Some(v),
                Err(_) => None::<i32>,
            },
    {
        let found = self.int_stat_limits(id);
        let (min, max, increment_only, default) = match found {
            Some(f) => f,
            None => (i32::MIN, i32::MAX, false, 0),
        };
        let current = match current {
            Ok(v) => Some(v),
            Err(_) => None,
        };
        StatState { min, max, increment_only, default, current }
    }
}

} // verus!
