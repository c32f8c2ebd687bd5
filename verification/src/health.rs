//! The state of the keys at run time: cooldowns, disabled keys and the quotas of upstream models.
use vstd::arithmetic::power2::{
    lemma2_to64, lemma_pow2_strictly_increases, lemma_pow2_unfold, pow2,
};
use vstd::prelude::*;

use crate::cache::{QuotaStatus, QuotaWindow};
use crate::clock::{parse_db_datetime, period_rolled, spec_db_datetime, spec_period_rolled};
use crate::table::{distinct, entries_map, lemma_entries_pop, Table};
use crate::types::KeyStatus;

verus! {

/// The longest cooldown, in seconds.
pub const MAX_COOLDOWN_SECS: i64 = 1800;

/// The failures of a key on one upstream model, and how long it is left alone for them.
#[derive(Debug, Clone, Copy, PartialEq, Eq, Structural)]
pub struct CooldownEntry {
    pub cooldown_until: Option<i64>,
    pub consecutive_failures: u32,
}

/// The state of a key at run time.
pub struct KeyRuntimeState {
    pub key_id: i64,
    pub status: KeyStatus,
    pub cooldowns: Table<String, CooldownEntry>,
    pub used_quota_this_period: u64,
}

/// The state of a key, its cooldowns by the names of the upstream models.
#[verifier::ext_equal]
pub struct KeyHealth {
    pub key_id: i64,
    pub status: KeyStatus,
    pub cooldowns: Map<Seq<char>, CooldownEntry>,
    pub used_quota_this_period: u64,
}

impl View for KeyRuntimeState {
    type V = KeyHealth;

    open spec fn view(&self) -> KeyHealth {
        KeyHealth {
            key_id: self.key_id,
            status: self.status,
            cooldowns: self.cooldowns@,
            used_quota_this_period: self.used_quota_this_period,
        }
    }
}

/// The state of a key of which nothing is known yet.
pub open spec fn fresh(key_id: i64) -> KeyHealth {
    KeyHealth {
        key_id,
        status: KeyStatus::Active,
        cooldowns: Map::empty(),
        used_quota_this_period: 0,
    }
}

/// The state of a key, known or not.
pub open spec fn state_or_fresh(keys: Map<i64, KeyHealth>, key_id: i64) -> KeyHealth {
    if keys.contains_key(key_id) {
        keys[key_id]
    } else {
        fresh(key_id)
    }
}

impl KeyRuntimeState {
    pub fn new(key_id: i64) -> (r: Self)
        ensures
            r@ == fresh(key_id),
    {
        KeyRuntimeState {
            key_id,
            status: KeyStatus::Active,
            cooldowns: Table::new(),
            used_quota_this_period: 0,
        }
    }
}

/// The quota of one upstream model on one channel.
#[derive(Debug, PartialEq, Eq)]
pub struct SmallModelState {
    pub channel_id: i64,
    pub upstream: String,
    pub window: Option<QuotaWindow>,
    pub limit: Option<i64>,
    pub used: i64,
    pub last_reset_at: Option<i64>,
    pub status: QuotaStatus,
}

/// An upstream model and its quota as they are stored.
#[derive(Debug, PartialEq, Eq)]
pub struct SmallModelRow {
    pub channel_id: i64,
    pub raw_model_name: String,
    pub quota_limit: Option<i64>,
    pub quota_window: Option<String>,
    pub used_quota: i64,
    pub last_reset_at: Option<String>,
    pub quota_status: String,
}

/// The quota that a stored row describes.
pub open spec fn state_of_row(row: SmallModelRow) -> SmallModelState {
    SmallModelState {
        channel_id: row.channel_id,
        upstream: row.raw_model_name,
        window: match row.quota_window {
            Some(w) => QuotaWindow::spec_from_db_str(w@),
            None => None,
        },
        limit: row.quota_limit,
        used: row.used_quota,
        last_reset_at: match row.last_reset_at {
            Some(t) => spec_db_datetime(t@),
            None => None,
        },
        status: QuotaStatus::spec_from_db_str(row.quota_status@),
    }
}

/// The quotas after the rows were stored, each under its channel and model.
pub open spec fn with_rows(
    models: Map<(i64, Seq<char>), SmallModelState>,
    rows: Seq<SmallModelRow>,
) -> Map<(i64, Seq<char>), SmallModelState>
    decreases rows.len(),
{
    if rows.len() == 0 {
        models
    } else {
        let row = rows.last();
        with_rows(models, rows.drop_last()).insert(
            (row.channel_id, row.raw_model_name@),
            state_of_row(row),
        )
    }
}

/// The quota is due for a reset.
pub open spec fn due(state: SmallModelState, now: i64) -> bool {
    match state.window {
        Some(w) => spec_period_rolled(w, state.last_reset_at, now),
        None => false,
    }
}

/// The quota after a reset.
pub open spec fn after_reset(state: SmallModelState, now: i64) -> SmallModelState {
    SmallModelState {
        used: 0,
        status: QuotaStatus::Available,
        last_reset_at: Some(now),
        ..state
    }
}

/// All quotas, those that are due reset.
pub open spec fn after_resets(
    models: Map<(i64, Seq<char>), SmallModelState>,
    now: i64,
) -> Map<(i64, Seq<char>), SmallModelState> {
    models.map_values(
        |s: SmallModelState|
            if due(s, now) {
                after_reset(s, now)
            } else {
                s
            },
    )
}

/// The views of a list of pairs of a channel and a model name.
pub open spec fn model_keys(v: Seq<(i64, String)>) -> Seq<(i64, Seq<char>)> {
    v.map_values(|p: (i64, String)| (p.0, p.1@))
}

/// The cooldown lasts beyond `now`.
pub open spec fn cooling(entry: CooldownEntry, now: i64) -> bool {
    match entry.cooldown_until {
        Some(until) => until > now,
        None => false,
    }
}

/// The cooldowns that last beyond `now`.
pub open spec fn still_cooling(
    cooldowns: Map<Seq<char>, CooldownEntry>,
    now: i64,
) -> Map<Seq<char>, CooldownEntry> {
    Map::new(
        |m: Seq<char>| cooldowns.contains_key(m) && cooling(cooldowns[m], now),
        |m: Seq<char>| cooldowns[m],
    )
}

/// The states without the cooldowns that are over.
pub open spec fn recovered(keys: Map<i64, KeyHealth>, now: i64) -> Map<i64, KeyHealth> {
    keys.map_values(
        |s: KeyHealth| KeyHealth { cooldowns: still_cooling(s.cooldowns, now), ..s },
    )
}

/// A key may be used for an upstream model: nothing is known of it, or it is neither disabled
/// nor out of quota and has no cooldown for that model that lasts beyond `now`.
pub open spec fn available(
    keys: Map<i64, KeyHealth>,
    key_id: i64,
    upstream_model: Seq<char>,
    now: i64,
) -> bool {
    keys.contains_key(key_id) ==> {
        &&& keys[key_id].status == KeyStatus::Active || keys[key_id].status == KeyStatus::Cooldown
        &&& keys[key_id].cooldowns.contains_key(upstream_model) ==> !cooling(
            keys[key_id].cooldowns[upstream_model],
            now,
        )
    }
}

/// The length of the cooldown, in seconds, after so many failures in a row: it doubles with
/// each of them up to the longest.
pub open spec fn cooldown_secs(failures: u32) -> int {
    let doubled = pow2(if failures < 31 { failures as nat } else { 31 });
    if doubled < MAX_COOLDOWN_SECS {
        doubled as int
    } else {
        MAX_COOLDOWN_SECS as int
    }
}

/// The number of failures after one more; it stops at the largest number.
pub open spec fn one_more(failures: u32) -> u32 {
    if failures < u32::MAX {
        (failures + 1) as u32
    } else {
        u32::MAX
    }
}

/// The entry of a key for an upstream model after one more failure.
pub open spec fn after_failure(
    cooldowns: Map<Seq<char>, CooldownEntry>,
    upstream_model: Seq<char>,
    now: i64,
) -> CooldownEntry {
    let failures = one_more(
        if cooldowns.contains_key(upstream_model) {
            cooldowns[upstream_model].consecutive_failures
        } else {
            0
        },
    );
    CooldownEntry {
        cooldown_until: Some((now + cooldown_secs(failures) * 1000) as i64),
        consecutive_failures: failures,
    }
}

/// The states after one more failure of a key on an upstream model.
pub open spec fn cooled_down(
    keys: Map<i64, KeyHealth>,
    key_id: i64,
    upstream_model: Seq<char>,
    now: i64,
) -> Map<i64, KeyHealth> {
    let state = state_or_fresh(keys, key_id);
    keys.insert(
        key_id,
        KeyHealth {
            cooldowns: state.cooldowns.insert(
                upstream_model,
                after_failure(state.cooldowns, upstream_model, now),
            ),
            ..state
        },
    )
}

/// The states after a key was used for so many tokens; the count stops at the largest number.
pub open spec fn with_usage(
    keys: Map<i64, KeyHealth>,
    key_id: i64,
    tokens: u64,
) -> Map<i64, KeyHealth> {
    let state = state_or_fresh(keys, key_id);
    let sum = state.used_quota_this_period + tokens;
    keys.insert(
        key_id,
        KeyHealth {
            used_quota_this_period: if sum <= u64::MAX {
                sum as u64
            } else {
                u64::MAX
            },
            ..state
        },
    )
}

/// The states after the status of several keys was set, one after the other.
pub open spec fn each_with_status(
    keys: Map<i64, KeyHealth>,
    ids: Seq<i64>,
    status: KeyStatus,
    keep_cooldowns: bool,
) -> Map<i64, KeyHealth>
    decreases ids.len(),
{
    if ids.len() == 0 {
        keys
    } else {
        let front = each_with_status(keys, ids.drop_last(), status, keep_cooldowns);
        front.insert(ids.last(), with_status(front, ids.last(), status, keep_cooldowns))
    }
}

/// The state of a key with another status, with or without its cooldowns.
pub open spec fn with_status(
    keys: Map<i64, KeyHealth>,
    key_id: i64,
    status: KeyStatus,
    keep_cooldowns: bool,
) -> KeyHealth {
    let state = state_or_fresh(keys, key_id);
    KeyHealth {
        status,
        cooldowns: if keep_cooldowns {
            state.cooldowns
        } else {
            Map::empty()
        },
        ..state
    }
}

/// The states of the keys and the quotas of the upstream models.
pub struct HealthManager {
    states: Table<i64, KeyRuntimeState>,
    small_model_states: Table<(i64, String), SmallModelState>,
}

/// The length of the cooldown after so many failures in a row.
fn backoff_secs(failures: u32) -> (r: i64)
    ensures
        r == cooldown_secs(failures),
        1 <= r <= MAX_COOLDOWN_SECS,
{
    let n: u32 = if failures < 31 {
        failures
    } else {
        31
    };
    let mut doubled: i64 = 1;
    let mut i: u32 = 0;
    proof {
        lemma2_to64();
    }
    while i < n
        invariant
            i <= n <= 31,
            1 <= doubled,
            doubled == pow2(i as nat),
            doubled <= 0x8000_0000,
            pow2(31) == 0x8000_0000,
        decreases n - i,
    {
        proof {
            lemma_pow2_unfold((i + 1) as nat);
            if i + 1 < 31 {
                lemma_pow2_strictly_increases((i + 1) as nat, 31);
            }
        }
        doubled = doubled * 2;
        i = i + 1;
    }
    if doubled < MAX_COOLDOWN_SECS {
        doubled
    } else {
        MAX_COOLDOWN_SECS
    }
}

/// The cooldown lengthens with the number of failures, is never over the longest, and is the
/// longest from the eleventh failure on.
pub proof fn law_backoff_grows_and_caps(fewer: u32, more: u32)
    requires
        fewer <= more,
    ensures
        1 <= cooldown_secs(fewer) <= cooldown_secs(more) <= MAX_COOLDOWN_SECS,
        fewer < more < 11 ==> cooldown_secs(more) >= 2 * cooldown_secs(fewer),
        more >= 11 ==> cooldown_secs(more) == MAX_COOLDOWN_SECS,
{
    lemma2_to64();
    let a = if fewer < 31 { fewer as nat } else { 31 };
    let b = if more < 31 { more as nat } else { 31 };
    if a > 0 {
        lemma_pow2_strictly_increases(0, a);
    }
    if a < b {
        lemma_pow2_strictly_increases(a, b);
        lemma_pow2_unfold((a + 1) as nat);
        if a + 1 < b {
            lemma_pow2_strictly_increases((a + 1) as nat, b);
        }
    }
    if b > 11 {
        lemma_pow2_strictly_increases(11, b);
    }
    if b < 11 {
        lemma_pow2_strictly_increases(b, 11);
        if b < 10 {
            lemma_pow2_strictly_increases(b, 10);
        }
    }
}

/// A failure of a key on one upstream model changes nothing for any other key or model.
pub proof fn law_cooldown_is_isolated(
    keys: Map<i64, KeyHealth>,
    key_id: i64,
    upstream_model: Seq<char>,
    now: i64,
    other_key: i64,
    other_model: Seq<char>,
    at: i64,
)
    requires
        other_key != key_id || other_model != upstream_model,
    ensures
        available(cooled_down(keys, key_id, upstream_model, now), other_key, other_model, at)
            == available(keys, other_key, other_model, at),
{
}

/// A key that is neither disabled nor out of quota is unavailable for the model it failed on
/// until the cooldown is over, and available from that moment on.
pub proof fn law_cooldown_ends_by_itself(
    keys: Map<i64, KeyHealth>,
    key_id: i64,
    upstream_model: Seq<char>,
    now: i64,
    at: i64,
)
    requires
        now <= i64::MAX - MAX_COOLDOWN_SECS * 1000,
        state_or_fresh(keys, key_id).status == KeyStatus::Active || state_or_fresh(
            keys,
            key_id,
        ).status == KeyStatus::Cooldown,
    ensures
        available(cooled_down(keys, key_id, upstream_model, now), key_id, upstream_model, at)
            <==> at >= now + cooldown_secs(
            after_failure(
                state_or_fresh(keys, key_id).cooldowns,
                upstream_model,
                now,
            ).consecutive_failures,
        ) * 1000,
{
    let failures = after_failure(
        state_or_fresh(keys, key_id).cooldowns,
        upstream_model,
        now,
    ).consecutive_failures;
    law_backoff_grows_and_caps(failures, failures);
}

/// Dropping the cooldowns that are over changes the availability of no key, now or later.
pub proof fn law_recovery_keeps_availability(
    keys: Map<i64, KeyHealth>,
    now: i64,
    key_id: i64,
    upstream_model: Seq<char>,
    at: i64,
)
    requires
        at >= now,
    ensures
        available(recovered(keys, now), key_id, upstream_model, at) == available(
            keys,
            key_id,
            upstream_model,
            at,
        ),
{
}

/// A key that was disabled is unavailable for every model, at any time.
pub proof fn law_disabled_key_is_unavailable(
    keys: Map<i64, KeyHealth>,
    key_id: i64,
    keep_cooldowns: bool,
    upstream_model: Seq<char>,
    at: i64,
)
    ensures
        !available(
            keys.insert(
                key_id,
                with_status(keys, key_id, KeyStatus::Disabled, keep_cooldowns),
            ),
            key_id,
            upstream_model,
            at,
        ),
{
}

proof fn lemma_each_with_status(
    keys: Map<i64, KeyHealth>,
    ids: Seq<i64>,
    status: KeyStatus,
    keep_cooldowns: bool,
    key_id: i64,
)
    ensures
        ids.contains(key_id) ==> each_with_status(keys, ids, status, keep_cooldowns).contains_key(
            key_id,
        ) && each_with_status(keys, ids, status, keep_cooldowns)[key_id] == with_status(
            keys,
            key_id,
            status,
            keep_cooldowns,
        ),
        !ids.contains(key_id) ==> (each_with_status(
            keys,
            ids,
            status,
            keep_cooldowns,
        ).contains_key(key_id) <==> keys.contains_key(key_id)),
        !ids.contains(key_id) && keys.contains_key(key_id) ==> each_with_status(
            keys,
            ids,
            status,
            keep_cooldowns,
        )[key_id] == keys[key_id],
    decreases ids.len(),
{
    if ids.len() > 0 {
        let front = ids.drop_last();
        lemma_each_with_status(keys, front, status, keep_cooldowns, key_id);
        assert(ids.contains(key_id) <==> front.contains(key_id) || ids.last() == key_id) by {
            if ids.contains(key_id) {
                let i = choose|i: int| 0 <= i < ids.len() && ids[i] == key_id;
                if i < front.len() {
                    assert(front[i] == key_id);
                }
            }
            if front.contains(key_id) {
                let i = choose|i: int| 0 <= i < front.len() && front[i] == key_id;
                assert(ids[i] == key_id);
            }
            if ids.last() == key_id {
                assert(ids[ids.len() - 1] == key_id);
            }
        }
    }
}

/// Keys that were restored are available for every model at once; all others stay as they were.
pub proof fn law_restored_keys_are_available(
    keys: Map<i64, KeyHealth>,
    ids: Seq<i64>,
    key_id: i64,
    upstream_model: Seq<char>,
    at: i64,
)
    ensures
        ids.contains(key_id) ==> available(
            each_with_status(keys, ids, KeyStatus::Active, false),
            key_id,
            upstream_model,
            at,
        ),
        !ids.contains(key_id) ==> available(
            each_with_status(keys, ids, KeyStatus::Active, false),
            key_id,
            upstream_model,
            at,
        ) == available(keys, key_id, upstream_model, at),
{
    lemma_each_with_status(keys, ids, KeyStatus::Active, false, key_id);
}

/// The keys that are stored as disabled are unavailable for every model once they are loaded.
pub proof fn law_loaded_disabled_keys_are_unavailable(
    keys: Map<i64, KeyHealth>,
    ids: Seq<i64>,
    key_id: i64,
    upstream_model: Seq<char>,
    at: i64,
)
    requires
        ids.contains(key_id),
    ensures
        !available(
            each_with_status(keys, ids, KeyStatus::Disabled, true),
            key_id,
            upstream_model,
            at,
        ),
{
    lemma_each_with_status(keys, ids, KeyStatus::Disabled, true, key_id);
}

/// Resetting the quotas a second time at the same moment changes nothing.
pub proof fn law_resets_settle(models: Map<(i64, Seq<char>), SmallModelState>, now: i64)
    ensures
        after_resets(after_resets(models, now), now) == after_resets(models, now),
{
    assert(after_resets(after_resets(models, now), now) =~= after_resets(models, now));
}

/// A model whose quota was due is available after the resets, with nothing used.
pub proof fn law_reset_makes_model_available(
    models: Map<(i64, Seq<char>), SmallModelState>,
    now: i64,
    channel_id: i64,
    upstream: Seq<char>,
)
    requires
        models.contains_key((channel_id, upstream)),
        due(models[(channel_id, upstream)], now),
    ensures
        model_available(after_resets(models, now), channel_id, upstream),
        after_resets(models, now)[(channel_id, upstream)].used == 0,
{
}

/// Drops the cooldowns that are over.
fn prune(cooldowns: Table<String, CooldownEntry>, now: i64) -> (r: Table<String, CooldownEntry>)
    ensures
        r@ == still_cooling(cooldowns@, now),
{
    let ghost all = cooldowns@;
    let mut source = cooldowns;
    let mut rest = source.take_entries();
    let mut kept: Table<String, CooldownEntry> = Table::new();
    while rest.len() > 0
        invariant
            distinct(rest@),
            forall|m: Seq<char>| #[trigger]
                entries_map(rest@).contains_key(m) ==> all.contains_key(m) && all[m] == entries_map(
                    rest@,
                )[m],
            forall|m: Seq<char>| #[trigger]
                kept@.contains_key(m) <==> all.contains_key(m) && !entries_map(
                    rest@,
                ).contains_key(m) && cooling(all[m], now),
            forall|m: Seq<char>| #[trigger] kept@.contains_key(m) ==> kept@[m] == all[m],
        decreases rest@.len(),
    {
        let ghost before = rest@;
        proof {
            lemma_entries_pop(before);
        }
        match rest.pop() {
            Some((name, entry)) => {
                proof {
                    assert(rest@ == before.drop_last());
                    assert(entries_map(before).contains_key(name@));
                }
                let keep = match entry.cooldown_until {
                    Some(until) => until > now,
                    None => false,
                };
                if keep {
                    kept.insert(name, entry);
                }
            },
            None => {},
        }
    }
    proof {
        assert(kept@ =~= still_cooling(all, now));
    }
    kept
}

impl HealthManager {
    /// The states of the keys of which something is known.
    pub closed spec fn keys(&self) -> Map<i64, KeyHealth> {
        self.states@.map_values(|s: KeyRuntimeState| s@)
    }

    /// The quotas of the upstream models.
    pub closed spec fn models(&self) -> Map<(i64, Seq<char>), SmallModelState> {
        self.small_model_states@
    }

    pub fn new() -> (r: Self)
        ensures
            r.keys() == Map::<i64, KeyHealth>::empty(),
            r.models() == Map::<(i64, Seq<char>), SmallModelState>::empty(),
    {
        let r = HealthManager { states: Table::new(), small_model_states: Table::new() };
        proof {
            assert(r.keys() =~= Map::empty());
        }
        r
    }

    /// Takes the state of a key out, or a new one.
    fn take_state(&mut self, key_id: i64) -> (r: KeyRuntimeState)
        ensures
            r@ == state_or_fresh(old(self).keys(), key_id),
            final(self).keys() == old(self).keys().remove(key_id),
            final(self).models() == old(self).models(),
    {
        let r = match self.states.remove(&key_id) {
            Some(s) => s,
            None => KeyRuntimeState::new(key_id),
        };
        proof {
            assert(self.keys() =~= old(self).keys().remove(key_id));
        }
        r
    }

    /// Puts the state of a key back.
    fn put_state(&mut self, key_id: i64, state: KeyRuntimeState)
        ensures
            final(self).keys() == old(self).keys().insert(key_id, state@),
            final(self).models() == old(self).models(),
    {
        self.states.insert(key_id, state);
        proof {
            assert(self.keys() =~= old(self).keys().insert(key_id, state@));
        }
    }

    /// Sets the status of a key, with or without dropping its cooldowns.
    fn set_status(&mut self, key_id: i64, status: KeyStatus, keep_cooldowns: bool)
        ensures
            final(self).keys() == old(self).keys().insert(
                key_id,
                with_status(old(self).keys(), key_id, status, keep_cooldowns),
            ),
            final(self).models() == old(self).models(),
    {
        let mut state = self.take_state(key_id);
        state.status = status;
        if !keep_cooldowns {
            state.cooldowns = Table::new();
        }
        self.put_state(key_id, state);
        proof {
            assert(self.keys() =~= old(self).keys().insert(
                key_id,
                with_status(old(self).keys(), key_id, status, keep_cooldowns),
            ));
        }
    }

    /// Sets the status of several keys, one after the other.
    fn set_each_status(&mut self, ids: &Vec<i64>, status: KeyStatus, keep_cooldowns: bool)
        ensures
            final(self).keys() == each_with_status(old(self).keys(), ids@, status, keep_cooldowns),
            final(self).models() == old(self).models(),
    {
        let mut i: usize = 0;
        proof {
            assert(ids@.take(0) =~= Seq::empty());
        }
        while i < ids.len()
            invariant
                i <= ids@.len(),
                self.keys() == each_with_status(
                    old(self).keys(),
                    ids@.take(i as int),
                    status,
                    keep_cooldowns,
                ),
                self.models() == old(self).models(),
            decreases ids@.len() - i,
        {
            proof {
                assert(ids@.take(i + 1).drop_last() =~= ids@.take(i as int));
            }
            self.set_status(ids[i], status, keep_cooldowns);
            i = i + 1;
        }
        proof {
            assert(ids@.take(i as int) =~= ids@);
        }
    }

    /// Marks the keys that are stored as disabled.
    pub fn load_disabled(&mut self, ids: &Vec<i64>)
        ensures
            final(self).keys() == each_with_status(
                old(self).keys(),
                ids@,
                KeyStatus::Disabled,
                true,
            ),
            final(self).models() == old(self).models(),
    {
        self.set_each_status(ids, KeyStatus::Disabled, true);
    }

    /// Whether a key may be used for an upstream model.
    pub fn is_available(&self, key_id: i64, upstream_model: &str, now: i64) -> (r: bool)
        ensures
            r == available(self.keys(), key_id, upstream_model@, now),
    {
        match self.states.get(&key_id) {
            None => true,
            Some(state) => {
                let usable = match state.status {
                    KeyStatus::Active => true,
                    KeyStatus::Cooldown => true,
                    _ => false,
                };
                if !usable {
                    return false;
                }
                match state.cooldowns.get(&upstream_model.to_owned()) {
                    None => true,
                    Some(entry) => match entry.cooldown_until {
                        Some(until) => until <= now,
                        None => true,
                    },
                }
            },
        }
    }

    /// Records a failure of a key on an upstream model: the key is left alone there for a time
    /// that doubles with each failure. Its status stays as it is, and so do its cooldowns for
    /// other models.
    pub fn mark_cooldown(&mut self, key_id: i64, upstream_model: &str, now: i64)
        requires
            now <= i64::MAX - MAX_COOLDOWN_SECS * 1000,
        ensures
            final(self).keys() == cooled_down(old(self).keys(), key_id, upstream_model@, now),
            final(self).models() == old(self).models(),
    {
        let mut state = self.take_state(key_id);
        let ghost known = state@;
        let name = upstream_model.to_owned();
        let failures: u32 = match state.cooldowns.get(&name) {
            Some(entry) => entry.consecutive_failures,
            None => 0,
        };
        let more: u32 = if failures < u32::MAX {
            failures + 1
        } else {
            u32::MAX
        };
        let until: i64 = now + backoff_secs(more) * 1000;
        let entry = CooldownEntry { cooldown_until: Some(until), consecutive_failures: more };
        proof {
            assert(entry == after_failure(known.cooldowns, upstream_model@, now));
        }
        let mut cooldowns = state.cooldowns;
        cooldowns.insert(name, entry);
        state.cooldowns = cooldowns;
        self.put_state(key_id, state);
        proof {
            assert(self.keys() =~= cooled_down(old(self).keys(), key_id, upstream_model@, now));
        }
    }

    /// Disables a key for every model.
    pub fn mark_disabled(&mut self, key_id: i64)
        ensures
            final(self).keys() == old(self).keys().insert(
                key_id,
                with_status(old(self).keys(), key_id, KeyStatus::Disabled, false),
            ),
            final(self).models() == old(self).models(),
    {
        self.set_status(key_id, KeyStatus::Disabled, false);
    }

    /// Counts tokens that a key was used for; the count stops at the largest number.
    pub fn add_usage(&mut self, key_id: i64, tokens: u64)
        ensures
            final(self).keys() == with_usage(old(self).keys(), key_id, tokens),
            final(self).models() == old(self).models(),
    {
        let mut state = self.take_state(key_id);
        state.used_quota_this_period = if tokens <= u64::MAX - state.used_quota_this_period {
            state.used_quota_this_period + tokens
        } else {
            u64::MAX
        };
        self.put_state(key_id, state);
        proof {
            assert(self.keys() =~= with_usage(old(self).keys(), key_id, tokens));
        }
    }

    /// Makes disabled keys usable again, for every model at once.
    pub fn restore_disabled(&mut self, key_ids: &Vec<i64>)
        ensures
            final(self).keys() == each_with_status(
                old(self).keys(),
                key_ids@,
                KeyStatus::Active,
                false,
            ),
            final(self).models() == old(self).models(),
    {
        self.set_each_status(key_ids, KeyStatus::Active, false);
    }

    /// Takes over the stored status of a key; an active key loses its cooldowns.
    pub fn sync_key_from_db(&mut self, key_id: i64, new_status: KeyStatus)
        ensures
            final(self).keys() == old(self).keys().insert(
                key_id,
                with_status(
                    old(self).keys(),
                    key_id,
                    new_status,
                    new_status != KeyStatus::Active,
                ),
            ),
            final(self).models() == old(self).models(),
    {
        let keep = match new_status {
            KeyStatus::Active => false,
            _ => true,
        };
        self.set_status(key_id, new_status, keep);
    }

    /// The state of a key of which something is known.
    pub fn get_state(&self, key_id: i64) -> (r: Option<&KeyRuntimeState>)
        ensures
            match r {
                Some(s) => self.keys().contains_key(key_id) && s@ == self.keys()[key_id],
                None => !self.keys().contains_key(key_id),
            },
    {
        self.states.get(&key_id)
    }

    /// Drops the cooldowns that are over, then resets the quotas that are due; gives the models
    /// whose quota was reset.
    pub fn check_recoveries(&mut self, now: i64) -> (r: Vec<(i64, String)>)
        ensures
            final(self).keys() == recovered(old(self).keys(), now),
            final(self).models() == after_resets(old(self).models(), now),
            forall|k: (i64, Seq<char>)| #[trigger]
                model_keys(r@).contains(k) <==> old(self).models().contains_key(k) && due(
                    old(self).models()[k],
                    now,
                ),
            model_keys(r@).no_duplicates(),
    {
        let ghost all = self.states@;
        let mut states: Table<i64, KeyRuntimeState> = Table::new();
        std::mem::swap(&mut states, &mut self.states);
        let mut rest = states.take_entries();
        let mut done: Table<i64, KeyRuntimeState> = Table::new();
        while rest.len() > 0
            invariant
                distinct(rest@),
                forall|k: i64| #[trigger]
                    entries_map(rest@).contains_key(k) ==> all.contains_key(k) && all[k]
                        == entries_map(rest@)[k],
                forall|k: i64| #[trigger]
                    done@.contains_key(k) <==> all.contains_key(k) && !entries_map(
                        rest@,
                    ).contains_key(k),
                forall|k: i64| #[trigger]
                    done@.contains_key(k) ==> done@[k]@ == (KeyHealth {
                        cooldowns: still_cooling(all[k]@.cooldowns, now),
                        ..all[k]@
                    }),
            decreases rest@.len(),
        {
            let ghost before = rest@;
            proof {
                lemma_entries_pop(before);
            }
            match rest.pop() {
                Some((id, state)) => {
                    proof {
                        assert(rest@ == before.drop_last());
                        assert(entries_map(before).contains_key(id));
                    }
                    let cooldowns = prune(state.cooldowns, now);
                    done.insert(
                        id,
                        KeyRuntimeState {
                            key_id: state.key_id,
                            status: state.status,
                            cooldowns,
                            used_quota_this_period: state.used_quota_this_period,
                        },
                    );
                },
                None => {},
            }
        }
        self.states = done;
        proof {
            assert(self.keys() =~= recovered(old(self).keys(), now));
        }
        self.check_small_model_quota_resets(now)
    }

    /// Stores the quotas of upstream models.
    pub fn load_small_model_quota(&mut self, rows: Vec<SmallModelRow>)
        ensures
            final(self).keys() == old(self).keys(),
            final(self).models() == with_rows(old(self).models(), rows@),
    {
        let ghost all = rows@;
        let mut rest = rows;
        let ghost mut done: int = 0;
        proof {
            assert(all.take(0) =~= Seq::empty());
        }
        while rest.len() > 0
            invariant
                0 <= done <= all.len(),
                rest@ == all.skip(done),
                self.keys() == old(self).keys(),
                self.models() == with_rows(old(self).models(), all.take(done)),
            ensures
                done == all.len(),
                self.keys() == old(self).keys(),
                self.models() == with_rows(old(self).models(), all.take(done)),
            decreases rest@.len(),
        {
            let row = rest.remove(0);
            proof {
                assert(all.skip(done).remove(0) =~= all.skip(done + 1));
                assert(all.take(done + 1).drop_last() =~= all.take(done));
                done = done + 1;
            }
            let window = match &row.quota_window {
                Some(w) => QuotaWindow::from_db_str(w.as_str()),
                None => None,
            };
            let last_reset_at = match &row.last_reset_at {
                Some(t) => parse_db_datetime(t.as_str()),
                None => None,
            };
            let status = QuotaStatus::from_db_str(row.quota_status.as_str());
            let name = row.raw_model_name.clone();
            let state = SmallModelState {
                channel_id: row.channel_id,
                upstream: row.raw_model_name,
                window,
                limit: row.quota_limit,
                used: row.used_quota,
                last_reset_at,
                status,
            };
            proof {
                assert(state == state_of_row(row));
            }
            self.small_model_states.insert((row.channel_id, name), state);
        }
        proof {
            assert(all.take(done) =~= all);
        }
    }

    /// Whether an upstream model has quota left: nothing is known of it, it has no limit, or its
    /// quota is not exhausted.
    pub fn is_small_model_available(&self, channel_id: i64, upstream: &str) -> (r: bool)
        ensures
            r == model_available(self.models(), channel_id, upstream@),
    {
        match self.small_model_states.get(&(channel_id, upstream.to_owned())) {
            None => true,
            Some(state) => match state.limit {
                None => true,
                Some(_) => match state.status {
                    QuotaStatus::Available => true,
                    QuotaStatus::Exhausted => false,
                },
            },
        }
    }

    /// What is known of the quota of an upstream model.
    pub fn small_model_state(&self, channel_id: i64, upstream: &str) -> (r: Option<
        &SmallModelState,
    >)
        ensures
            r == if self.models().contains_key((channel_id, upstream@)) {
                Some(&self.models()[(channel_id, upstream@)])
            } else {
                None
            },
    {
        self.small_model_states.get(&(channel_id, upstream.to_owned()))
    }

    /// Resets the quotas that are due; gives the models whose quota was reset.
    pub fn check_small_model_quota_resets(&mut self, now: i64) -> (r: Vec<(i64, String)>)
        ensures
            final(self).keys() == old(self).keys(),
            final(self).models() == after_resets(old(self).models(), now),
            forall|k: (i64, Seq<char>)| #[trigger]
                model_keys(r@).contains(k) <==> old(self).models().contains_key(k) && due(
                    old(self).models()[k],
                    now,
                ),
            model_keys(r@).no_duplicates(),
    {
        let ghost all = self.models();
        let mut states: Table<(i64, String), SmallModelState> = Table::new();
        std::mem::swap(&mut states, &mut self.small_model_states);
        let mut rest = states.take_entries();
        let mut done: Table<(i64, String), SmallModelState> = Table::new();
        let mut reset: Vec<(i64, String)> = Vec::new();
        while rest.len() > 0
            invariant
                distinct(rest@),
                forall|k: (i64, Seq<char>)| #[trigger]
                    entries_map(rest@).contains_key(k) ==> all.contains_key(k) && all[k]
                        == entries_map(rest@)[k],
                forall|k: (i64, Seq<char>)| #[trigger]
                    done@.contains_key(k) <==> all.contains_key(k) && !entries_map(
                        rest@,
                    ).contains_key(k),
                forall|k: (i64, Seq<char>)| #[trigger]
                    done@.contains_key(k) ==> done@[k] == if due(all[k], now) {
                        after_reset(all[k], now)
                    } else {
                        all[k]
                    },
                forall|k: (i64, Seq<char>)| #[trigger]
                    model_keys(reset@).contains(k) <==> done@.contains_key(k) && due(all[k], now),
                model_keys(reset@).no_duplicates(),
            decreases rest@.len(),
        {
            let ghost before = rest@;
            let ghost listed = model_keys(reset@);
            let ghost seen = done@;
            proof {
                lemma_entries_pop(before);
            }
            match rest.pop() {
                Some((key, state)) => {
                    let ghost id = (key.0, key.1@);
                    proof {
                        assert(rest@ == before.drop_last());
                        assert(entries_map(before).contains_key(id));
                    }
                    let rolled = match state.window {
                        Some(w) => period_rolled(w, state.last_reset_at, now),
                        None => false,
                    };
                    if rolled {
                        let copy = (key.0, key.1.clone());
                        reset.push(copy);
                        proof {
                            assert(model_keys(reset@) =~= listed.push(id));
                            assert(!listed.contains(id));
                            assert(listed.push(id).no_duplicates()) by {
                                assert forall|i: int, j: int|
                                    0 <= i < listed.push(id).len() && 0 <= j < listed.push(id).len()
                                        && i != j implies listed.push(id)[i] != listed.push(
                                    id,
                                )[j] by {
                                    if i == listed.len() {
                                        assert(listed.contains(listed[j]));
                                    } else if j == listed.len() {
                                        assert(listed.contains(listed[i]));
                                    }
                                }
                            }
                            assert forall|k: (i64, Seq<char>)| #[trigger]
                                model_keys(reset@).contains(k) <==> listed.contains(k) || k
                                == id by {
                                if k == id {
                                    assert(listed.push(id)[listed.len() as int] == k);
                                }
                                if listed.contains(k) {
                                    let i = choose|i: int| 0 <= i < listed.len() && listed[i] == k;
                                    assert(listed.push(id)[i] == k);
                                }
                            }
                        }
                        let fresh_state = SmallModelState {
                            channel_id: state.channel_id,
                            upstream: state.upstream,
                            window: state.window,
                            limit: state.limit,
                            used: 0,
                            last_reset_at: Some(now),
                            status: QuotaStatus::Available,
                        };
                        proof {
                            assert(fresh_state == after_reset(state, now));
                        }
                        done.insert(key, fresh_state);
                    } else {
                        done.insert(key, state);
                    }
                    proof {
                        assert(!seen.contains_key(id));
                    }
                },
                None => {},
            }
        }
        self.small_model_states = done;
        proof {
            assert(self.models() =~= after_resets(all, now));
        }
        reset
    }
}

impl Default for HealthManager {
    fn default() -> (r: Self)
        ensures
            r.keys() == Map::<i64, KeyHealth>::empty(),
            r.models() == Map::<(i64, Seq<char>), SmallModelState>::empty(),
    {
        HealthManager::new()
    }
}

/// An upstream model has quota left.
pub open spec fn model_available(
    models: Map<(i64, Seq<char>), SmallModelState>,
    channel_id: i64,
    upstream: Seq<char>,
) -> bool {
    let k = (channel_id, upstream);
    models.contains_key(k) ==> models[k].limit is None || models[k].status == QuotaStatus::Available
}

/// The first failure in a row keeps a key back for two seconds, every further one for twice as
/// long, up to half an hour.
pub proof fn law_backoff_doubles(failures: u32)
    ensures
        failures == 1 ==> cooldown_secs(failures) == 2,
        1 < failures <= 10 ==> cooldown_secs(failures) == 2 * cooldown_secs((failures - 1) as u32),
        failures > 10 ==> cooldown_secs(failures) == 1800,
{
    lemma2_to64();
    if failures == 1 {
        assert(pow2(1) == 2);
    } else if 1 < failures <= 10 {
        lemma_pow2_unfold(failures as nat);
        lemma_pow2_strictly_increases(failures as nat, 11);
        lemma_pow2_strictly_increases((failures - 1) as nat, 11);
        assert(pow2(10) == 1024);
        if failures < 10 {
            lemma_pow2_strictly_increases(failures as nat, 10);
        }
        lemma_pow2_strictly_increases((failures - 1) as nat, 10);
    } else if failures > 10 {
        assert(pow2(11) == 2048);
        law_backoff_grows_and_caps(11, failures);
    }
}

/// A failure is counted for its key and model on top of those before it, and the key is kept back
/// from that moment on for as long as the count calls for. Its status and what it has used stay.
pub proof fn law_failures_in_a_row_are_counted(
    keys: Map<i64, KeyHealth>,
    key_id: i64,
    model: Seq<char>,
    now: i64,
)
    requires
        now <= i64::MAX - 1800 * 1000,
    ensures
        ({
            let before = state_or_fresh(keys, key_id);
            let state = cooled_down(keys, key_id, model, now)[key_id];
            let entry = state.cooldowns[model];
            &&& cooled_down(keys, key_id, model, now).contains_key(key_id)
            &&& state.cooldowns.contains_key(model)
            &&& !before.cooldowns.contains_key(model) ==> entry.consecutive_failures == 1
            &&& before.cooldowns.contains_key(model)
                && before.cooldowns[model].consecutive_failures < u32::MAX
                ==> entry.consecutive_failures == before.cooldowns[model].consecutive_failures + 1
            &&& entry.cooldown_until == Some(
                (now + 1000 * cooldown_secs(entry.consecutive_failures)) as i64,
            )
            &&& state.status == before.status
            &&& state.used_quota_this_period == before.used_quota_this_period
            &&& state.key_id == before.key_id
        }),
{
}

/// A key of which nothing is known is available. A known one is available where it is active or
/// cooling and no cooldown of its for the model lasts beyond the moment.
pub proof fn law_availability(keys: Map<i64, KeyHealth>, key_id: i64, model: Seq<char>, now: i64)
    ensures
        !keys.contains_key(key_id) ==> available(keys, key_id, model, now),
        keys.contains_key(key_id) ==> {
            let s = keys[key_id];
            &&& s.status == KeyStatus::Disabled || s.status == KeyStatus::QuotaExhausted
                ==> !available(keys, key_id, model, now)
            &&& s.status == KeyStatus::Active || s.status == KeyStatus::Cooldown ==> {
                &&& !s.cooldowns.contains_key(model) ==> available(keys, key_id, model, now)
                &&& s.cooldowns.contains_key(model) ==> (
                s.cooldowns[model].cooldown_until matches Some(until) ==> available(
                    keys,
                    key_id,
                    model,
                    now,
                ) == (now >= until))
                &&& s.cooldowns.contains_key(model) && s.cooldowns[model].cooldown_until is None
                    ==> available(keys, key_id, model, now)
            }
        },
{
}

/// What a key has used grows by the tokens of each request, as far as the counter goes; nothing
/// else about it changes, and nothing about any other key.
pub proof fn law_usage_adds_up(
    keys: Map<i64, KeyHealth>,
    key_id: i64,
    first: u64,
    second: u64,
    other: i64,
)
    ensures
        ({
            let before = state_or_fresh(keys, key_id);
            let once = with_usage(keys, key_id, first);
            &&& once.contains_key(key_id)
            &&& before.used_quota_this_period + first <= u64::MAX
                ==> once[key_id].used_quota_this_period == before.used_quota_this_period + first
            &&& before.used_quota_this_period + first > u64::MAX
                ==> once[key_id].used_quota_this_period == u64::MAX
            &&& once[key_id].status == before.status
            &&& once[key_id].cooldowns == before.cooldowns
            &&& other != key_id ==> once.contains_key(other) == keys.contains_key(other)
                && once[other] == keys[other]
            &&& first + second <= u64::MAX ==> with_usage(once, key_id, second) == with_usage(
                keys,
                key_id,
                (first + second) as u64,
            )
        }),
{
    let once = with_usage(keys, key_id, first);
    if first + second <= u64::MAX {
        assert(with_usage(once, key_id, second) =~= with_usage(
            keys,
            key_id,
            (first + second) as u64,
        ));
    }
}

/// A key of which nothing was known is active, has no cooldown and has used nothing.
pub proof fn law_unknown_keys_start_fresh(keys: Map<i64, KeyHealth>, key_id: i64, model: Seq<char>)
    requires
        !keys.contains_key(key_id),
    ensures
        ({
            let s = state_or_fresh(keys, key_id);
            &&& s.key_id == key_id
            &&& s.status == KeyStatus::Active
            &&& !s.cooldowns.contains_key(model)
            &&& s.used_quota_this_period == 0
        }),
{
}

/// A change of status changes the status of the keys that it names. What they have used stays; of
/// their cooldowns all stay or none, as was asked. Every other key stays as it was.
pub proof fn law_status_changes_only_named_keys(
    keys: Map<i64, KeyHealth>,
    ids: Seq<i64>,
    status: KeyStatus,
    keep_cooldowns: bool,
    key_id: i64,
    model: Seq<char>,
)
    ensures
        ({
            let after = each_with_status(keys, ids, status, keep_cooldowns);
            let before = state_or_fresh(keys, key_id);
            &&& ids.contains(key_id) ==> {
                &&& after.contains_key(key_id)
                &&& after[key_id].status == status
                &&& after[key_id].used_quota_this_period == before.used_quota_this_period
                &&& keep_cooldowns ==> after[key_id].cooldowns == before.cooldowns
                &&& !keep_cooldowns ==> !after[key_id].cooldowns.contains_key(model)
            }
            &&& !ids.contains(key_id) ==> {
                &&& after.contains_key(key_id) == keys.contains_key(key_id)
                &&& keys.contains_key(key_id) ==> after[key_id] == keys[key_id]
            }
        }),
{
    lemma_each_with_status(keys, ids, status, keep_cooldowns, key_id);
}

/// A recovery drops the cooldowns that have ended and keeps the others as they are; it changes
/// nothing else about a key.
pub proof fn law_recovery_drops_ended_cooldowns(
    keys: Map<i64, KeyHealth>,
    now: i64,
    key_id: i64,
    model: Seq<char>,
)
    requires
        keys.contains_key(key_id),
    ensures
        ({
            let s = keys[key_id];
            let r = recovered(keys, now)[key_id];
            &&& recovered(keys, now).contains_key(key_id)
            &&& r.status == s.status
            &&& r.used_quota_this_period == s.used_quota_this_period
            &&& r.cooldowns.contains_key(model) ==> s.cooldowns.contains_key(model)
                && r.cooldowns[model] == s.cooldowns[model]
            &&& s.cooldowns.contains_key(model) ==> (
            s.cooldowns[model].cooldown_until matches Some(until) ==> (r.cooldowns.contains_key(
                model,
            ) <==> until > now))
        }),
{
}

/// A quota is due where it has periods and was never reset, and where its last reset lies in
/// another period. A quota without a window is never due.
pub proof fn law_due_quotas(state: SmallModelState, now: i64)
    ensures
        state.window is None || state.window == Some(QuotaWindow::Total) ==> !due(state, now),
        state.window == Some(QuotaWindow::Day) && state.last_reset_at is None ==> due(state, now),
        state.window == Some(QuotaWindow::Month) && state.last_reset_at is None ==> due(state, now),
        state.window matches Some(w) ==> (state.last_reset_at matches Some(t) ==> due(state, now)
            == spec_period_rolled(w, Some(t), now)),
{
}

/// A reset of quotas empties those that are due, makes them available and notes the time; their
/// limits and windows stay, and so does every quota that is not due.
pub proof fn law_resets_empty_due_quotas(
    models: Map<(i64, Seq<char>), SmallModelState>,
    now: i64,
    k: (i64, Seq<char>),
)
    ensures
        after_resets(models, now).contains_key(k) == models.contains_key(k),
        models.contains_key(k) && !due(models[k], now) ==> after_resets(models, now)[k]
            == models[k],
        models.contains_key(k) && due(models[k], now) ==> {
            let r = after_resets(models, now)[k];
            &&& r.used == 0
            &&& r.status == QuotaStatus::Available
            &&& r.last_reset_at == Some(now)
            &&& r.limit == models[k].limit
            &&& r.window == models[k].window
            &&& r.channel_id == models[k].channel_id
            &&& r.upstream == models[k].upstream
        },
{
}

/// A model is available unless it has a limit and is exhausted.
pub proof fn law_models_are_available_until_exhausted(
    models: Map<(i64, Seq<char>), SmallModelState>,
    channel_id: i64,
    upstream: Seq<char>,
)
    ensures
        !model_available(models, channel_id, upstream) <==> {
            &&& models.contains_key((channel_id, upstream))
            &&& models[(channel_id, upstream)].limit is Some
            &&& models[(channel_id, upstream)].status == QuotaStatus::Exhausted
        },
{
}

/// The state of a model is that of the last row about it; where no row is about it, it stays.
pub proof fn law_last_row_counts(
    models: Map<(i64, Seq<char>), SmallModelState>,
    rows: Seq<SmallModelRow>,
    i: int,
    k: (i64, Seq<char>),
)
    requires
        forall|j: int|
            i < j < rows.len() ==> ((#[trigger] rows[j]).channel_id, rows[j].raw_model_name@) != k,
        -1 <= i < rows.len(),
        i >= 0 ==> (rows[i].channel_id, rows[i].raw_model_name@) == k,
    ensures
        i == -1 ==> with_rows(models, rows).contains_key(k) == models.contains_key(k)
            && with_rows(models, rows)[k] == models[k],
        i >= 0 ==> {
            let s = with_rows(models, rows)[k];
            &&& with_rows(models, rows).contains_key(k)
            &&& s.channel_id == rows[i].channel_id
            &&& s.upstream == rows[i].raw_model_name
            &&& s.limit == rows[i].quota_limit
            &&& s.used == rows[i].used_quota
            &&& s.last_reset_at == match rows[i].last_reset_at {
                Some(t) => spec_db_datetime(t@),
                None => None,
            }
            &&& s.window == match rows[i].quota_window {
                Some(w) => QuotaWindow::spec_from_db_str(w@),
                None => None,
            }
            &&& s.status == QuotaStatus::spec_from_db_str(rows[i].quota_status@)
        },
    decreases rows.len(),
{
    if i < rows.len() - 1 {
        let front = rows.drop_last();
        assert((rows.last().channel_id, rows.last().raw_model_name@) != k) by {
            assert(rows[rows.len() - 1] == rows.last());
        }
        assert forall|j: int| i < j < front.len() implies (
            (#[trigger] front[j]).channel_id,
            front[j].raw_model_name@,
        ) != k by {
            assert(front[j] == rows[j]);
        }
        law_last_row_counts(models, front, i, k);
    }
}

} // verus!
