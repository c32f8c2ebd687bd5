//! The configuration snapshot that requests are routed by.
use vstd::prelude::*;

use crate::normalizer::Normalizer;
use crate::router::Candidate;
use crate::table::Table;
use crate::text::{same, trim, trimmed};
use crate::types::{copy_keys, copy_option, ChannelConfig, ChannelModelPricing, KeyConfig};

verus! {

/// How the bindings of a model share its requests.
#[derive(Debug, Clone, Copy, PartialEq, Eq, Structural)]
pub enum RoutingStrategy {
    Priority,
    LoadBalance,
}

impl Default for RoutingStrategy {
    fn default() -> (r: Self)
        ensures
            r == RoutingStrategy::Priority,
    {
        RoutingStrategy::Priority
    }
}

impl RoutingStrategy {
    pub open spec fn spec_from_db_str(s: Seq<char>) -> RoutingStrategy {
        if trim(s) == "load_balance"@ {
            RoutingStrategy::LoadBalance
        } else {
            RoutingStrategy::Priority
        }
    }

    /// The strategy of a stored name; any unknown name stands for priority order.
    pub fn from_db_str(s: &str) -> (r: Self)
        ensures
            r == Self::spec_from_db_str(s@),
    {
        if same(trimmed(s).as_str(), "load_balance") {
            RoutingStrategy::LoadBalance
        } else {
            RoutingStrategy::Priority
        }
    }
}

/// What a quota counts.
#[derive(Debug, Clone, Copy, PartialEq, Eq, Structural)]
pub enum QuotaUnit {
    Token,
    Call,
}

impl QuotaUnit {
    pub open spec fn spec_from_db_str(s: Seq<char>) -> Option<QuotaUnit> {
        if trim(s) == "token"@ {
            Some(QuotaUnit::Token)
        } else if trim(s) == "call"@ {
            Some(QuotaUnit::Call)
        } else {
            None
        }
    }

    pub fn from_db_str(s: &str) -> (r: Option<Self>)
        ensures
            r == Self::spec_from_db_str(s@),
    {
        let t = trimmed(s);
        if same(t.as_str(), "token") {
            Some(QuotaUnit::Token)
        } else if same(t.as_str(), "call") {
            Some(QuotaUnit::Call)
        } else {
            None
        }
    }
}

/// The period after which a quota starts anew.
#[derive(Debug, Clone, Copy, PartialEq, Eq, Structural)]
pub enum QuotaWindow {
    Day,
    Month,
    Total,
}

impl QuotaWindow {
    pub open spec fn spec_from_db_str(s: Seq<char>) -> Option<QuotaWindow> {
        if trim(s) == "day"@ {
            Some(QuotaWindow::Day)
        } else if trim(s) == "month"@ {
            Some(QuotaWindow::Month)
        } else if trim(s) == "total"@ {
            Some(QuotaWindow::Total)
        } else {
            None
        }
    }

    pub fn from_db_str(s: &str) -> (r: Option<Self>)
        ensures
            r == Self::spec_from_db_str(s@),
    {
        let t = trimmed(s);
        if same(t.as_str(), "day") {
            Some(QuotaWindow::Day)
        } else if same(t.as_str(), "month") {
            Some(QuotaWindow::Month)
        } else if same(t.as_str(), "total") {
            Some(QuotaWindow::Total)
        } else {
            None
        }
    }
}

/// Whether a quota has anything left.
#[derive(Debug, Clone, Copy, PartialEq, Eq, Structural)]
pub enum QuotaStatus {
    Available,
    Exhausted,
}

impl QuotaStatus {
    pub open spec fn spec_from_db_str(s: Seq<char>) -> QuotaStatus {
        if trim(s) == "exhausted"@ {
            QuotaStatus::Exhausted
        } else {
            QuotaStatus::Available
        }
    }

    pub open spec fn spec_as_db_str(self) -> Seq<char> {
        match self {
            QuotaStatus::Available => "available"@,
            QuotaStatus::Exhausted => "exhausted"@,
        }
    }

    /// The status of a stored name; any unknown name stands for an available quota.
    pub fn from_db_str(s: &str) -> (r: Self)
        ensures
            r == Self::spec_from_db_str(s@),
    {
        if same(trimmed(s).as_str(), "exhausted") {
            QuotaStatus::Exhausted
        } else {
            QuotaStatus::Available
        }
    }

    pub fn as_db_str(&self) -> (r: &'static str)
        ensures
            r@ == self.spec_as_db_str(),
    {
        match self {
            QuotaStatus::Available => "available",
            QuotaStatus::Exhausted => "exhausted",
        }
    }
}

/// A quota status that is stored by its name and read back is the same.
pub proof fn law_quota_status_round_trip(status: QuotaStatus)
    ensures
        QuotaStatus::spec_from_db_str(status.spec_as_db_str()) == status,
{
    reveal_strlit("available");
    reveal_strlit("exhausted");
    assert("available"@[0] == 'a');
    assert("exhausted"@[0] == 'e');
    assert("available"@.last() == 'e');
    assert("exhausted"@.last() == 'd');
}

/// The quota of an upstream model on a channel.
#[derive(Debug, PartialEq, Eq)]
pub struct QuotaState {
    pub limit: Option<i64>,
    pub unit: Option<QuotaUnit>,
    pub window: Option<QuotaWindow>,
    pub used: i64,
    pub last_reset_at: Option<String>,
    pub status: QuotaStatus,
}

impl Clone for QuotaState {
    fn clone(&self) -> (r: Self)
        ensures
            r == *self,
    {
        QuotaState {
            limit: self.limit,
            unit: self.unit,
            window: self.window,
            used: self.used,
            last_reset_at: copy_option(&self.last_reset_at),
            status: self.status,
        }
    }
}

/// A channel that serves a model, and the model's name there.
#[derive(Debug, PartialEq, Eq)]
pub struct Binding {
    pub channel_id: i64,
    pub upstream_model_name: String,
    pub priority: i32,
    pub weight: i32,
}

/// All that requests are routed by. Keys are listed by channel, bindings by model, pricing by
/// model, channel and upstream model, quotas by channel and upstream model.
pub struct CacheData {
    pub channels: Vec<ChannelConfig>,
    pub keys: Table<i64, Vec<KeyConfig>>,
    pub bindings: Table<i64, Vec<Binding>>,
    pub channel_model_pricing: Table<(i64, i64, String), ChannelModelPricing>,
    pub routing_strategy: Table<i64, RoutingStrategy>,
    pub small_model_quota: Table<(i64, String), QuotaState>,
}

/// The first channel with the given number.
pub open spec fn find_channel(channels: Seq<ChannelConfig>, id: i64) -> Option<ChannelConfig>
    decreases channels.len(),
{
    if channels.len() == 0 {
        None
    } else if channels[0].id == id {
        Some(channels[0])
    } else {
        find_channel(channels.drop_first(), id)
    }
}

impl CacheData {
    pub open spec fn spec_strategy(self, model_id: i64) -> RoutingStrategy {
        if self.routing_strategy@.contains_key(model_id) {
            self.routing_strategy@[model_id]
        } else {
            RoutingStrategy::Priority
        }
    }

    /// The candidate that a binding gives: none where its channel is unknown or has no keys.
    pub open spec fn candidate_matches(self, b: Binding, c: Candidate) -> bool {
        &&& find_channel(self.channels@, b.channel_id) == Some(c.0)
        &&& self.keys@.contains_key(b.channel_id)
        &&& c.1@ == self.keys@[b.channel_id]@
        &&& c.1@.len() > 0
        &&& c.2 == b.upstream_model_name
        &&& c.3 == b.priority
        &&& c.4 == b.weight
    }

    /// The binding can serve requests: its channel is known and has keys.
    pub open spec fn serves(self, b: Binding) -> bool {
        &&& find_channel(self.channels@, b.channel_id) is Some
        &&& self.keys@.contains_key(b.channel_id)
        &&& self.keys@[b.channel_id]@.len() > 0
    }

    /// `cs` are the candidates of those bindings that can serve requests, in their order.
    pub open spec fn candidates_of(self, bindings: Seq<Binding>, cs: Seq<Candidate>) -> bool
        decreases bindings.len(),
    {
        if bindings.len() == 0 {
            cs.len() == 0
        } else if self.serves(bindings.last()) {
            &&& cs.len() > 0
            &&& self.candidate_matches(bindings.last(), cs.last())
            &&& self.candidates_of(bindings.drop_last(), cs.drop_last())
        } else {
            self.candidates_of(bindings.drop_last(), cs)
        }
    }

    /// The bindings of a model.
    pub fn bindings_for(&self, model_id: i64) -> (r: Option<&Vec<Binding>>)
        ensures
            r == if self.bindings@.contains_key(model_id) {
                Some(&self.bindings@[model_id])
            } else {
                None
            },
    {
        self.bindings.get(&model_id)
    }

    /// The channel with the given number.
    pub fn channel(&self, channel_id: i64) -> (r: Option<&ChannelConfig>)
        ensures
            match r {
                Some(c) => find_channel(self.channels@, channel_id) == Some(*c),
                None => find_channel(self.channels@, channel_id) is None,
            },
    {
        let mut i: usize = 0;
        proof {
            assert(self.channels@.skip(0) =~= self.channels@);
        }
        while i < self.channels.len()
            invariant
                i <= self.channels@.len(),
                find_channel(self.channels@.skip(i as int), channel_id) == find_channel(
                    self.channels@,
                    channel_id,
                ),
            decreases self.channels@.len() - i,
        {
            proof {
                assert(self.channels@.skip(i as int)[0] == self.channels@[i as int]);
                assert(self.channels@.skip(i as int).drop_first() =~= self.channels@.skip(i + 1));
            }
            if self.channels[i].id == channel_id {
                return Some(&self.channels[i]);
            }
            i = i + 1;
        }
        None
    }

    /// The keys of a channel.
    pub fn keys_for(&self, channel_id: i64) -> (r: Option<&Vec<KeyConfig>>)
        ensures
            r == if self.keys@.contains_key(channel_id) {
                Some(&self.keys@[channel_id])
            } else {
                None
            },
    {
        self.keys.get(&channel_id)
    }

    /// The pricing of a model on a channel under an upstream name.
    pub fn pricing_for(&self, model_id: i64, channel_id: i64, upstream: &str) -> (r: Option<
        &ChannelModelPricing,
    >)
        ensures
            r == if self.channel_model_pricing@.contains_key((model_id, channel_id, upstream@)) {
                Some(&self.channel_model_pricing@[(model_id, channel_id, upstream@)])
            } else {
                None
            },
    {
        self.channel_model_pricing.get(&(model_id, channel_id, upstream.to_owned()))
    }

    /// The routing strategy of a model, priority order where none is set.
    pub fn routing_strategy_for(&self, model_id: i64) -> (r: RoutingStrategy)
        ensures
            r == self.spec_strategy(model_id),
    {
        match self.routing_strategy.get(&model_id) {
            Some(s) => *s,
            None => RoutingStrategy::Priority,
        }
    }

    /// The quota of an upstream model on a channel.
    pub fn small_model_quota_for(&self, channel_id: i64, upstream: &str) -> (r: Option<
        &QuotaState,
    >)
        ensures
            r == if self.small_model_quota@.contains_key((channel_id, upstream@)) {
                Some(&self.small_model_quota@[(channel_id, upstream@)])
            } else {
                None
            },
    {
        self.small_model_quota.get(&(channel_id, upstream.to_owned()))
    }

    /// The candidates of a model: for each binding whose channel is known and has keys, the
    /// channel with its keys.
    pub fn get_for_model(&self, model_id: i64) -> (r: Vec<Candidate>)
        ensures
            self.bindings@.contains_key(model_id) ==> self.candidates_of(
                self.bindings@[model_id]@,
                r@,
            ),
            !self.bindings@.contains_key(model_id) ==> r@.len() == 0,
    {
        let mut out: Vec<Candidate> = Vec::new();
        let bindings = match self.bindings_for(model_id) {
            Some(b) => b,
            None => {
                return out;
            },
        };
        let ghost all = bindings@;
        let mut i: usize = 0;
        proof {
            assert(all.take(0) =~= Seq::empty());
        }
        while i < bindings.len()
            invariant
                bindings@ == all,
                i <= all.len(),
                self.candidates_of(all.take(i as int), out@),
            decreases all.len() - i,
        {
            let b = &bindings[i];
            proof {
                assert(all.take(i + 1).drop_last() =~= all.take(i as int));
                assert(all.take(i + 1).last() == *b);
            }
            if let Some(channel) = self.channel(b.channel_id) {
                if let Some(keys) = self.keys_for(b.channel_id) {
                    if keys.len() > 0 {
                        let ghost before = out@;
                        out.push(
                            (
                                channel.clone(),
                                copy_keys(keys),
                                b.upstream_model_name.clone(),
                                b.priority,
                                b.weight,
                            ),
                        );
                        proof {
                            assert(out@.drop_last() =~= before);
                        }
                    }
                }
            }
            i = i + 1;
        }
        proof {
            assert(all.take(i as int) =~= all);
        }
        out
    }

    /// Sets what is used of a quota and its status, where the quota is known.
    pub fn update_small_model_quota(
        &mut self,
        channel_id: i64,
        upstream: &str,
        used: i64,
        status: QuotaStatus,
    )
        ensures
            final(self).small_model_quota@ == quota_updated(
                old(self).small_model_quota@,
                channel_id,
                upstream@,
                used,
                status,
            ),
            final(self).channels == old(self).channels,
            final(self).keys == old(self).keys,
            final(self).bindings == old(self).bindings,
            final(self).channel_model_pricing == old(self).channel_model_pricing,
            final(self).routing_strategy == old(self).routing_strategy,
    {
        let key = (channel_id, upstream.to_owned());
        let known: Option<QuotaState> = match self.small_model_quota.get(&key) {
            Some(s) => Some(s.clone()),
            None => None,
        };
        if let Some(state) = known {
            let next = QuotaState {
                limit: state.limit,
                unit: state.unit,
                window: state.window,
                used,
                last_reset_at: state.last_reset_at,
                status,
            };
            proof {
                assert(next == (QuotaState { used, status, ..state }));
            }
            self.small_model_quota.insert(key, next);
        }
    }
}

/// The quotas with what is used of one set, and its status; an unknown one stays unknown.
pub open spec fn quota_updated(
    quotas: Map<(i64, Seq<char>), QuotaState>,
    channel_id: i64,
    upstream: Seq<char>,
    used: i64,
    status: QuotaStatus,
) -> Map<(i64, Seq<char>), QuotaState> {
    let k = (channel_id, upstream);
    if quotas.contains_key(k) {
        quotas.insert(k, QuotaState { used, status, ..quotas[k] })
    } else {
        quotas
    }
}

/// The snapshot in use, if one is loaded, and the names that it resolves.
pub struct ConfigCache {
    pub data: Option<CacheData>,
    pub normalizer: Normalizer,
}

impl ConfigCache {
    /// A cache with nothing loaded.
    pub fn new(normalizer: Normalizer) -> (r: Self)
        ensures
            r.data is None,
            r.normalizer == normalizer,
    {
        ConfigCache { data: None, normalizer }
    }

    /// Forgets the snapshot, so that the next request loads another.
    pub fn invalidate(&mut self)
        ensures
            final(self).data is None,
            final(self).normalizer == old(self).normalizer,
    {
        self.data = None;
    }

    /// The snapshot, where one is loaded; otherwise one is to be loaded and stored first.
    pub fn get(&self) -> (r: Option<&CacheData>)
        ensures
            r == match self.data {
                Some(d) => Some(&d),
                None => None,
            },
    {
        match &self.data {
            Some(d) => Some(d),
            None => None,
        }
    }

    /// Stores a snapshot and the names that go with it.
    pub fn store(&mut self, snapshot: CacheData, alias_mapping: Vec<(String, (i64, String))>)
        ensures
            final(self).data == Some(snapshot),
            final(self).normalizer@ == crate::normalizer::normalized(alias_mapping@),
    {
        self.normalizer.reload(alias_mapping);
        self.data = Some(snapshot);
    }

    /// The candidates of a model in the snapshot; none where none is loaded.
    pub fn get_for_model(&self, model_id: i64) -> (r: Vec<Candidate>)
        ensures
            match self.data {
                Some(d) => if d.bindings@.contains_key(model_id) {
                    d.candidates_of(d.bindings@[model_id]@, r@)
                } else {
                    r@.len() == 0
                },
                None => r@.len() == 0,
            },
    {
        match &self.data {
            Some(d) => d.get_for_model(model_id),
            None => Vec::new(),
        }
    }

    /// The routing strategy of a model, priority order where none is set or nothing is loaded.
    pub fn routing_strategy_for(&self, model_id: i64) -> (r: RoutingStrategy)
        ensures
            r == match self.data {
                Some(d) => d.spec_strategy(model_id),
                None => RoutingStrategy::Priority,
            },
    {
        match &self.data {
            Some(d) => d.routing_strategy_for(model_id),
            None => RoutingStrategy::Priority,
        }
    }

    pub open spec fn spec_pricing(
        self,
        model_id: i64,
        channel_id: i64,
        upstream: Seq<char>,
    ) -> Option<ChannelModelPricing> {
        match self.data {
            Some(d) => if d.channel_model_pricing@.contains_key(
                (model_id, channel_id, upstream),
            ) {
                Some(d.channel_model_pricing@[(model_id, channel_id, upstream)])
            } else {
                None
            },
            None => None,
        }
    }

    /// The pricing of a model on a channel under an upstream name.
    pub fn get_channel_model_pricing(
        &self,
        model_id: i64,
        channel_id: i64,
        upstream: &str,
    ) -> (r: Option<ChannelModelPricing>)
        ensures
            r == self.spec_pricing(model_id, channel_id, upstream@),
    {
        match &self.data {
            Some(d) => match d.pricing_for(model_id, channel_id, upstream) {
                Some(p) => Some(p.clone()),
                None => None,
            },
            None => None,
        }
    }

    /// The quota of an upstream model on a channel.
    pub fn get_small_model_quota(&self, channel_id: i64, upstream: &str) -> (r: Option<QuotaState>)
        ensures
            r == self.spec_quota(channel_id, upstream@),
    {
        match &self.data {
            Some(d) => match d.small_model_quota_for(channel_id, upstream) {
                Some(q) => Some(q.clone()),
                None => None,
            },
            None => None,
        }
    }

    pub open spec fn spec_quota(self, channel_id: i64, upstream: Seq<char>) -> Option<QuotaState> {
        match self.data {
            Some(d) => if d.small_model_quota@.contains_key((channel_id, upstream)) {
                Some(d.small_model_quota@[(channel_id, upstream)])
            } else {
                None
            },
            None => None,
        }
    }

    /// Sets what is used of a quota and its status, where the quota is known; nothing else
    /// changes, and nothing is loaded for it.
    pub fn update_small_model_quota(
        &mut self,
        channel_id: i64,
        upstream: &str,
        used: i64,
        status: QuotaStatus,
    )
        ensures
            final(self).normalizer == old(self).normalizer,
            match (old(self).data, final(self).data) {
                (Some(d), Some(e)) => {
                    &&& e.small_model_quota@ == quota_updated(
                        d.small_model_quota@,
                        channel_id,
                        upstream@,
                        used,
                        status,
                    )
                    &&& e.channels == d.channels
                    &&& e.keys == d.keys
                    &&& e.bindings == d.bindings
                    &&& e.channel_model_pricing == d.channel_model_pricing
                    &&& e.routing_strategy == d.routing_strategy
                },
                (None, None) => true,
                _ => false,
            },
    {
        match self.data.take() {
            Some(d) => {
                let mut data = d;
                data.update_small_model_quota(channel_id, upstream, used, status);
                self.data = Some(data);
            },
            None => {},
        }
    }

    /// The names that the snapshot resolves.
    pub fn normalizer(&self) -> (r: &Normalizer)
        ensures
            *r == self.normalizer,
    {
        &self.normalizer
    }
}

/// The stored names of units, windows, strategies and states are read regardless of the space
/// around them. An unknown unit or window is none, an unknown strategy is that by priority, and an
/// unknown state is available.
pub proof fn law_stored_names_are_read(s: Seq<char>)
    ensures
        QuotaUnit::spec_from_db_str(s) == Some(QuotaUnit::Token) <==> trim(s) == "token"@,
        QuotaUnit::spec_from_db_str(s) == Some(QuotaUnit::Call) <==> trim(s) == "call"@,
        QuotaWindow::spec_from_db_str(s) == Some(QuotaWindow::Day) <==> trim(s) == "day"@,
        QuotaWindow::spec_from_db_str(s) == Some(QuotaWindow::Month) <==> trim(s) == "month"@,
        QuotaWindow::spec_from_db_str(s) == Some(QuotaWindow::Total) <==> trim(s) == "total"@,
        RoutingStrategy::spec_from_db_str(s) == RoutingStrategy::LoadBalance <==> trim(s)
            == "load_balance"@,
        QuotaStatus::spec_from_db_str(s) == QuotaStatus::Exhausted <==> trim(s) == "exhausted"@,
{
    reveal_strlit("token");
    reveal_strlit("call");
    reveal_strlit("day");
    reveal_strlit("month");
    reveal_strlit("total");
    assert("token"@.len() != "call"@.len());
    assert("day"@.len() != "month"@.len());
    assert("month"@[0] != "total"@[0]);
}

/// The channel that is found for a number is the first one with it.
pub proof fn law_first_channel_is_found(channels: Seq<ChannelConfig>, id: i64, i: int)
    requires
        0 <= i <= channels.len(),
        forall|j: int| 0 <= j < i ==> (#[trigger] channels[j]).id != id,
        i < channels.len() ==> channels[i].id == id,
    ensures
        i < channels.len() ==> find_channel(channels, id) == Some(channels[i]),
        i == channels.len() ==> find_channel(channels, id) is None,
    decreases channels.len(),
{
    if i > 0 {
        let rest = channels.drop_first();
        assert forall|j: int| 0 <= j < i - 1 implies (#[trigger] rest[j]).id != id by {
            assert(rest[j] == channels[j + 1]);
        }
        assert(channels[0].id != id);
        law_first_channel_is_found(rest, id, i - 1);
    }
}

/// A candidate stands for a binding: it is on the channel of the binding, has all keys of the
/// channel, and carries the binding's upstream name, priority and weight.
pub open spec fn stands_for(c: Candidate, b: Binding, keys: Map<i64, Vec<KeyConfig>>) -> bool {
    &&& c.0.id == b.channel_id
    &&& c.1@ == keys[b.channel_id]@
    &&& c.2 == b.upstream_model_name
    &&& c.3 == b.priority
    &&& c.4 == b.weight
}

proof fn lemma_found_channel(channels: Seq<ChannelConfig>, id: i64)
    ensures
        find_channel(channels, id) matches Some(c) ==> c.id == id && channels.contains(c),
        (exists|i: int| 0 <= i < channels.len() && (#[trigger] channels[i]).id == id)
            ==> find_channel(channels, id) is Some,
    decreases channels.len(),
{
    if channels.len() > 0 {
        lemma_found_channel(channels.drop_first(), id);
        if channels[0].id == id {
            assert(channels.contains(channels[0]));
        } else {
            if let Some(c) = find_channel(channels, id) {
                let j = choose|j: int|
                    0 <= j < channels.drop_first().len() && channels.drop_first()[j] == c;
                assert(channels[j + 1] == c);
            }
            if exists|i: int| 0 <= i < channels.len() && (#[trigger] channels[i]).id == id {
                let i = choose|i: int| 0 <= i < channels.len() && (#[trigger] channels[i]).id == id;
                assert(channels.drop_first()[i - 1].id == id);
            }
        }
    }
}

/// Every binding to a known channel with keys has a candidate that stands for it, and every
/// candidate stands for such a binding.
pub proof fn law_bindings_have_their_candidates(
    data: CacheData,
    bindings: Seq<Binding>,
    cs: Seq<Candidate>,
)
    requires
        data.candidates_of(bindings, cs),
    ensures
        cs.len() <= bindings.len(),
        forall|i: int|
            #![trigger bindings[i]]
            0 <= i < bindings.len() && (exists|n: int|
                0 <= n < data.channels@.len() && (#[trigger] data.channels@[n]).id
                    == bindings[i].channel_id) && data.keys@.contains_key(bindings[i].channel_id)
                && data.keys@[bindings[i].channel_id]@.len() > 0 ==> exists|j: int|
                0 <= j < cs.len() && stands_for(#[trigger] cs[j], bindings[i], data.keys@),
        forall|j: int|
            #![trigger cs[j]]
            0 <= j < cs.len() ==> cs[j].1@.len() > 0 && data.channels@.contains(cs[j].0)
                && exists|i: int|
                0 <= i < bindings.len() && stands_for(cs[j], #[trigger] bindings[i], data.keys@),
    decreases bindings.len(),
{
    if bindings.len() > 0 {
        let n = bindings.len() - 1;
        let front = bindings.drop_last();
        let last = bindings.last();
        lemma_found_channel(data.channels@, last.channel_id);
        let rest = if data.serves(last) {
            cs.drop_last()
        } else {
            cs
        };
        law_bindings_have_their_candidates(data, front, rest);
        assert forall|i: int|
            #![trigger bindings[i]]
            0 <= i < bindings.len() && (exists|m: int|
                0 <= m < data.channels@.len() && (#[trigger] data.channels@[m]).id
                    == bindings[i].channel_id) && data.keys@.contains_key(bindings[i].channel_id)
                && data.keys@[bindings[i].channel_id]@.len() > 0 implies exists|j: int|
            0 <= j < cs.len() && stands_for(#[trigger] cs[j], bindings[i], data.keys@) by {
            if i < n {
                assert(front[i] == bindings[i]);
                let j = choose|j: int|
                    0 <= j < rest.len() && stands_for(#[trigger] rest[j], front[i], data.keys@);
                assert(rest[j] == cs[j]);
            } else {
                assert(data.serves(last));
                assert(stands_for(cs[cs.len() - 1], bindings[i], data.keys@));
            }
        }
        assert forall|j: int|
            #![trigger cs[j]]
            0 <= j < cs.len() implies cs[j].1@.len() > 0 && data.channels@.contains(cs[j].0)
            && exists|i: int|
            0 <= i < bindings.len() && stands_for(cs[j], #[trigger] bindings[i], data.keys@) by {
            if j < rest.len() {
                assert(rest[j] == cs[j]);
                let i = choose|i: int|
                    0 <= i < front.len() && stands_for(rest[j], #[trigger] front[i], data.keys@);
                assert(front[i] == bindings[i]);
            } else {
                assert(stands_for(cs[j], bindings[n], data.keys@));
            }
        }
    }
}

/// An update of a quota changes what is used and the state of that quota. Its limit, unit, window
/// and last reset stay, and so does every other quota; an unknown quota is not created.
pub proof fn law_quota_updates_touch_their_quota(
    quotas: Map<(i64, Seq<char>), QuotaState>,
    channel_id: i64,
    upstream: Seq<char>,
    used: i64,
    status: QuotaStatus,
    other: (i64, Seq<char>),
)
    ensures
        ({
            let after = quota_updated(quotas, channel_id, upstream, used, status);
            let k = (channel_id, upstream);
            &&& after.contains_key(other) == quotas.contains_key(other)
            &&& other != k && quotas.contains_key(other) ==> after[other] == quotas[other]
            &&& quotas.contains_key(k) ==> {
                &&& after[k].used == used
                &&& after[k].status == status
                &&& after[k].limit == quotas[k].limit
                &&& after[k].unit == quotas[k].unit
                &&& after[k].window == quotas[k].window
                &&& after[k].last_reset_at == quotas[k].last_reset_at
            }
        }),
{
}

/// A model without a strategy of its own is routed by priority, any other by its strategy.
pub proof fn law_strategy_defaults_to_priority(data: CacheData, model_id: i64)
    ensures
        !data.routing_strategy@.contains_key(model_id) ==> data.spec_strategy(model_id)
            == RoutingStrategy::Priority,
        data.routing_strategy@.contains_key(model_id) ==> data.spec_strategy(model_id)
            == data.routing_strategy@[model_id],
{
}

/// The pricing and the quota that are found are those of the loaded configuration; before one is
/// loaded there are none.
pub proof fn law_lookups_read_the_loaded_configuration(
    cache: ConfigCache,
    model_id: i64,
    channel_id: i64,
    upstream: Seq<char>,
)
    ensures
        cache.data is None ==> cache.spec_pricing(model_id, channel_id, upstream) is None
            && cache.spec_quota(channel_id, upstream) is None,
        cache.data matches Some(d) ==> {
            &&& cache.spec_pricing(model_id, channel_id, upstream) is Some
                <==> d.channel_model_pricing@.contains_key((model_id, channel_id, upstream))
            &&& cache.spec_pricing(model_id, channel_id, upstream) matches Some(p) ==> p
                == d.channel_model_pricing@[(model_id, channel_id, upstream)]
            &&& cache.spec_quota(channel_id, upstream) is Some
                <==> d.small_model_quota@.contains_key((channel_id, upstream))
            &&& cache.spec_quota(channel_id, upstream) matches Some(q) ==> q
                == d.small_model_quota@[(channel_id, upstream)]
        },
{
}

/// The candidates of bindings stand in the order of the bindings: those of a longer list are those
/// of its front, followed by those of its back.
pub proof fn law_candidates_keep_the_order_of_bindings(
    data: CacheData,
    front: Seq<Binding>,
    back: Seq<Binding>,
    cs: Seq<Candidate>,
    ds: Seq<Candidate>,
)
    requires
        data.candidates_of(front, cs),
        data.candidates_of(back, ds),
    ensures
        data.candidates_of(front + back, cs + ds),
    decreases back.len(),
{
    if back.len() == 0 {
        assert(front + back =~= front);
        assert(cs + ds =~= cs);
    } else {
        assert((front + back).drop_last() =~= front + back.drop_last());
        assert((front + back).last() == back.last());
        if data.serves(back.last()) {
            assert((cs + ds).drop_last() =~= cs + ds.drop_last());
            law_candidates_keep_the_order_of_bindings(
                data,
                front,
                back.drop_last(),
                cs,
                ds.drop_last(),
            );
        } else {
            law_candidates_keep_the_order_of_bindings(data, front, back.drop_last(), cs, ds);
        }
    }
}

} // verus!
