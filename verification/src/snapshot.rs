//! Building the configuration snapshot from stored rows.
use vstd::prelude::*;

use crate::cache::{
    Binding, CacheData, QuotaState, QuotaStatus, QuotaUnit, QuotaWindow, RoutingStrategy,
};
use crate::router::{
    law_sort_is_permutation, law_sort_orders, lemma_insert_by_position, stable_sort,
};
use crate::table::Table;
use crate::types::{ChannelConfig, ChannelModelPricing, KeyConfig};

verus! {

/// A binding as it is stored, with its pricing where it has one.
pub struct BindingRow {
    pub binding: Binding,
    pub pricing: Option<ChannelModelPricing>,
}

/// The quota of an upstream model as it is stored.
pub struct QuotaRow {
    pub channel_id: i64,
    pub raw_model_name: String,
    pub quota_limit: Option<i64>,
    pub quota_unit: Option<String>,
    pub quota_window: Option<String>,
    pub used_quota: i64,
    pub last_reset_at: Option<String>,
    pub quota_status: String,
}

/// The order of the bindings of a model.
pub open spec fn binding_order() -> spec_fn(Binding) -> int {
    |b: Binding| b.priority as int
}

/// The bindings of the rows.
pub open spec fn row_bindings(rows: Seq<BindingRow>) -> Seq<Binding> {
    rows.map_values(|r: BindingRow| r.binding)
}

/// The pricing with that of the rows added, each under the model, the channel and the upstream
/// name.
pub open spec fn with_pricing(
    pricing: Map<(i64, i64, Seq<char>), ChannelModelPricing>,
    model_id: i64,
    rows: Seq<BindingRow>,
) -> Map<(i64, i64, Seq<char>), ChannelModelPricing>
    decreases rows.len(),
{
    if rows.len() == 0 {
        pricing
    } else {
        let front = with_pricing(pricing, model_id, rows.drop_last());
        let row = rows.last();
        match row.pricing {
            Some(p) => front.insert(
                (model_id, row.binding.channel_id, row.binding.upstream_model_name@),
                p,
            ),
            None => front,
        }
    }
}

/// The quota that a stored row describes.
pub open spec fn quota_of_row(row: QuotaRow) -> QuotaState {
    QuotaState {
        limit: row.quota_limit,
        unit: match row.quota_unit {
            Some(u) => QuotaUnit::spec_from_db_str(u@),
            None => None,
        },
        window: match row.quota_window {
            Some(w) => QuotaWindow::spec_from_db_str(w@),
            None => None,
        },
        used: row.used_quota,
        last_reset_at: row.last_reset_at,
        status: QuotaStatus::spec_from_db_str(row.quota_status@),
    }
}

impl CacheData {
    /// A snapshot that knows its channels and nothing else.
    pub fn with_channels(channels: Vec<ChannelConfig>) -> (r: Self)
        ensures
            r.channels == channels,
            r.keys@ == Map::<i64, Vec<KeyConfig>>::empty(),
            r.bindings@ == Map::<i64, Vec<Binding>>::empty(),
            r.channel_model_pricing@ == Map::<
                (i64, i64, Seq<char>),
                ChannelModelPricing,
            >::empty(),
            r.routing_strategy@ == Map::<i64, RoutingStrategy>::empty(),
            r.small_model_quota@ == Map::<(i64, Seq<char>), QuotaState>::empty(),
    {
        CacheData {
            channels,
            keys: Table::new(),
            bindings: Table::new(),
            channel_model_pricing: Table::new(),
            routing_strategy: Table::new(),
            small_model_quota: Table::new(),
        }
    }

    /// Adds the keys of a channel.
    pub fn add_keys(&mut self, channel_id: i64, keys: Vec<KeyConfig>)
        ensures
            final(self).keys@ == old(self).keys@.insert(channel_id, keys),
            final(self).channels == old(self).channels,
            final(self).bindings == old(self).bindings,
            final(self).channel_model_pricing == old(self).channel_model_pricing,
            final(self).routing_strategy == old(self).routing_strategy,
            final(self).small_model_quota == old(self).small_model_quota,
    {
        self.keys.insert(channel_id, keys);
    }

    /// Adds a model: its routing strategy, its bindings in the order of their priorities, and
    /// their pricing.
    pub fn add_model(&mut self, model_id: i64, strategy: &str, rows: Vec<BindingRow>)
        ensures
            final(self).routing_strategy@ == old(self).routing_strategy@.insert(
                model_id,
                RoutingStrategy::spec_from_db_str(strategy@),
            ),
            final(self).bindings@.contains_key(model_id),
            final(self).bindings@[model_id]@ == stable_sort(row_bindings(rows@), binding_order()),
            final(self).bindings@.remove(model_id) == old(self).bindings@.remove(model_id),
            final(self).channel_model_pricing@ == with_pricing(
                old(self).channel_model_pricing@,
                model_id,
                rows@,
            ),
            final(self).channels == old(self).channels,
            final(self).keys == old(self).keys,
            final(self).small_model_quota == old(self).small_model_quota,
    {
        self.routing_strategy.insert(model_id, RoutingStrategy::from_db_str(strategy));
        let ghost all = rows@;
        let ghost bs = row_bindings(all);
        let mut rest = rows;
        let mut sorted: Vec<Binding> = Vec::new();
        let ghost mut done: int = 0;
        proof {
            assert(all.take(0) =~= Seq::empty());
            assert(bs.take(0) =~= Seq::empty());
        }
        while rest.len() > 0
            invariant
                bs == row_bindings(all),
                0 <= done <= all.len(),
                rest@ == all.skip(done),
                sorted@ == stable_sort(bs.take(done), binding_order()),
                self.channel_model_pricing@ == with_pricing(
                    old(self).channel_model_pricing@,
                    model_id,
                    all.take(done),
                ),
                self.routing_strategy@ == old(self).routing_strategy@.insert(
                    model_id,
                    RoutingStrategy::spec_from_db_str(strategy@),
                ),
                self.bindings == old(self).bindings,
                self.channels == old(self).channels,
                self.keys == old(self).keys,
                self.small_model_quota == old(self).small_model_quota,
            ensures
                done == all.len(),
                sorted@ == stable_sort(bs.take(done), binding_order()),
                self.channel_model_pricing@ == with_pricing(
                    old(self).channel_model_pricing@,
                    model_id,
                    all.take(done),
                ),
            decreases rest@.len(),
        {
            let row = rest.remove(0);
            proof {
                assert(all.skip(done).remove(0) =~= all.skip(done + 1));
                assert(all.take(done + 1).drop_last() =~= all.take(done));
                assert(bs.take(done + 1).drop_last() =~= bs.take(done));
                assert(bs.take(done + 1).last() == row.binding);
                done = done + 1;
            }
            if let Some(p) = row.pricing {
                self.channel_model_pricing.insert(
                    (model_id, row.binding.channel_id, row.binding.upstream_model_name.clone()),
                    p,
                );
            }
            let x = row.binding;
            let mut p: usize = sorted.len();
            while p > 0 && sorted[p - 1].priority > x.priority
                invariant
                    p <= sorted@.len(),
                    forall|i: int|
                        p <= i < sorted@.len() ==> (#[trigger] sorted@[i]).priority > x.priority,
                ensures
                    p <= sorted@.len(),
                    p > 0 ==> sorted@[p - 1].priority <= x.priority,
                    forall|i: int|
                        p <= i < sorted@.len() ==> (#[trigger] sorted@[i]).priority > x.priority,
                decreases p,
            {
                p = p - 1;
            }
            proof {
                lemma_insert_by_position(sorted@, x, binding_order(), p as int);
            }
            sorted.insert(p, x);
        }
        proof {
            assert(all.take(done) =~= all);
            assert(bs.take(done) =~= bs);
        }
        self.bindings.insert(model_id, sorted);
        proof {
            assert(self.bindings@.remove(model_id) =~= old(self).bindings@.remove(model_id));
        }
    }

    /// Adds the quota of an upstream model.
    pub fn add_quota(&mut self, row: QuotaRow)
        ensures
            final(self).small_model_quota@ == old(self).small_model_quota@.insert(
                (row.channel_id, row.raw_model_name@),
                quota_of_row(row),
            ),
            final(self).channels == old(self).channels,
            final(self).keys == old(self).keys,
            final(self).bindings == old(self).bindings,
            final(self).channel_model_pricing == old(self).channel_model_pricing,
            final(self).routing_strategy == old(self).routing_strategy,
    {
        let unit = match &row.quota_unit {
            Some(u) => QuotaUnit::from_db_str(u.as_str()),
            None => None,
        };
        let window = match &row.quota_window {
            Some(w) => QuotaWindow::from_db_str(w.as_str()),
            None => None,
        };
        let status = QuotaStatus::from_db_str(row.quota_status.as_str());
        let state = QuotaState {
            limit: row.quota_limit,
            unit,
            window,
            used: row.used_quota,
            last_reset_at: row.last_reset_at,
            status,
        };
        proof {
            assert(state == quota_of_row(row));
        }
        self.small_model_quota.insert((row.channel_id, row.raw_model_name), state);
    }
}

/// Every model is asked for by its canonical name.
pub fn alias_mapping(models: Vec<(i64, String)>) -> (r: Vec<(String, (i64, String))>)
    ensures
        r@ == models@.map_values(|m: (i64, String)| (m.1, (m.0, m.1))),
{
    let ghost all = models@;
    let mut rest = models;
    let mut out: Vec<(String, (i64, String))> = Vec::new();
    while rest.len() > 0
        invariant
            out@.len() <= all.len(),
            rest@ == all.skip(out@.len() as int),
            forall|i: int|
                0 <= i < out@.len() ==> #[trigger] out@[i] == (all[i].1, (all[i].0, all[i].1)),
        ensures
            out@.len() == all.len(),
            forall|i: int|
                0 <= i < out@.len() ==> #[trigger] out@[i] == (all[i].1, (all[i].0, all[i].1)),
        decreases rest@.len(),
    {
        let ghost n = out@.len() as int;
        let (id, name) = rest.remove(0);
        proof {
            assert(all.skip(n).remove(0) =~= all.skip(n + 1));
        }
        let copy = name.clone();
        out.push((name, (id, copy)));
    }
    proof {
        assert(out@ =~= all.map_values(|m: (i64, String)| (m.1, (m.0, m.1))));
    }
    out
}

/// No two rows are of the same channel and upstream name.
pub open spec fn rows_are_distinct(rows: Seq<BindingRow>) -> bool {
    forall|i: int, j: int|
        #![trigger rows[i], rows[j]]
        0 <= i < j < rows.len() ==> rows[i].binding.channel_id != rows[j].binding.channel_id
            || rows[i].binding.upstream_model_name@ != rows[j].binding.upstream_model_name@
}

/// The pricing of a binding that was loaded is found under its model, its channel and its upstream
/// name, and the pricing of other models is as before.
pub proof fn law_loaded_pricing_is_found(
    pricing: Map<(i64, i64, Seq<char>), ChannelModelPricing>,
    model_id: i64,
    rows: Seq<BindingRow>,
)
    requires
        rows_are_distinct(rows),
    ensures
        forall|i: int|
            #![trigger rows[i]]
            0 <= i < rows.len() && rows[i].pricing is Some ==> {
                let key = (
                    model_id,
                    rows[i].binding.channel_id,
                    rows[i].binding.upstream_model_name@,
                );
                &&& with_pricing(pricing, model_id, rows).contains_key(key)
                &&& with_pricing(pricing, model_id, rows)[key] == rows[i].pricing->0
            },
        forall|key: (i64, i64, Seq<char>)|
            key.0 != model_id ==> {
                &&& #[trigger] with_pricing(pricing, model_id, rows).contains_key(key)
                    == pricing.contains_key(key)
                &&& pricing.contains_key(key) ==> with_pricing(pricing, model_id, rows)[key]
                    == pricing[key]
            },
    decreases rows.len(),
{
    if rows.len() > 0 {
        let front = rows.drop_last();
        assert(rows_are_distinct(front)) by {
            assert forall|i: int, j: int|
                #![trigger front[i], front[j]]
                0 <= i < j < front.len() implies front[i].binding.channel_id
                != front[j].binding.channel_id || front[i].binding.upstream_model_name@
                != front[j].binding.upstream_model_name@ by {
                assert(front[i] == rows[i] && front[j] == rows[j]);
            }
        }
        law_loaded_pricing_is_found(pricing, model_id, front);
        assert forall|i: int|
            #![trigger rows[i]]
            0 <= i < rows.len() && rows[i].pricing is Some implies {
            let key = (
                model_id,
                rows[i].binding.channel_id,
                rows[i].binding.upstream_model_name@,
            );
            &&& with_pricing(pricing, model_id, rows).contains_key(key)
            &&& with_pricing(pricing, model_id, rows)[key] == rows[i].pricing->0
        } by {
            if i < front.len() {
                assert(front[i] == rows[i]);
                assert(rows[rows.len() - 1] == rows.last());
            }
        }
        assert forall|key: (i64, i64, Seq<char>)| key.0 != model_id implies {
            &&& #[trigger] with_pricing(pricing, model_id, rows).contains_key(key)
                == pricing.contains_key(key)
            &&& pricing.contains_key(key) ==> with_pricing(pricing, model_id, rows)[key]
                == pricing[key]
        } by {
            assert(with_pricing(pricing, model_id, front).contains_key(key)
                == pricing.contains_key(key));
        }
    }
}

/// The bindings of a model are kept in the order of their priorities, each as often as it was
/// loaded.
pub proof fn law_loaded_bindings_are_ordered(rows: Seq<BindingRow>, i: int, j: int)
    requires
        0 <= i <= j < rows.len(),
    ensures
        stable_sort(row_bindings(rows), binding_order()).len() == rows.len(),
        stable_sort(row_bindings(rows), binding_order())[i].priority <= stable_sort(
            row_bindings(rows),
            binding_order(),
        )[j].priority,
        stable_sort(row_bindings(rows), binding_order()).to_multiset() == rows.map_values(
            |r: BindingRow| r.binding,
        ).to_multiset(),
{
    law_sort_orders(row_bindings(rows), binding_order());
    law_sort_is_permutation(row_bindings(rows), binding_order());
    let sorted = stable_sort(row_bindings(rows), binding_order());
    assert(binding_order()(sorted[i]) <= binding_order()(sorted[j]));
}

/// A quota is loaded field by field; a missing unit or window is none.
pub proof fn law_quotas_are_loaded_by_field(row: QuotaRow)
    ensures
        quota_of_row(row).limit == row.quota_limit,
        quota_of_row(row).used == row.used_quota,
        quota_of_row(row).last_reset_at == row.last_reset_at,
        quota_of_row(row).status == QuotaStatus::spec_from_db_str(row.quota_status@),
        row.quota_unit is None ==> quota_of_row(row).unit is None,
        row.quota_unit matches Some(u) ==> quota_of_row(row).unit == QuotaUnit::spec_from_db_str(
            u@,
        ),
        row.quota_window is None ==> quota_of_row(row).window is None,
        row.quota_window matches Some(w) ==> quota_of_row(row).window
            == QuotaWindow::spec_from_db_str(w@),
{
}

/// Loading the pricing of a model leaves every pricing that no row replaces as it was.
pub proof fn law_other_pricing_stays(
    pricing: Map<(i64, i64, Seq<char>), ChannelModelPricing>,
    model_id: i64,
    rows: Seq<BindingRow>,
    key: (i64, i64, Seq<char>),
)
    requires
        forall|i: int|
            0 <= i < rows.len() && (#[trigger] rows[i]).pricing is Some ==> (
                model_id,
                rows[i].binding.channel_id,
                rows[i].binding.upstream_model_name@,
            ) != key,
    ensures
        with_pricing(pricing, model_id, rows).contains_key(key) == pricing.contains_key(key),
        pricing.contains_key(key) ==> with_pricing(pricing, model_id, rows)[key] == pricing[key],
    decreases rows.len(),
{
    if rows.len() > 0 {
        let front = rows.drop_last();
        assert forall|i: int| 0 <= i < front.len() && (#[trigger] front[i]).pricing is Some implies (
            model_id,
            front[i].binding.channel_id,
            front[i].binding.upstream_model_name@,
        ) != key by {
            assert(front[i] == rows[i]);
        }
        assert(rows[rows.len() - 1] == rows.last());
        law_other_pricing_stays(pricing, model_id, front, key);
    }
}

} // verus!
