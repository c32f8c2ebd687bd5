//! Which keys a request is tried on, and in which order.
use vstd::prelude::*;

use crate::cache::RoutingStrategy;
use crate::text::{chars_of, pieces, split, split_on, text_of, trim, trim_bounds, trimmed};
use crate::types::{ChannelConfig, KeyConfig};

verus! {

/// A key to try, with the channel it belongs to and the name of the model there.
#[derive(Debug, PartialEq, Eq)]
pub struct RoutedKey {
    pub channel: ChannelConfig,
    pub key: KeyConfig,
    pub upstream_model_name: String,
    pub binding_priority: i32,
    pub weight: i32,
}

impl Clone for RoutedKey {
    fn clone(&self) -> (r: Self)
        ensures
            r == *self,
    {
        RoutedKey {
            channel: self.channel.clone(),
            key: self.key.clone(),
            upstream_model_name: self.upstream_model_name.clone(),
            binding_priority: self.binding_priority,
            weight: self.weight,
        }
    }
}

/// A binding of a model: the channel, its keys, the model's name there, the binding's
/// priority and its weight.
pub type Candidate = (ChannelConfig, Vec<KeyConfig>, String, i32, i32);

/// One of the groups that `channel_group` lists is `user_group`, white space aside.
pub open spec fn group_allows(channel_group: Seq<char>, user_group: Seq<char>) -> bool {
    let groups = split_on(channel_group, ',');
    exists|i: int| 0 <= i < groups.len() && trim(#[trigger] groups[i]) == trim(user_group)
}

/// The key of a candidate, routed.
pub open spec fn routed(c: Candidate, key: KeyConfig) -> RoutedKey {
    RoutedKey {
        channel: c.0,
        key,
        upstream_model_name: c.2,
        binding_priority: c.3,
        weight: c.4,
    }
}

/// The routed keys of a candidate that the mask keeps, in their order.
pub open spec fn bucket_of(c: Candidate, keys: Seq<KeyConfig>, mask: Seq<bool>) -> Seq<RoutedKey>
    decreases keys.len(),
{
    if keys.len() == 0 {
        Seq::empty()
    } else {
        let front = bucket_of(c, keys.drop_last(), mask.take(keys.len() - 1));
        if mask[keys.len() - 1] {
            front.push(routed(c, keys.last()))
        } else {
            front
        }
    }
}

/// The buckets of the candidates whose group and quota allow them and that have a key left.
pub open spec fn buckets_of(
    cs: Seq<Candidate>,
    user_group: Seq<char>,
    quota: Seq<bool>,
    masks: Seq<Seq<bool>>,
) -> Seq<Seq<RoutedKey>>
    decreases cs.len(),
{
    if cs.len() == 0 {
        Seq::empty()
    } else {
        let n = cs.len() - 1;
        let front = buckets_of(cs.take(n), user_group, quota.take(n), masks.take(n));
        let bucket = bucket_of(cs[n], cs[n].1@, masks[n]);
        if group_allows(cs[n].0.group@, user_group) && quota[n] && bucket.len() > 0 {
            front.push(bucket)
        } else {
            front
        }
    }
}

/// The views of a list of buckets.
pub open spec fn buckets(v: Seq<Vec<RoutedKey>>) -> Seq<Seq<RoutedKey>> {
    v.map_values(|b: Vec<RoutedKey>| b@)
}

/// The filter can answer `verdict` for a channel and a model name.
pub open spec fn answers<Q: Fn(i64, &str) -> bool>(
    quota_filter: Q,
    id: i64,
    name: Seq<char>,
    verdict: bool,
) -> bool {
    exists|n: &str| n@ == name && #[trigger] call_ensures(quota_filter, (id, n), verdict)
}

/// `quota` holds what the filter said of each candidate whose group matches, `masks` what
/// `is_key_available` said of each key of a candidate that the filter let through.
pub open spec fn verdicts<A: Fn(i64) -> bool, Q: Fn(i64, &str) -> bool>(
    cs: Seq<Candidate>,
    user_group: Seq<char>,
    is_key_available: A,
    quota_filter: Q,
    quota: Seq<bool>,
    masks: Seq<Seq<bool>>,
) -> bool {
    &&& quota.len() == cs.len()
    &&& masks.len() == cs.len()
    &&& forall|i: int|
        0 <= i < cs.len() && group_allows((#[trigger] cs[i]).0.group@, user_group)
            ==> answers(quota_filter, cs[i].0.id, cs[i].2@, quota[i])
    &&& forall|i: int|
        0 <= i < cs.len() && group_allows((#[trigger] cs[i]).0.group@, user_group) && quota[i]
            ==> masks[i].len() == cs[i].1@.len()
    &&& forall|i: int, j: int|
        0 <= i < cs.len() && group_allows(cs[i].0.group@, user_group) && quota[i] && 0 <= j
            < cs[i].1@.len() ==> call_ensures(
            is_key_available,
            ((#[trigger] cs[i].1@[j]).id,),
            masks[i][j],
        )
}

/// `x` put into `s` behind the last element whose key is not greater than its own.
pub open spec fn insert_by<T>(s: Seq<T>, x: T, key: spec_fn(T) -> int) -> Seq<T>
    decreases s.len(),
{
    if s.len() == 0 || key(s.last()) <= key(x) {
        s.push(x)
    } else {
        insert_by(s.drop_last(), x, key).push(s.last())
    }
}

/// `s` sorted by a key; elements with equal keys keep their order.
pub open spec fn stable_sort<T>(s: Seq<T>, key: spec_fn(T) -> int) -> Seq<T>
    decreases s.len(),
{
    if s.len() == 0 {
        Seq::empty()
    } else {
        insert_by(stable_sort(s.drop_last(), key), s.last(), key)
    }
}

/// The order of the keys in a bucket.
pub open spec fn key_order() -> spec_fn(RoutedKey) -> int {
    |r: RoutedKey| r.key.key_priority as int
}

/// The priority of a bucket's binding, which its keys share.
pub open spec fn first_priority(b: Seq<RoutedKey>) -> int {
    if b.len() > 0 {
        b[0].binding_priority as int
    } else {
        i32::MAX as int
    }
}

/// The order of the buckets.
pub open spec fn bucket_order() -> spec_fn(Seq<RoutedKey>) -> int {
    |b: Seq<RoutedKey>| first_priority(b)
}

/// The buckets with the keys of each sorted by key priority.
pub open spec fn with_sorted_keys(bs: Seq<Seq<RoutedKey>>) -> Seq<Seq<RoutedKey>> {
    bs.map_values(|b: Seq<RoutedKey>| stable_sort(b, key_order()))
}

/// The buckets by the priority of their bindings, and the keys of each by their own.
pub open spec fn priority_order(bs: Seq<Seq<RoutedKey>>) -> Seq<Seq<RoutedKey>> {
    stable_sort(with_sorted_keys(bs), bucket_order())
}

/// The weight of a bucket in a draw: that of its binding, at least one.
pub open spec fn weight_of(b: Seq<RoutedKey>) -> int {
    if b.len() > 0 && b[0].weight > 1 {
        b[0].weight as int
    } else {
        1
    }
}

/// The sum of the weights.
pub open spec fn total_weight(bs: Seq<Seq<RoutedKey>>) -> int
    decreases bs.len(),
{
    if bs.len() == 0 {
        0
    } else {
        total_weight(bs.drop_last()) + weight_of(bs.last())
    }
}

/// The bucket on which a number below the total weight falls: the first one at which the
/// weights so far exceed it.
pub open spec fn pick_index(bs: Seq<Seq<RoutedKey>>, pick: int) -> int
    decreases bs.len(),
{
    if bs.len() == 0 {
        0
    } else if pick >= total_weight(bs.drop_last()) {
        bs.len() - 1
    } else {
        pick_index(bs.drop_last(), pick)
    }
}

proof fn lemma_pick_index_range(bs: Seq<Seq<RoutedKey>>, pick: int)
    requires
        bs.len() > 0,
        pick >= 0,
    ensures
        0 <= pick_index(bs, pick) < bs.len(),
    decreases bs.len(),
{
    if pick < total_weight(bs.drop_last()) {
        lemma_pick_index_range(bs.drop_last(), pick);
    }
}

/// One number for each draw without replacement, below the total weight of what is left.
pub open spec fn valid_draws(bs: Seq<Seq<RoutedKey>>, draws: Seq<int>) -> bool
    decreases draws.len(),
{
    if bs.len() == 0 {
        draws.len() == 0
    } else {
        &&& draws.len() == bs.len()
        &&& 0 <= draws[0] < total_weight(bs)
        &&& valid_draws(bs.remove(pick_index(bs, draws[0])), draws.drop_first())
    }
}

/// The buckets in the order in which the numbers draw them.
pub open spec fn drawn_order(bs: Seq<Seq<RoutedKey>>, draws: Seq<int>) -> Seq<Seq<RoutedKey>>
    decreases draws.len(),
{
    if bs.len() == 0 || draws.len() == 0 {
        Seq::empty()
    } else {
        let i = pick_index(bs, draws[0]);
        seq![bs[i]] + drawn_order(bs.remove(i), draws.drop_first())
    }
}

/// `out` is an order in which `bs` can be drawn.
pub open spec fn drawn_from(bs: Seq<Seq<RoutedKey>>, out: Seq<Seq<RoutedKey>>) -> bool {
    exists|draws: Seq<int>| #[trigger] valid_draws(bs, draws) && out == drawn_order(bs, draws)
}

/// `insert_by` inserts at the position that has no greater key before it and only greater
/// ones from it on.
pub proof fn lemma_insert_by_position<T>(s: Seq<T>, x: T, key: spec_fn(T) -> int, p: int)
    requires
        0 <= p <= s.len(),
        p > 0 ==> key(s[p - 1]) <= key(x),
        forall|i: int| p <= i < s.len() ==> key(#[trigger] s[i]) > key(x),
    ensures
        insert_by(s, x, key) == s.insert(p, x),
    decreases s.len(),
{
    if p == s.len() {
        assert(s.insert(p, x) =~= s.push(x));
        if s.len() > 0 {
            assert(s.last() == s[p - 1]);
        }
    } else {
        assert(key(s[s.len() - 1]) > key(x));
        lemma_insert_by_position(s.drop_last(), x, key, p);
        assert(s.drop_last().insert(p, x).push(s.last()) =~= s.insert(p, x));
    }
}

/// Sorting by a key of the image and mapping commute.
proof fn lemma_insert_by_map<T, U>(
    s: Seq<T>,
    x: T,
    f: spec_fn(T) -> U,
    key: spec_fn(U) -> int,
    lifted: spec_fn(T) -> int,
)
    requires
        forall|t: T| #[trigger] lifted(t) == key(f(t)),
    ensures
        insert_by(s, x, lifted).map_values(f) == insert_by(s.map_values(f), f(x), key),
    decreases s.len(),
{
    if s.len() == 0 || lifted(s.last()) <= lifted(x) {
        assert(s.push(x).map_values(f) =~= s.map_values(f).push(f(x)));
        if s.len() > 0 {
            assert(s.map_values(f).last() == f(s.last()));
        }
    } else {
        lemma_insert_by_map(s.drop_last(), x, f, key, lifted);
        assert(s.map_values(f).drop_last() =~= s.drop_last().map_values(f));
        assert(s.map_values(f).last() == f(s.last()));
        assert(insert_by(s.drop_last(), x, lifted).push(s.last()).map_values(f) =~= insert_by(
            s.drop_last(),
            x,
            lifted,
        ).map_values(f).push(f(s.last())));
    }
}

proof fn lemma_stable_sort_map<T, U>(
    s: Seq<T>,
    f: spec_fn(T) -> U,
    key: spec_fn(U) -> int,
    lifted: spec_fn(T) -> int,
)
    requires
        forall|t: T| #[trigger] lifted(t) == key(f(t)),
    ensures
        stable_sort(s, lifted).map_values(f) == stable_sort(s.map_values(f), key),
    decreases s.len(),
{
    if s.len() > 0 {
        lemma_stable_sort_map(s.drop_last(), f, key, lifted);
        lemma_insert_by_map(stable_sort(s.drop_last(), lifted), s.last(), f, key, lifted);
        assert(s.map_values(f).drop_last() =~= s.drop_last().map_values(f));
        assert(s.map_values(f).last() == f(s.last()));
    } else {
        assert(stable_sort(s, lifted).map_values(f) =~= stable_sort(s.map_values(f), key));
    }
}

proof fn lemma_insert_by_multiset<T>(s: Seq<T>, x: T, key: spec_fn(T) -> int)
    ensures
        insert_by(s, x, key).to_multiset() == s.to_multiset().insert(x),
    decreases s.len(),
{
    broadcast use vstd::seq_lib::group_to_multiset_ensures;

    if s.len() > 0 && key(s.last()) > key(x) {
        let t = s.drop_last();
        lemma_insert_by_multiset(t, x, key);
        assert(s =~= t.push(s.last()));
        assert(t.to_multiset().insert(x).insert(s.last()) =~= t.to_multiset().insert(
            s.last(),
        ).insert(x));
    }
}

/// Sorting keeps every element as often as it occurs.
pub proof fn law_sort_is_permutation<T>(s: Seq<T>, key: spec_fn(T) -> int)
    ensures
        stable_sort(s, key).to_multiset() == s.to_multiset(),
    decreases s.len(),
{
    broadcast use vstd::seq_lib::group_to_multiset_ensures;

    if s.len() > 0 {
        let t = s.drop_last();
        law_sort_is_permutation(t, key);
        lemma_insert_by_multiset(stable_sort(t, key), s.last(), key);
        assert(s =~= t.push(s.last()));
    }
}

/// The keys of `s` do not decrease.
pub open spec fn sorted_by<T>(s: Seq<T>, key: spec_fn(T) -> int) -> bool {
    forall|i: int, j: int|
        #![trigger s[i], s[j]]
        0 <= i <= j < s.len() ==> key(s[i]) <= key(s[j])
}

proof fn lemma_insert_by_sorted<T>(s: Seq<T>, x: T, key: spec_fn(T) -> int)
    requires
        sorted_by(s, key),
    ensures
        sorted_by(insert_by(s, x, key), key),
        insert_by(s, x, key).len() == s.len() + 1,
        key(insert_by(s, x, key).last()) == if s.len() > 0 && key(s.last()) > key(x) {
            key(s.last())
        } else {
            key(x)
        },
    decreases s.len(),
{
    let r = insert_by(s, x, key);
    if s.len() > 0 && key(s.last()) > key(x) {
        let t = s.drop_last();
        assert(sorted_by(t, key)) by {
            assert forall|i: int, j: int|
                #![trigger t[i], t[j]]
                0 <= i <= j < t.len() implies key(t[i]) <= key(t[j]) by {
                assert(key(s[i]) <= key(s[j]));
            }
        }
        lemma_insert_by_sorted(t, x, key);
        let q = insert_by(t, x, key);
        if t.len() > 0 {
            assert(key(s[t.len() - 1]) <= key(s[s.len() - 1]));
            assert(t.last() == s[t.len() - 1]);
        }
        assert forall|i: int, j: int|
            #![trigger r[i], r[j]]
            0 <= i <= j < r.len() implies key(r[i]) <= key(r[j]) by {
            if j < q.len() {
                assert(key(q[i]) <= key(q[j]));
            } else if i < q.len() {
                assert(key(q[i]) <= key(q[q.len() - 1]));
            }
        }
    } else {
        assert forall|i: int, j: int|
            #![trigger r[i], r[j]]
            0 <= i <= j < r.len() implies key(r[i]) <= key(r[j]) by {
            if j < s.len() {
                assert(key(s[i]) <= key(s[j]));
            } else if i < s.len() {
                assert(key(s[i]) <= key(s[s.len() - 1]));
            }
        }
    }
}

/// Sorting puts the keys in order.
pub proof fn law_sort_orders<T>(s: Seq<T>, key: spec_fn(T) -> int)
    ensures
        sorted_by(stable_sort(s, key), key),
        stable_sort(s, key).len() == s.len(),
    decreases s.len(),
{
    if s.len() > 0 {
        law_sort_orders(s.drop_last(), key);
        lemma_insert_by_sorted(stable_sort(s.drop_last(), key), s.last(), key);
    }
}

proof fn lemma_push_filter<T>(s: Seq<T>, x: T, p: spec_fn(T) -> bool)
    ensures
        s.push(x).filter(p) == if p(x) {
            s.filter(p).push(x)
        } else {
            s.filter(p)
        },
{
    reveal(Seq::filter);
    assert(s.push(x).drop_last() =~= s);
}

proof fn lemma_insert_by_filter<T>(
    s: Seq<T>,
    x: T,
    key: spec_fn(T) -> int,
    k: int,
    p: spec_fn(T) -> bool,
)
    requires
        forall|t: T| #[trigger] p(t) == (key(t) == k),
    ensures
        insert_by(s, x, key).filter(p) == s.push(x).filter(p),
    decreases s.len(),
{
    if s.len() > 0 && key(s.last()) > key(x) {
        let t = s.drop_last();
        lemma_insert_by_filter(t, x, key, k, p);
        lemma_push_filter(insert_by(t, x, key), s.last(), p);
        lemma_push_filter(t, x, p);
        lemma_push_filter(s, x, p);
        assert(s =~= t.push(s.last()));
        lemma_push_filter(t, s.last(), p);
    }
}

/// Sorting keeps the order of elements with equal keys: those with any one key stand in the
/// result as they stood before.
pub proof fn law_sort_is_stable<T>(s: Seq<T>, key: spec_fn(T) -> int, k: int)
    ensures
        stable_sort(s, key).filter(|t: T| key(t) == k) == s.filter(|t: T| key(t) == k),
    decreases s.len(),
{
    let p = |t: T| key(t) == k;
    if s.len() > 0 {
        let t = s.drop_last();
        let q = stable_sort(t, key);
        law_sort_is_stable(t, key, k);
        lemma_insert_by_filter(q, s.last(), key, k, p);
        lemma_push_filter(q, s.last(), p);
        lemma_push_filter(t, s.last(), p);
        assert(s =~= t.push(s.last()));
    }
}

/// The keys of `s` increase.
pub open spec fn increasing_by<T>(s: Seq<T>, key: spec_fn(T) -> int) -> bool {
    forall|i: int, j: int|
        #![trigger s[i], s[j]]
        0 <= i < j < s.len() ==> key(s[i]) < key(s[j])
}

proof fn lemma_sorted_is_unique<T>(got: Seq<T>, want: Seq<T>, key: spec_fn(T) -> int)
    requires
        sorted_by(got, key),
        increasing_by(want, key),
        got.to_multiset() == want.to_multiset(),
    ensures
        got == want,
    decreases want.len(),
{
    broadcast use vstd::seq_lib::group_to_multiset_ensures;

    assert(got.to_multiset().len() == got.len());
    assert(want.to_multiset().len() == want.len());
    if want.len() == 0 {
        assert(got =~= want);
    } else {
        let n = want.len() - 1;
        assert(want.contains(want[n]));
        assert(want.to_multiset().count(want[n]) > 0);
        assert(got.to_multiset().count(want[n]) > 0);
        assert(got.contains(want[n]));
        assert(got.contains(got[n]));
        assert(got.to_multiset().count(got[n]) > 0);
        assert(want.contains(got[n]));
        let a = choose|i: int| 0 <= i < got.len() && got[i] == want[n];
        let b = choose|i: int| 0 <= i < want.len() && want[i] == got[n];
        assert(key(got[a]) <= key(got[n]));
        if b < n {
            assert(key(want[b]) < key(want[n]));
        }
        assert(got[n] == want[n]);
        let g = got.drop_last();
        let w = want.drop_last();
        assert(got =~= g.push(got[n]));
        assert(want =~= w.push(want[n]));
        assert(g.to_multiset() =~= got.to_multiset().remove(got[n]));
        assert(w.to_multiset() =~= want.to_multiset().remove(want[n]));
        assert(sorted_by(g, key));
        assert(increasing_by(w, key));
        lemma_sorted_is_unique(g, w, key);
    }
}

/// Sorting brings elements with different keys into the one order in which the keys increase,
/// whatever order they came in.
pub proof fn law_sort_restores_order<T>(shuffled: Seq<T>, ordered: Seq<T>, key: spec_fn(T) -> int)
    requires
        increasing_by(ordered, key),
        shuffled.to_multiset() == ordered.to_multiset(),
    ensures
        stable_sort(shuffled, key) == ordered,
{
    law_sort_is_permutation(shuffled, key);
    law_sort_orders(shuffled, key);
    lemma_sorted_is_unique(stable_sort(shuffled, key), ordered, key);
}

/// The keys of a bucket, sorted by key priority.
fn sort_keys(bucket: Vec<RoutedKey>) -> (r: Vec<RoutedKey>)
    ensures
        r@ == stable_sort(bucket@, key_order()),
{
    let mut rest = bucket;
    let mut out: Vec<RoutedKey> = Vec::new();
    let ghost all = rest@;
    let ghost mut done: int = 0;
    proof {
        assert(all.take(0) =~= Seq::empty());
    }
    while rest.len() > 0
        invariant
            0 <= done <= all.len(),
            rest@ == all.skip(done),
            out@ == stable_sort(all.take(done), key_order()),
        ensures
            out@ == stable_sort(all.take(done), key_order()),
            done == all.len(),
        decreases rest@.len(),
    {
        let x = rest.remove(0);
        let mut p: usize = out.len();
        while p > 0 && out[p - 1].key.key_priority > x.key.key_priority
            invariant
                p <= out@.len(),
                forall|i: int|
                    p <= i < out@.len() ==> (#[trigger] out@[i]).key.key_priority
                        > x.key.key_priority,
            ensures
                p <= out@.len(),
                p > 0 ==> out@[p - 1].key.key_priority <= x.key.key_priority,
                forall|i: int|
                    p <= i < out@.len() ==> (#[trigger] out@[i]).key.key_priority
                        > x.key.key_priority,
            decreases p,
        {
            p = p - 1;
        }
        proof {
            lemma_insert_by_position(out@, x, key_order(), p as int);
            assert(all.take(done + 1).drop_last() =~= all.take(done));
            assert(all.take(done + 1).last() == x);
            assert(all.skip(done).remove(0) =~= all.skip(done + 1));
            done = done + 1;
        }
        out.insert(p, x);
    }
    proof {
        assert(all.take(done) =~= all);
    }
    out
}

/// The priority of a bucket's binding.
fn priority_of(bucket: &Vec<RoutedKey>) -> (r: i32)
    ensures
        r == first_priority(bucket@),
{
    if bucket.len() > 0 {
        bucket[0].binding_priority
    } else {
        i32::MAX
    }
}

/// The buckets, sorted by the priority of their bindings.
fn sort_buckets(groups: Vec<Vec<RoutedKey>>) -> (r: Vec<Vec<RoutedKey>>)
    ensures
        buckets(r@) == stable_sort(buckets(groups@), bucket_order()),
{
    let mut rest = groups;
    let mut out: Vec<Vec<RoutedKey>> = Vec::new();
    let ghost all = rest@;
    let ghost order = |b: Vec<RoutedKey>| first_priority(b@);
    let ghost mut done: int = 0;
    proof {
        assert(all.take(0) =~= Seq::empty());
    }
    while rest.len() > 0
        invariant
            0 <= done <= all.len(),
            rest@ == all.skip(done),
            order == |b: Vec<RoutedKey>| first_priority(b@),
            out@ == stable_sort(all.take(done), order),
        ensures
            out@ == stable_sort(all.take(done), order),
            done == all.len(),
        decreases rest@.len(),
    {
        let x = rest.remove(0);
        let key = priority_of(&x);
        let mut p: usize = out.len();
        while p > 0 && priority_of(&out[p - 1]) > key
            invariant
                p <= out@.len(),
                forall|i: int| p <= i < out@.len() ==> first_priority((#[trigger] out@[i])@) > key,
            ensures
                p <= out@.len(),
                p > 0 ==> first_priority(out@[p - 1]@) <= key,
                forall|i: int| p <= i < out@.len() ==> first_priority((#[trigger] out@[i])@) > key,
            decreases p,
        {
            p = p - 1;
        }
        proof {
            lemma_insert_by_position(out@, x, order, p as int);
            assert(all.take(done + 1).drop_last() =~= all.take(done));
            assert(all.take(done + 1).last() == x);
            assert(all.skip(done).remove(0) =~= all.skip(done + 1));
            done = done + 1;
        }
        out.insert(p, x);
    }
    proof {
        assert(all.take(done) =~= all);
        lemma_stable_sort_map(all, |b: Vec<RoutedKey>| b@, bucket_order(), order);
    }
    out
}

/// The keys of every bucket sorted, and the buckets by priority.
pub fn route_priority(groups: Vec<Vec<RoutedKey>>) -> (r: Vec<Vec<RoutedKey>>)
    ensures
        buckets(r@) == priority_order(buckets(groups@)),
{
    let mut rest = groups;
    let mut out: Vec<Vec<RoutedKey>> = Vec::new();
    let ghost all = rest@;
    while rest.len() > 0
        invariant
            out@.len() <= all.len(),
            rest@ == all.skip(out@.len() as int),
            forall|i: int|
                0 <= i < out@.len() ==> (#[trigger] out@[i])@ == stable_sort(all[i]@, key_order()),
        ensures
            out@.len() == all.len(),
            forall|i: int|
                0 <= i < out@.len() ==> (#[trigger] out@[i])@ == stable_sort(all[i]@, key_order()),
        decreases rest@.len(),
    {
        let ghost n = out@.len() as int;
        let bucket = rest.remove(0);
        proof {
            assert(all.skip(n).remove(0) =~= all.skip(n + 1));
        }
        out.push(sort_keys(bucket));
    }
    proof {
        assert(buckets(out@) =~= with_sorted_keys(buckets(all)));
    }
    sort_buckets(out)
}

/// Two lists of candidates give the same buckets where they agree on the groups, and the quota
/// verdicts and buckets agree wherever they count.
pub proof fn lemma_buckets_agree(
    cs: Seq<Candidate>,
    quota: Seq<bool>,
    masks: Seq<Seq<bool>>,
    ds: Seq<Candidate>,
    quota2: Seq<bool>,
    masks2: Seq<Seq<bool>>,
    user_group: Seq<char>,
)
    requires
        quota.len() == cs.len(),
        masks.len() == cs.len(),
        ds.len() == cs.len(),
        quota2.len() == cs.len(),
        masks2.len() == cs.len(),
        forall|i: int| 0 <= i < cs.len() ==> (#[trigger] cs[i]).0 == ds[i].0,
        forall|i: int|
            0 <= i < cs.len() && group_allows((#[trigger] cs[i]).0.group@, user_group) ==> {
                &&& quota[i] == quota2[i]
                &&& quota[i] ==> bucket_of(cs[i], cs[i].1@, masks[i]) == bucket_of(
                    ds[i],
                    ds[i].1@,
                    masks2[i],
                )
            },
    ensures
        buckets_of(cs, user_group, quota, masks) == buckets_of(ds, user_group, quota2, masks2),
    decreases cs.len(),
{
    if cs.len() > 0 {
        let n = cs.len() - 1;
        assert forall|i: int| 0 <= i < n implies (#[trigger] cs.take(n)[i]).0 == ds.take(n)[i].0 by {
            assert(cs[i].0 == ds[i].0);
        }
        assert forall|i: int|
            0 <= i < n && group_allows((#[trigger] cs.take(n)[i]).0.group@, user_group) implies {
            &&& quota.take(n)[i] == quota2.take(n)[i]
            &&& quota.take(n)[i] ==> bucket_of(
                cs.take(n)[i],
                cs.take(n)[i].1@,
                masks.take(n)[i],
            ) == bucket_of(ds.take(n)[i], ds.take(n)[i].1@, masks2.take(n)[i])
        } by {
            assert(cs.take(n)[i] == cs[i]);
        }
        lemma_buckets_agree(
            cs.take(n),
            quota.take(n),
            masks.take(n),
            ds.take(n),
            quota2.take(n),
            masks2.take(n),
            user_group,
        );
        assert(cs[n].0 == ds[n].0);
    }
}

/// The weight of a bucket in a draw.
fn binding_weight(bucket: &Vec<RoutedKey>) -> (r: i128)
    ensures
        r == weight_of(bucket@),
        1 <= r <= i32::MAX,
{
    if bucket.len() > 0 && bucket[0].weight > 1 {
        bucket[0].weight as i128
    } else {
        1
    }
}

proof fn lemma_total_weight_bounds(bs: Seq<Seq<RoutedKey>>)
    ensures
        bs.len() <= total_weight(bs) <= bs.len() * i32::MAX,
    decreases bs.len(),
{
    if bs.len() > 0 {
        lemma_total_weight_bounds(bs.drop_last());
        assert(bs.len() * i32::MAX == (bs.len() - 1) * i32::MAX + i32::MAX) by (nonlinear_arith);
    }
}

proof fn lemma_total_weight_step(bs: Seq<Seq<RoutedKey>>, i: int)
    requires
        0 <= i < bs.len(),
    ensures
        total_weight(bs.take(i + 1)) == total_weight(bs.take(i)) + weight_of(bs[i]),
{
    assert(bs.take(i + 1).drop_last() =~= bs.take(i));
}

proof fn lemma_total_weight_monotone(bs: Seq<Seq<RoutedKey>>, i: int, j: int)
    requires
        0 <= i <= j <= bs.len(),
    ensures
        total_weight(bs.take(i)) <= total_weight(bs.take(j)),
    decreases j - i,
{
    if i < j {
        lemma_total_weight_step(bs, i);
        lemma_total_weight_monotone(bs, i + 1, j);
    }
}

/// Of the numbers below the total weight, as many fall on a bucket as it has weight: those from
/// the sum of the weights before it up to that sum plus its own.
pub proof fn law_draw_shares_by_weight(bs: Seq<Seq<RoutedKey>>, pick: int, i: int)
    requires
        0 <= pick < total_weight(bs),
        0 <= i < bs.len(),
    ensures
        pick_index(bs, pick) == i <==> total_weight(bs.take(i)) <= pick < total_weight(bs.take(i))
            + weight_of(bs[i]),
    decreases bs.len(),
{
    let front = bs.drop_last();
    assert(bs.take(front.len() as int) =~= front);
    if i < front.len() {
        assert(front.take(i) =~= bs.take(i));
        assert(front[i] == bs[i]);
        lemma_total_weight_step(bs, i);
        lemma_total_weight_monotone(bs, i + 1, front.len() as int);
        if pick < total_weight(front) {
            law_draw_shares_by_weight(front, pick, i);
        }
    } else if pick < total_weight(front) {
        lemma_total_weight_bounds(front);
        assert(front.len() > 0);
        lemma_pick_index_range(front, pick);
    }
}

proof fn lemma_remove_multiset<T>(s: Seq<T>, i: int)
    requires
        0 <= i < s.len(),
    ensures
        s.to_multiset() == s.remove(i).to_multiset().insert(s[i]),
{
    broadcast use vstd::seq_lib::group_to_multiset_ensures;

    assert(s.to_multiset().count(s[i]) > 0) by {
        assert(s.contains(s[i]));
    }
    assert(s.remove(i).to_multiset() == s.to_multiset().remove(s[i]));
    assert(s.to_multiset().remove(s[i]).insert(s[i]) =~= s.to_multiset());
}

/// However the numbers are drawn, every bucket comes out exactly once.
pub proof fn law_draws_permute(bs: Seq<Seq<RoutedKey>>, draws: Seq<int>)
    requires
        valid_draws(bs, draws),
    ensures
        drawn_order(bs, draws).to_multiset() == bs.to_multiset(),
    decreases bs.len(),
{
    let out = drawn_order(bs, draws);
    if bs.len() > 0 {
        let i = pick_index(bs, draws[0]);
        lemma_pick_index_range(bs, draws[0]);
        law_draws_permute(bs.remove(i), draws.drop_first());
        lemma_remove_multiset(bs, i);
        lemma_remove_multiset(out, 0);
        assert(out.remove(0) =~= drawn_order(bs.remove(i), draws.drop_first()));
    } else {
        assert(out =~= bs);
    }
}

/// `Rng::gen_range` of the crate `rand` on the thread's generator: some number from zero up to,
/// but not with, `bound`. Which one is left to chance. It panics where the machine gives no random
/// bytes to seed the generator.
#[verifier::external_body]
fn random_below(bound: i128) -> (r: i128)
    requires
        0 < bound,
    ensures
        0 <= r < bound,
{
    rand::Rng::gen_range(&mut rand::thread_rng(), 0..bound)
}

/// The sum of the weights of the buckets.
pub fn sum_of_weights(groups: &Vec<Vec<RoutedKey>>) -> (r: i128)
    ensures
        r == total_weight(buckets(groups@)),
        groups@.len() > 0 ==> r > 0,
{
    let n: usize = groups.len();
    let ghost bs = buckets(groups@);
    let mut total: i128 = 0;
    let mut i: usize = 0;
    while i < n
        invariant
            n == groups@.len(),
            i <= n,
            bs == buckets(groups@),
            total == total_weight(bs.take(i as int)),
            0 <= total <= i * i32::MAX,
        decreases n - i,
    {
        proof {
            lemma_total_weight_step(bs, i as int);
            assert(i * i32::MAX + i32::MAX == (i + 1) * i32::MAX) by (nonlinear_arith);
            assert((i + 1) * i32::MAX <= 0x1_0000_0000_0000_0000 * 0x8000_0000) by (nonlinear_arith)
                requires
                    0 <= i,
                    i + 1 <= 0x1_0000_0000_0000_0000,
            ;
        }
        total = total + binding_weight(&groups[i]);
        i = i + 1;
    }
    proof {
        assert(bs.take(n as int) =~= bs);
        lemma_total_weight_bounds(bs);
    }
    total
}

/// Takes out the bucket on which the number `pick` falls.
pub fn draw(groups: &mut Vec<Vec<RoutedKey>>, pick: i128) -> (r: Vec<RoutedKey>)
    requires
        0 <= pick < total_weight(buckets(old(groups)@)),
    ensures
        0 <= pick_index(buckets(old(groups)@), pick as int) < old(groups)@.len(),
        r == old(groups)@[pick_index(buckets(old(groups)@), pick as int)],
        final(groups)@ == old(groups)@.remove(pick_index(buckets(old(groups)@), pick as int)),
{
    let ghost before = groups@;
    let ghost bs = buckets(before);
    let n: usize = groups.len();
    let mut acc: i128 = 0;
    let mut i: usize = 0;
    proof {
        assert(bs.take(n as int) =~= bs);
        lemma_total_weight_bounds(bs);
    }
    while i < n
        invariant_except_break
            groups@ == before,
            bs == buckets(before),
            n == before.len(),
            i <= n,
            bs.take(n as int) == bs,
            0 <= pick < total_weight(bs) <= n * i32::MAX,
            acc == total_weight(bs.take(i as int)),
            acc <= pick,
        ensures
            groups@ == before,
            i < n,
            pick_index(bs, pick as int) == i,
        decreases n - i,
    {
        proof {
            lemma_total_weight_step(bs, i as int);
            assert(n * i32::MAX <= 0x1_0000_0000_0000_0000 * 0x8000_0000) by (nonlinear_arith)
                requires
                    0 <= n < 0x1_0000_0000_0000_0000,
            ;
        }
        acc = acc + binding_weight(&groups[i]);
        if pick < acc {
            proof {
                law_draw_shares_by_weight(bs, pick as int, i as int);
            }
            break;
        }
        i = i + 1;
    }
    groups.remove(i)
}

/// The buckets in the order of a weighted draw without replacement.
pub fn route_load_balance(groups: Vec<Vec<RoutedKey>>) -> (r: Vec<Vec<RoutedKey>>)
    ensures
        drawn_from(priority_order(buckets(groups@)), buckets(r@)),
{
    let mut rest = route_priority(groups);
    let mut out: Vec<Vec<RoutedKey>> = Vec::new();
    let ghost all = buckets(rest@);
    let ghost mut draws: Seq<int> = Seq::empty();
    proof {
        assert forall|more: Seq<int>| #[trigger] valid_draws(all, more) implies valid_draws(
            all,
            draws + more,
        ) && drawn_order(all, draws + more) == buckets(out@) + drawn_order(all, more) by {
            assert(draws + more =~= more);
            assert(buckets(out@) + drawn_order(all, more) =~= drawn_order(all, more));
        }
    }
    while rest.len() > 0
        invariant
            forall|more: Seq<int>| #[trigger]
                valid_draws(buckets(rest@), more) ==> valid_draws(all, draws + more) && drawn_order(
                    all,
                    draws + more,
                ) == buckets(out@) + drawn_order(buckets(rest@), more),
        decreases rest@.len(),
    {
        let ghost before = buckets(rest@);
        let ghost done = buckets(out@);
        let ghost past = draws;
        let total = sum_of_weights(&rest);
        let pick = random_below(total);
        let ghost i = pick_index(before, pick as int);
        let bucket = draw(&mut rest, pick);
        proof {
            assert(before[i] == bucket@);
            assert(before.remove(i) =~= buckets(rest@));
        }
        out.push(bucket);
        proof {
            draws = past.push(pick as int);
            assert(buckets(out@) =~= done.push(bucket@));
            assert forall|more: Seq<int>| #[trigger]
                valid_draws(buckets(rest@), more) implies valid_draws(all, draws + more)
                && drawn_order(all, draws + more) == buckets(out@) + drawn_order(
                buckets(rest@),
                more,
            ) by {
                let more2 = seq![pick as int] + more;
                assert(more2.drop_first() =~= more);
                assert(valid_draws(before, more2));
                assert(past + more2 =~= draws + more);
                assert(done + drawn_order(before, more2) =~= buckets(out@) + drawn_order(
                    buckets(rest@),
                    more,
                ));
            }
        }
    }
    proof {
        let none = Seq::<int>::empty();
        assert(valid_draws(buckets(rest@), none));
        assert(buckets(out@) + drawn_order(buckets(rest@), none) =~= buckets(out@));
        assert(draws + none =~= draws);
    }
    out
}

/// Whether a channel serves the users of a group.
pub fn serves_group(channel_group: &str, user_group: &str) -> (r: bool)
    ensures
        r == group_allows(channel_group@, user_group@),
{
    let wanted = trimmed(user_group);
    let groups = split(&chars_of(channel_group), ',');
    let mut i: usize = 0;
    while i < groups.len()
        invariant
            pieces(groups@) == split_on(channel_group@, ','),
            wanted@ == trim(user_group@),
            i <= groups@.len(),
            forall|j: int|
                0 <= j < i ==> trim(#[trigger] split_on(channel_group@, ',')[j]) != trim(
                    user_group@,
                ),
        decreases groups@.len() - i,
    {
        let n: usize = groups[i].len();
        let b = trim_bounds(&groups[i], 0, n);
        let name = text_of(&groups[i], b.0, b.1);
        proof {
            assert(split_on(channel_group@, ',')[i as int] == groups@[i as int]@);
            assert(groups@[i as int]@.subrange(0, n as int) =~= groups@[i as int]@);
        }
        if name == wanted {
            return true;
        }
        i = i + 1;
    }
    false
}

/// The routing of requests.
pub struct Router;

impl Router {
    /// The buckets of keys that a request may be tried on, one for each candidate that serves
    /// the user's group, has quota left and has an available key; their order is that of the
    /// strategy.
    pub fn route<A: Fn(i64) -> bool, Q: Fn(i64, &str) -> bool>(
        channels: Vec<Candidate>,
        user_group: &str,
        is_key_available: A,
        strategy: RoutingStrategy,
        quota_filter: Q,
    ) -> (r: Vec<Vec<RoutedKey>>)
        requires
            forall|id: i64| #[trigger] call_requires(is_key_available, (id,)),
            forall|id: i64, name: &str| #[trigger] call_requires(quota_filter, (id, name)),
        ensures
            exists|quota: Seq<bool>, masks: Seq<Seq<bool>>|
                {
                    &&& #[trigger] verdicts(
                        channels@,
                        user_group@,
                        is_key_available,
                        quota_filter,
                        quota,
                        masks,
                    )
                    &&& match strategy {
                        RoutingStrategy::Priority => buckets(r@) == priority_order(
                            buckets_of(channels@, user_group@, quota, masks),
                        ),
                        RoutingStrategy::LoadBalance => drawn_from(
                            priority_order(buckets_of(channels@, user_group@, quota, masks)),
                            buckets(r@),
                        ),
                    }
                },
    {
        let ghost all = channels@;
        let mut rest = channels;
        let mut groups: Vec<Vec<RoutedKey>> = Vec::new();
        let ghost mut quota: Seq<bool> = Seq::empty();
        let ghost mut masks: Seq<Seq<bool>> = Seq::empty();
        proof {
            assert(buckets(groups@) =~= Seq::empty());
            assert(all.take(0) =~= Seq::empty());
        }
        while rest.len() > 0
            invariant
                forall|id: i64| #[trigger] call_requires(is_key_available, (id,)),
                forall|id: i64, name: &str| #[trigger] call_requires(quota_filter, (id, name)),
                quota.len() <= all.len(),
                rest@ == all.skip(quota.len() as int),
                verdicts(
                    all.take(quota.len() as int),
                    user_group@,
                    is_key_available,
                    quota_filter,
                    quota,
                    masks,
                ),
                buckets(groups@) == buckets_of(
                    all.take(quota.len() as int),
                    user_group@,
                    quota,
                    masks,
                ),
            ensures
                quota.len() == all.len(),
                verdicts(
                    all.take(quota.len() as int),
                    user_group@,
                    is_key_available,
                    quota_filter,
                    quota,
                    masks,
                ),
                buckets(groups@) == buckets_of(
                    all.take(quota.len() as int),
                    user_group@,
                    quota,
                    masks,
                ),
            decreases rest@.len(),
        {
            let c = rest.remove(0);
            let ghost n = quota.len() as int;
            let ghost before = buckets(groups@);
            proof {
                assert(all.skip(n).remove(0) =~= all.skip(n + 1));
                assert(c == all[n]);
            }
            let (verdict, mask, bucket) = Self::bucket(
                c,
                user_group,
                &is_key_available,
                &quota_filter,
            );
            let empty = bucket.len() == 0;
            if !empty {
                groups.push(bucket);
            }
            proof {
                let cs = all.take(n + 1);
                let quota2 = quota.push(verdict@);
                let masks2 = masks.push(mask@);
                assert(cs.take(n) =~= all.take(n));
                assert(quota2.take(n) =~= quota);
                assert(masks2.take(n) =~= masks);
                assert forall|i: int|
                    0 <= i < cs.len() && group_allows(
                        (#[trigger] cs[i]).0.group@,
                        user_group@,
                    ) implies answers(quota_filter, cs[i].0.id, cs[i].2@, quota2[i]) by {
                    if i < n {
                        assert(cs[i] == all.take(n)[i]);
                    }
                }
                assert forall|i: int|
                    0 <= i < cs.len() && group_allows((#[trigger] cs[i]).0.group@, user_group@)
                        && quota2[i] implies masks2[i].len() == cs[i].1@.len() by {
                    if i < n {
                        assert(cs[i] == all.take(n)[i]);
                    }
                }
                assert forall|i: int, j: int|
                    0 <= i < cs.len() && group_allows(cs[i].0.group@, user_group@) && quota2[i]
                        && 0 <= j < cs[i].1@.len() implies call_ensures(
                    is_key_available,
                    ((#[trigger] cs[i].1@[j]).id,),
                    masks2[i][j],
                ) by {
                    if i < n {
                        assert(cs[i] == all.take(n)[i]);
                        assert(all.take(n)[i].1@[j] == cs[i].1@[j]);
                    }
                }
                if !empty {
                    assert(buckets(groups@) =~= before.push(bucket@));
                }
                quota = quota2;
                masks = masks2;
            }
        }
        proof {
            assert(all.take(all.len() as int) =~= all);
        }
        match strategy {
            RoutingStrategy::Priority => route_priority(groups),
            RoutingStrategy::LoadBalance => route_load_balance(groups),
        }
    }

    /// The available keys of one candidate; none where its group or its quota rules it out.
    fn bucket<A: Fn(i64) -> bool, Q: Fn(i64, &str) -> bool>(
        c: Candidate,
        user_group: &str,
        is_key_available: &A,
        quota_filter: &Q,
    ) -> (r: (Ghost<bool>, Ghost<Seq<bool>>, Vec<RoutedKey>))
        requires
            forall|id: i64| #[trigger] call_requires(*is_key_available, (id,)),
            forall|id: i64, name: &str| #[trigger] call_requires(*quota_filter, (id, name)),
        ensures
            group_allows(c.0.group@, user_group@) ==> answers(*quota_filter, c.0.id, c.2@, r.0@),
            group_allows(c.0.group@, user_group@) && r.0@ ==> {
                &&& r.1@.len() == c.1@.len()
                &&& forall|j: int|
                    0 <= j < c.1@.len() ==> call_ensures(
                        *is_key_available,
                        ((#[trigger] c.1@[j]).id,),
                        r.1@[j],
                    )
                &&& r.2@ == bucket_of(c, c.1@, r.1@)
            },
            !(group_allows(c.0.group@, user_group@) && r.0@) ==> r.2@.len() == 0,
    {
        let (channel, keys, upstream_model_name, binding_priority, weight) = c;
        let mut bucket: Vec<RoutedKey> = Vec::new();
        if !serves_group(channel.group.as_str(), user_group) {
            return (Ghost(false), Ghost(Seq::empty()), bucket);
        }
        let name = upstream_model_name.as_str();
        let verdict = quota_filter(channel.id, name);
        proof {
            assert(name@ == c.2@ && call_ensures(*quota_filter, (c.0.id, name), verdict));
        }
        if !verdict {
            return (Ghost(false), Ghost(Seq::empty()), bucket);
        }
        let ghost all = keys@;
        let mut rest = keys;
        let ghost mut mask: Seq<bool> = Seq::empty();
        proof {
            assert(all.take(0) =~= Seq::empty());
        }
        while rest.len() > 0
            invariant
                forall|id: i64| #[trigger] call_requires(*is_key_available, (id,)),
                c.1@ == all,
                channel == c.0,
                upstream_model_name == c.2,
                binding_priority == c.3,
                weight == c.4,
                mask.len() <= all.len(),
                rest@ == all.skip(mask.len() as int),
                forall|j: int|
                    0 <= j < mask.len() ==> call_ensures(
                        *is_key_available,
                        ((#[trigger] all[j]).id,),
                        mask[j],
                    ),
                bucket@ == bucket_of(c, all.take(mask.len() as int), mask),
            ensures
                mask.len() == all.len(),
                forall|j: int|
                    0 <= j < mask.len() ==> call_ensures(
                        *is_key_available,
                        ((#[trigger] all[j]).id,),
                        mask[j],
                    ),
                bucket@ == bucket_of(c, all.take(mask.len() as int), mask),
            decreases rest@.len(),
        {
            let key = rest.remove(0);
            let ghost n = mask.len() as int;
            let available = is_key_available(key.id);
            proof {
                let mask2 = mask.push(available);
                assert(all.skip(n).remove(0) =~= all.skip(n + 1));
                assert(key == all[n]);
                assert(all.take(n + 1).drop_last() =~= all.take(n));
                assert(mask2.take(n) =~= mask);
                mask = mask2;
            }
            if available {
                bucket.push(
                    RoutedKey {
                        channel: channel.clone(),
                        key,
                        upstream_model_name: upstream_model_name.clone(),
                        binding_priority,
                        weight,
                    },
                );
            }
        }
        proof {
            assert(all.take(all.len() as int) =~= all);
        }
        (Ghost(true), Ghost(mask), bucket)
    }
}

/// `r` is the key `k` of the candidate `c`, whose group and quota allow it, and the key is
/// available.
pub open spec fn is_routed_as(
    cs: Seq<Candidate>,
    user_group: Seq<char>,
    quota: Seq<bool>,
    masks: Seq<Seq<bool>>,
    r: RoutedKey,
    c: int,
    k: int,
) -> bool {
    &&& 0 <= c < cs.len()
    &&& 0 <= k < cs[c].1@.len()
    &&& group_allows(cs[c].0.group@, user_group)
    &&& quota[c]
    &&& masks[c][k]
    &&& r == routed(cs[c], cs[c].1@[k])
}

/// There is a verdict for every candidate, and one for every key of those that are allowed.
pub open spec fn verdicts_cover(
    cs: Seq<Candidate>,
    user_group: Seq<char>,
    quota: Seq<bool>,
    masks: Seq<Seq<bool>>,
) -> bool {
    &&& quota.len() == cs.len()
    &&& masks.len() == cs.len()
    &&& forall|i: int|
        0 <= i < cs.len() && group_allows((#[trigger] cs[i]).0.group@, user_group) && quota[i]
            ==> masks[i].len() == cs[i].1@.len()
}

proof fn lemma_bucket_holds_kept_keys(
    c: Candidate,
    keys: Seq<KeyConfig>,
    mask: Seq<bool>,
    j: int,
) -> (k: int)
    requires
        mask.len() == keys.len(),
        0 <= j < bucket_of(c, keys, mask).len(),
    ensures
        0 <= k < keys.len(),
        mask[k],
        bucket_of(c, keys, mask)[j] == routed(c, keys[k]),
    decreases keys.len(),
{
    let n = keys.len() - 1;
    let front = bucket_of(c, keys.drop_last(), mask.take(n));
    if j < front.len() {
        lemma_bucket_holds_kept_keys(c, keys.drop_last(), mask.take(n), j)
    } else {
        n
    }
}

proof fn lemma_kept_key_is_in_bucket(
    c: Candidate,
    keys: Seq<KeyConfig>,
    mask: Seq<bool>,
    k: int,
) -> (j: int)
    requires
        mask.len() == keys.len(),
        0 <= k < keys.len(),
        mask[k],
    ensures
        0 <= j < bucket_of(c, keys, mask).len(),
        bucket_of(c, keys, mask)[j] == routed(c, keys[k]),
    decreases keys.len(),
{
    let n = keys.len() - 1;
    let front = bucket_of(c, keys.drop_last(), mask.take(n));
    if k < n {
        assert(mask.take(n)[k] == mask[k]);
        lemma_kept_key_is_in_bucket(c, keys.drop_last(), mask.take(n), k)
    } else {
        front.len() as int
    }
}

proof fn lemma_verdicts_cover_front(
    cs: Seq<Candidate>,
    user_group: Seq<char>,
    quota: Seq<bool>,
    masks: Seq<Seq<bool>>,
)
    requires
        verdicts_cover(cs, user_group, quota, masks),
        cs.len() > 0,
    ensures
        verdicts_cover(
            cs.take(cs.len() - 1),
            user_group,
            quota.take(cs.len() - 1),
            masks.take(cs.len() - 1),
        ),
{
    let n = cs.len() - 1;
    assert forall|i: int|
        0 <= i < n && group_allows((#[trigger] cs.take(n)[i]).0.group@, user_group) && quota.take(
            n,
        )[i] implies masks.take(n)[i].len() == cs.take(n)[i].1@.len() by {
        assert(cs[i] == cs.take(n)[i]);
    }
}

/// A key is tried only where the group of its channel and the quota of the model allow it and the
/// key is available; and no bucket is empty.
pub proof fn law_routed_keys_are_allowed(
    cs: Seq<Candidate>,
    user_group: Seq<char>,
    quota: Seq<bool>,
    masks: Seq<Seq<bool>>,
    i: int,
    j: int,
)
    requires
        verdicts_cover(cs, user_group, quota, masks),
        0 <= i < buckets_of(cs, user_group, quota, masks).len(),
    ensures
        buckets_of(cs, user_group, quota, masks)[i].len() > 0,
        0 <= j < buckets_of(cs, user_group, quota, masks)[i].len() ==> exists|c: int, k: int|
            #[trigger]
            is_routed_as(
                cs,
                user_group,
                quota,
                masks,
                buckets_of(cs, user_group, quota, masks)[i][j],
                c,
                k,
            ),
    decreases cs.len(),
{
    let n = cs.len() - 1;
    let bs = buckets_of(cs, user_group, quota, masks);
    let front = buckets_of(cs.take(n), user_group, quota.take(n), masks.take(n));
    if i < front.len() {
        lemma_verdicts_cover_front(cs, user_group, quota, masks);
        law_routed_keys_are_allowed(cs.take(n), user_group, quota.take(n), masks.take(n), i, j);
        assert(bs[i] == front[i]);
        if 0 <= j < bs[i].len() {
            let (c, k) = choose|c: int, k: int|
                is_routed_as(
                    cs.take(n),
                    user_group,
                    quota.take(n),
                    masks.take(n),
                    front[i][j],
                    c,
                    k,
                );
            assert(is_routed_as(cs, user_group, quota, masks, bs[i][j], c, k));
        }
    } else {
        assert(masks[n].len() == cs[n].1@.len());
        if 0 <= j < bs[i].len() {
            let k = lemma_bucket_holds_kept_keys(cs[n], cs[n].1@, masks[n], j);
            assert(is_routed_as(cs, user_group, quota, masks, bs[i][j], n, k));
        }
    }
}

/// `r` stands in the bucket `i` at the place `j`.
pub open spec fn stands_at(bs: Seq<Seq<RoutedKey>>, r: RoutedKey, i: int, j: int) -> bool {
    0 <= i < bs.len() && 0 <= j < bs[i].len() && bs[i][j] == r
}

/// Every key that is available, of a candidate whose group and quota allow it, is tried.
pub proof fn law_every_allowed_key_is_routed(
    cs: Seq<Candidate>,
    user_group: Seq<char>,
    quota: Seq<bool>,
    masks: Seq<Seq<bool>>,
    c: int,
    k: int,
)
    requires
        verdicts_cover(cs, user_group, quota, masks),
        is_routed_as(cs, user_group, quota, masks, routed(cs[c], cs[c].1@[k]), c, k),
    ensures
        exists|i: int, j: int| #[trigger]
            stands_at(
                buckets_of(cs, user_group, quota, masks),
                routed(cs[c], cs[c].1@[k]),
                i,
                j,
            ),
    decreases cs.len(),
{
    let n = cs.len() - 1;
    let bs = buckets_of(cs, user_group, quota, masks);
    let front = buckets_of(cs.take(n), user_group, quota.take(n), masks.take(n));
    let r = routed(cs[c], cs[c].1@[k]);
    if c < n {
        lemma_verdicts_cover_front(cs, user_group, quota, masks);
        assert(cs.take(n)[c] == cs[c]);
        law_every_allowed_key_is_routed(cs.take(n), user_group, quota.take(n), masks.take(n), c, k);
        let (i, j) = choose|i: int, j: int| stands_at(front, r, i, j);
        assert(bs[i] == front[i]);
        assert(stands_at(bs, r, i, j));
    } else {
        let j = lemma_kept_key_is_in_bucket(cs[n], cs[n].1@, masks[n], k);
        assert(stands_at(bs, r, front.len() as int, j));
    }
}

/// Every bucket holds a key.
pub open spec fn none_empty(bs: Seq<Seq<RoutedKey>>) -> bool {
    forall|i: int| 0 <= i < bs.len() ==> (#[trigger] bs[i]).len() > 0
}

/// An order of buckets that all hold a key leaves none empty.
pub proof fn lemma_priority_order_none_empty(bs: Seq<Seq<RoutedKey>>)
    requires
        none_empty(bs),
    ensures
        none_empty(priority_order(bs)),
        priority_order(bs).len() == bs.len(),
{
    broadcast use vstd::seq_lib::group_to_multiset_ensures;

    let sorted = with_sorted_keys(bs);
    let out = priority_order(bs);
    law_sort_is_permutation(sorted, bucket_order());
    law_sort_orders(sorted, bucket_order());
    assert forall|i: int| 0 <= i < out.len() implies (#[trigger] out[i]).len() > 0 by {
        assert(out.to_multiset().count(out[i]) > 0);
        assert(sorted.contains(out[i]));
        let j = choose|j: int| 0 <= j < sorted.len() && sorted[j] == out[i];
        assert(bs[j].len() > 0);
        law_sort_orders(bs[j], key_order());
    }
}

/// A draw of buckets that all hold a key leaves none empty.
pub proof fn lemma_drawn_none_empty(bs: Seq<Seq<RoutedKey>>, out: Seq<Seq<RoutedKey>>)
    requires
        none_empty(bs),
        drawn_from(bs, out),
    ensures
        none_empty(out),
        out.len() == bs.len(),
{
    broadcast use vstd::seq_lib::group_to_multiset_ensures;

    let draws = choose|draws: Seq<int>| #[trigger]
        valid_draws(bs, draws) && out == drawn_order(bs, draws);
    law_draws_permute(bs, draws);
    assert forall|i: int| 0 <= i < out.len() implies (#[trigger] out[i]).len() > 0 by {
        assert(out.to_multiset().count(out[i]) > 0);
        assert(bs.contains(out[i]));
    }
    assert(out.to_multiset().len() == out.len());
    assert(bs.to_multiset().len() == bs.len());
}

/// A channel serves every group in its list, wherever it stands, and no group that differs from
/// all of them; the space around a group is immaterial.
pub proof fn law_channels_serve_their_groups(
    channel_group: Seq<char>,
    user_group: Seq<char>,
    same_group: Seq<char>,
)
    requires
        trim(user_group) == trim(same_group),
    ensures
        forall|i: int|
            0 <= i < split_on(channel_group, ',').len() ==> group_allows(
                channel_group,
                #[trigger] split_on(channel_group, ',')[i],
            ),
        (forall|i: int|
            0 <= i < split_on(channel_group, ',').len() ==> trim(
                #[trigger] split_on(channel_group, ',')[i],
            ) != trim(user_group)) ==> !group_allows(channel_group, user_group),
        group_allows(channel_group, user_group) == group_allows(channel_group, same_group),
{
}

/// A key is routed on the channel of its candidate, under its upstream name and with its priority
/// and weight.
pub proof fn law_routed_keys_carry_their_binding(c: Candidate, key: KeyConfig)
    ensures
        routed(c, key).channel == c.0,
        routed(c, key).key == key,
        routed(c, key).upstream_model_name == c.2,
        routed(c, key).binding_priority == c.3,
        routed(c, key).weight == c.4,
{
}

/// The keys of a candidate stand in their order: those of a longer list are those of its front,
/// followed by those of its back. A single key is there exactly where it is available.
pub proof fn law_buckets_keep_the_order_of_keys(
    c: Candidate,
    front: Seq<KeyConfig>,
    back: Seq<KeyConfig>,
    front_mask: Seq<bool>,
    back_mask: Seq<bool>,
    key: KeyConfig,
)
    requires
        front_mask.len() == front.len(),
        back_mask.len() == back.len(),
    ensures
        bucket_of(c, front + back, front_mask + back_mask) == bucket_of(c, front, front_mask)
            + bucket_of(c, back, back_mask),
        bucket_of(c, seq![key], seq![true]) == seq![routed(c, key)],
        bucket_of(c, seq![key], seq![false]).len() == 0,
    decreases back.len(),
{
    assert(bucket_of(c, seq![key], seq![true]) =~= seq![routed(c, key)]) by {
        reveal_with_fuel(bucket_of, 2);
    }
    assert(bucket_of(c, seq![key], seq![false]).len() == 0) by {
        reveal_with_fuel(bucket_of, 2);
    }
    if back.len() == 0 {
        assert(front + back =~= front);
        assert(front_mask + back_mask =~= front_mask);
        assert(bucket_of(c, front, front_mask) + bucket_of(c, back, back_mask) =~= bucket_of(
            c,
            front,
            front_mask,
        ));
    } else {
        let n = back.len() - 1;
        assert((front + back).drop_last() =~= front + back.drop_last());
        assert((front_mask + back_mask).take((front + back).len() - 1) =~= front_mask
            + back_mask.take(n));
        law_buckets_keep_the_order_of_keys(
            c,
            front,
            back.drop_last(),
            front_mask,
            back_mask.take(n),
            key,
        );
        assert(bucket_of(c, front + back, front_mask + back_mask) =~= bucket_of(
            c,
            front,
            front_mask,
        ) + bucket_of(c, back, back_mask));
    }
}

/// The candidates stand in their order: what is routed of a longer list is what is routed of its
/// front, followed by what is routed of its back.
pub proof fn law_buckets_keep_the_order_of_candidates(
    front: Seq<Candidate>,
    back: Seq<Candidate>,
    user_group: Seq<char>,
    front_quota: Seq<bool>,
    back_quota: Seq<bool>,
    front_masks: Seq<Seq<bool>>,
    back_masks: Seq<Seq<bool>>,
)
    requires
        front_quota.len() == front.len(),
        back_quota.len() == back.len(),
        front_masks.len() == front.len(),
        back_masks.len() == back.len(),
    ensures
        buckets_of(
            front + back,
            user_group,
            front_quota + back_quota,
            front_masks + back_masks,
        ) == buckets_of(front, user_group, front_quota, front_masks) + buckets_of(
            back,
            user_group,
            back_quota,
            back_masks,
        ),
    decreases back.len(),
{
    if back.len() == 0 {
        assert(front + back =~= front);
        assert(front_quota + back_quota =~= front_quota);
        assert(front_masks + back_masks =~= front_masks);
        assert(buckets_of(front, user_group, front_quota, front_masks) + buckets_of(
            back,
            user_group,
            back_quota,
            back_masks,
        ) =~= buckets_of(front, user_group, front_quota, front_masks));
    } else {
        let n = back.len() - 1;
        let m = (front + back).len() - 1;
        assert((front + back).take(m) =~= front + back.take(n));
        assert((front_quota + back_quota).take(m) =~= front_quota + back_quota.take(n));
        assert((front_masks + back_masks).take(m) =~= front_masks + back_masks.take(n));
        law_buckets_keep_the_order_of_candidates(
            front,
            back.take(n),
            user_group,
            front_quota,
            back_quota.take(n),
            front_masks,
            back_masks.take(n),
        );
        assert(buckets_of(
            front + back,
            user_group,
            front_quota + back_quota,
            front_masks + back_masks,
        ) =~= buckets_of(front, user_group, front_quota, front_masks) + buckets_of(
            back,
            user_group,
            back_quota,
            back_masks,
        ));
    }
}

/// Routing by priority puts the bindings in the order of their priorities, and the keys of each in
/// the order of theirs; the lower number comes first.
pub proof fn law_priorities_ascend(bs: Seq<Seq<RoutedKey>>, i: int, j: int, k: int, l: int)
    requires
        none_empty(bs),
        0 <= i <= j < bs.len(),
    ensures
        priority_order(bs).len() == bs.len(),
        priority_order(bs)[i].len() > 0,
        priority_order(bs)[j].len() > 0,
        priority_order(bs)[i][0].binding_priority <= priority_order(bs)[j][0].binding_priority,
        0 <= k <= l < priority_order(bs)[i].len() ==> priority_order(bs)[i][k].key.key_priority
            <= priority_order(bs)[i][l].key.key_priority,
        exists|b: int|
            0 <= b < bs.len() && (#[trigger] bs[b]).to_multiset() == priority_order(
                bs,
            )[i].to_multiset(),
{
    lemma_priority_order_none_empty(bs);
    law_sort_orders(with_sorted_keys(bs), bucket_order());
    let out = priority_order(bs);
    assert(bucket_order()(out[i]) <= bucket_order()(out[j]));
    law_sort_is_permutation(with_sorted_keys(bs), bucket_order());
    broadcast use vstd::seq_lib::group_to_multiset_ensures;

    assert(out.to_multiset().count(out[i]) > 0);
    assert(with_sorted_keys(bs).to_multiset().count(out[i]) > 0);
    assert(with_sorted_keys(bs).contains(out[i]));
    let b = choose|b: int| 0 <= b < with_sorted_keys(bs).len() && with_sorted_keys(bs)[b] == out[i];
    assert(out[i] == stable_sort(bs[b], key_order()));
    law_sort_orders(bs[b], key_order());
    law_sort_is_permutation(bs[b], key_order());
    if 0 <= k <= l < out[i].len() {
        assert(key_order()(out[i][k]) <= key_order()(out[i][l]));
    }
}

/// A binding weighs what its first key says, and at least one.
pub proof fn law_weights_are_positive(b: Seq<RoutedKey>)
    ensures
        weight_of(b) >= 1,
        b.len() > 0 && b[0].weight >= 1 ==> weight_of(b) == b[0].weight,
        b.len() == 0 || b[0].weight < 1 ==> weight_of(b) == 1,
{
}

/// The total weight of bindings is the sum of their weights.
pub proof fn law_weights_add_up(front: Seq<Seq<RoutedKey>>, b: Seq<RoutedKey>)
    ensures
        total_weight(Seq::empty()) == 0,
        total_weight(front.push(b)) == total_weight(front) + weight_of(b),
{
    assert(front.push(b).drop_last() =~= front);
}

/// The binding that is drawn first comes first, and the others follow as they are drawn from the
/// rest.
pub proof fn law_draws_are_taken_in_turn(bs: Seq<Seq<RoutedKey>>, draws: Seq<int>)
    requires
        bs.len() > 0,
        valid_draws(bs, draws),
    ensures
        drawn_order(bs, draws).len() > 0,
        drawn_order(bs, draws)[0] == bs[pick_index(bs, draws[0])],
        drawn_order(bs, draws).drop_first() == drawn_order(
            bs.remove(pick_index(bs, draws[0])),
            draws.drop_first(),
        ),
        0 <= draws[0] < total_weight(bs),
        draws.len() == bs.len(),
{
    assert(drawn_order(bs, draws).drop_first() =~= drawn_order(
        bs.remove(pick_index(bs, draws[0])),
        draws.drop_first(),
    ));
}

/// `r` stands in some bucket.
pub open spec fn holds(bs: Seq<Seq<RoutedKey>>, r: RoutedKey) -> bool {
    exists|i: int, j: int| #[trigger] stands_at(bs, r, i, j)
}

/// The order of buckets and the order within them change nothing about which keys they hold.
pub proof fn lemma_priority_order_holds(bs: Seq<Seq<RoutedKey>>, r: RoutedKey)
    ensures
        holds(priority_order(bs), r) <==> holds(bs, r),
{
    broadcast use vstd::seq_lib::group_to_multiset_ensures;

    let sorted = with_sorted_keys(bs);
    let out = priority_order(bs);
    law_sort_is_permutation(sorted, bucket_order());
    if holds(bs, r) {
        let (i, j) = choose|i: int, j: int| stands_at(bs, r, i, j);
        law_sort_is_permutation(bs[i], key_order());
        assert(bs[i].to_multiset().count(r) > 0);
        assert(sorted[i].contains(r));
        let k = choose|k: int| 0 <= k < sorted[i].len() && sorted[i][k] == r;
        assert(sorted.to_multiset().count(sorted[i]) > 0);
        assert(out.contains(sorted[i]));
        let l = choose|l: int| 0 <= l < out.len() && out[l] == sorted[i];
        assert(stands_at(out, r, l, k));
    }
    if holds(out, r) {
        let (i, j) = choose|i: int, j: int| stands_at(out, r, i, j);
        assert(out.to_multiset().count(out[i]) > 0);
        assert(sorted.contains(out[i]));
        let l = choose|l: int| 0 <= l < sorted.len() && sorted[l] == out[i];
        law_sort_is_permutation(bs[l], key_order());
        assert(sorted[l].to_multiset().count(r) > 0);
        assert(bs[l].contains(r));
        let k = choose|k: int| 0 <= k < bs[l].len() && bs[l][k] == r;
        assert(stands_at(bs, r, l, k));
    }
}

/// A draw changes nothing about which keys the buckets hold.
pub proof fn lemma_drawn_holds(bs: Seq<Seq<RoutedKey>>, out: Seq<Seq<RoutedKey>>, r: RoutedKey)
    requires
        drawn_from(bs, out),
    ensures
        holds(out, r) <==> holds(bs, r),
{
    broadcast use vstd::seq_lib::group_to_multiset_ensures;

    let draws = choose|draws: Seq<int>| #[trigger]
        valid_draws(bs, draws) && out == drawn_order(bs, draws);
    law_draws_permute(bs, draws);
    if holds(bs, r) {
        let (i, j) = choose|i: int, j: int| stands_at(bs, r, i, j);
        assert(bs.to_multiset().count(bs[i]) > 0);
        assert(out.contains(bs[i]));
        let l = choose|l: int| 0 <= l < out.len() && out[l] == bs[i];
        assert(stands_at(out, r, l, j));
    }
    if holds(out, r) {
        let (i, j) = choose|i: int, j: int| stands_at(out, r, i, j);
        assert(out.to_multiset().count(out[i]) > 0);
        assert(bs.contains(out[i]));
        let l = choose|l: int| 0 <= l < bs.len() && bs[l] == out[i];
        assert(stands_at(bs, r, l, j));
    }
}

/// The verdicts on candidates are those that the two filters give: on the quota of each candidate
/// that serves the group, and on each key of those whose quota allows it.
pub proof fn law_verdicts_come_from_the_filters<A: Fn(i64) -> bool, Q: Fn(i64, &str) -> bool>(
    cs: Seq<Candidate>,
    user_group: Seq<char>,
    is_key_available: A,
    quota_filter: Q,
    quota: Seq<bool>,
    masks: Seq<Seq<bool>>,
    i: int,
    j: int,
)
    requires
        verdicts(cs, user_group, is_key_available, quota_filter, quota, masks),
        0 <= i < cs.len(),
        group_allows(cs[i].0.group@, user_group),
    ensures
        quota.len() == cs.len(),
        masks.len() == cs.len(),
        exists|n: &str|
            n@ == cs[i].2@ && #[trigger] call_ensures(quota_filter, (cs[i].0.id, n), quota[i]),
        quota[i] ==> masks[i].len() == cs[i].1@.len(),
        quota[i] && 0 <= j < cs[i].1@.len() ==> call_ensures(
            is_key_available,
            (cs[i].1@[j].id,),
            masks[i][j],
        ),
{
    assert(answers(quota_filter, cs[i].0.id, cs[i].2@, quota[i]));
}

} // verus!
