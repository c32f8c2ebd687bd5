//! The data that the gateway works on: channels, keys, models, users and tokens.
use vstd::prelude::*;

use crate::text::same;

verus! {

/// Quota units in one yuan: quotas and costs are counted in millionths.
pub const QUOTA_PER_YUAN: i64 = 1_000_000;

/// The wire format that an upstream channel speaks.
#[derive(Debug, Clone, Copy, PartialEq, Eq, Structural)]
pub enum ChannelProvider {
    OpenaiCompatible,
    Anthropic,
}

impl ChannelProvider {
    pub open spec fn spec_name(self) -> Seq<char> {
        match self {
            ChannelProvider::OpenaiCompatible => "openai-compatible"@,
            ChannelProvider::Anthropic => "anthropic"@,
        }
    }

    /// The provider's name as it is stored and shown.
    pub fn as_str(&self) -> (r: &'static str)
        ensures
            r@ == self.spec_name(),
    {
        match self {
            ChannelProvider::OpenaiCompatible => "openai-compatible",
            ChannelProvider::Anthropic => "anthropic",
        }
    }
}

#[derive(Debug, Clone, Copy, PartialEq, Eq, Structural)]
pub enum CostTier {
    Free,
    Paid,
}

#[derive(Debug, Clone, Copy, PartialEq, Eq, Structural)]
pub enum KeyStatus {
    Active,
    Cooldown,
    Disabled,
    QuotaExhausted,
}

impl KeyStatus {
    pub fn is_available(&self) -> (r: bool)
        ensures
            r == (*self == KeyStatus::Active),
    {
        match self {
            KeyStatus::Active => true,
            _ => false,
        }
    }
}

/// Token counts of one request, or summed over several.
#[derive(Debug, Clone, Copy, PartialEq, Eq, Structural)]
pub struct Usage {
    pub prompt_tokens: u64,
    pub completion_tokens: u64,
    pub total_tokens: u64,
}

impl Default for Usage {
    fn default() -> (r: Self)
        ensures
            r == (Usage { prompt_tokens: 0, completion_tokens: 0, total_tokens: 0 }),
    {
        Usage { prompt_tokens: 0, completion_tokens: 0, total_tokens: 0 }
    }
}

impl Usage {
    /// Each of the three sums fits its counter.
    pub open spec fn sum_fits(self, other: Usage) -> bool {
        &&& self.prompt_tokens + other.prompt_tokens <= u64::MAX
        &&& self.completion_tokens + other.completion_tokens <= u64::MAX
        &&& self.total_tokens + other.total_tokens <= u64::MAX
    }

    pub fn add(&mut self, other: &Self)
        requires
            old(self).sum_fits(*other),
        ensures
            final(self).prompt_tokens == old(self).prompt_tokens + other.prompt_tokens,
            final(self).completion_tokens == old(self).completion_tokens + other.completion_tokens,
            final(self).total_tokens == old(self).total_tokens + other.total_tokens,
    {
        self.prompt_tokens = self.prompt_tokens + other.prompt_tokens;
        self.completion_tokens = self.completion_tokens + other.completion_tokens;
        self.total_tokens = self.total_tokens + other.total_tokens;
    }
}

/// A copy of an optional string.
pub fn copy_option(o: &Option<String>) -> (r: Option<String>)
    ensures
        r == *o,
{
    match o {
        Some(s) => Some(s.clone()),
        None => None,
    }
}

/// An upstream endpoint. `group` lists, separated by commas, the user groups that may use it.
#[derive(Debug, PartialEq, Eq)]
pub struct ChannelConfig {
    pub id: i64,
    pub name: String,
    pub provider: ChannelProvider,
    pub base_url: String,
    pub group: String,
}

impl Clone for ChannelConfig {
    fn clone(&self) -> (r: Self)
        ensures
            r == *self,
    {
        ChannelConfig {
            id: self.id,
            name: self.name.clone(),
            provider: self.provider,
            base_url: self.base_url.clone(),
            group: self.group.clone(),
        }
    }
}

/// The group of a channel that names none.
pub fn default_group() -> (r: String)
    ensures
        r@ == "default"@,
{
    "default".to_owned()
}

/// A price, an IEEE 754 double that is held by its bits.
#[derive(Debug, Clone, Copy, PartialEq, Eq, Structural)]
pub struct Price {
    pub bits: u64,
}

impl Price {
    /// The double is greater than zero: its sign bit is clear, it is not zero, and it is at
    /// most positive infinity, above which the bits are those of values that are no number.
    pub open spec fn spec_is_positive(self) -> bool {
        0 < self.bits <= 0x7ff0_0000_0000_0000
    }

    pub fn is_positive(&self) -> (r: bool)
        ensures
            r == self.spec_is_positive(),
    {
        0 < self.bits && self.bits <= 0x7ff0_0000_0000_0000
    }
}

/// A credential of a channel.
#[derive(Debug, PartialEq, Eq)]
pub struct KeyConfig {
    pub id: i64,
    pub channel_id: i64,
    pub api_key: String,
    pub label: Option<String>,
    pub cost_tier: CostTier,
    pub key_priority: i32,
    pub price_per_1k_tokens: Option<Price>,
    pub free_quota: Option<u64>,
    pub used_quota: u64,
    pub quota_reset_period: Option<String>,
    pub status: KeyStatus,
}

impl Clone for KeyConfig {
    fn clone(&self) -> (r: Self)
        ensures
            r == *self,
    {
        KeyConfig {
            id: self.id,
            channel_id: self.channel_id,
            api_key: self.api_key.clone(),
            label: copy_option(&self.label),
            cost_tier: self.cost_tier,
            key_priority: self.key_priority,
            price_per_1k_tokens: self.price_per_1k_tokens,
            free_quota: self.free_quota,
            used_quota: self.used_quota,
            quota_reset_period: copy_option(&self.quota_reset_period),
            status: self.status,
        }
    }
}

/// A copy of a list of keys.
pub fn copy_keys(keys: &Vec<KeyConfig>) -> (r: Vec<KeyConfig>)
    ensures
        r@ == keys@,
{
    let mut r: Vec<KeyConfig> = Vec::new();
    let mut i: usize = 0;
    while i < keys.len()
        invariant
            i <= keys@.len(),
            r@ == keys@.take(i as int),
        decreases keys@.len() - i,
    {
        r.push(keys[i].clone());
        proof {
            assert(keys@.take(i + 1) =~= keys@.take(i as int).push(keys@[i as int]));
        }
        i = i + 1;
    }
    proof {
        assert(keys@.take(i as int) =~= keys@);
    }
    r
}

/// A model offered to clients, served by a channel under another name.
#[derive(Debug, Clone, PartialEq, Eq)]
pub struct ModelBinding {
    pub model_id: i64,
    pub canonical_name: String,
    pub channel_id: i64,
    pub upstream_model_name: String,
    pub priority: i32,
    pub weight: i32,
}

/// How a request is charged.
#[derive(Debug, Clone, Copy, PartialEq, Eq, Structural)]
pub enum BillingType {
    Token,
    PerCall,
    Expression,
}

impl Default for BillingType {
    fn default() -> (r: Self)
        ensures
            r == BillingType::Token,
    {
        BillingType::Token
    }
}

impl BillingType {
    pub open spec fn spec_from_i32(v: i32) -> BillingType {
        if v == 1 {
            BillingType::PerCall
        } else if v == 2 {
            BillingType::Expression
        } else {
            BillingType::Token
        }
    }

    pub open spec fn spec_as_i32(self) -> i32 {
        match self {
            BillingType::Token => 0,
            BillingType::PerCall => 1,
            BillingType::Expression => 2,
        }
    }

    /// The billing type of a stored number; an unknown one stands for token billing.
    pub fn from_i32(v: i32) -> (r: Self)
        ensures
            r == Self::spec_from_i32(v),
    {
        match v {
            1 => BillingType::PerCall,
            2 => BillingType::Expression,
            _ => BillingType::Token,
        }
    }

    pub fn as_i32(self) -> (r: i32)
        ensures
            r == self.spec_as_i32(),
    {
        match self {
            BillingType::Token => 0,
            BillingType::PerCall => 1,
            BillingType::Expression => 2,
        }
    }
}

impl From<BillingType> for i32 {
    fn from(v: BillingType) -> (r: i32) {
        v.as_i32()
    }
}

impl vstd::std_specs::convert::FromSpecImpl<BillingType> for i32 {
    open spec fn obeys_from_spec() -> bool {
        true
    }

    open spec fn from_spec(v: BillingType) -> i32 {
        v.spec_as_i32()
    }
}

impl From<i32> for BillingType {
    fn from(v: i32) -> (r: BillingType) {
        BillingType::from_i32(v)
    }
}

impl vstd::std_specs::convert::FromSpecImpl<i32> for BillingType {
    open spec fn obeys_from_spec() -> bool {
        true
    }

    open spec fn from_spec(v: i32) -> BillingType {
        BillingType::spec_from_i32(v)
    }
}

/// A billing type that is stored as a number and read back is the same.
pub proof fn law_billing_type_round_trip(b: BillingType)
    ensures
        BillingType::spec_from_i32(b.spec_as_i32()) == b,
{
}

/// What a model costs on a channel.
#[derive(Debug, PartialEq, Eq)]
pub struct ChannelModelPricing {
    pub billing_type: BillingType,
    pub input_price: Price,
    pub output_price: Price,
    pub call_price: Price,
    pub billing_expr: Option<String>,
}

impl Clone for ChannelModelPricing {
    fn clone(&self) -> (r: Self)
        ensures
            r == *self,
    {
        ChannelModelPricing {
            billing_type: self.billing_type,
            input_price: self.input_price,
            output_price: self.output_price,
            call_price: self.call_price,
            billing_expr: copy_option(&self.billing_expr),
        }
    }
}

impl Default for ChannelModelPricing {
    fn default() -> (r: Self)
        ensures
            r == (ChannelModelPricing {
                billing_type: BillingType::Token,
                input_price: Price { bits: 0 },
                output_price: Price { bits: 0 },
                call_price: Price { bits: 0 },
                billing_expr: None,
            }),
    {
        ChannelModelPricing {
            billing_type: BillingType::Token,
            input_price: Price { bits: 0 },
            output_price: Price { bits: 0 },
            call_price: Price { bits: 0 },
            billing_expr: None,
        }
    }
}

impl ChannelModelPricing {
    pub open spec fn spec_is_configured(self) -> bool {
        match self.billing_type {
            BillingType::Token => self.input_price.spec_is_positive()
                || self.output_price.spec_is_positive(),
            BillingType::PerCall => self.call_price.spec_is_positive(),
            BillingType::Expression => match self.billing_expr {
                Some(e) => crate::text::trim(e@).len() > 0,
                None => false,
            },
        }
    }

    /// Whether the pricing charges anything: what its billing type reads is set.
    pub fn is_configured(&self) -> (r: bool)
        ensures
            r == self.spec_is_configured(),
    {
        match self.billing_type {
            BillingType::Token => self.input_price.is_positive() || self.output_price.is_positive(),
            BillingType::PerCall => self.call_price.is_positive(),
            BillingType::Expression => match &self.billing_expr {
                Some(e) => !crate::text::trimmed(e.as_str()).as_str().is_empty(),
                None => false,
            },
        }
    }
}

#[derive(Debug, Clone, PartialEq, Eq)]
pub struct TokenUsageStats {
    pub total_tokens: i64,
    pub request_count: i64,
    pub last_used_at: Option<String>,
}

#[derive(Debug, Clone, PartialEq, Eq)]
pub struct ConnectionTestResult {
    pub success: bool,
    pub latency_ms: u64,
    pub error: Option<String>,
}

#[derive(Debug, Clone, PartialEq, Eq)]
pub struct ChannelModelEntry {
    pub model_id: Option<i64>,
    pub canonical_name: String,
    pub upstream_model_name: Option<String>,
    pub priority: i32,
    pub weight: i32,
    pub pricing: ChannelModelPricing,
}

/// The priority of a binding that states none.
pub fn default_binding_priority() -> (r: i32)
    ensures
        r == 100,
{
    100
}

/// The weight of a binding that states none.
pub fn default_binding_weight() -> (r: i32)
    ensures
        r == 1,
{
    1
}

#[derive(Debug, PartialEq, Eq)]
pub struct UserConfig {
    pub id: i64,
    pub username: String,
    pub role: i32,
    pub status: i32,
    pub quota: i64,
    pub used_quota: i64,
    pub group: String,
}

impl Clone for UserConfig {
    fn clone(&self) -> (r: Self)
        ensures
            r == *self,
    {
        UserConfig {
            id: self.id,
            username: self.username.clone(),
            role: self.role,
            status: self.status,
            quota: self.quota,
            used_quota: self.used_quota,
            group: self.group.clone(),
        }
    }
}

impl UserConfig {
    pub open spec fn spec_is_admin(self) -> bool {
        self.role >= 10
    }

    pub fn is_enabled(&self) -> (r: bool)
        ensures
            r == (self.status == 1),
    {
        self.status == 1
    }

    pub fn is_admin(&self) -> (r: bool)
        ensures
            r == self.spec_is_admin(),
    {
        self.role >= 10
    }

    pub fn remaining_quota(&self) -> (r: i64)
        requires
            i64::MIN <= self.quota - self.used_quota <= i64::MAX,
        ensures
            r == self.quota - self.used_quota,
    {
        self.quota - self.used_quota
    }
}

/// A client token. `expired_time` is a Unix time in seconds, or -1 for one that never expires.
#[derive(Debug, Clone, PartialEq, Eq)]
pub struct TokenConfig {
    pub id: i64,
    pub user_id: i64,
    pub key: String,
    pub name: Option<String>,
    pub remain_quota: i64,
    pub used_quota: i64,
    pub unlimited_quota: bool,
    pub expired_time: i64,
    pub model_limits_enabled: bool,
    pub model_limits: Option<Vec<String>>,
    pub status: i32,
    pub allow_ips: Option<Vec<String>>,
}

/// `name` is one of `names`.
pub open spec fn listed(names: Seq<String>, name: Seq<char>) -> bool {
    exists|i: int| 0 <= i < names.len() && (#[trigger] names[i])@ == name
}

/// Whether `name` is one of `names`.
pub fn is_listed(names: &Vec<String>, name: &str) -> (r: bool)
    ensures
        r == listed(names@, name@),
{
    let mut i: usize = 0;
    while i < names.len()
        invariant
            i <= names@.len(),
            forall|j: int| 0 <= j < i ==> (#[trigger] names@[j])@ != name@,
        decreases names@.len() - i,
    {
        if same(names[i].as_str(), name) {
            return true;
        }
        i = i + 1;
    }
    false
}

impl TokenConfig {
    pub open spec fn spec_allows_model(self, model: Seq<char>) -> bool {
        !self.model_limits_enabled || match self.model_limits {
            Some(models) => listed(models@, model),
            None => true,
        }
    }

    pub open spec fn spec_allows_ip(self, client_ip: Seq<char>) -> bool {
        match self.allow_ips {
            Some(ips) => listed(ips@, client_ip),
            None => true,
        }
    }

    pub open spec fn spec_is_expired(self, now: i64) -> bool {
        self.expired_time != -1 && self.expired_time <= now
    }

    pub fn is_enabled(&self) -> (r: bool)
        ensures
            r == (self.status == 1),
    {
        self.status == 1
    }

    pub fn is_expired(&self, now: i64) -> (r: bool)
        ensures
            r == self.spec_is_expired(now),
    {
        self.expired_time != -1 && self.expired_time <= now
    }

    /// Whether the token may use a model: it may use any unless its limits are enabled and list some.
    pub fn allows_model(&self, model: &str) -> (r: bool)
        ensures
            r == self.spec_allows_model(model@),
    {
        if !self.model_limits_enabled {
            return true;
        }
        match &self.model_limits {
            Some(models) => is_listed(models, model),
            None => true,
        }
    }

    /// Whether the token may be used from an address: from any unless it lists some.
    pub fn allows_ip(&self, client_ip: &str) -> (r: bool)
        ensures
            r == self.spec_allows_ip(client_ip@),
    {
        match &self.allow_ips {
            Some(ips) => is_listed(ips, client_ip),
            None => true,
        }
    }
}

#[derive(Debug, Clone, PartialEq, Eq)]
pub struct DashboardOverview {
    pub today_tokens: i64,
    pub today_requests: i64,
    pub today_errors: i64,
    pub available_keys: i64,
}

#[derive(Debug, Clone, PartialEq, Eq)]
pub struct ModelUsage {
    pub model: String,
    pub total_tokens: i64,
    pub request_count: i64,
    pub total_cost: i64,
}

#[derive(Debug, Clone, PartialEq, Eq)]
pub struct RequestLog {
    pub id: i64,
    pub request_id: String,
    pub client_ip: Option<String>,
    pub method: String,
    pub path: String,
    pub client_model: Option<String>,
    pub normalized_model: Option<String>,
    pub channel_name: Option<String>,
    pub key_label: Option<String>,
    pub upstream_status: Option<i32>,
    pub upstream_model: Option<String>,
    pub response_status: i32,
    pub duration_ms: i64,
    pub stream: bool,
    pub user_id: Option<i64>,
    pub token_id: Option<i64>,
    pub quota_cost: i64,
    pub error_message: Option<String>,
    pub created_at: String,
}

#[derive(Debug, Clone, PartialEq, Eq)]
pub struct UsageSummary {
    pub channel_id: i64,
    pub channel_name: String,
    pub model: String,
    pub total_tokens: i64,
    pub request_count: i64,
    pub total_cost: i64,
}

/// Who is logged in to the admin interface.
#[derive(Debug, Clone, PartialEq, Eq)]
pub struct AdminAuthContext {
    pub user: UserConfig,
}

/// Who makes a proxied request.
#[derive(Debug, Clone, PartialEq, Eq)]
pub struct AuthContext {
    pub user: UserConfig,
    pub token: TokenConfig,
    pub client_ip: Option<String>,
}

/// A token with limits may use every model that its limits list, wherever in the list it stands,
/// and no model that differs from all of them. Without limits it may use every model.
pub proof fn law_listed_models_are_allowed(token: TokenConfig, model: Seq<char>)
    ensures
        !token.model_limits_enabled || token.model_limits is None ==> token.spec_allows_model(
            model,
        ),
        token.model_limits_enabled ==> (token.model_limits matches Some(models) ==> {
            &&& forall|i: int|
                0 <= i < models@.len() ==> token.spec_allows_model((#[trigger] models@[i])@)
            &&& (forall|i: int| 0 <= i < models@.len() ==> (#[trigger] models@[i])@ != model)
                ==> !token.spec_allows_model(model)
        }),
{
}

/// A token with a list of addresses may be used from each of them, and from no address that
/// differs from all of them. Without a list it may be used from every address.
pub proof fn law_listed_addresses_are_allowed(token: TokenConfig, client_ip: Seq<char>)
    ensures
        token.allow_ips is None ==> token.spec_allows_ip(client_ip),
        token.allow_ips matches Some(ips) ==> {
            &&& forall|i: int| 0 <= i < ips@.len() ==> token.spec_allows_ip((#[trigger] ips@[i])@)
            &&& (forall|i: int| 0 <= i < ips@.len() ==> (#[trigger] ips@[i])@ != client_ip)
                ==> !token.spec_allows_ip(client_ip)
        },
{
}

/// What allows a model or an address in a list allows it in every longer list.
pub proof fn law_longer_lists_allow_more(names: Seq<String>, more: Seq<String>, name: Seq<char>)
    ensures
        listed(names + more, name) <==> listed(names, name) || listed(more, name),
{
    let all = names + more;
    if listed(all, name) {
        let i = choose|i: int| 0 <= i < all.len() && (#[trigger] all[i])@ == name;
        if i < names.len() {
            assert(names[i]@ == name);
        } else {
            assert(more[i - names.len()]@ == name);
        }
    }
    if listed(names, name) {
        let i = choose|i: int| 0 <= i < names.len() && (#[trigger] names[i])@ == name;
        assert(all[i]@ == name);
    }
    if listed(more, name) {
        let i = choose|i: int| 0 <= i < more.len() && (#[trigger] more[i])@ == name;
        assert(all[names.len() + i]@ == name);
    }
}

/// A token expires at its time and stays expired; the time -1 never comes.
pub proof fn law_expiry(token: TokenConfig, now: i64, later: i64)
    requires
        now <= later,
    ensures
        token.expired_time == -1 ==> !token.spec_is_expired(now),
        token.expired_time != -1 && now >= token.expired_time ==> token.spec_is_expired(now),
        now < token.expired_time ==> !token.spec_is_expired(now),
        token.spec_is_expired(now) ==> token.spec_is_expired(later),
{
}

/// Who has the role of an admin keeps it with every higher role; the least such role is 10.
pub proof fn law_admin_roles(user: UserConfig, other: UserConfig)
    requires
        user.role <= other.role,
    ensures
        user.spec_is_admin() ==> other.spec_is_admin(),
        user.role >= 10 ==> user.spec_is_admin(),
        other.role <= 9 ==> !user.spec_is_admin(),
{
}

/// A pricing charges something where a price of its own billing type is positive, or its
/// expression is more than white space; the prices of the other types do not count.
pub proof fn law_own_prices_count(p: ChannelModelPricing, q: ChannelModelPricing)
    requires
        p.billing_type == q.billing_type,
    ensures
        p.billing_type == BillingType::Token && (p.input_price.spec_is_positive()
            || p.output_price.spec_is_positive()) ==> p.spec_is_configured(),
        p.billing_type == BillingType::Token && !p.input_price.spec_is_positive()
            && !p.output_price.spec_is_positive() ==> !p.spec_is_configured(),
        p.billing_type == BillingType::PerCall ==> p.spec_is_configured()
            == p.call_price.spec_is_positive(),
        p.billing_type == BillingType::Expression && p.billing_expr is None
            ==> !p.spec_is_configured(),
        p.billing_type == BillingType::Expression ==> (p.billing_expr matches Some(e)
            ==> p.spec_is_configured() == (crate::text::trim(e@).len() > 0)),
        p.billing_type == BillingType::Token && p.input_price == q.input_price && p.output_price
            == q.output_price ==> p.spec_is_configured() == q.spec_is_configured(),
        p.billing_type == BillingType::PerCall && p.call_price == q.call_price
            ==> p.spec_is_configured() == q.spec_is_configured(),
        p.billing_type == BillingType::Expression && p.billing_expr == q.billing_expr
            ==> p.spec_is_configured() == q.spec_is_configured(),
{
}

/// A price is positive where its sign bit is clear, some other bit is set and it is a number: up
/// to infinity the bits of positive numbers grow with them.
pub proof fn law_positive_prices(p: Price)
    ensures
        p.bits == 0 ==> !p.spec_is_positive(),
        p.bits >= 0x8000_0000_0000_0000 ==> !p.spec_is_positive(),
        1 <= p.bits && p.bits <= 0x7fef_ffff_ffff_ffff ==> p.spec_is_positive(),
        p.bits == 0x7ff0_0000_0000_0000 ==> p.spec_is_positive(),
        0x7ff0_0000_0000_0000 < p.bits ==> !p.spec_is_positive(),
{
}

/// A number of a billing type that is none of 0, 1 and 2 is read as that of the type by tokens.
pub proof fn law_unknown_billing_types_are_by_token(v: i32)
    ensures
        BillingType::spec_from_i32(v) == BillingType::Token <==> v != 1 && v != 2,
        0 <= v <= 2 ==> BillingType::spec_from_i32(v).spec_as_i32() == v,
{
}

/// Two usages can be added exactly where each of their three sums fits its counter, whichever of
/// them comes first.
pub proof fn law_sums_that_fit(a: Usage, b: Usage)
    ensures
        a.sum_fits(b) == b.sum_fits(a),
        a.sum_fits(b) <==> {
            &&& a.prompt_tokens <= u64::MAX - b.prompt_tokens
            &&& a.completion_tokens <= u64::MAX - b.completion_tokens
            &&& a.total_tokens <= u64::MAX - b.total_tokens
        },
{
}

} // verus!
