//! The rules of the admin interface.
use vstd::prelude::*;

use crate::adaptor::{
    build_claude_messages_url, build_models_url, build_openai_chat_url, endpoint,
};
use crate::cache::Binding;
use crate::error::{AdminError, AdminResult, ProxyResult};
use crate::json::{json_at, json_item, json_quote, json_quoted, option_item, JsonItem, JsonView};
use crate::password::{bcrypt_verdict, verify_password};
use crate::router::{law_sort_restores_order, stable_sort};
use crate::snapshot::binding_order;
use crate::text::{
    concat, concat3, decimal, digits, option_text, push_decimal, push_digits, same, texts, trim,
    trimmed,
};
use crate::types::{
    BillingType, ChannelConfig, ChannelModelPricing, ChannelProvider, ConnectionTestResult,
    DashboardOverview, KeyConfig, ModelUsage, Price, RequestLog, UserConfig,
};

verus! {

/// What the dashboard shows.
#[derive(Debug, PartialEq, Eq)]
pub struct DashboardResponse {
    pub overview: DashboardOverview,
    pub top_models: Vec<ModelUsage>,
    pub recent_requests: Vec<RequestLog>,
}

#[derive(Debug, Clone, PartialEq, Eq)]
pub struct LoginRequest {
    pub username: String,
    pub password: String,
}

#[derive(Debug, PartialEq, Eq)]
pub struct LoginResponse {
    pub success: bool,
    pub user: UserConfig,
}

#[derive(Debug, PartialEq, Eq)]
pub struct MeResponse {
    pub user: UserConfig,
}

#[derive(Debug, Clone, PartialEq, Eq)]
pub struct CreateUserRequest {
    pub username: String,
    pub password: String,
    pub role: i32,
    pub group: String,
    pub quota: i64,
}

#[derive(Debug, Clone, PartialEq, Eq)]
pub struct UpdateUserRequest {
    pub username: String,
    pub role: i32,
    pub status: i32,
    pub group: String,
    pub quota: i64,
}

#[derive(Debug, Clone, PartialEq, Eq)]
pub struct UpdatePasswordRequest {
    pub password: String,
}

#[derive(Debug, Clone, PartialEq, Eq)]
pub struct UpdateMyPasswordRequest {
    pub old_password: String,
    pub new_password: String,
}

#[derive(Debug, Clone, PartialEq, Eq)]
pub struct ListTokensQuery {
    pub user_id: Option<i64>,
}

#[derive(Debug, Clone, PartialEq, Eq)]
pub struct CreateTokenRequest {
    pub user_id: i64,
    pub name: String,
    pub key: Option<String>,
    pub remain_quota: i64,
    pub unlimited_quota: bool,
    pub expired_time: i64,
    pub model_limits: String,
    pub model_limits_enabled: bool,
    pub allow_ips: String,
}

#[derive(Debug, Clone, PartialEq, Eq)]
pub struct UpdateTokenRequest {
    pub name: String,
    pub remain_quota: i64,
    pub unlimited_quota: bool,
    pub expired_time: i64,
    pub model_limits: String,
    pub model_limits_enabled: bool,
    pub allow_ips: String,
    pub status: i32,
}

#[derive(Debug, Clone, PartialEq, Eq)]
pub struct CreateChannelRequest {
    pub name: String,
    pub provider: ChannelProvider,
    pub base_url: String,
    pub group: String,
}

#[derive(Debug, Clone, PartialEq, Eq)]
pub struct UpdateChannelRequest {
    pub name: String,
    pub provider: ChannelProvider,
    pub base_url: String,
    pub group: String,
}

#[derive(Debug, Clone, PartialEq, Eq)]
pub struct CreateKeyRequest {
    pub api_key: String,
    pub label: Option<String>,
    pub is_free: bool,
    pub priority: i32,
    pub quota_limit: i64,
    pub price_per_1k_tokens: Price,
}

#[derive(Debug, Clone, PartialEq, Eq)]
pub struct UpdateKeyRequest {
    pub api_key: String,
    pub is_free: bool,
    pub priority: i32,
    pub quota_limit: i64,
    pub price_per_1k_tokens: Price,
    pub status: String,
}

#[derive(Debug, Clone, PartialEq, Eq)]
pub struct ModelBindingInfo {
    pub channel_id: i64,
    pub channel_name: String,
    pub upstream_model_name: String,
    pub priority: i32,
    pub weight: i32,
}

#[derive(Debug, Clone, PartialEq, Eq)]
pub struct ModelInfo {
    pub id: i64,
    pub canonical_name: String,
    pub routing_strategy: String,
    pub bindings: Vec<ModelBindingInfo>,
}

#[derive(Debug, Clone, PartialEq, Eq)]
pub struct ModelDetail {
    pub id: i64,
    pub canonical_name: String,
    pub routing_strategy: String,
}

#[derive(Debug, Clone, PartialEq, Eq)]
pub struct CreateModelRequest {
    pub canonical_name: String,
}

#[derive(Debug, Clone, PartialEq, Eq)]
pub struct UpdateModelRequest {
    pub canonical_name: String,
}

#[derive(Debug, Clone, PartialEq, Eq)]
pub struct UpdateRoutingStrategyRequest {
    pub strategy: String,
}

#[derive(Debug, PartialEq, Eq)]
pub struct UpdateBindingPricingRequest {
    pub channel_id: i64,
    pub upstream_model_name: String,
    pub pricing: ChannelModelPricing,
}

#[derive(Debug, Clone, PartialEq, Eq)]
pub struct UpdateBindingWeightRequest {
    pub channel_id: i64,
    pub upstream_model_name: String,
    pub weight: i32,
}

#[derive(Debug, Clone, PartialEq, Eq)]
pub struct AddBindingRequest {
    pub channel_id: i64,
    pub upstream_model_name: String,
}

#[derive(Debug, Clone, PartialEq, Eq)]
pub struct BindingOrderItem {
    pub channel_id: i64,
    pub upstream_model_name: String,
}

#[derive(Debug, Clone, PartialEq, Eq)]
pub struct ReorderBindingsRequest {
    pub bindings: Vec<BindingOrderItem>,
}

#[derive(Debug, Clone, PartialEq, Eq)]
pub struct AddDiscoveredModelsRequest {
    pub models: Vec<String>,
}

#[derive(Debug, Clone, PartialEq, Eq)]
pub struct DiscoverModelsByFormRequest {
    pub base_url: String,
    pub api_key: String,
    pub provider: String,
}

#[derive(Debug, Clone, PartialEq, Eq)]
pub struct AddChannelModelRequest {
    pub model_name: String,
    pub upstream_model_name: String,
}

#[derive(Debug, Clone, PartialEq, Eq)]
pub struct UpdateSmallModelQuotaRequest {
    pub limit: Option<i64>,
    pub unit: String,
    pub window: String,
}

#[derive(Debug, Clone, PartialEq, Eq)]
pub struct UsageQuery {
    pub channel_id: Option<i64>,
    pub model: Option<String>,
    pub start: Option<i64>,
    pub end: Option<i64>,
}

#[derive(Debug, Clone, PartialEq, Eq)]
pub struct LogsQuery {
    pub page: Option<i64>,
    pub per_page: Option<i64>,
    pub channel_id: Option<i64>,
    pub model: Option<String>,
    pub status_code: Option<i32>,
    pub start: Option<i64>,
    pub end: Option<i64>,
}

#[derive(Debug, PartialEq, Eq)]
pub struct LogsResponse {
    pub logs: Vec<RequestLog>,
    pub total: i64,
    pub page: i64,
    pub per_page: i64,
}

#[derive(Debug, Clone, Copy, PartialEq, Eq, Structural)]
pub struct SetupStatusResponse {
    pub needs_setup: bool,
}

#[derive(Debug, Clone, PartialEq, Eq)]
pub struct InitializeRequest {
    pub username: String,
    pub password: String,
}

#[derive(Debug, Clone, Copy, PartialEq, Eq, Structural)]
pub struct InitializeResponse {
    pub success: bool,
}

/// The result is a refusal of a bad request with the given text.
pub open spec fn bad_request<T>(r: AdminResult<T>, text: Seq<char>) -> bool {
    match r {
        Err(AdminError::BadRequest(m)) => m@ == text,
        _ => false,
    }
}

/// The result is the refusal of a user who may not do something, with the given text.
pub open spec fn forbidden<T>(r: AdminResult<T>, text: Seq<char>) -> bool {
    match r {
        Err(AdminError::Forbidden(m)) => m@ == text,
        _ => false,
    }
}

/// The result is that something was not found, with the given text.
pub open spec fn not_found<T>(r: AdminResult<T>, text: Seq<char>) -> bool {
    match r {
        Err(AdminError::NotFound(m)) => m@ == text,
        _ => false,
    }
}

/// Only admins see the dashboard.
pub fn dashboard_access(user: &UserConfig) -> (r: AdminResult<()>)
    ensures
        user.spec_is_admin() ==> r is Ok,
        !user.spec_is_admin() ==> forbidden(r, "dashboard is admin-only"@),
{
    if user.is_admin() {
        Ok(())
    } else {
        Err(AdminError::Forbidden("dashboard is admin-only".to_owned()))
    }
}

/// Whose tokens are listed: an admin may ask for anyone's, or all; others see their own.
pub fn effective_user_id(user: &UserConfig, requested: Option<i64>) -> (r: Option<i64>)
    ensures
        r == if user.spec_is_admin() {
            requested
        } else {
            Some(user.id)
        },
{
    if user.is_admin() {
        requested
    } else {
        Some(user.id)
    }
}

/// Whose usage and logs are shown: an admin sees everyone's, others their own.
pub fn user_filter(user: &UserConfig) -> (r: Option<i64>)
    ensures
        r == if user.spec_is_admin() {
            None
        } else {
            Some(user.id)
        },
{
    if user.is_admin() {
        None
    } else {
        Some(user.id)
    }
}

/// For whom a token is created: an admin may name someone, in the query or else in the body;
/// others create tokens for themselves.
pub open spec fn owner_of_new_token(user: UserConfig, query: Option<i64>, body: i64) -> i64 {
    match query {
        Some(id) => if user.spec_is_admin() {
            id
        } else {
            user.id
        },
        None => if body != 0 && user.spec_is_admin() {
            body
        } else {
            user.id
        },
    }
}

/// For whom a token is created.
pub fn target_user_id(user: &UserConfig, query: Option<i64>, body: i64) -> (r: i64)
    ensures
        r == owner_of_new_token(*user, query, body),
{
    match query {
        Some(id) => if user.is_admin() {
            id
        } else {
            user.id
        },
        None => if body != 0 && user.is_admin() {
            body
        } else {
            user.id
        },
    }
}

/// A user who is no admin creates tokens for nobody else, lists nobody else's, and sees nobody
/// else's usage.
pub proof fn law_users_are_confined_to_themselves(user: UserConfig, query: Option<i64>, body: i64)
    requires
        !user.spec_is_admin(),
    ensures
        owner_of_new_token(user, query, body) == user.id,
{
}

/// A user may act on a token: an admin on any, others on their own.
pub open spec fn may_act_on(user: UserConfig, owner: Option<i64>) -> bool {
    user.spec_is_admin() || owner == Some(user.id)
}

/// Decides whether a user may act on a token, of which the owner is known where it exists.
fn check_ownership(user: &UserConfig, owner: Option<i64>, missing: String, denied: &str) -> (r:
    AdminResult<()>)
    ensures
        r is Ok <==> may_act_on(*user, owner),
        !may_act_on(*user, owner) && owner is None ==> not_found(r, missing@),
        !may_act_on(*user, owner) && owner is Some ==> forbidden(r, denied@),
{
    if user.is_admin() {
        return Ok(());
    }
    match owner {
        None => Err(AdminError::NotFound(missing)),
        Some(id) => if id == user.id {
            Ok(())
        } else {
            Err(AdminError::Forbidden(denied.to_owned()))
        },
    }
}

/// The text for something with a number that does not exist.
pub open spec fn missing_text(what: Seq<char>, id: i64) -> Seq<char> {
    what + " "@ + decimal(id as int) + " not found"@
}

fn missing(what: &str, id: i64) -> (r: String)
    ensures
        r@ == missing_text(what@, id),
{
    let mut m = concat(what, " ");
    push_decimal(&mut m, id);
    m.append(" not found");
    m
}

/// Whether a user may change a token.
pub fn update_token_access(user: &UserConfig, token_id: i64, owner: Option<i64>) -> (r: AdminResult<
    (),
>)
    ensures
        r is Ok <==> may_act_on(*user, owner),
        !may_act_on(*user, owner) && owner is None ==> not_found(
            r,
            missing_text("token"@, token_id),
        ),
        !may_act_on(*user, owner) && owner is Some ==> forbidden(
            r,
            "you can only modify your own tokens"@,
        ),
{
    check_ownership(user, owner, missing("token", token_id), "you can only modify your own tokens")
}

/// Whether a user may delete a token.
pub fn delete_token_access(user: &UserConfig, token_id: i64, owner: Option<i64>) -> (r: AdminResult<
    (),
>)
    ensures
        r is Ok <==> may_act_on(*user, owner),
        !may_act_on(*user, owner) && owner is None ==> not_found(
            r,
            missing_text("token"@, token_id),
        ),
        !may_act_on(*user, owner) && owner is Some ==> forbidden(
            r,
            "you can only delete your own tokens"@,
        ),
{
    check_ownership(user, owner, missing("token", token_id), "you can only delete your own tokens")
}

/// Whether a user may see the usage of a token.
pub fn token_usage_access(user: &UserConfig, owner: Option<i64>) -> (r: AdminResult<()>)
    ensures
        r is Ok <==> may_act_on(*user, owner),
        !may_act_on(*user, owner) && owner is None ==> not_found(r, "token not found"@),
        !may_act_on(*user, owner) && owner is Some ==> forbidden(r, "you do not own this token"@),
{
    check_ownership(user, owner, "token not found".to_owned(), "you do not own this token")
}

/// The page of a listing that is shown, and the rows on it: the first page and twenty rows where
/// nothing is asked for, and from one up to a hundred rows.
pub fn paging(page: Option<i64>, per_page: Option<i64>) -> (r: (i64, i64))
    ensures
        r.0 == match page {
            Some(p) => if p < 1 {
                1i64
            } else {
                p
            },
            None => 1i64,
        },
        r.1 == match per_page {
            Some(n) => if n < 1 {
                1i64
            } else if n > 100 {
                100i64
            } else {
                n
            },
            None => 20i64,
        },
{
    let p: i64 = match page {
        Some(p) => if p < 1 {
            1
        } else {
            p
        },
        None => 1,
    };
    let n: i64 = match per_page {
        Some(n) => if n < 1 {
            1
        } else if n > 100 {
            100
        } else {
            n
        },
        None => 20,
    };
    (p, n)
}

/// The number under which the status of a key is stored.
pub open spec fn key_status_of(status: Seq<char>) -> Option<i32> {
    if status == "active"@ {
        Some(1i32)
    } else if status == "disabled"@ {
        Some(2i32)
    } else if status == "cooldown"@ {
        Some(3i32)
    } else if status == "quota_exhausted"@ {
        Some(4i32)
    } else {
        None
    }
}

/// The number under which the status of a key is stored.
pub fn key_status_number(status: &str) -> (r: AdminResult<i32>)
    ensures
        match key_status_of(status@) {
            Some(n) => r == Ok::<i32, AdminError>(n),
            None => bad_request(
                r,
                "invalid status '"@ + status@
                    + "': expected one of active, disabled, cooldown, quota_exhausted"@,
            ),
        },
{
    if same(status, "active") {
        Ok(1)
    } else if same(status, "disabled") {
        Ok(2)
    } else if same(status, "cooldown") {
        Ok(3)
    } else if same(status, "quota_exhausted") {
        Ok(4)
    } else {
        Err(
            AdminError::BadRequest(
                concat3(
                    "invalid status '",
                    status,
                    "': expected one of active, disabled, cooldown, quota_exhausted",
                ),
            ),
        )
    }
}

/// The routing strategy to be stored, which has to be a known one.
pub fn check_strategy(strategy: &str) -> (r: AdminResult<String>)
    ensures
        if trim(strategy@) == "priority"@ || trim(strategy@) == "load_balance"@ {
            r is Ok && r->Ok_0@ == trim(strategy@)
        } else {
            bad_request(
                r,
                "invalid strategy '"@ + strategy@ + "': expected 'priority' or 'load_balance'"@,
            )
        },
{
    let t = trimmed(strategy);
    if same(t.as_str(), "priority") || same(t.as_str(), "load_balance") {
        Ok(t)
    } else {
        Err(
            AdminError::BadRequest(
                concat3(
                    "invalid strategy '",
                    strategy,
                    "': expected 'priority' or 'load_balance'",
                ),
            ),
        )
    }
}

/// A weight has to be at least one.
pub fn check_weight(weight: i32) -> (r: AdminResult<()>)
    ensures
        weight >= 1 ==> r is Ok,
        weight < 1 ==> bad_request(
            r,
            "weight must be >= 1 (got "@ + decimal(weight as int) + ")"@,
        ),
{
    if weight >= 1 {
        return Ok(());
    }
    let mut m = "weight must be >= 1 (got ".to_owned();
    push_decimal(&mut m, weight as i64);
    m.append(")");
    Err(AdminError::BadRequest(m))
}

/// The greatest of the priorities; the least number where there are none.
pub open spec fn greatest(priorities: Seq<i32>) -> int
    decreases priorities.len(),
{
    if priorities.len() == 0 {
        i32::MIN as int
    } else if priorities.last() > greatest(priorities.drop_last()) {
        priorities.last() as int
    } else {
        greatest(priorities.drop_last())
    }
}

/// The priority of a new binding: ten, or ten more than the greatest of the others.
pub fn next_binding_priority(priorities: &Vec<i32>) -> (r: i32)
    requires
        priorities@.len() > 0 ==> greatest(priorities@) + 10 <= i32::MAX,
    ensures
        r == if priorities@.len() == 0 {
            10
        } else {
            greatest(priorities@) + 10
        },
{
    if priorities.len() == 0 {
        return 10;
    }
    let mut top: i32 = i32::MIN;
    let mut i: usize = 0;
    proof {
        assert(priorities@.take(0) =~= Seq::empty());
    }
    while i < priorities.len()
        invariant
            i <= priorities@.len(),
            top == greatest(priorities@.take(i as int)),
        decreases priorities@.len() - i,
    {
        proof {
            assert(priorities@.take(i + 1).drop_last() =~= priorities@.take(i as int));
        }
        if priorities[i] > top {
            top = priorities[i];
        }
        i = i + 1;
    }
    proof {
        assert(priorities@.take(i as int) =~= priorities@);
    }
    top + 10
}

/// A new binding comes behind all others.
pub proof fn law_new_binding_comes_last(priorities: Seq<i32>, i: int)
    requires
        0 <= i < priorities.len(),
    ensures
        priorities[i] < greatest(priorities) + 10,
    decreases priorities.len(),
{
    if i < priorities.len() - 1 {
        law_new_binding_comes_last(priorities.drop_last(), i);
        assert(priorities.drop_last()[i] == priorities[i]);
    }
}

/// The priority of a binding that is added behind so many others.
pub fn appended_priority(existing: usize) -> (r: i32)
    requires
        existing * 10 + 10 <= i32::MAX,
    ensures
        r == existing * 10 + 10,
{
    (existing as i32) * 10 + 10
}

/// The priority of the binding at a place in the order that an administrator gives.
pub open spec fn priority_at(place: int) -> int {
    (place + 1) * 10
}

/// The priorities of so many bindings in the order that an administrator gives.
pub fn reordered_priorities(count: usize) -> (r: Vec<i32>)
    requires
        count * 10 <= i32::MAX,
    ensures
        r@.len() == count,
        forall|i: int| 0 <= i < count ==> #[trigger] r@[i] == priority_at(i),
{
    let mut r: Vec<i32> = Vec::new();
    let mut i: usize = 0;
    while i < count
        invariant
            i <= count,
            count * 10 <= i32::MAX,
            r@.len() == i,
            forall|j: int| 0 <= j < i ==> #[trigger] r@[j] == priority_at(j),
        decreases count - i,
    {
        r.push((i as i32 + 1) * 10);
        i = i + 1;
    }
    r
}

/// Bindings are called in the order that an administrator gave them, whatever order they are
/// stored in.
pub proof fn law_reordered_bindings_are_called_in_order(stored: Seq<Binding>, given: Seq<Binding>)
    requires
        stored.to_multiset() == given.to_multiset(),
        forall|i: int| 0 <= i < given.len() ==> (#[trigger] given[i]).priority == priority_at(i),
    ensures
        stable_sort(stored, binding_order()) == given,
{
    law_sort_restores_order(stored, given, binding_order());
}

/// A binding that is appended comes behind all others of an order that an administrator gave.
pub proof fn law_appended_binding_comes_last(priorities: Seq<i32>, i: int)
    requires
        0 <= i < priorities.len(),
        priorities[i] == priority_at(i),
    ensures
        priorities[i] < priorities.len() * 10 + 10,
{
}

/// The names without the white space around them; those of which nothing is left are dropped.
pub open spec fn cleaned(names: Seq<Seq<char>>) -> Seq<Seq<char>>
    decreases names.len(),
{
    if names.len() == 0 {
        Seq::empty()
    } else {
        let front = cleaned(names.drop_last());
        let name = trim(names.last());
        if name.len() == 0 {
            front
        } else {
            front.push(name)
        }
    }
}

/// The names of discovered models that are stored.
pub fn clean_model_names(names: &Vec<String>) -> (r: Vec<String>)
    ensures
        texts(r@) == cleaned(texts(names@)),
{
    let ghost all = texts(names@);
    let mut out: Vec<String> = Vec::new();
    let mut i: usize = 0;
    proof {
        assert(all.take(0) =~= Seq::empty());
        assert(texts(out@) =~= Seq::empty());
    }
    while i < names.len()
        invariant
            all == texts(names@),
            i <= names@.len(),
            texts(out@) == cleaned(all.take(i as int)),
        decreases names@.len() - i,
    {
        let name = trimmed(names[i].as_str());
        proof {
            assert(all.take(i + 1).drop_last() =~= all.take(i as int));
            assert(all.take(i + 1).last() == names@[i as int]@);
        }
        if !name.as_str().is_empty() {
            let ghost before = texts(out@);
            out.push(name);
            proof {
                assert(texts(out@) =~= before.push(name@));
            }
        }
        i = i + 1;
    }
    proof {
        assert(all.take(i as int) =~= all);
    }
    out
}

/// The unit and the window of a quota have to be known ones.
pub fn check_quota_settings(unit: &str, window: &str) -> (r: AdminResult<()>)
    ensures
        if unit@ != "token"@ && unit@ != "call"@ {
            bad_request(r, "invalid unit '"@ + unit@ + "': expected 'token' or 'call'"@)
        } else if window@ != "day"@ && window@ != "month"@ && window@ != "total"@ {
            bad_request(
                r,
                "invalid window '"@ + window@ + "': expected 'day', 'month' or 'total'"@,
            )
        } else {
            r is Ok
        },
{
    if !same(unit, "token") && !same(unit, "call") {
        return Err(
            AdminError::BadRequest(
                concat3("invalid unit '", unit, "': expected 'token' or 'call'"),
            ),
        );
    }
    if !same(window, "day") && !same(window, "month") && !same(window, "total") {
        return Err(
            AdminError::BadRequest(
                concat3("invalid window '", window, "': expected 'day', 'month' or 'total'"),
            ),
        );
    }
    Ok(())
}

/// The text of the refusal to remove a model that is bound.
pub open spec fn bound_text(count: i64) -> Seq<char> {
    "该模型已被 "@ + decimal(count as int)
        + " 个大模型绑定，请先在 Models 页面解除绑定后再删除"@
}

/// A discovered model may be removed only where no model is bound to it; one that is not known
/// may be.
pub fn check_removable(binding_count: Option<i64>) -> (r: AdminResult<()>)
    ensures
        match binding_count {
            Some(n) => if n > 0 {
                r is Err && r->Err_0 is Conflict && r->Err_0.spec_message() == bound_text(n)
            } else {
                r is Ok
            },
            None => r is Ok,
        },
{
    match binding_count {
        Some(n) => {
            if n > 0 {
                let mut m = "该模型已被 ".to_owned();
                push_decimal(&mut m, n);
                m.append(" 个大模型绑定，请先在 Models 页面解除绑定后再删除");
                return Err(AdminError::Conflict(m));
            }
            Ok(())
        },
        None => Ok(()),
    }
}

/// The provider that a form names; any but Anthropic is taken to be OpenAI compatible.
pub fn provider_of(name: &str) -> (r: ChannelProvider)
    ensures
        r == if name@ == "anthropic"@ {
            ChannelProvider::Anthropic
        } else {
            ChannelProvider::OpenaiCompatible
        },
{
    if same(name, "anthropic") {
        ChannelProvider::Anthropic
    } else {
        ChannelProvider::OpenaiCompatible
    }
}

/// Decides on new pricing, given what became of its expression: billing by expression needs an
/// expression, and one that is accepted.
pub fn check_pricing(pricing: &ChannelModelPricing, validated: &ProxyResult<()>) -> (r: AdminResult<
    (),
>)
    ensures
        if pricing.billing_type != BillingType::Expression {
            r is Ok
        } else if pricing.billing_expr is None {
            bad_request(r, "billing_expr is required for Expression mode"@)
        } else {
            match validated {
                Ok(_) => r is Ok,
                Err(e) => bad_request(r, "invalid billing expression: "@ + e.spec_message()),
            }
        },
{
    match pricing.billing_type {
        BillingType::Expression => {
            if pricing.billing_expr.is_none() {
                return Err(
                    AdminError::BadRequest(
                        "billing_expr is required for Expression mode".to_owned(),
                    ),
                );
            }
            match validated {
                Ok(_) => Ok(()),
                Err(e) => Err(
                    AdminError::BadRequest(
                        concat("invalid billing expression: ", e.message().as_str()),
                    ),
                ),
            }
        },
        _ => Ok(()),
    }
}

/// The text of the refusal to bind a model to a name that was not discovered.
pub open spec fn undiscovered_text(upstream: Seq<char>, channel_id: i64) -> Seq<char> {
    "upstream_model_name '"@ + upstream + "' does not match any discovered model (channel="@
        + decimal(channel_id as int) + ", raw_model_name) in discovered_models"@
}

/// A model may be bound where the model and the channel exist and the channel's name of the model
/// was discovered.
pub fn check_binding_target(
    model_id: i64,
    model_exists: bool,
    channel_id: i64,
    channel_exists: bool,
    upstream: &str,
    discovered: bool,
) -> (r: AdminResult<()>)
    ensures
        if !model_exists {
            not_found(r, missing_text("model"@, model_id))
        } else if !channel_exists {
            not_found(r, missing_text("channel"@, channel_id))
        } else if !discovered {
            bad_request(r, undiscovered_text(upstream@, channel_id))
        } else {
            r is Ok
        },
{
    if !model_exists {
        return Err(AdminError::NotFound(missing("model", model_id)));
    }
    if !channel_exists {
        return Err(AdminError::NotFound(missing("channel", channel_id)));
    }
    if !discovered {
        let mut m = concat3(
            "upstream_model_name '",
            upstream,
            "' does not match any discovered model (channel=",
        );
        push_decimal(&mut m, channel_id);
        m.append(", raw_model_name) in discovered_models");
        return Err(AdminError::BadRequest(m));
    }
    Ok(())
}

/// The first binding to a channel under an upstream name.
pub open spec fn binding_at(bindings: Seq<Binding>, channel_id: i64, upstream: Seq<char>, i: int) -> bool {
    &&& 0 <= i < bindings.len()
    &&& bindings[i].channel_id == channel_id
    &&& bindings[i].upstream_model_name@ == upstream
}

/// The position of a binding.
pub fn find_binding(bindings: &Vec<Binding>, channel_id: i64, upstream: &str) -> (r: Option<usize>)
    ensures
        match r {
            Some(i) => binding_at(bindings@, channel_id, upstream@, i as int) && forall|j: int|
                0 <= j < i ==> !binding_at(bindings@, channel_id, upstream@, j),
            None => forall|j: int| !binding_at(bindings@, channel_id, upstream@, j),
        },
{
    let mut i: usize = 0;
    while i < bindings.len()
        invariant
            i <= bindings@.len(),
            forall|j: int| 0 <= j < i ==> !binding_at(bindings@, channel_id, upstream@, j),
        decreases bindings@.len() - i,
    {
        if bindings[i].channel_id == channel_id && same(
            bindings[i].upstream_model_name.as_str(),
            upstream,
        ) {
            return Some(i);
        }
        i = i + 1;
    }
    None
}

/// The API key of the first active key.
pub open spec fn first_active(keys: Seq<KeyConfig>) -> Option<Seq<char>>
    decreases keys.len(),
{
    if keys.len() == 0 {
        None
    } else if keys[0].status == crate::types::KeyStatus::Active {
        Some(keys[0].api_key@)
    } else {
        first_active(keys.drop_first())
    }
}

/// The API key that models are discovered with: that of the first active key.
pub fn discovery_key(keys: &Vec<KeyConfig>) -> (r: AdminResult<String>)
    ensures
        match first_active(keys@) {
            Some(k) => r is Ok && r->Ok_0@ == k,
            None => bad_request(r, "no active key found for this channel"@),
        },
{
    let mut i: usize = 0;
    proof {
        assert(keys@.skip(0) =~= keys@);
    }
    while i < keys.len()
        invariant
            i <= keys@.len(),
            first_active(keys@.skip(i as int)) == first_active(keys@),
        decreases keys@.len() - i,
    {
        proof {
            assert(keys@.skip(i as int)[0] == keys@[i as int]);
            assert(keys@.skip(i as int).drop_first() =~= keys@.skip(i + 1));
        }
        if keys[i].status.is_available() {
            return Ok(keys[i].api_key.clone());
        }
        i = i + 1;
    }
    Err(AdminError::BadRequest("no active key found for this channel".to_owned()))
}

/// The texts among some items, in their order.
pub open spec fn texts_among(items: Seq<Option<JsonView>>) -> Seq<Seq<char>>
    decreases items.len(),
{
    if items.len() == 0 {
        Seq::empty()
    } else {
        let front = texts_among(items.drop_last());
        match items.last() {
            Some(JsonView::Text(s)) => front.push(s),
            _ => front,
        }
    }
}

/// The views of items.
pub open spec fn item_views(items: Seq<Option<JsonItem>>) -> Seq<Option<JsonView>> {
    items.map_values(|i: Option<JsonItem>| option_item(i))
}

/// The texts among some items.
pub fn collect_texts(items: Vec<Option<JsonItem>>) -> (r: Vec<String>)
    ensures
        texts(r@) == texts_among(item_views(items@)),
{
    let ghost all = item_views(items@);
    let ghost source = items@;
    let mut rest = items;
    let mut out: Vec<String> = Vec::new();
    let ghost mut done: int = 0;
    proof {
        assert(all.take(0) =~= Seq::empty());
        assert(texts(out@) =~= Seq::empty());
    }
    while rest.len() > 0
        invariant
            all == item_views(source),
            0 <= done <= source.len(),
            rest@ == source.skip(done),
            texts(out@) == texts_among(all.take(done)),
        ensures
            done == source.len(),
            texts(out@) == texts_among(all.take(done)),
        decreases rest@.len(),
    {
        let item = rest.remove(0);
        proof {
            assert(source.skip(done).remove(0) =~= source.skip(done + 1));
            assert(all.take(done + 1).drop_last() =~= all.take(done));
            assert(all.take(done + 1).last() == option_item(item));
            done = done + 1;
        }
        if let Some(JsonItem::Text(s)) = item {
            let ghost before = texts(out@);
            out.push(s);
            proof {
                assert(texts(out@) =~= before.push(s@));
            }
        }
    }
    proof {
        assert(all.take(done) =~= all);
    }
    out
}

/// The pointer to the name of a model in a list of models.
pub open spec fn model_pointer(i: int) -> Seq<char> {
    "/data/"@ + digits(i as nat) + "/id"@
}

/// What stands in a list of models where the names of so many models are.
pub open spec fn model_items(body: Seq<char>, n: nat) -> Seq<Option<JsonView>> {
    Seq::new(n, |i: int| json_item(body, model_pointer(i)))
}

/// The number of models in a list.
pub open spec fn model_count(data: Option<JsonView>) -> nat {
    match data {
        Some(JsonView::Array(n)) => n as nat,
        _ => 0,
    }
}

/// The names of the models that an upstream lists.
pub fn discovered_models(body: &str) -> (r: Vec<String>)
    ensures
        texts(r@) == texts_among(model_items(body@, model_count(json_item(body@, "/data"@)))),
{
    let n: usize = match json_at(body, "/data") {
        Some(JsonItem::Array(n)) => n,
        _ => 0,
    };
    let mut items: Vec<Option<JsonItem>> = Vec::new();
    let mut i: usize = 0;
    while i < n
        invariant
            i <= n,
            items@.len() == i,
            forall|j: int|
                0 <= j < i ==> option_item(#[trigger] items@[j]) == json_item(
                    body@,
                    model_pointer(j),
                ),
        decreases n - i,
    {
        let mut pointer = "/data/".to_owned();
        push_digits(&mut pointer, i as u64);
        pointer.append("/id");
        items.push(json_at(body, pointer.as_str()));
        i = i + 1;
    }
    proof {
        assert(item_views(items@) =~= model_items(body@, n as nat));
    }
    collect_texts(items)
}

/// A request that tries a channel out: where it goes, and its body where it asks for a completion.
#[derive(Debug, PartialEq, Eq)]
pub struct Probe {
    pub url: String,
    pub body: Option<String>,
}

/// The body of a request for a single token.
pub open spec fn probe_body_of(provider: ChannelProvider, model: Seq<char>) -> Seq<char> {
    let front =
        "{\"max_tokens\":1,\"messages\":[{\"content\":\"hi\",\"role\":\"user\"}],\"model\":"@
        + json_quoted(model);
    match provider {
        ChannelProvider::Anthropic => front + "}"@,
        ChannelProvider::OpenaiCompatible => front + ",\"stream\":false}"@,
    }
}

/// The request that tries a channel out: a completion of one token where a model is known, and
/// the list of models otherwise.
pub fn probe_request(provider: ChannelProvider, base_url: &str, model: Option<&str>) -> (r: Probe)
    ensures
        match model {
            None => r.url@ == endpoint(base_url@, "/models"@) && r.body is None,
            Some(m) => {
                &&& r.url@ == endpoint(
                    base_url@,
                    match provider {
                        ChannelProvider::Anthropic => "/messages"@,
                        ChannelProvider::OpenaiCompatible => "/chat/completions"@,
                    },
                )
                &&& option_text(r.body) == Some(probe_body_of(provider, m@))
            },
        },
{
    match model {
        None => Probe { url: build_models_url(base_url), body: None },
        Some(m) => {
            let mut body = concat(
                "{\"max_tokens\":1,\"messages\":[{\"content\":\"hi\",\"role\":\"user\"}],\"model\":",
                json_quote(m).as_str(),
            );
            match provider {
                ChannelProvider::Anthropic => {
                    body.append("}");
                    Probe { url: build_claude_messages_url(base_url), body: Some(body) }
                },
                ChannelProvider::OpenaiCompatible => {
                    body.append(",\"stream\":false}");
                    Probe { url: build_openai_chat_url(base_url), body: Some(body) }
                },
            }
        },
    }
}

/// What came of trying a channel out.
#[derive(Debug, PartialEq, Eq)]
pub enum ProbeOutcome {
    /// It answered, with a status, the status as text, and a body.
    Answered(u16, String, String),
    /// It could not be reached.
    Unreachable(String),
}

/// The status is one of success.
pub open spec fn is_success(status: u16) -> bool {
    200 <= status < 300
}

/// The result of trying a channel out: an answer with success, with a note where only the
/// connection was tried; otherwise the status and body, or why it could not be reached.
pub fn probe_result(outcome: &ProbeOutcome, with_model: bool, latency_ms: u64) -> (r:
    ConnectionTestResult)
    ensures
        r.latency_ms == latency_ms,
        match outcome {
            ProbeOutcome::Answered(status, text, body) => {
                &&& r.success == is_success(*status)
                &&& option_text(r.error) == if !is_success(*status) {
                    Some("HTTP "@ + text@ + ": "@ + body@)
                } else if with_model {
                    None
                } else {
                    Some("no models bound - only basic connectivity verified"@)
                }
            },
            ProbeOutcome::Unreachable(e) => !r.success && option_text(r.error) == Some(e@),
        },
{
    match outcome {
        ProbeOutcome::Answered(status, text, body) => {
            let success = 200 <= *status && *status < 300;
            let error = if !success {
                let mut m = concat3("HTTP ", text.as_str(), ": ");
                m.append(body.as_str());
                Some(m)
            } else if with_model {
                None
            } else {
                Some("no models bound - only basic connectivity verified".to_owned())
            };
            ConnectionTestResult { success, latency_ms, error }
        },
        ProbeOutcome::Unreachable(e) => ConnectionTestResult {
            success: false,
            latency_ms,
            error: Some(e.clone()),
        },
    }
}

/// The account that the first setup creates.
#[derive(Debug, PartialEq, Eq)]
pub struct NewAdmin {
    pub username: String,
    pub role: i32,
    pub group: String,
    pub quota: i64,
}

/// The quota of the account that the first setup creates.
pub const ADMIN_QUOTA: i64 = 999_999_999_000_000;

/// Whether the first setup is still to be done: there are no users yet.
pub fn setup_status(user_count: i64) -> (r: SetupStatusResponse)
    ensures
        r.needs_setup == (user_count == 0),
{
    SetupStatusResponse { needs_setup: user_count == 0 }
}

/// Decides on the first setup: it needs a name, a password of at least eight bytes, and no users
/// yet. The account is an administrator's.
pub fn setup_initialize(username: &str, password: &str, user_count: i64) -> (r: AdminResult<
    NewAdmin,
>)
    ensures
        if trim(username@).len() == 0 {
            bad_request(r, "用户名不能为空"@)
        } else if vstd::utf8::encode_utf8(password@).len() < 8 {
            bad_request(r, "密码长度至少 8 位"@)
        } else if user_count > 0 {
            bad_request(r, "系统已初始化，请直接登录"@)
        } else {
            &&& r is Ok
            &&& r->Ok_0.username@ == trim(username@)
            &&& r->Ok_0.role == 100
            &&& r->Ok_0.group@ == "default"@
            &&& r->Ok_0.quota == 999_999_999 * crate::types::QUOTA_PER_YUAN
        },
{
    let name = trimmed(username);
    if name.as_str().is_empty() {
        return Err(AdminError::BadRequest("用户名不能为空".to_owned()));
    }
    if password.as_bytes().len() < 8 {
        return Err(AdminError::BadRequest("密码长度至少 8 位".to_owned()));
    }
    if user_count > 0 {
        return Err(AdminError::BadRequest("系统已初始化，请直接登录".to_owned()));
    }
    Ok(NewAdmin { username: name, role: 100, group: "default".to_owned(), quota: ADMIN_QUOTA })
}

/// Decides on a change of one's own password, given whether there is a hash and whether the old
/// password matches it.
pub fn decide_password_change(has_hash: bool, matches_hash: bool) -> (r: AdminResult<()>)
    ensures
        if !has_hash {
            r is Err && r->Err_0 is Internal && r->Err_0.spec_message() == "password hash missing"@
        } else if !matches_hash {
            bad_request(r, "old password is incorrect"@)
        } else {
            r is Ok
        },
{
    if !has_hash {
        return Err(AdminError::Internal("password hash missing".to_owned()));
    }
    if !matches_hash {
        return Err(AdminError::BadRequest("old password is incorrect".to_owned()));
    }
    Ok(())
}

/// Decides on a change of one's own password, given the stored hash and the old password.
pub fn check_old_password(hash: Option<&str>, old_password: &str) -> (r: AdminResult<()>)
    ensures
        match hash {
            None => r is Err && r->Err_0 is Internal && r->Err_0.spec_message()
                == "password hash missing"@,
            Some(h) => if bcrypt_verdict(old_password@, h@) == Some(true) {
                r is Ok
            } else {
                bad_request(r, "old password is incorrect"@)
            },
        },
{
    match hash {
        Some(h) => decide_password_change(true, verify_password(old_password, h)),
        None => decide_password_change(false, false),
    }
}

/// What a probe is made of: the channel, the key to use, and the model to ask for.
#[derive(Debug, PartialEq, Eq)]
pub struct ProbeTarget {
    pub provider: ChannelProvider,
    pub base_url: String,
    pub api_key: Option<String>,
    pub model: Option<String>,
}

/// Probes a channel, with its first key, for a model where one is given.
pub fn probe_target(
    channel_id: i64,
    channel: Option<&ChannelConfig>,
    keys: &Vec<KeyConfig>,
    model: Option<String>,
) -> (r: AdminResult<ProbeTarget>)
    ensures
        match channel {
            None => not_found(r, missing_text("channel"@, channel_id)),
            Some(c) => match r {
                Ok(t) => {
                    &&& t.provider == c.provider
                    &&& t.base_url == c.base_url
                    &&& t.api_key == if keys@.len() > 0 {
                        Some(keys@[0].api_key)
                    } else {
                        None
                    }
                    &&& t.model == model
                },
                Err(_) => false,
            },
        },
{
    match channel {
        None => Err(AdminError::NotFound(missing("channel", channel_id))),
        Some(c) => {
            let api_key: Option<String> = if keys.len() > 0 {
                Some(keys[0].api_key.clone())
            } else {
                None
            };
            Ok(
                ProbeTarget {
                    provider: c.provider,
                    base_url: c.base_url.clone(),
                    api_key,
                    model,
                },
            )
        },
    }
}

/// The upstream name of the first binding.
pub fn first_bound_model(bindings: &Vec<Binding>) -> (r: Option<String>)
    ensures
        r == if bindings@.len() > 0 {
            Some(bindings@[0].upstream_model_name)
        } else {
            None
        },
{
    if bindings.len() > 0 {
        Some(bindings[0].upstream_model_name.clone())
    } else {
        None
    }
}

/// What a model is probed on.
#[derive(Debug, PartialEq, Eq)]
pub enum ModelProbe {
    /// A channel, under an upstream name.
    On(i64, String),
    /// Nothing: no channel is bound to the model.
    Unbound(ConnectionTestResult),
}

/// Chooses what a model is probed on: its first binding.
pub fn model_probe(model_id: i64, model_found: bool, bindings: &Vec<Binding>) -> (r: AdminResult<
    ModelProbe,
>)
    ensures
        if !model_found {
            not_found(r, missing_text("model"@, model_id))
        } else if bindings@.len() > 0 {
            r == Ok::<ModelProbe, AdminError>(
                ModelProbe::On(bindings@[0].channel_id, bindings@[0].upstream_model_name),
            )
        } else {
            match r {
                Ok(ModelProbe::Unbound(t)) => {
                    &&& !t.success
                    &&& t.latency_ms == 0
                    &&& option_text(t.error) == Some("no channels bound to this model"@)
                },
                _ => false,
            }
        },
{
    if !model_found {
        return Err(AdminError::NotFound(missing("model", model_id)));
    }
    if bindings.len() > 0 {
        return Ok(
            ModelProbe::On(bindings[0].channel_id, bindings[0].upstream_model_name.clone()),
        );
    }
    Ok(
        ModelProbe::Unbound(
            ConnectionTestResult {
                success: false,
                latency_ms: 0,
                error: Some("no channels bound to this model".to_owned()),
            },
        ),
    )
}

/// The text for a binding that does not exist.
pub open spec fn unbound_text(model_id: i64, channel_id: i64, upstream: Seq<char>) -> Seq<char> {
    "binding for model "@ + decimal(model_id as int) + " on channel "@ + decimal(
        channel_id as int,
    ) + " (upstream "@ + upstream + ") not found"@
}

/// Whether a binding can be probed: the model and the binding have to exist.
pub fn binding_probe(
    model_id: i64,
    model_found: bool,
    bindings: &Vec<Binding>,
    channel_id: i64,
    upstream: &str,
) -> (r: AdminResult<()>)
    ensures
        if !model_found {
            not_found(r, missing_text("model"@, model_id))
        } else if forall|j: int| !binding_at(bindings@, channel_id, upstream@, j) {
            not_found(r, unbound_text(model_id, channel_id, upstream@))
        } else {
            r is Ok
        },
{
    if !model_found {
        return Err(AdminError::NotFound(missing("model", model_id)));
    }
    match find_binding(bindings, channel_id, upstream) {
        Some(_) => Ok(()),
        None => {
            let mut m = "binding for model ".to_owned();
            push_decimal(&mut m, model_id);
            m.append(" on channel ");
            push_decimal(&mut m, channel_id);
            m.append(" (upstream ");
            m.append(upstream);
            m.append(") not found");
            Err(AdminError::NotFound(m))
        },
    }
}

/// The result is the failure of an upstream, with the given text.
pub open spec fn bad_gateway<T>(r: AdminResult<T>, text: Seq<char>) -> bool {
    match r {
        Err(AdminError::BadGateway(m)) => m@ == text,
        _ => false,
    }
}

/// The models that an upstream lists, given what it answered and, where its answer could not be
/// read, why not.
pub fn discovery_answer(outcome: &ProbeOutcome, parse_error: Option<&str>) -> (r: AdminResult<
    Vec<String>,
>)
    ensures
        match outcome {
            ProbeOutcome::Unreachable(e) => bad_gateway(r, "request failed: "@ + e@),
            ProbeOutcome::Answered(status, text, body) => if !is_success(*status) {
                bad_gateway(r, "Upstream HTTP "@ + text@ + ": "@ + body@)
            } else {
                match parse_error {
                    Some(e) => bad_gateway(r, "parse upstream response: "@ + e@),
                    None => match r {
                        Ok(models) => texts(models@) == texts_among(
                            model_items(body@, model_count(json_item(body@, "/data"@))),
                        ),
                        Err(_) => false,
                    },
                }
            },
        },
{
    match outcome {
        ProbeOutcome::Unreachable(e) => Err(
            AdminError::BadGateway(concat("request failed: ", e.as_str())),
        ),
        ProbeOutcome::Answered(status, text, body) => {
            if !(200 <= *status && *status < 300) {
                let mut m = concat3("Upstream HTTP ", text.as_str(), ": ");
                m.append(body.as_str());
                return Err(AdminError::BadGateway(m));
            }
            match parse_error {
                Some(e) => Err(AdminError::BadGateway(concat("parse upstream response: ", e))),
                None => Ok(discovered_models(body.as_str())),
            }
        },
    }
}

/// The name of the first channel with a number; no name where there is none.
pub open spec fn channel_name_in(channels: Seq<ChannelConfig>, id: i64) -> Seq<char>
    decreases channels.len(),
{
    if channels.len() == 0 {
        Seq::empty()
    } else if channels[0].id == id {
        channels[0].name@
    } else {
        channel_name_in(channels.drop_first(), id)
    }
}

/// The name of the first channel with a number; no name where there is none.
fn channel_name(channels: &Vec<ChannelConfig>, id: i64) -> (r: String)
    ensures
        r@ == channel_name_in(channels@, id),
{
    let mut i: usize = 0;
    proof {
        assert(channels@.skip(0) =~= channels@);
    }
    while i < channels.len()
        invariant
            i <= channels@.len(),
            channel_name_in(channels@.skip(i as int), id) == channel_name_in(channels@, id),
        decreases channels@.len() - i,
    {
        proof {
            assert(channels@.skip(i as int)[0] == channels@[i as int]);
            assert(channels@.skip(i as int).drop_first() =~= channels@.skip(i + 1));
        }
        if channels[i].id == id {
            return channels[i].name.clone();
        }
        i = i + 1;
    }
    String::new()
}

/// The binding as it is shown.
pub open spec fn shows_binding(
    info: ModelBindingInfo,
    b: Binding,
    channels: Seq<ChannelConfig>,
) -> bool {
    &&& info.channel_id == b.channel_id
    &&& info.channel_name@ == channel_name_in(channels, b.channel_id)
    &&& info.upstream_model_name == b.upstream_model_name
    &&& info.priority == b.priority
    &&& info.weight == b.weight
}

/// A model as it is shown: with its bindings, each with the name of its channel.
pub fn model_info(
    id: i64,
    canonical_name: String,
    routing_strategy: String,
    bindings: &Vec<Binding>,
    channels: &Vec<ChannelConfig>,
) -> (r: ModelInfo)
    ensures
        r.id == id,
        r.canonical_name == canonical_name,
        r.routing_strategy == routing_strategy,
        r.bindings@.len() == bindings@.len(),
        forall|i: int|
            0 <= i < bindings@.len() ==> shows_binding(
                #[trigger] r.bindings@[i],
                bindings@[i],
                channels@,
            ),
{
    let mut infos: Vec<ModelBindingInfo> = Vec::new();
    let mut i: usize = 0;
    while i < bindings.len()
        invariant
            i <= bindings@.len(),
            infos@.len() == i,
            forall|j: int|
                0 <= j < i ==> shows_binding(#[trigger] infos@[j], bindings@[j], channels@),
        decreases bindings@.len() - i,
    {
        let b = &bindings[i];
        infos.push(
            ModelBindingInfo {
                channel_id: b.channel_id,
                channel_name: channel_name(channels, b.channel_id),
                upstream_model_name: b.upstream_model_name.clone(),
                priority: b.priority,
                weight: b.weight,
            },
        );
        i = i + 1;
    }
    ModelInfo { id, canonical_name, routing_strategy, bindings: infos }
}

/// An admin gives a new token to whom the query names, or else to whom the request names, and to
/// themselves where neither names anyone.
pub proof fn law_admins_choose_the_owner(user: UserConfig, id: i64, body: i64)
    requires
        user.spec_is_admin(),
    ensures
        owner_of_new_token(user, Some(id), body) == id,
        body != 0 ==> owner_of_new_token(user, None, body) == body,
        owner_of_new_token(user, None, 0) == user.id,
{
}

/// Who is no admin may act on what they own, and on nothing else; an admin may act on everything.
pub proof fn law_owners_act_on_their_own(user: UserConfig, owner: i64)
    ensures
        user.role >= 10 ==> may_act_on(user, Some(owner)) && may_act_on(user, None),
        user.role < 10 ==> (may_act_on(user, Some(owner)) <==> owner == user.id) && !may_act_on(
            user,
            None,
        ),
{
}

/// The states of keys have different numbers, from one to four, and each is known by one name.
pub proof fn law_key_states_are_numbered(status: Seq<char>, other: Seq<char>)
    ensures
        key_status_of(status) matches Some(n) ==> 1 <= n <= 4,
        key_status_of(status) is Some && key_status_of(status) == key_status_of(other) ==> status
            == other,
        key_status_of(status) == Some(1i32) ==> status == "active"@,
        key_status_of(status) == Some(2i32) ==> status == "disabled"@,
        key_status_of(status) == Some(3i32) ==> status == "cooldown"@,
        key_status_of(status) == Some(4i32) ==> status == "quota_exhausted"@,
        key_status_of("active"@) is Some,
        key_status_of("disabled"@) is Some,
        key_status_of("cooldown"@) is Some,
        key_status_of("quota_exhausted"@) is Some,
{
}

/// The greatest of priorities is one of them, and none is greater.
pub proof fn law_greatest_priority_is_one_of_them(priorities: Seq<i32>, i: int)
    requires
        0 <= i < priorities.len(),
    ensures
        priorities[i] <= greatest(priorities),
        exists|j: int| 0 <= j < priorities.len() && (#[trigger] priorities[j]) == greatest(priorities),
    decreases priorities.len(),
{
    let front = priorities.drop_last();
    let n = priorities.len() - 1;
    if n == 0 {
        assert(greatest(front) == i32::MIN);
        assert(priorities[0] == greatest(priorities));
    } else {
        law_greatest_priority_is_one_of_them(front, if i < n { i } else { 0 });
        let j = choose|j: int| 0 <= j < front.len() && (#[trigger] front[j]) == greatest(front);
        assert(priorities[j] == front[j]);
        assert(priorities[n] == priorities.last());
        if i < n {
            assert(front[i] == priorities[i]);
        }
    }
}

/// Names are cleaned one by one and stay in their order: each loses the space around it, and one
/// that is nothing but space is left out.
pub proof fn law_names_are_cleaned_in_order(names: Seq<Seq<char>>, name: Seq<char>)
    ensures
        cleaned(Seq::empty()).len() == 0,
        trim(name).len() > 0 ==> cleaned(names.push(name)) == cleaned(names).push(trim(name)),
        trim(name).len() == 0 ==> cleaned(names.push(name)) == cleaned(names),
        forall|i: int| 0 <= i < cleaned(names).len() ==> (#[trigger] cleaned(names)[i]).len() > 0,
    decreases names.len(),
{
    assert(names.push(name).drop_last() =~= names);
    if names.len() > 0 {
        law_names_are_cleaned_in_order(names.drop_last(), name);
    }
}

/// Models are discovered with the first of the channel's keys that is active.
pub proof fn law_first_active_key_discovers(keys: Seq<KeyConfig>, i: int)
    requires
        0 <= i <= keys.len(),
        forall|j: int|
            0 <= j < i ==> (#[trigger] keys[j]).status != crate::types::KeyStatus::Active,
        i < keys.len() ==> keys[i].status == crate::types::KeyStatus::Active,
    ensures
        i < keys.len() ==> first_active(keys) == Some(keys[i].api_key@),
        i == keys.len() ==> first_active(keys) is None,
    decreases keys.len(),
{
    if i > 0 {
        let rest = keys.drop_first();
        assert(keys[0].status != crate::types::KeyStatus::Active);
        assert forall|j: int| 0 <= j < i - 1 implies (#[trigger] rest[j]).status
            != crate::types::KeyStatus::Active by {
            assert(rest[j] == keys[j + 1]);
        }
        law_first_active_key_discovers(rest, i - 1);
    }
}

/// Of the items of an answer the texts are taken, in their order, and nothing else.
pub proof fn law_texts_are_taken_in_order(
    items: Seq<Option<JsonView>>,
    text: Seq<char>,
    other: Option<JsonView>,
)
    requires
        !(other matches Some(JsonView::Text(_))),
    ensures
        texts_among(Seq::empty()).len() == 0,
        texts_among(items.push(Some(JsonView::Text(text)))) == texts_among(items).push(text),
        texts_among(items.push(other)) == texts_among(items),
{
    assert(items.push(Some(JsonView::Text(text))).drop_last() =~= items);
    assert(items.push(other).drop_last() =~= items);
}

/// An answer offers as many models as its list has entries, each by its own name.
pub proof fn law_every_offered_model_is_read(body: Seq<char>, n: usize, i: int)
    requires
        0 <= i < n,
    ensures
        model_count(Some(JsonView::Array(n))) == n,
        model_items(body, n as nat).len() == n,
        model_items(body, n as nat)[i] == json_item(
            body,
            "/data/"@ + decimal(i) + "/id"@,
        ),
{
}

/// The name of a channel is that of the first one with its number, and empty where there is none.
pub proof fn law_first_channel_gives_the_name(channels: Seq<ChannelConfig>, id: i64, i: int)
    requires
        0 <= i <= channels.len(),
        forall|j: int| 0 <= j < i ==> (#[trigger] channels[j]).id != id,
        i < channels.len() ==> channels[i].id == id,
    ensures
        i < channels.len() ==> channel_name_in(channels, id) == channels[i].name@,
        i == channels.len() ==> channel_name_in(channels, id).len() == 0,
    decreases channels.len(),
{
    if i > 0 {
        let rest = channels.drop_first();
        assert(channels[0].id != id);
        assert forall|j: int| 0 <= j < i - 1 implies (#[trigger] rest[j]).id != id by {
            assert(rest[j] == channels[j + 1]);
        }
        law_first_channel_gives_the_name(rest, id, i - 1);
    }
}

/// A binding is shown with its channel, its upstream name, its priority and its weight.
pub proof fn law_bindings_are_shown_as_they_are(
    info: ModelBindingInfo,
    b: Binding,
    channels: Seq<ChannelConfig>,
)
    requires
        shows_binding(info, b, channels),
    ensures
        info.channel_id == b.channel_id,
        info.upstream_model_name == b.upstream_model_name,
        info.priority == b.priority,
        info.weight == b.weight,
        info.channel_name@ == channel_name_in(channels, b.channel_id),
{
}

/// A probe succeeds on the statuses from 200 to 299.
pub proof fn law_successful_statuses(status: u16)
    ensures
        is_success(status) <==> status / 100 == 2,
{
}

/// A probe asks its model for one token, as JSON text around the name of the model; only for a
/// provider of the OpenAI format does it say that nothing is to be streamed.
pub proof fn law_probes_name_their_model(model: Seq<char>)
    ensures
        probe_body_of(ChannelProvider::Anthropic, model)
            == "{\"max_tokens\":1,\"messages\":[{\"content\":\"hi\",\"role\":\"user\"}],\"model\":"@
            + json_quoted(model) + "}"@,
        probe_body_of(ChannelProvider::OpenaiCompatible, model)
            == "{\"max_tokens\":1,\"messages\":[{\"content\":\"hi\",\"role\":\"user\"}],\"model\":"@
            + json_quoted(model) + ",\"stream\":false}"@,
{
}

/// A binding is found by its channel and its upstream name together.
pub proof fn law_bindings_are_found_by_channel_and_name(
    bindings: Seq<Binding>,
    channel_id: i64,
    upstream: Seq<char>,
    i: int,
)
    ensures
        0 <= i < bindings.len() ==> binding_at(
            bindings,
            bindings[i].channel_id,
            bindings[i].upstream_model_name@,
            i,
        ),
        binding_at(bindings, channel_id, upstream, i) ==> 0 <= i < bindings.len()
            && bindings[i].channel_id == channel_id && bindings[i].upstream_model_name@ == upstream,
{
}

/// Places in a list are ten apart, and the first has the priority ten.
pub proof fn law_places_are_ten_apart(place: int)
    ensures
        priority_at(0) == 10,
        priority_at(place + 1) == priority_at(place) + 10,
{
}

/// A refusal is told by its kind and its text, and nothing else counts as one.
pub proof fn law_refusals_have_kind_and_text<T>(r: AdminResult<T>, text: Seq<char>)
    ensures
        bad_request(r, text) <==> (r matches Err(e) && e is BadRequest && e.spec_message() == text),
        forbidden(r, text) <==> (r matches Err(e) && e is Forbidden && e.spec_message() == text),
        not_found(r, text) <==> (r matches Err(e) && e is NotFound && e.spec_message() == text),
        bad_gateway(r, text) <==> (r matches Err(e) && e is BadGateway && e.spec_message() == text),
{
}

} // verus!
