//! The configuration of the server.
use vstd::prelude::*;

use crate::text::{chars_of, decimal, digits};

verus! {

#[derive(Debug, PartialEq, Eq)]
pub struct AppConfig {
    pub server: ServerConfig,
    pub log: LogConfig,
    pub bootstrap: BootstrapConfig,
    pub database: DatabaseConfig,
}

#[derive(Debug, PartialEq, Eq)]
pub struct ServerConfig {
    pub host: String,
    pub port: u16,
    pub tls: TlsConfig,
    pub upstream_timeout_secs: u64,
    pub streaming_timeout_secs: u64,
}

#[derive(Debug, PartialEq, Eq)]
pub struct TlsConfig {
    pub enabled: bool,
    pub cert: String,
    pub key: String,
}

#[derive(Debug, PartialEq, Eq)]
pub struct LogConfig {
    pub level: String,
}

#[derive(Debug, PartialEq, Eq)]
pub struct BootstrapConfig {
    pub config_file: String,
}

#[derive(Debug, PartialEq, Eq)]
pub struct DatabaseConfig {
    pub path: String,
}

/// The address that the server listens on by default: all of them.
pub fn default_host() -> (r: String)
    ensures
        r@ == "0.0.0.0"@,
{
    "0.0.0.0".to_owned()
}

pub fn default_port() -> (r: u16)
    ensures
        r == 8080,
{
    8080
}

/// How long an upstream may take by default, in seconds.
pub fn default_upstream_timeout() -> (r: u64)
    ensures
        r == 60,
{
    60
}

/// How long an upstream may take to begin a stream by default, in seconds.
pub fn default_streaming_timeout() -> (r: u64)
    ensures
        r == 300,
{
    300
}

pub fn default_log_level() -> (r: String)
    ensures
        r@ == "info"@,
{
    "info".to_owned()
}

pub fn default_db_path() -> (r: String)
    ensures
        r@ == "/data/chennix.db"@,
{
    "/data/chennix.db".to_owned()
}

impl Default for TlsConfig {
    fn default() -> (r: Self)
        ensures
            !r.enabled,
            r.cert@.len() == 0,
            r.key@.len() == 0,
    {
        TlsConfig { enabled: false, cert: String::new(), key: String::new() }
    }
}

impl Default for LogConfig {
    fn default() -> (r: Self)
        ensures
            r.level@ == "info"@,
    {
        LogConfig { level: default_log_level() }
    }
}

impl Default for DatabaseConfig {
    fn default() -> (r: Self)
        ensures
            r.path@ == "/data/chennix.db"@,
    {
        DatabaseConfig { path: default_db_path() }
    }
}

/// The value of a decimal digit.
pub open spec fn digit_value(c: char) -> int {
    c as int - '0' as int
}

/// A decimal digit.
pub open spec fn is_digit(c: char) -> bool {
    '0' <= c && c <= '9'
}

/// The number that decimal digits denote.
pub open spec fn value_of(s: Seq<char>) -> int
    decreases s.len(),
{
    if s.len() == 0 {
        0
    } else {
        value_of(s.drop_last()) * 10 + digit_value(s.last())
    }
}

/// The digits of a number: all of the text, but for a plus sign in front.
pub open spec fn digits_of(s: Seq<char>) -> Seq<char> {
    if s.len() > 0 && s[0] == '+' {
        s.drop_first()
    } else {
        s
    }
}

/// The text denotes a number that is at most `max`: digits, with or without a plus sign.
pub open spec fn parsed_number(s: Seq<char>, max: int) -> Option<int> {
    let d = digits_of(s);
    if d.len() > 0 && (forall|i: int| 0 <= i < d.len() ==> is_digit(#[trigger] d[i])) && value_of(d)
        <= max {
        Some(value_of(d))
    } else {
        None
    }
}

proof fn lemma_value_grows(s: Seq<char>, n: int)
    requires
        0 <= n <= s.len(),
        forall|i: int| 0 <= i < s.len() ==> is_digit(#[trigger] s[i]),
    ensures
        0 <= value_of(s.take(n)) <= value_of(s),
    decreases s.len() - n, s.len(),
{
    if n == s.len() {
        assert(s.take(n) =~= s);
        if n > 0 {
            let t = s.drop_last();
            assert forall|i: int| 0 <= i < t.len() implies is_digit(#[trigger] t[i]) by {
                assert(t[i] == s[i]);
            }
            lemma_value_grows(t, t.len() as int);
            assert(t.take(t.len() as int) =~= t);
            assert(is_digit(s[n - 1]));
        }
    } else {
        lemma_value_grows(s, n + 1);
        let t = s.take(n + 1);
        assert(t.drop_last() =~= s.take(n));
        assert(is_digit(s[n]));
        let u = s.take(n);
        assert forall|i: int| 0 <= i < u.len() implies is_digit(#[trigger] u[i]) by {
            assert(u[i] == s[i]);
        }
        lemma_value_grows(u, n);
        assert(u.take(n) =~= u);
    }
}

/// The number that a text denotes, where it is at most `max`.
pub fn parse_number(s: &str, max: u64) -> (r: Option<u64>)
    ensures
        match r {
            Some(n) => parsed_number(s@, max as int) == Some(n as int),
            None => parsed_number(s@, max as int) is None,
        },
{
    let v = chars_of(s);
    let n: usize = v.len();
    let start: usize = if n > 0 && v[0] == '+' {
        1
    } else {
        0
    };
    let ghost d = digits_of(s@);
    proof {
        assert(d =~= v@.subrange(start as int, n as int));
    }
    if start == n {
        return None;
    }
    let mut value: u64 = 0;
    let mut i: usize = start;
    proof {
        assert(d.take(0) =~= Seq::empty());
    }
    while i < n
        invariant
            n == v@.len(),
            start <= i <= n,
            start <= 1,
            d == digits_of(s@),
            d == v@.subrange(start as int, n as int),
            d.len() > 0,
            forall|j: int| 0 <= j < i - start ==> is_digit(#[trigger] d[j]),
            value == value_of(d.take(i - start)),
            value <= max,
        decreases n - i,
    {
        let c = v[i];
        proof {
            assert(d[i - start] == c);
        }
        if !('0' <= c && c <= '9') {
            proof {
                assert(!is_digit(d[i - start]));
            }
            return None;
        }
        let next: u128 = value as u128 * 10 + (c as u32 - '0' as u32) as u128;
        proof {
            assert(d.take(i - start + 1).drop_last() =~= d.take(i - start));
            assert(next == value_of(d.take(i - start + 1)));
        }
        if next > max as u128 {
            proof {
                if forall|j: int| 0 <= j < d.len() ==> is_digit(#[trigger] d[j]) {
                    lemma_value_grows(d, i - start + 1);
                }
            }
            return None;
        }
        value = next as u64;
        i = i + 1;
    }
    proof {
        assert(d.take(n - start) =~= d);
    }
    Some(value)
}

/// The settings that the environment may override.
#[derive(Debug, PartialEq, Eq)]
pub struct EnvOverrides {
    pub port: Option<String>,
    pub host: Option<String>,
    pub db_path: Option<String>,
    pub upstream_timeout_secs: Option<String>,
    pub streaming_timeout_secs: Option<String>,
    pub rust_log: Option<String>,
}

/// A number that the environment sets, where it is one; otherwise the number as it was.
pub open spec fn overridden(text: Option<String>, max: int, otherwise: int) -> int {
    match text {
        Some(t) => match parsed_number(t@, max) {
            Some(n) => n,
            None => otherwise,
        },
        None => otherwise,
    }
}

fn override_number(text: &Option<String>, max: u64, otherwise: u64) -> (r: u64)
    requires
        otherwise <= max,
    ensures
        r == overridden(*text, max as int, otherwise as int),
        r <= max,
{
    match text {
        Some(t) => match parse_number(t.as_str(), max) {
            Some(n) => n,
            None => otherwise,
        },
        None => otherwise,
    }
}

/// A text that the environment sets, or the text as it was.
pub open spec fn overridden_text(text: Option<String>, otherwise: String) -> String {
    match text {
        Some(t) => t,
        None => otherwise,
    }
}

fn override_text(text: Option<String>, otherwise: String) -> (r: String)
    ensures
        r == overridden_text(text, otherwise),
{
    match text {
        Some(t) => t,
        None => otherwise,
    }
}

/// The configuration with what the environment overrides. A number that cannot be read is
/// ignored.
pub fn apply_overrides(config: AppConfig, env: EnvOverrides) -> (r: AppConfig)
    ensures
        r.server.port == overridden(env.port, u16::MAX as int, config.server.port as int),
        r.server.host == overridden_text(env.host, config.server.host),
        r.server.tls == config.server.tls,
        r.server.upstream_timeout_secs == overridden(
            env.upstream_timeout_secs,
            u64::MAX as int,
            config.server.upstream_timeout_secs as int,
        ),
        r.server.streaming_timeout_secs == overridden(
            env.streaming_timeout_secs,
            u64::MAX as int,
            config.server.streaming_timeout_secs as int,
        ),
        r.log.level == overridden_text(env.rust_log, config.log.level),
        r.bootstrap == config.bootstrap,
        r.database.path == overridden_text(env.db_path, config.database.path),
{
    let port: u64 = override_number(&env.port, 65535, config.server.port as u64);
    let upstream_timeout_secs: u64 = override_number(
        &env.upstream_timeout_secs,
        u64::MAX,
        config.server.upstream_timeout_secs,
    );
    let streaming_timeout_secs: u64 = override_number(
        &env.streaming_timeout_secs,
        u64::MAX,
        config.server.streaming_timeout_secs,
    );
    AppConfig {
        server: ServerConfig {
            host: override_text(env.host, config.server.host),
            port: port as u16,
            tls: config.server.tls,
            upstream_timeout_secs,
            streaming_timeout_secs,
        },
        log: LogConfig { level: override_text(env.rust_log, config.log.level) },
        bootstrap: config.bootstrap,
        database: DatabaseConfig { path: override_text(env.db_path, config.database.path) },
    }
}

/// The hash of an account that was created without a password.
pub open spec fn placeholder_hash() -> Seq<char> {
    "PLACEHOLDER_BCRYPT_HASH"@
}

/// The account `admin` as it is created when the server starts.
#[derive(Debug, PartialEq, Eq)]
pub struct DefaultAdmin {
    pub username: String,
    pub password: String,
    pub role: i32,
    pub status: i32,
    pub quota: i64,
    pub group: String,
}

impl DefaultAdmin {
    /// The account is an enabled administrator's, of the default group, with the given password.
    pub open spec fn is_admin_with(self, password: Seq<char>) -> bool {
        &&& self.username@ == "admin"@
        &&& self.password@ == password
        &&& self.role == 100
        &&& self.status == 1
        &&& self.quota == 999_999_999
        &&& self.group@ == "default"@
    }
}

/// What is to be done about the account `admin` when the server starts.
#[derive(Debug, PartialEq, Eq)]
pub enum AdminBootstrap {
    Nothing,
    /// Create it.
    Create(DefaultAdmin),
    /// Give it a password in place of the placeholder.
    SetPassword(String),
}

/// The password of the environment, where it is not empty.
pub open spec fn given_password(env_password: Option<&str>) -> Option<Seq<char>> {
    match env_password {
        Some(p) => if p@.len() == 0 {
            None
        } else {
            Some(p@)
        },
        None => None,
    }
}

/// Decides about the account `admin`: where there are no users it is created if the environment
/// has a password; where it still has the placeholder hash it gets that password, or a fixed one.
pub fn ensure_default_admin(
    user_count: i64,
    env_password: Option<&str>,
    admin_hash: Option<&str>,
) -> (r: AdminBootstrap)
    ensures
        if user_count == 0 {
            match given_password(env_password) {
                Some(p) => r is Create && r->Create_0.is_admin_with(p),
                None => r is Nothing,
            }
        } else if admin_hash is Some && admin_hash->0@ == placeholder_hash() {
            r is SetPassword && r->SetPassword_0@ == match given_password(env_password) {
                Some(p) => p,
                None => "admin123"@,
            }
        } else {
            r is Nothing
        },
{
    let given: Option<String> = match env_password {
        Some(p) => if p.is_empty() {
            None
        } else {
            Some(p.to_owned())
        },
        None => None,
    };
    if user_count == 0 {
        return match given {
            Some(p) => AdminBootstrap::Create(
                DefaultAdmin {
                    username: "admin".to_owned(),
                    password: p,
                    role: 100,
                    status: 1,
                    quota: 999_999_999,
                    group: "default".to_owned(),
                },
            ),
            None => AdminBootstrap::Nothing,
        };
    }
    match admin_hash {
        Some(h) => {
            if crate::text::same(h, "PLACEHOLDER_BCRYPT_HASH") {
                match given {
                    Some(p) => AdminBootstrap::SetPassword(p),
                    None => AdminBootstrap::SetPassword("admin123".to_owned()),
                }
            } else {
                AdminBootstrap::Nothing
            }
        },
        None => AdminBootstrap::Nothing,
    }
}

proof fn lemma_value_of_digits(n: nat)
    ensures
        value_of(digits(n)) == n,
        digits(n).len() > 0,
        forall|i: int| 0 <= i < digits(n).len() ==> is_digit(#[trigger] digits(n)[i]),
    decreases n,
{
    if n < 10 {
        reveal_with_fuel(value_of, 2);
    } else {
        lemma_value_of_digits(n / 10);
        assert(digits(n).drop_last() =~= digits(n / 10));
    }
}

/// A number is read back from its decimal text, with or without a plus before it, unless it is
/// over the greatest that is asked for.
pub proof fn law_written_numbers_are_read(n: nat, max: int)
    ensures
        n <= max ==> {
            &&& parsed_number(decimal(n as int), max) == Some(n as int)
            &&& parsed_number(seq!['+'] + decimal(n as int), max) == Some(n as int)
        },
        n > max ==> {
            &&& parsed_number(decimal(n as int), max) is None
            &&& parsed_number(seq!['+'] + decimal(n as int), max) is None
        },
{
    lemma_value_of_digits(n);
    assert(is_digit(digits(n)[0]));
    assert((seq!['+'] + digits(n)).drop_first() =~= digits(n));
}

/// A text is no number where it is empty, is a mere plus, or holds a character that is no digit,
/// but for a plus at its front.
pub proof fn law_other_texts_are_no_numbers(s: Seq<char>, max: int, i: int)
    ensures
        parsed_number(Seq::empty(), max) is None,
        parsed_number(seq!['+'], max) is None,
        0 <= i < s.len() && (s[i] < '0' || s[i] > '9') && !(i == 0 && s[i] == '+')
            ==> parsed_number(s, max) is None,
{
    assert(seq!['+'].drop_first() =~= Seq::<char>::empty());
    if 0 <= i < s.len() && (s[i] < '0' || s[i] > '9') && !(i == 0 && s[i] == '+') {
        if s[0] == '+' {
            assert(digits_of(s)[i - 1] == s[i]);
        } else {
            assert(digits_of(s)[i] == s[i]);
        }
    }
}

/// A setting of the environment replaces the configured one where it is given and, for a number,
/// can be read; otherwise the configured one stays.
pub proof fn law_settings_are_overridden(
    text: Option<String>,
    max: int,
    otherwise: int,
    stays: String,
    n: int,
)
    ensures
        text is None ==> overridden(text, max, otherwise) == otherwise && overridden_text(
            text,
            stays,
        ) == stays,
        text matches Some(t) ==> {
            &&& overridden_text(text, stays) == t
            &&& parsed_number(t@, max) == Some(n) ==> overridden(text, max, otherwise) == n
            &&& parsed_number(t@, max) is None ==> overridden(text, max, otherwise) == otherwise
        },
{
}

/// A password is given where it is not empty.
pub proof fn law_given_passwords(password: Option<&str>)
    ensures
        given_password(password) is Some <==> (password matches Some(p) && p@.len() > 0),
        given_password(password) matches Some(g) ==> g == password->0@,
{
}

/// The admin that is created by default is called `admin`, has the highest role, is enabled and
/// belongs to the default group.
pub proof fn law_default_admin(admin: DefaultAdmin, password: Seq<char>)
    requires
        admin.is_admin_with(password),
    ensures
        admin.username@ == "admin"@,
        admin.password@ == password,
        admin.role == 100,
        admin.status == 1,
        admin.quota == 999_999_999,
        admin.group@ == "default"@,
{
}

} // verus!
