//! Passwords and random identifiers.
use vstd::prelude::*;

use crate::error::AdminError;
use crate::text::{concat, text_of};

verus! {

/// Whether bcrypt finds that a password matches a hash; nothing where the hash is malformed.
pub uninterp spec fn bcrypt_verdict(password: Seq<char>, hash: Seq<char>) -> Option<bool>;

/// `bcrypt::verify`: its result depends on the password and the hash alone.
#[verifier::external_body]
fn bcrypt_verify(password: &str, hash: &str) -> (r: Option<bool>)
    ensures
        r == bcrypt_verdict(password@, hash@),
{
    bcrypt::verify(password, hash).ok()
}

/// `bcrypt::hash` at its default cost: some hash, salted at random, that matches the password;
/// or the text of an error. Nothing is said of which salt it draws, nor of when it fails: that rests
/// with the machine's source of random numbers.
#[verifier::external_body]
fn bcrypt_hash(password: &str) -> (r: Result<String, String>)
    ensures
        match r {
            Ok(h) => bcrypt_verdict(password@, h@) == Some(true),
            Err(_) => true,
        },
{
    bcrypt::hash(password, bcrypt::DEFAULT_COST).map_err(|e| e.to_string())
}

/// Whether a password matches a hash; none matches a malformed hash.
pub fn verify_password(password: &str, hash: &str) -> (r: bool)
    ensures
        r == (bcrypt_verdict(password@, hash@) == Some(true)),
{
    match bcrypt_verify(password, hash) {
        Some(b) => b,
        None => false,
    }
}

/// A hash that the password matches, or an internal error.
pub fn hash_password(password: &str) -> (r: Result<String, AdminError>)
    ensures
        match r {
            Ok(h) => bcrypt_verdict(password@, h@) == Some(true),
            Err(e) => e is Internal && exists|cause: Seq<char>|
                #![trigger "bcrypt hash failed: "@ + cause]
                e.spec_message() == "bcrypt hash failed: "@ + cause,
        },
{
    match bcrypt_hash(password) {
        Ok(h) => Ok(h),
        Err(cause) => Err(AdminError::Internal(concat("bcrypt hash failed: ", cause.as_str()))),
    }
}

/// A hexadecimal digit, in small letters.
pub open spec fn is_hex(c: char) -> bool {
    ('0' <= c && c <= '9') || ('a' <= c && c <= 'f')
}

/// The places of the hyphens in the text of a UUID.
pub open spec fn is_break(i: int) -> bool {
    i == 8 || i == 13 || i == 18 || i == 23
}

/// The text of a random UUID: 32 hexadecimal digits in five groups, of which one tells the version
/// and one the variant.
pub open spec fn is_uuid(s: Seq<char>) -> bool {
    &&& s.len() == 36
    &&& forall|i: int|
        0 <= i < 36 ==> if is_break(i) {
            #[trigger] s[i] == '-'
        } else {
            is_hex(s[i])
        }
    &&& s[14] == '4'
    &&& s[19] == '8' || s[19] == '9' || s[19] == 'a' || s[19] == 'b'
}

/// `uuid::Uuid::new_v4` and `to_string`: the text of some UUID of version 4, in small letters.
/// Which one is left to chance. It panics where the machine gives no random bytes.
#[verifier::external_body]
fn random_uuid() -> (r: String)
    ensures
        is_uuid(r@),
{
    uuid::Uuid::new_v4().to_string()
}

/// The text without its hyphens.
pub open spec fn without_hyphens(s: Seq<char>) -> Seq<char>
    decreases s.len(),
{
    if s.len() == 0 {
        Seq::empty()
    } else if s.last() == '-' {
        without_hyphens(s.drop_last())
    } else {
        without_hyphens(s.drop_last()).push(s.last())
    }
}

/// The text without its hyphens.
fn drop_hyphens(s: &str) -> (r: Vec<char>)
    ensures
        r@ == without_hyphens(s@),
{
    let v = crate::text::chars_of(s);
    let mut r: Vec<char> = Vec::new();
    let mut i: usize = 0;
    proof {
        assert(v@.take(0) =~= Seq::empty());
    }
    while i < v.len()
        invariant
            i <= v@.len(),
            r@ == without_hyphens(v@.take(i as int)),
        decreases v@.len() - i,
    {
        proof {
            assert(v@.take(i + 1).drop_last() =~= v@.take(i as int));
        }
        if v[i] != '-' {
            r.push(v[i]);
        }
        i = i + 1;
    }
    proof {
        assert(v@.take(i as int) =~= v@);
    }
    r
}

/// The key of a client token made from an identifier: its first sixteen digits behind a prefix.
pub fn token_key_from(uuid: &str) -> (r: String)
    requires
        without_hyphens(uuid@).len() >= 16,
    ensures
        r@ == "sk-chennix-"@ + without_hyphens(uuid@).take(16),
{
    let digits = drop_hyphens(uuid);
    let front = text_of(&digits, 0, 16);
    proof {
        assert(digits@.subrange(0, 16) =~= digits@.take(16));
    }
    concat("sk-chennix-", front.as_str())
}

/// A key of a client token, made from some new UUID.
pub fn new_token_key() -> (r: String)
    ensures
        exists|uuid: Seq<char>| #[trigger]
            is_uuid(uuid) && r@ == "sk-chennix-"@ + without_hyphens(uuid).take(16),
        r@.len() == "sk-chennix-"@.len() + 16,
        forall|i: int| "sk-chennix-"@.len() <= i < r@.len() ==> is_hex(#[trigger] r@[i]),
{
    let uuid = random_uuid();
    proof {
        lemma_uuid_digits(uuid@, 36);
        assert(uuid@.take(36) =~= uuid@);
    }
    let r = token_key_from(uuid.as_str());
    proof {
        let n = "sk-chennix-"@.len() as int;
        lemma_without_hyphens(uuid@);
        assert forall|i: int| n <= i < r@.len() implies is_hex(#[trigger] r@[i]) by {
            assert(r@[i] == without_hyphens(uuid@)[i - n]);
        }
    }
    r
}

/// The identifier of a request or a session: the text of some new UUID.
pub fn new_request_id() -> (r: String)
    ensures
        is_uuid(r@),
{
    random_uuid()
}

/// The number of hyphens among the first so many characters of the text of a UUID.
spec fn breaks_before(n: int) -> int {
    (if n > 8 { 1int } else { 0 }) + (if n > 13 { 1int } else { 0 }) + (if n > 18 {
        1int
    } else {
        0
    }) + (if n > 23 { 1int } else { 0 })
}

proof fn lemma_uuid_digits(s: Seq<char>, n: int)
    requires
        is_uuid(s),
        0 <= n <= 36,
    ensures
        without_hyphens(s.take(n)).len() == n - breaks_before(n),
    decreases n,
{
    if n > 0 {
        lemma_uuid_digits(s, n - 1);
        assert(s.take(n).drop_last() =~= s.take(n - 1));
        assert(s.take(n).last() == s[n - 1]);
    }
}

proof fn lemma_without_hyphens(s: Seq<char>)
    requires
        forall|i: int| 0 <= i < s.len() ==> is_hex(#[trigger] s[i]) || s[i] == '-',
    ensures
        forall|i: int|
            0 <= i < without_hyphens(s).len() ==> is_hex(#[trigger] without_hyphens(s)[i]),
    decreases s.len(),
{
    if s.len() > 0 {
        let t = s.drop_last();
        assert forall|i: int| 0 <= i < t.len() implies is_hex(#[trigger] t[i]) || t[i] == '-' by {
            assert(t[i] == s[i]);
        }
        lemma_without_hyphens(t);
        assert(is_hex(s[s.len() - 1]) || s[s.len() - 1] == '-');
        let w = without_hyphens(t);
        assert forall|i: int| 0 <= i < without_hyphens(s).len() implies is_hex(
            #[trigger] without_hyphens(s)[i],
        ) by {
            if i < w.len() {
                assert(without_hyphens(s)[i] == w[i]);
            }
        }
    }
}

/// Taking the hyphens out of a text leaves its other characters in their order.
pub proof fn law_hyphens_are_taken_out(s: Seq<char>, c: char)
    requires
        c != '-',
    ensures
        without_hyphens(Seq::empty()).len() == 0,
        without_hyphens(s.push('-')) == without_hyphens(s),
        without_hyphens(s.push(c)) == without_hyphens(s).push(c),
        !without_hyphens(s).contains('-'),
    decreases s.len(),
{
    assert(s.push('-').drop_last() =~= s);
    assert(s.push(c).drop_last() =~= s);
    if s.len() > 0 {
        law_hyphens_are_taken_out(s.drop_last(), c);
        let front = without_hyphens(s.drop_last());
        if s.last() != '-' && without_hyphens(s).contains('-') {
            let i = choose|i: int| 0 <= i < without_hyphens(s).len() && without_hyphens(s)[i] == '-';
            assert(front[i] == '-');
        }
    }
}

} // verus!
