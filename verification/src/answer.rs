//! The JSON documents that requests are answered with.
use vstd::prelude::*;

use crate::error::{AdminError, ProxyError};
use crate::json::{json_quote, json_quoted};
use crate::text::{concat3, decimal, join, join_texts, push_decimal, texts};

verus! {

/// The document that tells of an error of a kind.
pub open spec fn error_document(kind: Seq<char>, message: Seq<char>) -> Seq<char> {
    "{\"error\":{\"message\":"@ + json_quoted(message) + ",\"type\":"@ + json_quoted(kind) + "}}"@
}

/// The document that tells of an error of a kind.
pub fn error_body(kind: &str, message: &str) -> (r: String)
    ensures
        r@ == error_document(kind@, message@),
{
    let mut r = concat3(
        "{\"error\":{\"message\":",
        json_quote(message).as_str(),
        ",\"type\":",
    );
    r.append(json_quote(kind).as_str());
    r.append("}}");
    r
}

/// The document that tells a client why its request failed.
pub fn proxy_error_body(e: &ProxyError) -> (r: String)
    ensures
        r@ == error_document(e.spec_error_type(), e.spec_message()),
{
    error_body(e.error_type_name(), e.message().as_str())
}

/// The document that tells a user of the admin interface why a request failed.
pub fn admin_error_body(e: &AdminError) -> (r: String)
    ensures
        r@ == "{\"code\":"@ + decimal(e.spec_status() as int) + ",\"error\":"@ + json_quoted(
            e.spec_message(),
        ) + "}"@,
{
    let mut r = "{\"code\":".to_owned();
    push_decimal(&mut r, e.status() as i64);
    r.append(",\"error\":");
    r.append(json_quote(e.message().as_str()).as_str());
    r.append("}");
    r
}

/// The entry of a model in a list of models.
pub open spec fn model_entry(name: Seq<char>) -> Seq<char> {
    "{\"created\":0,\"id\":"@ + json_quoted(name)
        + ",\"object\":\"model\",\"owned_by\":\"chennix\"}"@
}

/// The document that lists models.
pub open spec fn models_document(names: Seq<Seq<char>>) -> Seq<char> {
    "{\"data\":["@ + join(names.map_values(|n: Seq<char>| model_entry(n)), ","@)
        + "],\"object\":\"list\"}"@
}

/// The document that lists models.
pub fn models_body(names: &Vec<String>) -> (r: String)
    ensures
        r@ == models_document(texts(names@)),
{
    let mut entries: Vec<String> = Vec::new();
    let mut i: usize = 0;
    while i < names.len()
        invariant
            i <= names@.len(),
            entries@.len() == i,
            forall|j: int| 0 <= j < i ==> (#[trigger] entries@[j])@ == model_entry(names@[j]@),
        decreases names@.len() - i,
    {
        entries.push(
            concat3(
                "{\"created\":0,\"id\":",
                json_quote(names[i].as_str()).as_str(),
                ",\"object\":\"model\",\"owned_by\":\"chennix\"}",
            ),
        );
        i = i + 1;
    }
    proof {
        assert(texts(entries@) =~= texts(names@).map_values(|n: Seq<char>| model_entry(n)));
    }
    concat3("{\"data\":[", join_texts(&entries, ",").as_str(), "],\"object\":\"list\"}")
}

/// The body of an error holds its message and its type as JSON texts, each in its own field.
pub proof fn law_error_bodies_hold_message_and_type(kind: Seq<char>, message: Seq<char>)
    ensures
        error_document(kind, message) == "{\"error\":{\"message\":"@ + json_quoted(message)
            + ",\"type\":"@ + json_quoted(kind) + "}}"@,
{
}

/// The list of models has an entry for each name, in their order, with commas between them.
pub proof fn law_model_lists_hold_every_name(names: Seq<Seq<char>>, i: int)
    ensures
        exists|entries: Seq<Seq<char>>|
            #![trigger join(entries, ","@)]
            {
                &&& entries.len() == names.len()
                &&& 0 <= i < names.len() ==> entries[i] == "{\"created\":0,\"id\":"@ + json_quoted(
                    names[i],
                ) + ",\"object\":\"model\",\"owned_by\":\"chennix\"}"@
                &&& models_document(names) == "{\"data\":["@ + join(entries, ","@)
                    + "],\"object\":\"list\"}"@
            },
{
    let entries = names.map_values(|n: Seq<char>| model_entry(n));
    assert(models_document(names) == "{\"data\":["@ + join(entries, ","@)
        + "],\"object\":\"list\"}"@);
}

} // verus!
