//! Decoding a queue's redrive policy into the short name of its
//! dead-letter target.

use vstd::prelude::*;
use crate::text::{last_segment, last_segment_of, lemma_last_segment_shape};

verus! {

/// The text value stored under `key` in the JSON object that `text` holds;
/// `None` when `text` is not JSON, not an object, or has no string under `key`.
pub uninterp spec fn json_text_field(text: Seq<char>, key: Seq<char>) -> Option<Seq<char>>;

/// Relies on `serde_json::from_str` into a `serde_json::Value`, read with
/// `Value::get` and `Value::as_str`: the string under `key`, if the text is a
/// JSON object holding one there.
#[verifier::external_body]
fn json_string_field(text: &str, key: &str) -> (r: Option<String>)
    ensures
        match r {
            Some(v) => json_text_field(text@, key@) == Some(v@),
            None => json_text_field(text@, key@) is None,
        },
{
    serde_json::from_str::<serde_json::Value>(text).ok()?.get(key)?.as_str().map(String::from)
}

/// The field name under which the dead-letter target is stored.
pub open spec fn target_key() -> Seq<char> {
    seq!['d', 'e', 'a', 'd', '_', 'l', 'e', 't', 't', 'e', 'r', '_', 't', 'a', 'r', 'g', 'e', 't', '_', 'a', 'r', 'n']
}

/// The alias accepted in place of `target_key`.
pub open spec fn target_alias() -> Seq<char> {
    seq!['d', 'e', 'a', 'd', 'L', 'e', 't', 't', 'e', 'r', 'T', 'a', 'r', 'g', 'e', 't', 'A', 'r', 'n']
}

/// The short name named by a target identifier found under the field name or
/// under its alias, the field name taking precedence; empty when neither holds one.
pub open spec fn short_target_name(field: Option<Seq<char>>, alias: Option<Seq<char>>) -> Seq<char> {
    match field {
        Some(v) => last_segment(v, ':'),
        None => match alias {
            Some(v) => last_segment(v, ':'),
            None => Seq::<char>::empty(),
        },
    }
}

/// The dead-letter short name that a redrive policy document gives; empty
/// when the document is absent or malformed.
pub open spec fn decoded_name(raw: Option<Seq<char>>) -> Seq<char> {
    match raw {
        None => Seq::<char>::empty(),
        Some(t) => short_target_name(json_text_field(t, target_key()), json_text_field(t, target_alias())),
    }
}

/// The character sequence of an optional string.
pub open spec fn opt_view(o: Option<String>) -> Option<Seq<char>> {
    match o {
        Some(s) => Some(s@),
        None => None,
    }
}

/// The short name from the target identifiers read under the field name and
/// under its alias.
pub fn short_name_from_fields(field: Option<String>, alias: Option<String>) -> (r: String)
    ensures
        r@ == short_target_name(opt_view(field), opt_view(alias)),
{
    match field {
        Some(v) => last_segment_of(v.as_str(), ':'),
        None => match alias {
            Some(v) => last_segment_of(v.as_str(), ':'),
            None => String::new(),
        },
    }
}

/// Decodes a redrive policy document into the short name of its dead-letter
/// target. Never fails: absent or malformed input gives the empty string.
pub fn decode(raw: Option<String>) -> (r: String)
    ensures
        r@ == decoded_name(opt_view(raw)),
{
    match raw {
        None => String::new(),
        Some(text) => {
            let field = json_string_field(text.as_str(), "dead_letter_target_arn");
            let alias = json_string_field(text.as_str(), "deadLetterTargetArn");
            proof {
                reveal_strlit("dead_letter_target_arn");
                reveal_strlit("deadLetterTargetArn");
                assert("dead_letter_target_arn"@ =~= target_key());
                assert("deadLetterTargetArn"@ =~= target_alias());
            }
            short_name_from_fields(field, alias)
        },
    }
}

/// A document that holds a target identifier `v` decodes to the part of `v`
/// after its last `:`, or to `v` itself when it holds no `:`; an absent
/// document, or one that holds no target identifier, decodes to the empty string.
pub proof fn lemma_decode_target(text: Seq<char>, v: Seq<char>)
    requires
        json_text_field(text, target_key()) == Some(v) || (json_text_field(text, target_key()) is None
            && json_text_field(text, target_alias()) == Some(v)),
    ensures
        decoded_name(Some(text)) == last_segment(v, ':'),
        !decoded_name(Some(text)).contains(':'),
        decoded_name(Some(text)) == v.subrange(v.len() - decoded_name(Some(text)).len(), v.len() as int),
        v.contains(':') ==> v[v.len() - decoded_name(Some(text)).len() - 1] == ':',
        !v.contains(':') ==> decoded_name(Some(text)) == v,
{
    lemma_last_segment_shape(v, ':');
}

/// An absent document, or one without a target identifier, decodes to the
/// empty string.
pub proof fn lemma_decode_without_target(raw: Option<Seq<char>>)
    requires
        raw matches Some(t) ==> json_text_field(t, target_key()) is None && json_text_field(t, target_alias()) is None,
    ensures
        decoded_name(raw) == Seq::<char>::empty(),
{
}

} // verus!
