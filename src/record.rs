//! One queue's observed status, built from the attributes fetched for it.

use vstd::prelude::*;
use crate::redrive::{decode, decoded_name, opt_view};

verus! {

/// One queue's observed status.
#[derive(Clone, Debug, PartialEq, Eq)]
pub struct QueueRecord {
    /// The queue's full locator.
    pub identifier: String,
    /// Approximate number of available messages, as decimal text.
    pub available: String,
    /// Approximate number of delayed messages, as decimal text.
    pub delayed: String,
    /// Approximate number of in-flight (not visible) messages, as decimal text.
    pub not_visible: String,
    /// Last segment of the dead-letter target's identifier, or empty.
    pub dead_letter_short_name: String,
}

/// The attributes that one fetch returned; a field is `None` when the remote
/// side omitted it.
#[derive(Clone, Debug, PartialEq, Eq)]
pub struct QueueAttributes {
    pub available: Option<String>,
    pub delayed: Option<String>,
    pub not_visible: Option<String>,
    pub redrive_policy: Option<String>,
}

/// The attributes named in a fetch request.
#[derive(Clone, Copy, Debug, PartialEq, Eq, Structural)]
pub enum AttributeKind {
    ApproximateNumberOfMessages,
    ApproximateNumberOfMessagesDelayed,
    ApproximateNumberOfMessagesNotVisible,
    RedriveAllowPolicy,
    RedrivePolicy,
}

/// The five attributes that each fetch asks for, in request order.
pub fn requested_attributes() -> (r: Vec<AttributeKind>)
    ensures
        r@ == seq![
            AttributeKind::ApproximateNumberOfMessages,
            AttributeKind::ApproximateNumberOfMessagesDelayed,
            AttributeKind::ApproximateNumberOfMessagesNotVisible,
            AttributeKind::RedriveAllowPolicy,
            AttributeKind::RedrivePolicy,
        ],
{
    vec![
        AttributeKind::ApproximateNumberOfMessages,
        AttributeKind::ApproximateNumberOfMessagesDelayed,
        AttributeKind::ApproximateNumberOfMessagesNotVisible,
        AttributeKind::RedriveAllowPolicy,
        AttributeKind::RedrivePolicy,
    ]
}

/// The text "0".
pub open spec fn zero_text() -> Seq<char> {
    seq!['0']
}

/// A counter's text, or "0" when it was omitted.
pub open spec fn counter_or_zero(c: Option<Seq<char>>) -> Seq<char> {
    match c {
        Some(v) => v,
        None => zero_text(),
    }
}

/// `r` is the record that `identifier` and `attrs` make.
pub open spec fn is_record_of(r: QueueRecord, identifier: Seq<char>, attrs: QueueAttributes) -> bool {
    &&& r.identifier@ == identifier
    &&& r.available@ == counter_or_zero(opt_view(attrs.available))
    &&& r.delayed@ == counter_or_zero(opt_view(attrs.delayed))
    &&& r.not_visible@ == counter_or_zero(opt_view(attrs.not_visible))
    &&& r.dead_letter_short_name@ == decoded_name(opt_view(attrs.redrive_policy))
}

fn counter_text(c: Option<String>) -> (r: String)
    ensures
        r@ == counter_or_zero(opt_view(c)),
{
    match c {
        Some(v) => v,
        None => {
            proof {
                reveal_strlit("0");
                assert("0"@ =~= zero_text());
            }
            String::from_str("0")
        },
    }
}

/// Builds a queue's record from the attributes fetched for it: omitted
/// counters become "0", and the redrive policy is decoded into a short name.
pub fn build_record(identifier: String, attrs: QueueAttributes) -> (r: QueueRecord)
    ensures
        is_record_of(r, identifier@, attrs),
{
    let QueueAttributes { available, delayed, not_visible, redrive_policy } = attrs;
    QueueRecord {
        identifier,
        available: counter_text(available),
        delayed: counter_text(delayed),
        not_visible: counter_text(not_visible),
        dead_letter_short_name: decode(redrive_policy),
    }
}

} // verus!
