//! The payloads of a pdata batch.

use arrow::record_batch::RecordBatch;
use vstd::prelude::*;

use crate::rendering::{is_value, is_value_char};
use crate::text::{chars_of, lower, lower_char};

verus! {

/// The kind of telemetry that a pdata batch holds.
#[derive(Clone, Copy, Debug, PartialEq, Eq, Structural)]
pub enum SignalType {
    /// Log records.
    Logs,
    /// Metrics.
    Metrics,
    /// Spans.
    Traces,
}

/// The name of a kind of telemetry in an object path.
pub open spec fn signal_text(signal: SignalType) -> Seq<char> {
    match signal {
        SignalType::Logs => "logs"@,
        SignalType::Metrics => "metrics"@,
        SignalType::Traces => "traces"@,
    }
}

/// Returns the name of a kind of telemetry in an object path.
pub fn signal_name(signal: SignalType) -> (name: &'static str)
    ensures
        name@ == signal_text(signal),
{
    match signal {
        SignalType::Logs => "logs",
        SignalType::Metrics => "metrics",
        SignalType::Traces => "traces",
    }
}

/// A character of an identifier: an ASCII letter, a figure or an underscore.
pub open spec fn is_identifier_char(c: char) -> bool {
    ('A' <= c <= 'Z') || ('a' <= c <= 'z') || ('0' <= c <= '9') || c == '_'
}

/// An identifier: not empty, and made of letters, figures and underscores only.
pub open spec fn is_identifier(name: Seq<char>) -> bool {
    &&& name.len() > 0
    &&& forall|i: int| 0 <= i < name.len() ==> is_identifier_char(#[trigger] name[i])
}

/// The two names of a payload type.
pub struct PayloadTypeNames {
    pub stable: Seq<char>,
    pub label: Seq<char>,
}

/// A payload type of OTAP. It has a stable name, such as `LOG_ATTRS`, which is an identifier, and
/// a label, such as `LogAttrs`, which is used in messages.
#[derive(Debug, PartialEq, Eq)]
pub struct PayloadType {
    stable: String,
    label: String,
}

impl View for PayloadType {
    type V = PayloadTypeNames;

    closed spec fn view(&self) -> PayloadTypeNames {
        PayloadTypeNames { stable: self.stable@, label: self.label@ }
    }
}

impl PayloadType {
    /// The stable name is an identifier.
    #[verifier::type_invariant]
    spec fn has_identifier(self) -> bool {
        is_identifier(self.stable@)
    }

    /// Creates a payload type, if the stable name is an identifier.
    pub fn new(stable: &str, label: &str) -> (created: Option<PayloadType>)
        ensures
            created is Some <==> is_identifier(stable@),
            created matches Some(payload_type) ==> payload_type@ == (PayloadTypeNames {
                stable: stable@,
                label: label@,
            }),
    {
        let chars = chars_of(stable);
        if chars.len() == 0 {
            return None;
        }
        let mut i: usize = 0;
        while i < chars.len()
            invariant
                chars@ == stable@,
                i <= chars.len(),
                forall|k: int| 0 <= k < i ==> is_identifier_char(#[trigger] stable@[k]),
            decreases chars.len() - i,
        {
            let c = chars[i];
            if !(('A' <= c && c <= 'Z') || ('a' <= c && c <= 'z') || ('0' <= c && c <= '9') || c
                == '_') {
                assert(!is_identifier_char(stable@[i as int]));
                return None;
            }
            i += 1;
        }
        Some(PayloadType { stable: stable.to_owned(), label: label.to_owned() })
    }

    /// Returns the stable name.
    pub fn as_str_name(&self) -> (name: &str)
        ensures
            name@ == self@.stable,
            is_identifier(name@),
    {
        proof {
            use_type_invariant(&*self);
        }
        self.stable.as_str()
    }

    /// Returns the label that is used in messages.
    pub fn label(&self) -> (label: &str)
        ensures
            label@ == self@.label,
    {
        self.label.as_str()
    }
}

impl Clone for PayloadType {
    fn clone(&self) -> (copy: Self)
        ensures
            copy@ == self@,
    {
        proof {
            use_type_invariant(&*self);
        }
        PayloadType { stable: self.stable.clone(), label: self.label.clone() }
    }
}

/// `arrow::record_batch::RecordBatch`: the rows of one payload. It is carried along as it is.
#[verifier::external_body]
pub struct PayloadBatch {
    /// The rows.
    pub batch: RecordBatch,
}

/// One of the payload types that a kind of telemetry allows, with the rows of that type, if the
/// pdata batch has any.
pub struct PayloadSlot {
    /// The payload type.
    pub payload_type: PayloadType,
    /// The rows.
    pub batch: Option<PayloadBatch>,
}

/// The Arrow records of a pdata batch: its kind of telemetry, and a slot for each payload type
/// that this kind allows, in the order in which they are written.
pub struct PdataRecords {
    /// The kind of telemetry.
    pub signal: SignalType,
    /// The payloads.
    pub payloads: Vec<PayloadSlot>,
}

/// The names of the kinds of telemetry may stand in a path.
pub proof fn lemma_signal_value(signal: SignalType)
    ensures
        is_value(signal_text(signal)),
{
    reveal_strlit("logs");
    reveal_strlit("metrics");
    reveal_strlit("traces");
}

/// Two kinds of telemetry with the same name are the same.
pub proof fn lemma_signal_names_differ(left: SignalType, right: SignalType)
    ensures
        signal_text(left) == signal_text(right) ==> left == right,
{
    reveal_strlit("logs");
    reveal_strlit("metrics");
    reveal_strlit("traces");
    assert(signal_text(left) == signal_text(right) ==> signal_text(left).len() == signal_text(
        right,
    ).len());
    assert(signal_text(left) == signal_text(right) ==> signal_text(left)[0] == signal_text(right)[0]);
}

/// Which names are identifiers: those that are not empty and in which every character is an ASCII
/// letter, a figure or an underscore.
pub proof fn lemma_which_names_are_identifiers(name: Seq<char>)
    ensures
        is_identifier(name) <==> name.len() > 0 && forall|i: int|
            0 <= i < name.len() ==> {
                ||| 'A' <= #[trigger] name[i] <= 'Z'
                ||| 'a' <= name[i] <= 'z'
                ||| '0' <= name[i] <= '9'
                ||| name[i] == '_'
            },
{
    if name.len() > 0 && forall|i: int|
        0 <= i < name.len() ==> {
            ||| 'A' <= #[trigger] name[i] <= 'Z'
            ||| 'a' <= name[i] <= 'z'
            ||| '0' <= name[i] <= '9'
            ||| name[i] == '_'
        } {
        assert forall|i: int| 0 <= i < name.len() implies is_identifier_char(#[trigger] name[i]) by {}
    }
    if is_identifier(name) {
        assert forall|i: int| 0 <= i < name.len() implies {
            ||| 'A' <= #[trigger] name[i] <= 'Z'
            ||| 'a' <= name[i] <= 'z'
            ||| '0' <= name[i] <= '9'
            ||| name[i] == '_'
        } by {
            assert(is_identifier_char(name[i]));
        }
    }
}

/// An identifier in small letters may stand in a path.
pub proof fn lemma_identifier_value(name: Seq<char>)
    requires
        is_identifier(name),
    ensures
        is_value(lower(name)),
{
    assert forall|i: int| 0 <= i < lower(name).len() implies is_value_char(
        #[trigger] lower(name)[i],
    ) by {
        assert(is_identifier_char(name[i]));
        assert(lower(name)[i] == lower_char(name[i]));
    }
}

} // verus!
