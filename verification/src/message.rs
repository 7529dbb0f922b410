//! The value types callers exchange with the engine: a message under
//! construction, a queue summary, a delivered message, and typed message
//! attributes with their wire-parameter parser.

use vstd::prelude::*;
use crate::strutil::str_is_fifo_name;
use crate::strutil::is_fifo_name;
use crate::strutil::str_eq;
use crate::strutil::clone_opt_string;
use crate::store::sat_add_u64;
use crate::store::sat64;

verus! {

/// One typed attribute value: a string or binary payload with its declared
/// type.
#[derive(Debug, Clone)]
pub struct MessageAttributeValue {
    pub string_value: Option<String>,
    pub binary_value: Option<String>,
    pub data_type: String,
}

impl MessageAttributeValue {
    /// A copy of the value, equal to the original.
    pub fn duplicate(&self) -> (r: Self)
        ensures
            r == *self,
    {
        MessageAttributeValue {
            string_value: clone_opt_string(&self.string_value),
            binary_value: clone_opt_string(&self.binary_value),
            data_type: self.data_type.clone(),
        }
    }
}

/// A message being assembled for a send: identity, payload and delivery
/// directives.
#[derive(Debug)]
pub struct Message {
    pub id: String,
    pub queue_name: String,
    pub body: String,
    pub created_at: u64,
    pub visibility_timeout: Option<u64>,
    pub receive_count: u32,
    pub attributes: Option<String>,
    pub deduplication_id: Option<String>,
    pub delay_until: Option<u64>,
    pub message_group_id: Option<String>,
    pub sequence_number: Option<u64>,
}

impl Message {
    /// A fresh message for the queue with the given identity and payload,
    /// assembled at instant `now`.
    pub fn new(id: String, queue_name: String, body: String, now: u64) -> (r: Self)
        ensures
            r.id == id,
            r.queue_name == queue_name,
            r.body == body,
            r.created_at == now,
            r.visibility_timeout matches None,
            r.receive_count == 0,
            r.attributes matches None,
            r.deduplication_id matches None,
            r.delay_until matches None,
            r.message_group_id matches None,
            r.sequence_number matches None,
    {
        Message {
            id,
            queue_name,
            body,
            created_at: now,
            visibility_timeout: None,
            receive_count: 0,
            attributes: None,
            deduplication_id: None,
            delay_until: None,
            message_group_id: None,
            sequence_number: None,
        }
    }

    /// The message with its serialized attributes set.
    pub fn with_attributes(self, attributes: String) -> (r: Self)
        ensures
            r == (Message { attributes: Some(attributes), ..self }),
    {
        Message { attributes: Some(attributes), ..self }
    }

    /// The message with its deduplication id set.
    pub fn with_deduplication_id(self, deduplication_id: String) -> (r: Self)
        ensures
            r == (Message { deduplication_id: Some(deduplication_id), ..self }),
    {
        Message { deduplication_id: Some(deduplication_id), ..self }
    }

    /// The message delayed by the given number of seconds from `now`; zero
    /// leaves it undelayed.
    pub fn with_delay_seconds(self, delay_seconds: u32, now: u64) -> (r: Self)
        ensures
            delay_seconds == 0 ==> r == self,
            delay_seconds > 0 ==> r == (Message {
                delay_until: Some(sat64(now + delay_seconds * 1000)),
                ..self
            }),
    {
        if delay_seconds > 0 {
            let until = sat_add_u64(now, (delay_seconds as u64) * 1000);
            Message { delay_until: Some(until), ..self }
        } else {
            self
        }
    }

    /// The message filed under the given group.
    pub fn with_message_group_id(self, message_group_id: String) -> (r: Self)
        ensures
            r == (Message { message_group_id: Some(message_group_id), ..self }),
    {
        Message { message_group_id: Some(message_group_id), ..self }
    }

    /// The message with its sequence number assigned.
    pub fn with_sequence_number(self, sequence_number: u64) -> (r: Self)
        ensures
            r == (Message { sequence_number: Some(sequence_number), ..self }),
    {
        Message { sequence_number: Some(sequence_number), ..self }
    }

    /// Whether the message's delivery delay has passed at `now`.
    pub fn is_ready_for_delivery(&self, now: u64) -> (r: bool)
        ensures
            r == match self.delay_until {
                Some(d) => now >= d,
                None => true,
            },
    {
        match self.delay_until {
            Some(d) => now >= d,
            None => true,
        }
    }
}

/// A queue summary with its effective settings.
#[derive(Debug)]
pub struct Queue {
    pub name: String,
    pub created_at: u64,
    pub is_fifo: bool,
    pub content_based_deduplication: bool,
    pub visibility_timeout_seconds: u32,
    pub message_retention_period_seconds: u32,
    pub max_receive_count: Option<u32>,
    pub dead_letter_target_arn: Option<String>,
}

impl Queue {
    /// A queue summary for the name, FIFO exactly when the name says so,
    /// with the stock defaults.
    pub fn new(name: String, now: u64) -> (r: Self)
        ensures
            r.name == name,
            r.created_at == now,
            r.is_fifo == is_fifo_name(name@),
            r.content_based_deduplication == false,
            r.visibility_timeout_seconds == 30,
            r.message_retention_period_seconds == 345600,
            r.max_receive_count matches None,
            r.dead_letter_target_arn matches None,
    {
        let is_fifo = str_is_fifo_name(name.as_str());
        Queue {
            name,
            created_at: now,
            is_fifo,
            content_based_deduplication: false,
            visibility_timeout_seconds: 30,
            message_retention_period_seconds: 345600,
            max_receive_count: None,
            dead_letter_target_arn: None,
        }
    }

    /// The summary with each recognized attribute applied: booleans from
    /// the literal `true`, numbers from their decimal value, unrecognized or
    /// malformed values left as they were.
    pub fn with_attributes(self, attributes: &Vec<(String, String)>) -> (r: Self)
        ensures
            r.name == self.name,
            r.created_at == self.created_at,
            r.is_fifo == self.is_fifo,
            r.content_based_deduplication == (match crate::store::assoc(
                attributes@,
                "ContentBasedDeduplication"@,
            ) {
                Some(v) => v == "true"@,
                None => self.content_based_deduplication,
            }),
            r.visibility_timeout_seconds == (match crate::store::assoc(
                attributes@,
                "VisibilityTimeout"@,
            ) {
                Some(v) => crate::store::parsed_or(Some(v), self.visibility_timeout_seconds),
                None => self.visibility_timeout_seconds,
            }),
            r.message_retention_period_seconds == (match crate::store::assoc(
                attributes@,
                "MessageRetentionPeriod"@,
            ) {
                Some(v) => crate::store::parsed_or(Some(v), self.message_retention_period_seconds),
                None => self.message_retention_period_seconds,
            }),
            r.max_receive_count == (match crate::store::assoc(attributes@, "MaxReceiveCount"@) {
                Some(v) => if v.len() > 0 && crate::strutil::all_digits(v)
                    && crate::strutil::dec_value(v) <= u32::MAX as int {
                    Some(crate::strutil::dec_value(v) as u32)
                } else {
                    self.max_receive_count
                },
                None => self.max_receive_count,
            }),
            (match crate::store::assoc(attributes@, "DeadLetterTargetArn"@) {
                Some(v) => r.dead_letter_target_arn matches Some(a) && a@ == v,
                None => r.dead_letter_target_arn == self.dead_letter_target_arn,
            }),
    {
        let mut q = self;
        if let Some(v) = crate::store::lookup_attr(attributes, "ContentBasedDeduplication") {
            q.content_based_deduplication = str_eq(v.as_str(), "true");
        }
        if let Some(v) = crate::store::lookup_attr(attributes, "VisibilityTimeout") {
            if let Some(t) = crate::strutil::parse_u32(v.as_str()) {
                q.visibility_timeout_seconds = t;
            }
        }
        if let Some(v) = crate::store::lookup_attr(attributes, "MessageRetentionPeriod") {
            if let Some(t) = crate::strutil::parse_u32(v.as_str()) {
                q.message_retention_period_seconds = t;
            }
        }
        if let Some(v) = crate::store::lookup_attr(attributes, "MaxReceiveCount") {
            if let Some(t) = crate::strutil::parse_u32(v.as_str()) {
                q.max_receive_count = Some(t);
            }
        }
        if let Some(v) = crate::store::lookup_attr(attributes, "DeadLetterTargetArn") {
            q.dead_letter_target_arn = Some(v);
        }
        q
    }
}

/// A message as handed to a receiver, with the receipt that deletes it.
#[derive(Debug)]
pub struct ReceivedMessage {
    pub id: String,
    pub body: String,
    pub receipt_handle: String,
    pub attributes: Option<String>,
}

impl ReceivedMessage {
    /// A delivery envelope; the receipt handle is the message id.
    pub fn new(id: String, body: String, attributes: Option<String>) -> (r: Self)
        ensures
            r.id == id,
            r.receipt_handle@ == id@,
            r.body == body,
            r.attributes == attributes,
    {
        let receipt_handle = id.clone();
        ReceivedMessage { receipt_handle, id, body, attributes }
    }
}

/// The wire key naming the `n`-th attribute's name.
pub open spec fn attr_name_key(n: int) -> Seq<char> {
    "MessageAttribute."@ + crate::strutil::dec_string_of(n) + ".Name"@
}

/// The wire key naming the `n`-th attribute's string value.
pub open spec fn attr_value_key(n: int) -> Seq<char> {
    "MessageAttribute."@ + crate::strutil::dec_string_of(n) + ".Value.StringValue"@
}

/// The wire key naming the `n`-th attribute's declared type.
pub open spec fn attr_type_key(n: int) -> Seq<char> {
    "MessageAttribute."@ + crate::strutil::dec_string_of(n) + ".Value.DataType"@
}

/// All three parts of the `n`-th numbered wire attribute are present.
pub open spec fn wire_attr_present(params: Seq<(String, String)>, n: int) -> bool {
    &&& crate::store::assoc(params, attr_name_key(n)) matches Some(_)
    &&& crate::store::assoc(params, attr_value_key(n)) matches Some(_)
    &&& crate::store::assoc(params, attr_type_key(n)) matches Some(_)
}

/// The three parts of the `n`-th numbered wire attribute; a missing part
/// reads as empty.
pub open spec fn wire_attr_parts(params: Seq<(String, String)>, n: int) -> (
    Seq<char>,
    Seq<char>,
    Seq<char>,
) {
    (
        match crate::store::assoc(params, attr_name_key(n)) {
            Some(a) => a,
            None => Seq::empty(),
        },
        match crate::store::assoc(params, attr_value_key(n)) {
            Some(v) => v,
            None => Seq::empty(),
        },
        match crate::store::assoc(params, attr_type_key(n)) {
            Some(t) => t,
            None => Seq::empty(),
        },
    )
}

/// Entry `x` of the collected run is wire attribute `x + 1`, present and
/// mirrored part for part.
pub open spec fn attrs_parsed(
    params: Seq<(String, String)>,
    v: Seq<(String, MessageAttributeValue)>,
) -> bool
    decreases v.len(),
{
    if v.len() == 0 {
        true
    } else {
        &&& attrs_parsed(params, v.drop_last())
        &&& wire_attr_present(params, v.len() as int)
        &&& attr_matches(v.last(), wire_attr_parts(params, v.len() as int))
    }
}

/// The collected attribute mirrors the three wire parameters it came from.
pub open spec fn attr_matches(
    a: (String, MessageAttributeValue),
    w: (Seq<char>, Seq<char>, Seq<char>),
) -> bool {
    &&& a.0@ == w.0
    &&& a.1.string_value matches Some(sv) && sv@ == w.1
    &&& a.1.binary_value matches None
    &&& a.1.data_type@ == w.2
}

/// A parsed run extends by one attribute: the next numbered wire attribute,
/// present and mirrored.
proof fn lemma_attrs_parsed_snoc(
    params: Seq<(String, String)>,
    prev: Seq<(String, MessageAttributeValue)>,
    a: (String, MessageAttributeValue),
)
    requires
        attrs_parsed(params, prev),
        wire_attr_present(params, prev.len() as int + 1),
        attr_matches(a, wire_attr_parts(params, prev.len() as int + 1)),
    ensures
        attrs_parsed(params, prev.push(a)),
{
    let v2 = prev.push(a);
    assert(v2.drop_last() =~= prev);
    assert(v2.last() == a);
}

/// Collects the numbered `MessageAttribute.N.*` entries of a wire request:
/// entry `x` of the result is wire attribute `x + 1`, the run starts at 1
/// and stops at the first number with a part missing, and a request without
/// a first attribute yields nothing.
pub fn parse_message_attributes(params: &Vec<(String, String)>) -> (r: Option<
    Vec<(String, MessageAttributeValue)>,
>)
    ensures
        match r {
            Some(v) => {
                &&& v@.len() > 0
                &&& attrs_parsed(params@, v@)
                &&& v@.len() < u32::MAX as int ==> !wire_attr_present(
                    params@,
                    v@.len() as int + 1,
                )
            },
            None => !wire_attr_present(params@, 1),
        },
{
    let mut out: Vec<(String, MessageAttributeValue)> = Vec::new();
    let mut i: u32 = 1;
    loop
        invariant
            1 <= i,
            i as int == out@.len() + 1,
            attrs_parsed(params@, out@),
        decreases u32::MAX - i,
    {
        let idx = crate::strutil::u32_to_dec(i);
        let mut name_key = "MessageAttribute.".to_owned();
        name_key.append(idx.as_str());
        let mut value_key = name_key.clone();
        let mut type_key = name_key.clone();
        name_key.append(".Name");
        value_key.append(".Value.StringValue");
        type_key.append(".Value.DataType");
        proof {
            assert(name_key@ == attr_name_key(i as int));
            assert(value_key@ == attr_value_key(i as int));
            assert(type_key@ == attr_type_key(i as int));
        }
        let name = crate::store::lookup_attr(params, name_key.as_str());
        let value = crate::store::lookup_attr(params, value_key.as_str());
        let dtype = crate::store::lookup_attr(params, type_key.as_str());
        match (name, value, dtype) {
            (Some(n), Some(v), Some(t)) => {
                let ghost n_spec = n;
                let ghost v_spec = v;
                let ghost t_spec = t;
                let ghost pre_out = out@;
                out.push(
                    (
                        n,
                        MessageAttributeValue {
                            string_value: Some(v),
                            binary_value: None,
                            data_type: t,
                        },
                    ),
                );
                proof {
                    assert(wire_attr_present(params@, i as int));
                    assert(wire_attr_parts(params@, i as int) == (n_spec@, v_spec@, t_spec@));
                    let entry = (
                        n_spec,
                        MessageAttributeValue {
                            string_value: Some(v_spec),
                            binary_value: None,
                            data_type: t_spec,
                        },
                    );
                    assert(attr_matches(entry, wire_attr_parts(params@, pre_out.len() as int + 1)));
                    lemma_attrs_parsed_snoc(params@, pre_out, entry);
                    assert(out@ == pre_out.push(entry));
                }
                if i == u32::MAX {
                    return Some(out);
                }
                i = i + 1;
            },
            _ => {
                proof {
                    assert(!wire_attr_present(params@, i as int));
                }
                if out.len() == 0 {
                    return None;
                }
                return Some(out);
            },
        }
    }
}

} // verus!
