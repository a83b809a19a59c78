//! Durable conversation records: the stored message shape, the decode path
//! that materializes batch-read results (opening each sealed payload), and
//! the sealing path that assigns strictly increasing order numbers.

use vstd::prelude::*;
use crate::keys::Client;
use crate::codec::{opened_of, sealed_of, encode_payload, decode_payload, CodecError};

verus! {

/// One durable conversation turn, as the backend stores it: identity, the
/// position of the turn, direction, the sealed payload, and the creation
/// timestamp.
#[derive(Clone, PartialEq, Eq, Debug)]
pub struct StoredMessage {
    pub client: Client,
    pub conversation_id: String,
    pub flow_id: String,
    pub step_id: String,
    pub message_order: u32,
    pub interaction_order: u32,
    pub direction: String,
    pub payload: Vec<u8>,
    pub created_at: String,
}

/// A stored message materialized for the caller: the same record with its
/// payload opened.
#[derive(Clone, PartialEq, Eq, Debug)]
pub struct MessageRecord {
    pub client: Client,
    pub conversation_id: String,
    pub flow_id: String,
    pub step_id: String,
    pub message_order: u32,
    pub interaction_order: u32,
    pub direction: String,
    pub payload: Vec<u8>,
    pub created_at: String,
}

/// The items of a batch-read answer, flattened in answer order.
pub open spec fn flat_msgs(items: Seq<Vec<StoredMessage>>, k: int) -> Seq<StoredMessage>
    decreases items.len() - k,
{
    if k < 0 || k >= items.len() {
        Seq::empty()
    } else {
        items[k]@ + flat_msgs(items, k + 1)
    }
}

/// What a batch read yields before decoding: an absent or empty answer is an
/// empty list, not an error.
pub open spec fn flat_responses(responses: Option<Vec<Vec<StoredMessage>>>) -> Seq<
    StoredMessage,
> {
    match responses {
        Option::Some(items) => flat_msgs(items@, 0),
        Option::None => Seq::empty(),
    }
}

/// Flattening from the next group on is flattening of the remaining groups.
proof fn lemma_flat_shift(items: Seq<Vec<StoredMessage>>, k: int)
    requires
        1 <= k <= items.len(),
    ensures
        flat_msgs(items, k) == flat_msgs(items.drop_first(), k - 1),
    decreases items.len() - k,
{
    if k < items.len() {
        lemma_flat_shift(items, k + 1);
        assert(items.drop_first()[k - 1] == items[k]);
    }
}

/// Flatten a batch-read answer; an absent answer yields the empty list.
#[verifier::loop_isolation(false)]
pub fn flatten_responses(responses: Option<Vec<Vec<StoredMessage>>>) -> (r: Vec<StoredMessage>)
    ensures
        r@ == flat_responses(responses),
{
    let mut out: Vec<StoredMessage> = Vec::new();
    match responses {
        Option::None => out,
        Option::Some(items) => {
            let ghost orig = items@;
            let mut items = items;
            while items.len() > 0
                invariant
                    out@ + flat_msgs(items@, 0) == flat_msgs(orig, 0),
                decreases items.len(),
            {
                let ghost items0 = items@;
                let mut group = items.remove(0);
                proof {
                    assert(items@ =~= items0.drop_first());
                    lemma_flat_shift(items0, 1);
                    assert(flat_msgs(items0, 0) == items0[0]@ + flat_msgs(items@, 0));
                }
                while group.len() > 0
                    invariant
                        out@ + group@ + flat_msgs(items@, 0) == flat_msgs(orig, 0),
                    decreases group.len(),
                {
                    let ghost group0 = group@;
                    let x = group.remove(0);
                    out.push(x);
                    proof {
                        assert(out@ + group@ =~= (out@.drop_last() + group0));
                        assert(out@ + group@ + flat_msgs(items@, 0) =~= flat_msgs(orig, 0));
                    }
                }
                proof {
                    assert(out@ + group@ =~= out@);
                    assert(out@ + flat_msgs(items@, 0) =~= flat_msgs(orig, 0));
                }
            }
            proof {
                assert(out@ + flat_msgs(items@, 0) =~= out@);
                assert(out@ =~= flat_msgs(orig, 0));
            }
            out
        },
    }
}

/// Materialize a list of stored messages: every field is kept and every
/// payload is opened; the first payload without the marker byte fails the
/// whole batch.
#[verifier::loop_isolation(false)]
pub fn decrypt_messages(msgs: &Vec<StoredMessage>) -> (r: Result<Vec<MessageRecord>, CodecError>)
    ensures
        match r {
            Ok(v) => {
                &&& v@.len() == msgs@.len()
                &&& forall|i: int|
                    0 <= i < msgs@.len() ==> opened_of(#[trigger] msgs@[i].payload@) is Some
                &&& forall|i: int|
                    0 <= i < msgs@.len() ==> {
                        let m = #[trigger] msgs@[i];
                        let d = v@[i];
                        d.client == m.client && d.conversation_id == m.conversation_id
                            && d.flow_id == m.flow_id && d.step_id == m.step_id
                            && d.message_order == m.message_order && d.interaction_order
                            == m.interaction_order && d.direction == m.direction && d.created_at
                            == m.created_at && Option::Some(d.payload@) == opened_of(m.payload@)
                    }
            },
            Err(_) => exists|i: int|
                0 <= i < msgs@.len() && opened_of(#[trigger] msgs@[i].payload@) is None,
        },
{
    let mut out: Vec<MessageRecord> = Vec::new();
    let mut k: usize = 0;
    while k < msgs.len()
        invariant
            0 <= k <= msgs.len(),
            out@.len() == k,
            forall|i: int| 0 <= i < k ==> opened_of(#[trigger] msgs@[i].payload@) is Some,
            forall|i: int|
                0 <= i < k ==> {
                    let m = #[trigger] msgs@[i];
                    let d = out@[i];
                    d.client == m.client && d.conversation_id == m.conversation_id && d.flow_id
                        == m.flow_id && d.step_id == m.step_id && d.message_order
                        == m.message_order && d.interaction_order == m.interaction_order
                        && d.direction == m.direction && d.created_at == m.created_at
                        && Option::Some(d.payload@) == opened_of(m.payload@)
                },
        decreases msgs.len() - k,
    {
        let m = &msgs[k];
        let plain = match decode_payload(&m.payload) {
            Ok(p) => p,
            Err(e) => {
                return Err(e);
            },
        };
        let d = MessageRecord {
            client: Client {
                bot_id: m.client.bot_id.clone(),
                channel_id: m.client.channel_id.clone(),
                user_id: m.client.user_id.clone(),
            },
            conversation_id: m.conversation_id.clone(),
            flow_id: m.flow_id.clone(),
            step_id: m.step_id.clone(),
            message_order: m.message_order,
            interaction_order: m.interaction_order,
            direction: m.direction.clone(),
            payload: plain,
            created_at: m.created_at.clone(),
        };
        out.push(d);
        k = k + 1;
    }
    Ok(out)
}

/// Seal a run's outbound payloads into stored records: record `i` carries
/// the sealed form of payload `i`, with `message_order` and
/// `interaction_order` strictly increasing from the given bases — the
/// ordering guarantee a single execution provides.
#[verifier::loop_isolation(false)]
pub fn seal_outputs(
    payloads: &Vec<Vec<u8>>,
    client: &Client,
    conversation_id: &String,
    flow_id: &String,
    step_id: &String,
    direction: &String,
    created_at: &String,
    base_message_order: u32,
    base_interaction_order: u32,
) -> (r: Vec<StoredMessage>)
    requires
        base_message_order + payloads@.len() <= u32::MAX,
        base_interaction_order + payloads@.len() <= u32::MAX,
    ensures
        r@.len() == payloads@.len(),
        forall|i: int|
            0 <= i < payloads@.len() ==> {
                let m = #[trigger] r@[i];
                m.payload@ == sealed_of(payloads@[i]@) && m.message_order == base_message_order + i
                    && m.interaction_order == base_interaction_order + i && m.client == *client
                    && m.conversation_id == *conversation_id && m.flow_id == *flow_id && m.step_id
                    == *step_id && m.direction == *direction && m.created_at == *created_at
            },
{
    let mut out: Vec<StoredMessage> = Vec::new();
    let mut k: usize = 0;
    while k < payloads.len()
        invariant
            0 <= k <= payloads.len(),
            out@.len() == k,
            forall|i: int|
                0 <= i < k ==> {
                    let m = #[trigger] out@[i];
                    m.payload@ == sealed_of(payloads@[i]@) && m.message_order == base_message_order
                        + i && m.interaction_order == base_interaction_order + i && m.client
                        == *client && m.conversation_id == *conversation_id && m.flow_id == *flow_id
                        && m.step_id == *step_id && m.direction == *direction && m.created_at
                        == *created_at
                },
        decreases payloads.len() - k,
    {
        let sealed = encode_payload(&payloads[k]);
        let m = StoredMessage {
            client: Client {
                bot_id: client.bot_id.clone(),
                channel_id: client.channel_id.clone(),
                user_id: client.user_id.clone(),
            },
            conversation_id: conversation_id.clone(),
            flow_id: flow_id.clone(),
            step_id: step_id.clone(),
            message_order: base_message_order + (k as u32),
            interaction_order: base_interaction_order + (k as u32),
            direction: direction.clone(),
            payload: sealed,
            created_at: created_at.clone(),
        };
        out.push(m);
        k = k + 1;
    }
    out
}

/// Relies on `chrono::Utc::now` and `chrono::format`: the current UTC time
/// rendered as `YYYY-MM-DDTHH:mm:ss.SSSZ` (millisecond precision, literal
/// `Z`).  Nothing is assumed of the clock's value.
#[verifier::external_body]
pub fn get_date_time() -> (r: String) {
    chrono::Utc::now().format("%Y-%m-%dT%H:%M:%S.%3fZ").to_string()
}

/// A fatal configuration failure, surfaced before any engine operation.
#[derive(Clone, Copy, PartialEq, Eq, Debug)]
pub enum ConfigError {
    MissingTableName,
}

/// Resolve the backend table's name from the environment's value: the name
/// exactly when the value is set, the fatal configuration error exactly when
/// it is absent.
pub fn table_name_from_env(value: Option<String>) -> (r: Result<String, ConfigError>)
    ensures
        match r {
            Ok(name) => value == Some(name),
            Err(e) => value is None && e == ConfigError::MissingTableName,
        },
{
    match value {
        Option::Some(v) => Ok(v),
        Option::None => Err(ConfigError::MissingTableName),
    }
}

} // verus!
