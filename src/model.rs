//! The records that broker nodes and the lookup node send, as plain values.
//! Decoding them from JSON happens outside the library.
use vstd::prelude::*;

verus! {

/// The legacy `/stats` envelope: `{ status_code, data: { topics } }`.
pub struct StatusTopicsResponse {
    pub data: StatusTopicsDetails,
}

/// The modern `/stats` body: `{ topics }`.
pub struct StatusTopicsDetails {
    pub topics: Vec<TopicDetails>,
}

/// One topic of a `/stats` body.
pub struct TopicDetails {
    pub topic_name: String,
    pub depth: u64,
    pub message_count: u64,
    pub channels: Vec<TopicChannel>,
}

/// One channel of a topic in a `/stats` body.
pub struct TopicChannel {
    pub depth: u64,
    pub in_flight_count: u64,
    pub channel_name: String,
    pub message_count: u64,
    pub clients: Vec<ClientDetails>,
}

/// A client connected to a channel.
pub struct ClientDetails {
    pub hostname: String,
}

/// One producer node as the lookup node lists it.
pub struct LookupProducer {
    pub remote_address: String,
    pub hostname: String,
    pub broadcast_address: String,
    pub tcp_port: i32,
    pub http_port: i32,
    pub version: String,
}

/// The lookup node's `/nodes` envelope.
pub struct LookupResponse {
    pub status_code: i32,
    pub data: LookupData,
}

/// The body of the lookup node's `/nodes` envelope.
pub struct LookupData {
    pub producers: Vec<LookupProducer>,
}

/// The `/stats` body to use: the modern shape where it decoded, else the legacy
/// one, else none.
pub fn select_stats_body(
    modern: Option<StatusTopicsDetails>,
    legacy: Option<StatusTopicsResponse>,
) -> (r: Option<StatusTopicsDetails>)
    ensures
        modern is Some ==> r == modern,
        modern is None && legacy is Some ==> r == Some(legacy->Some_0.data),
        modern is None && legacy is None ==> r is None,
{
    match modern {
        Some(details) => Some(details),
        None => match legacy {
            Some(response) => Some(response.data),
            None => None,
        },
    }
}

} // verus!
