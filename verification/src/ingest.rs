//! The ingest endpoints: what a worker does with each outcome of a receive.
//!
//! A worker performs the receive itself and hands the outcome in; what
//! becomes of the store, and what the worker does next, is decided here.

use crate::config::MAX_QUEUE_LEN;
use crate::pcm::{decode_samples, decoded};
use crate::queue::appended;
use crate::store::{queue_of, BufferStore};
use vstd::prelude::*;

verus! {

/// Milliseconds a datagram worker waits before it asks again, after a
/// receive that found nothing.
pub const RETRY_MILLIS: u64 = 1;

/// `store` after the samples of `payload` have gone to the queue of `id`.
pub open spec fn ingested(
    store: Map<Seq<char>, Seq<i16>>,
    id: Seq<char>,
    payload: Seq<u8>,
) -> Map<Seq<char>, Seq<i16>> {
    store.insert(id, appended(queue_of(store, id), decoded(payload)))
}

/// Decodes `payload` and appends its samples to the queue of `id`, which
/// is created if the store does not hold it yet. Returns the number of
/// samples decoded.
pub fn ingest(store: &mut BufferStore, id: &str, payload: &[u8]) -> (count: usize)
    requires
        old(store).wf(),
    ensures
        final(store).wf(),
        final(store)@ == ingested(old(store)@, id@, payload@),
        final(store)@[id@].len() <= MAX_QUEUE_LEN,
        count == payload@.len() / 2,
{
    let samples: Vec<i16> = decode_samples(payload);
    store.append(id, samples.as_slice());
    samples.len()
}

/// The outcome of one read on a connection.
pub enum ReadEvent<'a> {
    /// The bytes that the read returned; none if the peer has closed.
    Data(&'a [u8]),
    /// The read failed.
    Failed,
}

/// Whether a connection's worker goes on.
#[derive(Clone, Copy, Debug, PartialEq, Eq)]
pub enum ClientState {
    /// The worker reads again.
    Open,
    /// The worker ends; the store no longer holds its source.
    Closed,
}

/// Whether `event` ends the connection: a failed read does, and so does a
/// read of no bytes.
pub open spec fn ends_connection(event: ReadEvent) -> bool {
    match event {
        ReadEvent::Data(payload) => payload@.len() == 0,
        ReadEvent::Failed => true,
    }
}

/// Handles one read on the connection of `peer`. Bytes are ingested and
/// the worker stays open. A close or a failure removes the queue of `peer`
/// and ends the worker; nothing is tried again.
pub fn handle_client(store: &mut BufferStore, peer: &str, event: ReadEvent) -> (state: ClientState)
    requires
        old(store).wf(),
    ensures
        final(store).wf(),
        (state == ClientState::Closed) == ends_connection(event),
        match event {
            ReadEvent::Data(payload) if payload@.len() > 0 => final(store)@ == ingested(
                old(store)@,
                peer@,
                payload@,
            ),
            _ => final(store)@ == old(store)@.remove(peer@),
        },
        state == ClientState::Closed ==> !final(store)@.contains_key(peer@),
{
    match event {
        ReadEvent::Data(payload) => {
            if payload.len() > 0 {
                let _ = ingest(store, peer, payload);
                ClientState::Open
            } else {
                let _ = store.remove(peer);
                ClientState::Closed
            }
        },
        ReadEvent::Failed => {
            let _ = store.remove(peer);
            ClientState::Closed
        },
    }
}

/// The outcome of one receive on the datagram socket.
pub enum DatagramEvent<'a> {
    /// A datagram from the sender `from`.
    Received { from: &'a str, payload: &'a [u8] },
    /// Nothing was waiting.
    WouldBlock,
    /// The receive failed for another reason.
    Failed,
}

/// What the datagram worker does before its next receive.
#[derive(Clone, Copy, Debug, PartialEq, Eq)]
pub enum DatagramAction {
    /// Receive again at once.
    Receive,
    /// Wait `RETRY_MILLIS`, then receive again.
    Wait,
    /// Report the failure, then receive again.
    Report,
}

/// Handles one receive on the datagram socket. A datagram is ingested
/// under its sender's identity; the other outcomes leave the store as it
/// is. The worker never ends and no queue is ever removed.
pub fn handle_datagram(store: &mut BufferStore, event: DatagramEvent) -> (action: DatagramAction)
    requires
        old(store).wf(),
    ensures
        final(store).wf(),
        match event {
            DatagramEvent::Received { from, payload } => action == DatagramAction::Receive
                && final(store)@ == ingested(old(store)@, from@, payload@),
            DatagramEvent::WouldBlock => action == DatagramAction::Wait && final(store)@ == old(
                store,
            )@,
            DatagramEvent::Failed => action == DatagramAction::Report && final(store)@ == old(
                store,
            )@,
        },
        old(store)@.dom().subset_of(final(store)@.dom()),
{
    match event {
        DatagramEvent::Received { from, payload } => {
            let _ = ingest(store, from, payload);
            DatagramAction::Receive
        },
        DatagramEvent::WouldBlock => DatagramAction::Wait,
        DatagramEvent::Failed => DatagramAction::Report,
    }
}

} // verus!
