//! A set of bounded channels that spreads work by content hash, so that all
//! the work on one hash goes through one channel.
use vstd::prelude::*;
use std::sync::mpsc::{Receiver, SendError, SyncSender};

verus! {

/// std's `SyncSender`, carried through opaque.
#[verifier::external_type_specification]
#[verifier::external_body]
#[verifier::reject_recursive_types(T)]
pub struct ExSyncSender<T>(SyncSender<T>);

/// std's `Receiver`, carried through opaque.
#[verifier::external_type_specification]
#[verifier::external_body]
#[verifier::reject_recursive_types(T)]
pub struct ExReceiver<T>(Receiver<T>);

/// std's `SendError`, carried through opaque.
#[verifier::external_type_specification]
#[verifier::external_body]
#[verifier::reject_recursive_types(T)]
pub struct ExSendError<T>(SendError<T>);

/// Relies on `std::sync::mpsc::sync_channel`: a connected sender and receiver
/// whose buffer holds `bound` messages.
pub assume_specification<T>[ std::sync::mpsc::sync_channel::<T> ](bound: usize) -> (SyncSender<
    T,
>, Receiver<T>);

/// Relies on `SyncSender::send`: blocks until the message is buffered, and
/// fails only when the receiver is gone.
pub assume_specification<T>[ SyncSender::<T>::send ](sender: &SyncSender<T>, t: T) -> Result<
    (),
    SendError<T>,
>;

/// Relies on `SyncSender`'s `Clone`: another sender into the same channel.
pub assume_specification<T>[ <SyncSender<T> as Clone>::clone ](sender: &SyncSender<T>) -> SyncSender<T>;

/// The messages each channel buffers before a sender waits.
pub const SHARD_BOUND: usize = 32;

/// The channel that work on a hash goes to: the code of the hash's first
/// character modulo the number of channels.
pub open spec fn shard_of(hash: Seq<char>, count: nat) -> nat
    recommends
        hash.len() > 0,
        count > 0,
{
    (hash[0] as u32 as nat) % count
}

/// Channels, one per shard; each receiver was handed to the caller's
/// consumer when the set was made.
#[verifier::reject_recursive_types(T)]
pub struct ShardedChannel<T> {
    tx: Vec<SyncSender<T>>,
}

impl<T> ShardedChannel<T> {
    /// The number of channels.
    pub closed spec fn shards(&self) -> nat {
        self.tx@.len()
    }

    /// Makes `count` channels and hands each receiver to `receiver`.
    pub fn new<F>(count: u32, receiver: F) -> (r: ShardedChannel<T>) where F: Fn(Receiver<T>)
        requires
            forall|rx: Receiver<T>| receiver.requires((rx,)),
        ensures
            r.shards() == count,
    {
        let mut transmitters: Vec<SyncSender<T>> = Vec::new();
        let mut i: u32 = 0;
        while i < count
            invariant
                i <= count,
                transmitters@.len() == i,
                forall|rx: Receiver<T>| receiver.requires((rx,)),
            decreases count - i,
        {
            let (tx, rx) = std::sync::mpsc::sync_channel(SHARD_BOUND);
            transmitters.push(tx);
            receiver(rx);
            i = i + 1;
        }
        ShardedChannel { tx: transmitters }
    }

    /// The channel that work on a hash goes to.
    pub fn shard_for(&self, hash: &str) -> (r: usize)
        requires
            hash@.len() > 0,
            self.shards() > 0,
        ensures
            r == shard_of(hash@, self.shards()),
            r < self.shards(),
    {
        let x = hash.get_char(0);
        (x as u32 as usize) % self.tx.len()
    }

    /// Sends work on a hash to its channel; fails when that channel's receiver
    /// is gone.
    pub fn send(&self, value: T, hash: &str) -> (r: Result<(), SendError<T>>)
        requires
            hash@.len() > 0,
            self.shards() > 0,
    {
        let index = self.shard_for(hash);
        self.tx[index].send(value)
    }
}

impl<T> Clone for ShardedChannel<T> {
    /// Another handle on the same channels.
    fn clone(&self) -> (r: ShardedChannel<T>)
        ensures
            r.shards() == self.shards(),
    {
        let mut transmitters: Vec<SyncSender<T>> = Vec::new();
        let mut i: usize = 0;
        while i < self.tx.len()
            invariant
                i <= self.tx@.len(),
                transmitters@.len() == i,
            decreases self.tx@.len() - i,
        {
            transmitters.push(self.tx[i].clone());
            i = i + 1;
        }
        ShardedChannel { tx: transmitters }
    }
}

} // verus!
