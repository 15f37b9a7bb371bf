//! The sending end through which one TCP client is handed frames, with a
//! record of every message handed to it.
use vstd::prelude::*;

use crate::dep::socketcan_receiver::Msg;

verus! {

/// A sending end of a client's channel. Its record lists, oldest first, each
/// message handed to the channel through it and whether the channel took it.
pub struct Endpoint {
    tx: crossbeam::channel::Sender<Msg>,
    sent: Ghost<Seq<(Msg, bool)>>,
}

impl Endpoint {
    /// The messages handed to the channel through this end, with whether each
    /// was delivered, oldest first.
    pub closed spec fn log(&self) -> Seq<(Msg, bool)> {
        self.sent@
    }

    /// The channel end itself.
    pub closed spec fn channel(&self) -> crossbeam::channel::Sender<Msg> {
        self.tx
    }

    /// An endpoint over a sending end, with nothing handed to it yet.
    pub fn new(tx: crossbeam::channel::Sender<Msg>) -> (r: Endpoint)
        ensures
            r.log() == Seq::<(Msg, bool)>::empty(),
            r.channel() == tx,
    {
        Endpoint { tx, sent: Ghost(Seq::empty()) }
    }
}

/// crossbeam's `Sender::send` on an endpoint's channel: blocks until the
/// message is queued, and fails only when every receiving end is gone.
/// Whether it fails depends on other threads, so the outcome is not stated;
/// the endpoint's record, which exists only for proofs, gains the message
/// handed over and that outcome, and the channel end stays the same. This
/// is the only code that changes the record.
#[verifier::external_body]
pub(crate) fn send_msg(endpoint: &mut Endpoint, msg: Msg) -> (delivered: bool)
    ensures
        final(endpoint).log() == old(endpoint).log().push((msg, delivered)),
        final(endpoint).channel() == old(endpoint).channel(),
{
    endpoint.tx.send(msg).is_ok()
}

} // verus!
