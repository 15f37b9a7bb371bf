//! Frames received on the CAN interfaces travel to the TCP side through
//! channels; a poison message tells a receiving end to shut down.
use vstd::prelude::*;

use crate::dep::bus_frame::BusFrame;
use crate::dep::endpoint::{send_msg, Endpoint};
use crate::dep::errors::Error;

verus! {

/// crossbeam's sending end of a channel.
#[verifier::external_type_specification]
#[verifier::external_body]
#[verifier::reject_recursive_types(T)]
pub struct ExSender<T>(crossbeam::channel::Sender<T>);

/// crossbeam's receiving end of a channel.
#[verifier::external_type_specification]
#[verifier::external_body]
#[verifier::reject_recursive_types(T)]
pub struct ExReceiver<T>(crossbeam::channel::Receiver<T>);

/// What travels through the channels.
#[derive(Debug)]
pub enum Msg {
    Frame(BusFrame),
    Poison,
}

/// Capacity of the channel of one TCP client endpoint.
pub const ENDPOINT_CAPACITY: usize = 100;

/// Capacity of the channel that gathers the frames of all interfaces.
pub const SINGLE_RECEIVER_CAPACITY: usize = 128;

/// The number of messages that the channel of a receiving end holds at
/// most: the limit it was made with.
pub uninterp spec fn channel_capacity(rx: crossbeam::channel::Receiver<Msg>) -> nat;

/// The sending end and the receiving end belong to one channel (what
/// crossbeam's `same_channel` tells of two ends of one kind).
pub uninterp spec fn same_channel(tx: crossbeam::channel::Sender<Msg>, rx: crossbeam::channel::Receiver<Msg>) -> bool;

/// crossbeam's `bounded`: a new channel that holds up to `cap` messages (the
/// array flavour stores `cap` as its capacity). Its source panics where
/// `cap + 1`, rounded up to a power of two, overflows; the `requires` stays
/// far below that. The two ends are made by one `counter::new` over one
/// channel, so they belong together.
#[verifier::external_body]
fn bounded_channel(cap: usize) -> (r: (crossbeam::channel::Sender<Msg>, crossbeam::channel::Receiver<Msg>))
    requires
        0 < cap <= 1024,
    ensures
        channel_capacity(r.1) == cap,
        same_channel(r.0, r.1),
{
    crossbeam::channel::bounded(cap)
}

/// crossbeam's `Receiver::recv`: blocks until a message arrives, and gives
/// nothing only when the channel is empty and every sending end is gone
/// (the array flavour disconnects when its last sender is dropped). What
/// arrives depends on other threads, so it is not stated; but while the
/// caller holds a sending end of the same channel, `kept`, the channel
/// cannot lose its last sender, and a message always comes.
#[verifier::external_body]
fn recv_msg(rx: &crossbeam::channel::Receiver<Msg>, kept: Option<&crossbeam::channel::Sender<Msg>>) -> (r: Option<Msg>)
    ensures
        (kept matches Some(tx) && same_channel(*tx, *rx)) ==> r is Some,
{
    let _held = kept;
    rx.recv().ok()
}

/// crossbeam's `Sender::clone`: another sending end of the same channel. It
/// counts one more sender and carries the same pointer to the channel, so
/// the clone equals the original end.
#[verifier::external_body]
fn clone_sender(tx: &crossbeam::channel::Sender<Msg>) -> (r: crossbeam::channel::Sender<Msg>)
    ensures
        r == *tx,
{
    tx.clone()
}

/// What a receiving end reports for what its channel gave: the frame of a
/// frame message, [`Error::ChannelPoison`] for a poison message and
/// [`Error::CrossbeamChannelClosed`] when the channel is closed.
pub open spec fn spec_received_result(received: Option<Msg>) -> Result<BusFrame, Error> {
    match received {
        Some(Msg::Frame(frame)) => Ok(frame),
        Some(Msg::Poison) => Err(Error::ChannelPoison),
        None => Err(Error::CrossbeamChannelClosed),
    }
}

/// What a receiving end reports for what its channel gave.
pub fn received_result(received: Option<Msg>) -> (r: Result<BusFrame, Error>)
    ensures
        r == spec_received_result(received),
{
    match received {
        Some(Msg::Frame(frame)) => Ok(frame),
        Some(Msg::Poison) => Err(Error::ChannelPoison),
        None => Err(Error::CrossbeamChannelClosed),
    }
}

/// The three outcomes of a receive.
pub open spec fn is_receive_outcome(r: Result<BusFrame, Error>) -> bool {
    r is Ok || r == Err::<BusFrame, Error>(Error::ChannelPoison) || r == Err::<BusFrame, Error>(
        Error::CrossbeamChannelClosed,
    )
}

/// The end on which one TCP client receives the frames of all interfaces.
pub struct SocketCanRx {
    rx: crossbeam::channel::Receiver<Msg>,
}

impl SocketCanRx {
    /// The receiving end itself.
    pub closed spec fn receiver(&self) -> crossbeam::channel::Receiver<Msg> {
        self.rx
    }

    /// The number of messages that this end's channel holds at most.
    pub closed spec fn capacity(&self) -> nat {
        channel_capacity(self.rx)
    }

    /// Waits for the next frame; a poison message or a closed channel is an error.
    pub fn recv(&self) -> (r: Result<BusFrame, Error>)
        ensures
            is_receive_outcome(r),
    {
        received_result(recv_msg(&self.rx, None))
    }
}

/// Tells a receiving end to shut down.
pub struct SocketCanRxShutdownHandle {
    tx: crossbeam::channel::Sender<Msg>,
}

impl SocketCanRxShutdownHandle {
    /// The sending end through which the poison message goes.
    pub closed spec fn sender(&self) -> crossbeam::channel::Sender<Msg> {
        self.tx
    }

    /// Sends a poison message; a channel that is already closed needs none.
    pub fn shutdown(&self) {
        let mut end = Endpoint::new(clone_sender(&self.tx));
        let _ = send_msg(&mut end, Msg::Poison);
    }
}

/// One channel into which the frames of all interfaces go, with its single receiving end.
pub struct SocketCanSingleReceiver {
    tx: crossbeam::channel::Sender<Msg>,
    rx: crossbeam::channel::Receiver<Msg>,
}

impl SocketCanSingleReceiver {
    /// The receiver keeps a sending end of its own channel.
    #[verifier::type_invariant]
    spec fn keeps_own_sender(self) -> bool {
        same_channel(self.tx, self.rx)
    }

    /// The receiving end of this receiver's channel.
    pub closed spec fn receiver(&self) -> crossbeam::channel::Receiver<Msg> {
        self.rx
    }

    /// The sending end of this receiver's channel.
    pub closed spec fn sender(&self) -> crossbeam::channel::Sender<Msg> {
        self.tx
    }

    /// The number of messages that this receiver's channel holds at most.
    pub closed spec fn capacity(&self) -> nat {
        channel_capacity(self.rx)
    }

    /// A receiver whose channel holds up to [`SINGLE_RECEIVER_CAPACITY`] messages.
    pub fn new() -> (r: Self)
        ensures
            r.capacity() == SINGLE_RECEIVER_CAPACITY,
            same_channel(r.sender(), r.receiver()),
    {
        let (tx, rx) = bounded_channel(SINGLE_RECEIVER_CAPACITY);
        Self { tx, rx }
    }

    /// A sending end for the thread that reads one interface.
    pub fn frame_sender(&self) -> (r: crossbeam::channel::Sender<Msg>)
        ensures
            r == self.sender(),
    {
        clone_sender(&self.tx)
    }

    /// Waits for the next frame; a poison message is an error. The channel
    /// never closes, since this receiver keeps a sending end of it.
    pub fn receive(&self) -> (r: Result<BusFrame, Error>)
        ensures
            r is Ok || r == Err::<BusFrame, Error>(Error::ChannelPoison),
    {
        proof {
            use_type_invariant(self);
        }
        received_result(recv_msg(&self.rx, Some(&self.tx)))
    }

    /// A handle that shuts this receiver down.
    pub fn shutdown_handle(&self) -> (r: SocketCanRxShutdownHandle)
        ensures
            r.sender() == self.sender(),
    {
        SocketCanRxShutdownHandle { tx: clone_sender(&self.tx) }
    }
}

/// Opens the endpoint of a new TCP client: a channel of
/// [`ENDPOINT_CAPACITY`] messages whose sending end joins the endpoints that
/// frames are dispatched to, with nothing handed to it yet. The other
/// endpoints stay as they were.
pub fn open_endpoint(endpoints: &mut Vec<Endpoint>) -> (r: (SocketCanRx, SocketCanRxShutdownHandle))
    ensures
        final(endpoints)@.len() == old(endpoints)@.len() + 1,
        final(endpoints)@.subrange(0, old(endpoints)@.len() as int) == old(endpoints)@,
        final(endpoints)@.last().log() == Seq::<(Msg, bool)>::empty(),
        final(endpoints)@.last().channel() == r.1.sender(),
        same_channel(r.1.sender(), r.0.receiver()),
        r.0.capacity() == ENDPOINT_CAPACITY,
{
    let (tx, rx) = bounded_channel(ENDPOINT_CAPACITY);
    endpoints.push(Endpoint::new(clone_sender(&tx)));
    assert(endpoints@.subrange(0, old(endpoints)@.len() as int) =~= old(endpoints)@);
    (SocketCanRx { rx }, SocketCanRxShutdownHandle { tx })
}

/// The positions at which a send was not delivered, in increasing order.
pub open spec fn spec_closed_positions(delivered: Seq<bool>) -> Seq<usize>
    decreases delivered.len(),
{
    if delivered.len() == 0 {
        Seq::empty()
    } else {
        let front = spec_closed_positions(delivered.drop_last());
        if delivered.last() {
            front
        } else {
            front.push((delivered.len() - 1) as usize)
        }
    }
}

/// The failed positions rise strictly and lie below the number of sends.
pub proof fn lemma_closed_positions_increasing(delivered: Seq<bool>)
    requires
        delivered.len() <= usize::MAX,
    ensures
        increasing_below(spec_closed_positions(delivered), delivered.len()),
        forall|i: int|
            0 <= i < spec_closed_positions(delivered).len() ==> !delivered[#[trigger] spec_closed_positions(
                delivered,
            )[i] as int],
    decreases delivered.len(),
{
    if delivered.len() > 0 {
        let d = delivered.drop_last();
        lemma_closed_positions_increasing(d);
        let f = spec_closed_positions(d);
        let r = spec_closed_positions(delivered);
        let n = delivered.len() - 1;
        assert((n as usize) as int == n);
        assert forall|i: int| 0 <= i < f.len() implies !delivered[f[i] as int] by {
            assert(delivered[f[i] as int] == d[f[i] as int]);
        }
        if delivered.last() {
            assert(r == f);
        } else {
            assert(r == f.push(n as usize));
            assert(delivered[n] == delivered.last());
            assert forall|i: int, j: int| 0 <= i < j < r.len() implies r[i] < r[j] by {
                if j < f.len() {
                    assert(r[i] == f[i] && r[j] == f[j]);
                } else {
                    assert(r[i] == f[i]);
                    assert(r[j] == n as usize);
                }
            }
            assert forall|i: int| 0 <= i < r.len() implies !delivered[#[trigger] r[i] as int] by {
                if i < f.len() {
                    assert(r[i] == f[i]);
                } else {
                    assert(r[i] == n as usize);
                }
            }
        }
    }
}

/// The positions of the endpoints to which a frame was not delivered, given
/// the outcome of each send in order.
pub fn closed_positions(delivered: &Vec<bool>) -> (closed: Vec<usize>)
    ensures
        closed@ == spec_closed_positions(delivered@),
{
    let mut closed: Vec<usize> = Vec::new();
    let mut i: usize = 0;
    while i < delivered.len()
        invariant
            i <= delivered@.len(),
            closed@ == spec_closed_positions(delivered@.take(i as int)),
        decreases delivered@.len() - i,
    {
        proof {
            assert(delivered@.take(i + 1).drop_last() =~= delivered@.take(i as int));
            assert(delivered@.take(i + 1).last() == delivered@[i as int]);
        }
        if !delivered[i] {
            closed.push(i);
        }
        i = i + 1;
    }
    assert(delivered@.take(delivered@.len() as int) =~= delivered@);
    closed
}

/// Hands a frame to every endpoint, once each and in order, and lists the
/// positions of the endpoints whose channel refused it because it was
/// closed. Which sends fail depends on the other threads; each endpoint's
/// record shows the frame and the outcome, and [`closed_positions`] says
/// what is listed for those outcomes.
pub fn dispatch_frame(endpoints: &mut Vec<Endpoint>, frame: BusFrame) -> (closed: Vec<usize>)
    ensures
        final(endpoints)@.len() == old(endpoints)@.len(),
        forall|i: int, j: int| 0 <= i < j < closed@.len() ==> closed@[i] < closed@[j],
        forall|i: int| 0 <= i < closed@.len() ==> closed@[i] < old(endpoints)@.len(),
        exists|delivered: Seq<bool>|
            {
                &&& delivered.len() == old(endpoints)@.len()
                &&& closed@ == spec_closed_positions(delivered)
                &&& forall|i: int|
                    0 <= i < delivered.len() ==> {
                        &&& (#[trigger] final(endpoints)@[i]).log() == old(endpoints)@[i].log().push(
                            (Msg::Frame(frame), delivered[i]),
                        )
                        &&& final(endpoints)@[i].channel() == old(endpoints)@[i].channel()
                    }
            },
{
    let ghost before = endpoints@;
    let mut delivered: Vec<bool> = Vec::new();
    let mut i: usize = 0;
    while i < endpoints.len()
        invariant
            i <= endpoints@.len(),
            endpoints@.len() == before.len(),
            delivered@.len() == i,
            forall|k: int|
                0 <= k < i ==> {
                    &&& (#[trigger] endpoints@[k]).log() == before[k].log().push(
                        (Msg::Frame(frame), delivered@[k]),
                    )
                    &&& endpoints@[k].channel() == before[k].channel()
                },
            forall|k: int| i <= k < endpoints@.len() ==> #[trigger] endpoints@[k] == before[k],
        decreases endpoints@.len() - i,
    {
        let ok = send_msg(&mut endpoints[i], Msg::Frame(frame));
        delivered.push(ok);
        i = i + 1;
    }
    let closed = closed_positions(&delivered);
    proof {
        lemma_closed_positions_increasing(delivered@);
    }
    closed
}

/// The positions are strictly increasing and lie below `len`.
pub open spec fn increasing_below(c: Seq<usize>, len: nat) -> bool {
    &&& forall|i: int, j: int| 0 <= i < j < c.len() ==> c[i] < c[j]
    &&& forall|i: int| 0 <= i < c.len() ==> c[i] < len
}

/// `s` without the entries at the increasing positions `c`: what lies before
/// the last of them, without the others, then what follows it.
pub open spec fn spec_without_positions<T>(s: Seq<T>, c: Seq<usize>) -> Seq<T>
    decreases c.len(),
{
    if c.len() == 0 {
        s
    } else {
        let last = c.last() as int;
        spec_without_positions(s.take(last), c.drop_last()) + s.skip(last + 1)
    }
}

/// Increasing positions below `len` leave room: the `i`-th of `n` is at most
/// `len - (n - i)`.
proof fn lemma_increasing_room(c: Seq<usize>, len: nat)
    requires
        increasing_below(c, len),
    ensures
        forall|i: int| 0 <= i < c.len() ==> c[i] + (c.len() - i) <= len,
    decreases c.len(),
{
    if c.len() > 0 {
        let d = c.drop_last();
        assert(increasing_below(d, c.last() as nat));
        lemma_increasing_room(d, c.last() as nat);
        assert forall|i: int| 0 <= i < c.len() implies c[i] + (c.len() - i) <= len by {
            if i < c.len() - 1 {
                assert(d[i] == c[i]);
            }
        }
    }
}

/// Removing positions that all lie in a prefix leaves what follows the prefix untouched.
proof fn lemma_without_positions_append<T>(a: Seq<T>, b: Seq<T>, c: Seq<usize>)
    requires
        increasing_below(c, a.len()),
    ensures
        spec_without_positions(a + b, c) == spec_without_positions(a, c) + b,
    decreases c.len(),
{
    if c.len() > 0 {
        let last = c.last() as int;
        let d = c.drop_last();
        assert(increasing_below(d, last as nat));
        assert((a + b).take(last) =~= a.take(last));
        assert((a + b).skip(last + 1) =~= a.skip(last + 1) + b);
        assert(spec_without_positions(a + b, c) == spec_without_positions(a.take(last), d) + (a
            + b).skip(last + 1));
        assert(spec_without_positions(a, c) == spec_without_positions(a.take(last), d) + a.skip(
            last + 1,
        ));
        assert(spec_without_positions(a + b, c) =~= spec_without_positions(a, c) + b);
    }
}

/// Removing `n` distinct positions shortens a sequence by `n`.
pub proof fn lemma_without_positions_len<T>(s: Seq<T>, c: Seq<usize>)
    requires
        increasing_below(c, s.len()),
    ensures
        spec_without_positions(s, c).len() == s.len() - c.len(),
    decreases c.len(),
{
    if c.len() > 0 {
        let last = c.last() as int;
        let d = c.drop_last();
        assert(increasing_below(d, last as nat));
        lemma_without_positions_len(s.take(last), d);
    }
}

/// Removes the endpoints at the increasing positions `closed`, from the
/// last to the first so that the positions still to go stay valid; the
/// other endpoints keep their order.
pub fn remove_closed_endpoints<T>(endpoints: &mut Vec<T>, closed: &Vec<usize>)
    requires
        increasing_below(closed@, old(endpoints)@.len()),
    ensures
        final(endpoints)@ == spec_without_positions(old(endpoints)@, closed@),
{
    let ghost s = endpoints@;
    let ghost c = closed@;
    proof {
        lemma_increasing_room(c, s.len());
        assert(c.take(c.len() as int) =~= c);
    }
    let mut k: usize = closed.len();
    while k > 0
        invariant
            c == closed@,
            increasing_below(c, s.len()),
            forall|i: int| 0 <= i < c.len() ==> c[i] + (c.len() - i) <= s.len(),
            k <= c.len(),
            endpoints@.len() == s.len() - (c.len() - k),
            spec_without_positions(endpoints@, c.take(k as int)) == spec_without_positions(s, c),
        decreases k,
    {
        let pos = closed[k - 1];
        let ghost x = endpoints@;
        let ghost ck = c.take(k as int);
        let ghost d = c.take(k - 1);
        assert(ck.drop_last() =~= d);
        assert(ck.last() == pos);
        assert(increasing_below(d, pos as nat));
        endpoints.remove(pos);
        proof {
            assert(x.take(pos as int) + x.skip(pos + 1) =~= endpoints@);
            lemma_without_positions_append(x.take(pos as int), x.skip(pos + 1), d);
        }
        k = k - 1;
    }
    assert(c.take(0) =~= Seq::<usize>::empty());
}

/// The entries of `s` whose send was delivered, in order.
pub open spec fn spec_delivered_entries<T>(s: Seq<T>, delivered: Seq<bool>) -> Seq<T>
    decreases s.len(),
{
    if s.len() == 0 || delivered.len() == 0 {
        Seq::empty()
    } else {
        let front = spec_delivered_entries(s.drop_last(), delivered.drop_last());
        if delivered.last() {
            front.push(s.last())
        } else {
            front
        }
    }
}

/// After a dispatch, removing the endpoints it lists as closed keeps exactly
/// the endpoints whose send was delivered, in their order: no live client
/// loses its place, and every refused one goes.
pub proof fn lemma_removing_closed_keeps_delivered<T>(s: Seq<T>, delivered: Seq<bool>)
    requires
        s.len() == delivered.len(),
        delivered.len() <= usize::MAX,
    ensures
        increasing_below(spec_closed_positions(delivered), s.len()),
        spec_without_positions(s, spec_closed_positions(delivered)) == spec_delivered_entries(
            s,
            delivered,
        ),
    decreases s.len(),
{
    lemma_closed_positions_increasing(delivered);
    if s.len() > 0 {
        let n = s.len() - 1;
        let front = s.drop_last();
        let d = delivered.drop_last();
        lemma_removing_closed_keeps_delivered(front, d);
        let c = spec_closed_positions(d);
        assert(increasing_below(c, n as nat));
        if delivered.last() {
            assert(spec_closed_positions(delivered) == c);
            assert(s =~= front + seq![s.last()]);
            lemma_without_positions_append(front, seq![s.last()], c);
            assert(spec_delivered_entries(s, delivered) =~= spec_delivered_entries(front, d).push(
                s.last(),
            ));
        } else {
            assert((n as usize) as int == n);
            let cc = spec_closed_positions(delivered);
            assert(cc == c.push(n as usize));
            assert(cc.drop_last() =~= c);
            assert(cc.last() == n as usize);
            assert(s.take(n) =~= front);
            assert(s.skip(n + 1) =~= Seq::<T>::empty());
            assert(spec_without_positions(s, cc) == spec_without_positions(s.take(n), c) + s.skip(
                n + 1,
            ));
            assert(spec_without_positions(s, cc) =~= spec_without_positions(front, c));
        }
    }
}

} // verus!
