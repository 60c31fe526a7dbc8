use vstd::prelude::*;

verus! {

#[verifier::external_type_specification]
#[verifier::external_body]
#[verifier::reject_recursive_types(T)]
pub struct ExSender<T>(chan::Sender<T>);

#[verifier::external_type_specification]
#[verifier::external_body]
#[verifier::reject_recursive_types(T)]
pub struct ExReceiver<T>(chan::Receiver<T>);

/// Calls `chan::sync(size)`: a new bounded channel of lines that holds up to
/// `size` queued lines, as its sending and receiving halves. Nothing is
/// stated of the two handles: they are new, and only the outside crate can
/// tell them apart.
#[verifier::external_body]
pub(crate) fn bounded_channel(size: usize) -> (chan::Sender<String>, chan::Receiver<String>) {
    chan::sync(size)
}

/// Calls `<chan::Sender<String> as Clone>::clone`. In chan's source the
/// clone wraps a clone of the same `Arc` of the channel (and chan's own `==`
/// on senders compares channel ids), so the clone is the same handle on the
/// same channel: the contract states it as equal to the original.
#[verifier::external_body]
pub(crate) fn clone_sender(s: &chan::Sender<String>) -> (res: chan::Sender<String>)
    ensures
        res == *s,
{
    s.clone()
}

/// Calls `<chan::Receiver<String> as Clone>::clone`: a handle on the same
/// channel, stated as equal to the original for the reason given at
/// `clone_sender`.
#[verifier::external_body]
pub(crate) fn clone_receiver(r: &chan::Receiver<String>) -> (res: chan::Receiver<String>)
    ensures
        res == *r,
{
    r.clone()
}

/// Calls `chan::Sender::send`: queues `line` on the channel, blocking while
/// a bounded buffer is full. The crate documents that it never panics (the
/// channel only closes once every sender is gone). Its effect is on the
/// channel, which Verus does not see, so nothing is stated.
#[verifier::external_body]
pub(crate) fn send_line(s: &chan::Sender<String>, line: String) {
    s.send(line)
}

} // verus!
