use vstd::prelude::*;
use crossbeam_channel::Receiver;

verus! {

/// The receiving end of a channel, as `crossbeam_channel` has it.
#[verifier::external_type_specification]
#[verifier::external_body]
#[verifier::reject_recursive_types(T)]
pub struct ExReceiver<T>(Receiver<T>);

/// Calls `Receiver::try_recv` and tells whether it took a message.
///
/// Nothing is claimed of the answer: it depends on what another thread has sent by now.
#[verifier::external_body]
fn message_waits(receiver: &Receiver<()>) -> bool {
    receiver.try_recv().is_ok()
}

/// Whether the search has to stop, given whether a message waits in the channel; without a
/// channel there is no telling.
pub fn stop_on_message(message: Option<bool>) -> (stop: bool)
    ensures
        stop == (message == Some(true)),
{
    match message {
        Some(waits) => waits,
        None => false,
    }
}

/// Whether a look into the channel comes back with the given answer: `true`, if it takes a
/// message.
pub closed spec fn look_answers(receiver: Receiver<()>, answer: bool) -> bool {
    call_ensures(message_waits, (&receiver,), answer)
}

/// The answer of a look is that of the channel.
proof fn law_looks_are_answered_by_the_channel(receiver: &Receiver<()>, answer: bool)
    ensures
        look_answers(*receiver, answer) <==> call_ensures(message_waits, (receiver,), answer),
{
}

/// A search has to stop only if a look into its channel took a message, and goes on only if a look
/// took none; without a channel it never has to stop.
pub proof fn law_a_stop_takes_a_message(stop_receiver: Option<&Receiver<()>>, stop: bool)
    requires
        call_ensures(stop_requested, (stop_receiver,), stop),
    ensures
        match stop_receiver {
            Some(receiver) => look_answers(*receiver, stop),
            None => !stop,
        },
{
}

/// Whether the search has been asked to stop. Without a channel nobody can ask; with one, the
/// answer depends on what another thread has sent by now, so either may come back.
pub fn stop_requested(stop_receiver: Option<&Receiver<()>>) -> (stop: bool)
    ensures
        stop ==> stop_receiver is Some,
        stop_receiver matches Some(receiver) ==> look_answers(*receiver, stop),
{
    match stop_receiver {
        Some(receiver) => stop_on_message(Some(message_waits(receiver))),
        None => stop_on_message(None),
    }
}

/// Whether the search has been asked to stop before the visit with the given number: looks into the
/// channel once for that visit.
pub fn stop_before(stop_receiver: Option<&Receiver<()>>, visit: usize) -> (stop: bool)
    ensures
        stop ==> stop_receiver is Some,
        call_ensures(stop_requested, (stop_receiver,), stop),
{
    stop_requested(stop_receiver)
}

} // verus!
