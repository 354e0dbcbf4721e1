//! The trigger channel: a bounded conduit of capacity one that coalesces
//! trigger signals from every source into at most one pending trigger.
//!
//! `TriggerChannel` is the state model of that conduit: a send marks a
//! trigger pending and is silently dropped when one already is; a receive
//! takes the pending trigger if there is one. The spec functions
//! [`channel_after_send`], [`channel_after_receive`] and [`receive_yields`]
//! are the channel's transition relation, and every runtime queue used to
//! carry triggers must behave as they say.

use vstd::prelude::*;

verus! {

/// Sent when a source triggers re-execution of the command.
///
/// The trigger carries no payload: only its presence matters, and the
/// channel keeps at most one pending at a time.
#[derive(Clone, Copy, PartialEq, Eq, Structural, Debug)]
pub struct ExecutionTrigger;

/// State of the capacity-one coalescing trigger conduit: either one trigger
/// is pending or none is.
pub struct TriggerChannel {
    pending: bool,
}

/// Channel state after a best-effort send: a trigger is pending, whether or
/// not one already was (the new send is dropped in that case).
pub open spec fn channel_after_send(pending: bool) -> bool {
    true
}

/// Channel state after a receive: nothing is pending.
pub open spec fn channel_after_receive(pending: bool) -> bool {
    false
}

/// Whether a receive observes a trigger: exactly when one was pending.
pub open spec fn receive_yields(pending: bool) -> bool {
    pending
}

impl TriggerChannel {
    /// Whether a trigger is pending and will be observed by the next receive.
    pub closed spec fn pending(self) -> bool {
        self.pending
    }

    /// Creates the channel with no trigger pending.
    pub fn new() -> (c: TriggerChannel)
        ensures
            !c.pending(),
    {
        TriggerChannel { pending: false }
    }

    /// Best-effort, non-blocking send: records the trigger when none is
    /// pending and silently drops it otherwise. Returns whether the trigger
    /// was stored rather than dropped.
    pub fn send(&mut self) -> (stored: bool)
        ensures
            final(self).pending() == channel_after_send(old(self).pending()),
            stored == !old(self).pending(),
    {
        let stored = !self.pending;
        self.pending = true;
        stored
    }

    /// Takes the pending trigger, if any. Yields a trigger exactly when one
    /// was pending, and leaves the channel empty either way.
    pub fn receive(&mut self) -> (t: Option<ExecutionTrigger>)
        ensures
            final(self).pending() == channel_after_receive(old(self).pending()),
            t.is_some() == receive_yields(old(self).pending()),
    {
        if self.pending {
            self.pending = false;
            Some(ExecutionTrigger)
        } else {
            None
        }
    }
}

/// Coalescing law: from an empty channel, any positive number of sends
/// before the next receive leaves exactly one trigger pending, the next
/// receive observes exactly one trigger, and a second receive observes none.
pub proof fn lemma_send_coalesces(sends: nat)
    requires
        sends >= 1,
    ensures
        receive_yields(channel_after_multiple_sends(false, sends)),
        !receive_yields(channel_after_receive(channel_after_multiple_sends(false, sends))),
{
}

/// Channel state after `sends` consecutive best-effort sends.
pub open spec fn channel_after_multiple_sends(pending: bool, sends: nat) -> bool
    decreases sends,
{
    if sends == 0 {
        pending
    } else {
        channel_after_send(channel_after_multiple_sends(pending, (sends - 1) as nat))
    }
}

} // verus!
