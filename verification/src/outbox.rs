//! An alert handler together with the record of what was handed to it
//! and of what it answered.
//!
//! The handler is whatever its author made it, and nothing is known of
//! what it does with a change. What can be known is which changes it was
//! given and what it said to each. An outbox holds the handler so that
//! nothing reaches it but through `send`, which keeps the record.

use crate::alert::{delivery_outcome, AlertError, AlertHandler};
use crate::structs::{ChangeView, Config, RunnerStateChange};
use vstd::prelude::*;

verus! {

/// What a handler answered to one change.
pub ghost enum Answer {
    /// The change was delivered.
    Delivered,
    /// The change could not be delivered, for this reason.
    Failed(Seq<char>),
}

/// The answer of the handler that lies behind the outcome of a delivery.
pub open spec fn answer_of(outcome: Result<(), AlertError>) -> Answer {
    match outcome {
        Ok(_) => Answer::Delivered,
        Err(error) => Answer::Failed(error.message_text()),
    }
}

/// So many deliveries in a row.
pub open spec fn all_delivered(count: int) -> Seq<Answer> {
    Seq::new(count as nat, |i: int| Answer::Delivered)
}

/// An alert handler and, for the proofs, the changes that it was given
/// and its answers.
pub struct Outbox<H> {
    handler: H,
    handed: Ghost<Seq<ChangeView>>,
    answers: Ghost<Seq<Answer>>,
}

impl<H: AlertHandler> Outbox<H> {
    /// The changes that the handler was given through this outbox, in
    /// their order, delivered or not.
    pub closed spec fn handed(&self) -> Seq<ChangeView> {
        self.handed@
    }

    /// What the handler answered to each of these changes, in the same
    /// order.
    pub closed spec fn answers(&self) -> Seq<Answer> {
        self.answers@
    }

    /// True if this outbox is what `before` becomes when `changes` are
    /// sent through it one by one, up to the first that the handler could
    /// not deliver, and `outcome` is what comes of that: `Ok` where every
    /// change was delivered, and else the failure of the last change that
    /// was handed over, with the handler's reason.
    pub open spec fn took(
        &self,
        before: Outbox<H>,
        changes: Seq<ChangeView>,
        outcome: Result<(), AlertError>,
    ) -> bool {
        match outcome {
            Ok(_) => {
                &&& self.handed() == before.handed() + changes
                &&& self.answers() == before.answers() + all_delivered(changes.len() as int)
            },
            Err(error) => {
                &&& error is NotificationError
                &&& exists|tried: int|
                    {
                        &&& 0 < tried <= changes.len()
                        &&& self.handed() == before.handed() + #[trigger] changes.subrange(
                            0,
                            tried,
                        )
                        &&& self.answers() == before.answers() + all_delivered(tried - 1).push(
                            Answer::Failed(error.message_text()),
                        )
                    }
            },
        }
    }

    /// The handler in the outbox.
    pub closed spec fn inner(&self) -> H {
        self.handler
    }

    /// An outbox around `handler`, which has been given nothing yet.
    pub fn new(handler: H) -> (outbox: Outbox<H>)
        ensures
            outbox.inner() == handler,
            outbox.handed() == Seq::<ChangeView>::empty(),
            outbox.answers() == Seq::<Answer>::empty(),
    {
        Outbox { handler, handed: Ghost(Seq::empty()), answers: Ghost(Seq::empty()) }
    }

    /// Hands one change to the handler and notes its answer. The outcome
    /// is that answer: `Ok` where the handler delivered the change, and a
    /// notification error with the handler's reason where it could not.
    pub fn send(&mut self, cfg: &Config, change: RunnerStateChange) -> (outcome: Result<
        (),
        AlertError,
    >)
        ensures
            final(self).handed() == old(self).handed().push(change@),
            final(self).answers() == old(self).answers().push(answer_of(outcome)),
            outcome matches Err(error) ==> error is NotificationError,
    {
        proof {
            self.handed@ = self.handed@.push(change@);
        }
        let outcome = delivery_outcome(self.handler.send_alert(cfg, change));
        proof {
            self.answers@ = self.answers@.push(answer_of(outcome));
        }
        outcome
    }

    /// The handler, to look at.
    pub fn handler(&self) -> (handler: &H)
        ensures
            *handler == self.inner(),
    {
        &self.handler
    }

    /// Gives the handler back.
    pub fn into_handler(self) -> (handler: H)
        ensures
            handler == self.inner(),
    {
        self.handler
    }
}

} // verus!
