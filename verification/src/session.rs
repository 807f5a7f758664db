//! One connection's life: which events it is sent, how failed transmissions
//! are counted, and when it is closed.

use crate::filter::{admits, FilterSet};
use vstd::prelude::*;
use vstd::std_specs::cmp::PartialEqSpec;

verus! {

/// A connection is closed once this many transmissions in a row have failed.
pub const MAX_CONSECUTIVE_FAILURES: u32 = 10;

/// Where a connection is in its life.
#[derive(Clone, Copy, Debug, PartialEq, Eq, Structural)]
pub enum SessionState {
    /// Subscribed, and sent the events its filter admits.
    Active,
    /// To be torn down: nothing more is sent.
    Closing,
    /// Torn down. There is no way back.
    Closed,
}

/// What to do with an event that the hub handed over.
#[derive(Clone, Copy, Debug, PartialEq, Eq, Structural)]
pub enum Decision {
    /// The connection did not ask for this event: send nothing.
    Skip,
    /// Encode the event and send it, then report how the transmission went.
    Transmit,
    /// Stop reading from the hub and close the connection.
    Close,
}

/// Why the hub will hand over no further events.
#[derive(Clone, Copy, Debug, PartialEq, Eq, Structural)]
pub enum HubSignal {
    /// The publishing side is gone.
    PublisherGone,
    /// The connection fell behind and events it had not read were dropped.
    Lagged,
}

/// A connection as the contracts see it.
pub struct SessionModel<D> {
    /// The discriminants asked for, or `None` where the tag list did not parse.
    pub filter: Option<Seq<D>>,
    /// Where the connection is in its life.
    pub state: SessionState,
    /// Failed transmissions since the last one that succeeded.
    pub failures: nat,
}

impl<D> SessionModel<D> {
    /// The counter never passes the threshold, and an active connection is
    /// below it.
    pub open spec fn wf(self) -> bool {
        &&& self.failures <= MAX_CONSECUTIVE_FAILURES
        &&& self.state is Active ==> self.failures < MAX_CONSECUTIVE_FAILURES
    }

    /// A connection as it starts out.
    pub open spec fn opened(filter: Option<Seq<D>>) -> Self {
        SessionModel { filter, state: SessionState::Active, failures: 0 }
    }

    /// The connection after a transmission that succeeded (`delivered`) or
    /// failed. Success clears the counter; the failure that brings it to the
    /// threshold ends the connection.
    pub open spec fn on_sent(self, delivered: bool) -> Self {
        if !(self.state is Active) {
            self
        } else if delivered {
            SessionModel { failures: 0, ..self }
        } else if self.failures + 1 >= MAX_CONSECUTIVE_FAILURES {
            SessionModel { failures: self.failures + 1, state: SessionState::Closing, ..self }
        } else {
            SessionModel { failures: self.failures + 1, ..self }
        }
    }

    /// The connection after the hub handed over an event, whichever it was.
    /// Only a connection whose tag list did not parse changes: it starts
    /// closing.
    pub open spec fn on_event(self) -> Self {
        if self.state is Active && self.filter is None {
            SessionModel { state: SessionState::Closing, ..self }
        } else {
            self
        }
    }

    /// The connection after the hub said that no more events will come.
    pub open spec fn on_hub_lost(self) -> Self {
        if self.state is Active {
            SessionModel { state: SessionState::Closing, ..self }
        } else {
            self
        }
    }

    /// The connection after its transport was released.
    pub open spec fn finish(self) -> Self {
        SessionModel { state: SessionState::Closed, ..self }
    }
}

impl<D: PartialEq> SessionModel<D> {
    /// What is decided for an event with discriminant `tag`.
    pub open spec fn decide(self, tag: D) -> Decision {
        if !(self.state is Active) {
            Decision::Close
        } else {
            match self.filter {
                None => Decision::Close,
                Some(wanted) => if admits(wanted, tag) {
                    Decision::Transmit
                } else {
                    Decision::Skip
                },
            }
        }
    }
}

/// One connection: its filter, its state and its count of failed
/// transmissions.
pub struct Session<D> {
    filter: Option<FilterSet<D>>,
    state: SessionState,
    failures: u32,
}

impl<D> View for Session<D> {
    type V = SessionModel<D>;

    closed spec fn view(&self) -> SessionModel<D> {
        SessionModel {
            filter: match self.filter {
                Some(wanted) => Some(wanted@),
                None => None,
            },
            state: self.state,
            failures: self.failures as nat,
        }
    }
}

impl<D> Session<D> {
    #[verifier::type_invariant]
    spec fn counted(self) -> bool {
        self@.wf()
    }

    /// Starts a connection from what its tag list parsed to. It is active even
    /// where the list did not parse: such a connection closes on the first
    /// event.
    pub fn open(parsed: Result<FilterSet<D>, String>) -> (s: Self)
        ensures
            s@ == SessionModel::<D>::opened(
                match parsed {
                    Ok(wanted) => Some(wanted@),
                    Err(_) => None,
                },
            ),
    {
        let filter = match parsed {
            Ok(wanted) => Some(wanted),
            Err(_) => None,
        };
        Session { filter, state: SessionState::Active, failures: 0 }
    }

    /// Where the connection is in its life.
    pub fn state(&self) -> (state: SessionState)
        ensures
            state == self@.state,
    {
        self.state
    }

    /// Whether the connection is still sent events.
    pub fn is_active(&self) -> (r: bool)
        ensures
            r == (self@.state is Active),
    {
        match self.state {
            SessionState::Active => true,
            _ => false,
        }
    }

    /// How many transmissions have failed since the last one that succeeded.
    pub fn failures(&self) -> (n: u32)
        ensures
            n == self@.failures,
            n <= MAX_CONSECUTIVE_FAILURES,
    {
        proof {
            use_type_invariant(self);
        }
        self.failures
    }

    /// Records how the transmission of an admitted event went, and says
    /// whether the connection stays open.
    pub fn on_sent(&mut self, delivered: bool) -> (open: bool)
        ensures
            final(self)@ == old(self)@.on_sent(delivered),
            final(self)@.wf(),
            open == (final(self)@.state is Active),
    {
        proof {
            use_type_invariant(&*self);
        }
        match self.state {
            SessionState::Active => {
                if delivered {
                    self.failures = 0;
                } else {
                    let failures: u32 = self.failures + 1;
                    if failures >= MAX_CONSECUTIVE_FAILURES {
                        self.state = SessionState::Closing;
                    }
                    self.failures = failures;
                }
            },
            _ => {},
        }
        self.is_active()
    }

    /// Records that the hub will hand over nothing more: the connection
    /// starts closing. A connection that lagged is not caught up: to it the
    /// signal is as final as the loss of the publisher.
    pub fn on_hub_lost(&mut self, signal: HubSignal)
        ensures
            final(self)@ == old(self)@.on_hub_lost(),
            final(self)@.wf(),
    {
        proof {
            use_type_invariant(&*self);
        }
        match signal {
            HubSignal::PublisherGone | HubSignal::Lagged => {
                if self.is_active() {
                    self.state = SessionState::Closing;
                }
            },
        }
    }

    /// Records that the transport was released: the connection is closed for
    /// good.
    pub fn finish(&mut self)
        ensures
            final(self)@ == old(self)@.finish(),
            final(self)@.wf(),
    {
        proof {
            use_type_invariant(&*self);
        }
        self.state = SessionState::Closed;
    }
}

impl<D: PartialEq> Session<D> {
    /// Decides what to do with an event that the hub handed over, from its
    /// discriminant.
    pub fn on_event(&mut self, tag: &D) -> (r: Decision)
        ensures
            final(self)@ == old(self)@.on_event(),
            final(self)@.wf(),
            D::obeys_eq_spec() ==> r == old(self)@.decide(*tag),
            !(old(self)@.state is Active) || old(self)@.filter is None ==> r == Decision::Close,
            old(self)@.state is Active && old(self)@.filter == Some(Seq::<D>::empty()) ==> r
                == Decision::Transmit,
            old(self)@.state is Active && old(self)@.filter is Some ==> r != Decision::Close,
    {
        proof {
            use_type_invariant(&*self);
        }
        if !self.is_active() {
            return Decision::Close;
        }
        match &self.filter {
            None => {
                self.state = SessionState::Closing;
                Decision::Close
            },
            Some(wanted) => {
                if wanted.admits(tag) {
                    Decision::Transmit
                } else {
                    Decision::Skip
                }
            },
        }
    }
}

} // verus!
