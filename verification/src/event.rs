//! What an event has to offer to be fanned out, and the handling of one event
//! for one connection, up to the frame that goes on the wire.

use crate::session::{Decision, Session, SessionModel};
use vstd::prelude::*;
use vstd::std_specs::cmp::PartialEqSpec;
use vstd::std_specs::convert::FromSpec;
use warp::ws::Message;

verus! {

/// An event that can be published to connections.
///
/// It can be copied, and it has a `Discriminant`: a value that says of which
/// kind the event is, by which connections choose what they receive. Many
/// events may share one discriminant.
///
/// How an event is put into text, and how a tag name is read as a
/// discriminant, are handed to the functions that need them: see [`deliver`]
/// and [`crate::filter::FilterSet::parse`].
pub trait SerializableWithDiscriminant: Send + Clone {
    type Discriminant: Send + From<Self> + Eq;
}

/// The discriminant of `event`: what converting it gives.
pub open spec fn discriminant_of<T: SerializableWithDiscriminant>(event: T) -> T::Discriminant {
    <T::Discriminant as FromSpec<T>>::from_spec(event)
}

/// `tag` is what converting some copy of `event` may give.
pub open spec fn may_tag<T: SerializableWithDiscriminant>(event: T, tag: T::Discriminant) -> bool {
    exists|copy: T| #[trigger] cloned(event, copy) && call_ensures(T::Discriminant::from, (copy,), tag)
}

/// The event type keeps to what this crate reads from it: the conversion to
/// the discriminant and the discriminant's `==` do what `from_spec` and
/// `eq_spec` say of them, and a copy of an event has the discriminant of the
/// event.
pub open spec fn faithful<T: SerializableWithDiscriminant>() -> bool {
    &&& <T::Discriminant as FromSpec<T>>::obeys_from_spec()
    &&& <T::Discriminant as PartialEqSpec>::obeys_eq_spec()
    &&& forall|event: T, copy: T| #[trigger] cloned(event, copy) ==> discriminant_of(copy) == discriminant_of(event)
}

/// warp's websocket message, carried through as it is.
#[verifier::external_type_specification]
#[verifier::external_body]
pub struct ExMessage(Message);

/// The text frame that carries `payload`: what warp's `Message::text` makes of
/// it.
pub uninterp spec fn text_message(payload: Seq<char>) -> Message;

/// Calls warp's `Message::text`, which builds a text frame around the string
/// it is given. The frame depends on the string alone.
#[verifier::external_body]
fn text_frame(payload: String) -> (frame: Message)
    ensures
        frame == text_message(payload@),
{
    Message::text(payload)
}

/// What is to be done for a connection after it was handed an event.
pub enum Outgoing {
    /// Nothing: the connection did not ask for the event.
    Nothing,
    /// Send this frame, then report how it went.
    Frame(Message),
    /// Stop reading from the hub and close the connection.
    Close,
}

/// The discriminant of an event, taken from a copy of it.
pub fn discriminant<T: SerializableWithDiscriminant>(event: &T) -> (tag: T::Discriminant)
    ensures
        may_tag(*event, tag),
        faithful::<T>() ==> tag == discriminant_of(*event),
{
    let copy = event.clone();
    let tag = T::Discriminant::from(copy);
    proof {
        assert(cloned(*event, copy));
    }
    tag
}

/// What `deliver` hands back where the connection decides `decision` and
/// `encode` is there to turn the event into text.
pub open spec fn handed_back<T, E, F: FnOnce(&T) -> Result<String, E>>(
    decision: Decision,
    event: T,
    encode: F,
    r: Result<Outgoing, E>,
) -> bool {
    match decision {
        Decision::Skip => r == Ok::<Outgoing, E>(Outgoing::Nothing),
        Decision::Close => r == Ok::<Outgoing, E>(Outgoing::Close),
        Decision::Transmit => match r {
            Ok(Outgoing::Frame(frame)) => exists|text: String|
                call_ensures(encode, (&event,), Ok::<String, E>(text)) && frame == text_message(text@),
            Ok(_) => false,
            Err(e) => call_ensures(encode, (&event,), Err::<String, E>(e)),
        },
    }
}

/// Handles one event that the hub handed to a connection: decides by the
/// event's discriminant whether the connection is sent it and, only where it
/// is, has `encode` turn the event into text and wraps the text in one text
/// frame. Where `encode` fails, its error is handed back and nothing is sent.
pub fn deliver<T, E, F>(session: &mut Session<T::Discriminant>, event: &T, encode: F) -> (r: Result<
    Outgoing,
    E,
>) where T: SerializableWithDiscriminant, F: FnOnce(&T) -> Result<String, E>
    requires
        call_requires(encode, (event,)),
    ensures
        final(session)@ == old(session)@.on_event(),
        final(session)@.wf(),
        faithful::<T>() ==> handed_back(old(session)@.decide(discriminant_of(*event)), *event, encode, r),
        exists|tag: T::Discriminant| #[trigger]
            may_tag(*event, tag) && (<T::Discriminant as PartialEqSpec>::obeys_eq_spec() ==> handed_back(
                old(session)@.decide(tag),
                *event,
                encode,
                r,
            )),
        !(old(session)@.state is Active) || old(session)@.filter is None ==> r == Ok::<Outgoing, E>(
            Outgoing::Close,
        ),
        old(session)@.state is Active && old(session)@.filter is Some ==> !(r matches Ok(Outgoing::Close)),
{
    let tag = discriminant(event);
    match session.on_event(&tag) {
        Decision::Skip => Ok(Outgoing::Nothing),
        Decision::Close => Ok(Outgoing::Close),
        Decision::Transmit => match encode(event) {
            Ok(text) => Ok(Outgoing::Frame(text_frame(text))),
            Err(e) => Err(e),
        },
    }
}

} // verus!
