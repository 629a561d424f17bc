use vstd::laws_eq::obeys_concrete_eq;
use vstd::prelude::*;

verus! {

/// The tags that the demo window publishes.
#[derive(Debug, Clone, Copy, Eq, Hash)]
pub enum Event {
    Test,
    Nothing,
}

impl PartialEq for Event {
    fn eq(&self, other: &Event) -> (r: bool) {
        match (self, other) {
            (Event::Test, Event::Test) => true,
            (Event::Nothing, Event::Nothing) => true,
            _ => false,
        }
    }
}

impl vstd::std_specs::cmp::PartialEqSpecImpl for Event {
    open spec fn obeys_eq_spec() -> bool {
        true
    }

    open spec fn eq_spec(&self, other: &Event) -> bool {
        *self == *other
    }
}

/// Two tags compare equal exactly when they are the same tag, so `Event`
/// can key a `Publisher`.
pub proof fn lemma_event_eq_is_identity()
    ensures
        obeys_concrete_eq::<Event>(),
{
    reveal(obeys_concrete_eq);
}

} // verus!
