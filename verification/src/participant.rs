//! The record kept for each member of the group.

use vstd::prelude::*;
use vstd::std_specs::cmp::PartialEqSpecImpl;
use vstd::string::StringExecFns;

verus! {

/// One member of the group.  The name is the identity; the other fields are
/// carried through to whoever needs to reach the participant and are never
/// interpreted.
#[derive(Clone, Debug)]
pub struct Participant {
    pub name: String,
    pub discord_handle: String,
    pub mailing_info: String,
    pub interests: String,
}

impl PartialEq for Participant {
    /// Two records are the same participant when the names agree.
    fn eq(&self, other: &Participant) -> (same: bool) {
        self.name == other.name
    }
}

impl Eq for Participant {

}

/// `String`'s `Hash::hash` of the standard library: feeds the text to the
/// hasher.  Nothing is claimed of what the hasher makes of it.
pub assume_specification<H: std::hash::Hasher>[ <String as std::hash::Hash>::hash ](
    text: &String,
    state: &mut H,
);

impl std::hash::Hash for Participant {
    /// Hashes the name alone, as equality looks at the name alone.
    fn hash<H: std::hash::Hasher>(&self, state: &mut H) {
        self.name.hash(state);
    }
}

impl PartialEqSpecImpl for Participant {
    open spec fn obeys_eq_spec() -> bool {
        true
    }

    open spec fn eq_spec(&self, other: &Participant) -> bool {
        self.name@ == other.name@
    }
}

/// No two of `participants` share a name.
pub open spec fn names_differ(participants: Seq<Participant>) -> bool {
    forall|p: int, q: int|
        0 <= p < q < participants.len() ==> (#[trigger] participants[p]).name@ != (
        #[trigger] participants[q]).name@
}

impl Participant {
    /// The text by which a participant is shown: the name, then the handle in brackets.
    pub open spec fn shown(&self) -> Seq<char> {
        self.name@ + " ("@ + self.discord_handle@ + ")"@
    }

    /// Renders the participant as `name (handle)`.
    pub fn to_string(&self) -> (text: String)
        ensures
            text@ == self.shown(),
    {
        let mut text = self.name.clone();
        text.append(" (");
        text.append(self.discord_handle.as_str());
        text.append(")");
        text
    }
}

} // verus!
