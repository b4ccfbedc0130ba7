//! Records, errors and events of the template registry.

use vstd::prelude::*;

verus! {

/// How a split divides its total among participants.
#[derive(Clone, Copy, Debug, PartialEq, Eq, Structural)]
pub enum SplitType {
    /// Equally; the shares carry no number.
    Equal,
    /// By percentage: every share within 0..=100, summing to 100.
    Percentage,
    /// By fixed amounts: every share positive.
    Fixed,
}

/// A participant of a template and its share.
#[derive(Clone, Debug)]
pub struct Participant {
    pub address: String,
    /// Meaningless for Equal, a percentage for Percentage, an amount for Fixed.
    pub share: i128,
}

/// A reusable split configuration.
#[derive(Clone, Debug)]
pub struct Template {
    /// The template's identifier: its name.
    pub id: String,
    pub creator: String,
    pub name: String,
    pub split_type: SplitType,
    pub participants: Vec<Participant>,
}

/// Errors of the template registry.
#[derive(Clone, Copy, Debug, PartialEq, Eq, Structural)]
pub enum Error {
    /// No template has the given identifier.
    TemplateNotFound,
    /// The participant list is empty.
    InvalidParticipants,
    /// The shares break the rule of the split type.
    InvalidShares,
}

/// What the registry reports to observers.
#[derive(Clone, Debug)]
pub enum TemplateEvent {
    /// A template was stored.
    Created { template_id: String, creator: String, name: String },
    /// A template was applied to a split.
    Used { template_id: String, split_id: String },
}

/// Two templates that hold the same values.
pub open spec fn same_template(a: Template, b: Template) -> bool {
    &&& a.id == b.id
    &&& a.creator == b.creator
    &&& a.name == b.name
    &&& a.split_type == b.split_type
    &&& a.participants@ == b.participants@
}

/// The key under which a template is stored: its identifier.
pub open spec fn template_key() -> spec_fn(Template) -> Seq<char> {
    |t: Template| t.id@
}

/// A copy of a template.
pub fn copy_template(t: &Template) -> (r: Template)
    ensures
        same_template(r, *t),
{
    let mut participants: Vec<Participant> = Vec::new();
    let mut i: usize = 0;
    while i < t.participants.len()
        invariant
            i <= t.participants@.len(),
            participants@ == t.participants@.subrange(0, i as int),
        decreases t.participants@.len() - i,
    {
        let p = Participant {
            address: t.participants[i].address.clone(),
            share: t.participants[i].share,
        };
        participants.push(p);
        proof {
            assert(participants@ =~= t.participants@.subrange(0, i + 1));
        }
        i = i + 1;
    }
    proof {
        assert(t.participants@.subrange(0, t.participants@.len() as int) =~= t.participants@);
    }
    Template {
        id: t.id.clone(),
        creator: t.creator.clone(),
        name: t.name.clone(),
        split_type: t.split_type,
        participants,
    }
}

} // verus!
