//! The template registry: reusable participant and share configurations,
//! validated by split type, indexed by creator, and consulted to pre-populate
//! new splits.

use vstd::prelude::*;
use crate::template_store::{
    add_to_creator_index, get_creator_template_ids, get_template, ids_of, store_template,
    TemplateStore,
};
use crate::template_types::{
    copy_template, same_template, Error, Participant, SplitType, Template, TemplateEvent,
};

verus! {

/// Sum of the participants' shares.
pub open spec fn share_total(s: Seq<Participant>) -> int
    decreases s.len(),
{
    if s.len() == 0 {
        0
    } else {
        share_total(s.drop_last()) + s.last().share
    }
}

/// The share rule of each split type. Equal puts no constraint on the shares;
/// Percentage wants every share within 0..=100 and a sum of exactly 100; Fixed
/// wants every share positive.
pub open spec fn valid_shares(split_type: SplitType, s: Seq<Participant>) -> bool {
    match split_type {
        SplitType::Equal => true,
        SplitType::Percentage => (forall|i: int| 0 <= i < s.len() ==> 0 <= #[trigger] s[i].share <= 100)
            && share_total(s) == 100,
        SplitType::Fixed => forall|i: int| 0 <= i < s.len() ==> #[trigger] s[i].share > 0,
    }
}

/// The templates that a list of identifiers names, skipping identifiers that
/// name no stored template.
pub open spec fn found_templates(ids: Seq<String>, m: Map<Seq<char>, Template>) -> Seq<Template>
    decreases ids.len(),
{
    if ids.len() == 0 {
        Seq::empty()
    } else if m.contains_key(ids.last()@) {
        found_templates(ids.drop_last(), m).push(m[ids.last()@])
    } else {
        found_templates(ids.drop_last(), m)
    }
}

/// `t` is the template that `create_template` stores.
pub open spec fn is_new_template(
    t: Template,
    creator: String,
    name: String,
    split_type: SplitType,
    participants: Seq<Participant>,
) -> bool {
    &&& t.id == name
    &&& t.creator == creator
    &&& t.name == name
    &&& t.split_type == split_type
    &&& t.participants@ == participants
}

/// Report that a template was stored.
pub fn emit_template_created(
    events: &mut Vec<TemplateEvent>,
    template_id: String,
    creator: String,
    name: String,
)
    ensures
        final(events)@ == old(events)@.push(
            (TemplateEvent::Created { template_id, creator, name }),
        ),
{
    events.push(TemplateEvent::Created { template_id, creator, name });
}

/// Report that a template was applied to a split.
pub fn emit_template_used(events: &mut Vec<TemplateEvent>, template_id: String, split_id: String)
    ensures
        final(events)@ == old(events)@.push((TemplateEvent::Used { template_id, split_id })),
{
    events.push(TemplateEvent::Used { template_id, split_id });
}

/// The template registry and the state it owns.
pub struct SplitTemplateContract {
    store: TemplateStore,
    events: Vec<TemplateEvent>,
}

impl SplitTemplateContract {
    /// The templates, by identifier.
    pub closed spec fn templates(&self) -> Map<Seq<char>, Template> {
        self.store.records()
    }

    /// The creator index, one (creator, identifier) entry per stored template.
    pub closed spec fn index(&self) -> Seq<(String, String)> {
        self.store.index()
    }

    /// Everything reported so far, in order.
    pub closed spec fn events(&self) -> Seq<TemplateEvent> {
        self.events@
    }

    /// The registry's state is consistent.
    pub closed spec fn wf(&self) -> bool {
        self.store.wf()
    }

    /// A registry with no templates.
    pub fn new() -> (r: Self)
        ensures
            r.wf(),
            r.templates() == Map::<Seq<char>, Template>::empty(),
            r.index() == Seq::<(String, String)>::empty(),
            r.events() == Seq::<TemplateEvent>::empty(),
    {
        SplitTemplateContract { store: TemplateStore::new(), events: Vec::new() }
    }

    /// Store a template named `name`, under that name, after checking that it has
    /// participants and that their shares follow the split type's rule. A template
    /// already stored under the name is replaced.
    pub fn create_template(
        &mut self,
        creator: String,
        name: String,
        split_type: SplitType,
        participants: Vec<Participant>,
    ) -> (r: Result<String, Error>)
        requires
            old(self).wf(),
        ensures
            final(self).wf(),
            participants@.len() == 0 ==> r == Err::<String, Error>(Error::InvalidParticipants),
            participants@.len() > 0 && !valid_shares(split_type, participants@) ==> r == Err::<
                String,
                Error,
            >(Error::InvalidShares),
            r is Ok <==> participants@.len() > 0 && valid_shares(split_type, participants@),
            r is Err ==> final(self).templates() == old(self).templates() && final(self).index()
                == old(self).index() && final(self).events() == old(self).events(),
            r matches Ok(id) ==> id == name && final(self).templates().contains_key(id@)
                && final(self).templates() == old(self).templates().insert(
                id@,
                final(self).templates()[id@],
            ) && is_new_template(
                final(self).templates()[id@],
                creator,
                name,
                split_type,
                participants@,
            ) && final(self).index() == old(self).index().push((creator, id))
                && final(self).events() == old(self).events().push(
                (TemplateEvent::Created { template_id: id, creator, name }),
            ),
    {
        if participants.len() == 0 {
            return Err(Error::InvalidParticipants);
        }
        if Self::validate_shares(split_type, &participants).is_err() {
            return Err(Error::InvalidShares);
        }
        let template_id = Self::generate_template_id(&creator, &name);
        let template = Template {
            id: template_id.clone(),
            creator: creator.clone(),
            name: name.clone(),
            split_type,
            participants,
        };
        store_template(&mut self.store, template);
        add_to_creator_index(&mut self.store, &creator, template_id.clone());
        emit_template_created(&mut self.events, template_id.clone(), creator, name);
        Ok(template_id)
    }

    /// Apply a stored template to the split `split_id`, reporting the link.
    pub fn use_template(&mut self, template_id: String, split_id: String) -> (r: Result<(), Error>)
        requires
            old(self).wf(),
        ensures
            final(self).wf(),
            final(self).templates() == old(self).templates(),
            final(self).index() == old(self).index(),
            r is Ok <==> old(self).templates().contains_key(template_id@),
            r is Err ==> r == Err::<(), Error>(Error::TemplateNotFound) && final(self).events()
                == old(self).events(),
            r is Ok ==> final(self).events() == old(self).events().push(
                (TemplateEvent::Used { template_id, split_id }),
            ),
    {
        if get_template(&self.store, &template_id).is_none() {
            return Err(Error::TemplateNotFound);
        }
        emit_template_used(&mut self.events, template_id, split_id);
        Ok(())
    }

    /// The templates that `creator` stored, in the order they were stored; an
    /// identifier whose template was since replaced yields the replacement.
    pub fn get_templates(&self, creator: String) -> (r: Vec<Template>)
        requires
            self.wf(),
        ensures
            r@.len() == found_templates(ids_of(self.index(), creator@), self.templates()).len(),
            forall|i: int|
                0 <= i < r@.len() ==> same_template(
                    #[trigger] r@[i],
                    found_templates(ids_of(self.index(), creator@), self.templates())[i],
                ),
    {
        let ids = get_creator_template_ids(&self.store, &creator);
        let mut out: Vec<Template> = Vec::new();
        let mut i: usize = 0;
        while i < ids.len()
            invariant
                self.wf(),
                i <= ids@.len(),
                out@.len() == found_templates(ids@.subrange(0, i as int), self.templates()).len(),
                forall|j: int|
                    0 <= j < out@.len() ==> same_template(
                        #[trigger] out@[j],
                        found_templates(ids@.subrange(0, i as int), self.templates())[j],
                    ),
            decreases ids@.len() - i,
        {
            proof {
                assert(ids@.subrange(0, i + 1).drop_last() == ids@.subrange(0, i as int));
            }
            match get_template(&self.store, &ids[i]) {
                Some(t) => {
                    out.push(copy_template(t));
                },
                None => {},
            }
            i = i + 1;
        }
        proof {
            assert(ids@.subrange(0, ids@.len() as int) == ids@);
        }
        out
    }

    /// A copy of the template stored under `template_id`.
    pub fn get_template(&self, template_id: String) -> (r: Result<Template, Error>)
        requires
            self.wf(),
        ensures
            r is Ok <==> self.templates().contains_key(template_id@),
            r matches Ok(t) ==> same_template(t, self.templates()[template_id@]),
            r is Err ==> r == Err::<Template, Error>(Error::TemplateNotFound),
    {
        match get_template(&self.store, &template_id) {
            Some(t) => Ok(copy_template(t)),
            None => Err(Error::TemplateNotFound),
        }
    }

    /// Everything reported so far, in order.
    pub fn get_events(&self) -> (r: &Vec<TemplateEvent>)
        ensures
            r@ == self.events(),
    {
        &self.events
    }

    /// A template's identifier: its name, which the creator keeps unique.
    pub fn generate_template_id(_creator: &String, name: &String) -> (r: String)
        ensures
            r == *name,
    {
        name.clone()
    }

    /// Check the participants' shares against the rule of the split type.
    pub fn validate_shares(split_type: SplitType, participants: &Vec<Participant>) -> (r: Result<
        (),
        Error,
    >)
        ensures
            r is Ok <==> valid_shares(split_type, participants@),
            r is Err ==> r == Err::<(), Error>(Error::InvalidShares),
    {
        match split_type {
            SplitType::Equal => Ok(()),
            SplitType::Percentage => {
                let mut total: i128 = 0;
                let mut i: usize = 0;
                while i < participants.len()
                    invariant
                        split_type == SplitType::Percentage,
                        i <= participants@.len(),
                        total == share_total(participants@.subrange(0, i as int)),
                        0 <= total <= 100 * i,
                        forall|j: int| 0 <= j < i ==> 0 <= #[trigger] participants@[j].share <= 100,
                    decreases participants@.len() - i,
                {
                    proof {
                        assert(participants@.subrange(0, i + 1).drop_last() == participants@.subrange(
                            0,
                            i as int,
                        ));
                    }
                    let share = participants[i].share;
                    if share < 0 || share > 100 {
                        proof {
                            assert(participants@[i as int].share == share);
                        }
                        return Err(Error::InvalidShares);
                    }
                    total = total + share;
                    i = i + 1;
                }
                proof {
                    assert(participants@.subrange(0, participants@.len() as int) == participants@);
                }
                if total != 100 {
                    return Err(Error::InvalidShares);
                }
                Ok(())
            },
            SplitType::Fixed => {
                let mut i: usize = 0;
                while i < participants.len()
                    invariant
                        split_type == SplitType::Fixed,
                        i <= participants@.len(),
                        forall|j: int| 0 <= j < i ==> #[trigger] participants@[j].share > 0,
                    decreases participants@.len() - i,
                {
                    if participants[i].share <= 0 {
                        proof {
                            assert(participants@[i as int].share <= 0);
                        }
                        return Err(Error::InvalidShares);
                    }
                    i = i + 1;
                }
                Ok(())
            },
        }
    }
}

} // verus!
