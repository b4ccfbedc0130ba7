//! The template registry's state: templates keyed by identifier, and an index
//! of which creator stored which identifiers, in order.

use vstd::prelude::*;
use crate::keyed::{
    lemma_table_get, lemma_table_has, lemma_table_push, lemma_table_update, table_map,
    unique_keys,
};
use crate::template_types::{template_key, Template};

verus! {

/// The identifiers that the index lists for `creator`, in order.
pub open spec fn ids_of(index: Seq<(String, String)>, creator: Seq<char>) -> Seq<String>
    decreases index.len(),
{
    if index.len() == 0 {
        Seq::empty()
    } else if index.last().0@ == creator {
        ids_of(index.drop_last(), creator).push(index.last().1)
    } else {
        ids_of(index.drop_last(), creator)
    }
}

/// The state that the template registry keeps.
pub struct TemplateStore {
    templates: Vec<Template>,
    index: Vec<(String, String)>,
}

impl TemplateStore {
    /// The templates, by identifier.
    pub closed spec fn records(&self) -> Map<Seq<char>, Template> {
        table_map(self.templates@, template_key())
    }

    /// The creator index: one (creator, identifier) entry per stored template, in
    /// the order they were stored.
    pub closed spec fn index(&self) -> Seq<(String, String)> {
        self.index@
    }

    /// Each identifier is stored once.
    pub closed spec fn wf(&self) -> bool {
        unique_keys(self.templates@, template_key())
    }

    /// A store with no templates and an empty index.
    pub fn new() -> (r: Self)
        ensures
            r.wf(),
            r.records() == Map::<Seq<char>, Template>::empty(),
            r.index() == Seq::<(String, String)>::empty(),
    {
        TemplateStore { templates: Vec::new(), index: Vec::new() }
    }

    fn find(&self, template_id: &String) -> (r: Option<usize>)
        ensures
            r matches Some(i) ==> i < self.templates@.len() && self.templates@[i as int].id@
                == template_id@,
            r is None ==> forall|j: int|
                0 <= j < self.templates@.len() ==> self.templates@[j].id@ != template_id@,
    {
        let mut i: usize = 0;
        while i < self.templates.len()
            invariant
                i <= self.templates@.len(),
                forall|j: int| 0 <= j < i ==> self.templates@[j].id@ != template_id@,
            decreases self.templates@.len() - i,
        {
            if self.templates[i].id == *template_id {
                return Some(i);
            }
            i = i + 1;
        }
        None
    }
}

/// Store a template under its identifier, replacing any template stored there.
pub fn store_template(store: &mut TemplateStore, template: Template)
    requires
        old(store).wf(),
    ensures
        final(store).wf(),
        final(store).records() == old(store).records().insert(template.id@, template),
        final(store).index() == old(store).index(),
{
    let ghost key = template.id@;
    match store.find(&template.id) {
        Some(i) => {
            proof {
                lemma_table_update(store.templates@, template_key(), i as int, template);
            }
            store.templates.set(i, template);
        },
        None => {
            proof {
                lemma_table_has(store.templates@, template_key(), key);
                lemma_table_push(store.templates@, template_key(), template);
            }
            store.templates.push(template);
        },
    }
}

/// The template stored under `template_id`, if any.
pub fn get_template<'a>(store: &'a TemplateStore, template_id: &String) -> (r: Option<&'a Template>)
    requires
        store.wf(),
    ensures
        r is Some <==> store.records().contains_key(template_id@),
        r matches Some(t) ==> *t == store.records()[template_id@] && t.id@ == template_id@,
{
    match store.find(template_id) {
        Some(i) => {
            proof {
                lemma_table_get(store.templates@, template_key(), i as int);
            }
            Some(&store.templates[i])
        },
        None => {
            proof {
                lemma_table_has(store.templates@, template_key(), template_id@);
            }
            None
        },
    }
}

/// Record that `creator` stored the template `template_id`.
pub fn add_to_creator_index(store: &mut TemplateStore, creator: &String, template_id: String)
    requires
        old(store).wf(),
    ensures
        final(store).wf(),
        final(store).records() == old(store).records(),
        final(store).index() == old(store).index().push((*creator, template_id)),
        ids_of(final(store).index(), creator@) == ids_of(old(store).index(), creator@).push(
            template_id,
        ),
        forall|c: Seq<char>|
            c != creator@ ==> ids_of(final(store).index(), c) == ids_of(old(store).index(), c),
{
    store.index.push((creator.clone(), template_id));
    proof {
        assert(store.index@.drop_last() == old(store).index@);
    }
}

/// The identifiers of the templates that `creator` stored, in order.
pub fn get_creator_template_ids(store: &TemplateStore, creator: &String) -> (r: Vec<String>)
    ensures
        r@ == ids_of(store.index(), creator@),
{
    let mut out: Vec<String> = Vec::new();
    let mut i: usize = 0;
    while i < store.index.len()
        invariant
            i <= store.index@.len(),
            out@ == ids_of(store.index@.subrange(0, i as int), creator@),
        decreases store.index@.len() - i,
    {
        proof {
            assert(store.index@.subrange(0, i + 1).drop_last() == store.index@.subrange(0, i as int));
        }
        if store.index[i].0 == *creator {
            out.push(store.index[i].1.clone());
        }
        i = i + 1;
    }
    proof {
        assert(store.index@.subrange(0, store.index@.len() as int) == store.index@);
    }
    out
}

} // verus!
