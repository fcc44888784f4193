use vstd::prelude::*;

use crate::actor_type::{ActorType, ActorTypeId, ActorTypeModel};

verus! {

/// The catalog of actor types, keyed by name. Each name occurs once.
#[derive(Debug)]
pub struct ActorTypes(Vec<(ActorTypeId, ActorType)>);

/// The names of a list of catalog entries are pairwise distinct.
pub open spec fn unique_names(s: Seq<(Seq<char>, ActorTypeModel)>) -> bool {
    forall|i: int, j: int| 0 <= i < j < s.len() ==> s[i].0 != s[j].0
}

/// The map from names to types that a list of entries describes.
pub open spec fn catalog_map(s: Seq<(Seq<char>, ActorTypeModel)>) -> Map<Seq<char>, ActorTypeModel>
    decreases s.len(),
{
    if s.len() == 0 {
        Map::empty()
    } else {
        catalog_map(s.drop_last()).insert(s.last().0, s.last().1)
    }
}

proof fn lemma_catalog_entry(s: Seq<(Seq<char>, ActorTypeModel)>, i: int)
    requires
        unique_names(s),
        0 <= i < s.len(),
    ensures
        catalog_map(s).contains_key(s[i].0),
        catalog_map(s)[s[i].0] == s[i].1,
    decreases s.len(),
{
    if i < s.len() - 1 {
        lemma_catalog_entry(s.drop_last(), i);
    }
}

proof fn lemma_catalog_absent(s: Seq<(Seq<char>, ActorTypeModel)>, k: Seq<char>)
    requires
        forall|i: int| 0 <= i < s.len() ==> s[i].0 != k,
    ensures
        !catalog_map(s).contains_key(k),
    decreases s.len(),
{
    if s.len() > 0 {
        lemma_catalog_absent(s.drop_last(), k);
    }
}

impl ActorTypes {
    /// The entries, by name and meaning, in the order in which they were added.
    pub closed spec fn entries(&self) -> Seq<(Seq<char>, ActorTypeModel)> {
        self.0@.map_values(|e: (ActorTypeId, ActorType)| (e.0@, e.1@))
    }

    pub open spec fn view(&self) -> Map<Seq<char>, ActorTypeModel> {
        catalog_map(self.entries())
    }

    pub open spec fn wf(&self) -> bool {
        unique_names(self.entries())
    }

    pub fn new() -> (r: ActorTypes)
        ensures
            r.wf(),
            r@ == Map::<Seq<char>, ActorTypeModel>::empty(),
            r.entries().len() == 0,
    {
        let r = ActorTypes(Vec::new());
        assert(r.entries() =~= Seq::empty());
        r
    }

    /// Adds a type under a name that the catalog does not hold yet; returns
    /// whether it was added.
    pub fn insert(&mut self, actor_type_id: ActorTypeId, actor_type: ActorType) -> (r: bool)
        requires
            old(self).wf(),
        ensures
            final(self).wf(),
            r == !old(self)@.contains_key(actor_type_id@),
            r ==> final(self)@ == old(self)@.insert(actor_type_id@, actor_type@),
            r ==> final(self).entries() == old(self).entries().push((actor_type_id@, actor_type@)),
            !r ==> *final(self) == *old(self),
    {
        let found = self.position(&actor_type_id);
        if found.is_some() {
            return false;
        }
        proof {
            assert forall|j: int| 0 <= j < old(self).entries().len() implies old(self).entries()[j].0
                != actor_type_id@ by {
                lemma_catalog_entry(old(self).entries(), j);
            }
        }
        self.0.push((actor_type_id, actor_type));
        assert(self.entries() =~= old(self).entries().push((actor_type_id@, actor_type@)));
        assert(self.entries().drop_last() == old(self).entries());
        true
    }

    fn position(&self, actor_type_id: &ActorTypeId) -> (r: Option<usize>)
        requires
            self.wf(),
        ensures
            r is Some <==> self@.contains_key(actor_type_id@),
            r is Some ==> r->0 < self.entries().len() && self.entries()[r->0 as int].0
                == actor_type_id@,
    {
        let mut i: usize = 0;
        while i < self.0.len()
            invariant
                i <= self.0@.len(),
                unique_names(self.entries()),
                forall|j: int| 0 <= j < i ==> self.entries()[j].0 != actor_type_id@,
            decreases self.0@.len() - i,
        {
            if self.0[i].0 == *actor_type_id {
                proof {
                    lemma_catalog_entry(self.entries(), i as int);
                }
                return Some(i);
            }
            i += 1;
        }
        proof {
            lemma_catalog_absent(self.entries(), actor_type_id@);
        }
        None
    }

    pub fn get(&self, actor_type_id: &ActorTypeId) -> (r: Option<&ActorType>)
        requires
            self.wf(),
        ensures
            r is Some <==> self@.contains_key(actor_type_id@),
            r is Some ==> r->0@ == self@[actor_type_id@],
    {
        match self.position(actor_type_id) {
            Some(i) => {
                proof {
                    lemma_catalog_entry(self.entries(), i as int);
                }
                Some(&self.0[i].1)
            },
            None => None,
        }
    }

    /// The entries in the order in which they were added.
    pub fn iter(&self) -> (r: &[(ActorTypeId, ActorType)])
        ensures
            r@.map_values(|e: (ActorTypeId, ActorType)| (e.0@, e.1@)) == self.entries(),
    {
        self.0.as_slice()
    }
}

impl Clone for ActorTypes {
    fn clone(&self) -> (r: Self)
        ensures
            r.entries() == self.entries(),
    {
        let mut copy: Vec<(ActorTypeId, ActorType)> = Vec::new();
        let mut i: usize = 0;
        while i < self.0.len()
            invariant
                i <= self.0@.len(),
                copy@.len() == i,
                forall|j: int| 0 <= j < i ==> (#[trigger] copy@[j]).0@ == self.0@[j].0@ && copy@[j].1@
                    == self.0@[j].1@,
            decreases self.0@.len() - i,
        {
            copy.push((self.0[i].0.clone(), self.0[i].1.clone()));
            i += 1;
        }
        let r = ActorTypes(copy);
        assert(r.entries() =~= self.entries());
        r
    }
}

} // verus!
