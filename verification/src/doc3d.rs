//! A minimal reactive document: entities with parent links and named
//! property expressions, plus a registry of named resources.
//!
//! Properties and resources behave as maps from key to value; both are
//! specified through the lookup function [`plookup`], under which setting a
//! key overwrites any earlier binding and leaves every other key untouched.

use vstd::prelude::*;
use crate::curve::TrackSet;
use crate::pon::Pon;

verus! {

/// The host's fixed-layout vertex buffer: eight values per vertex
/// (position x y z, texcoord u v, normal x y z) and three indices per
/// triangulated face.
#[derive(PartialEq, Debug)]
pub struct VertexBuffer {
    pub vertex_data: Vec<i64>,
    pub element_data: Vec<u32>,
}

/// A registered resource.
#[derive(Debug)]
pub enum Resource {
    Mesh(VertexBuffer),
    Animation(TrackSet),
}

/// One entity of the document.
#[derive(Debug)]
pub struct Entity {
    pub parent: Option<usize>,
    pub kind: String,
    pub name: Option<String>,
    pub props: Vec<(String, Pon)>,
}

/// The document: entities identified by their index, and resources.
#[derive(Debug)]
pub struct Document {
    pub entities: Vec<Entity>,
    pub resources: Vec<(String, Resource)>,
}

/// The binding of `key` among `entries`: the most recently written one.
pub open spec fn plookup<T>(entries: Seq<(String, T)>, key: Seq<char>) -> Option<T>
    decreases entries.len(),
{
    if entries.len() == 0 {
        None
    } else if entries[0].0@ == key {
        Some(entries[0].1)
    } else {
        plookup(entries.drop_first(), key)
    }
}

/// Whether an entity carries the name `name`.
pub open spec fn name_matches(e: Entity, name: Seq<char>) -> bool {
    match e.name {
        Some(n) => n@ == name,
        None => false,
    }
}

/// The first entity (in creation order) named `name`.
pub open spec fn first_named(ents: Seq<Entity>, name: Seq<char>) -> Option<int>
    decreases ents.len(),
{
    if ents.len() == 0 {
        None
    } else if name_matches(ents[0], name) {
        Some(0)
    } else {
        match first_named(ents.drop_first(), name) {
            Some(i) => Some(i + 1),
            None => None,
        }
    }
}

proof fn lemma_first_named_found(ents: Seq<Entity>, name: Seq<char>, i: int)
    requires
        0 <= i < ents.len(),
        name_matches(ents[i], name),
        forall|j: int| 0 <= j < i ==> !name_matches(ents[j], name),
    ensures
        (match first_named(ents, name) {
            Some(k) => 0 <= k <= i && name_matches(ents[k], name),
            None => false,
        }),
    decreases i,
{
    if i == 0 {
    } else {
        lemma_first_named_found(ents.drop_first(), name, i - 1);
    }
}

proof fn lemma_first_named_none(ents: Seq<Entity>, name: Seq<char>)
    requires
        forall|j: int| 0 <= j < ents.len() ==> !name_matches(ents[j], name),
    ensures
        first_named(ents, name) is None,
    decreases ents.len(),
{
    if ents.len() > 0 {
        lemma_first_named_none(ents.drop_first(), name);
    }
}

impl Document {
    pub fn new() -> (d: Document)
        ensures
            d.entities@.len() == 0,
            d.resources@.len() == 0,
    {
        Document { entities: Vec::new(), resources: Vec::new() }
    }

    /// Creates an entity and returns its id, its index in creation order.
    pub fn append_entity(
        &mut self,
        parent: Option<usize>,
        kind: &str,
        name: Option<String>,
    ) -> (id: usize)
        requires
            (match parent {
                Some(p) => p < old(self).entities@.len(),
                None => true,
            }),
        ensures
            id == old(self).entities@.len(),
            final(self).entities@.len() == old(self).entities@.len() + 1,
            forall|i: int|
                0 <= i < old(self).entities@.len() ==> final(self).entities@[i] == old(
                    self,
                ).entities@[i],
            final(self).entities@[id as int].parent == parent,
            final(self).entities@[id as int].kind@ == kind@,
            final(self).entities@[id as int].name == name,
            final(self).entities@[id as int].props@.len() == 0,
            final(self).resources == old(self).resources,
    {
        let id = self.entities.len();
        self.entities.push(
            Entity { parent, kind: String::from_str(kind), name, props: Vec::new() },
        );
        id
    }

    /// Writes `value` under `key` on entity `id`, overwriting any earlier
    /// binding of that key and nothing else.
    pub fn set_property(&mut self, id: usize, key: &str, value: Pon)
        requires
            id < old(self).entities@.len(),
        ensures
            final(self).entities@.len() == old(self).entities@.len(),
            forall|i: int|
                0 <= i < old(self).entities@.len() && i != id ==> final(self).entities@[i] == old(
                    self,
                ).entities@[i],
            final(self).entities@[id as int].parent == old(self).entities@[id as int].parent,
            final(self).entities@[id as int].kind == old(self).entities@[id as int].kind,
            final(self).entities@[id as int].name == old(self).entities@[id as int].name,
            final(self).entities@[id as int].props@.len() == old(self).entities@[id as int].props@.len() + 1,
            final(self).entities@[id as int].props@[0].0@ == key@,
            final(self).entities@[id as int].props@[0].1 == value,
            final(self).entities@[id as int].props@.drop_first() == old(self).entities@[id as int].props@,
            plookup(final(self).entities@[id as int].props@, key@) == Some(value),
            forall|k2: Seq<char>|
                k2 != key@ ==> plookup(final(self).entities@[id as int].props@, k2) == plookup(
                    old(self).entities@[id as int].props@,
                    k2,
                ),
            final(self).resources == old(self).resources,
    {
        let mut e = self.entities.remove(id);
        e.props.insert(0, (String::from_str(key), value));
        proof {
            assert(e.props@.drop_first() =~= old(self).entities@[id as int].props@);
        }
        self.entities.insert(id, e);
        proof {
            assert(final(self).entities@ =~= old(self).entities@.update(
                id as int,
                final(self).entities@[id as int],
            ));
        }
    }

    /// Reads the binding of `key` on entity `id`.
    pub fn get_property(&self, id: usize, key: &str) -> (r: Option<&Pon>)
        requires
            id < self.entities@.len(),
        ensures
            (match r {
                Some(p) => plookup(self.entities@[id as int].props@, key@) == Some(*p),
                None => plookup(self.entities@[id as int].props@, key@) is None,
            }),
    {
        let target = String::from_str(key);
        let props = &self.entities[id].props;
        let mut i: usize = 0;
        while i < props.len()
            invariant
                i <= props@.len(),
                target@ == key@,
                props == &self.entities[id as int].props,
                forall|j: int| 0 <= j < i ==> (#[trigger] props@[j]).0@ != key@,
            decreases props@.len() - i,
        {
            if props[i].0.eq(&target) {
                proof {
                    lemma_plookup_found(props@, key@, i as int);
                }
                return Some(&props[i].1);
            }
            i = i + 1;
        }
        proof {
            lemma_plookup_none(props@, key@);
        }
        None
    }

    /// Whether entity `id` carries a binding of `key`.
    pub fn has_property(&self, id: usize, key: &str) -> (r: bool)
        requires
            id < self.entities@.len(),
        ensures
            r == (plookup(self.entities@[id as int].props@, key@) is Some),
    {
        (match self.get_property(id, key) {
            Some(_) => true,
            None => false,
        })
    }

    /// Registers `value` under `key`, overwriting any earlier binding of
    /// that key and nothing else.
    pub fn register_resource(&mut self, key: String, value: Resource)
        ensures
            final(self).entities == old(self).entities,
            final(self).resources@.len() == old(self).resources@.len() + 1,
            final(self).resources@[0].0 == key,
            final(self).resources@[0].1 == value,
            final(self).resources@.drop_first() == old(self).resources@,
            plookup(final(self).resources@, key@) == Some(value),
            forall|k2: Seq<char>|
                k2 != key@ ==> plookup(final(self).resources@, k2) == plookup(
                    old(self).resources@,
                    k2,
                ),
    {
        self.resources.insert(0, (key, value));
        proof {
            assert(final(self).resources@.drop_first() =~= old(self).resources@);
        }
    }

    /// Looks a resource up by key.
    pub fn get_resource(&self, key: &str) -> (r: Option<&Resource>)
        ensures
            (match r {
                Some(v) => plookup(self.resources@, key@) == Some(*v),
                None => plookup(self.resources@, key@) is None,
            }),
    {
        let target = String::from_str(key);
        let mut i: usize = 0;
        while i < self.resources.len()
            invariant
                i <= self.resources@.len(),
                target@ == key@,
                forall|j: int| 0 <= j < i ==> (#[trigger] self.resources@[j]).0@ != key@,
            decreases self.resources@.len() - i,
        {
            if self.resources[i].0.eq(&target) {
                proof {
                    lemma_plookup_found(self.resources@, key@, i as int);
                }
                return Some(&self.resources[i].1);
            }
            i = i + 1;
        }
        proof {
            lemma_plookup_none(self.resources@, key@);
        }
        None
    }

    /// The first entity (in creation order) named `name`.
    pub fn get_entity_by_name(&self, name: &str) -> (r: Option<usize>)
        ensures
            (match r {
                Some(id) => first_named(self.entities@, name@) == Some(id as int),
                None => first_named(self.entities@, name@) is None,
            }),
    {
        let target = String::from_str(name);
        let mut i: usize = 0;
        while i < self.entities.len()
            invariant
                i <= self.entities@.len(),
                target@ == name@,
                forall|j: int| 0 <= j < i ==> !name_matches(#[trigger] self.entities@[j], name@),
            decreases self.entities@.len() - i,
        {
            let matched = match &self.entities[i].name {
                Some(n) => n.eq(&target),
                None => false,
            };
            if matched {
                proof {
                    lemma_first_named_found(self.entities@, name@, i as int);
                    lemma_first_named_unique(self.entities@, name@, i as int);
                }
                return Some(i);
            }
            i = i + 1;
        }
        proof {
            lemma_first_named_none(self.entities@, name@);
        }
        None
    }
}

proof fn lemma_first_named_unique(ents: Seq<Entity>, name: Seq<char>, i: int)
    requires
        0 <= i < ents.len(),
        name_matches(ents[i], name),
        forall|j: int| 0 <= j < i ==> !name_matches(ents[j], name),
    ensures
        first_named(ents, name) == Some(i),
    decreases i,
{
    if i == 0 {
    } else {
        lemma_first_named_unique(ents.drop_first(), name, i - 1);
    }
}

proof fn lemma_plookup_found<T>(entries: Seq<(String, T)>, key: Seq<char>, i: int)
    requires
        0 <= i < entries.len(),
        entries[i].0@ == key,
        forall|j: int| 0 <= j < i ==> (#[trigger] entries[j]).0@ != key,
    ensures
        plookup(entries, key) == Some(entries[i].1),
    decreases i,
{
    if i == 0 {
    } else {
        lemma_plookup_found(entries.drop_first(), key, i - 1);
    }
}

proof fn lemma_plookup_none<T>(entries: Seq<(String, T)>, key: Seq<char>)
    requires
        forall|j: int| 0 <= j < entries.len() ==> (#[trigger] entries[j]).0@ != key,
    ensures
        plookup(entries, key) is None,
    decreases entries.len(),
{
    if entries.len() > 0 {
        lemma_plookup_none(entries.drop_first(), key);
    }
}

} // verus!
