//! The entity layer: named concepts found in memories, one record per
//! normalised name and cube, and the mentions that link them to memories.

use vstd::prelude::*;
use crate::metadata::{meta_merge, MetaView, Metadata};
use crate::store::{lemma_listed_at, lemma_listed_push, lemma_listed_update, listed, names_distinct};
use crate::text::{normalize_name, normalized};

verus! {

/// Why an entity operation was refused.
#[derive(Debug, Clone, Copy, PartialEq, Eq, Hash, Structural)]
pub enum EntityKgError {
    /// The cube or the entity does not exist.
    NotFound,
    /// The name is empty once normalised.
    InvalidArgument,
    /// The layer has run out of ids.
    Internal,
}

/// What an entity is, as a mathematical value.
pub struct EntityView {
    pub id: u64,
    pub name: Seq<char>,
    pub attributes: MetaView,
}

/// A named concept. The name is kept in normal form.
#[derive(Debug, Clone)]
pub struct Entity {
    pub id: u64,
    pub name: String,
    pub attributes: Metadata,
}

impl View for Entity {
    type V = EntityView;

    open spec fn view(&self) -> EntityView {
        EntityView { id: self.id, name: self.name@, attributes: self.attributes@ }
    }
}

impl Entity {
    /// A copy of this entity.
    pub fn duplicate(&self) -> (r: Entity)
        ensures
            r@ == self@,
    {
        Entity { id: self.id, name: self.name.clone(), attributes: self.attributes.duplicate() }
    }
}

/// A link from an entity to a memory that mentions it.
#[derive(Debug, Clone, Copy, PartialEq, Eq, Hash, Structural)]
pub struct Mention {
    pub entity_id: u64,
    pub memory_id: u64,
}

/// A point-in-time copy of the entities and mentions of one cube.
#[derive(Debug, Clone)]
pub struct EntityKgSnapshot {
    pub entities: Vec<Entity>,
    pub mentions: Vec<Mention>,
}

/// How many entities and mentions a cube holds.
#[derive(Debug, Clone, Copy, PartialEq, Eq, Hash, Structural)]
pub struct EntityKgStats {
    pub entity_count: usize,
    pub mention_count: usize,
}

/// The entities and mentions of one cube, each in creation order.
pub struct KgView {
    pub entities: Seq<EntityView>,
    pub mentions: Seq<Mention>,
}

/// The layer of a cube that holds nothing.
pub open spec fn empty_kg() -> KgView {
    KgView { entities: Seq::empty(), mentions: Seq::empty() }
}

impl KgView {
    /// Whether some entity has the given normalised name.
    pub open spec fn has_name(self, name: Seq<char>) -> bool {
        exists|i: int| 0 <= i < self.entities.len() && (#[trigger] self.entities[i]).name == name
    }

    /// Position of the entity with the given normalised name.
    pub open spec fn name_pos(self, name: Seq<char>) -> int {
        choose|i: int| 0 <= i < self.entities.len() && (#[trigger] self.entities[i]).name == name
    }

    /// Whether some entity has the given id.
    pub open spec fn has_entity(self, id: u64) -> bool {
        exists|i: int| 0 <= i < self.entities.len() && (#[trigger] self.entities[i]).id == id
    }

    /// Whether the mention is linked.
    pub open spec fn has_mention(self, m: Mention) -> bool {
        self.mentions.contains(m)
    }

    /// No name and no id is held twice, no mention is, and every mention
    /// names an entity that exists.
    pub open spec fn wf(self) -> bool {
        &&& forall|i: int, j: int|
            0 <= i < j < self.entities.len() ==> (#[trigger] self.entities[i]).name != (
            #[trigger] self.entities[j]).name
        &&& forall|i: int, j: int|
            0 <= i < j < self.entities.len() ==> (#[trigger] self.entities[i]).id < (
            #[trigger] self.entities[j]).id
        &&& forall|i: int, j: int|
            0 <= i < j < self.mentions.len() ==> #[trigger] self.mentions[i]
                != #[trigger] self.mentions[j]
        &&& forall|i: int|
            0 <= i < self.mentions.len() ==> self.has_entity((#[trigger] self.mentions[i]).entity_id)
    }

    /// Every entity id is below `bound`.
    pub open spec fn ids_below(self, bound: u64) -> bool {
        forall|i: int| 0 <= i < self.entities.len() ==> (#[trigger] self.entities[i]).id < bound
    }

    /// The layer after an upsert under the normalised name `name`: the
    /// attributes are written over those of the entity with that name, or
    /// a new entity with the id `fresh` is added.
    pub open spec fn upserted(self, name: Seq<char>, attributes: MetaView, fresh: u64) -> KgView {
        if self.has_name(name) {
            let i = self.name_pos(name);
            let e = self.entities[i];
            KgView {
                entities: self.entities.update(
                    i,
                    EntityView { attributes: meta_merge(e.attributes, attributes), ..e },
                ),
                mentions: self.mentions,
            }
        } else {
            KgView {
                entities: self.entities.push(EntityView { id: fresh, name, attributes }),
                mentions: self.mentions,
            }
        }
    }

    /// The id that an upsert under the normalised name `name` returns.
    pub open spec fn upsert_id(self, name: Seq<char>, fresh: u64) -> u64 {
        if self.has_name(name) {
            self.entities[self.name_pos(name)].id
        } else {
            fresh
        }
    }

    /// The layer after a mention has been linked: unchanged if the link was
    /// there already.
    pub open spec fn linked(self, m: Mention) -> KgView {
        if self.has_mention(m) {
            self
        } else {
            KgView { entities: self.entities, mentions: self.mentions.push(m) }
        }
    }
}

/// Under well-formedness a name determines the position of its entity.
pub proof fn lemma_name_pos(kg: KgView, i: int)
    requires
        kg.wf(),
        0 <= i < kg.entities.len(),
    ensures
        kg.has_name(kg.entities[i].name),
        kg.name_pos(kg.entities[i].name) == i,
        kg.has_entity(kg.entities[i].id),
{
    let j = kg.name_pos(kg.entities[i].name);
    if j < i {
        assert(kg.entities[j].name != kg.entities[i].name);
    }
    if i < j {
        assert(kg.entities[i].name != kg.entities[j].name);
    }
}

/// An upsert keeps the layer well-formed, and the entity it names is there
/// afterwards under the returned id.
pub proof fn lemma_upserted(kg: KgView, name: Seq<char>, attributes: MetaView, fresh: u64)
    requires
        kg.wf(),
        kg.ids_below(fresh),
    ensures
        kg.upserted(name, attributes, fresh).wf(),
        kg.upserted(name, attributes, fresh).ids_below((fresh + 1) as u64) || fresh == u64::MAX,
        kg.has_name(name) ==> kg.upserted(name, attributes, fresh).ids_below(fresh),
        kg.upserted(name, attributes, fresh).has_name(name),
        kg.upserted(name, attributes, fresh).upsert_id(name, fresh) == kg.upsert_id(name, fresh),
        kg.upserted(name, attributes, fresh).entities.len() == kg.entities.len() + if kg.has_name(
            name,
        ) {
            0int
        } else {
            1int
        },
{
    let r = kg.upserted(name, attributes, fresh);
    if kg.has_name(name) {
        let i = kg.name_pos(name);
        assert forall|a: int, b: int| 0 <= a < b < r.entities.len() implies (
        #[trigger] r.entities[a]).name != (#[trigger] r.entities[b]).name by {
            assert(kg.entities[a].name != kg.entities[b].name);
        }
        assert forall|a: int, b: int| 0 <= a < b < r.entities.len() implies (
        #[trigger] r.entities[a]).id < (#[trigger] r.entities[b]).id by {
            assert(kg.entities[a].id < kg.entities[b].id);
        }
        assert forall|m: int| 0 <= m < r.mentions.len() implies r.has_entity(
            (#[trigger] r.mentions[m]).entity_id,
        ) by {
            assert(kg.has_entity(kg.mentions[m].entity_id));
            let p = choose|p: int|
                0 <= p < kg.entities.len() && (#[trigger] kg.entities[p]).id
                    == kg.mentions[m].entity_id;
            assert(r.entities[p].id == kg.mentions[m].entity_id);
        }
        assert(r.entities[i].name == name);
        lemma_name_pos(r, i);
        assert forall|a: int| 0 <= a < r.entities.len() implies (#[trigger] r.entities[a]).id
            < fresh by {
            assert(kg.entities[a].id < fresh);
        }
    } else {
        let n = kg.entities.len() as int;
        assert forall|a: int, b: int| 0 <= a < b < r.entities.len() implies (
        #[trigger] r.entities[a]).name != (#[trigger] r.entities[b]).name by {
            if b == n {
                assert(kg.entities[a].name != name);
            } else {
                assert(kg.entities[a].name != kg.entities[b].name);
            }
        }
        assert forall|a: int, b: int| 0 <= a < b < r.entities.len() implies (
        #[trigger] r.entities[a]).id < (#[trigger] r.entities[b]).id by {
            if b == n {
                assert(kg.entities[a].id < fresh);
            } else {
                assert(kg.entities[a].id < kg.entities[b].id);
            }
        }
        assert forall|m: int| 0 <= m < r.mentions.len() implies r.has_entity(
            (#[trigger] r.mentions[m]).entity_id,
        ) by {
            assert(kg.has_entity(kg.mentions[m].entity_id));
            let p = choose|p: int|
                0 <= p < kg.entities.len() && (#[trigger] kg.entities[p]).id
                    == kg.mentions[m].entity_id;
            assert(r.entities[p].id == kg.mentions[m].entity_id);
        }
        assert(r.entities[n].name == name);
        lemma_name_pos(r, n);
        if fresh < u64::MAX {
            assert forall|a: int| 0 <= a < r.entities.len() implies (#[trigger] r.entities[a]).id
                < fresh + 1 by {
                if a < n {
                    assert(kg.entities[a].id < fresh);
                }
            }
        }
    }
}

/// Linking a mention keeps the layer well-formed; afterwards the mention is
/// there, and linking it again changes nothing.
pub proof fn lemma_linked(kg: KgView, m: Mention)
    requires
        kg.wf(),
        kg.has_entity(m.entity_id),
    ensures
        kg.linked(m).wf(),
        kg.linked(m).has_mention(m),
        kg.linked(m).linked(m) == kg.linked(m),
        forall|b: u64| kg.ids_below(b) ==> kg.linked(m).ids_below(b),
{
    let r = kg.linked(m);
    if !kg.has_mention(m) {
        let n = kg.mentions.len() as int;
        assert(r.mentions[n] == m);
        assert forall|i: int, j: int| 0 <= i < j < r.mentions.len() implies #[trigger] r.mentions[i]
            != #[trigger] r.mentions[j] by {
            if j == n {
                assert(kg.mentions[i] != m) by {
                    if kg.mentions[i] == m {
                        assert(kg.mentions.contains(m));
                    }
                }
            } else {
                assert(kg.mentions[i] != kg.mentions[j]);
            }
        }
        assert forall|i: int| 0 <= i < r.mentions.len() implies r.has_entity(
            (#[trigger] r.mentions[i]).entity_id,
        ) by {
            let id = r.mentions[i].entity_id;
            if i < n {
                assert(kg.has_entity(kg.mentions[i].entity_id));
            }
            assert(kg.has_entity(id));
            let p = choose|p: int| 0 <= p < kg.entities.len() && (#[trigger] kg.entities[p]).id == id;
            assert(r.entities[p].id == id);
        }
    }
}

/// The entity layer of one cube.
#[derive(Debug, Clone)]
pub struct CubeKg {
    pub(crate) entities: Vec<Entity>,
    pub(crate) mentions: Vec<Mention>,
}

impl View for CubeKg {
    type V = KgView;

    closed spec fn view(&self) -> KgView {
        KgView { entities: self.entities@.map_values(|e: Entity| e@), mentions: self.mentions@ }
    }
}

impl CubeKg {
    /// The model, entry by entry.
    pub(crate) proof fn lemma_view(&self)
        ensures
            self@.entities.len() == self.entities@.len(),
            self@.mentions == self.mentions@,
            forall|i: int|
                0 <= i < self.entities@.len() ==> #[trigger] self@.entities[i]
                    == self.entities@[i]@,
    {
    }

    /// The model is well-formed.
    pub open spec fn wf(&self) -> bool {
        self@.wf()
    }

    /// A layer that holds nothing.
    pub fn new() -> (r: CubeKg)
        ensures
            r@ == empty_kg(),
            r.wf(),
    {
        let r = CubeKg { entities: Vec::new(), mentions: Vec::new() };
        proof {
            assert(r@.entities =~= empty_kg().entities);
            assert(r@.mentions =~= empty_kg().mentions);
        }
        r
    }

    /// Position of the entity with the given normalised name.
    pub(crate) fn find_name(&self, name: &String) -> (r: Option<usize>)
        requires
            self.wf(),
        ensures
            match r {
                Some(i) => i < self@.entities.len() && self@.entities[i as int].name == name@
                    && self@.has_name(name@) && self@.name_pos(name@) == i,
                None => !self@.has_name(name@),
            },
    {
        proof {
            self.lemma_view();
        }
        let mut i: usize = 0;
        while i < self.entities.len()
            invariant
                self.wf(),
                i <= self.entities@.len(),
                self@.entities.len() == self.entities@.len(),
                forall|k: int|
                    0 <= k < self.entities@.len() ==> #[trigger] self@.entities[k]
                        == self.entities@[k]@,
                forall|k: int| 0 <= k < i ==> (#[trigger] self@.entities[k]).name != name@,
            decreases self.entities@.len() - i,
        {
            if self.entities[i].name == *name {
                proof {
                    assert(self@.entities[i as int].name == name@);
                    lemma_name_pos(self@, i as int);
                }
                return Some(i);
            }
            assert(self@.entities[i as int].name != name@);
            i += 1;
        }
        None
    }

    /// Whether an entity with the given id exists.
    pub fn has_entity(&self, id: u64) -> (r: bool)
        ensures
            r == self@.has_entity(id),
    {
        proof {
            self.lemma_view();
        }
        let mut i: usize = 0;
        while i < self.entities.len()
            invariant
                i <= self.entities@.len(),
                self@.entities.len() == self.entities@.len(),
                forall|k: int|
                    0 <= k < self.entities@.len() ==> #[trigger] self@.entities[k]
                        == self.entities@[k]@,
                forall|k: int| 0 <= k < i ==> (#[trigger] self@.entities[k]).id != id,
            decreases self.entities@.len() - i,
        {
            if self.entities[i].id == id {
                assert(self@.entities[i as int].id == id);
                return true;
            }
            assert(self@.entities[i as int].id != id);
            i += 1;
        }
        false
    }

    /// Whether the mention is linked.
    pub fn has_mention(&self, m: Mention) -> (r: bool)
        ensures
            r == self@.has_mention(m),
    {
        proof {
            self.lemma_view();
        }
        let mut i: usize = 0;
        while i < self.mentions.len()
            invariant
                i <= self.mentions@.len(),
                self@.mentions == self.mentions@,
                forall|k: int| 0 <= k < i ==> self.mentions@[k] != m,
            decreases self.mentions@.len() - i,
        {
            let x = self.mentions[i];
            if x.entity_id == m.entity_id && x.memory_id == m.memory_id {
                assert(self.mentions@[i as int] == m);
                return true;
            }
            i += 1;
        }
        false
    }

    /// Writes `attributes` over those of the entity named `name`, or adds a
    /// new entity under the id `fresh`; returns the entity's id.
    pub(crate) fn upsert(&mut self, name: String, attributes: Metadata, fresh: u64) -> (r: u64)
        requires
            old(self).wf(),
            old(self)@.ids_below(fresh),
        ensures
            final(self).wf(),
            final(self)@ == old(self)@.upserted(name@, attributes@, fresh),
            r == old(self)@.upsert_id(name@, fresh),
    {
        proof {
            self.lemma_view();
            lemma_upserted(self@, name@, attributes@, fresh);
        }
        match self.find_name(&name) {
            Some(i) => {
                let id = self.entities[i].id;
                let merged = self.entities[i].attributes.merged_with(&attributes);
                let entity = Entity { id, name: self.entities[i].name.clone(), attributes: merged };
                self.entities.set(i, entity);
                proof {
                    self.lemma_view();
                    assert(self@.entities =~= old(self)@.upserted(
                        name@,
                        attributes@,
                        fresh,
                    ).entities);
                }
                id
            },
            None => {
                let entity = Entity { id: fresh, name, attributes };
                self.entities.push(entity);
                proof {
                    self.lemma_view();
                    assert(self@.entities =~= old(self)@.upserted(
                        name@,
                        attributes@,
                        fresh,
                    ).entities);
                }
                fresh
            },
        }
    }

    /// Links a mention, unless it is linked already.
    pub(crate) fn link(&mut self, m: Mention)
        requires
            old(self).wf(),
            old(self)@.has_entity(m.entity_id),
        ensures
            final(self).wf(),
            final(self)@ == old(self)@.linked(m),
    {
        proof {
            self.lemma_view();
            lemma_linked(self@, m);
        }
        if !self.has_mention(m) {
            self.mentions.push(m);
            proof {
                self.lemma_view();
                assert(self@.entities =~= old(self)@.entities);
            }
        }
    }

    /// A copy of all entities and mentions.
    pub fn snapshot(&self) -> (r: EntityKgSnapshot)
        ensures
            r.entities@.map_values(|e: Entity| e@) == self@.entities,
            r.mentions@ == self@.mentions,
    {
        proof {
            self.lemma_view();
        }
        let mut entities: Vec<Entity> = Vec::new();
        let mut i: usize = 0;
        while i < self.entities.len()
            invariant
                i <= self.entities@.len(),
                entities@.len() == i,
                forall|k: int| 0 <= k < i ==> (#[trigger] entities@[k])@ == self.entities@[k]@,
            decreases self.entities@.len() - i,
        {
            entities.push(self.entities[i].duplicate());
            i += 1;
        }
        let mut mentions: Vec<Mention> = Vec::new();
        let mut j: usize = 0;
        while j < self.mentions.len()
            invariant
                j <= self.mentions@.len(),
                mentions@ == self.mentions@.take(j as int),
            decreases self.mentions@.len() - j,
        {
            mentions.push(self.mentions[j]);
            assert(self.mentions@.take(j + 1) =~= self.mentions@.take(j as int).push(
                self.mentions@[j as int],
            ));
            j += 1;
        }
        proof {
            assert(self.mentions@.take(j as int) =~= self.mentions@);
            assert(entities@.map_values(|e: Entity| e@) =~= self@.entities);
        }
        EntityKgSnapshot { entities, mentions }
    }

    /// How many entities and mentions there are.
    pub fn stats(&self) -> (r: EntityKgStats)
        ensures
            r.entity_count == self@.entities.len(),
            r.mention_count == self@.mentions.len(),
    {
        proof {
            self.lemma_view();
        }
        EntityKgStats { entity_count: self.entities.len(), mention_count: self.mentions.len() }
    }
}

/// What the entity layer is, as a mathematical value: the layer of each
/// cube that exists, and the next id to hand out.
pub struct KgStoreView {
    pub cubes: Map<Seq<char>, KgView>,
    pub next_id: u64,
}

impl KgStoreView {
    /// Whether the cube exists.
    pub open spec fn has_cube(self, cube: Seq<char>) -> bool {
        self.cubes.dom().contains(cube)
    }

    /// The layer of a cube; the empty layer for a cube that does not exist.
    pub open spec fn kg(self, cube: Seq<char>) -> KgView {
        if self.has_cube(cube) {
            self.cubes[cube]
        } else {
            empty_kg()
        }
    }

    /// Every layer is well-formed and uses only ids that were handed out.
    pub open spec fn wf(self) -> bool {
        forall|c: Seq<char>| #[trigger]
            self.has_cube(c) ==> self.cubes[c].wf() && self.cubes[c].ids_below(self.next_id)
    }

    /// The layer with that of one cube set to `kg`.
    pub open spec fn with_kg(self, cube: Seq<char>, kg: KgView) -> KgStoreView {
        KgStoreView { cubes: self.cubes.insert(cube, kg), next_id: self.next_id }
    }

    /// What an upsert makes of the layer and what it returns.
    pub open spec fn upsert(self, cube: Seq<char>, name: Seq<char>, attributes: MetaView) -> (
        KgStoreView,
        Result<u64, EntityKgError>,
    ) {
        let n = normalized(name);
        let kg = self.kg(cube);
        if n.len() == 0 {
            (self, Err(EntityKgError::InvalidArgument))
        } else if kg.has_name(n) {
            (
                self.with_kg(cube, kg.upserted(n, attributes, self.next_id)),
                Ok(kg.upsert_id(n, self.next_id)),
            )
        } else if self.next_id == u64::MAX {
            (self, Err(EntityKgError::Internal))
        } else {
            (
                KgStoreView {
                    cubes: self.cubes.insert(cube, kg.upserted(n, attributes, self.next_id)),
                    next_id: (self.next_id + 1) as u64,
                },
                Ok(self.next_id),
            )
        }
    }

    /// What linking a mention makes of the layer and what it returns.
    pub open spec fn link(self, cube: Seq<char>, m: Mention) -> (
        KgStoreView,
        Result<(), EntityKgError>,
    ) {
        if !self.has_cube(cube) || !self.cubes[cube].has_entity(m.entity_id) {
            (self, Err(EntityKgError::NotFound))
        } else {
            (self.with_kg(cube, self.cubes[cube].linked(m)), Ok(()))
        }
    }
}

/// One cube of the entity layer.
#[derive(Debug, Clone)]
pub struct KgCube {
    pub(crate) id: String,
    pub(crate) kg: CubeKg,
}

/// The entity knowledge graph over all cubes.
#[derive(Debug, Clone)]
pub struct EntityKnowledgeGraph {
    pub(crate) cubes: Vec<KgCube>,
    pub(crate) next_id: u64,
}

impl View for EntityKnowledgeGraph {
    type V = KgStoreView;

    closed spec fn view(&self) -> KgStoreView {
        KgStoreView { cubes: listed(self.listing()), next_id: self.next_id }
    }
}

impl EntityKnowledgeGraph {
    /// The cubes in the order in which they were created.
    pub closed spec fn listing(&self) -> Seq<(Seq<char>, KgView)> {
        self.cubes@.map_values(|e: KgCube| (e.id@, e.kg@))
    }

    /// The layer's invariant: its model is well-formed and no cube id is
    /// held twice.
    pub open spec fn wf(&self) -> bool {
        self@.wf() && names_distinct(self.listing())
    }

    /// The model, entry by entry.
    pub(crate) proof fn lemma_view(&self)
        ensures
            self@.cubes == listed(self.listing()),
            self@.next_id == self.next_id,
            self.listing().len() == self.cubes@.len(),
            forall|i: int|
                0 <= i < self.cubes@.len() ==> #[trigger] self.listing()[i] == (
                    self.cubes@[i].id@,
                    self.cubes@[i].kg@,
                ),
    {
    }

    /// After the layer of the cube at position `at` has been exchanged, the
    /// model differs in that cube alone.
    pub(crate) proof fn lemma_exchanged(before: &Self, after: &Self, at: int)
        requires
            before.wf(),
            0 <= at < before.cubes@.len(),
            after.cubes@.len() == before.cubes@.len(),
            after.cubes@[at].id@ == before.cubes@[at].id@,
            forall|k: int|
                0 <= k < before.cubes@.len() && k != at ==> #[trigger] after.cubes@[k]
                    == before.cubes@[k],
            after.next_id >= before.next_id,
            after.cubes@[at].kg@.wf(),
            after.cubes@[at].kg@.ids_below(after.next_id),
        ensures
            after.wf(),
            after@.cubes == before@.cubes.insert(before.cubes@[at].id@, after.cubes@[at].kg@),
            after@.next_id == after.next_id,
    {
        before.lemma_view();
        after.lemma_view();
        let c = before.cubes@[at].id@;
        let g1 = after.cubes@[at].kg@;
        assert(after.listing() =~= before.listing().update(at, (c, g1)));
        lemma_listed_update::<KgView>(before.listing(), at, g1);
        assert forall|x: Seq<char>| #[trigger] after@.has_cube(x) implies after@.cubes[x].wf()
            && after@.cubes[x].ids_below(after@.next_id) by {
            if x != c {
                assert(before@.has_cube(x));
            }
        }
    }

    /// A layer without cubes.
    pub fn new() -> (s: EntityKnowledgeGraph)
        ensures
            s.wf(),
            s@.cubes == Map::<Seq<char>, KgView>::empty(),
            s@.next_id == 0,
    {
        let s = EntityKnowledgeGraph { cubes: Vec::new(), next_id: 0 };
        proof {
            assert(s@.cubes =~= Map::<Seq<char>, KgView>::empty());
        }
        s
    }

    /// Position of the cube with the given id.
    pub(crate) fn find_cube(&self, cube_id: &String) -> (r: Option<usize>)
        requires
            self.wf(),
        ensures
            match r {
                Some(i) => i < self.cubes@.len() && self.cubes@[i as int].id@ == cube_id@
                    && self@.has_cube(cube_id@) && self@.cubes[cube_id@]
                    == self.cubes@[i as int].kg@ && self.cubes@[i as int].kg.wf()
                    && self.cubes@[i as int].kg@.ids_below(self.next_id),
                None => !self@.has_cube(cube_id@),
            },
    {
        proof {
            self.lemma_view();
        }
        let mut i: usize = 0;
        while i < self.cubes.len()
            invariant
                i <= self.cubes@.len(),
                self.wf(),
                self.listing().len() == self.cubes@.len(),
                forall|k: int|
                    0 <= k < self.cubes@.len() ==> #[trigger] self.listing()[k] == (
                        self.cubes@[k].id@,
                        self.cubes@[k].kg@,
                    ),
                forall|k: int| 0 <= k < i ==> (#[trigger] self.listing()[k]).0 != cube_id@,
            decreases self.cubes@.len() - i,
        {
            if self.cubes[i].id == *cube_id {
                proof {
                    self.lemma_view();
                    assert(self.listing()[i as int].0 == cube_id@);
                    lemma_listed_at::<KgView>(self.listing(), i as int);
                    assert(self@.cubes.dom().contains(cube_id@));
                    assert(self@.has_cube(cube_id@));
                    assert(self@.cubes[cube_id@] == self.cubes@[i as int].kg@);
                }
                return Some(i);
            }
            assert(self.listing()[i as int].0 != cube_id@);
            i += 1;
        }
        proof {
            self.lemma_view();
        }
        None
    }

    /// Records an entity under the normal form of `name`: merges the
    /// attributes into the entity of that name if the cube has one (for
    /// each key the last write wins) and returns its id, else creates the
    /// entity, and the cube with it if need be.
    pub fn upsert_entity(&mut self, cube_id: &String, name: &str, attributes: Metadata) -> (r:
        Result<u64, EntityKgError>)
        requires
            old(self).wf(),
        ensures
            final(self).wf(),
            (final(self)@, r) == old(self)@.upsert(cube_id@, name@, attributes@),
    {
        let n = normalize_name(name);
        if n.as_str().unicode_len() == 0 {
            return Err(EntityKgError::InvalidArgument);
        }
        proof {
            self.lemma_view();
        }
        let found = self.find_cube(cube_id);
        let known = match found {
            Some(i) => self.cubes[i].kg.find_name(&n).is_some(),
            None => false,
        };
        if !known && self.next_id == u64::MAX {
            return Err(EntityKgError::Internal);
        }
        let at = match found {
            Some(i) => i,
            None => {
                let entry = KgCube { id: cube_id.clone(), kg: CubeKg::new() };
                self.cubes.push(entry);
                proof {
                    self.lemma_view();
                    assert(self.listing() =~= old(self).listing().push((cube_id@, entry.kg@)));
                    lemma_listed_push::<KgView>(old(self).listing(), cube_id@, entry.kg@);
                }
                self.cubes.len() - 1
            },
        };
        let ghost mid = *self;
        let ghost base = old(self)@.kg(cube_id@);
        proof {
            mid.lemma_view();
            lemma_listed_at::<KgView>(mid.listing(), at as int);
            assert(mid.cubes@[at as int].kg@ == base);
            assert(base.wf() && base.ids_below(self.next_id));
            lemma_upserted(base, n@, attributes@, self.next_id);
        }
        let fresh = self.next_id;
        let mut kg = CubeKg::new();
        std::mem::swap(&mut kg, &mut self.cubes[at].kg);
        let id = kg.upsert(n, attributes, fresh);
        std::mem::swap(&mut kg, &mut self.cubes[at].kg);
        if !known {
            self.next_id = fresh + 1;
        }
        proof {
            self.lemma_view();
            let g1 = self.cubes@[at as int].kg@;
            assert(self.listing() =~= mid.listing().update(at as int, (cube_id@, g1)));
            lemma_listed_update::<KgView>(mid.listing(), at as int, g1);
            assert(self@.cubes =~= old(self)@.cubes.insert(cube_id@, g1));
            assert forall|c: Seq<char>| #[trigger] self@.has_cube(c) implies self@.cubes[c].wf()
                && self@.cubes[c].ids_below(self@.next_id) by {
                if c != cube_id@ {
                    assert(old(self)@.has_cube(c));
                }
            }
        }
        Ok(id)
    }

    /// Links an entity to a memory that mentions it. Linking the same pair
    /// again changes nothing.
    pub fn link_mention(&mut self, cube_id: &String, entity_id: u64, memory_id: u64) -> (r: Result<
        (),
        EntityKgError,
    >)
        requires
            old(self).wf(),
        ensures
            final(self).wf(),
            (final(self)@, r) == old(self)@.link(cube_id@, Mention { entity_id, memory_id }),
    {
        let at = match self.find_cube(cube_id) {
            Some(i) => i,
            None => {
                return Err(EntityKgError::NotFound);
            },
        };
        if !self.cubes[at].kg.has_entity(entity_id) {
            return Err(EntityKgError::NotFound);
        }
        let m = Mention { entity_id, memory_id };
        proof {
            self.lemma_view();
            lemma_linked(self.cubes@[at as int].kg@, m);
        }
        let mut kg = CubeKg::new();
        std::mem::swap(&mut kg, &mut self.cubes[at].kg);
        kg.link(m);
        std::mem::swap(&mut kg, &mut self.cubes[at].kg);
        proof {
            Self::lemma_exchanged(old(self), self, at as int);
            assert(self@.cubes =~= old(self)@.cubes.insert(cube_id@, self.cubes@[at as int].kg@));
        }
        Ok(())
    }

    /// A copy of all entities and mentions of a cube as they are now.
    pub fn snapshot(&self, cube_id: &String) -> (r: Result<EntityKgSnapshot, EntityKgError>)
        requires
            self.wf(),
        ensures
            !self@.has_cube(cube_id@) ==> (r matches Err(e) && e == EntityKgError::NotFound),
            self@.has_cube(cube_id@) ==> (r matches Ok(snap) && snap.entities@.map_values(
                |e: Entity| e@,
            ) == self@.cubes[cube_id@].entities && snap.mentions@
                == self@.cubes[cube_id@].mentions),
    {
        match self.find_cube(cube_id) {
            Some(at) => Ok(self.cubes[at].kg.snapshot()),
            None => Err(EntityKgError::NotFound),
        }
    }

    /// How many entities and mentions a cube holds.
    pub fn stats(&self, cube_id: &String) -> (r: Result<EntityKgStats, EntityKgError>)
        requires
            self.wf(),
        ensures
            !self@.has_cube(cube_id@) ==> (r matches Err(e) && e == EntityKgError::NotFound),
            self@.has_cube(cube_id@) ==> (r matches Ok(st) && st.entity_count
                == self@.cubes[cube_id@].entities.len() && st.mention_count
                == self@.cubes[cube_id@].mentions.len()),
    {
        match self.find_cube(cube_id) {
            Some(at) => Ok(self.cubes[at].kg.stats()),
            None => Err(EntityKgError::NotFound),
        }
    }
}

} // verus!
