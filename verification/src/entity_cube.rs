//! The entity-aware memory cube: the memory cube, with entities that were
//! found in a memory's content recorded in the entity layer as a
//! best-effort step after the memory itself has been written.

use vstd::prelude::*;
use crate::cube::{
    commit_add_post, AddOutcome, AddPlan, ForgetOutcome, MemCube, MemCubeError, NaiveMemCube,
    SearchPlan, UpdateOutcome, UpdatePlan, VecSearchHit,
};
use crate::dto::{
    ApiAddRequest, ForgetMemoryRequest, GetMemoryRequest, GetMemoryResponse, SearchResponse,
    UpdateMemoryRequest,
};
use crate::store::StoreView;
use crate::entity::{EntityKnowledgeGraph, KgStoreView, Mention};
use crate::metadata::Metadata;

verus! {

/// Settings of the entity-aware cube.
#[derive(Debug, Clone, Copy, PartialEq, Eq, Hash, Structural)]
pub struct EntityCubeConfig {
    /// How many of the entities found in one memory are recorded.
    pub max_entities_per_memory: usize,
}

/// An entity that the extractor found in a memory's content.
#[derive(Debug, Clone)]
pub struct ExtractedEntity {
    pub name: String,
    pub attributes: Metadata,
}

/// What recording the entities of one memory has done.
#[derive(Debug, Clone)]
pub struct EntityReport {
    /// Ids of the entities that are now linked to the memory.
    pub linked: Vec<u64>,
    /// How many entities could not be recorded.
    pub failed: usize,
    /// The extractor's error, if extraction itself failed.
    pub extraction_error: Option<String>,
}

/// What recording one entity of a memory makes of the layer, and the
/// entity's id if it was recorded.
pub open spec fn record_one(kg: KgStoreView, cube: Seq<char>, memory_id: u64, e: ExtractedEntity) -> (
    KgStoreView,
    Option<u64>,
) {
    let up = kg.upsert(cube, e.name@, e.attributes@);
    match up.1 {
        Err(_) => (up.0, None),
        Ok(id) => {
            let linked = up.0.link(cube, Mention { entity_id: id, memory_id });
            match linked.1 {
                Ok(_) => (linked.0, Some(id)),
                Err(_) => (linked.0, None),
            }
        },
    }
}

/// What recording the first `n` entities of a memory makes of the layer,
/// the ids recorded, and how many failed.
pub open spec fn record_all(
    kg: KgStoreView,
    cube: Seq<char>,
    memory_id: u64,
    found: Seq<ExtractedEntity>,
    n: int,
) -> (KgStoreView, Seq<u64>, nat)
    decreases n,
{
    if n <= 0 {
        (kg, Seq::empty(), 0)
    } else {
        let before = record_all(kg, cube, memory_id, found, n - 1);
        let step = record_one(before.0, cube, memory_id, found[n - 1]);
        match step.1 {
            Some(id) => (step.0, before.1.push(id), before.2),
            None => (step.0, before.1, before.2 + 1),
        }
    }
}

/// The smaller of two numbers.
pub open spec fn least(a: int, b: int) -> int {
    if a <= b {
        a
    } else {
        b
    }
}

/// The entity-aware memory cube.
#[derive(Debug, Clone)]
pub struct EntityAwareMemCube {
    pub base: NaiveMemCube,
    pub entities: EntityKnowledgeGraph,
    pub config: EntityCubeConfig,
}

impl EntityAwareMemCube {
    /// The store and the entity layer are well-formed.
    pub open spec fn wf(&self) -> bool {
        self.base.wf() && self.entities.wf()
    }

    /// An entity-aware cube over an empty store and an empty entity layer.
    pub fn new(config: EntityCubeConfig) -> (c: EntityAwareMemCube)
        ensures
            c.wf(),
            c.config == config,
            c.base.graph@.cubes == Map::<Seq<char>, crate::model::GraphView>::empty(),
            c.base.graph@.next_id == 0,
            c.entities@.cubes == Map::<Seq<char>, crate::entity::KgView>::empty(),
            c.entities@.next_id == 0,
    {
        EntityAwareMemCube {
            base: NaiveMemCube::new(),
            entities: EntityKnowledgeGraph::new(),
            config,
        }
    }

    /// Records one entity of a memory and links it to the memory.
    fn record(&mut self, cube_id: &String, memory_id: u64, e: &ExtractedEntity) -> (r: Option<u64>)
        requires
            old(self).wf(),
        ensures
            final(self).wf(),
            final(self).base == old(self).base,
            final(self).config == old(self).config,
            (final(self).entities@, r) == record_one(
                old(self).entities@,
                cube_id@,
                memory_id,
                *e,
            ),
    {
        match self.entities.upsert_entity(cube_id, e.name.as_str(), e.attributes.duplicate()) {
            Ok(id) => {
                match self.entities.link_mention(cube_id, id, memory_id) {
                    Ok(_) => Some(id),
                    Err(_) => None,
                }
            },
            Err(_) => None,
        }
    }

    /// The step after a memory has been written: records the entities that
    /// the extractor found in it and links each to the memory. A failure of
    /// the extractor, or of recording one entity, is reported and changes
    /// nothing about the memory. No more entities than the configuration
    /// allows are recorded.
    pub fn record_entities(
        &mut self,
        cube_id: &String,
        memory_id: u64,
        extracted: Result<Vec<ExtractedEntity>, String>,
    ) -> (r: EntityReport)
        requires
            old(self).wf(),
        ensures
            final(self).wf(),
            final(self).base == old(self).base,
            final(self).config == old(self).config,
            match extracted {
                Err(msg) => final(self).entities@ == old(self).entities@ && r.linked@.len() == 0
                    && r.failed == 0 && (r.extraction_error matches Some(m) && m@ == msg@),
                Ok(found) => {
                    let n = least(found@.len() as int, old(self).config.max_entities_per_memory as int);
                    let spec = record_all(old(self).entities@, cube_id@, memory_id, found@, n);
                    &&& final(self).entities@ == spec.0
                    &&& r.linked@ == spec.1
                    &&& r.failed == spec.2
                    &&& r.extraction_error.is_none()
                },
            },
    {
        let found = match extracted {
            Ok(found) => found,
            Err(msg) => {
                return EntityReport { linked: Vec::new(), failed: 0, extraction_error: Some(msg) };
            },
        };
        let ghost kg0 = self.entities@;
        let limit = if found.len() <= self.config.max_entities_per_memory {
            found.len()
        } else {
            self.config.max_entities_per_memory
        };
        let mut linked: Vec<u64> = Vec::new();
        let mut failed: usize = 0;
        let mut i: usize = 0;
        while i < limit
            invariant
                self.wf(),
                self.base == old(self).base,
                self.config == old(self).config,
                i <= limit <= found@.len(),
                failed <= i,
                (self.entities@, linked@, failed as nat) == record_all(
                    kg0,
                    cube_id@,
                    memory_id,
                    found@,
                    i as int,
                ),
            decreases limit - i,
        {
            match self.record(cube_id, memory_id, &found[i]) {
                Some(id) => {
                    linked.push(id);
                },
                None => {
                    failed += 1;
                },
            }
            i += 1;
        }
        EntityReport { linked, failed, extraction_error: None }
    }

    /// Second step of an add on the entity-aware cube: the add of the
    /// memory cube, followed, if it succeeded, by recording the entities
    /// that the extractor found in the content. Whatever becomes of the
    /// entities, the memory stays written; if the add fails, the entity
    /// layer is not touched.
    pub fn commit_add_with_entities(
        &mut self,
        plan: &AddPlan,
        req: &ApiAddRequest,
        embedding: Result<Vec<u32>, String>,
        extracted: Result<Vec<ExtractedEntity>, String>,
    ) -> (r: Result<(AddOutcome, EntityReport), MemCubeError>)
        requires
            old(self).wf(),
        ensures
            final(self).wf(),
            final(self).config == old(self).config,
            commit_add_post(
                old(self).base.graph@,
                *plan,
                *req,
                embedding,
                final(self).base.graph@,
                match r {
                    Ok((outcome, _)) => Ok(outcome),
                    Err(e) => Err(e),
                },
            ),
            match r {
                Err(_) => final(self).entities@ == old(self).entities@,
                Ok((outcome, report)) => match extracted {
                    Err(msg) => final(self).entities@ == old(self).entities@
                        && report.linked@.len() == 0 && report.failed == 0 && (
                    report.extraction_error matches Some(m) && m@ == msg@),
                    Ok(found) => {
                        let n = least(
                            found@.len() as int,
                            old(self).config.max_entities_per_memory as int,
                        );
                        let spec = record_all(
                            old(self).entities@,
                            plan.cube_id@,
                            outcome.memory_id,
                            found@,
                            n,
                        );
                        &&& final(self).entities@ == spec.0
                        &&& report.linked@ == spec.1
                        &&& report.failed == spec.2
                        &&& report.extraction_error.is_none()
                    },
                },
            },
    {
        let outcome = match self.base.commit_add(plan, req, embedding) {
            Ok(outcome) => outcome,
            Err(e) => {
                return Err(e);
            },
        };
        let report = self.record_entities(&plan.cube_id, outcome.memory_id, extracted);
        Ok((outcome, report))
    }
}

impl MemCube for EntityAwareMemCube {
    open spec fn store(&self) -> StoreView {
        self.base.graph@
    }

    open spec fn valid(&self) -> bool {
        self.wf()
    }

    fn commit_add(
        &mut self,
        plan: &AddPlan,
        req: &ApiAddRequest,
        embedding: Result<Vec<u32>, String>,
    ) -> (r: Result<AddOutcome, MemCubeError>)
        ensures
            final(self).entities == old(self).entities,
            final(self).config == old(self).config,
    {
        self.base.commit_add(plan, req, embedding)
    }

    fn finish_search(&self, plan: &SearchPlan, hits: Result<Vec<VecSearchHit>, String>) -> (r:
        Result<SearchResponse, MemCubeError>)
    {
        self.base.finish_search(plan, hits)
    }

    fn plan_update(&self, req: &UpdateMemoryRequest) -> (r: Result<UpdatePlan, MemCubeError>)
    {
        self.base.plan_update(req)
    }

    fn commit_update(
        &mut self,
        plan: &UpdatePlan,
        patch: &Option<Metadata>,
        embedding: Option<Result<Vec<u32>, String>>,
    ) -> (r: Result<UpdateOutcome, MemCubeError>)
        ensures
            final(self).entities == old(self).entities,
            final(self).config == old(self).config,
    {
        self.base.commit_update(plan, patch, embedding)
    }

    fn forget(&mut self, req: &ForgetMemoryRequest) -> (r: Result<ForgetOutcome, MemCubeError>)
        ensures
            final(self).entities == old(self).entities,
            final(self).config == old(self).config,
    {
        self.base.forget(req)
    }

    fn get(&self, req: &GetMemoryRequest) -> (r: Result<GetMemoryResponse, MemCubeError>)
    {
        self.base.get(req)
    }
}

} // verus!
