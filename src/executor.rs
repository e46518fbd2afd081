//! Execution of a diff list: for each field and each schema, in dependency order, the decision
//! whether a new operation is needed, and which one.
//!
//! The executor is a state machine. `step` looks at the next entity: where nothing changed, the
//! previous view is reused; otherwise it hands out the operation to publish, and the caller
//! reports the hash of the published entry back through `complete`. Since every relation points
//! at an earlier diff, the schema a field relates to is always materialized, and its identifier
//! known, before the field is looked at.
use vstd::prelude::*;

use crate::diff::{FieldDiff, FieldTypeDiff, SchemaDiff, relations_point_back};
use crate::previous::{ResolvedFieldType, copy_strings, same_strings, texts};
use crate::schema_file::SchemaId;

verus! {

/// An operation on a schema or field definition document.
#[derive(Debug, Clone, PartialEq, Eq)]
pub enum Operation {
    /// Creates a field definition.
    CreateField { name: String, field_type: ResolvedFieldType },
    /// Updates the type of a field definition, following its previous view.
    UpdateField { previous: String, field_type: ResolvedFieldType },
    /// Creates a schema definition with the view ids of its fields.
    CreateSchema { name: String, description: String, fields: Vec<String> },
    /// Updates the attributes of a schema definition that changed, following its previous view.
    UpdateSchema { previous: String, description: Option<String>, fields: Option<Vec<String>> },
}

/// The current type of a field, with each relation resolved to the identifier of its target.
pub open spec fn resolve(ft: FieldTypeDiff, ids: Seq<SchemaId>) -> ResolvedFieldType {
    match ft {
        FieldTypeDiff::Field(t) => ResolvedFieldType::Scalar(t),
        FieldTypeDiff::Relation(rt, y) => ResolvedFieldType::Relation(rt, ids[y as int]),
        FieldTypeDiff::ExternalRelation(rt, id) => ResolvedFieldType::Relation(rt, id),
    }
}

/// Whether `op` is what a field needs whose resolved current type is `t`: a new field is
/// created, a changed one updated, an unchanged one left alone.
pub open spec fn field_decision(fd: FieldDiff, t: ResolvedFieldType, op: Option<Operation>) -> bool {
    match fd.previous_field_view {
        None => match op {
            Some(Operation::CreateField { name, field_type }) => name@ == fd.name@ && field_type == t,
            _ => false,
        },
        Some(v) => if v.field_type.same(t) {
            op is None
        } else {
            match op {
                Some(Operation::UpdateField { previous, field_type }) => previous@ == v.view_id@ && field_type == t,
                _ => false,
            }
        },
    }
}

/// Whether `op` is what a schema needs whose fields resolved to the view ids `ids`: a new schema
/// is created; a schema whose description or field list changed is updated in what changed;
/// an unchanged one is left alone.
pub open spec fn schema_decision(sd: SchemaDiff, ids: Seq<String>, op: Option<Operation>) -> bool {
    match sd.previous_schema_view {
        None => match op {
            Some(Operation::CreateSchema { name, description, fields }) => name@ == sd.name@
                && description@ == sd.current_description@ && fields@ == ids,
            _ => false,
        },
        Some(v) => {
            let description_changed = sd.current_description@ != v.description@;
            let fields_changed = texts(ids) != texts(v.fields@);
            if !description_changed && !fields_changed {
                op is None
            } else {
                match op {
                    Some(Operation::UpdateSchema { previous, description, fields }) => {
                        &&& previous@ == v.view_id@
                        &&& if description_changed {
                            description matches Some(d) && d@ == sd.current_description@
                        } else {
                            description is None
                        }
                        &&& if fields_changed {
                            fields matches Some(f) && f@ == ids
                        } else {
                            fields is None
                        }
                    },
                    _ => false,
                }
            }
        },
    }
}

/// Resolves the current type of a field against the identifiers of the schemas executed so far.
pub fn resolve_field_type(ft: &FieldTypeDiff, ids: &Vec<SchemaId>) -> (r: ResolvedFieldType)
    requires
        ft matches FieldTypeDiff::Relation(_, y) ==> y < ids@.len(),
    ensures
        r == resolve(*ft, ids@),
{
    match ft {
        FieldTypeDiff::Field(t) => ResolvedFieldType::Scalar(*t),
        FieldTypeDiff::Relation(rt, y) => ResolvedFieldType::Relation(*rt, ids[*y].duplicate()),
        FieldTypeDiff::ExternalRelation(rt, id) => ResolvedFieldType::Relation(*rt, id.duplicate()),
    }
}

/// Decides the operation a field needs, given its resolved current type.
pub fn field_operation(fd: &FieldDiff, t: &ResolvedFieldType) -> (r: Option<Operation>)
    ensures
        field_decision(*fd, *t, r),
{
    match &fd.previous_field_view {
        None => Some(Operation::CreateField { name: fd.name.clone(), field_type: t.duplicate() }),
        Some(v) => {
            if v.field_type.equals(t) {
                None
            } else {
                Some(Operation::UpdateField { previous: v.view_id.clone(), field_type: t.duplicate() })
            }
        },
    }
}

/// Decides the operation a schema needs, given the view ids its fields resolved to.
pub fn schema_operation(sd: &SchemaDiff, field_view_ids: &Vec<String>) -> (r: Option<Operation>)
    ensures
        schema_decision(*sd, field_view_ids@, r),
{
    match &sd.previous_schema_view {
        None => Some(
            Operation::CreateSchema {
                name: sd.name.clone(),
                description: sd.current_description.clone(),
                fields: copy_strings(field_view_ids),
            },
        ),
        Some(v) => {
            let description_changed = sd.current_description != v.description;
            let fields_changed = !same_strings(field_view_ids, &v.fields);
            if !description_changed && !fields_changed {
                None
            } else {
                let description = if description_changed {
                    Some(sd.current_description.clone())
                } else {
                    None
                };
                let fields = if fields_changed {
                    Some(copy_strings(field_view_ids))
                } else {
                    None
                };
                Some(Operation::UpdateSchema { previous: v.view_id.clone(), description, fields })
            }
        },
    }
}


/// The identifier of an application schema, derived from its name and the view id of its
/// definition document.
pub open spec fn application_id(name: String, view_id: String) -> SchemaId {
    SchemaId::Application(name, view_id)
}

/// What a step did.
#[derive(Debug, Clone, PartialEq, Eq)]
pub enum Step {
    /// The entity did not change: its previous view was reused, no operation is needed.
    Reused,
    /// The entity needs this operation; its entry hash is expected through `complete`.
    Publish(Operation),
    /// All schemas are executed.
    Done,
}

/// The operation a step handed out, if any.
pub open spec fn step_operation(s: Step) -> Option<Operation> {
    match s {
        Step::Publish(op) => Some(op),
        _ => None,
    }
}

/// A schema that was executed, with its final identifier and the position of its diff.
#[derive(Debug, Clone, PartialEq, Eq)]
pub struct Plan {
    schema_id: SchemaId,
    diff: usize,
}

impl Plan {
    /// Returns a new plan entry.
    pub fn new(schema_id: SchemaId, diff: usize) -> (r: Plan)
        ensures
            r.id() == schema_id,
            r.diff_position() == diff,
    {
        Plan { schema_id, diff }
    }

    /// The final identifier of the schema.
    pub closed spec fn id(&self) -> SchemaId {
        self.schema_id
    }

    /// The position of the schema's diff.
    pub closed spec fn diff_position(&self) -> usize {
        self.diff
    }

    /// Returns the final identifier of the schema.
    pub fn schema_id(&self) -> (r: SchemaId)
        ensures
            r == self.id(),
    {
        self.schema_id.duplicate()
    }

    /// Returns the position of the schema's diff in the executed list.
    pub fn schema_diff(&self) -> (r: usize)
        ensures
            r == self.diff_position(),
    {
        self.diff
    }
}


/// What a step does: on a field, the field's decision, with the previous view reused where it
/// is none; on a schema, the schema's decision, likewise; an operation leaves the executor
/// waiting for its entry hash.
pub open spec fn step_spec(old: Executor, new: Executor, r: Step) -> bool {
    &&& !old.is_done() && old.at_field() ==> {
        &&& field_decision(
            old.current_field(),
            resolve(old.current_field().current_field_type, old.schema_ids()),
            step_operation(r),
        )
        &&& new.schema_ids() == old.schema_ids()
        &&& new.view_ids() == old.view_ids()
        &&& r is Reused ==> !new.is_pending() && new.field_ids() == old.field_ids().push(
            old.current_field().previous_field_view->Some_0.view_id,
        )
        &&& r is Publish ==> new.is_pending() && new.field_ids() == old.field_ids()
    }
    &&& !old.is_done() && !old.at_field() ==> {
        &&& schema_decision(old.current(), old.field_ids(), step_operation(r))
        &&& r is Reused ==> {
            let v = old.current().previous_schema_view->Some_0.view_id;
            &&& !new.is_pending()
            &&& new.schema_ids() == old.schema_ids().push(application_id(old.current().name, v))
            &&& new.view_ids() == old.view_ids().push(v)
            &&& new.field_ids().len() == 0
        }
        &&& r is Publish ==> {
            &&& new.is_pending()
            &&& new.schema_ids() == old.schema_ids()
            &&& new.view_ids() == old.view_ids()
            &&& new.field_ids() == old.field_ids()
        }
    }
}

/// Walks a diff list in order, field by field and schema by schema.
#[derive(Debug)]
pub struct Executor {
    diffs: Vec<SchemaDiff>,
    schema_ids: Vec<SchemaId>,
    view_ids: Vec<String>,
    field_view_ids: Vec<String>,
    pending: bool,
}

impl Executor {
    /// The diffs under execution.
    pub closed spec fn diffs(&self) -> Seq<SchemaDiff> {
        self.diffs@
    }

    /// Final identifiers of the schemas executed so far, in order.
    pub closed spec fn schema_ids(&self) -> Seq<SchemaId> {
        self.schema_ids@
    }

    /// View ids of the definition documents of the schemas executed so far.
    pub closed spec fn view_ids(&self) -> Seq<String> {
        self.view_ids@
    }

    /// View ids of the fields of the schema under execution resolved so far.
    pub closed spec fn field_ids(&self) -> Seq<String> {
        self.field_view_ids@
    }

    /// Whether an operation was handed out and awaits its entry hash.
    pub closed spec fn is_pending(&self) -> bool {
        self.pending
    }

    /// Position of the schema under execution.
    pub open spec fn cursor(&self) -> int {
        self.schema_ids().len() as int
    }

    /// Whether every schema is executed.
    pub open spec fn is_done(&self) -> bool {
        self.cursor() == self.diffs().len()
    }

    /// The schema under execution.
    pub open spec fn current(&self) -> SchemaDiff {
        self.diffs()[self.cursor()]
    }

    /// Whether the next entity is a field of the current schema (else the schema itself).
    pub open spec fn at_field(&self) -> bool {
        self.field_ids().len() < self.current().current_fields@.len()
    }

    /// The field under execution.
    pub open spec fn current_field(&self) -> FieldDiff {
        self.current().current_fields@[self.field_ids().len() as int]
    }

    /// The diffs' relations point back; each executed schema's identifier is its name with the
    /// view id it resolved to; the resolved fields belong to the schema under execution.
    pub open spec fn wf(&self) -> bool {
        &&& relations_point_back(self.diffs())
        &&& self.view_ids().len() == self.schema_ids().len()
        &&& self.cursor() <= self.diffs().len()
        &&& forall|i: int|
            0 <= i < self.cursor() ==> #[trigger] self.schema_ids()[i] == application_id(
                self.diffs()[i].name,
                self.view_ids()[i],
            )
        &&& !self.is_done() ==> self.field_ids().len() <= self.current().current_fields@.len()
        &&& self.is_done() ==> self.field_ids().len() == 0 && !self.is_pending()
    }

    /// Returns an executor at the start of a diff list whose relations point back.
    pub fn new(diffs: Vec<SchemaDiff>) -> (r: Executor)
        requires
            relations_point_back(diffs@),
        ensures
            r.wf(),
            r.diffs() == diffs@,
            r.schema_ids().len() == 0,
            r.field_ids().len() == 0,
            !r.is_pending(),
    {
        Executor {
            diffs,
            schema_ids: Vec::new(),
            view_ids: Vec::new(),
            field_view_ids: Vec::new(),
            pending: false,
        }
    }

    /// Looks at the next entity: reuses its previous view where nothing changed, else hands out
    /// the operation it needs.
    pub fn step(&mut self) -> (r: Step)
        requires
            old(self).wf(),
            !old(self).is_pending(),
        ensures
            final(self).wf(),
            final(self).diffs() == old(self).diffs(),
            r is Done <==> old(self).is_done(),
            r is Done ==> *final(self) == *old(self),
            step_spec(*old(self), *final(self), r),
    {
        let i = self.schema_ids.len();
        if i == self.diffs.len() {
            return Step::Done;
        }
        let k = self.field_view_ids.len();
        if k < self.diffs[i].current_fields.len() {
            let fd = &self.diffs[i].current_fields[k];
            proof {
                assert(relations_point_back(self.diffs@));
                assert(match self.diffs@[i as int].current_fields@[k as int].current_field_type {
                    FieldTypeDiff::Relation(_, y) => y < i,
                    _ => true,
                });
            }
            let t = resolve_field_type(&fd.current_field_type, &self.schema_ids);
            match field_operation(fd, &t) {
                None => {
                    let view_id = match &fd.previous_field_view {
                        Some(v) => v.view_id.clone(),
                        None => {
                            assert(false);
                            String::new()
                        },
                    };
                    self.field_view_ids.push(view_id);
                    Step::Reused
                },
                Some(op) => {
                    self.pending = true;
                    Step::Publish(op)
                },
            }
        } else {
            match schema_operation(&self.diffs[i], &self.field_view_ids) {
                None => {
                    let view_id = match &self.diffs[i].previous_schema_view {
                        Some(v) => v.view_id.clone(),
                        None => {
                            assert(false);
                            String::new()
                        },
                    };
                    let ghost before = self.schema_ids@;
                    self.schema_ids.push(SchemaId::Application(self.diffs[i].name.clone(), view_id.clone()));
                    self.view_ids.push(view_id);
                    self.field_view_ids = Vec::new();
                    proof {
                        assert forall|a: int| 0 <= a < self.cursor() implies #[trigger] self.schema_ids()[a]
                            == application_id(self.diffs()[a].name, self.view_ids()[a]) by {
                            if a < i {
                                assert(self.schema_ids()[a] == before[a]);
                            }
                        }
                    }
                    Step::Reused
                },
                Some(op) => {
                    self.pending = true;
                    Step::Publish(op)
                },
            }
        }
    }

    /// Takes the hash of the entry that carried the operation handed out last: it becomes the
    /// view id of the entity.
    pub fn complete(&mut self, entry_hash: String)
        requires
            old(self).wf(),
            old(self).is_pending(),
        ensures
            final(self).wf(),
            !final(self).is_pending(),
            final(self).diffs() == old(self).diffs(),
            old(self).at_field() ==> {
                &&& final(self).field_ids() == old(self).field_ids().push(entry_hash)
                &&& final(self).schema_ids() == old(self).schema_ids()
                &&& final(self).view_ids() == old(self).view_ids()
            },
            !old(self).at_field() ==> {
                &&& final(self).schema_ids() == old(self).schema_ids().push(application_id(old(self).current().name, entry_hash))
                &&& final(self).view_ids() == old(self).view_ids().push(entry_hash)
                &&& final(self).field_ids().len() == 0
            },
    {
        let i = self.schema_ids.len();
        let k = self.field_view_ids.len();
        self.pending = false;
        if k < self.diffs[i].current_fields.len() {
            self.field_view_ids.push(entry_hash);
        } else {
            let ghost before = self.schema_ids@;
            self.schema_ids.push(SchemaId::Application(self.diffs[i].name.clone(), entry_hash.clone()));
            self.view_ids.push(entry_hash);
            self.field_view_ids = Vec::new();
            proof {
                assert forall|a: int| 0 <= a < self.cursor() implies #[trigger] self.schema_ids()[a]
                    == application_id(self.diffs()[a].name, self.view_ids()[a]) by {
                    if a < i {
                        assert(self.schema_ids()[a] == before[a]);
                    }
                }
            }
        }
    }

    /// The executed schemas with their final identifiers, in execution order.
    pub fn plans(&self) -> (r: Vec<Plan>)
        ensures
            r@.len() == self.schema_ids().len(),
            forall|i: int|
                0 <= i < r@.len() ==> (#[trigger] r@[i]).id() == self.schema_ids()[i] && r@[i].diff_position() == i,
    {
        let mut plans: Vec<Plan> = Vec::new();
        let mut i: usize = 0;
        while i < self.schema_ids.len()
            invariant
                0 <= i <= self.schema_ids@.len(),
                plans@.len() == i,
                forall|j: int|
                    0 <= j < i ==> (#[trigger] plans@[j]).id() == self.schema_ids@[j] && plans@[j].diff_position() == j,
            decreases self.schema_ids@.len() - i,
        {
            plans.push(Plan::new(self.schema_ids[i].duplicate(), i));
            i = i + 1;
        }
        plans
    }

    /// The diffs under execution.
    pub fn diff_list(&self) -> (r: &Vec<SchemaDiff>)
        ensures
            r@ == self.diffs(),
    {
        &self.diffs
    }
}

} // verus!
