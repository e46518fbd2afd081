//! Properties of the reconciliation that hold for all inputs.
use vstd::prelude::*;

use crate::current::CurrentSchema;
use crate::diff::{FieldDiff, SchemaDiff, diff_matches, is_diff_of, previous_of};
use crate::executor::{Executor, Operation, Step, application_id, field_decision, resolve, schema_decision, step_spec};
use crate::diff::{FieldTypeDiff, relations_point_back};
use crate::graph::{depends_on, has_cycle, is_closed_set, is_declared, is_topological};
use crate::previous::{FieldView, PreviousSchema, ResolvedFieldType, SchemaView, is_previous_of, texts};
use crate::schema_file::SchemaId;

verus! {

/// In an accepted diff list, whenever the schema of one diff relates by name to the schema of
/// another, the diff of the target comes strictly first.
pub proof fn lemma_dependencies_come_first(
    cs: Seq<CurrentSchema>,
    prev: Seq<PreviousSchema>,
    diffs: Seq<SchemaDiff>,
    a: int,
    b: int,
)
    requires
        diffs.len() == cs.len(),
        is_diff_of(cs, prev, diffs),
        0 <= a < diffs.len(),
        0 <= b < diffs.len(),
        depends_on(cs, diffs[a].name@, diffs[b].name@),
    ensures
        b < a,
{
    let order = choose|order: Seq<usize>|
        is_topological(cs, order) && forall|x: int|
            0 <= x < diffs.len() ==> #[trigger] diff_matches(cs[order[x] as int], prev, diffs, x);
    assert(diff_matches(cs[order[a] as int], prev, diffs, a));
    assert(diff_matches(cs[order[b] as int], prev, diffs, b));
}

/// Two declared schemas that relate to each other by name form a cycle, which the differ
/// rejects with a cyclic-dependency error before any operation is decided.
pub proof fn lemma_mutual_relation_is_cycle(cs: Seq<CurrentSchema>, a: Seq<char>, b: Seq<char>)
    requires
        is_declared(cs, a),
        is_declared(cs, b),
        depends_on(cs, a, b),
        depends_on(cs, b, a),
    ensures
        has_cycle(cs),
{
    let s = Set::<Seq<char>>::empty().insert(a).insert(b);
    assert(s.contains(a));
    assert forall|n: Seq<char>| #[trigger] s.contains(n) implies is_declared(cs, n) by {}
    assert forall|n: Seq<char>| #[trigger] s.contains(n) implies exists|m: Seq<char>|
        s.contains(m) && depends_on(cs, n, m) by {
        if n == a {
            assert(s.contains(b));
        } else {
            assert(s.contains(a));
        }
    }
    assert(is_closed_set(cs, s));
}

/// Whether `op` updates a schema document following `previous` and sets its fields to `ids`.
pub open spec fn updates_schema_fields(op: Option<Operation>, previous: Seq<char>, ids: Seq<String>) -> bool {
    match op {
        Some(Operation::UpdateSchema { previous: p, fields: Some(f), .. }) => p@ == previous && f@ == ids,
        _ => false,
    }
}

/// Whether `op` updates a field document following `previous` to the type `t`.
pub open spec fn updates_field_type(op: Option<Operation>, previous: Seq<char>, t: ResolvedFieldType) -> bool {
    match op {
        Some(Operation::UpdateField { previous: p, field_type }) => p@ == previous && field_type == t,
        _ => false,
    }
}

/// Whether `op` creates a field document named `name` of type `t`.
pub open spec fn creates_field(op: Option<Operation>, name: Seq<char>, t: ResolvedFieldType) -> bool {
    match op {
        Some(Operation::CreateField { name: n, field_type }) => n@ == name && field_type == t,
        _ => false,
    }
}

/// Whether `op` creates a schema document named `name`.
pub open spec fn creates_schema(op: Option<Operation>, name: Seq<char>) -> bool {
    match op {
        Some(Operation::CreateSchema { name: n, .. }) => n@ == name,
        _ => false,
    }
}

/// The field view that the log holds after a field's operation, carried by an entry with hash
/// `h`, is published; without an operation the previous view stays.
pub open spec fn materialized_field(fd: FieldDiff, op: Option<Operation>, h: String) -> Option<FieldView> {
    match op {
        Some(Operation::CreateField { name, field_type }) => Some(FieldView { view_id: h, name, field_type }),
        Some(Operation::UpdateField { field_type, .. }) => match fd.previous_field_view {
            Some(v) => Some(FieldView { view_id: h, name: v.name, field_type }),
            None => None,
        },
        _ => fd.previous_field_view,
    }
}

/// The schema view that the log holds after a schema's operation, carried by an entry with hash
/// `h`, is published; without an operation the previous view stays.
pub open spec fn materialized_schema(sd: SchemaDiff, op: Option<Operation>, h: String) -> Option<SchemaView> {
    match op {
        Some(Operation::CreateSchema { name, description, fields }) => Some(
            SchemaView { view_id: h, name, description, fields },
        ),
        Some(Operation::UpdateSchema { description, fields, .. }) => match sd.previous_schema_view {
            Some(v) => Some(
                SchemaView {
                    view_id: h,
                    name: v.name,
                    description: match description {
                        Some(d) => d,
                        None => v.description,
                    },
                    fields: match fields {
                        Some(f) => f,
                        None => v.fields,
                    },
                },
            ),
            None => None,
        },
        _ => sd.previous_schema_view,
    }
}

/// Running again on a field after its decided operation was committed, with the same resolved
/// type, decides no operation, and the field resolves to the view id it got the first time.
pub proof fn lemma_field_rerun_is_noop(fd: FieldDiff, t: ResolvedFieldType, op: Option<Operation>, h: String)
    requires
        field_decision(fd, t, op),
    ensures
        ({
            let again = FieldDiff { previous_field_view: materialized_field(fd, op, h), ..fd };
            &&& field_decision(again, t, None)
            &&& again.previous_field_view matches Some(v) && v.view_id == (if op is Some {
                h
            } else {
                fd.previous_field_view->Some_0.view_id
            })
        }),
{
    lemma_field_type_same_reflexive(t);
}

proof fn lemma_field_type_same_reflexive(t: ResolvedFieldType)
    ensures
        t.same(t),
{
}

/// Running again on a schema after its decided operation was committed, with its fields
/// resolving to the same view ids, decides no operation, and the schema resolves to the view
/// id it got the first time.
pub proof fn lemma_schema_rerun_is_noop(sd: SchemaDiff, ids: Seq<String>, op: Option<Operation>, h: String)
    requires
        schema_decision(sd, ids, op),
    ensures
        ({
            let again = SchemaDiff { previous_schema_view: materialized_schema(sd, op, h), ..sd };
            &&& schema_decision(again, ids, None)
            &&& again.previous_schema_view matches Some(v) && v.view_id == (if op is Some {
                h
            } else {
                sd.previous_schema_view->Some_0.view_id
            })
        }),
{
}

/// When the schema a committed relation field points at got a new identifier, the field is
/// updated to the new identifier; a field without a previous version is created with it.
pub proof fn lemma_new_target_updates_field(
    fd: FieldDiff,
    t: ResolvedFieldType,
    op: Option<Operation>,
)
    requires
        field_decision(fd, t, op),
        t matches ResolvedFieldType::Relation(_, new_id),
        fd.previous_field_view matches Some(v) ==> (v.field_type matches ResolvedFieldType::Relation(_, old_id)
            && !old_id.same(t->Relation_1)),
    ensures
        fd.previous_field_view matches Some(v) ==> updates_field_type(op, v.view_id@, t),
        fd.previous_field_view is None ==> creates_field(op, fd.name@, t),
{
}

/// When a field of a committed schema resolves to a view id other than the one the schema
/// lists at that position, the schema is updated with the new list of view ids.
pub proof fn lemma_changed_field_updates_schema(sd: SchemaDiff, ids: Seq<String>, op: Option<Operation>, k: int)
    requires
        schema_decision(sd, ids, op),
        sd.previous_schema_view matches Some(v) && 0 <= k < ids.len() && (k >= v.fields@.len()
            || ids[k]@ != v.fields@[k]@),
    ensures
        updates_schema_fields(op, sd.previous_schema_view->Some_0.view_id@, ids),
{
    let v = sd.previous_schema_view->Some_0;
    if k >= v.fields@.len() {
        assert(texts(ids).len() != texts(v.fields@).len());
    } else {
        assert(texts(ids)[k] != texts(v.fields@)[k]);
    }
}

/// A declared schema without a previous version under its name gets a diff without previous
/// views, for itself and for every field.
pub proof fn lemma_new_schema_has_no_previous(
    cs: Seq<CurrentSchema>,
    prev: Seq<PreviousSchema>,
    diffs: Seq<SchemaDiff>,
    x: int,
)
    requires
        is_diff_of(cs, prev, diffs),
        0 <= x < diffs.len(),
        forall|i: int| !is_previous_of(prev, diffs[x].name@, i),
    ensures
        diffs[x].previous_schema_view is None,
        forall|k: int|
            0 <= k < diffs[x].current_fields@.len() ==> (#[trigger] diffs[x].current_fields@[k]).previous_field_view is None,
{
    let order = choose|order: Seq<usize>|
        is_topological(cs, order) && forall|y: int|
            0 <= y < diffs.len() ==> #[trigger] diff_matches(cs[order[y] as int], prev, diffs, y);
    assert(diff_matches(cs[order[x] as int], prev, diffs, x));
    assert(previous_of(prev, diffs[x].name@) is None);
    assert forall|k: int| 0 <= k < diffs[x].current_fields@.len() implies (
        #[trigger] diffs[x].current_fields@[k]).previous_field_view is None by {
        let c = cs[order[x] as int];
        assert(0 <= k < c.fields@.len());
    }
}

/// A schema without a previous version is created, never updated, and so is each of its fields
/// without a previous version: one create operation per entity.
pub proof fn lemma_new_entities_are_created(
    sd: SchemaDiff,
    ids: Seq<String>,
    schema_op: Option<Operation>,
    fd: FieldDiff,
    t: ResolvedFieldType,
    field_op: Option<Operation>,
)
    requires
        sd.previous_schema_view is None,
        fd.previous_field_view is None,
        schema_decision(sd, ids, schema_op),
        field_decision(fd, t, field_op),
    ensures
        creates_schema(schema_op, sd.name@),
        creates_field(field_op, fd.name@, t),
{
}

/// Dropping a field from a committed schema deletes nothing: the schema is updated to exactly
/// the view ids of the fields still declared, which leave out the dropped field's view id.
pub proof fn lemma_removed_field_is_left_out(sd: SchemaDiff, ids: Seq<String>, op: Option<Operation>, dropped: Seq<char>)
    requires
        schema_decision(sd, ids, op),
        sd.previous_schema_view matches Some(v) && texts(v.fields@).contains(dropped),
        !texts(ids).contains(dropped),
    ensures
        updates_schema_fields(op, sd.previous_schema_view->Some_0.view_id@, ids),
{
    let v = sd.previous_schema_view->Some_0;
    assert(texts(ids) != texts(v.fields@));
}


/// The identifiers the schemas of a diff list had before: each schema's name with the view id
/// of its previous definition.
pub open spec fn previous_ids(diffs: Seq<SchemaDiff>) -> Seq<SchemaId> {
    Seq::new(diffs.len(), |j: int| application_id(diffs[j].name, diffs[j].previous_schema_view->Some_0.view_id))
}

/// The view ids of the previous versions of a schema's fields.
pub open spec fn previous_field_ids(d: SchemaDiff) -> Seq<String> {
    Seq::new(d.current_fields@.len(), |k: int| d.current_fields@[k].previous_field_view->Some_0.view_id)
}

/// Whether the previous state already holds what a diff list declares: every schema and field
/// has a previous version; each field's previous type is its current type, with relations
/// resolved to the previous identifiers; each schema keeps its description and lists the
/// previous view ids of its fields.
pub open spec fn is_unchanged(diffs: Seq<SchemaDiff>) -> bool {
    forall|i: int|
        0 <= i < diffs.len() ==> {
            let d = #[trigger] diffs[i];
            &&& d.previous_schema_view is Some
            &&& d.current_description@ == d.previous_schema_view->Some_0.description@
            &&& texts(previous_field_ids(d)) == texts(d.previous_schema_view->Some_0.fields@)
            &&& forall|k: int|
                0 <= k < d.current_fields@.len() ==> {
                    &&& (#[trigger] d.current_fields@[k]).previous_field_view is Some
                    &&& d.current_fields@[k].previous_field_view->Some_0.field_type.same(
                        resolve(d.current_fields@[k].current_field_type, previous_ids(diffs)),
                    )
                }
        }
}

/// Whether an executor has resolved every entity so far to its previous view.
pub open spec fn follows_previous(e: Executor) -> bool {
    &&& forall|j: int| 0 <= j < e.cursor() ==> #[trigger] e.schema_ids()[j] == previous_ids(e.diffs())[j]
    &&& !e.is_done() ==> forall|k: int|
        0 <= k < e.field_ids().len() ==> #[trigger] e.field_ids()[k] == previous_field_ids(e.current())[k]
}

/// A fresh executor has resolved nothing yet, so it follows the previous views.
pub proof fn lemma_fresh_executor_follows_previous(e: Executor)
    requires
        e.schema_ids().len() == 0,
        e.field_ids().len() == 0,
    ensures
        follows_previous(e),
{
}

/// Running again on a diff list that the previous state already holds commits nothing: no
/// step hands out an operation, each entity reuses its previous view, and every schema keeps
/// its previous identifier.
pub proof fn lemma_unchanged_step_publishes_nothing(old: Executor, new: Executor, r: Step)
    requires
        old.wf(),
        !old.is_pending(),
        is_unchanged(old.diffs()),
        follows_previous(old),
        new.diffs() == old.diffs(),
        r is Done <==> old.is_done(),
        r is Done ==> new == old,
        step_spec(old, new, r),
    ensures
        !(r is Publish),
        !new.is_pending(),
        follows_previous(new),
{
    let diffs = old.diffs();
    if old.is_done() {
        return;
    }
    let i = old.cursor();
    let d = diffs[i];
    assert(is_unchanged(diffs));
    if old.at_field() {
        let k = old.field_ids().len() as int;
        let fd = d.current_fields@[k];
        assert(relations_point_back(diffs));
        assert(match diffs[i].current_fields@[k].current_field_type {
            FieldTypeDiff::Relation(_, y) => y < i,
            _ => true,
        });
        assert(resolve(fd.current_field_type, old.schema_ids()) == resolve(fd.current_field_type, previous_ids(diffs)));
        assert(fd.previous_field_view->Some_0.field_type.same(resolve(fd.current_field_type, previous_ids(diffs))));
        assert(!(r is Publish));
        assert forall|m: int| 0 <= m < new.field_ids().len() implies #[trigger] new.field_ids()[m]
            == previous_field_ids(new.current())[m] by {
            if m < k {
                assert(new.field_ids()[m] == old.field_ids()[m]);
            }
        }
    } else {
        let ids = old.field_ids();
        assert(ids =~= previous_field_ids(d)) by {
            assert forall|m: int| 0 <= m < ids.len() implies ids[m] == previous_field_ids(d)[m] by {}
        }
        assert(!(r is Publish));
        assert forall|j: int| 0 <= j < new.cursor() implies #[trigger] new.schema_ids()[j] == previous_ids(new.diffs())[j] by {
            if j < i {
                assert(new.schema_ids()[j] == old.schema_ids()[j]);
            }
        }
    }
}

} // verus!
