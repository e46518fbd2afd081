//! The differences between the declared schemas and the previously committed ones, in
//! dependency order.
use vstd::prelude::*;

use crate::current::{ConfigError, CurrentSchema, names_unique_current};
use crate::graph::{has_cycle, has_undeclared_target, is_declared, is_topological, lemma_covers, sort_schemas};
use crate::previous::{FieldView, PreviousSchema, PreviousSchemas, SchemaView, is_first_field, is_previous_of};
use crate::schema_file::{FieldType, RelationId, RelationType, SchemaField, SchemaId};

verus! {

/// Current type of a field.
#[derive(Debug, Clone, PartialEq, Eq)]
pub enum FieldTypeDiff {
    /// A scalar field type.
    Field(FieldType),
    /// A relation to a schema of the same declaration, given by the position of its diff.
    Relation(RelationType, usize),
    /// A relation to a schema that is not declared here.
    ExternalRelation(RelationType, SchemaId),
}

/// The previous and current version of a field.
#[derive(Debug, Clone, PartialEq, Eq)]
pub struct FieldDiff {
    /// Name of the field.
    pub name: String,
    /// Previous version of this field, if it existed.
    pub previous_field_view: Option<FieldView>,
    /// Current version of the field type.
    pub current_field_type: FieldTypeDiff,
}

/// The previous and current version of a schema; its field definitions are direct
/// dependencies of it.
#[derive(Debug, Clone, PartialEq, Eq)]
pub struct SchemaDiff {
    /// Name of the schema.
    pub name: String,
    /// Previous version of this schema, if it existed.
    pub previous_schema_view: Option<SchemaView>,
    /// Current description.
    pub current_description: String,
    /// Current fields, in declared order.
    pub current_fields: Vec<FieldDiff>,
}

/// The previous schema of the given name, if there is one.
pub open spec fn previous_of(prev: Seq<PreviousSchema>, name: Seq<char>) -> Option<PreviousSchema> {
    if exists|i: int| is_previous_of(prev, name, i) {
        Some(prev[choose|i: int| is_previous_of(prev, name, i)])
    } else {
        None
    }
}

/// Whether `v` is the view of the previous schema, if there is one.
pub open spec fn previous_schema_matches(p: Option<PreviousSchema>, v: Option<SchemaView>) -> bool {
    match (p, v) {
        (None, None) => true,
        (Some(p), Some(v)) => v.same(p.schema_view),
        _ => false,
    }
}

/// Whether `v` is the first field view of that name in the previous schema, if there is one.
pub open spec fn previous_field_matches(p: Option<PreviousSchema>, name: Seq<char>, v: Option<FieldView>) -> bool {
    match p {
        None => v is None,
        Some(p) => {
            ||| exists|i: int| is_first_field(p.schema_field_views@, name, i) && v == Some(p.schema_field_views@[i])
            ||| (v is None && forall|i: int|
                0 <= i < p.schema_field_views@.len() ==> #[trigger] p.schema_field_views@[i].name@ != name)
        },
    }
}

/// Whether `ft`, in the diff at position `x`, is the declared field type, with a relation by
/// name pointing at an earlier diff of that name.
pub open spec fn field_type_matches(declared: SchemaField, ft: FieldTypeDiff, diffs: Seq<SchemaDiff>, x: int) -> bool {
    match declared {
        SchemaField::Field { field_type } => ft == FieldTypeDiff::Field(field_type),
        SchemaField::Relation { field_type, schema } => match schema.id {
            RelationId::Name(n) => match ft {
                FieldTypeDiff::Relation(rt, y) => rt == field_type && y < x && diffs[y as int].name@ == n@,
                _ => false,
            },
            RelationId::Id(id) => ft == FieldTypeDiff::ExternalRelation(field_type, id),
        },
    }
}

/// Whether the diff at position `x` describes the declared schema `c` against the previous state.
pub open spec fn diff_matches(c: CurrentSchema, prev: Seq<PreviousSchema>, diffs: Seq<SchemaDiff>, x: int) -> bool {
    let d = diffs[x];
    &&& d.name@ == c.name@
    &&& d.current_description@ == c.description@
    &&& previous_schema_matches(previous_of(prev, c.name@), d.previous_schema_view)
    &&& d.current_fields@.len() == c.fields@.len()
    &&& forall|k: int|
        0 <= k < c.fields@.len() ==> {
            &&& (#[trigger] d.current_fields@[k]).name@ == c.fields@[k].0@
            &&& field_type_matches(c.fields@[k].1, d.current_fields@[k].current_field_type, diffs, x)
            &&& previous_field_matches(previous_of(prev, c.name@), c.fields@[k].0@, d.current_fields@[k].previous_field_view)
        }
}

/// Whether `diffs` describes the declared schemas in topological order.
pub open spec fn is_diff_of(cs: Seq<CurrentSchema>, prev: Seq<PreviousSchema>, diffs: Seq<SchemaDiff>) -> bool {
    exists|order: Seq<usize>|
        is_topological(cs, order) && forall|x: int|
            0 <= x < diffs.len() ==> #[trigger] diff_matches(cs[order[x] as int], prev, diffs, x)
}

/// Whether every relation of a diff list points at an earlier diff.
pub open spec fn relations_point_back(diffs: Seq<SchemaDiff>) -> bool {
    forall|x: int, k: int|
        0 <= x < diffs.len() && 0 <= k < diffs[x].current_fields@.len() ==> match (
        #[trigger] diffs[x].current_fields@[k]).current_field_type {
            FieldTypeDiff::Relation(_, y) => y < x,
            _ => true,
        }
}

/// Position of the diff with the given name among the first `upto`.
fn find_diff(diffs: &Vec<SchemaDiff>, name: &String, upto: usize) -> (r: Option<usize>)
    requires
        upto <= diffs@.len(),
    ensures
        match r {
            Some(y) => y < upto && diffs@[y as int].name@ == name@,
            None => forall|y: int| 0 <= y < upto ==> #[trigger] diffs@[y].name@ != name@,
        },
{
    let mut y: usize = 0;
    while y < upto
        invariant
            0 <= y <= upto <= diffs@.len(),
            forall|z: int| 0 <= z < y ==> #[trigger] diffs@[z].name@ != name@,
        decreases upto - y,
    {
        if diffs[y].name == *name {
            return Some(y);
        }
        y = y + 1;
    }
    None
}

/// The first field view with the given name, copied.
fn find_previous_field(views: &Vec<FieldView>, name: &String) -> (r: Option<FieldView>)
    ensures
        ({
            ||| exists|i: int| is_first_field(views@, name@, i) && r == Some(views@[i])
            ||| (r is None && forall|i: int| 0 <= i < views@.len() ==> #[trigger] views@[i].name@ != name@)
        }),
{
    let mut i: usize = 0;
    while i < views.len()
        invariant
            0 <= i <= views@.len(),
            forall|j: int| 0 <= j < i ==> #[trigger] views@[j].name@ != name@,
        decreases views@.len() - i,
    {
        if views[i].name == *name {
            assert(is_first_field(views@, name@, i as int));
            return Some(views[i].duplicate());
        }
        i = i + 1;
    }
    None
}


/// The previous view of the schema at position `pos`, if any, copied.
fn previous_view_at(previous_schemas: &PreviousSchemas, pos: Option<usize>) -> (r: Option<SchemaView>)
    requires
        pos matches Some(i) ==> i < previous_schemas@.len(),
    ensures
        match (pos, r) {
            (None, None) => true,
            (Some(i), Some(v)) => v.same(previous_schemas@[i as int].schema_view),
            _ => false,
        },
{
    match pos {
        Some(i) => Some(previous_schemas.at(i).schema_view.duplicate()),
        None => None,
    }
}

proof fn lemma_previous_of(prev: Seq<PreviousSchema>, name: Seq<char>, pos: Option<usize>)
    requires
        forall|a: int, b: int|
            0 <= a < b < prev.len() ==> #[trigger] prev[a].schema_view.name@ != #[trigger] prev[b].schema_view.name@,
        match pos {
            Some(i) => is_previous_of(prev, name, i as int),
            None => forall|i: int| !is_previous_of(prev, name, i),
        },
    ensures
        match pos {
            Some(i) => previous_of(prev, name) == Some(prev[i as int]),
            None => previous_of(prev, name) is None,
        },
{
    if let Some(i) = pos {
        let c = choose|c: int| is_previous_of(prev, name, c);
        if c < i {
            assert(prev[c].schema_view.name@ != prev[i as int].schema_view.name@);
        } else if c > i {
            assert(prev[i as int].schema_view.name@ != prev[c].schema_view.name@);
        }
    }
}

/// Gathers the differences between the previous and the declared schemas, one diff per declared
/// schema, in topological order: a relation by name points at the diff of its target, which
/// comes earlier.
pub fn get_diff(previous_schemas: &PreviousSchemas, current_schemas: &Vec<CurrentSchema>) -> (r: Result<Vec<SchemaDiff>, ConfigError>)
    requires
        previous_schemas.wf(),
        names_unique_current(current_schemas@),
    ensures
        r matches Err(ConfigError::UndeclaredDependency { .. }) <==> has_undeclared_target(current_schemas@),
        r matches Err(ConfigError::CyclicDependency) <==> !has_undeclared_target(current_schemas@) && has_cycle(current_schemas@),
        r matches Err(e) ==> (e is UndeclaredDependency || e is CyclicDependency),
        r matches Ok(diffs) ==> diffs@.len() == current_schemas@.len() && is_diff_of(current_schemas@, previous_schemas@, diffs@)
            && relations_point_back(diffs@),
{
    let cs = current_schemas;
    let order = match sort_schemas(cs) {
        Ok(order) => order,
        Err(e) => {
            return Err(e);
        },
    };
    let ghost prev = previous_schemas@;
    let n = cs.len();
    let mut diffs: Vec<SchemaDiff> = Vec::new();
    let mut x: usize = 0;
    while x < order.len()
        invariant
            is_topological(cs@, order@),
            names_unique_current(cs@),
            !has_undeclared_target(cs@),
            n == cs@.len(),
            previous_schemas.wf(),
            prev == previous_schemas@,
            0 <= x <= order@.len(),
            diffs@.len() == x,
            forall|z: int| 0 <= z < x ==> #[trigger] diff_matches(cs@[order@[z] as int], prev, diffs@, z),
            relations_point_back(diffs@),
        decreases order@.len() - x,
    {
        let j = order[x];
        let current = &cs[j];
        let pos = previous_schemas.position(&current.name);
        proof {
            lemma_previous_of(prev, current.name@, pos);
        }
        let fields = current.fields.iter();
        let mut field_diffs: Vec<FieldDiff> = Vec::new();
        let mut k: usize = 0;
        while k < fields.len()
            invariant
                is_topological(cs@, order@),
                !has_undeclared_target(cs@),
                n == cs@.len(),
                forall|z: int| 0 <= z < x ==> #[trigger] diff_matches(cs@[order@[z] as int], prev, diffs@, z),
                0 <= x < order@.len(),
                j == order@[x as int],
                *current == cs@[j as int],
                fields@ == current.fields@,
                diffs@.len() == x,
                previous_schemas.wf(),
                prev == previous_schemas@,
                match pos {
                    Some(i) => i < prev.len() && previous_of(prev, current.name@) == Some(prev[i as int]),
                    None => previous_of(prev, current.name@) is None,
                },
                0 <= k <= fields@.len(),
                field_diffs@.len() == k,
                forall|m: int|
                    0 <= m < k ==> {
                        &&& (#[trigger] field_diffs@[m]).name@ == fields@[m].0@
                        &&& field_type_matches(fields@[m].1, field_diffs@[m].current_field_type, diffs@, x as int)
                        &&& previous_field_matches(previous_of(prev, current.name@), fields@[m].0@, field_diffs@[m].previous_field_view)
                    },
            decreases fields@.len() - k,
        {
            let field_name = &fields[k].0;
            let current_field_type = match &fields[k].1 {
                SchemaField::Field { field_type } => FieldTypeDiff::Field(*field_type),
                SchemaField::Relation { field_type, schema } => match &schema.id {
                    RelationId::Name(target) => {
                        proof {
                            assert(cs@[j as int].fields@[k as int].1.target_name() == Some(target@));
                            assert(is_declared(cs@, target@));
                            let t = choose|t: int| 0 <= t < cs@.len() && #[trigger] cs@[t].name@ == target@;
                            lemma_covers(cs@, order@, t);
                            let y = choose|y: int| 0 <= y < order@.len() && order@[y] == t as usize;
                            assert(crate::graph::depends_on(cs@, cs@[order@[x as int] as int].name@, cs@[order@[y] as int].name@));
                            assert(y < x);
                            assert(diff_matches(cs@[order@[y] as int], prev, diffs@, y));
                        }
                        match find_diff(&diffs, target, x) {
                            Some(y) => FieldTypeDiff::Relation(*field_type, y),
                            None => {
                                assert(false);
                                return Err(ConfigError::CyclicDependency);
                            },
                        }
                    },
                    RelationId::Id(id) => FieldTypeDiff::ExternalRelation(*field_type, id.duplicate()),
                },
            };
            let previous_field_view = match pos {
                Some(i) => find_previous_field(&previous_schemas.at(i).schema_field_views, field_name),
                None => None,
            };
            field_diffs.push(FieldDiff { name: field_name.clone(), previous_field_view, current_field_type });
            k = k + 1;
        }
        let previous_schema_view = previous_view_at(previous_schemas, pos);
        let ghost old_diffs = diffs@;
        diffs.push(
            SchemaDiff {
                name: current.name.clone(),
                previous_schema_view,
                current_description: current.description.clone(),
                current_fields: field_diffs,
            },
        );
        proof {
            assert forall|z: int| 0 <= z < x + 1 implies #[trigger] diff_matches(cs@[order@[z] as int], prev, diffs@, z) by {
                if z < x {
                    assert(diff_matches(cs@[order@[z] as int], prev, old_diffs, z));
                    assert(diffs@[z] == old_diffs[z]);
                    let c = cs@[order@[z] as int];
                    assert forall|k: int| 0 <= k < c.fields@.len() implies field_type_matches(
                        c.fields@[k].1, diffs@[z].current_fields@[k].current_field_type, diffs@, z) by {
                        assert(field_type_matches(c.fields@[k].1, old_diffs[z].current_fields@[k].current_field_type, old_diffs, z));
                    }
                } else {
                    let c = cs@[order@[z] as int];
                    assert forall|k: int| 0 <= k < c.fields@.len() implies field_type_matches(
                        c.fields@[k].1, diffs@[z].current_fields@[k].current_field_type, diffs@, z) by {
                        assert(field_type_matches(fields@[k].1, field_diffs@[k].current_field_type, old_diffs, x as int));
                    }
                }
            }
            assert forall|a: int, k: int|
                0 <= a < diffs@.len() && 0 <= k < diffs@[a].current_fields@.len() implies match (
                #[trigger] diffs@[a].current_fields@[k]).current_field_type {
                    FieldTypeDiff::Relation(_, y) => y < a,
                    _ => true,
                } by {
                if a == x {
                    assert(field_type_matches(fields@[k].1, field_diffs@[k].current_field_type, old_diffs, x as int));
                } else {
                    assert(diffs@[a] == old_diffs[a]);
                }
            }
        }
        x = x + 1;
    }
    proof {
        assert(is_diff_of(cs@, prev, diffs@)) by {
            assert(forall|z: int| 0 <= z < diffs@.len() ==> #[trigger] diff_matches(cs@[order@[z] as int], prev, diffs@, z));
        }
    }
    Ok(diffs)
}

} // verus!
