//! The previously committed schema and field documents, as materialized from the ledger.
use vstd::prelude::*;

use crate::schema_file::{FieldType, RelationType, SchemaId};

verus! {

/// The type of a committed field: a scalar, or a relation to a concrete schema.
#[derive(Debug, Clone, PartialEq, Eq)]
pub enum ResolvedFieldType {
    Scalar(FieldType),
    Relation(RelationType, SchemaId),
}

impl ResolvedFieldType {
    /// Whether two field types are the same.
    pub open spec fn same(self, other: ResolvedFieldType) -> bool {
        match (self, other) {
            (ResolvedFieldType::Scalar(a), ResolvedFieldType::Scalar(b)) => a == b,
            (ResolvedFieldType::Relation(r1, s1), ResolvedFieldType::Relation(r2, s2)) => r1 == r2
                && s1.same(s2),
            _ => false,
        }
    }

    /// Returns an identical field type.
    pub fn duplicate(&self) -> (r: ResolvedFieldType)
        ensures
            r == *self,
    {
        match self {
            ResolvedFieldType::Scalar(t) => ResolvedFieldType::Scalar(*t),
            ResolvedFieldType::Relation(rt, id) => ResolvedFieldType::Relation(*rt, id.duplicate()),
        }
    }

    /// Compares two field types.
    pub fn equals(&self, other: &ResolvedFieldType) -> (r: bool)
        ensures
            r == self.same(*other),
    {
        match (self, other) {
            (ResolvedFieldType::Scalar(a), ResolvedFieldType::Scalar(b)) => *a == *b,
            (ResolvedFieldType::Relation(r1, s1), ResolvedFieldType::Relation(r2, s2)) => *r1 == *r2
                && s1.equals(s2),
            _ => false,
        }
    }
}

/// A committed field definition document at one of its views.
#[derive(Debug, Clone, PartialEq, Eq)]
pub struct FieldView {
    pub view_id: String,
    pub name: String,
    pub field_type: ResolvedFieldType,
}

impl FieldView {
    /// Returns an identical view.
    pub fn duplicate(&self) -> (r: FieldView)
        ensures
            r == *self,
    {
        FieldView {
            view_id: self.view_id.clone(),
            name: self.name.clone(),
            field_type: self.field_type.duplicate(),
        }
    }
}

/// The text of each string of a list.
pub open spec fn texts(v: Seq<String>) -> Seq<Seq<char>> {
    v.map_values(|s: String| s@)
}

/// Returns a list with the same strings.
pub fn copy_strings(v: &Vec<String>) -> (r: Vec<String>)
    ensures
        r@ == v@,
{
    let mut r: Vec<String> = Vec::new();
    let mut i: usize = 0;
    while i < v.len()
        invariant
            0 <= i <= v@.len(),
            r@ == v@.subrange(0, i as int),
        decreases v@.len() - i,
    {
        r.push(v[i].clone());
        assert(r@ =~= v@.subrange(0, i + 1));
        i = i + 1;
    }
    assert(r@ =~= v@);
    r
}

/// Compares two lists of strings item by item.
pub fn same_strings(a: &Vec<String>, b: &Vec<String>) -> (r: bool)
    ensures
        r == (texts(a@) == texts(b@)),
{
    if a.len() != b.len() {
        assert(texts(a@).len() != texts(b@).len());
        return false;
    }
    let mut i: usize = 0;
    while i < a.len()
        invariant
            0 <= i <= a@.len(),
            a@.len() == b@.len(),
            forall|j: int| 0 <= j < i ==> #[trigger] a@[j]@ == b@[j]@,
        decreases a@.len() - i,
    {
        if a[i] != b[i] {
            assert(texts(a@)[i as int] != texts(b@)[i as int]);
            return false;
        }
        i = i + 1;
    }
    assert(texts(a@) =~= texts(b@));
    true
}

/// A committed schema definition document at one of its views.
#[derive(Debug, Clone, PartialEq, Eq)]
pub struct SchemaView {
    pub view_id: String,
    pub name: String,
    pub description: String,
    /// View ids of the schema's field definitions, in order.
    pub fields: Vec<String>,
}

impl SchemaView {
    /// Whether two views hold the same values.
    pub open spec fn same(self, other: SchemaView) -> bool {
        &&& self.view_id == other.view_id
        &&& self.name == other.name
        &&& self.description == other.description
        &&& self.fields@ == other.fields@
    }

    /// Returns a view with the same values.
    pub fn duplicate(&self) -> (r: SchemaView)
        ensures
            r.same(*self),
    {
        SchemaView {
            view_id: self.view_id.clone(),
            name: self.name.clone(),
            description: self.description.clone(),
            fields: copy_strings(&self.fields),
        }
    }
}

/// A materialized schema the user committed before: its definition and its field definitions.
#[derive(Debug, Clone, PartialEq, Eq)]
pub struct PreviousSchema {
    pub schema_view: SchemaView,
    pub schema_field_views: Vec<FieldView>,
}

impl PreviousSchema {
    /// Returns a new previous schema from its views.
    pub fn new(schema_view: &SchemaView, schema_field_views: &Vec<FieldView>) -> (r: PreviousSchema)
        ensures
            r.schema_view.same(*schema_view),
            r.schema_field_views@ == schema_field_views@,
    {
        let mut views: Vec<FieldView> = Vec::new();
        let mut i: usize = 0;
        while i < schema_field_views.len()
            invariant
                0 <= i <= schema_field_views@.len(),
                views@ == schema_field_views@.subrange(0, i as int),
            decreases schema_field_views@.len() - i,
        {
            views.push(schema_field_views[i].duplicate());
            assert(views@ =~= schema_field_views@.subrange(0, i + 1));
            i = i + 1;
        }
        assert(views@ =~= schema_field_views@);
        PreviousSchema { schema_view: schema_view.duplicate(), schema_field_views: views }
    }
}

/// Whether the previous schema with this name is the one at position `i`.
pub open spec fn is_previous_of(prev: Seq<PreviousSchema>, name: Seq<char>, i: int) -> bool {
    0 <= i < prev.len() && prev[i].schema_view.name@ == name
}

/// Position of the first field view with the given name.
pub open spec fn is_first_field(views: Seq<FieldView>, name: Seq<char>, i: int) -> bool {
    &&& 0 <= i < views.len()
    &&& views[i].name@ == name
    &&& forall|j: int| 0 <= j < i ==> #[trigger] views[j].name@ != name
}

/// Materialized schemas keyed by name: each name occurs once.
#[derive(Debug, Clone, PartialEq, Eq)]
pub struct PreviousSchemas {
    schemas: Vec<PreviousSchema>,
}

impl View for PreviousSchemas {
    type V = Seq<PreviousSchema>;

    closed spec fn view(&self) -> Seq<PreviousSchema> {
        self.schemas@
    }
}

impl PreviousSchemas {
    /// Each schema name occurs once.
    pub open spec fn wf(&self) -> bool {
        forall|a: int, b: int|
            0 <= a < b < self@.len() ==> #[trigger] self@[a].schema_view.name@
                != #[trigger] self@[b].schema_view.name@
    }

    /// Returns a map without schemas.
    pub fn new() -> (r: PreviousSchemas)
        ensures
            r@ == Seq::<PreviousSchema>::empty(),
            r.wf(),
    {
        PreviousSchemas { schemas: Vec::new() }
    }

    /// Adds a schema under its name; one of the same name is replaced.
    pub fn insert(&mut self, schema: PreviousSchema)
        requires
            old(self).wf(),
        ensures
            final(self).wf(),
            exists|i: int| is_previous_of(final(self)@, schema.schema_view.name@, i) && final(self)@[i] == schema,
            forall|n: Seq<char>, i: int|
                n != schema.schema_view.name@ ==> (is_previous_of(final(self)@, n, i) ==> exists|j: int|
                    is_previous_of(old(self)@, n, j) && old(self)@[j] == final(self)@[i]),
            forall|n: Seq<char>, j: int|
                n != schema.schema_view.name@ ==> (is_previous_of(old(self)@, n, j) ==> exists|i: int|
                    is_previous_of(final(self)@, n, i) && old(self)@[j] == final(self)@[i]),
    {
        let mut i: usize = 0;
        while i < self.schemas.len()
            invariant
                0 <= i <= self.schemas@.len(),
                self.schemas@ == old(self).schemas@,
                old(self).wf(),
                forall|j: int| 0 <= j < i ==> #[trigger] self.schemas@[j].schema_view.name@ != schema.schema_view.name@,
            decreases self.schemas@.len() - i,
        {
            if self.schemas[i].schema_view.name == schema.schema_view.name {
                let ghost idx = i as int;
                self.schemas.set(i, schema);
                proof {
                    assert(is_previous_of(self@, self@[idx].schema_view.name@, idx));
                    assert forall|n: Seq<char>, a: int|
                        n != self@[idx].schema_view.name@ && #[trigger] is_previous_of(self@, n, a) implies exists|j: int|
                            is_previous_of(old(self)@, n, j) && old(self)@[j] == self@[a] by {
                        assert(is_previous_of(old(self)@, n, a));
                    }
                    assert forall|n: Seq<char>, j: int|
                        n != self@[idx].schema_view.name@ && #[trigger] is_previous_of(old(self)@, n, j) implies exists|a: int|
                            is_previous_of(self@, n, a) && old(self)@[j] == self@[a] by {
                        assert(is_previous_of(self@, n, j));
                    }
                }
                return;
            }
            i = i + 1;
        }
        let ghost idx = self.schemas@.len() as int;
        self.schemas.push(schema);
        proof {
            assert(is_previous_of(self@, schema.schema_view.name@, idx));
            assert forall|n: Seq<char>, a: int|
                n != schema.schema_view.name@ && #[trigger] is_previous_of(self@, n, a) implies exists|j: int|
                    is_previous_of(old(self)@, n, j) && old(self)@[j] == self@[a] by {
                assert(is_previous_of(old(self)@, n, a));
            }
            assert forall|n: Seq<char>, j: int|
                n != schema.schema_view.name@ && #[trigger] is_previous_of(old(self)@, n, j) implies exists|a: int|
                    is_previous_of(self@, n, a) && old(self)@[j] == self@[a] by {
                assert(is_previous_of(self@, n, j));
            }
        }
    }

    /// Position of the schema with the given name, if there is one.
    pub fn position(&self, name: &String) -> (r: Option<usize>)
        ensures
            match r {
                Some(i) => is_previous_of(self@, name@, i as int),
                None => forall|i: int| !is_previous_of(self@, name@, i),
            },
    {
        let mut i: usize = 0;
        while i < self.schemas.len()
            invariant
                0 <= i <= self.schemas@.len(),
                forall|j: int| 0 <= j < i ==> #[trigger] self.schemas@[j].schema_view.name@ != name@,
            decreases self.schemas@.len() - i,
        {
            if self.schemas[i].schema_view.name == *name {
                return Some(i);
            }
            i = i + 1;
        }
        None
    }

    /// The schema at a position.
    pub fn at(&self, i: usize) -> (r: &PreviousSchema)
        requires
            i < self@.len(),
        ensures
            *r == self@[i as int],
    {
        &self.schemas[i]
    }

    /// Number of schemas.
    pub fn len(&self) -> (r: usize)
        ensures
            r == self@.len(),
    {
        self.schemas.len()
    }
}

} // verus!
