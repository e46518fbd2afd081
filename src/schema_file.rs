//! The declaration of schemas, as read from the schema file.
use vstd::prelude::*;

verus! {

/// Scalar type of a schema field.
#[derive(Debug, Clone, Copy, PartialEq, Eq, Structural)]
pub enum FieldType {
    Boolean,
    Float,
    Integer,
    String,
    Bytes,
}

/// Kind of a relation field.
#[derive(Debug, Clone, Copy, PartialEq, Eq, Structural)]
pub enum RelationType {
    Relation,
    RelationList,
    PinnedRelation,
    PinnedRelationList,
}

/// Identifier of a schema: an application schema is named and pinned to the view of its
/// definition document, system schemas carry their version.
#[derive(Debug, Clone, PartialEq, Eq)]
pub enum SchemaId {
    Application(String, String),
    SchemaDefinition(u8),
    SchemaFieldDefinition(u8),
}

impl SchemaId {
    /// Whether two identifiers denote the same schema.
    pub open spec fn same(self, other: SchemaId) -> bool {
        match (self, other) {
            (SchemaId::Application(n1, v1), SchemaId::Application(n2, v2)) => n1@ == n2@ && v1@
                == v2@,
            (SchemaId::SchemaDefinition(a), SchemaId::SchemaDefinition(b)) => a == b,
            (SchemaId::SchemaFieldDefinition(a), SchemaId::SchemaFieldDefinition(b)) => a == b,
            _ => false,
        }
    }

    /// Returns an identical identifier.
    pub fn duplicate(&self) -> (r: SchemaId)
        ensures
            r == *self,
    {
        match self {
            SchemaId::Application(n, v) => SchemaId::Application(n.clone(), v.clone()),
            SchemaId::SchemaDefinition(x) => SchemaId::SchemaDefinition(*x),
            SchemaId::SchemaFieldDefinition(x) => SchemaId::SchemaFieldDefinition(*x),
        }
    }

    /// Compares two identifiers.
    pub fn equals(&self, other: &SchemaId) -> (r: bool)
        ensures
            r == self.same(*other),
    {
        match (self, other) {
            (SchemaId::Application(n1, v1), SchemaId::Application(n2, v2)) => *n1 == *n2 && *v1
                == *v2,
            (SchemaId::SchemaDefinition(a), SchemaId::SchemaDefinition(b)) => *a == *b,
            (SchemaId::SchemaFieldDefinition(a), SchemaId::SchemaFieldDefinition(b)) => *a == *b,
            _ => false,
        }
    }
}

impl SchemaId {
    /// Name of the schema an identifier denotes.
    pub open spec fn name_spec(self) -> Seq<char> {
        match self {
            SchemaId::Application(n, _) => n@,
            SchemaId::SchemaDefinition(_) => "schema_definition"@,
            SchemaId::SchemaFieldDefinition(_) => "schema_field_definition"@,
        }
    }

    /// Returns the name of the schema the identifier denotes.
    pub fn name(&self) -> (r: String)
        ensures
            r@ == self.name_spec(),
    {
        match self {
            SchemaId::Application(n, _) => n.clone(),
            SchemaId::SchemaDefinition(_) => "schema_definition".to_owned(),
            SchemaId::SchemaFieldDefinition(_) => "schema_field_definition".to_owned(),
        }
    }
}

/// How the schema file writes a scalar type.
pub open spec fn scalar_label(t: FieldType) -> Seq<char> {
    match t {
        FieldType::Boolean => "bool"@,
        FieldType::Float => "float"@,
        FieldType::Integer => "int"@,
        FieldType::String => "str"@,
        FieldType::Bytes => "bytes"@,
    }
}

/// How the schema file writes a relation type.
pub open spec fn relation_label(t: RelationType) -> Seq<char> {
    match t {
        RelationType::Relation => "relation"@,
        RelationType::RelationList => "relation_list"@,
        RelationType::PinnedRelation => "pinned_relation"@,
        RelationType::PinnedRelationList => "pinned_relation_list"@,
    }
}

fn scalar_text(t: FieldType) -> (r: String)
    ensures
        r@ == scalar_label(t),
{
    match t {
        FieldType::Boolean => "bool".to_owned(),
        FieldType::Float => "float".to_owned(),
        FieldType::Integer => "int".to_owned(),
        FieldType::String => "str".to_owned(),
        FieldType::Bytes => "bytes".to_owned(),
    }
}

fn relation_text(t: RelationType) -> (r: String)
    ensures
        r@ == relation_label(t),
{
    match t {
        RelationType::Relation => "relation".to_owned(),
        RelationType::RelationList => "relation_list".to_owned(),
        RelationType::PinnedRelation => "pinned_relation".to_owned(),
        RelationType::PinnedRelationList => "pinned_relation_list".to_owned(),
    }
}

/// Where a schema that a relation points at is defined.
#[derive(Debug, Clone, PartialEq, Eq)]
pub enum RelationSource {
    /// Cloneable git repository URL.
    Git(String),
    /// File system path on the local machine.
    Path(String),
}

impl RelationSource {
    /// Returns an identical source.
    pub fn duplicate(&self) -> (r: RelationSource)
        ensures
            r == *self,
    {
        match self {
            RelationSource::Git(s) => RelationSource::Git(s.clone()),
            RelationSource::Path(s) => RelationSource::Path(s.clone()),
        }
    }
}

/// How a relation names the schema it points at.
#[derive(Debug, Clone, PartialEq, Eq)]
pub enum RelationId {
    /// Identifier of a schema defined elsewhere.
    Id(SchemaId),
    /// Name of a schema declared in the same file.
    Name(String),
}

impl RelationId {
    /// Returns an identical reference.
    pub fn duplicate(&self) -> (r: RelationId)
        ensures
            r == *self,
    {
        match self {
            RelationId::Id(id) => RelationId::Id(id.duplicate()),
            RelationId::Name(n) => RelationId::Name(n.clone()),
        }
    }
}

/// The schema used by a relation field.
#[derive(Debug, Clone, PartialEq, Eq)]
pub struct RelationSchema {
    pub id: RelationId,
    pub external: Option<RelationSource>,
}

impl RelationSchema {
    /// Returns an identical relation schema.
    pub fn duplicate(&self) -> (r: RelationSchema)
        ensures
            r == *self,
    {
        let external = match &self.external {
            Some(s) => Some(s.duplicate()),
            None => None,
        };
        RelationSchema { id: self.id.duplicate(), external }
    }
}

/// Definition of a single schema field.
#[derive(Debug, Clone, PartialEq, Eq)]
pub enum SchemaField {
    /// A scalar field.
    Field { field_type: FieldType },
    /// A (pinned) relation or relation list.
    Relation { field_type: RelationType, schema: RelationSchema },
}

impl SchemaField {
    /// Name of the declared schema this field relates to, if it relates to one by name.
    pub open spec fn target_name(self) -> Option<Seq<char>> {
        match self {
            SchemaField::Relation { schema, .. } => match schema.id {
                RelationId::Name(n) => Some(n@),
                RelationId::Id(_) => None,
            },
            SchemaField::Field { .. } => None,
        }
    }

    /// The field's type as the schema file writes it, a relation with its target's name:
    /// `str`, `relation(venue)`.
    pub open spec fn label(self) -> Seq<char> {
        match self {
            SchemaField::Field { field_type } => scalar_label(field_type),
            SchemaField::Relation { field_type, schema } => {
                let target = match schema.id {
                    RelationId::Name(n) => n@,
                    RelationId::Id(id) => id.name_spec(),
                };
                relation_label(field_type) + "("@ + target + ")"@
            },
        }
    }

    /// Returns the field's type as the schema file writes it.
    pub fn to_string(&self) -> (r: String)
        ensures
            r@ == self.label(),
    {
        match self {
            SchemaField::Field { field_type } => scalar_text(*field_type),
            SchemaField::Relation { field_type, schema } => {
                let target = match &schema.id {
                    RelationId::Name(n) => n.clone(),
                    RelationId::Id(id) => id.name(),
                };
                let s = relation_text(*field_type).concat("(");
                let s = s.concat(target.as_str());
                s.concat(")")
            },
        }
    }

    /// Returns an identical field definition.
    pub fn duplicate(&self) -> (r: SchemaField)
        ensures
            r == *self,
    {
        match self {
            SchemaField::Field { field_type } => SchemaField::Field { field_type: *field_type },
            SchemaField::Relation { field_type, schema } => SchemaField::Relation {
                field_type: *field_type,
                schema: schema.duplicate(),
            },
        }
    }
}

/// Names of the entries of a list of named items.
pub open spec fn entry_names<T>(entries: Seq<(String, T)>) -> Seq<Seq<char>> {
    entries.map_values(|e: (String, T)| e.0@)
}

/// Whether no two entries of a list of named items share a name.
pub open spec fn names_unique<T>(entries: Seq<(String, T)>) -> bool {
    forall|i: int, j: int|
        0 <= i < j < entries.len() ==> #[trigger] entries[i].0@ != #[trigger] entries[j].0@
}

/// Position of the entry with the given name, if there is one.
pub fn find_entry<T>(entries: &Vec<(String, T)>, name: &String) -> (r: Option<usize>)
    ensures
        match r {
            Some(i) => i < entries@.len() && entries@[i as int].0@ == name@,
            None => forall|j: int| 0 <= j < entries@.len() ==> #[trigger] entries@[j].0@ != name@,
        },
{
    let mut i: usize = 0;
    while i < entries.len()
        invariant
            0 <= i <= entries@.len(),
            forall|j: int| 0 <= j < i ==> #[trigger] entries@[j].0@ != name@,
        decreases entries@.len() - i,
    {
        if entries[i].0 == *name {
            return Some(i);
        }
        i = i + 1;
    }
    None
}

/// Ordered mapping from field names to field definitions; each name occurs once.
#[derive(Debug, Clone, PartialEq, Eq)]
pub struct SchemaFields {
    entries: Vec<(String, SchemaField)>,
}

impl View for SchemaFields {
    type V = Seq<(String, SchemaField)>;

    closed spec fn view(&self) -> Seq<(String, SchemaField)> {
        self.entries@
    }
}

impl SchemaFields {
    /// Each field name occurs once.
    pub open spec fn wf(&self) -> bool {
        names_unique(self@)
    }

    /// Returns a new empty mapping.
    pub fn new() -> (r: SchemaFields)
        ensures
            r@ == Seq::<(String, SchemaField)>::empty(),
            r.wf(),
    {
        SchemaFields { entries: Vec::new() }
    }

    /// Returns the number of fields.
    pub fn len(&self) -> (r: usize)
        ensures
            r == self@.len(),
    {
        self.entries.len()
    }

    /// Inserts a field: a field of that name is replaced in place, a new name goes last.
    pub fn insert(&mut self, field_name: &String, field: &SchemaField)
        requires
            old(self).wf(),
        ensures
            final(self).wf(),
            ({
                let i = choose|i: int| 0 <= i < old(self)@.len() && old(self)@[i].0@ == field_name@;
                if exists|i: int| 0 <= i < old(self)@.len() && old(self)@[i].0@ == field_name@ {
                    final(self)@ == old(self)@.update(i, (*field_name, *field))
                } else {
                    final(self)@ == old(self)@.push((*field_name, *field))
                }
            }),
    {
        let mut i: usize = 0;
        while i < self.entries.len()
            invariant
                0 <= i <= self.entries.len(),
                self.entries@ == old(self).entries@,
                names_unique(old(self)@),
                forall|j: int| 0 <= j < i ==> self.entries@[j].0@ != field_name@,
            decreases self.entries.len() - i,
        {
            if self.entries[i].0 == *field_name {
                self.entries.set(i, (field_name.clone(), field.duplicate()));
                proof {
                    assert(old(self)@[i as int].0@ == field_name@);
                    let j = choose|j: int|
                        0 <= j < old(self)@.len() && old(self)@[j].0@ == field_name@;
                    if j != i {
                        assert(names_unique(old(self)@));
                        if j < i {
                            assert(old(self)@[j].0@ != old(self)@[i as int].0@);
                        } else {
                            assert(old(self)@[i as int].0@ != old(self)@[j].0@);
                        }
                    }
                    assert(self@ =~= old(self)@.update(i as int, (*field_name, *field)));
                    assert(forall|a: int| 0 <= a < self@.len() ==> #[trigger] self@[a].0@ == old(self)@[a].0@);
                }
                return;
            }
            i = i + 1;
        }
        self.entries.push((field_name.clone(), field.duplicate()));
    }

    /// Returns an identical mapping.
    pub fn duplicate(&self) -> (r: SchemaFields)
        ensures
            r@ == self@,
    {
        let mut entries: Vec<(String, SchemaField)> = Vec::new();
        let mut i: usize = 0;
        while i < self.entries.len()
            invariant
                0 <= i <= self.entries@.len(),
                entries@ == self.entries@.subrange(0, i as int),
            decreases self.entries@.len() - i,
        {
            entries.push((self.entries[i].0.clone(), self.entries[i].1.duplicate()));
            assert(entries@ =~= self.entries@.subrange(0, i + 1));
            i = i + 1;
        }
        assert(entries@ =~= self.entries@);
        SchemaFields { entries }
    }

    /// Returns all fields in order.
    pub fn iter(&self) -> (r: &Vec<(String, SchemaField)>)
        ensures
            r@ == self@,
    {
        &self.entries
    }
}

/// Single schema definition with its description and fields.
#[derive(Debug, Clone, PartialEq, Eq)]
pub struct SchemaDefinition {
    pub description: String,
    pub fields: SchemaFields,
}

/// Definitions of one to many schemas, ordered, each under a distinct name.
#[derive(Debug, Clone, PartialEq, Eq)]
pub struct SchemaFile {
    schemas: Vec<(String, SchemaDefinition)>,
}

impl View for SchemaFile {
    type V = Seq<(String, SchemaDefinition)>;

    closed spec fn view(&self) -> Seq<(String, SchemaDefinition)> {
        self.schemas@
    }
}

impl SchemaFile {
    /// Each schema name occurs once.
    pub open spec fn wf(&self) -> bool {
        names_unique(self@)
    }

    /// Returns a file without schemas.
    pub fn new() -> (r: SchemaFile)
        ensures
            r@ == Seq::<(String, SchemaDefinition)>::empty(),
            r.wf(),
    {
        SchemaFile { schemas: Vec::new() }
    }

    /// Adds a schema definition under a name that the file does not hold yet.
    pub fn insert(&mut self, name: String, definition: SchemaDefinition) -> (r: bool)
        requires
            old(self).wf(),
        ensures
            final(self).wf(),
            r == !entry_names(old(self)@).contains(name@),
            r ==> final(self)@ == old(self)@.push((name, definition)),
            !r ==> final(self)@ == old(self)@,
    {
        match find_entry(&self.schemas, &name) {
            Some(i) => {
                assert(entry_names(old(self)@)[i as int] == name@);
                false
            },
            None => {
                proof {
                    if entry_names(old(self)@).contains(name@) {
                        let j = choose|j: int|
                            0 <= j < entry_names(old(self)@).len() && entry_names(old(self)@)[j]
                                == name@;
                        assert(old(self)@[j].0@ == name@);
                    }
                }
                self.schemas.push((name, definition));
                true
            },
        }
    }

    /// Returns all schema definitions in order.
    pub fn iter(&self) -> (r: &Vec<(String, SchemaDefinition)>)
        ensures
            r@ == self@,
    {
        &self.schemas
    }
}

} // verus!
