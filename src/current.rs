//! The schemas as currently declared, checked before any reconciliation starts.
use vstd::prelude::*;

use crate::schema_file::{SchemaDefinition, SchemaFields, SchemaFile, names_unique};

verus! {

/// A configuration that no reconciliation can start from.
#[derive(Debug, Clone, PartialEq, Eq)]
pub enum ConfigError {
    /// The declaration holds no schema.
    EmptyDeclaration,
    /// A schema name does not follow the naming rules.
    InvalidSchemaName { schema: String },
    /// A field name does not follow the naming rules.
    InvalidFieldName { schema: String, field: String },
    /// A schema declares no field.
    NoFields { schema: String },
    /// A relation names a schema that the declaration does not hold.
    UndeclaredDependency { schema: String, target: String },
    /// Relations by name form a cycle.
    CyclicDependency,
}

/// An ASCII letter.
pub open spec fn is_ascii_letter(c: char) -> bool {
    (65 <= c as u32 <= 90) || (97 <= c as u32 <= 122)
}

/// An ASCII letter or digit.
pub open spec fn is_ascii_alphanumeric(c: char) -> bool {
    is_ascii_letter(c) || (48 <= c as u32 <= 57)
}

/// An ASCII letter, digit or underscore.
pub open spec fn is_name_char(c: char) -> bool {
    is_ascii_alphanumeric(c) || c as u32 == 95
}

/// A schema name: 2 to 64 ASCII characters, starting with a letter, ending with a letter or
/// digit, with letters, digits and underscores between.
pub open spec fn valid_schema_name(s: Seq<char>) -> bool {
    &&& 2 <= s.len() <= 64
    &&& is_ascii_letter(s[0])
    &&& is_ascii_alphanumeric(s[s.len() - 1])
    &&& forall|i: int| 1 <= i < s.len() - 1 ==> is_name_char(#[trigger] s[i])
}

/// A field name: 1 to 64 ASCII characters, starting with a letter, followed by letters, digits
/// and underscores.
pub open spec fn valid_field_name(s: Seq<char>) -> bool {
    &&& 1 <= s.len() <= 64
    &&& is_ascii_letter(s[0])
    &&& forall|i: int| 1 <= i < s.len() ==> is_name_char(#[trigger] s[i])
}

/// Relies on p2panda_rs::schema::validate::validate_name, which matches the name against
/// `^[A-Za-z]{1}[A-Za-z0-9_]{0,62}[A-Za-z0-9]{1}$`.
#[verifier::external_body]
pub(crate) fn check_schema_name(name: &String) -> (r: bool)
    ensures
        r == valid_schema_name(name@),
{
    p2panda_rs::schema::validate::validate_name(name)
}

/// Relies on p2panda_rs::schema::validate::validate_field_name, which matches the name against
/// `^[A-Za-z]{1}[A-Za-z0-9_]{0,63}$`.
#[verifier::external_body]
fn check_field_name(name: &String) -> (r: bool)
    ensures
        r == valid_field_name(name@),
{
    p2panda_rs::schema::validate::validate_field_name(name)
}

/// A schema as it is declared now.
#[derive(Debug, Clone, PartialEq, Eq)]
pub struct CurrentSchema {
    pub name: String,
    pub description: String,
    pub fields: SchemaFields,
}

impl CurrentSchema {
    /// Returns a new declared schema.
    pub fn new(name: &String, description: &String, fields: &SchemaFields) -> (r: CurrentSchema)
        ensures
            r.name@ == name@,
            r.description@ == description@,
            r.fields@ == fields@,
    {
        CurrentSchema { name: name.clone(), description: description.clone(), fields: fields.duplicate() }
    }
}

/// Whether a declared schema is acceptable: a valid name, at least one field, valid field names.
pub open spec fn valid_definition(name: Seq<char>, definition: SchemaDefinition) -> bool {
    &&& valid_schema_name(name)
    &&& definition.fields@.len() > 0
    &&& forall|k: int|
        0 <= k < definition.fields@.len() ==> valid_field_name(
            #[trigger] definition.fields@[k].0@,
        )
}

/// Whether a declaration is acceptable as a whole.
pub open spec fn valid_declaration(file: Seq<(String, SchemaDefinition)>) -> bool {
    &&& file.len() > 0
    &&& forall|i: int| 0 <= i < file.len() ==> valid_definition(#[trigger] file[i].0@, file[i].1)
}

/// Whether `schemas` holds the declared schemas of `file`, in order.
pub open spec fn current_of(file: Seq<(String, SchemaDefinition)>, schemas: Seq<CurrentSchema>) -> bool {
    &&& schemas.len() == file.len()
    &&& forall|i: int|
        0 <= i < file.len() ==> {
            &&& (#[trigger] schemas[i]).name@ == file[i].0@
            &&& schemas[i].description@ == file[i].1.description@
            &&& schemas[i].fields@ == file[i].1.fields@
        }
}

/// Extracts all schema definitions from the declaration and returns them as current schemas.
pub fn get_current_schemas(schema_file: &SchemaFile) -> (r: Result<Vec<CurrentSchema>, ConfigError>)
    requires
        schema_file.wf(),
    ensures
        r is Ok <==> valid_declaration(schema_file@),
        r matches Ok(schemas) ==> current_of(schema_file@, schemas@) && names_unique_current(
            schemas@,
        ),
        r matches Err(ConfigError::EmptyDeclaration) <==> schema_file@.len() == 0,
        r matches Err(ConfigError::InvalidSchemaName { schema }) ==> exists|i: int|
            0 <= i < schema_file@.len() && #[trigger] schema_file@[i].0@ == schema@
                && !valid_schema_name(schema@),
        r matches Err(ConfigError::NoFields { schema }) ==> exists|i: int|
            0 <= i < schema_file@.len() && #[trigger] schema_file@[i].0@ == schema@
                && schema_file@[i].1.fields@.len() == 0,
        r matches Err(ConfigError::InvalidFieldName { schema, field }) ==> exists|i: int, k: int|
            0 <= i < schema_file@.len() && #[trigger] schema_file@[i].0@ == schema@ && 0 <= k
                < schema_file@[i].1.fields@.len() && #[trigger] schema_file@[i].1.fields@[k].0@
                == field@ && !valid_field_name(field@),
        r matches Err(e) ==> (e is EmptyDeclaration || e is InvalidSchemaName || e is NoFields
            || e is InvalidFieldName),
{
    let entries = schema_file.iter();
    if entries.len() == 0 {
        return Err(ConfigError::EmptyDeclaration);
    }
    let mut schemas: Vec<CurrentSchema> = Vec::new();
    let mut i: usize = 0;
    while i < entries.len()
        invariant
            0 <= i <= entries@.len(),
            entries@ == schema_file@,
            names_unique(schema_file@),
            current_of(entries@.subrange(0, i as int), schemas@),
            forall|j: int| 0 <= j < i ==> valid_definition(#[trigger] entries@[j].0@, entries@[j].1),
        decreases entries@.len() - i,
    {
        let name = &entries[i].0;
        let definition = &entries[i].1;
        if !check_schema_name(name) {
            return Err(ConfigError::InvalidSchemaName { schema: name.clone() });
        }
        let fields = definition.fields.iter();
        if fields.len() == 0 {
            return Err(ConfigError::NoFields { schema: name.clone() });
        }
        let mut k: usize = 0;
        while k < fields.len()
            invariant
                0 <= k <= fields@.len(),
                fields@ == definition.fields@,
                i < entries@.len(),
                entries@ == schema_file@,
                *definition == entries@[i as int].1,
                *name == entries@[i as int].0,
                forall|m: int| 0 <= m < k ==> valid_field_name(#[trigger] fields@[m].0@),
            decreases fields@.len() - k,
        {
            if !check_field_name(&fields[k].0) {
                assert(!valid_field_name(definition.fields@[k as int].0@));
                assert(schema_file@[i as int].0@ == name@);
                assert(schema_file@[i as int].1.fields@[k as int].0@ == fields@[k as int].0@);
                assert(!valid_definition(schema_file@[i as int].0@, schema_file@[i as int].1));
                return Err(
                    ConfigError::InvalidFieldName { schema: name.clone(), field: fields[k].0.clone() },
                );
            }
            k = k + 1;
        }
        schemas.push(CurrentSchema::new(name, &definition.description, &definition.fields));
        i = i + 1;
        assert(current_of(entries@.subrange(0, i as int), schemas@));
    }
    assert(entries@.subrange(0, i as int) =~= entries@);
    proof {
        assert forall|a: int, b: int| 0 <= a < b < schemas@.len() implies #[trigger] schemas@[a].name@
            != #[trigger] schemas@[b].name@ by {
            assert(entries@[a].0@ != entries@[b].0@);
        }
    }
    Ok(schemas)
}

/// No two declared schemas share a name.
pub open spec fn names_unique_current(schemas: Seq<CurrentSchema>) -> bool {
    forall|a: int, b: int|
        0 <= a < b < schemas.len() ==> #[trigger] schemas[a].name@ != #[trigger] schemas[b].name@
}

} // verus!
