//! Setting up a new project: the checks before any file is written, and the schema template.
use vstd::prelude::*;

use crate::current::{check_schema_name, valid_schema_name};

verus! {

/// A project that cannot be set up.
#[derive(Debug, Clone, PartialEq, Eq)]
pub enum InitError {
    /// The target directory does not exist.
    MissingTargetDir { target_dir: String },
    /// The requested schema name does not follow the naming rules.
    InvalidSchemaName { name: String },
}

/// Checks that the target directory, whose existence the caller looked up, exists.
pub fn sanity_check(target_dir: &String, exists: bool) -> (r: Result<(), InitError>)
    ensures
        r is Ok <==> exists,
        r matches Err(InitError::MissingTargetDir { target_dir: d }) ==> d@ == target_dir@,
        r matches Err(e) ==> e is MissingTargetDir,
{
    if !exists {
        return Err(InitError::MissingTargetDir { target_dir: target_dir.clone() });
    }
    Ok(())
}

/// Checks a schema name given for a new project.
pub fn check_project_schema_name(name: &String) -> (r: Result<(), InitError>)
    ensures
        r is Ok <==> valid_schema_name(name@),
        r matches Err(InitError::InvalidSchemaName { name: n }) ==> n@ == name@,
        r matches Err(e) ==> e is InvalidSchemaName,
{
    if !check_schema_name(name) {
        return Err(InitError::InvalidSchemaName { name: name.clone() });
    }
    Ok(())
}

/// The schema file of a new project: one schema of the given name with one string field.
pub open spec fn schema_template(name: Seq<char>) -> Seq<char> {
    "["@ + name + "]\ndescription = \"Write about your schema here\"\n\n["@ + name
        + ".fields]\nsome_field = { type = \"str\" }"@
}

/// Returns the content of the schema file of a new project.
pub fn init_schema_file(schema_name: &String) -> (r: String)
    ensures
        r@ == schema_template(schema_name@),
{
    let s = "[".to_owned();
    let s = s.concat(schema_name.as_str());
    let s = s.concat("]\ndescription = \"Write about your schema here\"\n\n[");
    let s = s.concat(schema_name.as_str());
    let s = s.concat(".fields]\nsome_field = { type = \"str\" }");
    s
}

} // verus!
