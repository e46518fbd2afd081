//! The summary of a plan shown before committing: how each schema and each field changes.
use vstd::prelude::*;

use crate::previous::{FieldView, ResolvedFieldType, SchemaView, is_first_field};

verus! {

/// How an entity changes.
#[derive(Debug, Clone, Copy, PartialEq, Eq, Structural)]
pub enum Change {
    Added,
    Removed,
    Changed,
    Unchanged,
}

/// One line of a schema's field table.
#[derive(Debug, Clone, PartialEq, Eq)]
pub struct FieldRow {
    pub name: String,
    pub current: Option<ResolvedFieldType>,
    pub previous: Option<ResolvedFieldType>,
    pub change: Change,
}

/// Whether `row` describes the declared field `name` of type `t` against the previous fields.
pub open spec fn current_row(name: Seq<char>, t: ResolvedFieldType, previous: Seq<FieldView>, row: FieldRow) -> bool {
    &&& row.name@ == name
    &&& row.current == Some(t)
    &&& {
        ||| exists|i: int|
            is_first_field(previous, name, i) && row.previous == Some(previous[i].field_type) && row.change == if previous[i].field_type.same(t) {
                Change::Unchanged
            } else {
                Change::Changed
            }
        ||| (forall|i: int| 0 <= i < previous.len() ==> #[trigger] previous[i].name@ != name) && row.previous is None
            && row.change == Change::Added
    }
}

/// Whether `row` describes the previous field `v` as removed.
pub open spec fn removed_row(v: FieldView, row: FieldRow) -> bool {
    row.name@ == v.name@ && row.current is None && row.previous == Some(v.field_type) && row.change == Change::Removed
}

/// Whether `row` describes as removed a previous field whose name is no longer declared.
pub open spec fn is_removed_row_of(current: Seq<(String, ResolvedFieldType)>, previous: Seq<FieldView>, row: FieldRow) -> bool {
    exists|i: int| 0 <= i < previous.len() && !is_current_name(current, previous[i].name@) && removed_row(previous[i], row)
}

/// Whether some declared field carries the name.
pub open spec fn is_current_name(current: Seq<(String, ResolvedFieldType)>, name: Seq<char>) -> bool {
    exists|k: int| 0 <= k < current.len() && #[trigger] current[k].0@ == name
}

fn find_current(current: &Vec<(String, ResolvedFieldType)>, name: &String) -> (r: bool)
    ensures
        r == is_current_name(current@, name@),
{
    let mut k: usize = 0;
    while k < current.len()
        invariant
            0 <= k <= current@.len(),
            forall|j: int| 0 <= j < k ==> #[trigger] current@[j].0@ != name@,
        decreases current@.len() - k,
    {
        if current[k].0 == *name {
            return true;
        }
        k = k + 1;
    }
    false
}

/// Position of the first previous field with the given name.
fn first_field_position(previous: &Vec<FieldView>, name: &String) -> (r: Option<usize>)
    ensures
        match r {
            Some(i) => is_first_field(previous@, name@, i as int),
            None => forall|i: int| 0 <= i < previous@.len() ==> #[trigger] previous@[i].name@ != name@,
        },
{
    let mut i: usize = 0;
    while i < previous.len()
        invariant
            0 <= i <= previous@.len(),
            forall|j: int| 0 <= j < i ==> #[trigger] previous@[j].name@ != name@,
        decreases previous@.len() - i,
    {
        if previous[i].name == *name {
            return Some(i);
        }
        i = i + 1;
    }
    None
}

/// The field table of a schema: first the declared fields in order, each added, changed or
/// unchanged against the previous field of that name; then, in their previous order, the
/// previous fields no longer declared, as removed.
pub fn field_rows(current: &Vec<(String, ResolvedFieldType)>, previous: &Vec<FieldView>) -> (rows: Vec<FieldRow>)
    ensures
        rows@.len() >= current@.len(),
        forall|k: int|
            0 <= k < current@.len() ==> current_row(current@[k].0@, current@[k].1, previous@, #[trigger] rows@[k]),
        forall|r: int|
            current@.len() <= r < rows@.len() ==> is_removed_row_of(current@, previous@, #[trigger] rows@[r]),
        forall|i: int|
            0 <= i < previous@.len() && !is_current_name(current@, #[trigger] previous@[i].name@) ==> exists|r: int|
                current@.len() <= r < rows@.len() && removed_row(previous@[i], rows@[r]),
{
    let mut rows: Vec<FieldRow> = Vec::new();
    let mut k: usize = 0;
    while k < current.len()
        invariant
            0 <= k <= current@.len(),
            rows@.len() == k,
            forall|j: int| 0 <= j < k ==> current_row(current@[j].0@, current@[j].1, previous@, #[trigger] rows@[j]),
        decreases current@.len() - k,
    {
        let name = &current[k].0;
        let t = &current[k].1;
        let found = first_field_position(previous, name);
        let row = match found {
            Some(i) => {
                let change = if previous[i].field_type.equals(t) {
                    Change::Unchanged
                } else {
                    Change::Changed
                };
                FieldRow {
                    name: name.clone(),
                    current: Some(t.duplicate()),
                    previous: Some(previous[i].field_type.duplicate()),
                    change,
                }
            },
            None => FieldRow { name: name.clone(), current: Some(t.duplicate()), previous: None, change: Change::Added },
        };
        let ghost before = rows@;
        rows.push(row);
        proof {
            assert forall|j: int| 0 <= j < k + 1 implies current_row(current@[j].0@, current@[j].1, previous@, #[trigger] rows@[j]) by {
                if j < k {
                    assert(rows@[j] == before[j]);
                }
            }
        }
        k = k + 1;
    }
    let mut i: usize = 0;
    while i < previous.len()
        invariant
            0 <= i <= previous@.len(),
            rows@.len() >= current@.len(),
            forall|j: int| 0 <= j < current@.len() ==> current_row(current@[j].0@, current@[j].1, previous@, #[trigger] rows@[j]),
            forall|r: int|
                current@.len() <= r < rows@.len() ==> is_removed_row_of(current@, previous@, #[trigger] rows@[r]),
            forall|j: int|
                0 <= j < i && !is_current_name(current@, #[trigger] previous@[j].name@) ==> exists|r: int|
                    current@.len() <= r < rows@.len() && removed_row(previous@[j], rows@[r]),
        decreases previous@.len() - i,
    {
        if !find_current(current, &previous[i].name) {
            let ghost before = rows@;
            rows.push(
                FieldRow {
                    name: previous[i].name.clone(),
                    current: None,
                    previous: Some(previous[i].field_type.duplicate()),
                    change: Change::Removed,
                },
            );
            proof {
                assert(removed_row(previous@[i as int], rows@[rows@.len() - 1]));
                assert forall|j: int|
                    0 <= j < i + 1 && !is_current_name(current@, #[trigger] previous@[j].name@) implies exists|r: int|
                        current@.len() <= r < rows@.len() && removed_row(previous@[j], rows@[r]) by {
                    if j < i {
                        let r = choose|r: int| current@.len() <= r < before.len() && removed_row(previous@[j], before[r]);
                        assert(rows@[r] == before[r]);
                    } else {
                        assert(removed_row(previous@[j], rows@[rows@.len() - 1]));
                    }
                }
                assert forall|r: int| current@.len() <= r < rows@.len() implies is_removed_row_of(current@, previous@, #[trigger] rows@[r]) by {
                    if r < before.len() {
                        assert(rows@[r] == before[r]);
                        assert(is_removed_row_of(current@, previous@, before[r]));
                    } else {
                        assert(0 <= i < previous@.len() && !is_current_name(current@, previous@[i as int].name@));
                        assert(removed_row(previous@[i as int], rows@[r]));
                    }
                }
                assert forall|j: int| 0 <= j < current@.len() implies current_row(current@[j].0@, current@[j].1, previous@, #[trigger] rows@[j]) by {
                    assert(rows@[j] == before[j]);
                }
            }
        }
        i = i + 1;
    }
    rows
}

/// How a schema changes: added without a previous version, unchanged where it keeps its
/// previous view id, else changed.
pub fn schema_change(previous: &Option<SchemaView>, view_id: &String) -> (r: Change)
    ensures
        r == match previous {
            None => Change::Added,
            Some(v) => if v.view_id@ == view_id@ {
                Change::Unchanged
            } else {
                Change::Changed
            },
        },
{
    match previous {
        None => Change::Added,
        Some(v) => {
            if v.view_id == *view_id {
                Change::Unchanged
            } else {
                Change::Changed
            }
        },
    }
}

} // verus!
