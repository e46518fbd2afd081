use fishy::plan::{field_rows, schema_change, Change};
use fishy::current::{get_current_schemas, ConfigError, CurrentSchema};
use fishy::diff::{get_diff, FieldTypeDiff, SchemaDiff};
use fishy::executor::{Executor, Operation, Step};
use fishy::graph::sort_schemas;
use fishy::previous::{FieldView, PreviousSchema, PreviousSchemas, ResolvedFieldType, SchemaView};
use fishy::schema_file::{
    FieldType, RelationId, RelationSchema, RelationType, SchemaDefinition, SchemaField,
    SchemaFields, SchemaFile, SchemaId,
};

fn scalar(t: FieldType) -> SchemaField {
    SchemaField::Field { field_type: t }
}

fn relation(rt: RelationType, target: &str) -> SchemaField {
    SchemaField::Relation {
        field_type: rt,
        schema: RelationSchema { id: RelationId::Name(target.to_string()), external: None },
    }
}

fn definition(description: &str, fields: &[(&str, SchemaField)]) -> SchemaDefinition {
    let mut f = SchemaFields::new();
    for (name, field) in fields {
        f.insert(&name.to_string(), field);
    }
    SchemaDefinition { description: description.to_string(), fields: f }
}

fn file(schemas: Vec<(&str, SchemaDefinition)>) -> SchemaFile {
    let mut file = SchemaFile::new();
    for (name, d) in schemas {
        assert!(file.insert(name.to_string(), d));
    }
    file
}

/// Runs the executor, answering each published operation with the next hash; returns the
/// operations and the executor.
fn run(diffs: Vec<SchemaDiff>, hashes: &[&str]) -> (Vec<Operation>, Executor) {
    let mut executor = Executor::new(diffs);
    let mut ops = Vec::new();
    let mut next = 0;
    loop {
        match executor.step() {
            Step::Reused => {}
            Step::Publish(op) => {
                ops.push(op);
                executor.complete(hashes[next].to_string());
                next += 1;
            }
            Step::Done => break,
        }
    }
    (ops, executor)
}

fn event_file(description: &str) -> SchemaFile {
    file(vec![("event", definition(description, &[("title", scalar(FieldType::String))]))])
}

fn event_previous(description: &str) -> PreviousSchemas {
    let mut previous = PreviousSchemas::new();
    let views = vec![FieldView {
        view_id: "h1".to_string(),
        name: "title".to_string(),
        field_type: ResolvedFieldType::Scalar(FieldType::String),
    }];
    let view = SchemaView {
        view_id: "h2".to_string(),
        name: "event".to_string(),
        description: description.to_string(),
        fields: vec!["h1".to_string()],
    };
    previous.insert(PreviousSchema::new(&view, &views));
    previous
}

#[test]
fn new_schema_gives_two_creates() {
    let current = get_current_schemas(&event_file("An event")).unwrap();
    let diffs = get_diff(&PreviousSchemas::new(), &current).unwrap();
    let (ops, executor) = run(diffs, &["h1", "h2"]);
    assert_eq!(ops.len(), 2);
    assert_eq!(
        ops[0],
        Operation::CreateField {
            name: "title".to_string(),
            field_type: ResolvedFieldType::Scalar(FieldType::String)
        }
    );
    assert_eq!(
        ops[1],
        Operation::CreateSchema {
            name: "event".to_string(),
            description: "An event".to_string(),
            fields: vec!["h1".to_string()]
        }
    );
    let plans = executor.plans();
    assert_eq!(plans.len(), 1);
    assert_eq!(plans[0].schema_id(), SchemaId::Application("event".to_string(), "h2".to_string()));
    assert_eq!(plans[0].schema_diff(), 0);
}

#[test]
fn unchanged_rerun_gives_no_commit() {
    let current = get_current_schemas(&event_file("An event")).unwrap();
    let diffs = get_diff(&event_previous("An event"), &current).unwrap();
    let (ops, executor) = run(diffs, &[]);
    assert!(ops.is_empty());
    assert_eq!(
        executor.plans()[0].schema_id(),
        SchemaId::Application("event".to_string(), "h2".to_string())
    );
}

#[test]
fn description_edit_gives_one_update() {
    let current = get_current_schemas(&event_file("A new text")).unwrap();
    let diffs = get_diff(&event_previous("An event"), &current).unwrap();
    let (ops, _) = run(diffs, &["h3"]);
    assert_eq!(
        ops,
        vec![Operation::UpdateSchema {
            previous: "h2".to_string(),
            description: Some("A new text".to_string()),
            fields: None
        }]
    );
}

#[test]
fn relation_target_comes_first() {
    let f = file(vec![
        ("event", definition("An event", &[("venue", relation(RelationType::Relation, "venue"))])),
        ("venue", definition("A venue", &[("name", scalar(FieldType::String))])),
    ]);
    let current = get_current_schemas(&f).unwrap();
    assert_eq!(sort_schemas(&current), Ok(vec![1, 0]));
    let diffs = get_diff(&PreviousSchemas::new(), &current).unwrap();
    assert_eq!(diffs[0].name, "venue");
    assert_eq!(diffs[1].name, "event");
    assert_eq!(diffs[1].current_fields[0].current_field_type, FieldTypeDiff::Relation(RelationType::Relation, 0));
    let (ops, _) = run(diffs, &["a", "b", "c", "d"]);
    assert_eq!(ops.len(), 4);
    assert_eq!(
        ops[2],
        Operation::CreateField {
            name: "venue".to_string(),
            field_type: ResolvedFieldType::Relation(
                RelationType::Relation,
                SchemaId::Application("venue".to_string(), "b".to_string())
            )
        }
    );
}

#[test]
fn unrelated_schemas_keep_declared_order() {
    let f = file(vec![
        ("alpha", definition("A", &[("x", scalar(FieldType::Integer))])),
        ("beta", definition("B", &[("y", scalar(FieldType::Boolean))])),
        ("gamma", definition("C", &[("z", relation(RelationType::RelationList, "alpha"))])),
    ]);
    let current = get_current_schemas(&f).unwrap();
    assert_eq!(sort_schemas(&current), Ok(vec![0, 1, 2]));
}

#[test]
fn mutual_relation_is_rejected() {
    let f = file(vec![
        ("alpha", definition("A", &[("b", relation(RelationType::Relation, "beta"))])),
        ("beta", definition("B", &[("a", relation(RelationType::Relation, "alpha"))])),
    ]);
    let current = get_current_schemas(&f).unwrap();
    assert_eq!(get_diff(&PreviousSchemas::new(), &current), Err(ConfigError::CyclicDependency));
}

#[test]
fn self_relation_is_rejected() {
    let f = file(vec![("alpha", definition("A", &[("me", relation(RelationType::PinnedRelation, "alpha"))]))]);
    let current = get_current_schemas(&f).unwrap();
    assert_eq!(sort_schemas(&current), Err(ConfigError::CyclicDependency));
}

#[test]
fn undeclared_target_is_rejected() {
    let f = file(vec![("alpha", definition("A", &[("b", relation(RelationType::Relation, "nowhere"))]))]);
    let current = get_current_schemas(&f).unwrap();
    assert_eq!(
        get_diff(&PreviousSchemas::new(), &current),
        Err(ConfigError::UndeclaredDependency { schema: "alpha".to_string(), target: "nowhere".to_string() })
    );
}

#[test]
fn external_relation_adds_no_dependency() {
    let id = SchemaId::Application("venue".to_string(), "0020abcd".to_string());
    let field = SchemaField::Relation {
        field_type: RelationType::PinnedRelationList,
        schema: RelationSchema { id: RelationId::Id(id.clone()), external: None },
    };
    let f = file(vec![("alpha", definition("A", &[("v", field)]))]);
    let current = get_current_schemas(&f).unwrap();
    let diffs = get_diff(&PreviousSchemas::new(), &current).unwrap();
    assert_eq!(
        diffs[0].current_fields[0].current_field_type,
        FieldTypeDiff::ExternalRelation(RelationType::PinnedRelationList, id)
    );
}

#[test]
fn declaration_errors() {
    assert_eq!(get_current_schemas(&SchemaFile::new()), Err(ConfigError::EmptyDeclaration));
    let no_fields = file(vec![("alpha", definition("A", &[]))]);
    assert_eq!(
        get_current_schemas(&no_fields),
        Err(ConfigError::NoFields { schema: "alpha".to_string() })
    );
    let bad_name = file(vec![("1alpha", definition("A", &[("x", scalar(FieldType::Bytes))]))]);
    assert_eq!(
        get_current_schemas(&bad_name),
        Err(ConfigError::InvalidSchemaName { schema: "1alpha".to_string() })
    );
    let bad_field = file(vec![("alpha", definition("A", &[("_x", scalar(FieldType::Float))]))]);
    assert_eq!(
        get_current_schemas(&bad_field),
        Err(ConfigError::InvalidFieldName { schema: "alpha".to_string(), field: "_x".to_string() })
    );
}

#[test]
fn changed_target_propagates_to_dependent() {
    // venue's description changes; event relates to venue and must follow its new identifier.
    let f = file(vec![
        ("event", definition("An event", &[("venue", relation(RelationType::Relation, "venue"))])),
        ("venue", definition("Changed", &[("name", scalar(FieldType::String))])),
    ]);
    let current = get_current_schemas(&f).unwrap();
    let mut previous = PreviousSchemas::new();
    previous.insert(PreviousSchema::new(
        &SchemaView {
            view_id: "v2".to_string(),
            name: "venue".to_string(),
            description: "A venue".to_string(),
            fields: vec!["v1".to_string()],
        },
        &vec![FieldView {
            view_id: "v1".to_string(),
            name: "name".to_string(),
            field_type: ResolvedFieldType::Scalar(FieldType::String),
        }],
    ));
    previous.insert(PreviousSchema::new(
        &SchemaView {
            view_id: "e2".to_string(),
            name: "event".to_string(),
            description: "An event".to_string(),
            fields: vec!["e1".to_string()],
        },
        &vec![FieldView {
            view_id: "e1".to_string(),
            name: "venue".to_string(),
            field_type: ResolvedFieldType::Relation(
                RelationType::Relation,
                SchemaId::Application("venue".to_string(), "v2".to_string()),
            ),
        }],
    ));
    let diffs = get_diff(&previous, &current).unwrap();
    let (ops, _) = run(diffs, &["v3", "e3", "e4"]);
    assert_eq!(ops.len(), 3);
    assert_eq!(
        ops[1],
        Operation::UpdateField {
            previous: "e1".to_string(),
            field_type: ResolvedFieldType::Relation(
                RelationType::Relation,
                SchemaId::Application("venue".to_string(), "v3".to_string())
            )
        }
    );
    assert_eq!(
        ops[2],
        Operation::UpdateSchema { previous: "e2".to_string(), description: None, fields: Some(vec!["e3".to_string()]) }
    );
}

#[test]
fn removed_field_is_left_out() {
    let current = get_current_schemas(&event_file("An event")).unwrap();
    let mut previous = PreviousSchemas::new();
    previous.insert(PreviousSchema::new(
        &SchemaView {
            view_id: "h2".to_string(),
            name: "event".to_string(),
            description: "An event".to_string(),
            fields: vec!["h1".to_string(), "h0".to_string()],
        },
        &vec![
            FieldView {
                view_id: "h1".to_string(),
                name: "title".to_string(),
                field_type: ResolvedFieldType::Scalar(FieldType::String),
            },
            FieldView {
                view_id: "h0".to_string(),
                name: "date".to_string(),
                field_type: ResolvedFieldType::Scalar(FieldType::Integer),
            },
        ],
    ));
    let diffs = get_diff(&previous, &current).unwrap();
    let (ops, _) = run(diffs, &["h3"]);
    assert_eq!(
        ops,
        vec![Operation::UpdateSchema { previous: "h2".to_string(), description: None, fields: Some(vec!["h1".to_string()]) }]
    );
}

#[test]
fn current_schema_new_copies() {
    let mut fields = SchemaFields::new();
    fields.insert(&"a".to_string(), &scalar(FieldType::Integer));
    fields.insert(&"a".to_string(), &scalar(FieldType::Bytes));
    assert_eq!(fields.len(), 1);
    let c = CurrentSchema::new(&"s".to_string(), &"d".to_string(), &fields);
    assert_eq!(c.fields.iter()[0].1, scalar(FieldType::Bytes));
}

#[test]
fn plan_rows_classify_fields() {
    let current = vec![
        ("title".to_string(), ResolvedFieldType::Scalar(FieldType::String)),
        ("date".to_string(), ResolvedFieldType::Scalar(FieldType::Integer)),
        ("place".to_string(), ResolvedFieldType::Scalar(FieldType::String)),
    ];
    let previous = vec![
        FieldView {
            view_id: "a".to_string(),
            name: "title".to_string(),
            field_type: ResolvedFieldType::Scalar(FieldType::String),
        },
        FieldView {
            view_id: "b".to_string(),
            name: "date".to_string(),
            field_type: ResolvedFieldType::Scalar(FieldType::String),
        },
        FieldView {
            view_id: "c".to_string(),
            name: "old".to_string(),
            field_type: ResolvedFieldType::Scalar(FieldType::Boolean),
        },
    ];
    let rows = field_rows(&current, &previous);
    let changes: Vec<(String, Change)> = rows.iter().map(|r| (r.name.clone(), r.change)).collect();
    assert_eq!(
        changes,
        vec![
            ("title".to_string(), Change::Unchanged),
            ("date".to_string(), Change::Changed),
            ("place".to_string(), Change::Added),
            ("old".to_string(), Change::Removed),
        ]
    );
    assert_eq!(rows[1].previous, Some(ResolvedFieldType::Scalar(FieldType::String)));
    assert_eq!(rows[3].current, None);

    let view = SchemaView {
        view_id: "v".to_string(),
        name: "event".to_string(),
        description: "d".to_string(),
        fields: vec![],
    };
    assert_eq!(schema_change(&None, &"v".to_string()), Change::Added);
    assert_eq!(schema_change(&Some(view.clone()), &"v".to_string()), Change::Unchanged);
    assert_eq!(schema_change(&Some(view), &"w".to_string()), Change::Changed);
}

#[test]
fn done_executor_stays_done() {
    let mut executor = Executor::new(Vec::new());
    assert_eq!(executor.step(), Step::Done);
    assert_eq!(executor.step(), Step::Done);
    assert!(executor.plans().is_empty());
}

#[test]
fn field_type_change_updates_field_and_schema() {
    let f = file(vec![("event", definition("An event", &[("title", scalar(FieldType::Integer))]))]);
    let current = get_current_schemas(&f).unwrap();
    let diffs = get_diff(&event_previous("An event"), &current).unwrap();
    let (ops, executor) = run(diffs, &["h3", "h4"]);
    assert_eq!(
        ops,
        vec![
            Operation::UpdateField {
                previous: "h1".to_string(),
                field_type: ResolvedFieldType::Scalar(FieldType::Integer)
            },
            Operation::UpdateSchema { previous: "h2".to_string(), description: None, fields: Some(vec!["h3".to_string()]) },
        ]
    );
    assert_eq!(
        executor.plans()[0].schema_id(),
        SchemaId::Application("event".to_string(), "h4".to_string())
    );
}

#[test]
fn field_labels() {
    assert_eq!(scalar(FieldType::Integer).to_string(), "int");
    assert_eq!(scalar(FieldType::Bytes).to_string(), "bytes");
    assert_eq!(relation(RelationType::PinnedRelationList, "venue").to_string(), "pinned_relation_list(venue)");
    let by_id = SchemaField::Relation {
        field_type: RelationType::RelationList,
        schema: RelationSchema {
            id: RelationId::Id(SchemaId::Application("venue".to_string(), "0020ab".to_string())),
            external: None,
        },
    };
    assert_eq!(by_id.to_string(), "relation_list(venue)");
    assert_eq!(SchemaId::SchemaDefinition(1).name(), "schema_definition");
}
