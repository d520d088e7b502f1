use concordium_build::schema::{
    check_schema, encode_blob, from_json_files, schema_file_name_for, to_json_files, ContractSchema,
    FunctionJson, FunctionSchema, ModuleSchema, SchemaVersion,
};

fn function(p: Option<Vec<u8>>, r: Option<Vec<u8>>, e: Option<Vec<u8>>) -> FunctionSchema {
    FunctionSchema { parameter: p, return_value: r, error: e }
}

#[test]
fn file_name_keeps_safe_contract_names() {
    assert_eq!(schema_file_name_for("my-token", 0), "my-token_schema.json");
    assert_eq!(schema_file_name_for("a_[b]{c}", 4), "a_[b]{c}_schema.json");
}

#[test]
fn file_name_falls_back_to_counter() {
    assert_eq!(schema_file_name_for("my token", 0), "contract-schema_0.json");
    assert_eq!(schema_file_name_for("a.b", 12), "contract-schema_12.json");
    assert_eq!(schema_file_name_for("é", 7), "contract-schema_7.json");
    assert_eq!(schema_file_name_for("", 1), "_schema.json");
}

#[test]
fn blob_is_base64_without_padding() {
    assert_eq!(encode_blob(&[1, 2, 3]), "AQID");
    assert_eq!(encode_blob(&[0xff]), "/w");
    assert_eq!(encode_blob(&[]), "");
}

fn v3_schema() -> ModuleSchema {
    ModuleSchema {
        version: SchemaVersion::V3,
        contracts: vec![
            (
                "counter".to_string(),
                ContractSchema {
                    init: Some(function(Some(vec![1, 2, 3]), None, None)),
                    state: None,
                    event: Some(vec![0xff]),
                    entrypoints: vec![
                        ("decrement".to_string(), function(None, Some(vec![4]), Some(vec![5, 6]))),
                        ("increment".to_string(), function(None, None, None)),
                    ],
                },
            ),
            (
                "two words".to_string(),
                ContractSchema { init: None, state: None, event: None, entrypoints: vec![] },
            ),
        ],
    }
}

#[test]
fn json_files_of_a_v3_schema() {
    let files = to_json_files(&v3_schema());
    assert_eq!(files.len(), 2);
    assert_eq!(files[0].file_name, "counter_schema.json");
    assert_eq!(files[1].file_name, "contract-schema_1.json");
    let j = &files[0].json;
    assert_eq!(j.contract_name, "counter");
    match &j.init {
        Some(FunctionJson::Object { parameter, return_value, error }) => {
            assert_eq!(parameter.as_deref(), Some("AQID"));
            assert_eq!(*return_value, None);
            assert_eq!(*error, None);
        }
        other => panic!("unexpected init {:?}", other),
    }
    assert_eq!(j.event.as_deref(), Some("/w"));
    assert_eq!(j.state, None);
    let es = j.entrypoints.as_ref().unwrap();
    assert_eq!(es[0].0, "decrement");
    match &es[0].1 {
        FunctionJson::Object { parameter, return_value, error } => {
            assert_eq!(*parameter, None);
            assert_eq!(return_value.as_deref(), Some("BA"));
            assert_eq!(error.as_deref(), Some("BQY"));
        }
        other => panic!("unexpected entrypoint {:?}", other),
    }
    assert_eq!(files[1].json.contract_name, "two words");
    assert!(files[1].json.entrypoints.is_none());
}

#[test]
fn v0_functions_are_bare_types_and_state_is_kept() {
    let s = ModuleSchema {
        version: SchemaVersion::V0,
        contracts: vec![(
            "c".to_string(),
            ContractSchema {
                init: Some(function(Some(vec![1, 2, 3]), None, None)),
                state: Some(vec![0xff]),
                event: None,
                entrypoints: vec![("f".to_string(), function(Some(vec![4]), None, None))],
            },
        )],
    };
    let files = to_json_files(&s);
    let j = &files[0].json;
    assert!(matches!(&j.init, Some(FunctionJson::Type(t)) if t == "AQID"));
    assert_eq!(j.state.as_deref(), Some("/w"));
    assert!(matches!(&j.entrypoints.as_ref().unwrap()[0].1, FunctionJson::Type(t) if t == "BA"));
}

#[test]
fn json_round_trip_gives_back_the_blobs() {
    let s = v3_schema();
    let files = to_json_files(&s);
    let back = from_json_files(SchemaVersion::V3, &files).unwrap();
    assert_eq!(back.version, SchemaVersion::V3);
    assert_eq!(back.contracts.len(), 2);
    let c = &back.contracts[0].1;
    assert_eq!(back.contracts[0].0, "counter");
    assert_eq!(c.init.as_ref().unwrap().parameter, Some(vec![1, 2, 3]));
    assert_eq!(c.event, Some(vec![0xff]));
    assert_eq!(c.entrypoints[0].0, "decrement");
    assert_eq!(c.entrypoints[0].1.return_value, Some(vec![4]));
    assert_eq!(c.entrypoints[0].1.error, Some(vec![5, 6]));
    assert_eq!(c.entrypoints[1].1.parameter, None);
    assert_eq!(back.contracts[1].0, "two words");
    assert!(back.contracts[1].1.entrypoints.is_empty());
}

#[test]
fn from_json_refuses_bad_base64() {
    let mut files = to_json_files(&v3_schema());
    files[0].json.event = Some("not base64!".to_string());
    assert!(from_json_files(SchemaVersion::V3, &files).is_none());
    files[0].json.event = Some("/x".to_string());
    assert!(from_json_files(SchemaVersion::V3, &files).is_none());
}

#[test]
fn version_capabilities() {
    assert!(SchemaVersion::V0.has_state() && !SchemaVersion::V1.has_state());
    assert!(SchemaVersion::V3.has_event() && !SchemaVersion::V2.has_event());
    assert!(SchemaVersion::V2.has_error() && !SchemaVersion::V1.has_error());
}

#[test]
fn schema_shape_follows_the_version() {
    assert!(check_schema(&v3_schema()));
    let mut s = v3_schema();
    s.version = SchemaVersion::V1;
    // V1 has neither events nor errors.
    assert!(!check_schema(&s));
    s.contracts[0].1.event = None;
    assert!(!check_schema(&s));
    s.contracts[0].1.entrypoints[0].1.error = None;
    assert!(check_schema(&s));
    s.version = SchemaVersion::V0;
    // A V0 function is its parameter type alone.
    assert!(!check_schema(&s));
}
