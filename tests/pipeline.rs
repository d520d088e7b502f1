use concordium_build::module_format::{decode_versioned_module, schema_section};
use concordium_build::pipeline::{
    artifact_path, default_output_path, prepare_module, schema_build_options, to_snake_case,
    ModuleError, SchemaBuildOptions,
};
use concordium_build::WasmVersion;
use concordium_contracts_common::schema::{
    ContractV3, FunctionV2, ModuleV3, Type, VersionedModuleSchema,
};
use concordium_contracts_common::{from_bytes, to_bytes};
use std::collections::BTreeMap;

fn section(id: u8, payload: Vec<u8>) -> Vec<u8> {
    assert!(payload.len() < 128);
    let mut s = vec![id, payload.len() as u8];
    s.extend(payload);
    s
}

/// A Wasm module whose functions all have type `(i64) -> i32` and return 0, exported
/// under the given names, with one custom section of its own.
fn wasm_module(exports: &[&str]) -> Vec<u8> {
    let n = exports.len() as u8;
    let mut m = vec![0x00, 0x61, 0x73, 0x6d, 0x01, 0x00, 0x00, 0x00];
    m.extend(section(1, vec![0x01, 0x60, 0x01, 0x7e, 0x01, 0x7f]));
    let mut funcs = vec![n];
    funcs.extend(std::iter::repeat(0).take(exports.len()));
    m.extend(section(3, funcs));
    let mut ex = vec![n];
    for (i, name) in exports.iter().enumerate() {
        ex.push(name.len() as u8);
        ex.extend_from_slice(name.as_bytes());
        ex.push(0x00);
        ex.push(i as u8);
    }
    m.extend(section(7, ex));
    let mut code = vec![n];
    for _ in exports {
        code.extend_from_slice(&[0x04, 0x00, 0x41, 0x00, 0x0b]);
    }
    m.extend(section(10, code));
    m.extend(section(0, vec![0x04, b'n', b'o', b't', b'e', 0xaa, 0xbb]));
    m
}

fn counter_schema() -> VersionedModuleSchema {
    let mut receive = BTreeMap::new();
    receive.insert("increment".to_string(), FunctionV2 {
        parameter: Some(Type::U32),
        return_value: None,
        error: None,
    });
    receive.insert("decrement".to_string(), FunctionV2 {
        parameter: Some(Type::U32),
        return_value: None,
        error: None,
    });
    let mut contracts = BTreeMap::new();
    contracts.insert("counter".to_string(), ContractV3 {
        init: Some(FunctionV2 {
            parameter: None,
            return_value: None,
            error: None,
        }),
        receive,
        event: None,
    });
    VersionedModuleSchema::V3(ModuleV3 { contracts })
}

#[test]
fn counter_module_with_embedded_schema() {
    let wasm = wasm_module(&["init_counter", "counter.increment", "counter.decrement"]);
    let schema_bytes = to_bytes(&counter_schema());
    let out = prepare_module(WasmVersion::V1, &wasm, Some(schema_section(schema_bytes.clone())))
        .expect("the module is accepted");
    assert_eq!(&out[0..4], &[0, 0, 0, 1]);
    let len = u32::from_be_bytes([out[4], out[5], out[6], out[7]]) as usize;
    assert_eq!(len, out.len() - 8);
    let decoded = decode_versioned_module(&out).expect("the output decodes");
    assert_eq!(decoded.version, WasmVersion::V1);
    // The module's own custom section is gone.
    assert!(!decoded.module.windows(4).any(|w| w == b"note"));
    let (name, contents) = decoded.section.expect("the schema is embedded");
    assert_eq!(name, b"concordium-schema".to_vec());
    assert_eq!(contents, schema_bytes);
    match from_bytes::<VersionedModuleSchema>(&contents).unwrap() {
        VersionedModuleSchema::V3(m) => {
            assert_eq!(m.contracts.len(), 1);
            let c = &m.contracts["counter"];
            let names: Vec<&String> = c.receive.keys().collect();
            assert_eq!(names, vec!["decrement", "increment"]);
        }
        _ => panic!("expected a V3 schema"),
    }
}

#[test]
fn module_without_schema() {
    let wasm = wasm_module(&["init_counter", "counter.increment"]);
    let out = prepare_module(WasmVersion::V0, &wasm, None).expect("the module is accepted");
    assert_eq!(&out[0..4], &[0, 0, 0, 0]);
    let decoded = decode_versioned_module(&out).unwrap();
    assert_eq!(decoded.section, None);
}

#[test]
fn module_with_misspelled_contract_is_refused() {
    let wasm = wasm_module(&["init_token", "tokn.transfer"]);
    match prepare_module(WasmVersion::V1, &wasm, None) {
        Err(ModuleError::Exports(_)) => {}
        other => panic!("unexpected result {:?}", other),
    }
}

#[test]
fn garbage_is_not_a_module() {
    assert!(matches!(
        prepare_module(WasmVersion::V1, &[1, 2, 3], None),
        Err(ModuleError::ParseFailed(_))
    ));
}

#[test]
fn build_options() {
    assert_eq!(schema_build_options(true, false, false), SchemaBuildOptions::BuildAndEmbed);
    assert_eq!(schema_build_options(false, true, false), SchemaBuildOptions::JustBuild);
    assert_eq!(schema_build_options(false, false, true), SchemaBuildOptions::JustBuild);
    assert_eq!(schema_build_options(false, false, false), SchemaBuildOptions::DoNotBuild);
    assert!(SchemaBuildOptions::BuildAndEmbed.build() && SchemaBuildOptions::BuildAndEmbed.embed());
    assert!(SchemaBuildOptions::JustBuild.build() && !SchemaBuildOptions::JustBuild.embed());
    assert!(!SchemaBuildOptions::DoNotBuild.build());
}

#[test]
fn artifact_paths() {
    assert_eq!(to_snake_case("My-Contract"), "my_contract");
    assert_eq!(
        artifact_path("target/concordium", "My-Contract"),
        "target/concordium/wasm32-unknown-unknown/release/my_contract.wasm"
    );
    assert_eq!(default_output_path("a/b.wasm", WasmVersion::V1), "a/b.wasm.v1");
    assert_eq!(default_output_path("a/b.wasm", WasmVersion::V0), "a/b.wasm.v0");
}
