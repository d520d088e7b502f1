use concordium_build::exports::{check_exports, ExportEntry, ExportError};
use concordium_build::WasmVersion;

fn funcs(names: &[&str]) -> Vec<ExportEntry> {
    names
        .iter()
        .map(|n| ExportEntry { name: n.to_string(), is_function: true })
        .collect()
}

#[test]
fn v0_refuses_other_function_exports() {
    match check_exports(&funcs(&["foo"]), WasmVersion::V0) {
        Err(ExportError::UnexpectedExport(n)) => assert_eq!(n, "foo"),
        other => panic!("unexpected result {:?}", other),
    }
}

#[test]
fn v1_allows_other_function_exports() {
    assert!(check_exports(&funcs(&["foo"]), WasmVersion::V1).is_ok());
}

#[test]
fn v0_reports_the_first_other_export() {
    match check_exports(&funcs(&["init_a", "bar", "a.f", "baz"]), WasmVersion::V0) {
        Err(ExportError::UnexpectedExport(n)) => assert_eq!(n, "bar"),
        other => panic!("unexpected result {:?}", other),
    }
}

#[test]
fn other_kinds_of_export_are_ignored() {
    let mut e = funcs(&["init_a"]);
    e.push(ExportEntry { name: "memory".to_string(), is_function: false });
    assert!(check_exports(&e, WasmVersion::V0).is_ok());
}

#[test]
fn misspelled_contract_gets_a_suggestion() {
    match check_exports(&funcs(&["init_token", "tokn.transfer"]), WasmVersion::V1) {
        Err(ExportError::UnknownContract { contract, suggestions }) => {
            assert_eq!(contract, "tokn");
            assert_eq!(suggestions, vec!["token".to_string()]);
        }
        other => panic!("unexpected result {:?}", other),
    }
}

#[test]
fn entrypoint_without_any_contract() {
    match check_exports(&funcs(&["a.b"]), WasmVersion::V1) {
        Err(ExportError::UnknownContract { contract, suggestions }) => {
            assert_eq!(contract, "a");
            assert!(suggestions.is_empty());
        }
        other => panic!("unexpected result {:?}", other),
    }
}

#[test]
fn ambiguous_suggestions_are_all_listed_sorted() {
    match check_exports(&funcs(&["init_cb", "init_ab", "xb.f"]), WasmVersion::V1) {
        Err(ExportError::UnknownContract { contract, suggestions }) => {
            assert_eq!(contract, "xb");
            assert_eq!(suggestions, vec!["ab".to_string(), "cb".to_string()]);
        }
        other => panic!("unexpected result {:?}", other),
    }
}

#[test]
fn first_unknown_contract_in_sorted_order_is_reported() {
    match check_exports(&funcs(&["init_x", "zz.f", "aa.f", "x.g"]), WasmVersion::V1) {
        Err(ExportError::UnknownContract { contract, .. }) => assert_eq!(contract, "aa"),
        other => panic!("unexpected result {:?}", other),
    }
}

#[test]
fn well_formed_exports_pass() {
    let e = funcs(&["init_counter", "counter.increment", "counter.decrement", "counter."]);
    assert!(check_exports(&e, WasmVersion::V0).is_ok());
    assert!(check_exports(&e, WasmVersion::V1).is_ok());
}
