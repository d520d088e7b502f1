use concordium_build::module_format::{
    decode_versioned_module, encode_versioned_module, read_module_version,
    schema_section, CustomSection,
};
use concordium_build::WasmVersion;

/// A Wasm header followed by one type section with a 4-byte payload.
fn small_module() -> Vec<u8> {
    vec![0x00, 0x61, 0x73, 0x6d, 0x01, 0x00, 0x00, 0x00, 0x01, 0x04, 0x01, 0x60, 0x00, 0x00]
}

#[test]
fn encode_without_section() {
    let m = small_module();
    let out = encode_versioned_module(WasmVersion::V0, &m, None);
    let mut expected = vec![0, 0, 0, 0, 0, 0, 0, 14];
    expected.extend_from_slice(&m);
    assert_eq!(out, expected);
}

#[test]
fn encode_with_schema_section() {
    let m = small_module();
    let cs = schema_section(vec![9, 8, 7]);
    let out = encode_versioned_module(WasmVersion::V1, &m, Some(&cs));
    let mut expected = vec![0, 0, 0, 1, 0, 0, 0, 14 + 1 + 1 + 1 + 17 + 3];
    expected.extend_from_slice(&m);
    expected.push(0);
    expected.push(1 + 17 + 3);
    expected.push(17);
    expected.extend_from_slice(b"concordium-schema");
    expected.extend_from_slice(&[9, 8, 7]);
    assert_eq!(out, expected);
    assert_eq!(&out[0..4], &[0, 0, 0, 1]);
}

#[test]
fn length_field_counts_bytes_after_header() {
    let m = small_module();
    let cs = CustomSection { name: "x".to_string(), contents: vec![1; 300] };
    let out = encode_versioned_module(WasmVersion::V1, &m, Some(&cs));
    let len = u32::from_be_bytes([out[4], out[5], out[6], out[7]]) as usize;
    assert_eq!(len, out.len() - 8);
    // A payload of 302 bytes needs two LEB128 bytes.
    assert_eq!(&out[8 + m.len()..8 + m.len() + 3], &[0, 0xae, 0x02]);
}

#[test]
fn decode_inverts_encode() {
    let m = small_module();
    let cs = schema_section(vec![1, 2, 3, 4, 5]);
    let out = encode_versioned_module(WasmVersion::V1, &m, Some(&cs));
    let d = decode_versioned_module(&out).unwrap();
    assert_eq!(d.version, WasmVersion::V1);
    assert_eq!(d.module, m);
    assert_eq!(d.section, Some((b"concordium-schema".to_vec(), vec![1, 2, 3, 4, 5])));

    let out = encode_versioned_module(WasmVersion::V0, &m, None);
    let d = decode_versioned_module(&out).unwrap();
    assert_eq!(d.version, WasmVersion::V0);
    assert_eq!(d.module, m);
    assert_eq!(d.section, None);
}

#[test]
fn decode_refuses_bad_input() {
    let m = small_module();
    let mut out = encode_versioned_module(WasmVersion::V1, &m, None);
    assert!(decode_versioned_module(&out[..10]).is_none());
    out[7] += 1;
    assert!(decode_versioned_module(&out).is_none());
    out[7] -= 1;
    out[3] = 2;
    assert!(decode_versioned_module(&out).is_none());
    out[3] = 1;
    out.push(0);
    out[7] += 1;
    assert!(decode_versioned_module(&out).is_none());
}

#[test]
fn module_version_header() {
    assert_eq!(read_module_version(&[0, 0, 0, 1, 9]), Some(WasmVersion::V1));
    assert_eq!(read_module_version(&[0, 0, 0, 0]), Some(WasmVersion::V0));
    assert_eq!(read_module_version(&[0, 0, 0, 2]), None);
    assert_eq!(read_module_version(&[0, 0, 1]), None);
}
