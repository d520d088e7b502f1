//! The decisions of a build: which schema work to do, where the compiled artifact
//! lies, and how the compiled binary becomes a deployable versioned module.
use crate::exports::{check_exports, entry_views, exports_ok, ExportEntry, ExportError};
use crate::module_format::{
    decode_spec, encode_versioned_module, is_stripped_module,
    body, lemma_custom_section_len, lemma_decode_encode, section_view, versioned_module,
    CustomSection,
};
use crate::WasmVersion;
use concordium_smart_contract_engine::{v0, v1};
use concordium_wasm::{
    output::Output,
    parse::parse_skeleton,
    types::ExportDescription,
    utils::strip,
    validate::{validate_module, ValidationConfig},
};
use vstd::prelude::*;
use vstd::string::*;
use vstd::utf8::encode_utf8;

verus! {

/// What to do about the schema during a build.
#[derive(Clone, Copy, Debug, PartialEq, Eq, Structural)]
pub enum SchemaBuildOptions {
    DoNotBuild,
    JustBuild,
    BuildAndEmbed,
}

impl SchemaBuildOptions {
    /// Whether the schema should be built.
    pub fn build(self) -> (r: bool)
        ensures
            r == (self != SchemaBuildOptions::DoNotBuild),
    {
        matches!(self, SchemaBuildOptions::JustBuild | SchemaBuildOptions::BuildAndEmbed)
    }

    /// Whether the schema should be embedded into the module.
    pub fn embed(self) -> (r: bool)
        ensures
            r == (self == SchemaBuildOptions::BuildAndEmbed),
    {
        matches!(self, SchemaBuildOptions::BuildAndEmbed)
    }
}

/// The schema work a build asks for: embedding implies building; asking for the schema
/// as a file or as JSON files means building it.
pub fn schema_build_options(embed: bool, schema_out: bool, schema_json_out: bool) -> (r: SchemaBuildOptions)
    ensures
        r == if embed {
            SchemaBuildOptions::BuildAndEmbed
        } else if schema_out || schema_json_out {
            SchemaBuildOptions::JustBuild
        } else {
            SchemaBuildOptions::DoNotBuild
        },
{
    if embed {
        SchemaBuildOptions::BuildAndEmbed
    } else if schema_out || schema_json_out {
        SchemaBuildOptions::JustBuild
    } else {
        SchemaBuildOptions::DoNotBuild
    }
}

/// The lower-case form of a string, as std defines it for Unicode.
pub uninterp spec fn lowercase_of(s: Seq<char>) -> Seq<char>;

/// Relies on std's `str::to_lowercase`, whose result depends on the characters alone.
#[verifier::external_body]
fn to_lowercase(s: &str) -> (r: String)
    ensures
        r@ == lowercase_of(s@),
{
    s.to_lowercase()
}

/// `s` with every `-` replaced by `_`.
pub open spec fn dashes_to_underscores(s: Seq<char>) -> Seq<char> {
    s.map_values(|c: char| if c == '-' { '_' } else { c })
}

fn replace_dashes(s: &str) -> (r: String)
    ensures
        r@ == dashes_to_underscores(s@),
{
    let n = s.unicode_len();
    let mut out = String::new();
    let mut i: usize = 0;
    while i < n
        invariant
            n == s@.len(),
            i <= n,
            out@ == dashes_to_underscores(s@.subrange(0, i as int)),
        decreases n - i,
    {
        let c = s.get_char(i);
        let piece = if c == '-' {
            "_"
        } else {
            s.substring_char(i, i + 1)
        };
        proof {
            reveal_strlit("_");
        }
        assert(piece@ == seq![if c == '-' { '_' } else { c }]);
        out.append(piece);
        assert(dashes_to_underscores(s@.subrange(0, i as int + 1)) =~= dashes_to_underscores(
            s@.subrange(0, i as int),
        ) + seq![if c == '-' { '_' } else { c }]);
        i = i + 1;
    }
    assert(s@.subrange(0, n as int) =~= s@);
    out
}

/// The name of the compiled artifact of a package: lower case, `-` as `_`.
pub fn to_snake_case(name: &str) -> (r: String)
    ensures
        r@ == dashes_to_underscores(lowercase_of(name@)),
{
    let lower = to_lowercase(name);
    replace_dashes(lower.as_str())
}

/// Where the compiler leaves the binary of a package built into `target_dir`.
pub fn artifact_path(target_dir: &str, package_name: &str) -> (r: String)
    ensures
        r@ == target_dir@ + "/wasm32-unknown-unknown/release/"@ + dashes_to_underscores(
            lowercase_of(package_name@),
        ) + ".wasm"@,
{
    let snake = to_snake_case(package_name);
    String::from_str(target_dir).concat("/wasm32-unknown-unknown/release/").concat(
        snake.as_str(),
    ).concat(".wasm")
}

/// Where the versioned module goes when no output path is given: the artifact's path
/// with the version as extension.
pub fn default_output_path(artifact: &str, version: WasmVersion) -> (r: String)
    ensures
        r@ == artifact@ + match version {
            WasmVersion::V0 => ".v0"@,
            WasmVersion::V1 => ".v1"@,
        },
{
    match version {
        WasmVersion::V0 => String::from_str(artifact).concat(".v0"),
        WasmVersion::V1 => String::from_str(artifact).concat(".v1"),
    }
}

/// What concordium_wasm makes of a compiled binary for a module version: the export
/// table of the validated module (each export's name and whether it is a function),
/// and the bytes of the module with its custom sections removed; `None` when the
/// binary does not parse, does not validate, or cannot be written out.
pub uninterp spec fn checked_module(version: WasmVersion, wasm: Seq<u8>) -> Option<(Seq<(Seq<char>, bool)>, Seq<u8>)>;

/// Relies on concordium_wasm: `parse::parse_skeleton` splits the binary into sections,
/// `utils::strip` removes the custom sections, `validate::validate_module` checks the
/// module under the rules of current protocols (`ValidationConfig::V1`) against the
/// host functions that V0 contracts may import
/// (`concordium_smart_contract_engine::v0::ConcordiumAllowedImports`), and `Output` for `Skeleton` writes
/// the header and the remaining sections, each with its id (never 0), its length in
/// minimal LEB128 (below 2^32, else the write fails) and its bytes.
#[verifier::external_body]
fn check_module_v0(wasm: &[u8]) -> (r: Result<(Vec<ExportEntry>, Vec<u8>), ModuleError>)
    ensures
        r is Ok <==> checked_module(WasmVersion::V0, wasm@) is Some,
        r matches Ok((e, b)) ==> checked_module(WasmVersion::V0, wasm@) == Some((entry_views(e@), b@)),
        r matches Ok((_, b)) ==> is_stripped_module(b@),
        r matches Err(x) ==> x is ParseFailed || x is ValidationFailed || x is OutputFailed,
{
    let mut skeleton = parse_skeleton(wasm).map_err(|e| ModuleError::ParseFailed(e.to_string()))?;
    strip(&mut skeleton);
    let module = validate_module(ValidationConfig::V1, &v0::ConcordiumAllowedImports, &skeleton)
        .map_err(|e| ModuleError::ValidationFailed(e.to_string()))?;
    let mut out = Vec::new();
    skeleton.output(&mut out).map_err(|e| ModuleError::OutputFailed(e.to_string()))?;
    let entries = module.export.exports.iter().map(|e| ExportEntry {
        name: e.name.name.clone(),
        is_function: matches!(e.description, ExportDescription::Func { .. }),
    }).collect();
    Ok((entries, out))
}

/// Relies on the same concordium_wasm functions as `check_module_v0`, validating
/// against the host functions that V1 contracts may import
/// (`concordium_smart_contract_engine::v1::ConcordiumAllowedImports`, `upgrade`
/// included, debugging host functions excluded).
#[verifier::external_body]
fn check_module_v1(wasm: &[u8]) -> (r: Result<(Vec<ExportEntry>, Vec<u8>), ModuleError>)
    ensures
        r is Ok <==> checked_module(WasmVersion::V1, wasm@) is Some,
        r matches Ok((e, b)) ==> checked_module(WasmVersion::V1, wasm@) == Some((entry_views(e@), b@)),
        r matches Ok((_, b)) ==> is_stripped_module(b@),
        r matches Err(x) ==> x is ParseFailed || x is ValidationFailed || x is OutputFailed,
{
    let mut skeleton = parse_skeleton(wasm).map_err(|e| ModuleError::ParseFailed(e.to_string()))?;
    strip(&mut skeleton);
    let imports = v1::ConcordiumAllowedImports { support_upgrade: true, enable_debug: false };
    let module = validate_module(ValidationConfig::V1, &imports, &skeleton)
        .map_err(|e| ModuleError::ValidationFailed(e.to_string()))?;
    let mut out = Vec::new();
    skeleton.output(&mut out).map_err(|e| ModuleError::OutputFailed(e.to_string()))?;
    let entries = module.export.exports.iter().map(|e| ExportEntry {
        name: e.name.name.clone(),
        is_function: matches!(e.description, ExportDescription::Func { .. }),
    }).collect();
    Ok((entries, out))
}

/// Why a compiled binary could not be made into a versioned module.
#[derive(Debug)]
pub enum ModuleError {
    /// The binary is not a well-formed Wasm module.
    ParseFailed(String),
    /// The module does not validate as a contract module of the requested version.
    ValidationFailed(String),
    /// The exports break the naming rules.
    Exports(ExportError),
    /// The module could not be written out.
    OutputFailed(String),
    /// The module and schema together do not fit the 4-byte length field.
    TooLarge,
}

pub open spec fn opt_section_view(section: Option<CustomSection>) -> Option<(Seq<u8>, Seq<u8>)> {
    match section {
        Some(cs) => Some(section_view(cs)),
        None => None,
    }
}

/// The module and the custom section fit the 4-byte length field (with room for the
/// section's header).
pub open spec fn fits(m: Seq<u8>, section: Option<CustomSection>) -> bool {
    m.len() + match section {
        Some(cs) => encode_utf8(cs.name@).len() + cs.contents@.len(),
        None => 0,
    } + 20 < 0x1_0000_0000
}

/// Turn a compiled binary into a deployable versioned module: parse it, remove its
/// custom sections, validate it for `version`, check its exports, and encode it with
/// the given custom section (the embedded schema) appended.
pub fn prepare_module(version: WasmVersion, wasm: &[u8], section: Option<CustomSection>) -> (r: Result<Vec<u8>, ModuleError>)
    ensures
        checked_module(version, wasm@) is None ==> (r matches Err(e) && (e is ParseFailed
            || e is ValidationFailed || e is OutputFailed)),
        checked_module(version, wasm@) matches Some((es, m)) ==> {
            &&& (r matches Err(ModuleError::Exports(_))) <==> !exports_ok(es, version)
            &&& (r matches Err(ModuleError::TooLarge)) <==> (exports_ok(es, version) && !fits(m, section))
            &&& r is Ok <==> (exports_ok(es, version) && fits(m, section))
            &&& r matches Ok(b) ==> {
                &&& b@ == versioned_module(version, m, opt_section_view(section))
                &&& decode_spec(b@) == Some((version, m, opt_section_view(section)))
            }
        },
{
    let checked = match version {
        WasmVersion::V0 => check_module_v0(wasm),
        WasmVersion::V1 => check_module_v1(wasm),
    };
    let (entries, bytes) = match checked {
        Ok(x) => x,
        Err(e) => return Err(e),
    };
    match check_exports(&entries, version) {
        Ok(()) => {},
        Err(e) => return Err(ModuleError::Exports(e)),
    }
    let module_len = bytes.len() as u64;
    let ghost size: nat = match &section {
        Some(cs) => encode_utf8(cs.name@).len() + cs.contents@.len(),
        None => 0,
    };
    let extra: u64 = match &section {
        Some(cs) => {
            let name_bytes = cs.name.as_str().as_bytes();
            let n = name_bytes.len() as u64;
            let c = cs.contents.len() as u64;
            if n >= 0x1_0000_0000 || c >= 0x1_0000_0000 {
                return Err(ModuleError::TooLarge);
            }
            assert((n + c) as nat == size);
            n + c
        },
        None => 0,
    };
    assert(extra as nat == size);
    if module_len >= 0x1_0000_0000 || module_len + extra + 20 >= 0x1_0000_0000 {
        return Err(ModuleError::TooLarge);
    }
    let out = match &section {
        Some(cs) => encode_versioned_module(version, bytes.as_slice(), Some(cs)),
        None => encode_versioned_module(version, bytes.as_slice(), None),
    };
    proof {
        let cs = opt_section_view(section);
        assert(body(bytes@, cs).len() < 0x1_0000_0000) by {
            if let Some(c) = section {
                lemma_custom_section_len(encode_utf8(c.name@), c.contents@);
            }
        }
        lemma_decode_encode(version, bytes@, cs);
    }
    Ok(out)
}

} // verus!
