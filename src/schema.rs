//! A module's interface schema and its JSON form. Each type descriptor is held by its
//! compact binary serialization; in JSON it stands as a base64 string (standard
//! alphabet, no padding), so the JSON does not depend on how types are structured.
use base64::{engine::general_purpose, Engine as _};
use vstd::prelude::*;
use vstd::string::*;

verus! {

/// The base64 encoding of `b`, standard alphabet, no padding.
pub uninterp spec fn base64_of(b: Seq<u8>) -> Seq<char>;

/// Relies on base64's `STANDARD_NO_PAD` engine, whose `encode` gives the base64
/// encoding of the bytes; it panics only where the encoded length overflows `usize`.
#[verifier::external_body]
fn base64_encode(b: &[u8]) -> (r: String)
    requires
        b@.len() < usize::MAX / 2,
    ensures
        r@ == base64_of(b@),
{
    general_purpose::STANDARD_NO_PAD.encode(b)
}

/// Relies on base64's `STANDARD_NO_PAD` engine, whose `decode` accepts exactly the
/// canonical encodings (no padding, no stray trailing bits) and returns the bytes that
/// they encode.
#[verifier::external_body]
fn base64_decode(s: &str) -> (r: Option<Vec<u8>>)
    ensures
        r matches Some(v) ==> forall|b: Seq<u8>| base64_of(b) == s@ <==> b == v@,
        r is None ==> forall|b: Seq<u8>| base64_of(b) != s@,
{
    general_purpose::STANDARD_NO_PAD.decode(s).ok()
}

/// The base64 text of a blob, such as a whole serialized schema.
pub fn encode_blob(b: &[u8]) -> (r: String)
    requires
        b@.len() < usize::MAX / 2,
    ensures
        r@ == base64_of(b@),
{
    base64_encode(b)
}

/// A versioned schema starts with two bytes `0xff`; a legacy one does not say its
/// version.
pub fn is_versioned_schema(bytes: &[u8]) -> (r: bool)
    ensures
        r == (bytes@.len() >= 2 && bytes@[0] == 0xff && bytes@[1] == 0xff),
{
    bytes.len() >= 2 && bytes[0] == 0xff && bytes[1] == 0xff
}

/// Schema versions. V0 describes functions by their parameter alone and has a state
/// type; V1 adds return values; V2 adds errors; V3 adds events.
#[derive(Clone, Copy, Debug, PartialEq, Eq, Structural)]
pub enum SchemaVersion {
    V0,
    V1,
    V2,
    V3,
}

impl SchemaVersion {
    /// Contracts have a state type (V0 only).
    pub fn has_state(self) -> (r: bool)
        ensures
            r == (self == SchemaVersion::V0),
    {
        matches!(self, SchemaVersion::V0)
    }

    /// Contracts have an event type (V3 only).
    pub fn has_event(self) -> (r: bool)
        ensures
            r == (self == SchemaVersion::V3),
    {
        matches!(self, SchemaVersion::V3)
    }

    /// Functions have an error type (V2 and V3).
    pub fn has_error(self) -> (r: bool)
        ensures
            r == (self == SchemaVersion::V2 || self == SchemaVersion::V3),
    {
        matches!(self, SchemaVersion::V2 | SchemaVersion::V3)
    }
}

/// The types of one function, each by its serialization.
#[derive(Debug)]
pub struct FunctionSchema {
    pub parameter: Option<Vec<u8>>,
    pub return_value: Option<Vec<u8>>,
    pub error: Option<Vec<u8>>,
}

/// The schema of one contract.
#[derive(Debug)]
pub struct ContractSchema {
    pub init: Option<FunctionSchema>,
    pub state: Option<Vec<u8>>,
    pub event: Option<Vec<u8>>,
    /// Entrypoint names with their function schemas.
    pub entrypoints: Vec<(String, FunctionSchema)>,
}

/// The schema of a module: contract names with their schemas.
#[derive(Debug)]
pub struct ModuleSchema {
    pub version: SchemaVersion,
    pub contracts: Vec<(String, ContractSchema)>,
}

/// A function in JSON: a bare base64 string in V0, an object otherwise.
#[derive(Debug)]
pub enum FunctionJson {
    Type(String),
    Object { parameter: Option<String>, return_value: Option<String>, error: Option<String> },
}

/// The JSON document of one contract.
#[derive(Debug)]
pub struct ContractJson {
    pub contract_name: String,
    pub init: Option<FunctionJson>,
    pub state: Option<String>,
    pub event: Option<String>,
    /// Absent when the contract has no entrypoints.
    pub entrypoints: Option<Vec<(String, FunctionJson)>>,
}

/// One JSON file: where it goes and what it holds.
#[derive(Debug)]
pub struct SchemaFile {
    pub file_name: String,
    pub json: ContractJson,
}

pub open spec fn opt_bytes(o: Option<Vec<u8>>) -> Option<Seq<u8>> {
    match o {
        Some(b) => Some(b@),
        None => None,
    }
}

pub open spec fn opt_b64(o: Option<Vec<u8>>) -> Option<Seq<char>> {
    match o {
        Some(b) => Some(base64_of(b@)),
        None => None,
    }
}

pub open spec fn opt_chars(o: Option<String>) -> Option<Seq<char>> {
    match o {
        Some(s) => Some(s@),
        None => None,
    }
}

/// What a schema of version `v` can hold of a function: a V0 function is its
/// parameter type; V1 has no error types.
pub open spec fn function_wf(v: SchemaVersion, f: FunctionSchema) -> bool {
    &&& v == SchemaVersion::V0 ==> f.parameter is Some && f.return_value is None && f.error is None
    &&& v == SchemaVersion::V1 ==> f.error is None
}

pub open spec fn contract_wf(v: SchemaVersion, c: ContractSchema) -> bool {
    &&& (c.init matches Some(f) ==> function_wf(v, f))
    &&& v != SchemaVersion::V0 ==> c.state is None
    &&& v != SchemaVersion::V3 ==> c.event is None
    &&& forall|i: int| 0 <= i < c.entrypoints@.len() ==> function_wf(v, (#[trigger] c.entrypoints@[i]).1)
}

pub open spec fn schema_wf(s: ModuleSchema) -> bool {
    forall|i: int| 0 <= i < s.contracts@.len() ==> contract_wf(s.version, (#[trigger] s.contracts@[i]).1)
}

/// `j` is the JSON form of function `f` in version `v`.
pub open spec fn function_json_of(v: SchemaVersion, f: FunctionSchema, j: FunctionJson) -> bool {
    match j {
        FunctionJson::Type(s) => v == SchemaVersion::V0 && (f.parameter matches Some(p) && s@ == base64_of(p@)),
        FunctionJson::Object { parameter, return_value, error } => {
            &&& v != SchemaVersion::V0
            &&& opt_chars(parameter) == opt_b64(f.parameter)
            &&& opt_chars(return_value) == opt_b64(f.return_value)
            &&& opt_chars(error) == if v == SchemaVersion::V1 {
                None
            } else {
                opt_b64(f.error)
            }
        },
    }
}

/// `j` is the JSON document of contract `name` with schema `c` in version `v`.
pub open spec fn contract_json_of(v: SchemaVersion, name: Seq<char>, c: ContractSchema, j: ContractJson) -> bool {
    &&& j.contract_name@ == name
    &&& match (c.init, j.init) {
        (None, None) => true,
        (Some(f), Some(fj)) => function_json_of(v, f, fj),
        _ => false,
    }
    &&& opt_chars(j.state) == if v == SchemaVersion::V0 {
        opt_b64(c.state)
    } else {
        None
    }
    &&& opt_chars(j.event) == if v == SchemaVersion::V3 {
        opt_b64(c.event)
    } else {
        None
    }
    &&& if c.entrypoints@.len() == 0 {
        j.entrypoints is None
    } else {
        &&& j.entrypoints matches Some(es)
        &&& es@.len() == c.entrypoints@.len()
        &&& forall|i: int|
            0 <= i < es@.len() ==> (#[trigger] es@[i]).0@ == c.entrypoints@[i].0@ && function_json_of(
                v,
                c.entrypoints@[i].1,
                es@[i].1,
            )
    }
}

/// A character that may stand in a file name on every platform: an ASCII letter or
/// digit, or one of `-_[]{}`.
pub open spec fn is_file_name_char(c: char) -> bool {
    let x = c as int;
    (0x30 <= x <= 0x39) || (0x41 <= x <= 0x5a) || (0x61 <= x <= 0x7a) || x == 0x2d || x == 0x5f
        || x == 0x5b || x == 0x5d || x == 0x7b || x == 0x7d
}

pub open spec fn digit_char(d: nat) -> char {
    if d == 0 { '0' } else if d == 1 { '1' } else if d == 2 { '2' } else if d == 3 { '3' }
    else if d == 4 { '4' } else if d == 5 { '5' } else if d == 6 { '6' } else if d == 7 { '7' }
    else if d == 8 { '8' } else { '9' }
}

/// `n` in decimal, without leading zeros.
pub open spec fn decimal(n: nat) -> Seq<char>
    decreases n,
{
    if n < 10 {
        seq![digit_char(n)]
    } else {
        decimal(n / 10).push(digit_char(n % 10))
    }
}

/// The JSON file name for contract `name` at position `counter`: the name followed by
/// `_schema.json` when all its characters are safe, else `contract-schema_<counter>.json`.
pub open spec fn schema_file_name(name: Seq<char>, counter: nat) -> Seq<char> {
    if forall|i: int| 0 <= i < name.len() ==> is_file_name_char(#[trigger] name[i]) {
        name + "_schema.json"@
    } else {
        "contract-schema_"@ + decimal(counter) + ".json"@
    }
}

fn digit_str(d: usize) -> (r: &'static str)
    requires
        d < 10,
    ensures
        r@ == seq![digit_char(d as nat)],
{
    proof {
        reveal_strlit("0");
        reveal_strlit("1");
        reveal_strlit("2");
        reveal_strlit("3");
        reveal_strlit("4");
        reveal_strlit("5");
        reveal_strlit("6");
        reveal_strlit("7");
        reveal_strlit("8");
        reveal_strlit("9");
    }
    if d == 0 { "0" } else if d == 1 { "1" } else if d == 2 { "2" } else if d == 3 { "3" }
    else if d == 4 { "4" } else if d == 5 { "5" } else if d == 6 { "6" } else if d == 7 { "7" }
    else if d == 8 { "8" } else { "9" }
}

/// `n` in decimal.
fn decimal_string(n: usize) -> (r: String)
    ensures
        r@ == decimal(n as nat),
    decreases n,
{
    if n < 10 {
        String::from_str(digit_str(n))
    } else {
        decimal_string(n / 10).concat(digit_str(n % 10))
    }
}

fn is_safe_file_name_char(c: char) -> (r: bool)
    ensures
        r == is_file_name_char(c),
{
    let x = c as u32;
    (0x30 <= x && x <= 0x39) || (0x41 <= x && x <= 0x5a) || (0x61 <= x && x <= 0x7a) || x == 0x2d
        || x == 0x5f || x == 0x5b || x == 0x5d || x == 0x7b || x == 0x7d
}

/// The name of the JSON file for a contract: `<name>_schema.json` where the name is
/// safe on every platform, otherwise `contract-schema_<counter>.json`, `counter` being
/// the contract's position in the module.
pub fn schema_file_name_for(contract_name: &str, counter: usize) -> (r: String)
    ensures
        r@ == schema_file_name(contract_name@, counter as nat),
{
    let n = contract_name.unicode_len();
    let mut i: usize = 0;
    while i < n
        invariant
            n == contract_name@.len(),
            i <= n,
            forall|k: int| 0 <= k < i ==> is_file_name_char(#[trigger] contract_name@[k]),
        decreases n - i,
    {
        if !is_safe_file_name_char(contract_name.get_char(i)) {
            let r = String::from_str("contract-schema_").concat(decimal_string(counter).as_str()).concat(
                ".json",
            );
            assert(!is_file_name_char(contract_name@[i as int]));
            return r;
        }
        i = i + 1;
    }
    String::from_str(contract_name).concat("_schema.json")
}

/// Every blob of the schema is small enough to encode (a `Vec` never exceeds this).
pub open spec fn blob_fits(o: Option<Vec<u8>>) -> bool {
    o matches Some(b) ==> b@.len() < usize::MAX / 2
}

pub open spec fn function_fits(f: FunctionSchema) -> bool {
    blob_fits(f.parameter) && blob_fits(f.return_value) && blob_fits(f.error)
}

pub open spec fn contract_fits(c: ContractSchema) -> bool {
    &&& (c.init matches Some(f) ==> function_fits(f))
    &&& blob_fits(c.state)
    &&& blob_fits(c.event)
    &&& forall|i: int| 0 <= i < c.entrypoints@.len() ==> function_fits((#[trigger] c.entrypoints@[i]).1)
}

pub open spec fn schema_fits(s: ModuleSchema) -> bool {
    forall|i: int| 0 <= i < s.contracts@.len() ==> contract_fits((#[trigger] s.contracts@[i]).1)
}

fn blob_ok(o: &Option<Vec<u8>>) -> (r: bool)
    ensures
        r == blob_fits(*o),
{
    match o {
        Some(b) => b.len() < usize::MAX / 2,
        None => true,
    }
}

fn function_ok(v: SchemaVersion, f: &FunctionSchema) -> (r: bool)
    ensures
        r == (function_wf(v, *f) && function_fits(*f)),
{
    let shape = match v {
        SchemaVersion::V0 => f.parameter.is_some() && f.return_value.is_none() && f.error.is_none(),
        SchemaVersion::V1 => f.error.is_none(),
        _ => true,
    };
    shape && blob_ok(&f.parameter) && blob_ok(&f.return_value) && blob_ok(&f.error)
}

fn contract_ok(v: SchemaVersion, c: &ContractSchema) -> (r: bool)
    ensures
        r == (contract_wf(v, *c) && contract_fits(*c)),
{
    let init_ok = match &c.init {
        Some(f) => function_ok(v, f),
        None => true,
    };
    if !init_ok || (!v.has_state() && c.state.is_some()) || (!v.has_event() && c.event.is_some())
        || !blob_ok(&c.state) || !blob_ok(&c.event) {
        return false;
    }
    let mut i: usize = 0;
    while i < c.entrypoints.len()
        invariant
            i <= c.entrypoints@.len(),
            forall|k: int|
                0 <= k < i ==> function_wf(v, (#[trigger] c.entrypoints@[k]).1) && function_fits(
                    c.entrypoints@[k].1,
                ),
        decreases c.entrypoints.len() - i,
    {
        if !function_ok(v, &c.entrypoints[i].1) {
            return false;
        }
        i = i + 1;
    }
    true
}

/// Whether a schema is well formed for its version (what `to_json_files` asks of it).
pub fn check_schema(s: &ModuleSchema) -> (r: bool)
    ensures
        r == (schema_wf(*s) && schema_fits(*s)),
{
    let mut i: usize = 0;
    while i < s.contracts.len()
        invariant
            i <= s.contracts@.len(),
            forall|k: int|
                0 <= k < i ==> contract_wf(s.version, (#[trigger] s.contracts@[k]).1) && contract_fits(
                    s.contracts@[k].1,
                ),
        decreases s.contracts.len() - i,
    {
        if !contract_ok(s.version, &s.contracts[i].1) {
            return false;
        }
        i = i + 1;
    }
    true
}

fn encode_opt(o: &Option<Vec<u8>>) -> (r: Option<String>)
    requires
        blob_fits(*o),
    ensures
        opt_chars(r) == opt_b64(*o),
{
    match o {
        Some(b) => Some(base64_encode(b.as_slice())),
        None => None,
    }
}

fn function_to_json(v: SchemaVersion, f: &FunctionSchema) -> (r: FunctionJson)
    requires
        function_wf(v, *f),
        function_fits(*f),
    ensures
        function_json_of(v, *f, r),
{
    match v {
        SchemaVersion::V0 => {
            let p = f.parameter.as_ref().unwrap();
            FunctionJson::Type(base64_encode(p.as_slice()))
        },
        _ => {
            let error = if v.has_error() {
                encode_opt(&f.error)
            } else {
                None
            };
            FunctionJson::Object {
                parameter: encode_opt(&f.parameter),
                return_value: encode_opt(&f.return_value),
                error,
            }
        },
    }
}

fn contract_to_json(v: SchemaVersion, name: &String, c: &ContractSchema) -> (r: ContractJson)
    requires
        contract_wf(v, *c),
        contract_fits(*c),
    ensures
        contract_json_of(v, name@, *c, r),
{
    let init = match &c.init {
        Some(f) => Some(function_to_json(v, f)),
        None => None,
    };
    let state = if v.has_state() {
        encode_opt(&c.state)
    } else {
        None
    };
    let event = if v.has_event() {
        encode_opt(&c.event)
    } else {
        None
    };
    let entrypoints = if c.entrypoints.len() == 0 {
        None
    } else {
        let mut es: Vec<(String, FunctionJson)> = Vec::new();
        let mut i: usize = 0;
        while i < c.entrypoints.len()
            invariant
                contract_wf(v, *c),
                contract_fits(*c),
                i <= c.entrypoints@.len(),
                es@.len() == i,
                forall|k: int|
                    0 <= k < i ==> (#[trigger] es@[k]).0@ == c.entrypoints@[k].0@ && function_json_of(
                        v,
                        c.entrypoints@[k].1,
                        es@[k].1,
                    ),
            decreases c.entrypoints.len() - i,
        {
            let (en, f) = &c.entrypoints[i];
            assert(function_wf(v, c.entrypoints@[i as int].1));
            assert(function_fits(c.entrypoints@[i as int].1));
            es.push((en.clone(), function_to_json(v, f)));
            i = i + 1;
        }
        Some(es)
    };
    ContractJson { contract_name: name.clone(), init, state, event, entrypoints }
}

/// `files` holds the JSON documents of the contracts of `s`, in their order.
pub open spec fn json_files_of(s: ModuleSchema, files: Seq<SchemaFile>) -> bool {
    &&& files.len() == s.contracts@.len()
    &&& forall|i: int|
        0 <= i < files.len() ==> contract_json_of(
            s.version,
            s.contracts@[i].0@,
            s.contracts@[i].1,
            (#[trigger] files[i]).json,
        )
}

/// The JSON files of a schema, one per contract, in the order of the contracts: each
/// file is named after its contract (see `schema_file_name_for`) and holds the
/// contract's types as base64 strings.
pub fn to_json_files(schema: &ModuleSchema) -> (r: Vec<SchemaFile>)
    requires
        schema_wf(*schema),
        schema_fits(*schema),
    ensures
        json_files_of(*schema, r@),
        forall|i: int|
            0 <= i < r@.len() ==> (#[trigger] r@[i]).file_name@ == schema_file_name(
                schema.contracts@[i].0@,
                i as nat,
            ),
{
    let mut files: Vec<SchemaFile> = Vec::new();
    let mut i: usize = 0;
    while i < schema.contracts.len()
        invariant
            schema_wf(*schema),
            schema_fits(*schema),
            i <= schema.contracts@.len(),
            files@.len() == i,
            forall|k: int|
                0 <= k < i ==> (#[trigger] files@[k]).file_name@ == schema_file_name(
                    schema.contracts@[k].0@,
                    k as nat,
                ) && contract_json_of(schema.version, schema.contracts@[k].0@, schema.contracts@[k].1, files@[k].json),
        decreases schema.contracts.len() - i,
    {
        let (name, c) = &schema.contracts[i];
        assert(contract_wf(schema.version, schema.contracts@[i as int].1));
        assert(contract_fits(schema.contracts@[i as int].1));
        let file_name = schema_file_name_for(name.as_str(), i);
        let json = contract_to_json(schema.version, name, c);
        files.push(SchemaFile { file_name, json });
        i = i + 1;
    }
    files
}

/// `b` is what `o` decodes to: both absent, or `b` the one blob whose encoding is `o`.
pub open spec fn decodes_to(o: Option<String>, b: Option<Vec<u8>>) -> bool {
    match (o, b) {
        (None, None) => true,
        (Some(s), Some(v)) => forall|x: Seq<u8>| #[trigger] base64_of(x) == s@ <==> x == v@,
        _ => false,
    }
}

/// `o` is absent or the encoding of some blob.
pub open spec fn decodable(o: Option<String>) -> bool {
    o matches Some(s) ==> exists|x: Seq<u8>| #[trigger] base64_of(x) == s@
}

pub open spec fn function_decodable(j: FunctionJson) -> bool {
    match j {
        FunctionJson::Type(s) => decodable(Some(s)),
        FunctionJson::Object { parameter, return_value, error } => decodable(parameter) && decodable(
            return_value,
        ) && decodable(error),
    }
}

pub open spec fn contract_decodable(j: ContractJson) -> bool {
    &&& (j.init matches Some(f) ==> function_decodable(f))
    &&& decodable(j.state)
    &&& decodable(j.event)
    &&& (j.entrypoints matches Some(es) ==> forall|i: int|
        0 <= i < es@.len() ==> function_decodable((#[trigger] es@[i]).1))
}

/// `f` is what the JSON function `j` decodes to.
pub open spec fn function_from(j: FunctionJson, f: FunctionSchema) -> bool {
    match j {
        FunctionJson::Type(s) => decodes_to(Some(s), f.parameter) && f.return_value is None && f.error is None,
        FunctionJson::Object { parameter, return_value, error } => decodes_to(parameter, f.parameter)
            && decodes_to(return_value, f.return_value) && decodes_to(error, f.error),
    }
}

/// `(name, c)` is what the JSON document `j` decodes to.
pub open spec fn contract_from(j: ContractJson, name: Seq<char>, c: ContractSchema) -> bool {
    &&& name == j.contract_name@
    &&& match (j.init, c.init) {
        (None, None) => true,
        (Some(fj), Some(f)) => function_from(fj, f),
        _ => false,
    }
    &&& decodes_to(j.state, c.state)
    &&& decodes_to(j.event, c.event)
    &&& match j.entrypoints {
        None => c.entrypoints@.len() == 0,
        Some(es) => {
            &&& c.entrypoints@.len() == es@.len()
            &&& forall|i: int|
                0 <= i < es@.len() ==> (#[trigger] c.entrypoints@[i]).0@ == es@[i].0@ && function_from(
                    es@[i].1,
                    c.entrypoints@[i].1,
                )
        },
    }
}

fn decode_opt(o: &Option<String>) -> (r: Option<Option<Vec<u8>>>)
    ensures
        r is Some <==> decodable(*o),
        r matches Some(b) ==> decodes_to(*o, b),
{
    match o {
        Some(s) => match base64_decode(s.as_str()) {
            Some(b) => {
                assert(base64_of(b@) == s@);
                Some(Some(b))
            },
            None => None,
        },
        None => Some(None),
    }
}

fn function_from_json(j: &FunctionJson) -> (r: Option<FunctionSchema>)
    ensures
        r is Some <==> function_decodable(*j),
        r matches Some(f) ==> function_from(*j, f),
{
    match j {
        FunctionJson::Type(s) => match base64_decode(s.as_str()) {
            Some(b) => {
                assert(base64_of(b@) == s@);
                Some(FunctionSchema { parameter: Some(b), return_value: None, error: None })
            },
            None => None,
        },
        FunctionJson::Object { parameter, return_value, error } => {
            let parameter = decode_opt(parameter)?;
            let return_value = decode_opt(return_value)?;
            let error = decode_opt(error)?;
            Some(FunctionSchema { parameter, return_value, error })
        },
    }
}

fn contract_from_json(j: &ContractJson) -> (r: Option<ContractSchema>)
    ensures
        r is Some <==> contract_decodable(*j),
        r matches Some(c) ==> contract_from(*j, j.contract_name@, c),
{
    let init = match &j.init {
        Some(fj) => match function_from_json(fj) {
            Some(f) => Some(f),
            None => return None,
        },
        None => None,
    };
    let state = match decode_opt(&j.state) {
        Some(b) => b,
        None => return None,
    };
    let event = match decode_opt(&j.event) {
        Some(b) => b,
        None => return None,
    };
    let mut entrypoints: Vec<(String, FunctionSchema)> = Vec::new();
    match &j.entrypoints {
        None => {},
        Some(es) => {
            let mut i: usize = 0;
            while i < es.len()
                invariant
                    j.entrypoints == Some(*es),
                    i <= es@.len(),
                    entrypoints@.len() == i,
                    forall|k: int| 0 <= k < i ==> function_decodable((#[trigger] es@[k]).1),
                    forall|k: int|
                        0 <= k < i ==> (#[trigger] entrypoints@[k]).0@ == es@[k].0@ && function_from(
                            es@[k].1,
                            entrypoints@[k].1,
                        ),
                decreases es.len() - i,
            {
                let (en, fj) = &es[i];
                let f = match function_from_json(fj) {
                    Some(f) => f,
                    None => {
                        assert(!function_decodable(es@[i as int].1));
                        assert(!contract_decodable(*j)) by {
                            if contract_decodable(*j) {
                                let all = j.entrypoints->Some_0;
                                assert(all@[i as int] == es@[i as int]);
                                assert(function_decodable(all@[i as int].1));
                            }
                        }
                        return None;
                    },
                };
                entrypoints.push((en.clone(), f));
                i = i + 1;
            }
        },
    }
    Some(ContractSchema { init, state, event, entrypoints })
}

pub open spec fn files_decodable(files: Seq<SchemaFile>) -> bool {
    forall|i: int| 0 <= i < files.len() ==> contract_decodable((#[trigger] files[i]).json)
}

/// `s` is what the JSON files decode to, as a schema of version `version`.
pub open spec fn schema_from(version: SchemaVersion, files: Seq<SchemaFile>, s: ModuleSchema) -> bool {
    &&& s.version == version
    &&& s.contracts@.len() == files.len()
    &&& forall|i: int|
        0 <= i < files.len() ==> contract_from((#[trigger] files[i]).json, s.contracts@[i].0@, s.contracts@[i].1)
}

/// Read a schema of version `version` back from its JSON files: each contract under the
/// name its document gives, each base64 string decoded. `None` when some string is
/// not a base64 encoding.
pub fn from_json_files(version: SchemaVersion, files: &Vec<SchemaFile>) -> (r: Option<ModuleSchema>)
    ensures
        r is Some <==> files_decodable(files@),
        r matches Some(s) ==> schema_from(version, files@, s),
{
    let mut contracts: Vec<(String, ContractSchema)> = Vec::new();
    let mut i: usize = 0;
    while i < files.len()
        invariant
            i <= files@.len(),
            contracts@.len() == i,
            forall|k: int| 0 <= k < i ==> contract_decodable((#[trigger] files@[k]).json),
            forall|k: int|
                0 <= k < i ==> contract_from((#[trigger] files@[k]).json, contracts@[k].0@, contracts@[k].1),
        decreases files.len() - i,
    {
        let json = &files[i].json;
        let c = match contract_from_json(json) {
            Some(c) => c,
            None => return None,
        };
        contracts.push((json.contract_name.clone(), c));
        i = i + 1;
    }
    Some(ModuleSchema { version, contracts })
}

pub open spec fn same_function(a: FunctionSchema, b: FunctionSchema) -> bool {
    &&& opt_bytes(a.parameter) == opt_bytes(b.parameter)
    &&& opt_bytes(a.return_value) == opt_bytes(b.return_value)
    &&& opt_bytes(a.error) == opt_bytes(b.error)
}

pub open spec fn same_contract(a: ContractSchema, b: ContractSchema) -> bool {
    &&& match (a.init, b.init) {
        (None, None) => true,
        (Some(x), Some(y)) => same_function(x, y),
        _ => false,
    }
    &&& opt_bytes(a.state) == opt_bytes(b.state)
    &&& opt_bytes(a.event) == opt_bytes(b.event)
    &&& a.entrypoints@.len() == b.entrypoints@.len()
    &&& forall|i: int|
        0 <= i < a.entrypoints@.len() ==> (#[trigger] a.entrypoints@[i]).0@ == b.entrypoints@[i].0@
            && same_function(a.entrypoints@[i].1, b.entrypoints@[i].1)
}

/// Two schemas of the same version with the same contracts, names and blobs, in the
/// same order.
pub open spec fn same_schema(a: ModuleSchema, b: ModuleSchema) -> bool {
    &&& a.version == b.version
    &&& a.contracts@.len() == b.contracts@.len()
    &&& forall|i: int|
        0 <= i < a.contracts@.len() ==> (#[trigger] a.contracts@[i]).0@ == b.contracts@[i].0@
            && same_contract(a.contracts@[i].1, b.contracts@[i].1)
}

proof fn lemma_blob_round_trip(o: Option<Vec<u8>>, j: Option<String>, b: Option<Vec<u8>>)
    requires
        opt_chars(j) == opt_b64(o),
    ensures
        decodable(j),
        decodes_to(j, b) ==> opt_bytes(b) == opt_bytes(o),
{
    if let Some(x) = o {
        let s = j->Some_0;
        assert(base64_of(x@) == s@);
    }
}

proof fn lemma_function_round_trip(v: SchemaVersion, f: FunctionSchema, j: FunctionJson, g: FunctionSchema)
    requires
        function_wf(v, f),
        function_json_of(v, f, j),
    ensures
        function_decodable(j),
        function_from(j, g) ==> same_function(f, g),
{
    match j {
        FunctionJson::Type(s) => {
            lemma_blob_round_trip(f.parameter, Some(s), g.parameter);
        },
        FunctionJson::Object { parameter, return_value, error } => {
            lemma_blob_round_trip(f.parameter, parameter, g.parameter);
            lemma_blob_round_trip(f.return_value, return_value, g.return_value);
            if v == SchemaVersion::V1 {
                lemma_blob_round_trip(None, error, g.error);
            } else {
                lemma_blob_round_trip(f.error, error, g.error);
            }
        },
    }
}

proof fn lemma_contract_round_trip(v: SchemaVersion, name: Seq<char>, c: ContractSchema, j: ContractJson)
    requires
        contract_wf(v, c),
        contract_json_of(v, name, c, j),
    ensures
        contract_decodable(j),
        forall|d: ContractSchema| #[trigger] contract_from(j, name, d) ==> same_contract(c, d),
{
    if let Some(fj) = j.init {
        lemma_function_round_trip(v, c.init->Some_0, fj, c.init->Some_0);
    }
    lemma_blob_round_trip(if v == SchemaVersion::V0 { c.state } else { None }, j.state, None);
    lemma_blob_round_trip(if v == SchemaVersion::V3 { c.event } else { None }, j.event, None);
    if let Some(es) = j.entrypoints {
        assert forall|i: int| 0 <= i < es@.len() implies function_decodable((#[trigger] es@[i]).1) by {
            assert(function_wf(v, c.entrypoints@[i].1));
            lemma_function_round_trip(v, c.entrypoints@[i].1, es@[i].1, c.entrypoints@[i].1);
        }
    }
    assert forall|d: ContractSchema| #[trigger] contract_from(j, name, d) implies same_contract(c, d) by {
        if let Some(fj) = j.init {
            lemma_function_round_trip(v, c.init->Some_0, fj, d.init->Some_0);
        }
        if v == SchemaVersion::V0 {
            lemma_blob_round_trip(c.state, j.state, d.state);
        } else {
            lemma_blob_round_trip(None, j.state, d.state);
        }
        if v == SchemaVersion::V3 {
            lemma_blob_round_trip(c.event, j.event, d.event);
        } else {
            lemma_blob_round_trip(None, j.event, d.event);
        }
        if let Some(es) = j.entrypoints {
            assert forall|i: int| 0 <= i < c.entrypoints@.len() implies (#[trigger] c.entrypoints@[i]).0@
                == d.entrypoints@[i].0@ && same_function(c.entrypoints@[i].1, d.entrypoints@[i].1) by {
                assert(function_wf(v, c.entrypoints@[i].1));
                assert(es@[i].0@ == c.entrypoints@[i].0@);
                assert(function_from(es@[i].1, d.entrypoints@[i].1));
                lemma_function_round_trip(v, c.entrypoints@[i].1, es@[i].1, d.entrypoints@[i].1);
            }
        }
    }
}

/// Reading back the JSON files of a well-formed schema succeeds, and gives a schema
/// with the same contracts and the same blobs, byte for byte.
pub proof fn lemma_json_round_trip(s: ModuleSchema, files: Seq<SchemaFile>, back: ModuleSchema)
    requires
        schema_wf(s),
        json_files_of(s, files),
    ensures
        files_decodable(files),
        schema_from(s.version, files, back) ==> same_schema(s, back),
{
    assert forall|i: int| 0 <= i < files.len() implies contract_decodable((#[trigger] files[i]).json) by {
        assert(contract_wf(s.version, s.contracts@[i].1));
        lemma_contract_round_trip(s.version, s.contracts@[i].0@, s.contracts@[i].1, files[i].json);
    }
    if schema_from(s.version, files, back) {
        assert forall|i: int| 0 <= i < s.contracts@.len() implies (#[trigger] s.contracts@[i]).0@
            == back.contracts@[i].0@ && same_contract(s.contracts@[i].1, back.contracts@[i].1) by {
            assert(contract_wf(s.version, s.contracts@[i].1));
            assert(contract_json_of(s.version, s.contracts@[i].0@, s.contracts@[i].1, files[i].json));
            lemma_contract_round_trip(s.version, s.contracts@[i].0@, s.contracts@[i].1, files[i].json);
            assert(contract_from(files[i].json, back.contracts@[i].0@, back.contracts@[i].1));
        }
    }
}

} // verus!
