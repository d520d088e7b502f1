//! The versioned module format that the chain accepts for deployment:
//! `[4-byte version][4-byte big-endian length][module bytes][optional custom section]`,
//! where the length counts everything after the first 8 bytes.
use crate::WasmVersion;
use concordium_wasm::{output::write_custom_section, types::CustomSection as WasmCustomSection};
use vstd::prelude::*;
use vstd::string::StringSliceAdditionalSpecFns;
use vstd::utf8::encode_utf8;

verus! {

/// A named blob appended to a module.
#[derive(Debug)]
pub struct CustomSection {
    pub name: String,
    pub contents: Vec<u8>,
}

/// The custom section that carries an embedded schema, named `concordium-schema`.
pub fn schema_section(contents: Vec<u8>) -> (r: CustomSection)
    ensures
        r.name@ == "concordium-schema"@,
        r.contents@ == contents@,
{
    CustomSection { name: String::from_str("concordium-schema"), contents }
}

/// A versioned module taken apart again. The name of the custom section is given by
/// its UTF-8 bytes, as they stand in the module.
#[derive(Debug)]
pub struct DecodedModule {
    pub version: WasmVersion,
    pub module: Vec<u8>,
    pub section: Option<(Vec<u8>, Vec<u8>)>,
}

pub open spec fn pow128(k: nat) -> nat
    decreases k,
{
    if k == 0 {
        1
    } else {
        128 * pow128((k - 1) as nat)
    }
}

/// Unsigned LEB128: seven bits per byte, least significant first, the high bit set on
/// every byte but the last.
pub open spec fn leb128(n: nat) -> Seq<u8>
    decreases n,
{
    if n < 128 {
        seq![n as u8]
    } else {
        seq![(n % 128 + 128) as u8] + leb128(n / 128)
    }
}

/// Read an unsigned LEB128 number of at most `fuel` bytes from the front of `s`:
/// its value and the number of bytes it takes.
pub open spec fn leb_decode(s: Seq<u8>, fuel: nat) -> Option<(nat, nat)>
    decreases fuel,
{
    if fuel == 0 || s.len() == 0 {
        None
    } else if s[0] < 128 {
        Some((s[0] as nat, 1))
    } else {
        match leb_decode(s.drop_first(), (fuel - 1) as nat) {
            Some((v, k)) => Some(((s[0] - 128) as nat + 128 * v, k + 1)),
            None => None,
        }
    }
}

/// A section of a Wasm module: its id, the LEB128 length of its payload, the payload.
pub open spec fn section(id: u8, payload: Seq<u8>) -> Seq<u8> {
    seq![id] + leb128(payload.len()) + payload
}

/// A sequence of sections, one after the other.
pub open spec fn sections(ss: Seq<(u8, Seq<u8>)>) -> Seq<u8>
    decreases ss.len(),
{
    if ss.len() == 0 {
        seq![]
    } else {
        section(ss[0].0, ss[0].1) + sections(ss.drop_first())
    }
}

/// A custom section: id 0, and a payload that holds the LEB128 length of the name, the
/// name and the contents.
pub open spec fn custom_section(name: Seq<u8>, contents: Seq<u8>) -> Seq<u8> {
    section(0, leb128(name.len()) + name + contents)
}

/// No custom section, and each payload shorter than 2^32 bytes.
pub open spec fn plain_sections(ss: Seq<(u8, Seq<u8>)>) -> bool {
    forall|i: int| 0 <= i < ss.len() ==> (#[trigger] ss[i]).0 != 0 && ss[i].1.len() < 0x1_0000_0000
}

/// A module with its custom sections removed: an 8-byte header, then sections none of
/// which is a custom section.
pub open spec fn is_stripped_module(m: Seq<u8>) -> bool {
    &&& m.len() >= 8
    &&& exists|ss: Seq<(u8, Seq<u8>)>| plain_sections(ss) && m.skip(8) == sections(ss)
}

pub open spec fn version_tag(v: WasmVersion) -> Seq<u8> {
    match v {
        WasmVersion::V0 => seq![0u8, 0, 0, 0],
        WasmVersion::V1 => seq![0u8, 0, 0, 1],
    }
}

/// `n` as four bytes, most significant first.
pub open spec fn be32(n: nat) -> Seq<u8> {
    seq![
        (n / 0x100_0000 % 0x100) as u8,
        (n / 0x1_0000 % 0x100) as u8,
        (n / 0x100 % 0x100) as u8,
        (n % 0x100) as u8,
    ]
}

/// The number that four bytes give, most significant first.
pub open spec fn read_be32(s: Seq<u8>) -> nat {
    (s[0] as nat) * 0x100_0000 + (s[1] as nat) * 0x1_0000 + (s[2] as nat) * 0x100 + (s[3] as nat)
}

/// The custom section as bytes: the name by its UTF-8 encoding.
pub open spec fn section_view(cs: CustomSection) -> (Seq<u8>, Seq<u8>) {
    (encode_utf8(cs.name@), cs.contents@)
}

pub open spec fn body(m: Seq<u8>, cs: Option<(Seq<u8>, Seq<u8>)>) -> Seq<u8> {
    match cs {
        Some((n, c)) => m + custom_section(n, c),
        None => m,
    }
}

/// The versioned module for `v`, module bytes `m` and an optional custom section
/// (name bytes, contents).
pub open spec fn versioned_module(v: WasmVersion, m: Seq<u8>, cs: Option<(Seq<u8>, Seq<u8>)>) -> Seq<u8> {
    version_tag(v) + be32(body(m, cs).len()) + body(m, cs)
}

/// Where the section at `pos` starts its payload and where it ends.
pub open spec fn section_at(b: Seq<u8>, pos: int) -> Option<(u8, int, int)> {
    if 0 <= pos < b.len() {
        match leb_decode(b.skip(pos + 1), 5) {
            Some((size, k)) => Some((b[pos], pos + 1 + k, pos + 1 + k + size)),
            None => None,
        }
    } else {
        None
    }
}

/// Walk the sections of `b` from `pos`: where the module ends, and the custom section
/// that closes it, if any. A custom section must be the last.
pub open spec fn walk(b: Seq<u8>, pos: int) -> Option<(int, Option<(Seq<u8>, Seq<u8>)>)>
    decreases b.len() - pos,
{
    if pos < 0 || pos > b.len() {
        None
    } else if pos == b.len() {
        Some((pos, None))
    } else {
        match section_at(b, pos) {
            None => None,
            Some((id, start, end)) => {
                if end > b.len() || end <= pos {
                    None
                } else if id != 0 {
                    walk(b, end)
                } else if end != b.len() {
                    None
                } else {
                    match leb_decode(b.subrange(start, end), 5) {
                        Some((len, k)) => {
                            if start + k + len <= end {
                                Some(
                                    (
                                        pos,
                                        Some(
                                            (
                                                b.subrange(start + k, start + k + len),
                                                b.subrange(start + k + len, end),
                                            ),
                                        ),
                                    ),
                                )
                            } else {
                                None
                            }
                        },
                        None => None,
                    }
                }
            },
        }
    }
}

/// What a versioned module decodes to: the version, the module, the custom section.
pub open spec fn decode_spec(b: Seq<u8>) -> Option<(WasmVersion, Seq<u8>, Option<(Seq<u8>, Seq<u8>)>)> {
    if b.len() < 16 || b[0] != 0 || b[1] != 0 || b[2] != 0 || b[3] > 1 || read_be32(
        b.subrange(4, 8),
    ) != b.len() - 8 {
        None
    } else {
        let v = if b[3] == 0 {
            WasmVersion::V0
        } else {
            WasmVersion::V1
        };
        match walk(b, 16) {
            Some((end, cs)) => Some((v, b.subrange(8, end), cs)),
            None => None,
        }
    }
}

pub proof fn lemma_pow128_positive(k: nat)
    ensures
        pow128(k) >= 1,
        k >= 1 ==> pow128(k) >= 128,
    decreases k,
{
    if k > 0 {
        lemma_pow128_positive((k - 1) as nat);
    }
}

pub proof fn lemma_leb_bound(s: Seq<u8>, fuel: nat)
    ensures
        leb_decode(s, fuel) matches Some((v, k)) ==> v < pow128(fuel) && 1 <= k <= fuel && k <= s.len(),
    decreases fuel,
{
    lemma_pow128_positive(fuel);
    if fuel > 0 && s.len() > 0 && s[0] >= 128 {
        lemma_leb_bound(s.drop_first(), (fuel - 1) as nat);
        if let Some((v, k)) = leb_decode(s.drop_first(), (fuel - 1) as nat) {
            let p = pow128((fuel - 1) as nat);
            let x = (s[0] - 128) as nat;
            assert(x < 128);
            assert(x + 128 * v < 128 * p) by (nonlinear_arith)
                requires
                    x < 128,
                    v < p,
            ;
        }
    }
}

pub proof fn lemma_leb_round_trip(n: nat, rest: Seq<u8>, fuel: nat)
    requires
        n < pow128(fuel),
        fuel >= 1,
    ensures
        leb_decode(leb128(n) + rest, fuel) == Some((n, leb128(n).len())),
        1 <= leb128(n).len() <= fuel,
    decreases n,
{
    let s = leb128(n) + rest;
    if n < 128 {
        assert(s[0] == n as u8);
    } else {
        let f1 = (fuel - 1) as nat;
        lemma_pow128_positive(f1);
        assert(n / 128 < pow128(f1)) by (nonlinear_arith)
            requires
                n < 128 * pow128(f1),
        ;
        lemma_leb_round_trip(n / 128, rest, f1);
        assert(s.drop_first() =~= leb128(n / 128) + rest);
        assert(s[0] == (n % 128 + 128) as u8);
    }
}

proof fn lemma_pow128_5()
    ensures
        pow128(5) == 0x8_0000_0000,
{
    reveal_with_fuel(pow128, 6);
}

/// The version that the first four bytes of a versioned module name, if they name one.
pub fn read_module_version(bytes: &[u8]) -> (r: Option<WasmVersion>)
    ensures
        r matches Some(v) ==> bytes@.len() >= 4 && bytes@.subrange(0, 4) == version_tag(v),
        r is None <==> bytes@.len() < 4 || (bytes@.subrange(0, 4) != version_tag(WasmVersion::V0)
            && bytes@.subrange(0, 4) != version_tag(WasmVersion::V1)),
{
    if bytes.len() < 4 || bytes[0] != 0 || bytes[1] != 0 || bytes[2] != 0 || bytes[3] > 1 {
        proof {
            if bytes@.len() >= 4 {
                assert(bytes@.subrange(0, 4)[3] == bytes@[3]);
                assert(version_tag(WasmVersion::V0)[3] == 0);
                assert(version_tag(WasmVersion::V1)[3] == 1);
            }
        }
        return None;
    }
    if bytes[3] == 0 {
        assert(bytes@.subrange(0, 4) =~= version_tag(WasmVersion::V0));
        assert(bytes@.subrange(0, 4) != version_tag(WasmVersion::V1)) by {
            assert(version_tag(WasmVersion::V1)[3] == 1);
        }
        Some(WasmVersion::V0)
    } else {
        assert(bytes@.subrange(0, 4) =~= version_tag(WasmVersion::V1));
        assert(bytes@.subrange(0, 4) != version_tag(WasmVersion::V0)) by {
            assert(version_tag(WasmVersion::V0)[3] == 0);
        }
        Some(WasmVersion::V1)
    }
}

/// Read an unsigned LEB128 number of at most `fuel` bytes at `pos`.
fn read_leb(b: &[u8], pos: usize, fuel: usize) -> (r: Option<(u64, usize)>)
    requires
        pos <= b@.len(),
        fuel <= 5,
    ensures
        match leb_decode(b@.skip(pos as int), fuel as nat) {
            None => r is None,
            Some((v, k)) => r matches Some((x, y)) && x as nat == v && y as nat == k,
        },
    decreases fuel,
{
    if fuel == 0 || pos >= b.len() {
        return None;
    }
    let x = b[pos];
    assert(b@.skip(pos as int)[0] == x);
    if x < 128 {
        return Some((x as u64, 1));
    }
    assert(b@.skip(pos as int).drop_first() =~= b@.skip(pos as int + 1));
    match read_leb(b, pos + 1, fuel - 1) {
        None => None,
        Some((v, k)) => {
            proof {
                lemma_leb_bound(b@.skip(pos as int + 1), (fuel - 1) as nat);
                lemma_pow128_5();
                assert(pow128((fuel - 1) as nat) <= pow128(4)) by {
                    reveal_with_fuel(pow128, 5);
                }
            }
            Some(((x - 128) as u64 + 128 * v, k + 1))
        },
    }
}

/// Relies on concordium_wasm::output::write_custom_section, which appends section id
/// 0, the LEB128 length of the rest, the LEB128 length of the name, the name's bytes
/// and the contents. It writes into a `Vec<u8>` here, which std documents as
/// infallible: the bytes are appended.
#[verifier::external_body]
fn append_custom_section(out: &mut Vec<u8>, name: &str, contents: &[u8])
    requires
        name.spec_bytes().len() + contents@.len() + 5 < 0x1_0000_0000,
    ensures
        final(out)@ == old(out)@ + custom_section(name.spec_bytes(), contents@),
{
    let cs = WasmCustomSection { name: name.into(), contents };
    let _ = write_custom_section(out, &cs);
}

/// Append `b` to `out`.
fn append_bytes(out: &mut Vec<u8>, b: &[u8])
    ensures
        final(out)@ == old(out)@ + b@,
{
    let ghost start = out@;
    let mut i: usize = 0;
    while i < b.len()
        invariant
            i <= b@.len(),
            out@ == start + b@.subrange(0, i as int),
        decreases b.len() - i,
    {
        out.push(b[i]);
        assert(b@.subrange(0, i as int + 1) =~= b@.subrange(0, i as int).push(b@[i as int]));
        i = i + 1;
    }
    assert(b@.subrange(0, i as int) =~= b@);
}

/// The length in bytes of an optional custom section's name and contents.
pub open spec fn section_size(section: Option<&CustomSection>) -> nat {
    match section {
        Some(cs) => encode_utf8(cs.name@).len() + cs.contents@.len(),
        None => 0,
    }
}

/// Encode a module for deployment: the version tag, the length of the rest as four
/// big-endian bytes, the module's bytes and the custom section if one is given.
pub fn encode_versioned_module(version: WasmVersion, module: &[u8], section: Option<&CustomSection>) -> (r: Vec<u8>)
    requires
        module@.len() + section_size(section) + 20 < 0x1_0000_0000,
    ensures
        r@ == versioned_module(
            version,
            module@,
            match section {
                Some(cs) => Some(section_view(*cs)),
                None => None,
            },
        ),
{
    let mut out: Vec<u8> = match version {
        WasmVersion::V0 => vec![0, 0, 0, 0, 0, 0, 0, 0],
        WasmVersion::V1 => vec![0, 0, 0, 1, 0, 0, 0, 0],
    };
    let ghost head = out@;
    append_bytes(&mut out, module);
    let ghost cs = match section {
        Some(cs) => Some(section_view(*cs)),
        None => None,
    };
    match section {
        Some(cs) => {
            let name = cs.name.as_str();
            append_custom_section(&mut out, name, cs.contents.as_slice());
        },
        None => {},
    }
    assert(out@ =~= head + body(module@, cs));
    proof {
        if let Some((n, c)) = cs {
            lemma_leb_len_bound((n.len() as nat), 5);
            lemma_leb_len_bound(((leb128(n.len() as nat) + n + c).len()) as nat, 5);
        }
    }
    let size: usize = out.len() - 8;
    let size: u32 = size as u32;
    out.set(4, (size / 0x100_0000) as u8);
    out.set(5, (size / 0x1_0000 % 0x100) as u8);
    out.set(6, (size / 0x100 % 0x100) as u8);
    out.set(7, (size % 0x100) as u8);
    assert(out@ =~= version_tag(version) + be32(body(module@, cs).len()) + body(module@, cs));
    out
}

/// A custom section takes at most 11 bytes more than its name and contents.
pub proof fn lemma_custom_section_len(name: Seq<u8>, contents: Seq<u8>)
    requires
        name.len() + contents.len() + 20 < 0x1_0000_0000,
    ensures
        custom_section(name, contents).len() <= name.len() + contents.len() + 11,
{
    let payload = leb128(name.len()) + name + contents;
    lemma_leb_len_bound(name.len(), 5);
    lemma_leb_len_bound(payload.len(), 5);
}

proof fn lemma_leb_len_bound(n: nat, k: nat)
    requires
        n < 0x1_0000_0000,
        k == 5,
    ensures
        leb128(n).len() <= 5,
{
    lemma_pow128_5();
    lemma_leb_round_trip(n, seq![], 5);
}

pub open spec fn decoded_view(d: DecodedModule) -> (WasmVersion, Seq<u8>, Option<(Seq<u8>, Seq<u8>)>) {
    (
        d.version,
        d.module@,
        match d.section {
            Some((n, c)) => Some((n@, c@)),
            None => None,
        },
    )
}

/// The bytes of `b` from `from` up to `to`.
fn copy_range(b: &[u8], from: usize, to: usize) -> (r: Vec<u8>)
    requires
        from <= to <= b@.len(),
    ensures
        r@ == b@.subrange(from as int, to as int),
{
    let mut r: Vec<u8> = Vec::new();
    let mut i: usize = from;
    while i < to
        invariant
            from <= i <= to,
            to <= b@.len(),
            r@ == b@.subrange(from as int, i as int),
        decreases to - i,
    {
        r.push(b[i]);
        assert(b@.subrange(from as int, i as int + 1) =~= b@.subrange(from as int, i as int).push(b@[i as int]));
        i = i + 1;
    }
    r
}

/// Take a versioned module apart: its version, the module's bytes, and the custom
/// section that closes it, if any. `None` when the header is not a known version, the
/// length field does not match, or the sections do not parse.
pub fn decode_versioned_module(bytes: &[u8]) -> (r: Option<DecodedModule>)
    ensures
        r is None <==> decode_spec(bytes@) is None,
        r matches Some(d) ==> decode_spec(bytes@) == Some(decoded_view(d)),
{
    let ghost b = bytes@;
    let n = bytes.len();
    if n < 16 || bytes[0] != 0 || bytes[1] != 0 || bytes[2] != 0 || bytes[3] > 1 {
        return None;
    }
    let len: u64 = (bytes[4] as u64) * 0x100_0000 + (bytes[5] as u64) * 0x1_0000 + (bytes[6] as u64)
        * 0x100 + (bytes[7] as u64);
    assert(len as nat == read_be32(b.subrange(4, 8)));
    if len != (n - 8) as u64 {
        return None;
    }
    let version = if bytes[3] == 0 {
        WasmVersion::V0
    } else {
        WasmVersion::V1
    };
    let mut pos: usize = 16;
    while pos < n
        invariant
            b == bytes@,
            n == b.len(),
            16 <= pos <= n,
            walk(b, 16) == walk(b, pos as int),
            decode_spec(b) == match walk(b, 16) {
                Some((end, cs)) => Some((version, b.subrange(8, end), cs)),
                None => None,
            },
        decreases n - pos,
    {
        let id = bytes[pos];
        let (size, k) = match read_leb(bytes, pos + 1, 5) {
            None => return None,
            Some(x) => x,
        };
        proof {
            lemma_leb_bound(b.skip(pos as int + 1), 5);
        }
        let start: usize = pos + 1 + k;
        if size > (n - start) as u64 {
            return None;
        }
        let end: usize = start + size as usize;
        if id != 0 {
            pos = end;
        } else {
            if end != n {
                return None;
            }
            assert(b.subrange(start as int, end as int) =~= b.skip(start as int));
            let (name_len, k2) = match read_leb(bytes, start, 5) {
                None => return None,
                Some(x) => x,
            };
            proof {
                lemma_leb_bound(b.skip(start as int), 5);
            }
            if name_len > (n - start - k2) as u64 {
                return None;
            }
            let name_end: usize = start + k2 + name_len as usize;
            let module = copy_range(bytes, 8, pos);
            let name = copy_range(bytes, start + k2, name_end);
            let contents = copy_range(bytes, name_end, n);
            return Some(DecodedModule { version, module, section: Some((name, contents)) });
        }
    }
    let module = copy_range(bytes, 8, n);
    Some(DecodedModule { version, module, section: None })
}

proof fn lemma_be32(l: nat)
    requires
        l < 0x1_0000_0000,
    ensures
        read_be32(be32(l)) == l,
{
    let s = be32(l);
    assert(s[0] as nat == l / 0x100_0000 % 0x100);
    assert(s[1] as nat == l / 0x1_0000 % 0x100);
    assert(s[2] as nat == l / 0x100 % 0x100);
    assert(s[3] as nat == l % 0x100);
    assert((l / 0x100_0000 % 0x100) * 0x100_0000 + (l / 0x1_0000 % 0x100) * 0x1_0000 + (l / 0x100
        % 0x100) * 0x100 + l % 0x100 == l) by (nonlinear_arith)
        requires
            l < 0x1_0000_0000,
    ;
}

/// The walk passes over sections that are not custom sections.
proof fn lemma_walk_sections(b: Seq<u8>, pos: int, ss: Seq<(u8, Seq<u8>)>)
    requires
        plain_sections(ss),
        0 <= pos,
        pos + sections(ss).len() <= b.len(),
        b.subrange(pos, pos + sections(ss).len()) == sections(ss),
    ensures
        walk(b, pos) == walk(b, pos + sections(ss).len()),
    decreases ss.len(),
{
    if ss.len() > 0 {
        let id = ss[0].0;
        let p = ss[0].1;
        let rest = ss.drop_first();
        let lb = leb128(p.len());
        let sec = section(id, p);
        assert(sections(ss) == sec + sections(rest));
        let end = pos + sec.len() as int;
        assert(b.subrange(pos, end) =~= sec) by {
            assert(b.subrange(pos, end) =~= b.subrange(pos, pos + sections(ss).len()).subrange(0, sec.len() as int));
        }
        assert(b[pos] == id) by {
            assert(b.subrange(pos, end)[0] == b[pos]);
        }
        lemma_pow128_5();
        lemma_leb_round_trip(p.len(), b.skip(pos + 1 + lb.len()), 5);
        assert(b.skip(pos + 1) =~= lb + b.skip(pos + 1 + lb.len())) by {
            assert forall|i: int| 0 <= i < lb.len() implies b.skip(pos + 1)[i] == lb[i] by {
                assert(b.subrange(pos, end)[1 + i] == sec[1 + i]);
            }
        }
        assert(section_at(b, pos) == Some((id, pos + 1 + lb.len(), end)));
        assert forall|i: int| 0 <= i < rest.len() implies (#[trigger] rest[i]).0 != 0 && rest[i].1.len() < 0x1_0000_0000 by {
            assert(rest[i] == ss[i + 1]);
        }
        assert(b.subrange(end, end + sections(rest).len()) =~= sections(rest)) by {
            assert(b.subrange(end, end + sections(rest).len()) =~= b.subrange(pos, pos + sections(ss).len()).subrange(sec.len() as int, sections(ss).len() as int));
        }
        lemma_walk_sections(b, end, rest);
    }
}

/// A custom section that closes the bytes ends the walk.
proof fn lemma_walk_custom(b: Seq<u8>, e: int, name: Seq<u8>, contents: Seq<u8>)
    requires
        0 <= e <= b.len(),
        b.skip(e) == custom_section(name, contents),
        name.len() + contents.len() + 5 < 0x1_0000_0000,
    ensures
        walk(b, e) == Some((e, Some((name, contents)))),
{
    let ln = leb128(name.len());
    let payload = ln + name + contents;
    let lp = leb128(payload.len());
    lemma_pow128_5();
    lemma_leb_len_bound(name.len(), 5);
    lemma_leb_round_trip(payload.len(), payload, 5);
    lemma_leb_round_trip(name.len(), name + contents, 5);
    let start = e + 1 + lp.len() as int;
    let k2 = ln.len() as int;
    assert(custom_section(name, contents) =~= seq![0u8] + (lp + payload));
    assert(e < b.len());
    assert(b.skip(e)[0] == b[e]);
    assert(b.skip(e + 1) =~= b.skip(e).drop_first());
    assert(b.skip(e + 1) =~= lp + payload);
    assert(section_at(b, e) == Some((0u8, start, b.len() as int)));
    assert(b.subrange(start, b.len() as int) =~= (lp + payload).skip(lp.len() as int));
    assert((lp + payload).skip(lp.len() as int) =~= payload);
    assert(payload =~= ln + (name + contents));
    assert(b.subrange(start + k2, start + k2 + name.len()) =~= payload.subrange(k2, k2 + name.len()));
    assert(payload.subrange(k2, k2 + name.len()) =~= name);
    assert(b.subrange(start + k2 + name.len(), b.len() as int) =~= payload.skip(k2 + name.len()));
    assert(payload.skip(k2 + name.len()) =~= contents);
}

/// Decoding a versioned module gives back the version, the module and the custom
/// section that it was encoded from, and its length field counts the bytes after the
/// first 8.
pub proof fn lemma_decode_encode(v: WasmVersion, m: Seq<u8>, cs: Option<(Seq<u8>, Seq<u8>)>)
    requires
        is_stripped_module(m),
        body(m, cs).len() < 0x1_0000_0000,
    ensures
        decode_spec(versioned_module(v, m, cs)) == Some((v, m, cs)),
        read_be32(versioned_module(v, m, cs).subrange(4, 8)) == versioned_module(v, m, cs).len() - 8,
{
    let b = versioned_module(v, m, cs);
    let bd = body(m, cs);
    let ss = choose|ss: Seq<(u8, Seq<u8>)>| plain_sections(ss) && m.skip(8) == sections(ss);
    lemma_be32(bd.len());
    assert(b.subrange(4, 8) =~= be32(bd.len()));
    let e = (m.len() + 8) as int;
    assert(b.subrange(8, e) =~= m);
    assert(b.subrange(16, e) =~= sections(ss)) by {
        assert(b.subrange(16, e) =~= m.skip(8));
    }
    lemma_walk_sections(b, 16, ss);
    match cs {
        None => {
            assert(walk(b, e) == Some((e, None::<(Seq<u8>, Seq<u8>)>)));
        },
        Some((name, contents)) => {
            assert(b.skip(e) =~= custom_section(name, contents));
            lemma_walk_custom(b, e, name, contents);
        },
    }
}

} // verus!
