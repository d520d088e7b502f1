//! The two export-name shapes that the chain recognises: an init name
//! `init_<contract>` and a receive name `<contract>.<entrypoint>`.
use concordium_contracts_common::{ContractName, ReceiveName};
use vstd::prelude::*;
use vstd::string::*;

verus! {

/// Longest export name, in bytes, that the chain accepts.
pub const MAX_FUNC_NAME_SIZE: usize = 100;

/// An ASCII alphanumeric or punctuation character (`'!'..='~'`).
pub open spec fn is_name_char(c: char) -> bool {
    0x21 <= (c as int) && (c as int) <= 0x7e
}

pub open spec fn init_prefix() -> Seq<char> {
    seq!['i', 'n', 'i', 't', '_']
}

/// `s` is an initialisation function name: `init_` followed by the contract name,
/// no `.`, at most 100 characters, all of them ASCII alphanumeric or punctuation.
pub open spec fn is_init_name(s: Seq<char>) -> bool {
    &&& s.len() >= 5
    &&& s.subrange(0, 5) == init_prefix()
    &&& s.len() <= MAX_FUNC_NAME_SIZE
    &&& forall|i: int| 0 <= i < s.len() ==> s[i] != '.' && is_name_char(#[trigger] s[i])
}

/// `s` is a receive function name: it holds a `.`, has at most 100 characters,
/// all of them ASCII alphanumeric or punctuation.
pub open spec fn is_receive_name(s: Seq<char>) -> bool {
    &&& exists|i: int| 0 <= i < s.len() && s[i] == '.'
    &&& s.len() <= MAX_FUNC_NAME_SIZE
    &&& forall|i: int| 0 <= i < s.len() ==> is_name_char(#[trigger] s[i])
}

/// `i` is the position of the first `.` in `s`.
pub open spec fn is_first_dot(s: Seq<char>, i: int) -> bool {
    &&& 0 <= i < s.len()
    &&& s[i] == '.'
    &&& forall|j: int| 0 <= j < i ==> s[j] != '.'
}

pub open spec fn first_dot(s: Seq<char>) -> int {
    choose|i: int| is_first_dot(s, i)
}

/// The contract that an init name declares: the name without `init_`.
pub open spec fn init_contract(s: Seq<char>) -> Seq<char> {
    s.subrange(5, s.len() as int)
}

/// The contract part of a receive name: what stands before the first `.`.
pub open spec fn receive_contract(s: Seq<char>) -> Seq<char> {
    s.subrange(0, first_dot(s))
}

/// The entrypoint part of a receive name: what follows the first `.`; empty for the
/// fallback entrypoint.
pub open spec fn receive_entrypoint(s: Seq<char>) -> Seq<char> {
    s.subrange(first_dot(s) + 1, s.len() as int)
}

pub proof fn lemma_first_dot_unique(s: Seq<char>, i: int)
    requires
        is_first_dot(s, i),
    ensures
        first_dot(s) == i,
{
    let k = first_dot(s);
    assert(is_first_dot(s, k));
    if k < i {
        assert(s[k] != '.');
    } else if i < k {
        assert(s[i] != '.');
    }
}

/// The two grammars exclude each other: no string is both an init name and a
/// receive name.
pub proof fn lemma_names_exclusive(s: Seq<char>)
    ensures
        !(is_init_name(s) && is_receive_name(s)),
{
    if is_init_name(s) && is_receive_name(s) {
        let i = choose|i: int| 0 <= i < s.len() && s[i] == '.';
        assert(s[i] != '.');
    }
}

/// Relies on concordium_contracts_common::ContractName::new, which accepts exactly
/// the strings that start with `init_`, are at most 100 bytes long, hold no `.`, and
/// consist of ASCII alphanumeric or punctuation characters (a string of such
/// characters has as many bytes as characters).
#[verifier::external_body]
fn accepts_init_name(s: &str) -> (r: bool)
    ensures
        r == is_init_name(s@),
{
    ContractName::new(s).is_ok()
}

/// Relies on concordium_contracts_common::ReceiveName::new, which accepts exactly
/// the strings that hold a `.`, are at most 100 bytes long, and consist of ASCII
/// alphanumeric or punctuation characters.
#[verifier::external_body]
fn accepts_receive_name(s: &str) -> (r: bool)
    ensures
        r == is_receive_name(s@),
{
    ReceiveName::new(s).is_ok()
}

/// Parse an init export name into the contract name that it declares.
pub fn parse_contract_name(s: &str) -> (r: Option<String>)
    ensures
        r is Some <==> is_init_name(s@),
        r matches Some(n) ==> n@ == init_contract(s@),
{
    if accepts_init_name(s) {
        let n = s.unicode_len();
        Some(String::from_str(s.substring_char(5, n)))
    } else {
        None
    }
}

/// Position of the first `.` in `s`, if any.
fn find_dot(s: &str) -> (r: Option<usize>)
    ensures
        r matches Some(i) ==> is_first_dot(s@, i as int),
        r is None ==> forall|j: int| 0 <= j < s@.len() ==> s@[j] != '.',
{
    let n = s.unicode_len();
    let mut i: usize = 0;
    while i < n
        invariant
            n == s@.len(),
            i <= n,
            forall|j: int| 0 <= j < i ==> s@[j] != '.',
        decreases n - i,
    {
        if s.get_char(i) == '.' {
            return Some(i);
        }
        i = i + 1;
    }
    None
}

/// Parse a receive export name into its contract part and its entrypoint part.
pub fn parse_receive_name(s: &str) -> (r: Option<(String, String)>)
    ensures
        r is Some <==> is_receive_name(s@),
        r matches Some((c, e)) ==> c@ == receive_contract(s@) && e@ == receive_entrypoint(s@),
{
    if !accepts_receive_name(s) {
        return None;
    }
    match find_dot(s) {
        Some(i) => {
            proof {
                lemma_first_dot_unique(s@, i as int);
            }
            let n = s.unicode_len();
            let c = String::from_str(s.substring_char(0, i));
            let e = String::from_str(s.substring_char(i + 1, n));
            Some((c, e))
        },
        None => {
            // Unreachable: a receive name holds a dot.
            proof {
                let j = choose|j: int| 0 <= j < s@.len() && s@[j] == '.';
                assert(s@[j] != '.');
            }
            None
        },
    }
}

} // verus!
