//! Checks that the exports of a module follow the naming rules of the chain.
use crate::closest::{closest, find_closest, views};
use crate::names::{
    init_contract, is_init_name, is_receive_name, parse_contract_name, parse_receive_name,
    receive_contract,
};
use crate::order::{
    insert_sorted, lemma_lex_total, lemma_lex_transitive, lex_less, lex_lt, sorted,
};
use crate::WasmVersion;
use vstd::prelude::*;

verus! {

/// One entry of a module's export table.
#[derive(Debug)]
pub struct ExportEntry {
    pub name: String,
    /// The export is a function (not a memory, table or global).
    pub is_function: bool,
}

/// Why the exports of a module are refused.
#[derive(Debug)]
pub enum ExportError {
    /// A V0 module exports a function that is neither an init nor a receive function.
    UnexpectedExport(String),
    /// Entrypoints are declared for `contract`, which the module does not hold;
    /// `suggestions` are the declared contracts closest to it (empty when the module
    /// declares no contract at all).
    UnknownContract { contract: String, suggestions: Vec<String> },
}

/// An export by its name and whether it is a function.
pub open spec fn entry_views(e: Seq<ExportEntry>) -> Seq<(Seq<char>, bool)> {
    e.map_values(|x: ExportEntry| (x.name@, x.is_function))
}

/// The export at `i` is a function whose name fits neither grammar.
pub open spec fn is_other(e: Seq<(Seq<char>, bool)>, i: int) -> bool {
    e[i].1 && !is_init_name(e[i].0) && !is_receive_name(e[i].0)
}

/// Some function among the first `n` exports declares contract `c`.
pub open spec fn declares_upto(e: Seq<(Seq<char>, bool)>, n: int, c: Seq<char>) -> bool {
    exists|i: int| 0 <= i < n && e[i].1 && is_init_name(e[i].0) && #[trigger] init_contract(e[i].0) == c
}

pub open spec fn declares(e: Seq<(Seq<char>, bool)>, c: Seq<char>) -> bool {
    declares_upto(e, e.len() as int, c)
}

/// Some function among the first `n` exports is a receive function of contract `g`.
pub open spec fn group_upto(e: Seq<(Seq<char>, bool)>, n: int, g: Seq<char>) -> bool {
    exists|i: int|
        0 <= i < n && e[i].1 && !is_init_name(e[i].0) && is_receive_name(e[i].0)
            && #[trigger] receive_contract(e[i].0) == g
}

pub open spec fn has_group(e: Seq<(Seq<char>, bool)>, g: Seq<char>) -> bool {
    group_upto(e, e.len() as int, g)
}

/// Entrypoints are declared for contract `g`, which no init function declares.
pub open spec fn unmatched(e: Seq<(Seq<char>, bool)>, g: Seq<char>) -> bool {
    has_group(e, g) && !declares(e, g)
}

/// `cs` lists the contracts that `e` declares, sorted, each once.
pub open spec fn lists_contracts(e: Seq<(Seq<char>, bool)>, cs: Seq<Seq<char>>) -> bool {
    sorted(cs) && forall|c: Seq<char>| cs.contains(c) <==> declares(e, c)
}

/// `s` are the contracts of `e` closest to `g`, in sorted order: what `find_closest`
/// gives over the sorted list of declared contracts.
pub open spec fn suggests(e: Seq<(Seq<char>, bool)>, g: Seq<char>, s: Seq<Seq<char>>) -> bool {
    exists|cs: Seq<Seq<char>>| lists_contracts(e, cs) && closest(cs, g) == Some(s)
}

/// The exports of `e` are acceptable for `version`: under V0 every function export is
/// an init or a receive function, and every contract that receive functions name is
/// declared by an init function.
pub open spec fn exports_ok(e: Seq<(Seq<char>, bool)>, version: WasmVersion) -> bool {
    &&& (version == WasmVersion::V0 ==> forall|i: int| 0 <= i < e.len() ==> !is_other(e, i))
    &&& forall|g: Seq<char>| !unmatched(e, g)
}

pub open spec fn is_first_other(e: Seq<(Seq<char>, bool)>, i: int) -> bool {
    &&& 0 <= i < e.len()
    &&& is_other(e, i)
    &&& forall|j: int| 0 <= j < i ==> !is_other(e, j)
}

/// `g` is the first unmatched group in sorted order.
pub open spec fn is_least_unmatched(e: Seq<(Seq<char>, bool)>, g: Seq<char>) -> bool {
    &&& unmatched(e, g)
    &&& forall|h: Seq<char>| unmatched(e, h) ==> h == g || lex_lt(g, h)
}

proof fn lemma_declares_step(e: Seq<(Seq<char>, bool)>, i: int)
    requires
        0 <= i < e.len(),
    ensures
        forall|c: Seq<char>|
            #[trigger] declares_upto(e, i + 1, c) <==> (declares_upto(e, i, c) || (e[i].1 && is_init_name(
                e[i].0,
            ) && init_contract(e[i].0) == c)),
        forall|g: Seq<char>|
            #[trigger] group_upto(e, i + 1, g) <==> (group_upto(e, i, g) || (e[i].1 && !is_init_name(
                e[i].0,
            ) && is_receive_name(e[i].0) && receive_contract(e[i].0) == g)),
{
    assert forall|c: Seq<char>|
        #[trigger] declares_upto(e, i + 1, c) <==> (declares_upto(e, i, c) || (e[i].1 && is_init_name(
            e[i].0,
        ) && init_contract(e[i].0) == c)) by {
        if declares_upto(e, i, c) {
            let k = choose|k: int|
                0 <= k < i && e[k].1 && is_init_name(e[k].0) && #[trigger] init_contract(e[k].0) == c;
            assert(declares_upto(e, i + 1, c));
        }
        if declares_upto(e, i + 1, c) {
            let k = choose|k: int|
                0 <= k < i + 1 && e[k].1 && is_init_name(e[k].0) && #[trigger] init_contract(e[k].0) == c;
            if k < i {
                assert(declares_upto(e, i, c));
            }
        }
    }
    assert forall|g: Seq<char>|
        #[trigger] group_upto(e, i + 1, g) <==> (group_upto(e, i, g) || (e[i].1 && !is_init_name(e[i].0)
            && is_receive_name(e[i].0) && receive_contract(e[i].0) == g)) by {
        if group_upto(e, i, g) {
            let k = choose|k: int|
                0 <= k < i && e[k].1 && !is_init_name(e[k].0) && is_receive_name(e[k].0)
                    && #[trigger] receive_contract(e[k].0) == g;
            assert(group_upto(e, i + 1, g));
        }
        if group_upto(e, i + 1, g) {
            let k = choose|k: int|
                0 <= k < i + 1 && e[k].1 && !is_init_name(e[k].0) && is_receive_name(e[k].0)
                    && #[trigger] receive_contract(e[k].0) == g;
            if k < i {
                assert(group_upto(e, i, g));
            }
        }
    }
}

/// Whether `name` is in the list.
fn contains_name(v: &Vec<String>, name: &String) -> (r: bool)
    ensures
        r == views(v@).contains(name@),
{
    let ghost w = views(v@);
    let mut i: usize = 0;
    while i < v.len()
        invariant
            w == views(v@),
            i <= v@.len(),
            forall|k: int| 0 <= k < i ==> w[k] != name@,
        decreases v.len() - i,
    {
        if v[i] == *name {
            assert(w[i as int] == name@);
            return true;
        }
        i = i + 1;
    }
    false
}

/// Check that the exports follow the rules of the chain. Function exports must be
/// init or receive functions (V1 allows others too), and every contract that a
/// receive function names must be declared by an init function. On a violation the
/// error names the first offending export, or the first unknown contract in sorted
/// order together with the closest declared contract names.
pub fn check_exports(exports: &Vec<ExportEntry>, version: WasmVersion) -> (r: Result<(), ExportError>)
    ensures
        r is Ok <==> exports_ok(entry_views(exports@), version),
        r matches Err(ExportError::UnexpectedExport(n)) ==> version == WasmVersion::V0 && exists|i: int|
            is_first_other(entry_views(exports@), i) && entry_views(exports@)[i].0 == n@,
        (version == WasmVersion::V0 && exists|i: int|
            0 <= i < exports@.len() && is_other(entry_views(exports@), i)) ==> r is Err && r->Err_0 is UnexpectedExport,
        r matches Err(ExportError::UnknownContract { contract, suggestions }) ==> {
            &&& is_least_unmatched(entry_views(exports@), contract@)
            &&& suggests(entry_views(exports@), contract@, views(suggestions@))
        },
{
    let ghost e = entry_views(exports@);
    let mut contracts: Vec<String> = Vec::new();
    let mut groups: Vec<String> = Vec::new();
    let mut i: usize = 0;
    while i < exports.len()
        invariant
            e == entry_views(exports@),
            e.len() == exports@.len(),
            i <= e.len(),
            sorted(views(contracts@)),
            forall|c: Seq<char>| views(contracts@).contains(c) <==> declares_upto(e, i as int, c),
            forall|g: Seq<char>| views(groups@).contains(g) <==> group_upto(e, i as int, g),
            version == WasmVersion::V0 ==> forall|j: int| 0 <= j < i ==> !is_other(e, j),
        decreases e.len() - i,
    {
        let entry = &exports[i];
        let ghost n = entry.name@;
        assert(e[i as int] == (n, entry.is_function));
        proof {
            lemma_declares_step(e, i as int);
        }
        if entry.is_function {
            match parse_contract_name(entry.name.as_str()) {
                Some(cn) => {
                    insert_sorted(&mut contracts, cn);
                },
                None => {
                    match parse_receive_name(entry.name.as_str()) {
                        Some((cn, _entrypoint)) => {
                            let ghost before = views(groups@);
                            groups.push(cn);
                            let ghost after = views(groups@);
                            assert(after =~= before.push(receive_contract(n)));
                            assert forall|g: Seq<char>| after.contains(g) <==> (before.contains(g) || g == receive_contract(n)) by {
                                if after.contains(g) {
                                    let m = choose|m: int| 0 <= m < after.len() && after[m] == g;
                                    if m < before.len() {
                                        assert(before[m] == g);
                                    }
                                }
                                if before.contains(g) {
                                    let m = choose|m: int| 0 <= m < before.len() && before[m] == g;
                                    assert(after[m] == g);
                                }
                                if g == receive_contract(n) {
                                    assert(after[before.len() as int] == g);
                                }
                            }
                        },
                        None => {
                            if version == WasmVersion::V0 {
                                assert(is_first_other(e, i as int));
                                return Err(ExportError::UnexpectedExport(entry.name.clone()));
                            }
                        },
                    }
                },
            }
        }
        i = i + 1;
    }
    let ghost cs = views(contracts@);
    assert(lists_contracts(e, cs));
    // The first unmatched group in sorted order, with its suggestions.
    let mut best: Option<(String, Vec<String>)> = None;
    let mut j: usize = 0;
    while j < groups.len()
        invariant
            e == entry_views(exports@),
            cs == views(contracts@),
            lists_contracts(e, cs),
            forall|g: Seq<char>| views(groups@).contains(g) <==> has_group(e, g),
            j <= groups.len(),
            best is None ==> forall|k: int| 0 <= k < j ==> !unmatched(e, #[trigger] views(groups@)[k]),
            best matches Some((g, s)) ==> {
                &&& unmatched(e, g@)
                &&& closest(cs, g@) == Some(views(s@))
                &&& forall|k: int|
                    0 <= k < j && unmatched(e, #[trigger] views(groups@)[k]) ==> views(groups@)[k] == g@
                        || lex_lt(g@, views(groups@)[k])
            },
        decreases groups.len() - j,
    {
        let g = &groups[j];
        let ghost gv = views(groups@)[j as int];
        assert(gv == g@);
        assert(views(groups@).contains(gv));
        assert(has_group(e, gv));
        if contains_name(&contracts, g) {
            assert(declares(e, gv));
        } else {
            let list = match find_closest(&contracts, g.as_str()) {
                Some(list) => list,
                None => {
                    // Unreachable: `g` is not in the list, so no candidate equals it.
                    assert(false);
                    Vec::new()
                },
            };
            let replace = match &best {
                None => true,
                Some((b, _)) => lex_less(g.as_str(), b.as_str()),
            };
            let ghost prev = best;
            proof {
                if let Some((b, s)) = prev {
                    if replace {
                        assert forall|k: int|
                            0 <= k < j + 1 && unmatched(e, #[trigger] views(groups@)[k]) implies views(groups@)[k] == gv
                                || lex_lt(gv, views(groups@)[k]) by {
                            if k < j && views(groups@)[k] != b@ {
                                lemma_lex_transitive(gv, b@, views(groups@)[k]);
                            }
                        }
                    } else {
                        lemma_lex_total(g@, b@);
                    }
                }
            }
            if replace {
                best = Some((g.clone(), list));
            }
        }
        j = j + 1;
    }
    match best {
        None => {
            assert forall|g: Seq<char>| !unmatched(e, g) by {
                if unmatched(e, g) {
                    let k = choose|k: int| 0 <= k < views(groups@).len() && views(groups@)[k] == g;
                }
            }
            Ok(())
        },
        Some((g, s)) => {
            assert forall|h: Seq<char>| unmatched(e, h) implies h == g@ || lex_lt(g@, h) by {
                let k = choose|k: int| 0 <= k < views(groups@).len() && views(groups@)[k] == h;
            }
            assert(lists_contracts(e, cs) && closest(cs, g@) == Some(views(s@)));
            assert(is_least_unmatched(e, g@));
            assert(suggests(e, g@, views(s@)));
            Err(ExportError::UnknownContract { contract: g, suggestions: s })
        },
    }
}

} // verus!
