//! Layout of the printed summary of a schema.
use crate::closest::views;
use vstd::prelude::*;
use vstd::string::*;

verus! {

/// The largest number of characters among `names` (0 for none).
pub open spec fn max_len(names: Seq<Seq<char>>) -> nat
    decreases names.len(),
{
    if names.len() == 0 {
        0
    } else {
        let rest = max_len(names.drop_last());
        if names.last().len() > rest {
            names.last().len()
        } else {
            rest
        }
    }
}

/// The column of the colons when entrypoint names are listed one per line: the width
/// of the longest name, and at least 5.
pub open spec fn colon_position(names: Seq<Seq<char>>) -> nat {
    if max_len(names) > 5 {
        max_len(names)
    } else {
        5
    }
}

/// Based on the entrypoint names, the column at which the colons of a printed list
/// line up.
pub fn get_colon_position(names: &Vec<String>) -> (r: usize)
    ensures
        r as nat == colon_position(views(names@)),
{
    let ghost all = views(names@);
    let mut m: usize = 5;
    let mut i: usize = 0;
    while i < names.len()
        invariant
            all == views(names@),
            i <= names@.len(),
            m as nat == colon_position(all.subrange(0, i as int)),
        decreases names.len() - i,
    {
        let len = names[i].as_str().unicode_len();
        assert(all.subrange(0, i as int + 1).drop_last() =~= all.subrange(0, i as int));
        assert(all.subrange(0, i as int + 1).last() == names@[i as int]@);
        if len > m {
            m = len;
        }
        i = i + 1;
    }
    assert(all.subrange(0, i as int) =~= all);
    m
}

} // verus!
