//! Small pieces of the operating-system layer that are pure computation:
//! the error number, and the joining and splitting of search paths.

use vstd::prelude::*;
use crate::split::{
    entries, join, joined, lemma_join_pieces, lemma_pieces_join, pieces, separable, split,
};

verus! {

/// The byte that separates the entries of a search path.
pub const PATH_LIST_SEP: u8 = 58;

/// The error that `join_paths` gives where an entry holds the separator.
#[derive(Debug)]
pub struct JoinPathsError;

impl JoinPathsError {
    /// What went wrong, for a reader.
    pub fn message(&self) -> (text: &'static str)
        ensures
            text@ == "path segment contains separator `:`"@,
    {
        "path segment contains separator `:`"
    }

    /// The kind of the error, in a few words.
    pub fn description(&self) -> (text: &'static str)
        ensures
            text@ == "failed to join paths"@,
    {
        "failed to join paths"
    }
}

/// The error number of the last system call. System calls hand their
/// result back directly, so there is none to report.
pub fn errno() -> (e: i32)
    ensures
        e == 0,
{
    0
}

/// Whether an entry holds the separator.
fn any_holds_separator(paths: &Vec<Vec<u8>>) -> (found: bool)
    ensures
        found == !separable(entries(paths@), PATH_LIST_SEP),
{
    let mut i: usize = 0;
    while i < paths.len()
        invariant
            i <= paths.len(),
            separable(entries(paths@).take(i as int), PATH_LIST_SEP),
        decreases paths.len() - i,
    {
        let path = &paths[i];
        let mut k: usize = 0;
        while k < path.len()
            invariant
                k <= path.len(),
                i < paths.len(),
                path@ == entries(paths@)[i as int],
                forall|q: int| 0 <= q < k ==> path@[q] != PATH_LIST_SEP,
            decreases path.len() - k,
        {
            if path[k] == PATH_LIST_SEP {
                proof {
                    assert(path@[k as int] == PATH_LIST_SEP);
                    assert(entries(paths@)[i as int].contains(PATH_LIST_SEP));
                }
                return true;
            }
            k += 1;
        }
        proof {
            let next = entries(paths@).take(i + 1);
            assert forall|j: int| 0 <= j < next.len() implies !(#[trigger] next[j]).contains(
                PATH_LIST_SEP,
            ) by {
                if j < i {
                    assert(next[j] == entries(paths@).take(i as int)[j]);
                }
            }
        }
        i += 1;
    }
    proof {
        assert(entries(paths@).take(i as int) =~= entries(paths@));
    }
    false
}

/// Joins the entries of a search path with `:` between them. Fails iff an
/// entry holds a `:` itself, since it could not be told from a separator
/// afterwards.
pub fn join_paths(paths: &Vec<Vec<u8>>) -> (r: Result<Vec<u8>, JoinPathsError>)
    ensures
        r is Ok <==> separable(entries(paths@), PATH_LIST_SEP),
        r matches Ok(v) ==> v@ == joined(entries(paths@), PATH_LIST_SEP),
{
    if any_holds_separator(paths) {
        Err(JoinPathsError)
    } else {
        Ok(join(paths, PATH_LIST_SEP))
    }
}

/// Splits a search path at each `:`. The entries, joined again, are the
/// input, and none of them holds a `:`; an empty input is one empty entry.
pub fn split_paths(unparsed: &[u8]) -> (paths: Vec<Vec<u8>>)
    ensures
        entries(paths@) == pieces(unparsed@, PATH_LIST_SEP),
        joined(entries(paths@), PATH_LIST_SEP) == unparsed@,
        separable(entries(paths@), PATH_LIST_SEP),
        paths@.len() >= 1,
{
    proof {
        lemma_pieces_join(unparsed@, PATH_LIST_SEP);
    }
    split(unparsed, PATH_LIST_SEP)
}

/// Splitting what was joined gives the entries back, where there is at
/// least one and the joining did not fail.
pub proof fn law_split_undoes_join(paths: Seq<Seq<u8>>)
    requires
        paths.len() >= 1,
        separable(paths, PATH_LIST_SEP),
    ensures
        pieces(joined(paths, PATH_LIST_SEP), PATH_LIST_SEP) == paths,
{
    lemma_join_pieces(paths, PATH_LIST_SEP);
}

/// The byte that separates the name of an environment variable from its
/// value.
pub const ENV_SEP: u8 = 61;

/// Divides an environment entry into name and value at its first `=` that
/// is not its first byte. An entry that is empty or has no such `=` is
/// malformed and gives nothing.
pub fn parse_env_entry(input: &[u8]) -> (r: Option<(Vec<u8>, Vec<u8>)>)
    ensures
        r is Some <==> exists|p: int| 1 <= p < input@.len() && input@[p] == ENV_SEP,
        r matches Some((name, value)) ==> {
            &&& name@.len() >= 1
            &&& name@ + seq![ENV_SEP] + value@ == input@
            &&& forall|q: int| 1 <= q < name@.len() ==> name@[q] != ENV_SEP
        },
{
    if input.len() == 0 {
        return None;
    }
    let mut p: usize = 1;
    while p < input.len()
        invariant
            1 <= p <= input.len(),
            forall|q: int| 1 <= q < p ==> input@[q] != ENV_SEP,
        decreases input.len() - p,
    {
        if input[p] == ENV_SEP {
            let mut name: Vec<u8> = Vec::new();
            let mut i: usize = 0;
            while i < p
                invariant
                    i <= p < input.len(),
                    name@ == input@.take(i as int),
                decreases p - i,
            {
                name.push(input[i]);
                proof {
                    assert(input@.take(i + 1) =~= input@.take(i as int).push(input@[i as int]));
                }
                i += 1;
            }
            let mut value: Vec<u8> = Vec::new();
            let mut j: usize = p + 1;
            while j < input.len()
                invariant
                    p < j <= input.len(),
                    value@ == input@.subrange(p + 1, j as int),
                decreases input.len() - j,
            {
                value.push(input[j]);
                proof {
                    assert(input@.subrange(p + 1, j + 1) =~= input@.subrange(p + 1, j as int).push(
                        input@[j as int],
                    ));
                }
                j += 1;
            }
            proof {
                assert(name@ + seq![ENV_SEP] + value@ =~= input@);
            }
            return Some((name, value));
        }
        p += 1;
    }
    None
}

} // verus!
