//! Byte strings cut at a separator, and put together again.

use vstd::prelude::*;

verus! {

/// The byte strings as sequences.
pub open spec fn entries(parts: Seq<Vec<u8>>) -> Seq<Seq<u8>> {
    Seq::new(parts.len(), |i: int| parts[i]@)
}

/// The parts written one after the other with a separator between each two
/// of them.
pub open spec fn joined(parts: Seq<Seq<u8>>, sep: u8) -> Seq<u8>
    decreases parts.len(),
{
    if parts.len() == 0 {
        Seq::empty()
    } else if parts.len() == 1 {
        parts[0]
    } else {
        joined(parts.drop_last(), sep) + seq![sep] + parts.last()
    }
}

/// Whether no part holds the separator.
pub open spec fn separable(parts: Seq<Seq<u8>>, sep: u8) -> bool {
    forall|i: int| 0 <= i < parts.len() ==> !(#[trigger] parts[i]).contains(sep)
}

/// The parts that the separators cut a string into: one more than there are
/// separators, some of them empty where separators stand side by side or at
/// an end.
pub open spec fn pieces(s: Seq<u8>, sep: u8) -> Seq<Seq<u8>>
    decreases s.len(),
{
    if s.len() == 0 {
        seq![Seq::empty()]
    } else {
        let before = pieces(s.drop_last(), sep);
        if s.last() == sep {
            before.push(Seq::empty())
        } else {
            before.drop_last().push(before.last().push(s.last()))
        }
    }
}

/// The pieces of a string are at least one, hold no separator, and joined
/// again are the string.
pub proof fn lemma_pieces_join(s: Seq<u8>, sep: u8)
    ensures
        pieces(s, sep).len() >= 1,
        separable(pieces(s, sep), sep),
        joined(pieces(s, sep), sep) == s,
    decreases s.len(),
{
    if s.len() == 0 {
        assert(joined(pieces(s, sep), sep) =~= s);
    } else {
        let before = pieces(s.drop_last(), sep);
        let after = pieces(s, sep);
        lemma_pieces_join(s.drop_last(), sep);
        if s.last() == sep {
            assert(after.drop_last() =~= before);
            assert(joined(after, sep) =~= joined(before, sep) + seq![sep]);
            assert(joined(after, sep) =~= s.drop_last().push(sep));
            assert(s.drop_last().push(sep) =~= s);
            assert forall|i: int| 0 <= i < after.len() implies !(#[trigger] after[i]).contains(
                sep,
            ) by {
                if i < before.len() {
                    assert(after[i] == before[i]);
                }
            }
        } else {
            lemma_joined_grows(before, sep, s.last());
            assert(s.drop_last().push(s.last()) =~= s);
            assert forall|i: int| 0 <= i < after.len() implies !(#[trigger] after[i]).contains(
                sep,
            ) by {
                if i < before.len() - 1 {
                    assert(after[i] == before[i]);
                } else {
                    assert(!before[i].contains(sep));
                    assert forall|k: int| 0 <= k < after[i].len() implies after[i][k] != sep by {
                        if k < before[i].len() {
                            assert(before[i].contains(before[i][k]));
                        }
                    }
                }
            }
        }
    }
}

/// A byte added to the last part is a byte added to the whole.
pub proof fn lemma_joined_grows(parts: Seq<Seq<u8>>, sep: u8, b: u8)
    requires
        parts.len() >= 1,
    ensures
        joined(parts.drop_last().push(parts.last().push(b)), sep) == joined(parts, sep).push(b),
{
    let after = parts.drop_last().push(parts.last().push(b));
    assert(after.drop_last() =~= parts.drop_last());
    assert(joined(after, sep) =~= joined(parts, sep).push(b));
}

/// Cutting what was joined gives the parts back, where there is at least
/// one and none of them holds the separator.
pub proof fn lemma_join_pieces(parts: Seq<Seq<u8>>, sep: u8)
    requires
        parts.len() >= 1,
        separable(parts, sep),
    ensures
        pieces(joined(parts, sep), sep) == parts,
    decreases parts.len(), parts.last().len(),
{
    let s = joined(parts, sep);
    let last = parts.last();
    if last.len() > 0 {
        let shorter = parts.drop_last().push(last.drop_last());
        assert(shorter.drop_last() =~= parts.drop_last());
        assert(last.drop_last().push(last.last()) =~= last);
        lemma_joined_grows(shorter, sep, last.last());
        assert(shorter.drop_last().push(shorter.last().push(last.last())) =~= parts);
        assert(s == joined(shorter, sep).push(last.last()));
        assert(s.drop_last() =~= joined(shorter, sep));
        assert(last.contains(last.last()));
        assert forall|i: int| 0 <= i < shorter.len() implies !(#[trigger] shorter[i]).contains(
            sep,
        ) by {
            if i < parts.len() - 1 {
                assert(shorter[i] == parts[i]);
            } else {
                assert(!parts[i].contains(sep));
                assert forall|k: int| 0 <= k < shorter[i].len() implies shorter[i][k] != sep by {
                    assert(parts[i].contains(parts[i][k]));
                }
            }
        }
        lemma_join_pieces(shorter, sep);
    } else if parts.len() == 1 {
        assert(last =~= Seq::<u8>::empty());
        assert(parts =~= seq![Seq::<u8>::empty()]);
    } else {
        let rest = parts.drop_last();
        assert(last =~= Seq::<u8>::empty());
        assert(s =~= joined(rest, sep).push(sep));
        assert(s.drop_last() =~= joined(rest, sep));
        assert forall|i: int| 0 <= i < rest.len() implies !(#[trigger] rest[i]).contains(sep) by {
            assert(rest[i] == parts[i]);
        }
        lemma_join_pieces(rest, sep);
        assert(rest.push(Seq::<u8>::empty()) =~= parts);
    }
}

/// Every byte of a part is a byte of the whole.
pub proof fn lemma_part_is_within(parts: Seq<Seq<u8>>, sep: u8, i: int, k: int)
    requires
        0 <= i < parts.len(),
        0 <= k < parts[i].len(),
    ensures
        joined(parts, sep).contains(parts[i][k]),
    decreases parts.len(),
{
    if parts.len() == 1 {
    } else if i == parts.len() - 1 {
        let j = joined(parts, sep);
        let at = joined(parts.drop_last(), sep).len() + 1 + k;
        assert(j[at] == parts[i][k]);
    } else {
        lemma_part_is_within(parts.drop_last(), sep, i, k);
        let inner = joined(parts.drop_last(), sep);
        let at = choose|at: int| 0 <= at < inner.len() && inner[at] == parts[i][k];
        assert(joined(parts, sep)[at] == parts[i][k]);
    }
}

/// Every byte of the whole is the separator or a byte of a part.
pub proof fn lemma_whole_is_of_parts(parts: Seq<Seq<u8>>, sep: u8, at: int)
    requires
        0 <= at < joined(parts, sep).len(),
    ensures
        joined(parts, sep)[at] == sep || exists|i: int, k: int|
            0 <= i < parts.len() && 0 <= k < parts[i].len() && #[trigger] parts[i][k] == joined(
                parts,
                sep,
            )[at],
    decreases parts.len(),
{
    let whole = joined(parts, sep);
    if parts.len() == 1 {
        assert(parts[0][at] == whole[at]);
    } else if parts.len() >= 2 {
        let inner = joined(parts.drop_last(), sep);
        if at < inner.len() {
            lemma_whole_is_of_parts(parts.drop_last(), sep, at);
            if whole[at] != sep {
                let (i, k) = choose|i: int, k: int|
                    0 <= i < parts.drop_last().len() && 0 <= k < parts.drop_last()[i].len()
                        && #[trigger] parts.drop_last()[i][k] == inner[at];
                assert(parts[i][k] == whole[at]);
            }
        } else if at > inner.len() {
            let i = parts.len() - 1;
            let k = at - inner.len() - 1;
            assert(parts[i][k] == whole[at]);
        }
    }
}

/// Cuts the bytes at each separator.
pub fn split(bytes: &[u8], sep: u8) -> (parts: Vec<Vec<u8>>)
    ensures
        entries(parts@) == pieces(bytes@, sep),
{
    let mut done: Vec<Vec<u8>> = Vec::new();
    let mut current: Vec<u8> = Vec::new();
    let mut i: usize = 0;
    while i < bytes.len()
        invariant
            i <= bytes.len(),
            entries(done@).push(current@) == pieces(bytes@.take(i as int), sep),
        decreases bytes.len() - i,
    {
        let b = bytes[i];
        let ghost before = entries(done@).push(current@);
        proof {
            assert(bytes@.take(i + 1).drop_last() =~= bytes@.take(i as int));
        }
        if b == sep {
            done.push(current);
            current = Vec::new();
            proof {
                assert(entries(done@) =~= before);
            }
        } else {
            current.push(b);
            proof {
                assert(entries(done@).push(current@) =~= before.drop_last().push(
                    before.last().push(b),
                ));
            }
        }
        i += 1;
    }
    let ghost all = entries(done@).push(current@);
    proof {
        assert(bytes@.take(i as int) =~= bytes@);
    }
    done.push(current);
    proof {
        assert(entries(done@) =~= all);
    }
    done
}

/// Writes the parts one after the other with a separator between each two
/// of them.
pub fn join(parts: &Vec<Vec<u8>>, sep: u8) -> (whole: Vec<u8>)
    ensures
        whole@ == joined(entries(parts@), sep),
{
    let ghost all = entries(parts@);
    let mut out: Vec<u8> = Vec::new();
    let mut i: usize = 0;
    while i < parts.len()
        invariant
            i <= parts.len(),
            all == entries(parts@),
            out@ == joined(all.take(i as int), sep),
        decreases parts.len() - i,
    {
        let part = &parts[i];
        if i > 0 {
            out.push(sep);
        }
        let mut k: usize = 0;
        let ghost before = out@;
        while k < part.len()
            invariant
                k <= part.len(),
                out@ == before + part@.take(k as int),
            decreases part.len() - k,
        {
            out.push(part[k]);
            proof {
                assert(part@.take(k + 1) =~= part@.take(k as int).push(part@[k as int]));
            }
            k += 1;
        }
        proof {
            assert(part@.take(k as int) =~= part@);
            let next = all.take(i + 1);
            assert(next.drop_last() =~= all.take(i as int));
            assert(next.last() == part@);
            if i == 0 {
                assert(out@ =~= part@);
            }
        }
        i += 1;
    }
    proof {
        assert(all.take(i as int) =~= all);
    }
    out
}

} // verus!
