//! POSIX file paths as byte strings in normal form.
//!
//! A path is kept without empty components, without `.` components, and
//! without `..` components that another component cancels. It is never
//! empty and holds no NUL.

use vstd::prelude::*;
use vstd::slice::{slice_subrange, slice_to_vec};
use vstd::string::StringSliceAdditionalSpecFns;
use vstd::utf8::valid_utf8;
use crate::cstr::contains_nul;
use crate::separator::SEP_BYTE;
use crate::split::{
    entries, join, joined, lemma_join_pieces, lemma_part_is_within, lemma_pieces_join,
    lemma_whole_is_of_parts, pieces, split,
};

verus! {

/// The byte of the component that stands for the directory itself, and of
/// which the component for the parent directory has two.
pub const DOT_BYTE: u8 = 46;

/// The path of the directory itself.
pub const DOT_PATH: [u8; 1] = [46];

/// The component `.`.
pub open spec fn dot() -> Seq<u8> {
    seq![DOT_BYTE]
}

/// The component `..`.
pub open spec fn dot_dot() -> Seq<u8> {
    seq![DOT_BYTE, DOT_BYTE]
}

/// Whether the bytes start at the root directory.
pub open spec fn rooted(v: Seq<u8>) -> bool {
    v.len() > 0 && v[0] == SEP_BYTE
}

/// The bytes without the separator that they start with, if they do.
pub open spec fn below_root(v: Seq<u8>) -> Seq<u8> {
    if rooted(v) {
        v.subrange(1, v.len() as int)
    } else {
        v
    }
}

/// The components that are left when empty components and `.` are dropped
/// and each `..` cancels the component before it: under the root a `..`
/// with nothing before it is dropped, elsewhere it is kept, and a `..` does
/// not cancel another.
pub open spec fn resolved(comps: Seq<Seq<u8>>, is_rooted: bool) -> Seq<Seq<u8>>
    decreases comps.len(),
{
    if comps.len() == 0 {
        Seq::empty()
    } else {
        let before = resolved(comps.drop_last(), is_rooted);
        let c = comps.last();
        if c.len() == 0 || c == dot() {
            before
        } else if c == dot_dot() {
            if before.len() == 0 {
                if is_rooted {
                    before
                } else {
                    before.push(c)
                }
            } else if before.last() == dot_dot() {
                before.push(c)
            } else {
                before.drop_last()
            }
        } else {
            before.push(c)
        }
    }
}

/// The normal form of a path: the resolved components with one separator
/// between each two of them, after a separator where the path starts at the
/// root, and `.` where nothing is left of a path that does not.
pub open spec fn normalized(v: Seq<u8>) -> Seq<u8> {
    let comps = resolved(pieces(below_root(v), SEP_BYTE), rooted(v));
    if rooted(v) {
        seq![SEP_BYTE] + joined(comps, SEP_BYTE)
    } else if comps.len() == 0 {
        dot()
    } else {
        joined(comps, SEP_BYTE)
    }
}

/// Where the last `b` stands in `v`, if there is one.
pub open spec fn last_index(v: Seq<u8>, b: u8) -> Option<int>
    decreases v.len(),
{
    if v.len() == 0 {
        None
    } else if v.last() == b {
        Some(v.len() - 1)
    } else {
        last_index(v.drop_last(), b)
    }
}

/// `last_index` finds a `b` behind which there is no other, and finds none
/// only where there is none.
pub proof fn lemma_last_index(v: Seq<u8>, b: u8)
    ensures
        match last_index(v, b) {
            Some(i) => 0 <= i < v.len() && v[i] == b && forall|j: int|
                i < j < v.len() ==> v[j] != b,
            None => forall|j: int| 0 <= j < v.len() ==> v[j] != b,
        },
    decreases v.len(),
{
    if v.len() > 0 && v.last() != b {
        let rest = v.drop_last();
        lemma_last_index(rest, b);
        match last_index(rest, b) {
            Some(i) => {
                assert forall|j: int| i < j < v.len() implies v[j] != b by {
                    if j < rest.len() {
                        assert(rest[j] == v[j]);
                    }
                }
            },
            None => {
                assert forall|j: int| 0 <= j < v.len() implies v[j] != b by {
                    if j < rest.len() {
                        assert(rest[j] == v[j]);
                    }
                }
            },
        }
    }
}

/// Every resolved component is one of the components, and is not empty.
pub proof fn lemma_resolved_is_drawn(comps: Seq<Seq<u8>>, is_rooted: bool, i: int)
    requires
        0 <= i < resolved(comps, is_rooted).len(),
    ensures
        resolved(comps, is_rooted)[i].len() > 0,
        comps.contains(resolved(comps, is_rooted)[i]),
    decreases comps.len(),
{
    let before = resolved(comps.drop_last(), is_rooted);
    let after = resolved(comps, is_rooted);
    if i < before.len() && after[i] == before[i] {
        lemma_resolved_is_drawn(comps.drop_last(), is_rooted, i);
        let at = choose|at: int| 0 <= at < comps.drop_last().len() && comps.drop_last()[at] == before[i];
        assert(comps[at] == after[i]);
    } else {
        assert(after[i] == comps.last());
        assert(comps[comps.len() - 1] == after[i]);
    }
}

/// The normal form is not empty, and each of its bytes is a separator, a
/// dot, or a byte of the bytes that it was made from.
pub proof fn lemma_normalized_is_drawn(v: Seq<u8>)
    ensures
        normalized(v).len() > 0,
        forall|k: int|
            0 <= k < normalized(v).len() ==> (#[trigger] normalized(v)[k]) == SEP_BYTE
                || normalized(v)[k] == DOT_BYTE || v.contains(normalized(v)[k]),
{
    let body = below_root(v);
    let all = pieces(body, SEP_BYTE);
    let comps = resolved(all, rooted(v));
    let n = normalized(v);
    let whole = joined(comps, SEP_BYTE);
    lemma_pieces_join(body, SEP_BYTE);
    if !rooted(v) && comps.len() == 1 {
        lemma_resolved_is_drawn(all, rooted(v), 0);
    }
    assert forall|k: int| 0 <= k < n.len() implies (#[trigger] n[k]) == SEP_BYTE || n[k] == DOT_BYTE
        || v.contains(n[k]) by {
        let at = if rooted(v) {
            k - 1
        } else {
            k
        };
        if 0 <= at < whole.len() && n[k] == whole[at] && n[k] != SEP_BYTE {
            lemma_whole_is_of_parts(comps, SEP_BYTE, at);
            let (i, j) = choose|i: int, j: int|
                0 <= i < comps.len() && 0 <= j < comps[i].len() && #[trigger] comps[i][j]
                    == whole[at];
            lemma_resolved_is_drawn(all, rooted(v), i);
            let m = choose|m: int| 0 <= m < all.len() && all[m] == comps[i];
            lemma_part_is_within(all, SEP_BYTE, m, j);
            let p = choose|p: int| 0 <= p < body.len() && body[p] == all[m][j];
            if rooted(v) {
                assert(v[p + 1] == n[k]);
            } else {
                assert(v[p] == n[k]);
            }
        }
    }
}

/// Whether the bytes are the component `.`.
fn is_dot(c: &Vec<u8>) -> (r: bool)
    ensures
        r == (c@ == dot()),
{
    let r = c.len() == 1 && c[0] == DOT_BYTE;
    proof {
        if r {
            assert(c@ =~= dot());
        }
    }
    r
}

/// Whether the bytes are the component `..`.
fn is_dot_dot(c: &[u8]) -> (r: bool)
    ensures
        r == (c@ == dot_dot()),
{
    let r = c.len() == 2 && c[0] == DOT_BYTE && c[1] == DOT_BYTE;
    proof {
        if r {
            assert(c@ =~= dot_dot());
        }
    }
    r
}

/// Drops and cancels components as `resolved` says.
fn resolve(comps: &Vec<Vec<u8>>, is_rooted: bool) -> (kept: Vec<Vec<u8>>)
    ensures
        entries(kept@) == resolved(entries(comps@), is_rooted),
{
    let ghost all = entries(comps@);
    let mut kept: Vec<Vec<u8>> = Vec::new();
    let mut i: usize = 0;
    while i < comps.len()
        invariant
            i <= comps.len(),
            all == entries(comps@),
            entries(kept@) == resolved(all.take(i as int), is_rooted),
        decreases comps.len() - i,
    {
        let c = &comps[i];
        let ghost before = entries(kept@);
        proof {
            assert(all.take(i + 1).drop_last() =~= all.take(i as int));
            assert(all.take(i + 1).last() == c@);
        }
        if c.len() == 0 || is_dot(c) {
        } else if is_dot_dot(c.as_slice()) {
            let n = kept.len();
            if n == 0 {
                if !is_rooted {
                    kept.push(slice_to_vec(c.as_slice()));
                    proof {
                        assert(entries(kept@) =~= before.push(c@));
                    }
                }
            } else if is_dot_dot(kept[n - 1].as_slice()) {
                kept.push(slice_to_vec(c.as_slice()));
                proof {
                    assert(entries(kept@) =~= before.push(c@));
                }
            } else {
                kept.pop();
                proof {
                    assert(entries(kept@) =~= before.drop_last());
                }
            }
        } else {
            kept.push(slice_to_vec(c.as_slice()));
            proof {
                assert(entries(kept@) =~= before.push(c@));
            }
        }
        i += 1;
    }
    proof {
        assert(all.take(i as int) =~= all);
    }
    kept
}

/// Brings a path into its normal form.
pub fn normalize(v: &[u8]) -> (n: Vec<u8>)
    ensures
        n@ == normalized(v@),
{
    let is_rooted = v.len() > 0 && v[0] == SEP_BYTE;
    let body = if is_rooted {
        slice_subrange(v, 1, v.len())
    } else {
        v
    };
    let comps = split(body, SEP_BYTE);
    let kept = resolve(&comps, is_rooted);
    let mut out: Vec<u8> = Vec::new();
    if is_rooted {
        out.push(SEP_BYTE);
    } else if kept.len() == 0 {
        out.push(DOT_BYTE);
        proof {
            assert(out@ =~= dot());
        }
        return out;
    }
    let whole = join(&kept, SEP_BYTE);
    out.extend_from_slice(whole.as_slice());
    proof {
        assert(out@ =~= normalized(v@));
    }
    out
}

/// Where the last `b` stands in `v`, if there is one.
pub fn rposition(v: &[u8], b: u8) -> (at: Option<usize>)
    ensures
        match at {
            Some(i) => last_index(v@, b) == Some(i as int) && i < v@.len(),
            None => last_index(v@, b) is None,
        },
{
    let mut i: usize = v.len();
    proof {
        assert(v@.take(i as int) =~= v@);
        lemma_last_index(v@, b);
    }
    while i > 0
        invariant
            i <= v.len(),
            last_index(v@, b) == last_index(v@.take(i as int), b),
        decreases i,
    {
        proof {
            assert(v@.take(i as int).drop_last() =~= v@.take(i - 1));
        }
        if v[i - 1] == b {
            return Some(i - 1);
        }
        i -= 1;
    }
    proof {
        assert(v@.take(0) =~= Seq::<u8>::empty());
    }
    None
}

/// The directory part of a path in normal form.
pub open spec fn dirname_of(v: Seq<u8>) -> Seq<u8> {
    match last_index(v, SEP_BYTE) {
        None => if v == dot_dot() {
            v
        } else {
            dot()
        },
        Some(i) => if i == 0 {
            v.take(1)
        } else if v.subrange(i + 1, v.len() as int) == dot_dot() {
            v
        } else {
            v.take(i)
        },
    }
}

/// The last component of a path in normal form, unless that is the root,
/// `.` or `..`.
pub open spec fn filename_of(v: Seq<u8>) -> Option<Seq<u8>> {
    match last_index(v, SEP_BYTE) {
        None => if v == dot() || v == dot_dot() {
            None
        } else {
            Some(v)
        },
        Some(i) => if v.subrange(i + 1, v.len() as int) == dot_dot() {
            None
        } else if i == 0 && v.len() == 1 {
            None
        } else {
            Some(v.subrange(i + 1, v.len() as int))
        },
    }
}

/// Where a file name divides into stem and extension: at its last dot,
/// unless that is its first byte or the name is `..`.
pub open spec fn extension_dot(name: Seq<u8>) -> Option<int> {
    match last_index(name, DOT_BYTE) {
        None => None,
        Some(i) => if i == 0 || (i == 1 && name == dot_dot()) {
            None
        } else {
            Some(i)
        },
    }
}

/// The file name without its extension.
pub open spec fn filestem_of(v: Seq<u8>) -> Option<Seq<u8>> {
    match filename_of(v) {
        None => None,
        Some(name) => match extension_dot(name) {
            None => Some(name),
            Some(i) => Some(name.take(i)),
        },
    }
}

/// What follows the last dot of the file name.
pub open spec fn extension_of(v: Seq<u8>) -> Option<Seq<u8>> {
    match filename_of(v) {
        None => None,
        Some(name) => match extension_dot(name) {
            None => None,
            Some(i) => Some(name.subrange(i + 1, name.len() as int)),
        },
    }
}

/// The path without its last component, and whether there was one to take
/// off.
pub open spec fn popped(v: Seq<u8>) -> (Seq<u8>, bool) {
    match last_index(v, SEP_BYTE) {
        None => if v == dot() {
            (v, false)
        } else {
            (dot(), true)
        },
        Some(i) => if i == 0 {
            if v.len() == 1 {
                (v, false)
            } else {
                (v.take(1), true)
            }
        } else {
            (v.take(i), true)
        },
    }
}

/// The path with another path pushed onto it: the other path alone where
/// that starts at the root, and the two with a separator between them else;
/// an empty path changes nothing.
pub open spec fn pushed(v: Seq<u8>, path: Seq<u8>) -> Seq<u8> {
    if path.len() == 0 {
        v
    } else if path[0] == SEP_BYTE {
        normalized(path)
    } else {
        normalized(v + seq![SEP_BYTE] + path)
    }
}

/// The path with each of the paths pushed onto it in turn.
pub open spec fn pushed_all(v: Seq<u8>, paths: Seq<Seq<u8>>) -> Seq<u8>
    decreases paths.len(),
{
    if paths.len() == 0 {
        v
    } else {
        pushed(pushed_all(v, paths.drop_last()), paths.last())
    }
}

/// The path with its last component replaced: `filename` is put behind the
/// directory part, or behind the whole where the path ends in `..`; a path
/// of one component that is not `..` becomes `filename`.
pub open spec fn with_filename_of(v: Seq<u8>, filename: Seq<u8>) -> Seq<u8> {
    match last_index(v, SEP_BYTE) {
        None => if v == dot_dot() {
            normalized(v + seq![SEP_BYTE] + filename)
        } else {
            normalized(filename)
        },
        Some(i) => if v.subrange(i + 1, v.len() as int) == dot_dot() {
            normalized(v + seq![SEP_BYTE] + filename)
        } else {
            normalized(v.take(i + 1) + filename)
        },
    }
}

/// The file name with its extension replaced; nothing where there is no
/// file name, or no extension and none to add.
pub open spec fn renamed(v: Seq<u8>, extension: Seq<u8>) -> Option<Seq<u8>> {
    match filename_of(v) {
        None => None,
        Some(name) => match last_index(name, DOT_BYTE) {
            Some(i) => if i == 0 {
                if extension.len() == 0 {
                    None
                } else {
                    Some(name + seq![DOT_BYTE] + extension)
                }
            } else if extension.len() == 0 {
                Some(name.take(i))
            } else {
                Some(name.take(i + 1) + extension)
            },
            None => if extension.len() == 0 {
                None
            } else {
                Some(name + seq![DOT_BYTE] + extension)
            },
        },
    }
}

/// The path with the extension of its file name replaced.
pub open spec fn with_extension_of(v: Seq<u8>, extension: Seq<u8>) -> Seq<u8> {
    match renamed(v, extension) {
        None => v,
        Some(name) => with_filename_of(v, name),
    }
}

/// The text that `String::from_utf8_lossy` makes of bytes: the text that
/// the bytes encode where they are UTF-8, and else that text with a
/// replacement character in place of each part that is not.
pub uninterp spec fn lossy_text(bytes: Seq<u8>) -> Seq<char>;

/// `String::from_utf8_lossy`: reads the bytes as text, with a replacement
/// character in place of each part that is not UTF-8; bytes that are UTF-8
/// come back as the text that they encode.
#[verifier::external_body]
fn lossy(bytes: &[u8]) -> (text: String)
    ensures
        text@ == lossy_text(bytes@),
        valid_utf8(bytes@) ==> vstd::utf8::encode_utf8(text@) == bytes@,
{
    String::from_utf8_lossy(bytes).into_owned()
}

/// `str::from_utf8`: hands the bytes back as text iff they are UTF-8, and
/// the text then has exactly these bytes.
#[verifier::external_body]
fn utf8(bytes: &[u8]) -> (text: Option<&str>)
    ensures
        text is Some <==> valid_utf8(bytes@),
        text matches Some(s) ==> s.spec_bytes() == bytes@,
{
    std::str::from_utf8(bytes).ok()
}

/// A POSIX file path.
#[derive(Debug, PartialEq, Eq)]
pub struct Path {
    repr: Vec<u8>,
    sepidx: Option<usize>,
}

impl Clone for Path {
    fn clone(&self) -> (p: Path)
        ensures
            p@ == self@,
    {
        self.copy()
    }
}

impl View for Path {
    type V = Seq<u8>;

    closed spec fn view(&self) -> Seq<u8> {
        self.repr@
    }
}

impl Path {
    /// What holds of every path: it is not empty, holds no NUL, and knows
    /// where its last separator stands.
    #[verifier::type_invariant]
    closed spec fn well_formed(&self) -> bool {
        &&& self.repr@.len() > 0
        &&& !self.repr@.contains(0u8)
        &&& match self.sepidx {
            Some(i) => last_index(self.repr@, SEP_BYTE) == Some(i as int),
            None => last_index(self.repr@, SEP_BYTE) is None,
        }
    }

    /// The path of these bytes, which have to be in normal form already.
    fn from_normal(repr: Vec<u8>) -> (p: Path)
        requires
            repr@.len() > 0,
            !repr@.contains(0u8),
        ensures
            p@ == repr@,
    {
        let sepidx = rposition(repr.as_slice(), SEP_BYTE);
        Path { repr, sepidx }
    }

    /// The path of these bytes, without a look at whether they hold a NUL.
    fn new_unchecked(path: &[u8]) -> (p: Path)
        requires
            !path@.contains(0u8),
        ensures
            p@ == normalized(path@),
    {
        let repr = normalize(path);
        proof {
            lemma_normalized_is_drawn(path@);
            lemma_no_nul(path@, repr@);
        }
        Path::from_normal(repr)
    }

    /// The path of these bytes, which must not hold a NUL.
    pub fn new(path: &[u8]) -> (p: Path)
        requires
            !path@.contains(0u8),
        ensures
            p@ == normalized(path@),
    {
        Path::new_unchecked(path)
    }

    /// The path of these bytes; none where they hold a NUL.
    pub fn new_opt(path: &[u8]) -> (p: Option<Path>)
        ensures
            p is Some <==> !path@.contains(0u8),
            p matches Some(q) ==> q@ == normalized(path@),
    {
        if contains_nul(path) {
            None
        } else {
            Some(Path::new_unchecked(path))
        }
    }

    /// The path that the text names; none where the text holds a NUL.
    pub fn from_str(text: &str) -> (p: Option<Path>)
        ensures
            p is Some <==> !text.spec_bytes().contains(0u8),
            p matches Some(q) ==> q@ == normalized(text.spec_bytes()),
    {
        Path::new_opt(text.as_bytes())
    }

    /// The bytes of the path: at least one, and no NUL among them.
    pub fn as_vec(&self) -> (bytes: &[u8])
        ensures
            bytes@ == self@,
            bytes@.len() > 0,
            !bytes@.contains(0u8),
    {
        proof {
            use_type_invariant(self);
        }
        self.repr.as_slice()
    }

    /// The bytes of the path, for keeps.
    pub fn into_vec(self) -> (bytes: Vec<u8>)
        ensures
            bytes@ == self@,
    {
        self.repr
    }

    /// The path as text; none where its bytes are not UTF-8.
    pub fn as_str(&self) -> (text: Option<&str>)
        ensures
            text is Some <==> valid_utf8(self@),
            text matches Some(s) ==> s.spec_bytes() == self@,
    {
        utf8(self.repr.as_slice())
    }

    /// The path as text, for keeps; none where its bytes are not UTF-8.
    pub fn into_str(self) -> (text: Option<String>)
        ensures
            text is Some <==> valid_utf8(self@),
            text matches Some(s) ==> vstd::utf8::encode_utf8(s@) == self@,
    {
        match utf8(self.repr.as_slice()) {
            Some(s) => Some(s.to_owned()),
            None => None,
        }
    }

    /// Whether two paths are the same.
    pub fn same(&self, other: &Path) -> (r: bool)
        ensures
            r == (self@ == other@),
    {
        if self.repr.len() != other.repr.len() {
            return false;
        }
        let mut i: usize = 0;
        while i < self.repr.len()
            invariant
                i <= self.repr.len(),
                self.repr.len() == other.repr.len(),
                forall|k: int| 0 <= k < i ==> self.repr@[k] == other.repr@[k],
            decreases self.repr.len() - i,
        {
            if self.repr[i] != other.repr[i] {
                return false;
            }
            i += 1;
        }
        proof {
            assert(self.repr@ =~= other.repr@);
        }
        true
    }

    /// A copy of the path.
    pub fn copy(&self) -> (p: Path)
        ensures
            p@ == self@,
    {
        proof {
            use_type_invariant(self);
        }
        Path { repr: slice_to_vec(self.repr.as_slice()), sepidx: self.sepidx }
    }

    /// Whether the path starts at the root.
    pub fn is_absolute(&self) -> (r: bool)
        ensures
            r == rooted(self@),
    {
        proof {
            use_type_invariant(self);
        }
        self.repr[0] == SEP_BYTE
    }

    /// Whether the path does not start at the root.
    pub fn is_relative(&self) -> (r: bool)
        ensures
            r == !rooted(self@),
    {
        !self.is_absolute()
    }

    /// The directory part of the path.
    pub fn dirname(&self) -> (dir: &[u8])
        ensures
            dir@ == dirname_of(self@),
    {
        proof {
            use_type_invariant(self);
            lemma_last_index(self.repr@, SEP_BYTE);
        }
        let v = self.repr.as_slice();
        match self.sepidx {
            None => {
                if is_dot_dot(v) {
                    v
                } else {
                    let d: &'static [u8] = &DOT_PATH;
                    proof {
                        assert(d@ =~= dot());
                    }
                    d
                }
            },
            Some(idx) => {
                if idx == 0 {
                    slice_subrange(v, 0, 1)
                } else {
                    let len = v.len();
                    if is_dot_dot(slice_subrange(v, idx + 1, len)) {
                        v
                    } else {
                        slice_subrange(v, 0, idx)
                    }
                }
            },
        }
    }

    /// The last component of the path, unless that is the root, `.` or `..`.
    pub fn filename(&self) -> (name: Option<&[u8]>)
        ensures
            match name {
                Some(n) => filename_of(self@) == Some(n@),
                None => filename_of(self@) is None,
            },
    {
        proof {
            use_type_invariant(self);
            lemma_last_index(self.repr@, SEP_BYTE);
        }
        let v = self.repr.as_slice();
        match self.sepidx {
            None => {
                if (v.len() == 1 && v[0] == DOT_BYTE) || is_dot_dot(v) {
                    proof {
                        if v.len() == 1 {
                            assert(v@ =~= dot());
                        }
                    }
                    None
                } else {
                    proof {
                        if v@ == dot() {
                            assert(v@[0] == DOT_BYTE);
                        }
                    }
                    Some(v)
                }
            },
            Some(idx) => {
                let len = v.len();
                let last = slice_subrange(v, idx + 1, len);
                if is_dot_dot(last) {
                    None
                } else if idx == 0 && last.len() == 0 {
                    None
                } else {
                    Some(last)
                }
            },
        }
    }

    /// The file name without its extension.
    pub fn filestem(&self) -> (stem: Option<&[u8]>)
        ensures
            match stem {
                Some(s) => filestem_of(self@) == Some(s@),
                None => filestem_of(self@) is None,
            },
    {
        match self.filename() {
            None => None,
            Some(name) => match rposition(name, DOT_BYTE) {
                None => Some(name),
                Some(pos) => {
                    if pos == 0 || (pos == 1 && is_dot_dot(name)) {
                        Some(name)
                    } else {
                        Some(slice_subrange(name, 0, pos))
                    }
                },
            },
        }
    }

    /// What follows the last dot of the file name.
    pub fn extension(&self) -> (ext: Option<&[u8]>)
        ensures
            match ext {
                Some(e) => extension_of(self@) == Some(e@),
                None => extension_of(self@) is None,
            },
    {
        match self.filename() {
            None => None,
            Some(name) => match rposition(name, DOT_BYTE) {
                None => None,
                Some(pos) => {
                    if pos == 0 || (pos == 1 && is_dot_dot(name)) {
                        None
                    } else {
                        let len = name.len();
                        Some(slice_subrange(name, pos + 1, len))
                    }
                },
            },
        }
    }

    /// The path as text for the eye: what is not UTF-8 shows as replacement
    /// characters.
    pub fn display(&self) -> (text: String)
        ensures
            text@ == lossy_text(self@),
            valid_utf8(self@) ==> vstd::utf8::encode_utf8(text@) == self@,
    {
        lossy(self.repr.as_slice())
    }

    /// The file name as text for the eye: what is not UTF-8 shows as
    /// replacement characters, and a path without file name as nothing.
    pub fn filename_display(&self) -> (text: String)
        ensures
            text@ == lossy_text(
                match filename_of(self@) {
                    Some(name) => name,
                    None => Seq::empty(),
                },
            ),
    {
        match self.filename() {
            Some(name) => lossy(name),
            None => {
                let none: Vec<u8> = Vec::new();
                proof {
                    assert(none@ =~= Seq::<u8>::empty());
                }
                lossy(none.as_slice())
            },
        }
    }

    /// The directory part as text; none where it is not UTF-8.
    pub fn dirname_str(&self) -> (text: Option<&str>)
        ensures
            text is Some <==> valid_utf8(dirname_of(self@)),
            text matches Some(s) ==> s.spec_bytes() == dirname_of(self@),
    {
        utf8(self.dirname())
    }

    /// The file name as text; none where there is none or it is not UTF-8.
    pub fn filename_str(&self) -> (text: Option<&str>)
        ensures
            text is Some <==> (filename_of(self@) matches Some(n) && valid_utf8(n)),
            text matches Some(s) ==> filename_of(self@) == Some(s.spec_bytes()),
    {
        match self.filename() {
            Some(name) => utf8(name),
            None => None,
        }
    }

    /// The file stem as text; none where there is none or it is not UTF-8.
    pub fn filestem_str(&self) -> (text: Option<&str>)
        ensures
            text is Some <==> (filestem_of(self@) matches Some(n) && valid_utf8(n)),
            text matches Some(s) ==> filestem_of(self@) == Some(s.spec_bytes()),
    {
        match self.filestem() {
            Some(stem) => utf8(stem),
            None => None,
        }
    }

    /// The extension as text; none where there is none or it is not UTF-8.
    pub fn extension_str(&self) -> (text: Option<&str>)
        ensures
            text is Some <==> (extension_of(self@) matches Some(n) && valid_utf8(n)),
            text matches Some(s) ==> extension_of(self@) == Some(s.spec_bytes()),
    {
        match self.extension() {
            Some(ext) => utf8(ext),
            None => None,
        }
    }
}

/// Whether none of the byte strings holds a NUL.
pub open spec fn all_clean(paths: Seq<Seq<u8>>) -> bool {
    forall|i: int| 0 <= i < paths.len() ==> !(#[trigger] paths[i]).contains(0u8)
}

/// The bytes of `a`, then the separator, then the bytes of `b`.
fn with_separator(a: &[u8], b: &[u8]) -> (whole: Vec<u8>)
    requires
        a@.len() + 1 + b@.len() <= usize::MAX,
    ensures
        whole@ == a@ + seq![SEP_BYTE] + b@,
{
    let mut whole = slice_to_vec(a);
    whole.push(SEP_BYTE);
    whole.extend_from_slice(b);
    whole
}

/// The bytes of `a`, then the bytes of `b`.
fn appended(a: &[u8], b: &[u8]) -> (whole: Vec<u8>)
    requires
        a@.len() + b@.len() <= usize::MAX,
    ensures
        whole@ == a@ + b@,
{
    let mut whole = slice_to_vec(a);
    whole.extend_from_slice(b);
    whole
}

/// A part of bytes without a NUL holds no NUL.
pub proof fn lemma_part_has_no_nul(v: Seq<u8>, from: int, to: int)
    requires
        !v.contains(0u8),
        0 <= from <= to <= v.len(),
    ensures
        !v.subrange(from, to).contains(0u8),
{
    let part = v.subrange(from, to);
    if part.contains(0u8) {
        let k = choose|k: int| 0 <= k < part.len() && part[k] == 0u8;
        assert(v[from + k] == 0u8);
    }
}

/// Bytes without a NUL put together hold no NUL.
pub proof fn lemma_sum_has_no_nul(a: Seq<u8>, b: Seq<u8>)
    requires
        !a.contains(0u8),
        !b.contains(0u8),
    ensures
        !(a + b).contains(0u8),
{
    let whole = a + b;
    if whole.contains(0u8) {
        let k = choose|k: int| 0 <= k < whole.len() && whole[k] == 0u8;
        if k < a.len() {
            assert(a[k] == 0u8);
        } else {
            assert(b[k - a.len()] == 0u8);
        }
    }
}

impl Path {
    /// Takes the last component off the path, if there is one to take off:
    /// there is none on `.` and on the root. Tells whether it took one off.
    pub fn pop(&mut self) -> (taken: bool)
        ensures
            (final(self)@, taken) == popped(old(self)@),
    {
        proof {
            use_type_invariant(&*self);
            lemma_last_index(self.repr@, SEP_BYTE);
        }
        let v = self.repr.as_slice();
        match self.sepidx {
            None => {
                if v.len() == 1 && v[0] == DOT_BYTE {
                    proof {
                        assert(v@ =~= dot());
                    }
                    false
                } else {
                    proof {
                        if v@ == dot() {
                            assert(v@[0] == DOT_BYTE);
                        }
                    }
                    let mut repr: Vec<u8> = Vec::new();
                    repr.push(DOT_BYTE);
                    proof {
                        assert(repr@ =~= dot());
                        assert(!repr@.contains(0u8));
                    }
                    *self = Path::from_normal(repr);
                    true
                }
            },
            Some(idx) => {
                if idx == 0 && v.len() == 1 {
                    false
                } else {
                    let keep = if idx == 0 {
                        1
                    } else {
                        idx
                    };
                    let repr = slice_to_vec(slice_subrange(v, 0, keep));
                    proof {
                        lemma_part_has_no_nul(v@, 0, keep as int);
                    }
                    *self = Path::from_normal(repr);
                    true
                }
            },
        }
    }

    /// Pushes a path onto this one: the other path replaces this one where
    /// it starts at the root, and else follows it behind a separator. An
    /// empty path changes nothing.
    pub fn push(&mut self, path: &[u8])
        requires
            !path@.contains(0u8),
            old(self)@.len() + 1 + path@.len() <= usize::MAX,
        ensures
            final(self)@ == pushed(old(self)@, path@),
    {
        proof {
            use_type_invariant(&*self);
        }
        if path.len() > 0 {
            if path[0] == SEP_BYTE {
                *self = Path::new_unchecked(path);
            } else {
                let whole = with_separator(self.repr.as_slice(), path);
                proof {
                    let sep = seq![SEP_BYTE];
                    assert(!sep.contains(0u8));
                    lemma_sum_has_no_nul(self.repr@, sep);
                    lemma_sum_has_no_nul(self.repr@ + sep, path@);
                }
                *self = Path::new_unchecked(whole.as_slice());
            }
        }
    }

    /// Pushes each of the paths onto this one in turn.
    pub fn push_many(&mut self, paths: &Vec<Vec<u8>>)
        requires
            all_clean(entries(paths@)),
            forall|i: int|
                0 <= i < paths@.len() ==> (#[trigger] pushed_all(
                    old(self)@,
                    entries(paths@).take(i),
                )).len() + 1 + paths@[i]@.len() <= usize::MAX,
        ensures
            final(self)@ == pushed_all(old(self)@, entries(paths@)),
    {
        let ghost start = self@;
        let ghost all = entries(paths@);
        let mut i: usize = 0;
        while i < paths.len()
            invariant
                i <= paths.len(),
                all == entries(paths@),
                all_clean(all),
                self@ == pushed_all(start, all.take(i as int)),
                forall|k: int|
                    0 <= k < paths@.len() ==> (#[trigger] pushed_all(start, all.take(k))).len() + 1
                        + paths@[k]@.len() <= usize::MAX,
            decreases paths.len() - i,
        {
            proof {
                assert(all.take(i + 1).drop_last() =~= all.take(i as int));
                assert(all.take(i + 1).last() == paths@[i as int]@);
                assert(!all[i as int].contains(0u8));
                assert(pushed_all(start, all.take(i as int)).len() + 1 + paths@[i as int]@.len()
                    <= usize::MAX);
            }
            self.push(paths[i].as_slice());
            i += 1;
        }
        proof {
            assert(all.take(i as int) =~= all);
        }
    }

    /// This path with another pushed onto it.
    pub fn join(&self, path: &[u8]) -> (p: Path)
        requires
            !path@.contains(0u8),
            self@.len() + 1 + path@.len() <= usize::MAX,
        ensures
            p@ == pushed(self@, path@),
    {
        let mut p = self.copy();
        p.push(path);
        p
    }

    /// This path with each of the paths pushed onto it in turn.
    pub fn join_many(&self, paths: &Vec<Vec<u8>>) -> (p: Path)
        requires
            all_clean(entries(paths@)),
            forall|i: int|
                0 <= i < paths@.len() ==> (#[trigger] pushed_all(
                    self@,
                    entries(paths@).take(i),
                )).len() + 1 + paths@[i]@.len() <= usize::MAX,
        ensures
            p@ == pushed_all(self@, entries(paths@)),
    {
        let mut p = self.copy();
        p.push_many(paths);
        p
    }

    /// The root, where the path starts there.
    pub fn root_path(&self) -> (root: Option<Path>)
        ensures
            root is Some <==> rooted(self@),
            root matches Some(r) ==> r@ == seq![SEP_BYTE],
    {
        if self.is_absolute() {
            let mut repr: Vec<u8> = Vec::new();
            repr.push(SEP_BYTE);
            proof {
                assert(repr@ =~= seq![SEP_BYTE]);
                assert(!repr@.contains(0u8));
            }
            Some(Path::from_normal(repr))
        } else {
            None
        }
    }

    /// The directory part as a path.
    pub fn dir_path(&self) -> (dir: Path)
        ensures
            dir@ == normalized(dirname_of(self@)),
    {
        proof {
            use_type_invariant(self);
            lemma_last_index(self.repr@, SEP_BYTE);
            let v = self.repr@;
            assert(!dot().contains(0u8));
            match last_index(v, SEP_BYTE) {
                Some(i) => {
                    lemma_part_has_no_nul(v, 0, 1);
                    lemma_part_has_no_nul(v, 0, i);
                },
                None => {},
            }
        }
        Path::new_unchecked(self.dirname())
    }

    /// Replaces the last component of the path.
    pub fn set_filename(&mut self, filename: &[u8])
        requires
            !filename@.contains(0u8),
            old(self)@.len() + 1 + filename@.len() <= usize::MAX,
        ensures
            final(self)@ == with_filename_of(old(self)@, filename@),
    {
        proof {
            use_type_invariant(&*self);
            lemma_last_index(self.repr@, SEP_BYTE);
            let sep = seq![SEP_BYTE];
            assert(!sep.contains(0u8));
            lemma_sum_has_no_nul(self.repr@, sep);
            lemma_sum_has_no_nul(self.repr@ + sep, filename@);
        }
        let v = self.repr.as_slice();
        match self.sepidx {
            None => {
                if is_dot_dot(v) {
                    let whole = with_separator(v, filename);
                    *self = Path::new_unchecked(whole.as_slice());
                } else {
                    *self = Path::new_unchecked(filename);
                }
            },
            Some(idx) => {
                let len = v.len();
                if is_dot_dot(slice_subrange(v, idx + 1, len)) {
                    let whole = with_separator(v, filename);
                    *self = Path::new_unchecked(whole.as_slice());
                } else {
                    let whole = appended(slice_subrange(v, 0, idx + 1), filename);
                    proof {
                        lemma_part_has_no_nul(v@, 0, idx + 1);
                        lemma_sum_has_no_nul(v@.subrange(0, idx + 1), filename@);
                    }
                    *self = Path::new_unchecked(whole.as_slice());
                }
            },
        }
    }

    /// This path with its last component replaced.
    pub fn with_filename(&self, filename: &[u8]) -> (p: Path)
        requires
            !filename@.contains(0u8),
            self@.len() + 1 + filename@.len() <= usize::MAX,
        ensures
            p@ == with_filename_of(self@, filename@),
    {
        let mut p = self.copy();
        p.set_filename(filename);
        p
    }

    /// Replaces the extension of the file name: what follows its last dot,
    /// or nothing where the name has no dot but as its first byte. An empty
    /// extension takes the dot away too. A path without a file name stays
    /// as it is.
    pub fn set_extension(&mut self, extension: &[u8])
        requires
            !extension@.contains(0u8),
            2 * old(self)@.len() + 2 + extension@.len() <= usize::MAX,
        ensures
            final(self)@ == with_extension_of(old(self)@, extension@),
    {
        proof {
            use_type_invariant(&*self);
            lemma_last_index(self.repr@, SEP_BYTE);
        }
        let new_name: Option<Vec<u8>> = match self.filename() {
            None => None,
            Some(name) => {
                proof {
                    lemma_last_index(name@, DOT_BYTE);
                    let v = self.repr@;
                    match last_index(v, SEP_BYTE) {
                        Some(i) => {
                            lemma_part_has_no_nul(v, i + 1, v.len() as int);
                        },
                        None => {},
                    }
                }
                let with_dot = match rposition(name, DOT_BYTE) {
                    None => None,
                    Some(pos) => if pos == 0 {
                        None
                    } else {
                        Some(pos)
                    },
                };
                match with_dot {
                    None => {
                        if extension.len() == 0 {
                            None
                        } else {
                            let mut whole = slice_to_vec(name);
                            whole.push(DOT_BYTE);
                            whole.extend_from_slice(extension);
                            proof {
                                let d = seq![DOT_BYTE];
                                assert(!d.contains(0u8));
                                lemma_sum_has_no_nul(name@, d);
                                lemma_sum_has_no_nul(name@ + d, extension@);
                            }
                            Some(whole)
                        }
                    },
                    Some(pos) => {
                        if extension.len() == 0 {
                            proof {
                                lemma_part_has_no_nul(name@, 0, pos as int);
                            }
                            Some(slice_to_vec(slice_subrange(name, 0, pos)))
                        } else {
                            proof {
                                lemma_part_has_no_nul(name@, 0, pos + 1);
                                lemma_sum_has_no_nul(name@.subrange(0, pos + 1), extension@);
                            }
                            Some(appended(slice_subrange(name, 0, pos + 1), extension))
                        }
                    },
                }
            },
        };
        assert(match new_name {
            Some(n) => renamed(self@, extension@) == Some(n@),
            None => renamed(self@, extension@) is None,
        });
        match new_name {
            None => {},
            Some(name) => {
                self.set_filename(name.as_slice());
            },
        }
    }

    /// This path with the extension of its file name replaced.
    pub fn with_extension(&self, extension: &[u8]) -> (p: Path)
        requires
            !extension@.contains(0u8),
            2 * self@.len() + 2 + extension@.len() <= usize::MAX,
        ensures
            p@ == with_extension_of(self@, extension@),
    {
        let mut p = self.copy();
        p.set_extension(extension);
        p
    }
}

/// The components of a path in normal form: none for the root.
pub open spec fn components_of(v: Seq<u8>) -> Seq<Seq<u8>> {
    let body = below_root(v);
    if body.len() == 0 {
        Seq::empty()
    } else {
        pieces(body, SEP_BYTE)
    }
}

/// How many components two paths have in common at their start, counted
/// from component `k` on.
pub open spec fn common_from(a: Seq<Seq<u8>>, b: Seq<Seq<u8>>, k: int) -> int
    decreases a.len() - k,
{
    if 0 <= k < a.len() && k < b.len() && a[k] == b[k] {
        common_from(a, b, k + 1)
    } else {
        k
    }
}

/// Whether the path `v` is an ancestor of the path `w`: both start at the
/// root or neither does, and `w` starts with the components of `v`, or `v`
/// is `..` from where it leaves `w` on.
pub open spec fn ancestor_of(v: Seq<u8>, w: Seq<u8>) -> bool {
    let a = components_of(v);
    let b = components_of(w);
    let k = common_from(a, b, 0);
    if rooted(v) != rooted(w) {
        false
    } else if v == dot() {
        b.len() == 0 || b[0] != dot_dot()
    } else if k >= a.len() {
        true
    } else if a[k] == dot_dot() {
        forall|j: int| k < j < a.len() ==> a[j] == dot_dot()
    } else {
        false
    }
}

/// Whether the path `v` ends with the path `child`: `child` does not start
/// at the root, and its components are the last components of `v`.
pub open spec fn ends_with(v: Seq<u8>, child: Seq<u8>) -> bool {
    let a = components_of(v);
    let c = components_of(child);
    &&& !rooted(child)
    &&& c.len() <= a.len()
    &&& a.subrange(a.len() - c.len(), a.len() as int) == c
}

/// `n` times the component `..`.
pub open spec fn ups(n: int) -> Seq<Seq<u8>> {
    Seq::new(n as nat, |i: int| dot_dot())
}

/// The components that lead from the path with the components `b` to the
/// path with the components `a`, from component `i` on, behind the
/// components `acc` that were found so far. There is no way where `b` goes
/// up from where the two part.
pub open spec fn relative_from(
    a: Seq<Seq<u8>>,
    b: Seq<Seq<u8>>,
    i: int,
    acc: Seq<Seq<u8>>,
) -> Option<Seq<Seq<u8>>>
    decreases a.len() + b.len() - i,
{
    if i < 0 || (i >= a.len() && i >= b.len()) {
        Some(acc)
    } else if i >= b.len() {
        Some(acc + a.subrange(i, a.len() as int))
    } else if i >= a.len() {
        relative_from(a, b, i + 1, acc.push(dot_dot()))
    } else if acc.len() == 0 && a[i] == b[i] {
        relative_from(a, b, i + 1, acc)
    } else if b[i] == dot() {
        relative_from(a, b, i + 1, acc.push(a[i]))
    } else if b[i] == dot_dot() {
        None
    } else {
        Some(acc + ups(b.len() - i) + a.subrange(i, a.len() as int))
    }
}

/// The path that leads from `base` to `v`: `v` itself where only `v`
/// starts at the root, none where only `base` does, and else the normal
/// form of the components that `relative_from` finds.
pub open spec fn relative(v: Seq<u8>, base: Seq<u8>) -> Option<Seq<u8>> {
    if rooted(v) != rooted(base) {
        if rooted(v) {
            Some(v)
        } else {
            None
        }
    } else {
        match relative_from(components_of(v), components_of(base), 0, Seq::empty()) {
            Some(comps) => Some(normalized(joined(comps, SEP_BYTE))),
            None => None,
        }
    }
}

/// The components of bytes without a NUL hold no NUL.
pub proof fn lemma_components_are_clean(v: Seq<u8>)
    requires
        !v.contains(0u8),
    ensures
        all_clean(components_of(v)),
{
    let body = below_root(v);
    let comps = components_of(v);
    if body.len() > 0 {
        lemma_pieces_join(body, SEP_BYTE);
        assert forall|i: int| 0 <= i < comps.len() implies !(#[trigger] comps[i]).contains(0u8) by {
            if comps[i].contains(0u8) {
                let k = choose|k: int| 0 <= k < comps[i].len() && comps[i][k] == 0u8;
                lemma_part_is_within(comps, SEP_BYTE, i, k);
                let p = choose|p: int| 0 <= p < body.len() && body[p] == comps[i][k];
                if rooted(v) {
                    assert(v[p + 1] == 0u8);
                } else {
                    assert(v[p] == 0u8);
                }
            }
        }
    }
}

/// Components without a NUL, joined, hold no NUL.
pub proof fn lemma_joined_is_clean(comps: Seq<Seq<u8>>)
    requires
        all_clean(comps),
    ensures
        !joined(comps, SEP_BYTE).contains(0u8),
{
    let whole = joined(comps, SEP_BYTE);
    if whole.contains(0u8) {
        let at = choose|at: int| 0 <= at < whole.len() && whole[at] == 0u8;
        lemma_whole_is_of_parts(comps, SEP_BYTE, at);
        let (i, k) = choose|i: int, k: int|
            0 <= i < comps.len() && 0 <= k < comps[i].len() && #[trigger] comps[i][k] == whole[at];
        assert(comps[i].contains(0u8));
    }
}

/// Whether two byte strings are the same.
fn same_bytes(a: &Vec<u8>, b: &Vec<u8>) -> (r: bool)
    ensures
        r == (a@ == b@),
{
    if a.len() != b.len() {
        return false;
    }
    let mut i: usize = 0;
    while i < a.len()
        invariant
            i <= a.len(),
            a.len() == b.len(),
            forall|k: int| 0 <= k < i ==> a@[k] == b@[k],
        decreases a.len() - i,
    {
        if a[i] != b[i] {
            return false;
        }
        i += 1;
    }
    proof {
        assert(a@ =~= b@);
    }
    true
}

/// The component `..`.
fn dot_dot_bytes() -> (c: Vec<u8>)
    ensures
        c@ == dot_dot(),
{
    let mut c: Vec<u8> = Vec::new();
    c.push(DOT_BYTE);
    c.push(DOT_BYTE);
    proof {
        assert(c@ =~= dot_dot());
    }
    c
}

impl Path {
    /// The components of the path in turn, whether or not it starts at the
    /// root: none for the root, one for `.`.
    pub fn component_iter(&self) -> (comps: Vec<Vec<u8>>)
        ensures
            entries(comps@) == components_of(self@),
    {
        proof {
            use_type_invariant(self);
        }
        let v = self.repr.as_slice();
        let body = if v[0] == SEP_BYTE {
            slice_subrange(v, 1, v.len())
        } else {
            v
        };
        if body.len() == 0 {
            let comps: Vec<Vec<u8>> = Vec::new();
            proof {
                assert(entries(comps@) =~= Seq::<Seq<u8>>::empty());
            }
            comps
        } else {
            split(body, SEP_BYTE)
        }
    }

    /// The components of the path from the last to the first.
    pub fn rev_component_iter(&self) -> (comps: Vec<Vec<u8>>)
        ensures
            entries(comps@) == components_of(self@).reverse(),
    {
        let mut forward = self.component_iter();
        let ghost all = entries(forward@);
        let mut comps: Vec<Vec<u8>> = Vec::new();
        while forward.len() > 0
            invariant
                forward@.len() <= all.len(),
                entries(forward@) == all.take(forward@.len() as int),
                comps@.len() == all.len() - forward@.len(),
                forall|k: int|
                    0 <= k < comps@.len() ==> (#[trigger] comps@[k])@ == all[all.len() - 1 - k],
            decreases forward.len(),
        {
            let ghost n = forward@.len();
            let ghost full = forward@;
            let last = forward.pop().unwrap();
            proof {
                assert(entries(full)[n - 1] == full[n - 1]@);
                assert(last@ == all[n - 1]);
                assert forall|k: int| 0 <= k < forward@.len() implies entries(forward@)[k]
                    == all.take(n - 1)[k] by {
                    assert(entries(full)[k] == full[k]@);
                }
                assert(entries(forward@) =~= all.take(n - 1));
            }
            comps.push(last);
        }
        proof {
            assert(entries(comps@) =~= all.reverse());
        }
        comps
    }

    /// The components of the path in turn as text; none in place of a
    /// component that is not UTF-8.
    pub fn str_component_iter(&self) -> (comps: Vec<Option<String>>)
        ensures
            comps@.len() == components_of(self@).len(),
            forall|i: int|
                0 <= i < comps@.len() ==> ((#[trigger] comps@[i]) is Some <==> valid_utf8(
                    components_of(self@)[i],
                )),
            forall|i: int|
                0 <= i < comps@.len() ==> ((#[trigger] comps@[i]) matches Some(s)
                    ==> vstd::utf8::encode_utf8(s@) == components_of(self@)[i]),
    {
        let raw = self.component_iter();
        let mut comps: Vec<Option<String>> = Vec::new();
        let mut i: usize = 0;
        while i < raw.len()
            invariant
                i <= raw.len(),
                comps@.len() == i,
                forall|k: int|
                    0 <= k < i ==> ((#[trigger] comps@[k]) is Some <==> valid_utf8(raw@[k]@)),
                forall|k: int|
                    0 <= k < i ==> ((#[trigger] comps@[k]) matches Some(s)
                        ==> vstd::utf8::encode_utf8(s@) == raw@[k]@),
            decreases raw.len() - i,
        {
            let text = match utf8(raw[i].as_slice()) {
                Some(s) => Some(s.to_owned()),
                None => None,
            };
            comps.push(text);
            i += 1;
        }
        proof {
            assert forall|i: int| 0 <= i < comps@.len() implies raw@[i]@ == components_of(self@)[i] by {
                assert(entries(raw@)[i] == raw@[i]@);
            }
        }
        comps
    }

    /// The components of the path from the last to the first as text; none
    /// in place of a component that is not UTF-8.
    pub fn rev_str_component_iter(&self) -> (comps: Vec<Option<String>>)
        ensures
            comps@.len() == components_of(self@).len(),
            forall|i: int|
                0 <= i < comps@.len() ==> ((#[trigger] comps@[i]) is Some <==> valid_utf8(
                    components_of(self@).reverse()[i],
                )),
            forall|i: int|
                0 <= i < comps@.len() ==> ((#[trigger] comps@[i]) matches Some(s)
                    ==> vstd::utf8::encode_utf8(s@) == components_of(self@).reverse()[i]),
    {
        let raw = self.rev_component_iter();
        proof {
            assert(entries(raw@).len() == raw@.len());
            assert(components_of(self@).reverse().len() == components_of(self@).len());
        }
        let mut comps: Vec<Option<String>> = Vec::new();
        let mut i: usize = 0;
        while i < raw.len()
            invariant
                i <= raw.len(),
                comps@.len() == i,
                forall|k: int|
                    0 <= k < i ==> ((#[trigger] comps@[k]) is Some <==> valid_utf8(raw@[k]@)),
                forall|k: int|
                    0 <= k < i ==> ((#[trigger] comps@[k]) matches Some(s)
                        ==> vstd::utf8::encode_utf8(s@) == raw@[k]@),
            decreases raw.len() - i,
        {
            let text = match utf8(raw[i].as_slice()) {
                Some(s) => Some(s.to_owned()),
                None => None,
            };
            comps.push(text);
            i += 1;
        }
        proof {
            assert forall|i: int| 0 <= i < comps@.len() implies raw@[i]@ == components_of(
                self@,
            ).reverse()[i] by {
                assert(entries(raw@)[i] == raw@[i]@);
            }
        }
        comps
    }

    /// Whether this path is an ancestor of the other.
    #[verifier::loop_isolation(false)]
    pub fn is_ancestor_of(&self, other: &Path) -> (r: bool)
        ensures
            r == ancestor_of(self@, other@),
    {
        if self.is_absolute() != other.is_absolute() {
            return false;
        }
        let a = self.component_iter();
        let b = other.component_iter();
        let v = self.repr.as_slice();
        if v.len() == 1 && v[0] == DOT_BYTE {
            proof {
                assert(v@ =~= dot());
                if b.len() > 0 {
                    assert(entries(b@)[0] == b@[0]@);
                }
            }
            return b.len() == 0 || !is_dot_dot(b[0].as_slice());
        }
        proof {
            if v@ == dot() {
                assert(v@[0] == DOT_BYTE);
            }
        }
        let mut k: usize = 0;
        while k < a.len() && k < b.len() && same_bytes(&a[k], &b[k])
            invariant
                k <= a.len(),
                common_from(entries(a@), entries(b@), 0) == common_from(
                    entries(a@),
                    entries(b@),
                    k as int,
                ),
            decreases a.len() - k,
        {
            proof {
                assert(entries(a@)[k as int] == a@[k as int]@);
                assert(entries(b@)[k as int] == b@[k as int]@);
            }
            k += 1;
        }
        proof {
            if k < a.len() && k < b.len() {
                assert(entries(a@)[k as int] == a@[k as int]@);
                assert(entries(b@)[k as int] == b@[k as int]@);
            }
        }
        if k >= a.len() {
            return true;
        }
        proof {
            assert(entries(a@)[k as int] == a@[k as int]@);
        }
        if !is_dot_dot(a[k].as_slice()) {
            return false;
        }
        let mut j: usize = k + 1;
        while j < a.len()
            invariant
                k < j <= a.len(),
                forall|m: int| k < m < j ==> entries(a@)[m] == dot_dot(),
            decreases a.len() - j,
        {
            proof {
                assert(entries(a@)[j as int] == a@[j as int]@);
            }
            if !is_dot_dot(a[j].as_slice()) {
                return false;
            }
            j += 1;
        }
        true
    }

    /// Whether this path ends with the other, which must not start at the
    /// root.
    #[verifier::loop_isolation(false)]
    pub fn ends_with_path(&self, child: &Path) -> (r: bool)
        ensures
            r == ends_with(self@, child@),
    {
        if !child.is_relative() {
            return false;
        }
        let a = self.component_iter();
        let c = child.component_iter();
        if c.len() > a.len() {
            return false;
        }
        let shift = a.len() - c.len();
        let mut k: usize = 0;
        while k < c.len()
            invariant
                k <= c.len(),
                shift == a.len() - c.len(),
                c.len() <= a.len(),
                forall|m: int| 0 <= m < k ==> entries(a@)[shift + m] == entries(c@)[m],
            decreases c.len() - k,
        {
            proof {
                assert(entries(a@)[shift + k] == a@[shift + k]@);
                assert(entries(c@)[k as int] == c@[k as int]@);
            }
            if !same_bytes(&a[shift + k], &c[k]) {
                proof {
                    let tail = entries(a@).subrange(shift as int, a@.len() as int);
                    assert(tail[k as int] != entries(c@)[k as int]);
                }
                return false;
            }
            k += 1;
        }
        proof {
            assert(entries(a@).subrange(shift as int, a@.len() as int) =~= entries(c@));
        }
        true
    }
}

/// Adds the components of `a` from component `from` on.
fn extend_from(comps: &mut Vec<Vec<u8>>, a: &Vec<Vec<u8>>, from: usize)
    requires
        from <= a@.len(),
    ensures
        entries(final(comps)@) == entries(old(comps)@) + entries(a@).subrange(
            from as int,
            a@.len() as int,
        ),
{
    let ghost start = entries(comps@);
    let mut i: usize = from;
    while i < a.len()
        invariant
            from <= i <= a.len(),
            entries(comps@) == start + entries(a@).subrange(from as int, i as int),
        decreases a.len() - i,
    {
        let ghost before = entries(comps@);
        comps.push(slice_to_vec(a[i].as_slice()));
        proof {
            assert(entries(comps@) =~= before.push(a@[i as int]@));
            assert(entries(a@)[i as int] == a@[i as int]@);
            assert(entries(a@).subrange(from as int, i + 1) =~= entries(a@).subrange(
                from as int,
                i as int,
            ).push(a@[i as int]@));
            assert(entries(comps@) =~= start + entries(a@).subrange(from as int, i + 1));
        }
        i += 1;
    }
    proof {
        assert(entries(comps@) =~= start + entries(a@).subrange(from as int, a@.len() as int));
    }
}

/// Adds `n` times the component `..`.
fn push_ups(comps: &mut Vec<Vec<u8>>, n: usize)
    ensures
        entries(final(comps)@) == entries(old(comps)@) + ups(n as int),
{
    let ghost start = entries(comps@);
    let mut i: usize = 0;
    while i < n
        invariant
            i <= n,
            entries(comps@) == start + ups(i as int),
        decreases n - i,
    {
        let ghost before = entries(comps@);
        comps.push(dot_dot_bytes());
        proof {
            assert(entries(comps@) =~= before.push(dot_dot()));
            assert(ups(i + 1) =~= ups(i as int).push(dot_dot()));
            assert(entries(comps@) =~= start + ups(i + 1));
        }
        i += 1;
    }
}

/// Components without a NUL put together are components without a NUL.
pub proof fn lemma_all_clean_sum(a: Seq<Seq<u8>>, b: Seq<Seq<u8>>)
    requires
        all_clean(a),
        all_clean(b),
    ensures
        all_clean(a + b),
{
    let whole = a + b;
    assert forall|i: int| 0 <= i < whole.len() implies !(#[trigger] whole[i]).contains(0u8) by {
        if i < a.len() {
            assert(whole[i] == a[i]);
        } else {
            assert(whole[i] == b[i - a.len()]);
        }
    }
}

impl Path {
    /// The path that leads from `base` to this path; none where there is no
    /// telling: where only `base` starts at the root, or where `base` goes
    /// up from where the two part.
    pub fn path_relative_from(&self, base: &Path) -> (r: Option<Path>)
        ensures
            match r {
                Some(p) => relative(self@, base@) == Some(p@),
                None => relative(self@, base@) is None,
            },
    {
        if self.is_absolute() != base.is_absolute() {
            if self.is_absolute() {
                return Some(self.copy());
            } else {
                return None;
            }
        }
        let a = self.component_iter();
        let b = base.component_iter();
        let ghost aa = entries(a@);
        let ghost bb = entries(b@);
        let ghost goal = relative_from(aa, bb, 0, Seq::empty());
        proof {
            use_type_invariant(self);
            lemma_components_are_clean(self@);
            assert(!dot_dot().contains(0u8));
        }
        let mut comps: Vec<Vec<u8>> = Vec::new();
        proof {
            assert(entries(comps@) =~= Seq::<Seq<u8>>::empty());
        }
        let mut i: usize = 0;
        while i < a.len() || i < b.len()
            invariant_except_break
                goal == relative_from(aa, bb, i as int, entries(comps@)),
            invariant
                all_clean(entries(comps@)),
                all_clean(aa),
                aa == entries(a@),
                bb == entries(b@),
                aa == components_of(self@),
                bb == components_of(base@),
                rooted(self@) == rooted(base@),
                goal == relative_from(aa, bb, 0, Seq::empty()),
                !dot_dot().contains(0u8),
            ensures
                goal == Some(entries(comps@)),
                all_clean(entries(comps@)),
            decreases a.len() + b.len() - i,
        {
            let ghost before = entries(comps@);
            proof {
                if i < a.len() {
                    assert(aa[i as int] == a@[i as int]@);
                }
                if i < b.len() {
                    assert(bb[i as int] == b@[i as int]@);
                }
            }
            if i >= b.len() {
                extend_from(&mut comps, &a, i);
                proof {
                    assert forall|k: int| 0 <= k < aa.subrange(i as int, aa.len() as int).len()
                        implies !(#[trigger] aa.subrange(i as int, aa.len() as int)[k]).contains(
                        0u8,
                    ) by {
                        assert(aa.subrange(i as int, aa.len() as int)[k] == aa[i + k]);
                    }
                    lemma_all_clean_sum(before, aa.subrange(i as int, aa.len() as int));
                }
                break ;
            } else if i >= a.len() {
                comps.push(dot_dot_bytes());
                proof {
                    assert(entries(comps@) =~= before.push(dot_dot()));
                    lemma_all_clean_sum(before, seq![dot_dot()]);
                    assert(before.push(dot_dot()) =~= before + seq![dot_dot()]);
                }
                i += 1;
            } else if comps.len() == 0 && same_bytes(&a[i], &b[i]) {
                i += 1;
            } else if is_dot(&b[i]) {
                comps.push(slice_to_vec(a[i].as_slice()));
                proof {
                    assert(entries(comps@) =~= before.push(aa[i as int]));
                    lemma_all_clean_sum(before, seq![aa[i as int]]);
                    assert(before.push(aa[i as int]) =~= before + seq![aa[i as int]]);
                }
                i += 1;
            } else if is_dot_dot(b[i].as_slice()) {
                return None;
            } else {
                push_ups(&mut comps, b.len() - i);
                let ghost middle = entries(comps@);
                extend_from(&mut comps, &a, i);
                proof {
                    assert forall|k: int| 0 <= k < ups(b@.len() - i).len() implies !(
                    #[trigger] ups(b@.len() - i)[k]).contains(0u8) by {}
                    lemma_all_clean_sum(before, ups(b@.len() - i));
                    assert forall|k: int| 0 <= k < aa.subrange(i as int, aa.len() as int).len()
                        implies !(#[trigger] aa.subrange(i as int, aa.len() as int)[k]).contains(
                        0u8,
                    ) by {
                        assert(aa.subrange(i as int, aa.len() as int)[k] == aa[i + k]);
                    }
                    lemma_all_clean_sum(middle, aa.subrange(i as int, aa.len() as int));
                }
                break ;
            }
        }
        let whole = join(&comps, SEP_BYTE);
        proof {
            lemma_joined_is_clean(entries(comps@));
        }
        Some(Path::new_unchecked(whole.as_slice()))
    }
}

/// What the components of a normal form look like: none is empty, none is
/// `.`, and `..` stands only at the start of a path that does not start at
/// the root, one after the other.
pub open spec fn settled(comps: Seq<Seq<u8>>, is_rooted: bool) -> bool {
    forall|i: int|
        0 <= i < comps.len() ==> {
            &&& (#[trigger] comps[i]).len() > 0
            &&& comps[i] != dot()
            &&& comps[i] == dot_dot() ==> !is_rooted && (i == 0 || comps[i - 1] == dot_dot())
        }
}

/// Resolved components are settled.
pub proof fn lemma_resolved_is_settled(comps: Seq<Seq<u8>>, is_rooted: bool)
    ensures
        settled(resolved(comps, is_rooted), is_rooted),
    decreases comps.len(),
{
    if comps.len() > 0 {
        lemma_resolved_is_settled(comps.drop_last(), is_rooted);
        let before = resolved(comps.drop_last(), is_rooted);
        let after = resolved(comps, is_rooted);
        assert forall|i: int| 0 <= i < after.len() implies {
            &&& (#[trigger] after[i]).len() > 0
            &&& after[i] != dot()
            &&& after[i] == dot_dot() ==> !is_rooted && (i == 0 || after[i - 1] == dot_dot())
        } by {
            if i < before.len() {
                assert(after[i] == before[i]);
                if i > 0 {
                    assert(after[i - 1] == before[i - 1]);
                }
            }
        }
    }
}

/// Settled components resolve to themselves.
pub proof fn lemma_settled_is_resolved(comps: Seq<Seq<u8>>, is_rooted: bool)
    requires
        settled(comps, is_rooted),
    ensures
        resolved(comps, is_rooted) == comps,
    decreases comps.len(),
{
    if comps.len() > 0 {
        let rest = comps.drop_last();
        assert forall|i: int| 0 <= i < rest.len() implies {
            &&& (#[trigger] rest[i]).len() > 0
            &&& rest[i] != dot()
            &&& rest[i] == dot_dot() ==> !is_rooted && (i == 0 || rest[i - 1] == dot_dot())
        } by {
            assert(rest[i] == comps[i]);
            if i > 0 {
                assert(rest[i - 1] == comps[i - 1]);
            }
        }
        lemma_settled_is_resolved(rest, is_rooted);
        let c = comps[comps.len() - 1];
        assert(c.len() > 0 && c != dot());
        if rest.len() > 0 {
            assert(rest.last() == comps[comps.len() - 2]);
        }
        assert(rest.push(c) =~= comps);
    } else {
        assert(comps =~= Seq::<Seq<u8>>::empty());
    }
}

/// Resolved components hold no separator where the components that they
/// were resolved from hold none.
pub proof fn lemma_resolved_is_separable(comps: Seq<Seq<u8>>, is_rooted: bool)
    requires
        crate::split::separable(comps, SEP_BYTE),
    ensures
        crate::split::separable(resolved(comps, is_rooted), SEP_BYTE),
{
    let r = resolved(comps, is_rooted);
    assert forall|i: int| 0 <= i < r.len() implies !(#[trigger] r[i]).contains(SEP_BYTE) by {
        lemma_resolved_is_drawn(comps, is_rooted, i);
        let at = choose|at: int| 0 <= at < comps.len() && comps[at] == r[i];
        assert(!comps[at].contains(SEP_BYTE));
    }
}

/// What was joined starts with the first byte of its first part, where
/// that part has one.
pub proof fn lemma_joined_starts(parts: Seq<Seq<u8>>, sep: u8)
    requires
        parts.len() >= 1,
        parts[0].len() > 0,
    ensures
        joined(parts, sep).len() > 0,
        joined(parts, sep)[0] == parts[0][0],
    decreases parts.len(),
{
    if parts.len() >= 2 {
        lemma_joined_starts(parts.drop_last(), sep);
    }
}

/// The normal form is a fixed point: a path in normal form is its own
/// normal form, so a `Path` made from the bytes of a `Path` is the same
/// path.
pub proof fn law_normal_form_is_fixed(v: Seq<u8>)
    ensures
        normalized(normalized(v)) == normalized(v),
{
    let body = below_root(v);
    let r = resolved(pieces(body, SEP_BYTE), rooted(v));
    let n = normalized(v);
    lemma_pieces_join(body, SEP_BYTE);
    lemma_resolved_is_settled(pieces(body, SEP_BYTE), rooted(v));
    lemma_resolved_is_separable(pieces(body, SEP_BYTE), rooted(v));
    if r.len() == 0 {
        let none = Seq::<Seq<u8>>::empty();
        if rooted(v) {
            let one = seq![Seq::<u8>::empty()];
            assert(n =~= seq![SEP_BYTE]);
            assert(below_root(n) =~= Seq::<u8>::empty());
            assert(pieces(below_root(n), SEP_BYTE) =~= one);
            assert(one.drop_last() =~= none);
            assert(resolved(none, true) =~= none);
            assert(one.last().len() == 0);
            assert(resolved(one, true) =~= none);
        } else {
            let one = seq![dot()];
            assert(n == dot());
            assert(!rooted(n));
            assert(dot().drop_last() =~= Seq::<u8>::empty());
            assert(pieces(Seq::<u8>::empty(), SEP_BYTE) =~= seq![Seq::<u8>::empty()]);
            assert(seq![Seq::<u8>::empty()].drop_last() =~= none);
            assert(Seq::<u8>::empty().push(DOT_BYTE) =~= dot());
            assert(pieces(dot(), SEP_BYTE) =~= one);
            assert(one.drop_last() =~= none);
            assert(resolved(none, false) =~= none);
            assert(one.last() == dot());
            assert(resolved(one, false) =~= none);
        }
    } else {
        let whole = joined(r, SEP_BYTE);
        lemma_join_pieces(r, SEP_BYTE);
        lemma_settled_is_resolved(r, rooted(v));
        assert(r[0].len() > 0);
        lemma_joined_starts(r, SEP_BYTE);
        if rooted(v) {
            assert(n[0] == SEP_BYTE);
            assert(below_root(n) =~= whole);
        } else {
            assert(r[0].contains(r[0][0]));
            assert(whole[0] != SEP_BYTE);
            assert(!rooted(n));
        }
    }
}

/// What is drawn from bytes without a NUL, from separators and from dots
/// holds no NUL.
pub proof fn lemma_no_nul(v: Seq<u8>, n: Seq<u8>)
    requires
        !v.contains(0u8),
        forall|k: int|
            0 <= k < n.len() ==> (#[trigger] n[k]) == SEP_BYTE || n[k] == DOT_BYTE || v.contains(
                n[k],
            ),
    ensures
        !n.contains(0u8),
{
    if n.contains(0u8) {
        let k = choose|k: int| 0 <= k < n.len() && n[k] == 0u8;
        assert(n[k] == SEP_BYTE || n[k] == DOT_BYTE || v.contains(n[k]));
    }
}

} // verus!
