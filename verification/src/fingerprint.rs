//! Content fingerprinting of add-on folders.  The fingerprint must stay the
//! same across insignificant changes — file order on disk, whitespace,
//! whole comment lines, files that are not source files — and change when
//! the add-on's functional content changes.  It is computed from the files'
//! names and bytes alone, so fingerprinting the same content is idempotent
//! wherever and whenever it runs.

use vstd::prelude::*;
use vstd::multiset::Multiset;
use vstd::relations::total_ordering;
use vstd::seq_lib::lemma_sorted_unique;
use crate::strings::lex_le_bytes;
use crate::strings::lex_le_bytes_exec;
use crate::strings::lex_le_chars;
use crate::strings::lex_le_chars_exec;
use crate::strings::lemma_lex_le_bytes_antisymmetric;
use crate::strings::lemma_lex_le_bytes_connected;
use crate::strings::lemma_lex_le_bytes_reflexive;
use crate::strings::lemma_lex_le_bytes_transitive;
use crate::strings::lemma_lex_le_chars_antisymmetric;
use crate::strings::lemma_lex_le_chars_connected;
use crate::strings::lemma_lex_le_chars_transitive;
use crate::strings::spec_ends_with;
use crate::strings::str_eq;
use crate::strings::str_ends_with;

verus! {

/// One file of an add-on folder, as the directory scan hands it over:
/// its name within the folder, and its raw bytes.
pub struct SourceFile {
    pub name: String,
    pub content: Vec<u8>,
}

/// Whitespace that normalization removes without further effect.  The
/// newline byte is not among these: it ends a line, which matters for
/// comment detection, though it too is never emitted.
pub open spec fn is_insignificant_ws(b: u8) -> bool {
    b == 32 || b == 9 || b == 13
}

/// The states of the line-oriented normalizer.
#[derive(Clone, Copy, Debug, PartialEq, Eq, Structural)]
pub enum NormState {
    /// At the start of a line, only whitespace seen on it so far.
    LineStart,
    /// The first byte of a two-byte comment marker opened the line; it is
    /// held back until the next byte settles whether the line is a comment.
    HeldMarker,
    /// The line is code: its non-whitespace bytes are emitted.
    Code,
    /// The line is a comment: nothing of it is emitted.
    Comment,
}

/// One step of the normalizer: the successor state and the bytes emitted
/// for input byte `b`.  `marker` is the comment-line marker of the file
/// kind, at most two bytes, possibly empty.
pub open spec fn norm_step(st: NormState, marker: Seq<u8>, b: u8) -> (NormState, Seq<u8>) {
    if b == 10 {
        (
            NormState::LineStart,
            if st is HeldMarker {
                seq![marker[0]]
            } else {
                Seq::empty()
            },
        )
    } else {
        match st {
            NormState::LineStart => {
                if is_insignificant_ws(b) {
                    (NormState::LineStart, Seq::empty())
                } else if marker.len() >= 1 && b == marker[0] {
                    if marker.len() == 2 {
                        (NormState::HeldMarker, Seq::empty())
                    } else {
                        (NormState::Comment, Seq::empty())
                    }
                } else {
                    (NormState::Code, seq![b])
                }
            },
            NormState::HeldMarker => {
                if marker.len() == 2 && b == marker[1] {
                    (NormState::Comment, Seq::empty())
                } else if is_insignificant_ws(b) {
                    (NormState::Code, seq![marker[0]])
                } else {
                    (NormState::Code, seq![marker[0], b])
                }
            },
            NormState::Code => {
                if is_insignificant_ws(b) {
                    (NormState::Code, Seq::empty())
                } else {
                    (NormState::Code, seq![b])
                }
            },
            NormState::Comment => (NormState::Comment, Seq::empty()),
        }
    }
}

/// The normalizer run over all of `s`: final state and everything emitted.
pub open spec fn norm_run(marker: Seq<u8>, s: Seq<u8>) -> (NormState, Seq<u8>)
    decreases s.len(),
{
    if s.len() == 0 {
        (NormState::LineStart, Seq::empty())
    } else {
        let prev = norm_run(marker, s.drop_last());
        let step = norm_step(prev.0, marker, s.last());
        (step.0, prev.1 + step.1)
    }
}

/// The normalized form of `s`: comment lines dropped, whitespace dropped,
/// every other byte kept in order.  A first marker byte still held back at
/// the end of input belongs to code and is flushed.
pub open spec fn spec_normalize(marker: Seq<u8>, s: Seq<u8>) -> Seq<u8> {
    let run = norm_run(marker, s);
    run.1 + if run.0 is HeldMarker {
        seq![marker[0]]
    } else {
        Seq::empty()
    }
}

/// Normalizes one file's bytes.
pub fn normalize_content(marker: &Vec<u8>, content: &Vec<u8>) -> (r: Vec<u8>)
    requires
        marker@.len() <= 2,
    ensures
        r@ == spec_normalize(marker@, content@),
{
    let mut out: Vec<u8> = Vec::new();
    let mut st = NormState::LineStart;
    let n = content.len();
    let mut i: usize = 0;
    while i < n
        invariant
            i <= n == content@.len(),
            marker@.len() <= 2,
            st is HeldMarker ==> marker@.len() == 2,
            (st, out@) == norm_run(marker@, content@.subrange(0, i as int)),
        decreases n - i,
    {
        let b = content[i];
        proof {
            assert(content@.subrange(0, i + 1 as int).drop_last() =~= content@.subrange(
                0,
                i as int,
            ));
            assert(content@.subrange(0, i + 1 as int).last() == content@[i as int]);
        }
        let ghost prev_out = out@;
        let ghost emitted = norm_step(st, marker@, b).1;
        if b == 10 {
            if let NormState::HeldMarker = st {
                out.push(marker[0]);
            }
            st = NormState::LineStart;
        } else {
            match st {
                NormState::LineStart => {
                    if b == 32 || b == 9 || b == 13 {
                    } else if marker.len() >= 1 && b == marker[0] {
                        if marker.len() == 2 {
                            st = NormState::HeldMarker;
                        } else {
                            st = NormState::Comment;
                        }
                    } else {
                        st = NormState::Code;
                        out.push(b);
                    }
                },
                NormState::HeldMarker => {
                    if marker.len() == 2 && b == marker[1] {
                        st = NormState::Comment;
                    } else if b == 32 || b == 9 || b == 13 {
                        st = NormState::Code;
                        out.push(marker[0]);
                    } else {
                        st = NormState::Code;
                        out.push(marker[0]);
                        out.push(b);
                    }
                },
                NormState::Code => {
                    if b == 32 || b == 9 || b == 13 {
                    } else {
                        out.push(b);
                    }
                },
                NormState::Comment => {},
            }
        }
        proof {
            assert(out@ =~= prev_out + emitted);
        }
        i = i + 1;
    }
    proof {
        assert(content@.subrange(0, n as int) =~= content@);
    }
    if let NormState::HeldMarker = st {
        out.push(marker[0]);
    }
    out
}

/// One multiply-and-fold step of the 32-bit FNV-1a hash.
pub open spec fn spec_fnv_step(h: u32, b: u8) -> u32 {
    ((((h ^ (b as u32)) as nat) * 16777619) % 0x100000000) as u32
}

/// The 32-bit FNV-1a hash of `s` continued from state `h`.
pub open spec fn spec_fnv_from(h: u32, s: Seq<u8>) -> u32
    decreases s.len(),
{
    if s.len() == 0 {
        h
    } else {
        spec_fnv_step(spec_fnv_from(h, s.drop_last()), s.last())
    }
}

/// The 32-bit FNV-1a hash of `s`: a stable non-cryptographic content hash.
pub open spec fn spec_fnv(s: Seq<u8>) -> u32 {
    spec_fnv_from(2166136261u32, s)
}

/// Computes the 32-bit FNV-1a hash of `bytes`.
pub fn fnv_hash(bytes: &Vec<u8>) -> (r: u32)
    ensures
        r == spec_fnv(bytes@),
{
    let mut h: u32 = 2166136261;
    let n = bytes.len();
    let mut i: usize = 0;
    while i < n
        invariant
            i <= n == bytes@.len(),
            h == spec_fnv_from(2166136261u32, bytes@.subrange(0, i as int)),
        decreases n - i,
    {
        proof {
            assert(bytes@.subrange(0, i + 1 as int).drop_last() =~= bytes@.subrange(0, i as int));
            assert(bytes@.subrange(0, i + 1 as int).last() == bytes@[i as int]);
        }
        let x = h ^ (bytes[i] as u32);
        proof {
            assert((x as nat) * 16777619 < 0x10000000000000000) by (nonlinear_arith)
                requires
                    x < 0x100000000,
            ;
        }
        let prod: u64 = (x as u64) * 16777619;
        h = (prod % 0x100000000) as u32;
        i = i + 1;
    }
    proof {
        assert(bytes@.subrange(0, n as int) =~= bytes@);
    }
    h
}

/// The mathematical model of a file: its name and its bytes.
pub open spec fn file_view(f: SourceFile) -> (Seq<char>, Seq<u8>) {
    (f.name@, f.content@)
}

/// The models of a sequence of files.
pub open spec fn views_of(files: Seq<SourceFile>) -> Seq<(Seq<char>, Seq<u8>)> {
    files.map_values(|f: SourceFile| file_view(f))
}

/// A total order on file models: by name, ties broken by content, so that
/// any collection of files has exactly one sorted arrangement.
pub open spec fn file_le(x: (Seq<char>, Seq<u8>), y: (Seq<char>, Seq<u8>)) -> bool {
    if x.0 == y.0 {
        lex_le_bytes(x.1, y.1)
    } else {
        lex_le_chars(x.0, y.0)
    }
}

/// The file order as a relation value, for sorting.
pub open spec fn file_order() -> spec_fn((Seq<char>, Seq<u8>), (Seq<char>, Seq<u8>)) -> bool {
    |x: (Seq<char>, Seq<u8>), y: (Seq<char>, Seq<u8>)| file_le(x, y)
}

/// The file order relates any two file models, one way or the other.
pub proof fn lemma_file_le_connected(x: (Seq<char>, Seq<u8>), y: (Seq<char>, Seq<u8>))
    ensures
        file_le(x, y) || file_le(y, x),
{
    if x.0 == y.0 {
        lemma_lex_le_bytes_connected(x.1, y.1);
    } else {
        lemma_lex_le_chars_connected(x.0, y.0);
    }
}

/// The file order is transitive.
pub proof fn lemma_file_le_transitive(
    x: (Seq<char>, Seq<u8>),
    y: (Seq<char>, Seq<u8>),
    z: (Seq<char>, Seq<u8>),
)
    requires
        file_le(x, y),
        file_le(y, z),
    ensures
        file_le(x, z),
{
    if x.0 == y.0 && y.0 == z.0 {
        lemma_lex_le_bytes_transitive(x.1, y.1, z.1);
    } else if x.0 != y.0 && y.0 != z.0 {
        lemma_lex_le_chars_transitive(x.0, y.0, z.0);
        if x.0 == z.0 {
            lemma_lex_le_chars_antisymmetric(x.0, y.0);
        }
    }
}

pub proof fn lemma_file_order_total()
    ensures
        total_ordering(file_order()),
{
    let ord = file_order();
    assert forall|x: (Seq<char>, Seq<u8>)| #[trigger] ord(x, x) by {
        lemma_lex_le_bytes_reflexive(x.1);
    }
    assert forall|x: (Seq<char>, Seq<u8>), y: (Seq<char>, Seq<u8>)|
        #[trigger] ord(x, y) && #[trigger] ord(y, x) implies x == y by {
        if x.0 == y.0 {
            lemma_lex_le_bytes_antisymmetric(x.1, y.1);
        } else {
            lemma_lex_le_chars_antisymmetric(x.0, y.0);
        }
    }
    assert forall|x: (Seq<char>, Seq<u8>), y: (Seq<char>, Seq<u8>), z: (Seq<char>, Seq<u8>)|
        #[trigger] ord(x, y) && #[trigger] ord(y, z) implies ord(x, z) by {
        lemma_file_le_transitive(x, y, z);
    }
    assert forall|x: (Seq<char>, Seq<u8>), y: (Seq<char>, Seq<u8>)|
        #[trigger] ord(x, y) || #[trigger] ord(y, x) by {
        lemma_file_le_connected(x, y);
    }
}

/// Taking an element out of a sequence and putting it back elsewhere leaves
/// the multiset of elements unchanged.
proof fn lemma_remove_insert_multiset<V>(before: Seq<V>, i: int, k: int)
    requires
        0 <= i < before.len(),
        0 <= k <= before.len() - 1,
    ensures
        before.remove(i).insert(k, before[i]).to_multiset() == before.to_multiset(),
{
    broadcast use vstd::seq_lib::group_to_multiset_ensures;

    let x = before[i];
    let prev = before.remove(i);
    let now = prev.insert(k, x);
    assert(prev.to_multiset() =~= before.to_multiset().remove(x));
    assert(now.remove(k) =~= prev);
    assert(now.remove(k).to_multiset() =~= now.to_multiset().remove(now[k]));
    assert(now[k] == x);
    assert(now.to_multiset().contains(x));
    assert(now.to_multiset() =~= now.to_multiset().remove(x).insert(x));
    assert(before.to_multiset().contains(x));
    assert(before.to_multiset() =~= before.to_multiset().remove(x).insert(x));
    assert(now.to_multiset() =~= before.to_multiset());
}

impl Clone for SourceFile {
    /// Clones the file; the clone has the same model.
    fn clone(&self) -> (r: Self)
        ensures
            file_view(r) == file_view(*self),
    {
        let content = self.content.clone();
        proof {
            assert(content@ =~= self.content@);
        }
        SourceFile { name: self.name.clone(), content }
    }
}

/// Decides the file order on two files.
fn file_le_exec(a: &SourceFile, b: &SourceFile) -> (r: bool)
    ensures
        r == file_le(file_view(*a), file_view(*b)),
{
    if str_eq(a.name.as_str(), b.name.as_str()) {
        lex_le_bytes_exec(&a.content, &b.content)
    } else {
        lex_le_chars_exec(a.name.as_str(), b.name.as_str())
    }
}

/// Sorts files into the file order, by insertion.
#[verifier::rlimit(60)]
fn sort_source_files(files: &mut Vec<SourceFile>)
    ensures
        views_of(final(files)@) == views_of(old(files)@).sort_by(file_order()),
{
    let ghost orig = views_of(old(files)@);
    let ghost ord = file_order();
    let mut i: usize = 1;
    while i < files.len()
        invariant
            1 <= i,
            i <= files@.len() || files@.len() <= 1,
            views_of(files@).to_multiset() == orig.to_multiset(),
            i <= files@.len() ==> vstd::relations::sorted_by(
                views_of(files@).subrange(0, i as int),
                ord,
            ),
            files@.len() == orig.len(),
            ord == file_order(),
        decreases files@.len() - i,
    {
        let ghost before = views_of(files@);
        let x = files.remove(i);
        let ghost xv = file_view(x);
        let ghost prev = before.remove(i as int);
        proof {
            assert(views_of(files@) =~= prev);
            assert(prev.subrange(0, i as int) =~= before.subrange(0, i as int));
        }
        // Find the insertion point among the first `i` (still sorted) files.
        let mut k: usize = 0;
        while k < i && !file_le_exec(&x, &files[k])
            invariant
                k <= i < orig.len(),
                files@.len() == orig.len() - 1,
                views_of(files@) == prev,
                xv == file_view(x),
                ord == file_order(),
                forall|m: int| 0 <= m < k ==> ord(#[trigger] prev[m], xv),
            decreases i - k,
        {
            proof {
                assert(prev[k as int] == file_view(files@[k as int]));
                lemma_file_le_connected(prev[k as int], xv);
                assert(ord(prev[k as int], xv));
            }
            k = k + 1;
        }
        proof {
            if k < i {
                assert(prev[k as int] == file_view(files@[k as int]));
                assert(ord(xv, prev[k as int]));
            }
        }
        files.insert(k, x);
        let ghost now = views_of(files@);
        proof {
            assert(now =~= prev.insert(k as int, xv));
            lemma_remove_insert_multiset(before, i as int, k as int);
            assert(now.to_multiset() == orig.to_multiset());
            let ki = k as int;
            let ii = i as int;
            // The prefix one longer is sorted: everything before the
            // insertion point is at or below `x`, everything after is at or
            // above it.
            assert forall|m: int, n: int| 0 <= m < n <= ii implies ord(
                #[trigger] now[m],
                #[trigger] now[n],
            ) by {
                if n < ki {
                    assert(before.subrange(0, ii)[m] == prev[m]);
                    assert(before.subrange(0, ii)[n] == prev[n]);
                } else if n == ki {
                    assert(now[m] == prev[m]);
                    assert(ord(prev[m], xv));
                } else if m == ki {
                    assert(now[n] == prev[n - 1]);
                    assert(ki < ii);
                    assert(ord(xv, prev[ki]));
                    if n - 1 > ki {
                        assert(before.subrange(0, ii)[ki] == prev[ki]);
                        assert(before.subrange(0, ii)[n - 1] == prev[n - 1]);
                        assert(ord(prev[ki], prev[n - 1]));
                        lemma_file_le_transitive(xv, prev[ki], prev[n - 1]);
                    }
                } else if m < ki {
                    assert(now[m] == prev[m]);
                    assert(now[n] == prev[n - 1]);
                    assert(before.subrange(0, ii)[m] == prev[m]);
                    assert(before.subrange(0, ii)[n - 1] == prev[n - 1]);
                } else {
                    assert(now[m] == prev[m - 1]);
                    assert(now[n] == prev[n - 1]);
                    assert(before.subrange(0, ii)[m - 1] == prev[m - 1]);
                    assert(before.subrange(0, ii)[n - 1] == prev[n - 1]);
                }
            }
            assert(vstd::relations::sorted_by(now.subrange(0, ii + 1), ord)) by {
                assert(forall|m: int, n: int|
                    0 <= m < n < now.subrange(0, ii + 1).len() ==> ord(
                        #[trigger] now.subrange(0, ii + 1)[m],
                        #[trigger] now.subrange(0, ii + 1)[n],
                    ));
            }
        }
        i = i + 1;
    }
    proof {
        lemma_file_order_total();
        let now = views_of(files@);
        assert(now.subrange(0, now.len() as int) =~= now);
        assert(vstd::relations::sorted_by(now, ord));
        orig.lemma_sort_by_ensures(ord);
        lemma_sorted_unique(now, orig.sort_by(ord), ord);
    }
}

/// A file that takes part in the fingerprint: one of the add-on
/// scripting/manifest extensions.
pub open spec fn is_source_file_name(name: Seq<char>) -> bool {
    spec_ends_with(name, ".lua"@) || spec_ends_with(name, ".toc"@) || spec_ends_with(name, ".xml"@)
}

/// A file model whose name takes part in the fingerprint.
pub open spec fn view_is_source(f: (Seq<char>, Seq<u8>)) -> bool {
    is_source_file_name(f.0)
}

/// The comment-line marker of a file kind: `--` for scripting files, `#`
/// for manifests, none for anything else.
pub open spec fn spec_marker(name: Seq<char>) -> Seq<u8> {
    if spec_ends_with(name, ".lua"@) {
        seq![45u8, 45u8]
    } else if spec_ends_with(name, ".toc"@) {
        seq![35u8]
    } else {
        Seq::empty()
    }
}

/// Decides whether a file name takes part in the fingerprint.
pub fn is_source_file(name: &str) -> (r: bool)
    ensures
        r == is_source_file_name(name@),
{
    str_ends_with(name, ".lua") || str_ends_with(name, ".toc") || str_ends_with(name, ".xml")
}

/// The comment-line marker for a file name.
fn marker_for(name: &str) -> (r: Vec<u8>)
    ensures
        r@ == spec_marker(name@),
        r@.len() <= 2,
{
    if str_ends_with(name, ".lua") {
        let mut v: Vec<u8> = Vec::new();
        v.push(45);
        v.push(45);
        proof {
            assert(v@ =~= seq![45u8, 45u8]);
        }
        v
    } else if str_ends_with(name, ".toc") {
        let mut v: Vec<u8> = Vec::new();
        v.push(35);
        proof {
            assert(v@ =~= seq![35u8]);
        }
        v
    } else {
        Vec::new()
    }
}

/// The significant bytes of a run of file models: each one's normalized
/// content, concatenated in the order given.
pub open spec fn spec_significant(files: Seq<(Seq<char>, Seq<u8>)>) -> Seq<u8>
    decreases files.len(),
{
    if files.len() == 0 {
        Seq::empty()
    } else {
        spec_significant(files.drop_last()) + spec_normalize(
            spec_marker(files.last().0),
            files.last().1,
        )
    }
}

/// The fingerprint of a folder's files: keep the source files, arrange them
/// in the one sorted order of the file order, normalize each one's bytes,
/// concatenate, and hash.
pub open spec fn spec_fingerprint(files: Seq<(Seq<char>, Seq<u8>)>) -> u32 {
    spec_fnv(
        spec_significant(
            files.filter(|f: (Seq<char>, Seq<u8>)| view_is_source(f)).sort_by(file_order()),
        ),
    )
}

/// Computes the content fingerprint of a folder from its files.  The
/// result depends only on the names and bytes of the source files among
/// them, never on the order the directory scan listed them in.
pub fn fingerprint_folder(files: &Vec<SourceFile>) -> (r: u32)
    ensures
        r == spec_fingerprint(views_of(files@)),
{
    let ghost pred = |f: (Seq<char>, Seq<u8>)| view_is_source(f);
    let mut kept: Vec<SourceFile> = Vec::new();
    let n = files.len();
    let mut i: usize = 0;
    while i < n
        invariant
            i <= n == files@.len(),
            views_of(kept@) == views_of(files@).subrange(0, i as int).filter(pred),
            pred == (|f: (Seq<char>, Seq<u8>)| view_is_source(f)),
        decreases n - i,
    {
        let ghost prefix = views_of(files@).subrange(0, i as int);
        proof {
            reveal(Seq::filter);
            assert(views_of(files@).subrange(0, i + 1 as int).drop_last() =~= prefix);
            assert(views_of(files@).subrange(0, i + 1 as int).last() == file_view(
                files@[i as int],
            ));
        }
        if is_source_file(files[i].name.as_str()) {
            kept.push(files[i].clone());
            proof {
                assert(views_of(kept@) =~= views_of(files@).subrange(0, i + 1 as int).filter(
                    pred,
                ));
            }
        } else {
            proof {
                assert(views_of(kept@) =~= views_of(files@).subrange(0, i + 1 as int).filter(
                    pred,
                ));
            }
        }
        i = i + 1;
    }
    proof {
        assert(views_of(files@).subrange(0, n as int) =~= views_of(files@));
    }
    sort_source_files(&mut kept);
    let ghost arranged = views_of(files@).filter(pred).sort_by(file_order());
    let mut blob: Vec<u8> = Vec::new();
    let m = kept.len();
    let mut j: usize = 0;
    while j < m
        invariant
            j <= m == kept@.len(),
            views_of(kept@) == arranged,
            blob@ == spec_significant(arranged.subrange(0, j as int)),
        decreases m - j,
    {
        proof {
            assert(arranged.subrange(0, j + 1 as int).drop_last() =~= arranged.subrange(
                0,
                j as int,
            ));
            assert(arranged.subrange(0, j + 1 as int).last() == file_view(kept@[j as int]));
        }
        let marker = marker_for(kept[j].name.as_str());
        let mut piece = normalize_content(&marker, &kept[j].content);
        blob.append(&mut piece);
        j = j + 1;
    }
    proof {
        assert(arranged.subrange(0, m as int) =~= arranged);
    }
    fnv_hash(&blob)
}

/// Listings with the same elements have the same elements satisfying a
/// predicate, as unordered collections.
proof fn lemma_filter_multiset<V>(a: Seq<V>, b: Seq<V>, p: spec_fn(V) -> bool)
    requires
        a.to_multiset() == b.to_multiset(),
    ensures
        a.filter(p).to_multiset() == b.filter(p).to_multiset(),
    decreases a.len(),
{
    broadcast use vstd::seq_lib::group_to_multiset_ensures;

    reveal(Seq::filter);
    if a.len() == 0 {
        assert(b.len() == b.to_multiset().len());
        assert(b.len() == 0);
        assert(a.filter(p) =~= Seq::<V>::empty());
        assert(b.filter(p) =~= Seq::<V>::empty());
        assert(a.filter(p).to_multiset() =~= b.filter(p).to_multiset());
    } else {
        let x = a.last();
        let a2 = a.drop_last();
        assert(a.contains(x));
        assert(a.to_multiset().contains(x));
        assert(b.to_multiset().contains(x));
        assert(b.contains(x));
        let j = choose|j: int| 0 <= j < b.len() && b[j] == x;
        let b2 = b.remove(j);
        assert(a2 =~= a.remove(a.len() - 1));
        assert(a2.to_multiset() =~= a.to_multiset().remove(x));
        assert(b2.to_multiset() =~= b.to_multiset().remove(x));
        lemma_filter_multiset(a2, b2, p);
        // The filter of `a` is the filter of everything before its last
        // element, with `x` kept or not.
        assert(a.filter(p) == if p(x) {
            a2.filter(p).push(x)
        } else {
            a2.filter(p)
        });
        // The filter of `b` splits around position `j` the same way.
        let l = b.subrange(0, j);
        let r = b.subrange(j + 1, b.len() as int);
        assert(b =~= l + (seq![x] + r));
        Seq::filter_distributes_over_add(l, seq![x] + r, p);
        Seq::filter_distributes_over_add(seq![x], r, p);
        assert(seq![x].drop_last() =~= Seq::<V>::empty());
        assert(seq![x].len() == 1);
        assert(seq![x].last() == x);
        assert(Seq::<V>::empty().filter(p) =~= Seq::<V>::empty());
        assert(seq![x].filter(p) == if p(x) {
            Seq::<V>::empty().push(x)
        } else {
            Seq::<V>::empty()
        });
        assert(b2 =~= l + r);
        Seq::filter_distributes_over_add(l, r, p);
        vstd::seq_lib::lemma_multiset_commutative(l.filter(p), seq![x].filter(p) + r.filter(p));
        vstd::seq_lib::lemma_multiset_commutative(seq![x].filter(p), r.filter(p));
        vstd::seq_lib::lemma_multiset_commutative(l.filter(p), r.filter(p));
        if p(x) {
            assert(seq![x].filter(p).to_multiset() =~= Multiset::<V>::empty().insert(x));
            assert(b.filter(p).to_multiset() =~= b2.filter(p).to_multiset().insert(x));
            assert(a.filter(p).to_multiset() =~= a2.filter(p).to_multiset().insert(x));
        } else {
            assert(seq![x].filter(p).to_multiset() =~= Multiset::<V>::empty());
            assert(b.filter(p).to_multiset() =~= b2.filter(p).to_multiset());
            assert(a.filter(p).to_multiset() =~= a2.filter(p).to_multiset());
        }
        assert(a.filter(p).to_multiset() =~= b.filter(p).to_multiset());
    }
}

/// Only the source files matter to the fingerprint: two listings whose
/// source files are the same unordered collection of (name, bytes) pairs
/// fingerprint alike, whatever other files stand beside them.  An edit to a
/// file that is not a source file — whitespace or otherwise — never moves
/// the fingerprint.
pub proof fn lemma_fingerprint_of_source_files(
    files1: Seq<(Seq<char>, Seq<u8>)>,
    files2: Seq<(Seq<char>, Seq<u8>)>,
)
    requires
        files1.filter(|f: (Seq<char>, Seq<u8>)| view_is_source(f)).to_multiset() == files2.filter(
            |f: (Seq<char>, Seq<u8>)| view_is_source(f),
        ).to_multiset(),
    ensures
        spec_fingerprint(files1) == spec_fingerprint(files2),
{
    let pred = |f: (Seq<char>, Seq<u8>)| view_is_source(f);
    let ord = file_order();
    lemma_file_order_total();
    files1.filter(pred).lemma_sort_by_ensures(ord);
    files2.filter(pred).lemma_sort_by_ensures(ord);
    lemma_sorted_unique(
        files1.filter(pred).sort_by(ord),
        files2.filter(pred).sort_by(ord),
        ord,
    );
}

/// Fingerprinting is deterministic in the folder's content: however two
/// directory scans of the same files order their listings, the fingerprint
/// comes out the same.
pub proof fn lemma_fingerprint_ignores_listing_order(
    files1: Seq<(Seq<char>, Seq<u8>)>,
    files2: Seq<(Seq<char>, Seq<u8>)>,
)
    requires
        files1.to_multiset() == files2.to_multiset(),
    ensures
        spec_fingerprint(files1) == spec_fingerprint(files2),
{
    lemma_filter_multiset(files1, files2, |f: (Seq<char>, Seq<u8>)| view_is_source(f));
    lemma_fingerprint_of_source_files(files1, files2);
}

} // verus!
