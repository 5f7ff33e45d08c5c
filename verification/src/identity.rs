//! Dense identities for a compiled vocabulary.
//!
//! [`AtomTable::new`] runs the whole compiler once: it validates the
//! vocabulary, assigns each entry its ordinal in declaration order,
//! partitions the entries by byte length, and folds each length class into
//! its decision tree. The result recognizes exactly the declared strings
//! ([`AtomTable::parse`]) and converts between atoms and their ordinals in
//! both directions.

use vstd::prelude::*;

use crate::errors::{BuildError, OrdinalRangeError, ParseFailure};
use crate::texts_distinct;
use crate::trie::{
    build_trie, cands_lookup, cands_wf, lemma_cands_lookup_found, lemma_cands_lookup_member,
    subrange_vec, walk, TrieNode,
};

verus! {

/// One atom of a compiled vocabulary: a dense ordinal in `[0, N)`, assigned
/// in declaration order. Its view is that ordinal.
#[derive(Clone, Copy, Debug, PartialEq, Eq, Structural, Hash, PartialOrd, Ord)]
pub struct Atom {
    ordinal: usize,
}

impl View for Atom {
    type V = int;

    closed spec fn view(&self) -> int {
        self.ordinal as int
    }
}

impl Atom {
    /// The atom with ordinal `n`; the compiled table and the containers
    /// hand these out.
    pub(crate) fn from_index(n: usize) -> (a: Atom)
        ensures
            a@ == n,
    {
        Atom { ordinal: n }
    }

    /// The dense integer identity of this atom.
    pub fn ordinal(&self) -> (r: usize)
        ensures
            r == self@,
    {
        self.ordinal
    }
}

/// The byte strings of a list of owned text buffers.
pub open spec fn text_views(ts: Seq<Vec<u8>>) -> Seq<Seq<u8>> {
    Seq::new(ts.len(), |i: int| ts[i]@)
}

/// Bytewise equality of two owned buffers.
fn bytes_eq(a: &Vec<u8>, b: &Vec<u8>) -> (r: bool)
    ensures
        r <==> a@ == b@,
{
    if a.len() != b.len() {
        return false;
    }
    let n = a.len();
    let mut i: usize = 0;
    while i < n
        invariant
            0 <= i <= n == a@.len() == b@.len(),
            forall|k: int| 0 <= k < i ==> a@[k] == b@[k],
        decreases n - i,
    {
        if a[i] != b[i] {
            return false;
        }
        i = i + 1;
    }
    proof {
        assert(a@ =~= b@);
    }
    true
}

/// Scan for a pair of byte-identical vocabulary entries.
#[verifier::loop_isolation(false)]
fn has_duplicate(texts: &Vec<Vec<u8>>) -> (r: bool)
    ensures
        r <==> !texts_distinct(text_views(texts@)),
{
    let n = texts.len();
    let mut i: usize = 0;
    while i < n
        invariant
            0 <= i <= n,
            forall|i1: int, j1: int|
                0 <= i1 < j1 < n && i1 < i ==> texts@[i1]@ != texts@[j1]@,
        decreases n - i,
    {
        let mut j: usize = i + 1;
        while j < n
            invariant
                i < j <= n,
                forall|j1: int| i < j1 < j ==> texts@[i as int]@ != texts@[j1]@,
            decreases n - j,
        {
            if bytes_eq(&texts[i], &texts[j]) {
                proof {
                    assert(text_views(texts@)[i as int] == texts@[i as int]@);
                    assert(text_views(texts@)[j as int] == texts@[j as int]@);
                }
                return true;
            }
            j = j + 1;
        }
        i = i + 1;
    }
    proof {
        assert forall|i1: int, j1: int|
            0 <= i1 < j1 < text_views(texts@).len() implies text_views(texts@)[i1]
            != text_views(texts@)[j1] by {
            assert(texts@[i1]@ != texts@[j1]@);
        }
    }
    false
}

/// The distinct byte lengths occurring in the vocabulary, in
/// first-occurrence order; beside them, for each length one entry carrying
/// it, and for each entry where its length is listed.
#[verifier::loop_isolation(false)]
fn distinct_lens(texts: &Vec<Vec<u8>>) -> (res: (Vec<usize>, Ghost<Seq<int>>, Ghost<Seq<int>>))
    ensures
        ({
            let (lens, lsrc, lmap) = res;
            &&& forall|c1: int, c2: int| 0 <= c1 < c2 < lens@.len() ==> lens@[c1] != lens@[c2]
            &&& lsrc@.len() == lens@.len()
            &&& forall|c: int|
                #![trigger lsrc@[c]]
                0 <= c < lens@.len() ==> 0 <= lsrc@[c] < texts@.len()
                    && texts@[lsrc@[c]]@.len() == lens@[c]
            &&& lmap@.len() == texts@.len()
            &&& forall|i: int|
                #![trigger lmap@[i]]
                0 <= i < texts@.len() ==> 0 <= lmap@[i] < lens@.len() && lens@[lmap@[i]]
                    == texts@[i]@.len()
        }),
{
    let n = texts.len();
    let mut lens: Vec<usize> = Vec::new();
    let ghost mut lsrc: Seq<int> = Seq::empty();
    let ghost mut lmap: Seq<int> = Seq::empty();
    let mut i: usize = 0;
    while i < n
        invariant
            0 <= i <= n,
            forall|c1: int, c2: int| 0 <= c1 < c2 < lens@.len() ==> lens@[c1] != lens@[c2],
            lsrc.len() == lens@.len(),
            forall|c: int|
                #![trigger lsrc[c]]
                0 <= c < lens@.len() ==> 0 <= lsrc[c] < i && texts@[lsrc[c]]@.len() == lens@[c],
            lmap.len() == i,
            forall|i2: int|
                #![trigger lmap[i2]]
                0 <= i2 < i ==> 0 <= lmap[i2] < lens@.len() && lens@[lmap[i2]]
                    == texts@[i2]@.len(),
        decreases n - i,
    {
        let l = texts[i].len();
        match find_len(&lens, l) {
            Some(c) => {
                proof {
                    lmap = lmap.push(c as int);
                }
            },
            None => {
                lens.push(l);
                proof {
                    lsrc = lsrc.push(i as int);
                    lmap = lmap.push(lens@.len() - 1);
                }
            },
        }
        i = i + 1;
    }
    (lens, Ghost(lsrc), Ghost(lmap))
}

/// Linear scan for a length value, reporting where it sits.
fn find_len(v: &Vec<usize>, l: usize) -> (r: Option<usize>)
    ensures
        r matches Some(j) ==> 0 <= j < v@.len() && v@[j as int] == l,
        r is None ==> forall|j: int| 0 <= j < v@.len() ==> v@[j] != l,
{
    let mut i: usize = 0;
    let n = v.len();
    while i < n
        invariant
            0 <= i <= n == v@.len(),
            forall|j: int| 0 <= j < i ==> v@[j] != l,
        decreases n - i,
    {
        if v[i] == l {
            return Some(i);
        }
        i = i + 1;
    }
    None
}

/// Collect, in declaration order, every vocabulary entry of byte length
/// `l`, paired with its ordinal; beside the class, for each member its
/// ordinal, and for each entry of that length its place in the class.
#[verifier::loop_isolation(false)]
#[verifier::rlimit(50)]
fn collect_len_class(texts: &Vec<Vec<u8>>, l: usize) -> (res: (
    Vec<(Vec<u8>, usize)>,
    Ghost<Seq<int>>,
    Ghost<Seq<int>>,
))
    requires
        texts_distinct(text_views(texts@)),
    ensures
        ({
            let (cands, srcs, cmap) = res;
            &&& cands_wf(cands@, l as int)
            &&& srcs@.len() == cands@.len()
            &&& forall|k: int|
                #![trigger srcs@[k]]
                0 <= k < cands@.len() ==> 0 <= srcs@[k] < texts@.len() && cands@[k].0@
                    == texts@[srcs@[k]]@ && texts@[srcs@[k]]@.len() == l && cands@[k].1
                    == srcs@[k]
            &&& cmap@.len() == texts@.len()
            &&& forall|i: int|
                #![trigger cmap@[i]]
                0 <= i < texts@.len() && texts@[i]@.len() == l ==> 0 <= cmap@[i] < cands@.len()
                    && cands@[cmap@[i]].0@ == texts@[i]@ && cands@[cmap@[i]].1 == i
        }),
{
    let n = texts.len();
    let mut cands: Vec<(Vec<u8>, usize)> = Vec::new();
    let ghost mut srcs: Seq<int> = Seq::empty();
    let ghost mut cmap: Seq<int> = Seq::empty();
    let mut i: usize = 0;
    while i < n
        invariant
            0 <= i <= n,
            srcs.len() == cands@.len(),
            forall|k: int|
                #![trigger srcs[k]]
                0 <= k < cands@.len() ==> 0 <= srcs[k] < i && cands@[k].0@ == texts@[srcs[k]]@
                    && texts@[srcs[k]]@.len() == l && cands@[k].1 == srcs[k],
            forall|k1: int, k2: int| 0 <= k1 < k2 < srcs.len() ==> srcs[k1] < srcs[k2],
            cmap.len() == i,
            forall|i2: int|
                #![trigger cmap[i2]]
                0 <= i2 < i && texts@[i2]@.len() == l ==> 0 <= cmap[i2] < cands@.len()
                    && cands@[cmap[i2]].0@ == texts@[i2]@ && cands@[cmap[i2]].1 == i2,
        decreases n - i,
    {
        let tl = texts[i].len();
        if tl == l {
            let copy = subrange_vec(&texts[i], 0, tl);
            proof {
                assert(copy@ =~= texts@[i as int]@);
            }
            cands.push((copy, i));
            proof {
                srcs = srcs.push(i as int);
                cmap = cmap.push(cands@.len() - 1);
            }
        } else {
            proof {
                cmap = cmap.push(-1);
            }
        }
        i = i + 1;
    }
    proof {
        assert forall|k: int| 0 <= k < cands@.len() implies (#[trigger] cands@[k]).0@.len()
            == l by {
            assert(cands@[k].0@ == texts@[srcs[k]]@);
        }
        assert forall|k1: int, k2: int| 0 <= k1 < k2 < cands@.len() implies cands@[k1].0@
            != cands@[k2].0@ by {
            assert(cands@[k1].0@ == texts@[srcs[k1]]@);
            assert(cands@[k2].0@ == texts@[srcs[k2]]@);
            assert(text_views(texts@)[srcs[k1]] == texts@[srcs[k1]]@);
            assert(text_views(texts@)[srcs[k2]] == texts@[srcs[k2]]@);
        }
    }
    (cands, Ghost(srcs), Ghost(cmap))
}

/// A compiled vocabulary: the declared texts in declaration order, and one
/// decision tree per byte-length class.
pub struct AtomTable {
    texts: Vec<Vec<u8>>,
    tries: Vec<(usize, TrieNode)>,
    class_of: Ghost<Seq<int>>,
}

impl View for AtomTable {
    type V = Seq<Seq<u8>>;

    closed spec fn view(&self) -> Seq<Seq<u8>> {
        text_views(self.texts@)
    }
}

impl AtomTable {
    /// Internal consistency of the compiled artifact: the texts are
    /// pairwise distinct, each class tree is shaped for its own length,
    /// trees resolve only to declared atoms of their length, and the tree
    /// of an atom's length class resolves its text to that atom.
    pub closed spec fn wf(self) -> bool {
        &&& texts_distinct(self@)
        &&& forall|c1: int, c2: int|
            0 <= c1 < c2 < self.tries@.len() ==> self.tries@[c1].0 != self.tries@[c2].0
        &&& forall|c: int|
            #![trigger self.tries@[c]]
            0 <= c < self.tries@.len() ==> self.tries@[c].1.wf(self.tries@[c].0 as int)
        &&& forall|c: int, s: Seq<u8>|
            #![trigger self.tries@[c].1.lookup(s)]
            0 <= c < self.tries@.len() ==> (self.tries@[c].1.lookup(s) matches Some(a) ==> 0 <= a
                < self@.len() && self@[a as int] == s && s.len() == self.tries@[c].0)
        &&& self.class_of@.len() == self@.len()
        &&& forall|a: int|
            #![trigger self.class_of@[a]]
            0 <= a < self@.len() ==> 0 <= self.class_of@[a] < self.tries@.len()
                && self.tries@[self.class_of@[a]].0 == self@[a].len()
                && self.tries@[self.class_of@[a]].1.lookup(self@[a]) == Some(a as usize)
    }

    /// Number of declared atoms.
    pub fn len(&self) -> (n: usize)
        ensures
            n == self@.len(),
    {
        self.texts.len()
    }

    /// Compile the vocabulary: validate it, give each entry the next dense
    /// ordinal in declaration order, partition the entries by byte length,
    /// and fold each length class into its decision tree.
    ///
    /// An empty vocabulary or a repeated entry is reported before anything
    /// is built.
    #[verifier::loop_isolation(false)]
    #[verifier::rlimit(100)]
    pub fn new(texts: Vec<Vec<u8>>) -> (r: Result<AtomTable, BuildError>)
        ensures
            texts@.len() == 0 ==> r == Err::<AtomTable, BuildError>(BuildError::EmptyVocabulary),
            texts@.len() > 0 && !texts_distinct(text_views(texts@)) ==> r == Err::<
                AtomTable,
                BuildError,
            >(BuildError::DuplicateEntry),
            texts@.len() > 0 && texts_distinct(text_views(texts@)) ==> (r matches Ok(t) && t.wf()
                && t@ == text_views(texts@)),
    {
        if texts.len() == 0 {
            return Err(BuildError::EmptyVocabulary);
        }
        if has_duplicate(&texts) {
            return Err(BuildError::DuplicateEntry);
        }
        let (lens, lsrc_g, lmap_g) = distinct_lens(&texts);
        let ghost lsrc = lsrc_g@;
        let ghost lmap = lmap_g@;
        let mut tries: Vec<(usize, TrieNode)> = Vec::new();
        let ghost mut all_cands: Seq<Seq<(Vec<u8>, usize)>> = Seq::empty();
        let ghost mut all_srcs: Seq<Seq<int>> = Seq::empty();
        let ghost mut all_cmaps: Seq<Seq<int>> = Seq::empty();
        let mut c: usize = 0;
        while c < lens.len()
            invariant
                tries@.len() == c,
                0 <= c <= lens@.len(),
                all_cands.len() == c,
                all_srcs.len() == c,
                all_cmaps.len() == c,
                forall|c2: int|
                    #![trigger tries@[c2]]
                    0 <= c2 < c ==> tries@[c2].0 == lens@[c2] && tries@[c2].1.wf(
                        lens@[c2] as int,
                    ),
                forall|c2: int, s: Seq<u8>|
                    #![trigger tries@[c2].1.lookup(s)]
                    0 <= c2 < c ==> tries@[c2].1.lookup(s) == cands_lookup(all_cands[c2], s),
                forall|c2: int|
                    #![trigger all_cands[c2]]
                    0 <= c2 < c ==> cands_wf(all_cands[c2], lens@[c2] as int)
                        && all_srcs[c2].len() == all_cands[c2].len(),
                forall|c2: int, k: int|
                    #![trigger all_srcs[c2][k]]
                    0 <= c2 < c && 0 <= k < all_srcs[c2].len() ==> 0 <= all_srcs[c2][k]
                        < texts@.len() && all_cands[c2][k].0@ == texts@[all_srcs[c2][k]]@
                        && all_cands[c2][k].1 == all_srcs[c2][k],
                forall|c2: int|
                    #![trigger all_cmaps[c2]]
                    0 <= c2 < c ==> all_cmaps[c2].len() == texts@.len(),
                forall|c2: int, i: int|
                    #![trigger all_cmaps[c2][i]]
                    0 <= c2 < c && 0 <= i < texts@.len() && texts@[i]@.len() == lens@[c2] ==> 0
                        <= all_cmaps[c2][i] < all_cands[c2].len()
                        && all_cands[c2][all_cmaps[c2][i]].0@ == texts@[i]@
                        && all_cands[c2][all_cmaps[c2][i]].1 == i,
            decreases lens@.len() - c,
        {
            let l = lens[c];
            let (cands, srcs_g, cmap_g) = collect_len_class(&texts, l);
            let ghost cseq = cands@;
            proof {
                assert(0 <= lsrc[c as int] < texts@.len());
                assert(texts@[lsrc[c as int]]@.len() == l);
                assert(0 <= cmap_g@[lsrc[c as int]] < cands@.len());
                assert(cands@[0].0@.len() == l);
            }
            let tree = build_trie(cands);
            tries.push((l, tree));
            proof {
                all_cands = all_cands.push(cseq);
                all_srcs = all_srcs.push(srcs_g@);
                all_cmaps = all_cmaps.push(cmap_g@);
            }
            c = c + 1;
        }
        let t = AtomTable { texts, tries, class_of: Ghost(lmap) };
        proof {
            assert(t@ =~= text_views(t.texts@));
            assert forall|cx: int, s: Seq<u8>|
                #![trigger t.tries@[cx].1.lookup(s)]
                0 <= cx < t.tries@.len() implies (t.tries@[cx].1.lookup(s) matches Some(a) ==> 0
                <= a < t@.len() && t@[a as int] == s && s.len() == t.tries@[cx].0) by {
                if t.tries@[cx].1.lookup(s) is Some {
                    assert(cands_lookup(all_cands[cx], s) is Some);
                    lemma_cands_lookup_member(all_cands[cx], s);
                    let k = choose|k: int|
                        0 <= k < all_cands[cx].len() && (#[trigger] all_cands[cx][k]).0@ == s
                            && Some(all_cands[cx][k].1) == cands_lookup(all_cands[cx], s);
                    assert(0 <= all_srcs[cx][k] < texts@.len());
                    assert(all_cands[cx][k].0@.len() == lens@[cx] as int);
                    assert(t@[all_cands[cx][k].1 as int] == texts@[all_srcs[cx][k]]@);
                }
            }
            assert forall|a: int|
                #![trigger t.class_of@[a]]
                0 <= a < t@.len() implies 0 <= t.class_of@[a] < t.tries@.len()
                && t.tries@[t.class_of@[a]].0 == t@[a].len()
                && t.tries@[t.class_of@[a]].1.lookup(t@[a]) == Some(a as usize) by {
                let cx = lmap[a];
                assert(0 <= cx < lens@.len());
                assert(lens@[cx] == texts@[a]@.len());
                let k = all_cmaps[cx][a];
                assert(0 <= k < all_cands[cx].len());
                assert(all_cands[cx][k].0@ == texts@[a]@);
                assert(all_cands[cx][k].1 == a);
                lemma_cands_lookup_found(all_cands[cx], texts@[a]@, k);
                assert(t@[a] == texts@[a]@);
            }
            assert(t.wf());
        }
        Ok(t)
    }

    /// What recognition returns: the atom of the entry byte-identical to
    /// `s`, else the uniform failure.
    pub closed spec fn spec_parse(self, s: Seq<u8>) -> Result<Atom, ParseFailure> {
        if exists|i: int| 0 <= i < self@.len() && self@[i] == s {
            Ok(
                Atom {
                    ordinal: (choose|i: int| 0 <= i < self@.len() && self@[i] == s) as usize,
                },
            )
        } else {
            Err(ParseFailure)
        }
    }

    /// Recognize `s`: the atom whose declared text is byte-identical to
    /// `s`, or the uniform, information-free failure.
    ///
    /// The total length is checked once, up front, to dispatch into the
    /// length class's tree; inside the tree no end-of-input check is ever
    /// repeated.
    #[verifier::loop_isolation(false)]
    pub fn parse(&self, s: &[u8]) -> (r: Result<Atom, ParseFailure>)
        requires
            self.wf(),
        ensures
            r == self.spec_parse(s@),
            r matches Ok(a) ==> 0 <= a@ < self@.len() && self@[a@] == s@,
            r is Err ==> forall|i: int| 0 <= i < self@.len() ==> self@[i] != s@,
    {
        let n = s.len();
        let mut c: usize = 0;
        while c < self.tries.len()
            invariant
                0 <= c <= self.tries@.len(),
                forall|c2: int| 0 <= c2 < c ==> (#[trigger] self.tries@[c2]).0 != n,
            decreases self.tries@.len() - c,
        {
            if self.tries[c].0 == n {
                let res = walk(&self.tries[c].1, s, 0);
                proof {
                    assert(s@.subrange(0, s@.len() as int) =~= s@);
                }
                match res {
                    Some(ord) => {
                        proof {
                            assert(self@[ord as int] == s@);
                            let iw = choose|i: int| 0 <= i < self@.len() && self@[i] == s@;
                            assert(0 <= ord < self@.len() && self@[ord as int] == s@);
                            assert(iw == ord);
                        }
                        return Ok(Atom { ordinal: ord });
                    },
                    None => {
                        proof {
                            assert forall|i: int| 0 <= i < self@.len() implies self@[i] != s@ by {
                                if self@[i] == s@ {
                                    let ci = self.class_of@[i];
                                    assert(self.tries@[ci].0 == s@.len());
                                    assert(ci == c);
                                    assert(self.tries@[c as int].1.lookup(s@) == Some(
                                        i as usize,
                                    ));
                                }
                            }
                        }
                        return Err(ParseFailure);
                    },
                }
            }
            c = c + 1;
        }
        proof {
            assert forall|i: int| 0 <= i < self@.len() implies self@[i] != s@ by {
                if self@[i] == s@ {
                    let ci = self.class_of@[i];
                    assert(self.tries@[ci].0 == s@.len());
                }
            }
        }
        Err(ParseFailure)
    }

    /// The dense ordinal of `a`: total, and never failing.
    pub fn ordinal_of(&self, a: Atom) -> (r: usize)
        ensures
            r == a@,
    {
        a.ordinal
    }

    /// What ordinal-to-atom conversion returns: the atom at `n`, or the
    /// range error for any `n` at or past the vocabulary size.
    pub closed spec fn spec_atom_from_ordinal(self, n: int) -> Result<Atom, OrdinalRangeError> {
        if 0 <= n < self@.len() {
            Ok(Atom { ordinal: n as usize })
        } else {
            Err(OrdinalRangeError)
        }
    }

    /// The atom with ordinal `n`; fails exactly when `n` is at or past the
    /// vocabulary size.
    pub fn atom_from_ordinal(&self, n: usize) -> (r: Result<Atom, OrdinalRangeError>)
        ensures
            r == self.spec_atom_from_ordinal(n as int),
            n < self@.len() ==> (r matches Ok(a) && a@ == n),
            n >= self@.len() ==> r is Err,
    {
        if n < self.texts.len() {
            Ok(Atom { ordinal: n })
        } else {
            Err(OrdinalRangeError)
        }
    }

    /// The declared text of `a`.
    pub fn text_of(&self, a: Atom) -> (r: &Vec<u8>)
        requires
            0 <= a@ < self@.len(),
        ensures
            r@ == self@[a@],
    {
        let r = &self.texts[a.ordinal];
        proof {
            assert(self@[a@] == self.texts@[a@]@);
        }
        r
    }

    /// Round trip: every declared atom's text parses back to exactly that
    /// atom.
    pub proof fn lemma_parse_round_trip(self, i: usize)
        requires
            self.wf(),
            i < self@.len(),
        ensures
            self.spec_parse(self@[i as int]) matches Ok(a) && a@ == i,
    {
        assert(0 <= i < self@.len() && self@[i as int] == self@[i as int]);
        let iw = choose|i2: int| 0 <= i2 < self@.len() && self@[i2] == self@[i as int];
        assert(iw == i);
    }

    /// Rejection: a byte string that is not a declared entry parses to the
    /// uniform failure.
    pub proof fn lemma_parse_rejects(self, s: Seq<u8>)
        requires
            self.wf(),
            forall|i: int| 0 <= i < self@.len() ==> self@[i] != s,
        ensures
            self.spec_parse(s) == Err::<Atom, ParseFailure>(ParseFailure),
    {
    }

    /// Ordinal round trip: converting an atom's ordinal back yields the
    /// same atom.
    pub proof fn lemma_ordinal_round_trip(self, a: Atom)
        requires
            0 <= a@ < self@.len(),
        ensures
            self.spec_atom_from_ordinal(a@) == Ok::<Atom, OrdinalRangeError>(a),
    {
    }

    /// Ordinal bijection: distinct atoms never share an ordinal, every
    /// ordinal below the vocabulary size names exactly one atom, and every
    /// ordinal at or past it names none.
    pub proof fn lemma_ordinal_bijection(self, n: usize)
        ensures
            (n < self@.len()) <==> self.spec_atom_from_ordinal(n as int) is Ok,
            self.spec_atom_from_ordinal(n as int) matches Ok(a) ==> a@ == n,
            forall|a1: Atom, a2: Atom| #![trigger a1@, a2@] a1@ == a2@ ==> a1 == a2,
    {
    }
}

} // verus!
