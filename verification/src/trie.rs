//! The prefix-factoring decision tree over one length class of the
//! vocabulary.
//!
//! All candidate strings of one byte length are folded into a [`TrieNode`]:
//! the longest byte prefix shared by every candidate is factored out, the
//! remainder is partitioned by the next distinguishing byte, and each
//! partition is folded recursively until a single candidate is left, whose
//! remaining bytes become a final literal. Recognition walks the tree,
//! batching each factored literal into word-wide comparisons and branching
//! once per distinguishing byte.

use vstd::prelude::*;

use crate::matcher::expect_literal;

verus! {

/// One node of the decision tree for a single length class.
///
/// Every candidate's full string equals the factored prefixes and
/// discriminating bytes consumed on the path from the root, followed by the
/// suffix at its leaf; no two children of one branch share a discriminating
/// byte.
pub enum TrieNode {
    /// Exactly one candidate remains; its unconsumed bytes are verified as
    /// one final literal and the match resolves to `atom`.
    Leaf { suffix: Vec<u8>, atom: usize },
    /// Several candidates remain: they share `prefix`, then part ways on the
    /// byte after it.
    Branch { prefix: Vec<u8>, children: Vec<(u8, TrieNode)> },
}

/// First-match lookup in a flat candidate list: the meaning a decision tree
/// must preserve.
pub open spec fn cands_lookup(cs: Seq<(Vec<u8>, usize)>, s: Seq<u8>) -> Option<usize>
    decreases cs.len(),
{
    if cs.len() == 0 {
        None
    } else if cs[0].0@ == s {
        Some(cs[0].1)
    } else {
        cands_lookup(cs.subrange(1, cs.len() as int), s)
    }
}

/// Candidates of one length class: every string has the class's length and
/// no two are byte-identical.
pub open spec fn cands_wf(cs: Seq<(Vec<u8>, usize)>, len: int) -> bool {
    &&& forall|i: int| 0 <= i < cs.len() ==> (#[trigger] cs[i]).0@.len() == len
    &&& forall|i: int, j: int| 0 <= i < j < cs.len() ==> cs[i].0@ != cs[j].0@
}

/// Lookup among a branch's children: the first child keyed by `b` decides.
pub open spec fn lookup_children(cs: Seq<(u8, TrieNode)>, b: u8, rest: Seq<u8>) -> Option<usize>
    decreases cs, 0int,
{
    if cs.len() == 0 {
        None
    } else if cs[0].0 == b {
        cs[0].1.lookup(rest)
    } else {
        lookup_children(cs.subrange(1, cs.len() as int), b, rest)
    }
}

impl TrieNode {
    /// The tree is shaped for strings of exactly `len` remaining bytes:
    /// leaf literals have that length, branches leave room for their prefix
    /// and one discriminating byte, and sibling bytes never collide.
    pub open spec fn wf(self, len: int) -> bool
        decreases self,
    {
        match self {
            TrieNode::Leaf { suffix, atom } => suffix@.len() == len,
            TrieNode::Branch { prefix, children } => {
                &&& prefix@.len() + 1 <= len
                &&& 1 <= children@.len()
                &&& (forall|i: int, j: int|
                    0 <= i < j < children@.len() ==> children@[i].0 != children@[j].0)
                &&& (forall|i: int|
                    0 <= i < children@.len() ==> (#[trigger] children@[i]).1.wf(
                        len - prefix@.len() - 1,
                    ))
            },
        }
    }

    /// What the tree recognizes: `Some(atom)` exactly when the remaining
    /// input follows a root-to-leaf path and matches the leaf's literal.
    pub open spec fn lookup(self, s: Seq<u8>) -> Option<usize>
        decreases self, 1int,
    {
        match self {
            TrieNode::Leaf { suffix, atom } => if s == suffix@ {
                Some(atom)
            } else {
                None
            },
            TrieNode::Branch { prefix, children } => {
                let p = prefix@.len() as int;
                if p < s.len() && s.subrange(0, p) == prefix@ {
                    lookup_children(children@, s[p], s.subrange(p + 1, s.len() as int))
                } else {
                    None
                }
            },
        }
    }
}

/// `lookup_children` resolves to child `i` when no earlier sibling carries
/// the byte.
proof fn lemma_lookup_children_found(cs: Seq<(u8, TrieNode)>, b: u8, rest: Seq<u8>, i: int)
    requires
        0 <= i < cs.len(),
        cs[i].0 == b,
        forall|j: int| 0 <= j < i ==> cs[j].0 != b,
    ensures
        lookup_children(cs, b, rest) == cs[i].1.lookup(rest),
    decreases i,
{
    if i > 0 {
        lemma_lookup_children_found(cs.subrange(1, cs.len() as int), b, rest, i - 1);
    }
}

/// `lookup_children` fails when no sibling carries the byte.
proof fn lemma_lookup_children_none(cs: Seq<(u8, TrieNode)>, b: u8, rest: Seq<u8>)
    requires
        forall|j: int| 0 <= j < cs.len() ==> cs[j].0 != b,
    ensures
        lookup_children(cs, b, rest) == None::<usize>,
    decreases cs.len(),
{
    if cs.len() > 0 {
        lemma_lookup_children_none(cs.subrange(1, cs.len() as int), b, rest);
    }
}

/// With pairwise-distinct strings, first-match lookup finds entry `i`.
pub proof fn lemma_cands_lookup_found(cs: Seq<(Vec<u8>, usize)>, s: Seq<u8>, i: int)
    requires
        0 <= i < cs.len(),
        cs[i].0@ == s,
        forall|i1: int, i2: int| 0 <= i1 < i2 < cs.len() ==> cs[i1].0@ != cs[i2].0@,
    ensures
        cands_lookup(cs, s) == Some(cs[i].1),
    decreases i,
{
    if i > 0 {
        lemma_cands_lookup_found(cs.subrange(1, cs.len() as int), s, i - 1);
    }
}

/// First-match lookup fails when no entry's string is `s`.
pub proof fn lemma_cands_lookup_none(cs: Seq<(Vec<u8>, usize)>, s: Seq<u8>)
    requires
        forall|i: int| 0 <= i < cs.len() ==> (#[trigger] cs[i]).0@ != s,
    ensures
        cands_lookup(cs, s) == None::<usize>,
    decreases cs.len(),
{
    if cs.len() > 0 {
        lemma_cands_lookup_none(cs.subrange(1, cs.len() as int), s);
    }
}

/// A successful first-match lookup names an entry of the list.
pub proof fn lemma_cands_lookup_member(cs: Seq<(Vec<u8>, usize)>, s: Seq<u8>)
    requires
        cands_lookup(cs, s) is Some,
    ensures
        exists|k: int|
            0 <= k < cs.len() && (#[trigger] cs[k]).0@ == s && Some(cs[k].1) == cands_lookup(
                cs,
                s,
            ),
    decreases cs.len(),
{
    if cs.len() > 0 && cs[0].0@ != s {
        let sub = cs.subrange(1, cs.len() as int);
        lemma_cands_lookup_member(sub, s);
        let k = choose|k: int|
            0 <= k < sub.len() && (#[trigger] sub[k]).0@ == s && Some(sub[k].1) == cands_lookup(
                sub,
                s,
            );
        assert(cs[k + 1] == sub[k]);
    }
}

/// Copy the bytes of `v` in `from..to` into a fresh vector.
pub(crate) fn subrange_vec(v: &Vec<u8>, from: usize, to: usize) -> (r: Vec<u8>)
    requires
        from <= to <= v@.len(),
    ensures
        r@ == v@.subrange(from as int, to as int),
{
    let mut r: Vec<u8> = Vec::new();
    let mut i: usize = from;
    while i < to
        invariant
            from <= i <= to <= v@.len(),
            r@.len() == i - from,
            forall|k: int| 0 <= k < r@.len() ==> r@[k] == v@[from + k],
        decreases to - i,
    {
        r.push(v[i]);
        i = i + 1;
    }
    proof {
        assert(r@ =~= v@.subrange(from as int, to as int));
    }
    r
}

/// Find the first child keyed by `b`, if any.
fn find_child_index(children: &Vec<(u8, TrieNode)>, b: u8) -> (r: Option<usize>)
    ensures
        r matches Some(i) ==> 0 <= i < children@.len() && children@[i as int].0 == b && (forall|
            j: int,
        | 0 <= j < i ==> children@[j].0 != b),
        r is None ==> forall|j: int| 0 <= j < children@.len() ==> children@[j].0 != b,
{
    let mut i: usize = 0;
    let n = children.len();
    while i < n
        invariant
            0 <= i <= n == children@.len(),
            forall|j: int| 0 <= j < i ==> children@[j].0 != b,
        decreases n - i,
    {
        if children[i].0 == b {
            return Some(i);
        }
        i = i + 1;
    }
    None
}

/// Walk the decision tree against the input window starting at `pos`:
/// consume the factored literal, branch on the next byte, and resolve at a
/// leaf — or fail on the first divergence.
///
/// The caller has already checked that exactly `len` bytes remain for a
/// tree shaped for `len`, so no end-of-input checks are repeated inside.
pub fn walk(node: &TrieNode, s: &[u8], pos: usize) -> (r: Option<usize>)
    requires
        pos <= s@.len(),
        node.wf(s@.len() - pos),
    ensures
        r == node.lookup(s@.subrange(pos as int, s@.len() as int)),
    decreases *node,
{
    let ghost rest = s@.subrange(pos as int, s@.len() as int);
    match node {
        TrieNode::Leaf { suffix, atom } => {
            let res = expect_literal(s, pos, suffix.as_slice());
            proof {
                assert(s@.subrange(pos as int, pos + suffix@.len()) =~= rest);
            }
            match res {
                Some(_) => Some(*atom),
                None => None,
            }
        },
        TrieNode::Branch { prefix, children } => {
            let p = prefix.len();
            let res = expect_literal(s, pos, prefix.as_slice());
            proof {
                assert(s@.subrange(pos as int, pos + prefix@.len()) =~= rest.subrange(
                    0,
                    p as int,
                ));
            }
            match res {
                None => None,
                Some(at) => {
                    let b = s[at];
                    proof {
                        assert(rest[p as int] == b);
                    }
                    match find_child_index(children, b) {
                        Some(i) => {
                            let child = &children[i].1;
                            proof {
                                assert(decreases_to!(*node => *child));
                                lemma_lookup_children_found(
                                    children@,
                                    b,
                                    rest.subrange(p + 1, rest.len() as int),
                                    i as int,
                                );
                            }
                            let r = walk(child, s, at + 1);
                            proof {
                                assert(rest.subrange(p + 1, rest.len() as int) =~= s@.subrange(
                                    at + 1,
                                    s@.len() as int,
                                ));
                            }
                            r
                        },
                        None => {
                            proof {
                                lemma_lookup_children_none(
                                    children@,
                                    b,
                                    rest.subrange(p + 1, rest.len() as int),
                                );
                            }
                            None
                        },
                    }
                },
            }
        },
    }
}

/// Linear scan for a byte value, reporting where it sits.
fn find_byte(v: &Vec<u8>, b: u8) -> (r: Option<usize>)
    ensures
        r matches Some(j) ==> 0 <= j < v@.len() && v@[j as int] == b,
        r is None ==> forall|j: int| 0 <= j < v@.len() ==> v@[j] != b,
{
    let mut i: usize = 0;
    let n = v.len();
    while i < n
        invariant
            0 <= i <= n == v@.len(),
            forall|j: int| 0 <= j < i ==> v@[j] != b,
        decreases n - i,
    {
        if v[i] == b {
            return Some(i);
        }
        i = i + 1;
    }
    None
}

/// Length of the longest byte prefix shared by every candidate; with two or
/// more distinct equal-length candidates it always stops short of the whole
/// string.
#[verifier::loop_isolation(false)]
fn common_prefix_len(cands: &Vec<(Vec<u8>, usize)>) -> (p: usize)
    requires
        2 <= cands@.len(),
        cands_wf(cands@, cands@[0].0@.len() as int),
    ensures
        p + 1 <= cands@[0].0@.len(),
        forall|i: int, q: int|
            0 <= i < cands@.len() && 0 <= q < p ==> #[trigger] cands@[i].0@[q] == cands@[0].0@[q],
        exists|i: int|
            0 <= i < cands@.len() && (#[trigger] cands@[i]).0@[p as int] != cands@[0].0@[p as int],
{
    let len = cands[0].0.len();
    let n = cands.len();
    let mut p: usize = 0;
    while p < len
        invariant
            0 <= p <= len,
            forall|i: int, q: int|
                0 <= i < cands@.len() && 0 <= q < p ==> #[trigger] cands@[i].0@[q]
                    == cands@[0].0@[q],
        decreases len - p,
    {
        let b = cands[0].0[p];
        let mut i: usize = 1;
        while i < n
            invariant
                1 <= i <= n,
                forall|i2: int|
                    0 <= i2 < i ==> #[trigger] cands@[i2].0@[p as int] == cands@[0].0@[p as int],
            decreases n - i,
        {
            if cands[i].0[p] != b {
                return p;
            }
            i = i + 1;
        }
        p = p + 1;
    }
    proof {
        assert(cands@[0].0@ =~= cands@[1].0@);
    }
    p
}

/// The distinct bytes found at position `p` across the candidates, in
/// first-occurrence order; beside them, for each listed byte one candidate
/// that carries it, and for each candidate where its byte is listed.
#[verifier::loop_isolation(false)]
fn distinct_bytes_at(cands: &Vec<(Vec<u8>, usize)>, p: usize) -> (res: (
    Vec<u8>,
    Ghost<Seq<int>>,
    Ghost<Seq<int>>,
))
    requires
        cands_wf(cands@, cands@[0].0@.len() as int),
        p + 1 <= cands@[0].0@.len(),
    ensures
        ({
            let (bytes, bsrc, bmap) = res;
            &&& forall|g1: int, g2: int|
                0 <= g1 < g2 < bytes@.len() ==> bytes@[g1] != bytes@[g2]
            &&& bsrc@.len() == bytes@.len()
            &&& forall|g: int|
                #![trigger bsrc@[g]]
                0 <= g < bytes@.len() ==> 0 <= bsrc@[g] < cands@.len()
                    && cands@[bsrc@[g]].0@[p as int] == bytes@[g]
            &&& bmap@.len() == cands@.len()
            &&& forall|i: int|
                #![trigger bmap@[i]]
                0 <= i < cands@.len() ==> 0 <= bmap@[i] < bytes@.len() && bytes@[bmap@[i]]
                    == cands@[i].0@[p as int]
        }),
{
    let n = cands.len();
    let mut bytes: Vec<u8> = Vec::new();
    let ghost mut bsrc: Seq<int> = Seq::empty();
    let ghost mut bmap: Seq<int> = Seq::empty();
    let mut i: usize = 0;
    while i < n
        invariant
            0 <= i <= n,
            forall|g1: int, g2: int| 0 <= g1 < g2 < bytes@.len() ==> bytes@[g1] != bytes@[g2],
            bsrc.len() == bytes@.len(),
            forall|g: int|
                #![trigger bsrc[g]]
                0 <= g < bytes@.len() ==> 0 <= bsrc[g] < i && cands@[bsrc[g]].0@[p as int]
                    == bytes@[g],
            bmap.len() == i,
            forall|i2: int|
                #![trigger bmap[i2]]
                0 <= i2 < i ==> 0 <= bmap[i2] < bytes@.len() && bytes@[bmap[i2]]
                    == cands@[i2].0@[p as int],
        decreases n - i,
    {
        let b = cands[i].0[p];
        match find_byte(&bytes, b) {
            Some(j) => {
                proof {
                    bmap = bmap.push(j as int);
                }
            },
            None => {
                bytes.push(b);
                proof {
                    bsrc = bsrc.push(i as int);
                    bmap = bmap.push(bytes@.len() - 1);
                }
            },
        }
        i = i + 1;
    }
    (bytes, Ghost(bsrc), Ghost(bmap))
}

/// Entry `e` is candidate `c` cut past position `p`, whose byte there is
/// `b`.
spec fn entry_from(e: (Vec<u8>, usize), c: (Vec<u8>, usize), p: int, b: u8) -> bool {
    &&& 0 <= p < c.0@.len()
    &&& c.0@[p] == b
    &&& e.0@ == c.0@.subrange(p + 1, c.0@.len() as int)
    &&& e.1 == c.1
}

/// Collect, in declaration order, every candidate whose byte at `p` is `b`,
/// keeping only the bytes after position `p`; beside the group, for each
/// entry the candidate it came from, and for each matching candidate its
/// entry.
#[verifier::loop_isolation(false)]
#[verifier::rlimit(50)]
fn collect_group(cands: &Vec<(Vec<u8>, usize)>, p: usize, b: u8) -> (res: (
    Vec<(Vec<u8>, usize)>,
    Ghost<Seq<int>>,
    Ghost<Seq<int>>,
))
    requires
        1 <= cands@.len(),
        cands_wf(cands@, cands@[0].0@.len() as int),
        p + 1 <= cands@[0].0@.len(),
        forall|i: int, q: int|
            0 <= i < cands@.len() && 0 <= q < p ==> #[trigger] cands@[i].0@[q] == cands@[0].0@[q],
    ensures
        ({
            let (grp, srcs, cmap) = res;
            &&& cands_wf(grp@, cands@[0].0@.len() - p - 1)
            &&& srcs@.len() == grp@.len()
            &&& forall|k: int|
                #![trigger srcs@[k]]
                0 <= k < grp@.len() ==> 0 <= srcs@[k] < cands@.len() && entry_from(
                    grp@[k],
                    cands@[srcs@[k]],
                    p as int,
                    b,
                )
            &&& cmap@.len() == cands@.len()
            &&& forall|i: int|
                #![trigger cmap@[i]]
                0 <= i < cands@.len() && cands@[i].0@[p as int] == b ==> 0 <= cmap@[i]
                    < grp@.len() && entry_from(grp@[cmap@[i]], cands@[i], p as int, b)
        }),
{
    let ghost len = cands@[0].0@.len() as int;
    let n = cands.len();
    let mut grp: Vec<(Vec<u8>, usize)> = Vec::new();
    let ghost mut srcs: Seq<int> = Seq::empty();
    let ghost mut cmap: Seq<int> = Seq::empty();
    let mut i: usize = 0;
    while i < n
        invariant
            0 <= i <= n,
            srcs.len() == grp@.len(),
            forall|k: int|
                #![trigger srcs[k]]
                0 <= k < grp@.len() ==> 0 <= srcs[k] < i && entry_from(
                    grp@[k],
                    cands@[srcs[k]],
                    p as int,
                    b,
                ),
            forall|k1: int, k2: int| 0 <= k1 < k2 < srcs.len() ==> srcs[k1] < srcs[k2],
            cmap.len() == i,
            forall|i2: int|
                #![trigger cmap[i2]]
                0 <= i2 < i && cands@[i2].0@[p as int] == b ==> 0 <= cmap[i2] < grp@.len()
                    && entry_from(grp@[cmap[i2]], cands@[i2], p as int, b),
        decreases n - i,
    {
        if cands[i].0[p] == b {
            let text_len = cands[i].0.len();
            let restv = subrange_vec(&cands[i].0, p + 1, text_len);
            grp.push((restv, cands[i].1));
            proof {
                srcs = srcs.push(i as int);
                cmap = cmap.push(grp@.len() - 1);
                assert(entry_from(grp@[grp@.len() - 1], cands@[i as int], p as int, b));
            }
        } else {
            proof {
                cmap = cmap.push(-1);
            }
        }
        i = i + 1;
    }
    proof {
        assert forall|k: int| 0 <= k < grp@.len() implies (#[trigger] grp@[k]).0@.len() == len - p
            - 1 by {
            assert(entry_from(grp@[k], cands@[srcs[k]], p as int, b));
        }
        assert forall|k1: int, k2: int| 0 <= k1 < k2 < grp@.len() implies grp@[k1].0@
            != grp@[k2].0@ by {
            assert(entry_from(grp@[k1], cands@[srcs[k1]], p as int, b));
            assert(entry_from(grp@[k2], cands@[srcs[k2]], p as int, b));
            if grp@[k1].0@ == grp@[k2].0@ {
                lemma_recompose(cands@[srcs[k1]].0@, cands@[srcs[k2]].0@, p as int);
            }
        }
    }
    (grp, Ghost(srcs), Ghost(cmap))
}

/// Split the candidates by their byte at position `p`, keeping declaration
/// order within each group and first-occurrence order among groups. Each
/// kept string is the remainder after that byte. Beside the groups: for
/// every group entry the candidate it came from, and for every candidate
/// the group and entry holding it.
#[verifier::loop_isolation(false)]
#[verifier::rlimit(50)]
fn partition(cands: &Vec<(Vec<u8>, usize)>, p: usize) -> (res: (
    Vec<(u8, Vec<(Vec<u8>, usize)>)>,
    Ghost<Seq<Seq<int>>>,
    Ghost<Seq<(int, int)>>,
))
    requires
        1 <= cands@.len(),
        cands_wf(cands@, cands@[0].0@.len() as int),
        p + 1 <= cands@[0].0@.len(),
        forall|i: int, q: int|
            0 <= i < cands@.len() && 0 <= q < p ==> #[trigger] cands@[i].0@[q] == cands@[0].0@[q],
    ensures
        ({
            let (groups, gsrcs, cmap) = res;
            &&& 1 <= groups@.len()
            &&& forall|g1: int, g2: int|
                0 <= g1 < g2 < groups@.len() ==> groups@[g1].0 != groups@[g2].0
            &&& forall|g: int|
                #![trigger groups@[g]]
                0 <= g < groups@.len() ==> 1 <= groups@[g].1@.len() && cands_wf(
                    groups@[g].1@,
                    cands@[0].0@.len() - p - 1,
                )
            &&& gsrcs@.len() == groups@.len()
            &&& forall|g: int|
                #![trigger gsrcs@[g]]
                0 <= g < groups@.len() ==> gsrcs@[g].len() == groups@[g].1@.len()
            &&& forall|g: int, k: int|
                #![trigger gsrcs@[g][k]]
                0 <= g < groups@.len() && 0 <= k < gsrcs@[g].len() ==> 0 <= gsrcs@[g][k]
                    < cands@.len() && entry_from(
                    groups@[g].1@[k],
                    cands@[gsrcs@[g][k]],
                    p as int,
                    groups@[g].0,
                )
            &&& cmap@.len() == cands@.len()
            &&& forall|i: int|
                #![trigger cmap@[i]]
                0 <= i < cands@.len() ==> 0 <= cmap@[i].0 < groups@.len() && 0 <= cmap@[i].1
                    < groups@[cmap@[i].0].1@.len() && groups@[cmap@[i].0].0 == cands@[i].0@[
                    p as int] && entry_from(
                    groups@[cmap@[i].0].1@[cmap@[i].1],
                    cands@[i],
                    p as int,
                    groups@[cmap@[i].0].0,
                )
        }),
{
    let ghost len = cands@[0].0@.len() as int;
    let n = cands.len();
    let (bytes, bsrc_g, bmap_g) = distinct_bytes_at(cands, p);
    let ghost bsrc = bsrc_g@;
    let ghost bmap = bmap_g@;

    let mut groups: Vec<(u8, Vec<(Vec<u8>, usize)>)> = Vec::new();
    let ghost mut gsrcs: Seq<Seq<int>> = Seq::empty();
    let ghost mut cmaps: Seq<Seq<int>> = Seq::empty();
    let mut g: usize = 0;
    while g < bytes.len()
        invariant
            groups@.len() == g,
            gsrcs.len() == g,
            cmaps.len() == g,
            0 <= g <= bytes@.len(),
            forall|c: int| #![trigger groups@[c]] 0 <= c < g ==> groups@[c].0 == bytes@[c],
            forall|c: int|
                #![trigger groups@[c]]
                0 <= c < g ==> 1 <= groups@[c].1@.len() && cands_wf(groups@[c].1@, len - p - 1),
            forall|c: int|
                #![trigger gsrcs[c]]
                0 <= c < g ==> gsrcs[c].len() == groups@[c].1@.len(),
            forall|c: int, k: int|
                #![trigger gsrcs[c][k]]
                0 <= c < g && 0 <= k < gsrcs[c].len() ==> 0 <= gsrcs[c][k] < cands@.len()
                    && entry_from(groups@[c].1@[k], cands@[gsrcs[c][k]], p as int, groups@[c].0),
            forall|c: int| #![trigger cmaps[c]] 0 <= c < g ==> cmaps[c].len() == cands@.len(),
            forall|c: int, i2: int|
                #![trigger cmaps[c][i2]]
                0 <= c < g && 0 <= i2 < cands@.len() && cands@[i2].0@[p as int] == groups@[c].0
                    ==> 0 <= cmaps[c][i2] < groups@[c].1@.len() && entry_from(
                    groups@[c].1@[cmaps[c][i2]],
                    cands@[i2],
                    p as int,
                    groups@[c].0,
                ),
        decreases bytes@.len() - g,
    {
        let b = bytes[g];
        let (grp, srcs_g, cmap_g) = collect_group(cands, p, b);
        proof {
            assert(0 <= bsrc[g as int] < cands@.len());
            assert(cands@[bsrc[g as int]].0@[p as int] == b);
            assert(0 <= cmap_g@[bsrc[g as int]] < grp@.len());
        }
        groups.push((b, grp));
        proof {
            gsrcs = gsrcs.push(srcs_g@);
            cmaps = cmaps.push(cmap_g@);
        }
        g = g + 1;
    }
    let ghost cmap = Seq::new(
        cands@.len(),
        |i: int| (bmap[i], cmaps[bmap[i]][i]),
    );
    proof {
        assert forall|i: int|
            #![trigger cmap[i]]
            0 <= i < cands@.len() implies 0 <= cmap[i].0 < groups@.len() && 0 <= cmap[i].1
            < groups@[cmap[i].0].1@.len() && groups@[cmap[i].0].0 == cands@[i].0@[p as int]
            && entry_from(
            groups@[cmap[i].0].1@[cmap[i].1],
            cands@[i],
            p as int,
            groups@[cmap[i].0].0,
        ) by {
            let c = bmap[i];
            assert(0 <= c < bytes@.len());
            assert(bytes@[c] == cands@[i].0@[p as int]);
            assert(groups@[c].0 == bytes@[c]);
            assert(cmaps[c].len() == cands@.len());
            let k = cmaps[c][i];
            assert(0 <= k < groups@[c].1@.len() && entry_from(
                groups@[c].1@[k],
                cands@[i],
                p as int,
                groups@[c].0,
            ));
            assert(cmap[i] == (c, k));
        }
        assert(0 <= bmap[0] < bytes@.len());
    }
    (groups, Ghost(gsrcs), Ghost(cmap))
}

/// Fold one length class of candidates into its decision tree: factor out
/// the longest shared prefix, split on the next byte, and recurse, down to
/// single-candidate leaves.
///
/// The tree means exactly what the flat candidate list means: looking up
/// any byte string finds the atom of the candidate it equals, or nothing.
#[verifier::loop_isolation(false)]
#[verifier::rlimit(100)]
pub fn build_trie(cands: Vec<(Vec<u8>, usize)>) -> (t: TrieNode)
    requires
        1 <= cands@.len(),
        cands_wf(cands@, cands@[0].0@.len() as int),
    ensures
        t.wf(cands@[0].0@.len() as int),
        forall|s: Seq<u8>| #[trigger] t.lookup(s) == cands_lookup(cands@, s),
    decreases cands@[0].0@.len(),
{
    let ghost cs0 = cands@;
    let ghost len = cands@[0].0@.len() as int;
    let mut cands = cands;
    if cands.len() == 1 {
        let pair = cands.pop().unwrap();
        let t = TrieNode::Leaf { suffix: pair.0, atom: pair.1 };
        proof {
            assert forall|s: Seq<u8>| #[trigger] t.lookup(s) == cands_lookup(cs0, s) by {
                reveal_with_fuel(cands_lookup, 2);
            }
        }
        t
    } else {
        let p = common_prefix_len(&cands);
        let prefix = subrange_vec(&cands[0].0, 0, p);
        let (groups, gsrcs_g, cmap_g) = partition(&cands, p);
        let ghost groups0 = groups@;
        let ghost gsrcs = gsrcs_g@;
        let ghost cmap = cmap_g@;
        let mut remaining = groups;
        let mut children: Vec<(u8, TrieNode)> = Vec::new();
        while remaining.len() > 0
            invariant
                children@.len() + remaining@.len() == groups0.len(),
                remaining@ == groups0.subrange(children@.len() as int, groups0.len() as int),
                forall|c: int|
                    #![trigger children@[c]]
                    0 <= c < children@.len() ==> children@[c].0 == groups0[c].0
                        && children@[c].1.wf(len - p - 1),
                forall|c: int, s: Seq<u8>|
                    #![trigger children@[c].1.lookup(s)]
                    0 <= c < children@.len() ==> children@[c].1.lookup(s) == cands_lookup(
                        groups0[c].1@,
                        s,
                    ),
            decreases remaining@.len(),
        {
            let ghost c = children@.len() as int;
            let (b, grp) = remaining.remove(0);
            proof {
                assert((b, grp) == groups0[c]);
                assert(groups0[c].1@[0].0@.len() == len - p - 1);
            }
            let child = build_trie(grp);
            children.push((b, child));
            proof {
                assert(remaining@ =~= groups0.subrange(
                    children@.len() as int,
                    groups0.len() as int,
                ));
            }
        }
        let t = TrieNode::Branch { prefix, children };
        proof {
            let P = p as int;
            assert(prefix@.len() == P);
            assert(t.wf(len));
            assert forall|s: Seq<u8>| #[trigger] t.lookup(s) == cands_lookup(cs0, s) by {
                let rest = s.subrange(P + 1, s.len() as int);
                if P < s.len() && s.subrange(0, P) == prefix@ {
                    let b = s[P];
                    if exists|c: int|
                        0 <= c < children@.len() && (#[trigger] children@[c]).0 == b {
                        let c = choose|c: int|
                            0 <= c < children@.len() && (#[trigger] children@[c]).0 == b;
                        assert forall|j: int| 0 <= j < c implies (#[trigger] children@[j]).0
                            != b by {
                            assert(children@[j].0 == groups0[j].0);
                            assert(children@[c].0 == groups0[c].0);
                        }
                        lemma_lookup_children_found(children@, b, rest, c);
                        assert(children@[c].1.lookup(rest) == cands_lookup(groups0[c].1@, rest));
                        if exists|i: int| 0 <= i < cs0.len() && (#[trigger] cs0[i]).0@ == s {
                            let i = choose|i: int|
                                0 <= i < cs0.len() && (#[trigger] cs0[i]).0@ == s;
                            lemma_cands_lookup_found(cs0, s, i);
                            let gi = cmap[i].0;
                            let ki = cmap[i].1;
                            assert(groups0[gi].0 == cs0[i].0@[P]);
                            assert(cs0[i].0@[P] == b);
                            assert(children@[gi].0 == groups0[gi].0);
                            assert(gi == c);
                            assert(entry_from(groups0[c].1@[ki], cs0[i], P, groups0[c].0));
                            assert(cs0[i].0@.len() == len);
                            assert(s.len() == len);
                            assert(groups0[c].1@[ki].0@ == rest);
                            lemma_cands_lookup_found(groups0[c].1@, rest, ki);
                            assert(cands_lookup(groups0[c].1@, rest) == Some(cs0[i].1));
                        } else {
                            assert forall|i2: int| 0 <= i2 < cs0.len() implies (#[trigger] cs0[i2]).0@ != s by {}
                            lemma_cands_lookup_none(cs0, s);
                            assert forall|k: int| 0 <= k < groups0[c].1@.len() implies (
                            #[trigger] groups0[c].1@[k]).0@ != rest by {
                                let i2 = gsrcs[c][k];
                                assert(0 <= i2 < cs0.len());
                                assert(entry_from(groups0[c].1@[k], cs0[i2], P, groups0[c].0));
                                if groups0[c].1@[k].0@ == rest {
                                    assert(cs0[i2].0@.len() == len);
                                    assert(groups0[c].1@[k].0@.len() == len - P - 1);
                                    assert(s.len() == len);
                                    assert forall|q: int| 0 <= q < P implies cs0[i2].0@[q]
                                        == s[q] by {
                                        assert(s.subrange(0, P)[q] == s[q]);
                                        assert(cs0[0].0@.subrange(0, P)[q] == cs0[0].0@[q]);
                                        assert(cs0[i2].0@[q] == cs0[0].0@[q]);
                                    }
                                    assert(children@[c].0 == groups0[c].0);
                                    assert(cs0[i2].0@[P] == s[P]);
                                    assert(cs0[i2].0@.subrange(P + 1, len) == rest);
                                    lemma_recompose(cs0[i2].0@, s, P);
                                    assert(cs0[i2].0@ == s);
                                }
                            }
                            lemma_cands_lookup_none(groups0[c].1@, rest);
                        }
                    } else {
                        lemma_lookup_children_none(children@, b, rest);
                        assert forall|i2: int| 0 <= i2 < cs0.len() implies (#[trigger] cs0[i2]).0@ != s by {
                            if cs0[i2].0@ == s {
                                let gi = cmap[i2].0;
                                assert(groups0[gi].0 == cs0[i2].0@[P]);
                                assert(children@[gi].0 == groups0[gi].0);
                                assert(children@[gi].0 == b);
                            }
                        }
                        lemma_cands_lookup_none(cs0, s);
                    }
                } else {
                    assert forall|i2: int| 0 <= i2 < cs0.len() implies (#[trigger] cs0[i2]).0@
                        != s by {
                        if cs0[i2].0@ == s {
                            assert(cs0[i2].0@.len() == len);
                            assert(s.len() == len);
                            assert(P < s.len());
                            assert forall|q: int| 0 <= q < P implies s.subrange(0, P)[q]
                                == prefix@[q] by {
                                assert(s.subrange(0, P)[q] == s[q]);
                                assert(cs0[i2].0@[q] == cs0[0].0@[q]);
                                assert(prefix@[q] == cs0[0].0@.subrange(0, P)[q]);
                            }
                            assert(s.subrange(0, P) =~= prefix@);
                        }
                    }
                    lemma_cands_lookup_none(cs0, s);
                }
            }
        }
        t
    }
}

/// Two equal-length strings that agree before, at, and after position `p`
/// are the same string.
proof fn lemma_recompose(t: Seq<u8>, u: Seq<u8>, p: int)
    requires
        t.len() == u.len(),
        0 <= p < t.len(),
        forall|q: int| 0 <= q < p ==> t[q] == u[q],
        t[p] == u[p],
        t.subrange(p + 1, t.len() as int) == u.subrange(p + 1, u.len() as int),
    ensures
        t == u,
{
    assert forall|q: int| 0 <= q < t.len() implies t[q] == u[q] by {
        if q > p {
            assert(t.subrange(p + 1, t.len() as int)[q - p - 1] == t[q]);
            assert(u.subrange(p + 1, u.len() as int)[q - p - 1] == u[q]);
        }
    }
    assert(t =~= u);
}

} // verus!
