//! Polyfill detection by structural tree inspection.
//!
//! A single postorder walk of the syntax tree tests every still-unconfirmed
//! polyfill against every node (children before their parent, and the
//! still-searching list in reverse registration order at each node).  A
//! polyfill whose pattern is found moves from the searching list to the
//! found list, at most once per run, and is never tested again.  As soon as
//! no polyfill is left searching, the walk stops — at every recursion depth,
//! not only at the root.

use vstd::prelude::*;
use crate::seq_facts::{
    lemma_filter_all_false, lemma_filter_all_true, lemma_filter_and, lemma_filter_partition_len,
    lemma_filter_singleton, lemma_prefix_trans,
};

verus! {

/// A node of the parsed syntax tree: its kind, and its children in source
/// order.
#[derive(Debug, PartialEq, Eq)]
pub struct SyntaxNode {
    pub kind: NodeKind,
    pub children: Vec<SyntaxNode>,
}

/// What a polyfill predicate can read off a node.
#[derive(Debug, PartialEq, Eq)]
pub enum NodeKind {
    /// An identifier reference: its name, and the scope token it resolves
    /// under.
    Ident { name: Vec<char>, ctxt: u32 },
    /// Any other construct.
    Other,
}

/// A runtime-capability shim, identified by the structural pattern whose
/// presence anywhere in a program confirms that the program needs it.
#[derive(Debug, PartialEq, Eq)]
pub enum Polyfill {
    /// Needed when a global identifier of this name is used and no top-level
    /// binding shadows it.
    GlobalIdent { name: Vec<char> },
    /// Needed when an identifier of this name resolves under the top-level
    /// scope token.
    ScopedIdent { name: Vec<char> },
}

/// The arguments of one polyfill-detection run: the program root, the
/// precomputed top-level scope token and top-level binding names, and the
/// two caller-owned polyfill sets.
pub struct FillPolyfillsParams {
    pub program: SyntaxNode,
    pub top_level_context: u32,
    pub top_level_decls: Vec<Vec<char>>,
    pub searching_polyfills: Vec<Polyfill>,
    pub found_polyfills: Vec<Polyfill>,
}

/// The name is bound at top level.
pub open spec fn decl_set_contains(decls: Seq<Vec<char>>, name: Seq<char>) -> bool {
    exists|i: int| 0 <= i < decls.len() && (#[trigger] decls[i])@ == name
}

/// The polyfill's trigger pattern is present at this very node.
pub open spec fn polyfill_matches(
    p: Polyfill,
    node: SyntaxNode,
    tlc: u32,
    decls: Seq<Vec<char>>,
) -> bool {
    match p {
        Polyfill::GlobalIdent { name } => match node.kind {
            NodeKind::Ident { name: n, ctxt: _ } => n@ == name@ && !decl_set_contains(decls, name@),
            NodeKind::Other => false,
        },
        Polyfill::ScopedIdent { name } => match node.kind {
            NodeKind::Ident { name: n, ctxt } => n@ == name@ && ctxt == tlc,
            NodeKind::Other => false,
        },
    }
}

/// The polyfill's trigger pattern is present somewhere in the subtree rooted
/// at `node`.
pub open spec fn subtree_matches(p: Polyfill, node: SyntaxNode, tlc: u32, decls: Seq<Vec<char>>) -> bool
    decreases node,
{
    polyfill_matches(p, node, tlc, decls) || exists|i: int|
        0 <= i < node.children@.len() && subtree_matches(
            p,
            #[trigger] node.children@[i],
            tlc,
            decls,
        )
}

/// The polyfill's pattern is present in one of the subtrees rooted at the
/// nodes of `s`.
pub open spec fn matched_in_seq(
    p: Polyfill,
    s: Seq<SyntaxNode>,
    tlc: u32,
    decls: Seq<Vec<char>>,
) -> bool {
    exists|i: int| 0 <= i < s.len() && subtree_matches(p, #[trigger] s[i], tlc, decls)
}

/// "Still searching after visiting the subtree at `node`", as a function
/// value.
pub open spec fn still_searching_pred(
    node: SyntaxNode,
    tlc: u32,
    decls: Seq<Vec<char>>,
) -> spec_fn(Polyfill) -> bool {
    |p: Polyfill| !subtree_matches(p, node, tlc, decls)
}

/// "Confirmed by the subtree at `node`", as a function value.
pub open spec fn confirmed_pred(
    node: SyntaxNode,
    tlc: u32,
    decls: Seq<Vec<char>>,
) -> spec_fn(Polyfill) -> bool {
    |p: Polyfill| subtree_matches(p, node, tlc, decls)
}

/// "Unmatched by the first `k` child subtrees", as a function value.
pub open spec fn unmatched_in_prefix_pred(
    children: Seq<SyntaxNode>,
    k: int,
    tlc: u32,
    decls: Seq<Vec<char>>,
) -> spec_fn(Polyfill) -> bool {
    |p: Polyfill| !matched_in_seq(p, children.take(k), tlc, decls)
}

/// "Not triggered by this very node", as a function value.
pub open spec fn node_unmatched_pred(
    node: SyntaxNode,
    tlc: u32,
    decls: Seq<Vec<char>>,
) -> spec_fn(Polyfill) -> bool {
    |p: Polyfill| !polyfill_matches(p, node, tlc, decls)
}

/// Character-for-character equality of two names.
fn names_equal(a: &Vec<char>, b: &Vec<char>) -> (r: bool)
    ensures
        r == (a@ == b@),
{
    if a.len() != b.len() {
        assert(a@ != b@);
        return false;
    }
    let mut i: usize = 0;
    while i < a.len()
        invariant
            i <= a@.len(),
            a@.len() == b@.len(),
            forall|j: int| 0 <= j < i ==> a@[j] == b@[j],
        decreases a@.len() - i,
    {
        if a[i] != b[i] {
            return false;
        }
        i = i + 1;
    }
    proof {
        assert(a@ =~= b@);
    }
    true
}

/// Whether the top-level binding set holds `name`.
fn decls_contain(decls: &Vec<Vec<char>>, name: &Vec<char>) -> (r: bool)
    ensures
        r == decl_set_contains(decls@, name@),
{
    let mut i: usize = 0;
    while i < decls.len()
        invariant
            i <= decls@.len(),
            forall|j: int| 0 <= j < i ==> (#[trigger] decls@[j])@ != name@,
        decreases decls@.len() - i,
    {
        if names_equal(&decls[i], name) {
            return true;
        }
        i = i + 1;
    }
    false
}

impl Polyfill {
    /// The polyfill's predicate: pure and total, it tests whether this very
    /// node triggers the polyfill.  An inability to decide resolves to
    /// "not matched".
    pub fn visit_node(&self, node: &SyntaxNode, tlc: u32, decls: &Vec<Vec<char>>) -> (r: bool)
        ensures
            r == polyfill_matches(*self, *node, tlc, decls@),
    {
        match self {
            Polyfill::GlobalIdent { name } => match &node.kind {
                NodeKind::Ident { name: n, ctxt: _ } => {
                    names_equal(n, name) && !decls_contain(decls, name)
                },
                NodeKind::Other => false,
            },
            Polyfill::ScopedIdent { name } => match &node.kind {
                NodeKind::Ident { name: n, ctxt } => names_equal(n, name) && *ctxt == tlc,
                NodeKind::Other => false,
            },
        }
    }
}

/// Postorder visit of the subtree rooted at `node`: children in source order
/// first, then the node itself is tested against every polyfill still
/// searching, in reverse registration order; matches move to `found`.  If
/// nothing is searching at entry the subtree is skipped entirely.  Returns
/// how many nodes were tested (saturating at the integer limit).
#[verifier::loop_isolation(false)]
#[verifier::rlimit(100)]
fn visit_children(
    node: &SyntaxNode,
    tlc: u32,
    decls: &Vec<Vec<char>>,
    searching: &mut Vec<Polyfill>,
    found: &mut Vec<Polyfill>,
) -> (visited: usize)
    ensures
        final(searching)@ == old(searching)@.filter(still_searching_pred(*node, tlc, decls@)),
        old(found)@.is_prefix_of(final(found)@),
        final(found)@.to_multiset().add(final(searching)@.to_multiset()) == old(
            found,
        )@.to_multiset().add(old(searching)@.to_multiset()),
        forall|j: int|
            old(found)@.len() <= j < final(found)@.len() ==> subtree_matches(
                #[trigger] final(found)@[j],
                *node,
                tlc,
                decls@,
            ),
        (visited == 0) <==> (old(searching)@.len() == 0),
    decreases *node,
{
    broadcast use vstd::seq_lib::group_to_multiset_ensures;

    if searching.len() == 0 {
        proof {
            lemma_filter_all_false(searching@, still_searching_pred(*node, tlc, decls@));
            assert(searching@ =~= Seq::<Polyfill>::empty());
        }
        return 0;
    }

    let ghost s_orig = searching@;
    let ghost f_orig = found@;
    let mut visited: usize = 0;

    proof {
        assert(f_orig =~= f_orig.subrange(0, f_orig.len() as int));
        assert forall|p: Polyfill| #[trigger]
            unmatched_in_prefix_pred(node.children@, 0, tlc, decls@)(p) by {
            assert(node.children@.take(0) =~= Seq::<SyntaxNode>::empty());
        }
        lemma_filter_all_true(s_orig, unmatched_in_prefix_pred(node.children@, 0, tlc, decls@));
    }

    let n_children = node.children.len();
    let mut k: usize = 0;
    while k < n_children
        invariant
            k <= node.children@.len(),
            searching@ == s_orig.filter(
                unmatched_in_prefix_pred(node.children@, k as int, tlc, decls@),
            ),
            f_orig.is_prefix_of(found@),
            found@.to_multiset().add(searching@.to_multiset()) == f_orig.to_multiset().add(
                s_orig.to_multiset(),
            ),
            forall|j: int|
                f_orig.len() <= j < found@.len() ==> subtree_matches(
                    #[trigger] found@[j],
                    *node,
                    tlc,
                    decls@,
                ),
        decreases node.children@.len() - k,
    {
        let ghost s_before = searching@;
        let ghost f_before = found@;
        let child = &node.children[k];
        let v = visit_children(child, tlc, decls, searching, found);
        visited = if visited <= usize::MAX - v {
            visited + v
        } else {
            usize::MAX
        };
        proof {
            let ghost ck = node.children@[k as int];
            assert forall|p: Polyfill| #[trigger]
                unmatched_in_prefix_pred(node.children@, k + 1, tlc, decls@)(p) == (
            unmatched_in_prefix_pred(node.children@, k as int, tlc, decls@)(p)
                && still_searching_pred(ck, tlc, decls@)(p)) by {
                let c_now = node.children@.take(k as int);
                let c_next = node.children@.take(k + 1);
                if matched_in_seq(p, c_next, tlc, decls@) {
                    let i = choose|i: int|
                        0 <= i < c_next.len() && subtree_matches(p, #[trigger] c_next[i], tlc, decls@);
                    if i < k {
                        assert(c_now[i] == c_next[i]);
                        assert(matched_in_seq(p, c_now, tlc, decls@));
                    } else {
                        assert(subtree_matches(p, ck, tlc, decls@));
                    }
                }
                if matched_in_seq(p, c_now, tlc, decls@) {
                    let i = choose|i: int|
                        0 <= i < c_now.len() && subtree_matches(p, #[trigger] c_now[i], tlc, decls@);
                    assert(c_next[i] == c_now[i]);
                    assert(matched_in_seq(p, c_next, tlc, decls@));
                }
                if subtree_matches(p, ck, tlc, decls@) {
                    assert(c_next[k as int] == ck);
                    assert(matched_in_seq(p, c_next, tlc, decls@));
                }
            }
            lemma_filter_and(
                s_orig,
                unmatched_in_prefix_pred(node.children@, k as int, tlc, decls@),
                still_searching_pred(ck, tlc, decls@),
                unmatched_in_prefix_pred(node.children@, k + 1, tlc, decls@),
            );
            lemma_prefix_trans(f_orig, f_before, found@);
            assert forall|j: int|
                f_orig.len() <= j < found@.len() implies subtree_matches(
                #[trigger] found@[j],
                *node,
                tlc,
                decls@,
            ) by {
                if j < f_before.len() {
                    assert(found@[j] == f_before[j]);
                } else {
                    assert(subtree_matches(found@[j], ck, tlc, decls@));
                }
            }
        }
        k = k + 1;
    }

    let ghost s_mid = searching@;
    let ghost f_mid = found@;
    let ghost npred = node_unmatched_pred(*node, tlc, decls@);
    let mut i = searching.len();
    proof {
        assert(s_mid.skip(s_mid.len() as int) =~= Seq::<Polyfill>::empty());
        lemma_filter_all_false(s_mid.skip(s_mid.len() as int), npred);
        assert(s_mid.take(s_mid.len() as int) =~= s_mid);
        assert(searching@ =~= s_mid.take(i as int) + s_mid.skip(i as int).filter(npred));
    }
    while i > 0
        invariant
            i <= s_mid.len(),
            searching@ == s_mid.take(i as int) + s_mid.skip(i as int).filter(npred),
            f_mid.is_prefix_of(found@),
            found@.to_multiset().add(searching@.to_multiset()) == f_mid.to_multiset().add(
                s_mid.to_multiset(),
            ),
            forall|j: int|
                f_mid.len() <= j < found@.len() ==> polyfill_matches(
                    #[trigger] found@[j],
                    *node,
                    tlc,
                    decls@,
                ),
        decreases i,
    {
        i = i - 1;
        let ghost s_cur = searching@;
        proof {
            assert(s_cur[i as int] == s_mid.take(i + 1)[i as int]);
            assert(s_mid.skip(i as int) =~= seq![s_mid[i as int]] + s_mid.skip(i + 1));
            Seq::filter_distributes_over_add(seq![s_mid[i as int]], s_mid.skip(i + 1), npred);
            lemma_filter_singleton(s_mid[i as int], npred);
            assert(s_mid.take(i + 1) =~= s_mid.take(i as int).push(s_mid[i as int]));
        }
        let matched = searching[i].visit_node(node, tlc, decls);
        if matched {
            let ghost f_cur = found@;
            let p = searching.remove(i);
            found.push(p);
            proof {
                assert(p == s_mid[i as int]);
                assert(searching@ =~= s_mid.take(i as int) + s_mid.skip(i as int).filter(npred));
                assert(found@.to_multiset().add(searching@.to_multiset()) =~= f_cur.to_multiset().add(
                    s_cur.to_multiset(),
                ));
                assert(f_cur =~= found@.subrange(0, f_cur.len() as int));
                lemma_prefix_trans(f_mid, f_cur, found@);
                assert forall|j: int|
                    f_mid.len() <= j < found@.len() implies polyfill_matches(
                    #[trigger] found@[j],
                    *node,
                    tlc,
                    decls@,
                ) by {
                    if j < f_cur.len() {
                        assert(found@[j] == f_cur[j]);
                    } else {
                        assert(found@[j] == p);
                    }
                }
            }
        } else {
            proof {
                assert(searching@ =~= s_mid.take(i as int) + s_mid.skip(i as int).filter(npred));
            }
        }
    }
    proof {
        assert(s_mid.take(0) =~= Seq::<Polyfill>::empty());
        assert(s_mid.skip(0) =~= s_mid);
        assert(searching@ == s_mid.filter(npred));
        assert forall|p: Polyfill| #[trigger]
            still_searching_pred(*node, tlc, decls@)(p) == (
        unmatched_in_prefix_pred(node.children@, node.children@.len() as int, tlc, decls@)(p)
            && npred(p)) by {
            assert(node.children@.take(node.children@.len() as int) =~= node.children@);
        }
        lemma_filter_and(
            s_orig,
            unmatched_in_prefix_pred(node.children@, node.children@.len() as int, tlc, decls@),
            npred,
            still_searching_pred(*node, tlc, decls@),
        );
        lemma_prefix_trans(f_orig, f_mid, found@);
        assert forall|j: int|
            f_orig.len() <= j < found@.len() implies subtree_matches(
            #[trigger] found@[j],
            *node,
            tlc,
            decls@,
        ) by {
            if j < f_mid.len() {
                assert(found@[j] == f_mid[j]);
            }
        }
    }
    visited = if visited < usize::MAX {
        visited + 1
    } else {
        visited
    };
    visited
}

/// One polyfill-detection run.  On return, every polyfill whose trigger
/// pattern is structurally present anywhere in the tree has moved from
/// `searching_polyfills` to the end of `found_polyfills` (each at most once,
/// and never back); every other polyfill stays searching, in its original
/// order.  Polyfills are moved, never created or dropped.  Returns how many
/// nodes were tested: zero exactly when nothing was searching at call start.
pub fn fill_polyfills(params: &mut FillPolyfillsParams) -> (visited: usize)
    ensures
        final(params).program == old(params).program,
        final(params).top_level_context == old(params).top_level_context,
        final(params).top_level_decls == old(params).top_level_decls,
        final(params).searching_polyfills@ == old(params).searching_polyfills@.filter(
            still_searching_pred(
                old(params).program,
                old(params).top_level_context,
                old(params).top_level_decls@,
            ),
        ),
        old(params).found_polyfills@.is_prefix_of(final(params).found_polyfills@),
        final(params).found_polyfills@.to_multiset().add(
            final(params).searching_polyfills@.to_multiset(),
        ) == old(params).found_polyfills@.to_multiset().add(
            old(params).searching_polyfills@.to_multiset(),
        ),
        final(params).found_polyfills@.len() == old(params).found_polyfills@.len() + old(
            params,
        ).searching_polyfills@.filter(
            confirmed_pred(
                old(params).program,
                old(params).top_level_context,
                old(params).top_level_decls@,
            ),
        ).len(),
        forall|j: int|
            old(params).found_polyfills@.len() <= j < final(params).found_polyfills@.len()
                ==> subtree_matches(
                #[trigger] final(params).found_polyfills@[j],
                old(params).program,
                old(params).top_level_context,
                old(params).top_level_decls@,
            ),
        (visited == 0) <==> (old(params).searching_polyfills@.len() == 0),
{
    broadcast use vstd::seq_lib::group_to_multiset_ensures;

    let tlc = params.top_level_context;
    let v = visit_children(
        &params.program,
        tlc,
        &params.top_level_decls,
        &mut params.searching_polyfills,
        &mut params.found_polyfills,
    );
    proof {
        broadcast use vstd::multiset::group_multiset_axioms;

        lemma_polyfill_partition(
            old(params).searching_polyfills@,
            old(params).program,
            tlc,
            old(params).top_level_decls@,
        );
        assert(params.found_polyfills@.to_multiset().len()
            == params.found_polyfills@.len());
        assert(params.searching_polyfills@.to_multiset().len()
            == params.searching_polyfills@.len());
        assert(old(params).found_polyfills@.to_multiset().len()
            == old(params).found_polyfills@.len());
        assert(old(params).searching_polyfills@.to_multiset().len()
            == old(params).searching_polyfills@.len());
        assert(params.found_polyfills@.to_multiset().add(
            params.searching_polyfills@.to_multiset(),
        ).len() == params.found_polyfills@.to_multiset().len()
            + params.searching_polyfills@.to_multiset().len());
        assert(old(params).found_polyfills@.to_multiset().add(
            old(params).searching_polyfills@.to_multiset(),
        ).len() == old(params).found_polyfills@.to_multiset().len()
            + old(params).searching_polyfills@.to_multiset().len());
    }
    v
}

/// Law: of `n` candidate polyfills of which exactly `k` have a matching node
/// somewhere in the tree, one visitor run confirms exactly `k` and leaves
/// `n - k` searching: the still-searching part and the confirmed part
/// together account for every candidate.
pub proof fn lemma_polyfill_partition(
    searching: Seq<Polyfill>,
    node: SyntaxNode,
    tlc: u32,
    decls: Seq<Vec<char>>,
)
    ensures
        searching.filter(still_searching_pred(node, tlc, decls)).len() + searching.filter(
            confirmed_pred(node, tlc, decls),
        ).len() == searching.len(),
{
    lemma_filter_partition_len(
        searching,
        confirmed_pred(node, tlc, decls),
        still_searching_pred(node, tlc, decls),
    );
}

} // verus!
