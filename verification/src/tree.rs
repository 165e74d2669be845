//! The concrete syntax tree: an arena of nodes and tokens, and the builder
//! that the parser drives.
//!
//! Nodes are stored in the order they are finished, so every child node of a
//! node has a smaller index than the node itself. Tokens are stored in the
//! order they were added, which is their order in the source.

use crate::syntax_kind::SyntaxKind;
use vstd::prelude::*;

verus! {

/// A child of a node: another node or a token, by index into the tree's arenas.
#[derive(Debug, Clone, Copy, PartialEq, Eq, Structural)]
pub enum Elem {
    Node(usize),
    Token(usize),
}

/// A finished node: its kind and its children in source order.
#[derive(Debug, Clone)]
pub struct NodeData {
    pub kind: SyntaxKind,
    pub children: Vec<Elem>,
}

/// A token of the tree: its kind and its source text.
#[derive(Debug, Clone)]
pub struct TokenData {
    pub kind: SyntaxKind,
    pub text: String,
}

/// The mathematical form of a node.
pub struct NodeView {
    pub kind: SyntaxKind,
    pub children: Seq<Elem>,
}

/// The mathematical form of a token.
pub struct TokenDataView {
    pub kind: SyntaxKind,
    pub text: Seq<char>,
}

impl View for NodeData {
    type V = NodeView;

    open spec fn view(&self) -> NodeView {
        NodeView { kind: self.kind, children: self.children@ }
    }
}

impl View for TokenData {
    type V = TokenDataView;

    open spec fn view(&self) -> TokenDataView {
        TokenDataView { kind: self.kind, text: self.text@ }
    }
}

/// The token indices under a sequence of children, in order, looking only at
/// nodes numbered below `bound`.
pub open spec fn elems_leaves(nodes: Seq<NodeView>, es: Seq<Elem>, bound: int) -> Seq<int>
    decreases bound, es.len(),
{
    if es.len() == 0 {
        Seq::empty()
    } else {
        let prev = elems_leaves(nodes, es.drop_last(), bound);
        match es.last() {
            Elem::Token(t) => prev.push(t as int),
            Elem::Node(j) => if j < bound && j < nodes.len() {
                prev + elems_leaves(nodes, nodes[j as int].children, j as int)
            } else {
                prev
            },
        }
    }
}

/// The token indices under node `k`, in order.
pub open spec fn node_leaves(nodes: Seq<NodeView>, k: int) -> Seq<int> {
    elems_leaves(nodes, nodes[k].children, k)
}

/// Every node reference in `es` is below `b`, and every token reference is below `nt`.
pub open spec fn refs_valid(es: Seq<Elem>, b: int, nt: int) -> bool {
    forall|i: int|
        0 <= i < es.len() ==> match #[trigger] es[i] {
            Elem::Node(j) => j < b,
            Elem::Token(t) => t < nt,
        }
}

/// The children of every node refer only to earlier nodes and to existing tokens.
pub open spec fn arena_wf(nodes: Seq<NodeView>, ntokens: int) -> bool {
    forall|j: int| 0 <= j < nodes.len() ==> refs_valid(#[trigger] nodes[j].children, j, ntokens)
}

/// The sequence `0, 1, ..., n - 1`.
pub open spec fn upto(n: int) -> Seq<int> {
    Seq::new(n as nat, |i: int| i)
}

/// The concatenated texts of the tokens at the given indices.
pub open spec fn texts_of(tokens: Seq<TokenDataView>, idx: Seq<int>) -> Seq<char>
    decreases idx.len(),
{
    if idx.len() == 0 {
        Seq::empty()
    } else {
        texts_of(tokens, idx.drop_last()) + tokens[idx.last()].text
    }
}

// ── Lemmas on leaves ────────────────────────────────────────────

/// Leaves of a concatenation are the concatenation of leaves.
pub proof fn lemma_leaves_append(nodes: Seq<NodeView>, x: Seq<Elem>, y: Seq<Elem>, bound: int)
    ensures
        elems_leaves(nodes, x + y, bound) == elems_leaves(nodes, x, bound) + elems_leaves(nodes, y, bound),
    decreases y.len(),
{
    if y.len() == 0 {
        assert(x + y =~= x);
        assert(elems_leaves(nodes, x, bound) + Seq::<int>::empty() =~= elems_leaves(nodes, x, bound));
    } else {
        lemma_leaves_append(nodes, x, y.drop_last(), bound);
        assert((x + y).drop_last() =~= x + y.drop_last());
        assert((x + y).last() == y.last());
        let a = elems_leaves(nodes, x, bound);
        let b = elems_leaves(nodes, y.drop_last(), bound);
        match y.last() {
            Elem::Token(t) => {
                assert((a + b).push(t as int) =~= a + b.push(t as int));
            },
            Elem::Node(j) => {
                if j < bound && j < nodes.len() {
                    let c = elems_leaves(nodes, nodes[j as int].children, j as int);
                    assert((a + b) + c =~= a + (b + c));
                }
            },
        }
    }
}

/// Leaves only depend on nodes below the bound, so a larger bound or more
/// nodes do not change them.
pub proof fn lemma_leaves_stable(
    nodes: Seq<NodeView>,
    nodes2: Seq<NodeView>,
    es: Seq<Elem>,
    b1: int,
    b2: int,
    nt: int,
)
    requires
        arena_wf(nodes, nt),
        0 <= b1 <= b2,
        b1 <= nodes.len(),
        b2 <= nodes2.len(),
        nodes.len() <= nodes2.len(),
        forall|j: int| 0 <= j < nodes.len() ==> #[trigger] nodes2[j] == nodes[j],
        refs_valid(es, b1, nt),
    ensures
        elems_leaves(nodes2, es, b2) == elems_leaves(nodes, es, b1),
    decreases b1, es.len(),
{
    if es.len() > 0 {
        assert(refs_valid(es.drop_last(), b1, nt)) by {
            assert forall|i: int| 0 <= i < es.drop_last().len() implies match #[trigger] es.drop_last()[i] {
                Elem::Node(j) => j < b1,
                Elem::Token(t) => t < nt,
            } by {
                assert(es.drop_last()[i] == es[i]);
            }
        }
        lemma_leaves_stable(nodes, nodes2, es.drop_last(), b1, b2, nt);
        let last = es[es.len() - 1];
        assert(match last {
            Elem::Node(j) => j < b1,
            Elem::Token(t) => t < nt,
        });
        match last {
            Elem::Token(t) => {},
            Elem::Node(j) => {
                assert(refs_valid(nodes[j as int].children, j as int, nt));
                lemma_leaves_stable(nodes, nodes2, nodes[j as int].children, j as int, j as int, nt);
            },
        }
    }
}

/// The texts of a concatenation of index sequences.
pub proof fn lemma_texts_append(tokens: Seq<TokenDataView>, x: Seq<int>, y: Seq<int>)
    ensures
        texts_of(tokens, x + y) == texts_of(tokens, x) + texts_of(tokens, y),
    decreases y.len(),
{
    if y.len() == 0 {
        assert(x + y =~= x);
        assert(texts_of(tokens, x) + Seq::<char>::empty() =~= texts_of(tokens, x));
    } else {
        lemma_texts_append(tokens, x, y.drop_last());
        assert((x + y).drop_last() =~= x + y.drop_last());
        let a = texts_of(tokens, x);
        let b = texts_of(tokens, y.drop_last());
        let c = tokens[y.last()].text;
        assert((a + b) + c =~= a + (b + c));
    }
}

// ── The finished tree ───────────────────────────────────────────

/// A concrete syntax tree: the node and token arenas and the root node.
#[derive(Debug, Clone)]
pub struct SyntaxTree {
    pub nodes: Vec<NodeData>,
    pub tokens: Vec<TokenData>,
    pub root: usize,
}

impl SyntaxTree {
    pub open spec fn node_views(self) -> Seq<NodeView> {
        self.nodes@.map_values(|n: NodeData| n@)
    }

    pub open spec fn token_views(self) -> Seq<TokenDataView> {
        self.tokens@.map_values(|t: TokenData| t@)
    }

    /// Children refer to earlier nodes and existing tokens, and the root exists.
    pub open spec fn wf(self) -> bool {
        &&& arena_wf(self.node_views(), self.tokens@.len() as int)
        &&& self.root < self.nodes@.len()
    }

    /// The token indices under the root, in order.
    pub open spec fn leaves(self) -> Seq<int> {
        node_leaves(self.node_views(), self.root as int)
    }

    /// The source text spelled by the tree: its tokens' texts in order.
    pub open spec fn spec_text(self) -> Seq<char> {
        texts_of(self.token_views(), self.leaves())
    }

    /// The source text the tree spells: its tokens' texts in order.
    pub fn text(&self) -> (r: String)
        requires
            self.wf(),
        ensures
            r@ == self.spec_text(),
    {
        let mut out = String::new();
        self.append_text(self.root, &mut out);
        assert(out@ =~= self.spec_text());
        out
    }

    /// Appends the text under node `n`.
    fn append_text(&self, n: usize, out: &mut String)
        requires
            self.wf(),
            n < self.nodes@.len(),
        ensures
            final(out)@ == old(out)@ + texts_of(self.token_views(), node_leaves(self.node_views(), n as int)),
        decreases n,
    {
        let ghost nv = self.node_views();
        let ghost tv = self.token_views();
        let ghost kids = nv[n as int].children;
        let ghost o0 = out@;
        proof {
            assert(nv[n as int] == self.nodes@[n as int]@);
            assert(refs_valid(kids, n as int, self.tokens@.len() as int));
            assert(kids.take(0) =~= Seq::<Elem>::empty());
            assert(o0 + Seq::<char>::empty() =~= o0);
        }
        let len = self.nodes[n].children.len();
        let mut i: usize = 0;
        while i < len
            invariant
                self.wf(),
                n < self.nodes@.len(),
                nv == self.node_views(),
                tv == self.token_views(),
                kids == nv[n as int].children,
                kids == self.nodes@[n as int].children@,
                refs_valid(kids, n as int, self.tokens@.len() as int),
                len == kids.len(),
                i <= len,
                out@ == o0 + texts_of(tv, elems_leaves(nv, kids.take(i as int), n as int)),
            decreases len - i,
        {
            let ghost before = out@;
            let ghost prev = elems_leaves(nv, kids.take(i as int), n as int);
            proof {
                assert(kids.take(i + 1).drop_last() =~= kids.take(i as int));
                assert(kids.take(i + 1).last() == kids[i as int]);
            }
            match self.nodes[n].children[i] {
                Elem::Token(k) => {
                    proof {
                        assert(tv[k as int] == self.tokens@[k as int]@);
                        assert(prev.push(k as int).drop_last() =~= prev);
                    }
                    out.append(self.tokens[k].text.as_str());
                    proof {
                        assert(out@ =~= o0 + texts_of(tv, prev.push(k as int)));
                    }
                },
                Elem::Node(c) => {
                    self.append_text(c, out);
                    proof {
                        lemma_texts_append(tv, prev, node_leaves(nv, c as int));
                        assert(out@ =~= o0 + texts_of(tv, prev + node_leaves(nv, c as int)));
                    }
                },
            }
            i += 1;
        }
        proof {
            assert(kids.take(len as int) =~= kids);
        }
    }
}

// ── The builder ─────────────────────────────────────────────────

/// A node under construction.
pub struct Frame {
    pub kind: SyntaxKind,
    pub children: Vec<Elem>,
}

impl View for Frame {
    type V = NodeView;

    open spec fn view(&self) -> NodeView {
        NodeView { kind: self.kind, children: self.children@ }
    }
}

/// The leaves of a stack of frames, bottom first.
pub open spec fn frames_leaves(nodes: Seq<NodeView>, frames: Seq<NodeView>) -> Seq<int>
    decreases frames.len(),
{
    if frames.len() == 0 {
        Seq::empty()
    } else {
        frames_leaves(nodes, frames.drop_last()) + elems_leaves(nodes, frames.last().children, nodes.len() as int)
    }
}

/// Builds a tree from a stream of start, token and finish events.
///
/// `top` is the node under construction; `frames` holds its unfinished
/// ancestors, outermost first. Before the first node starts, `top` is an
/// outer frame that will receive the root.
pub struct TreeBuilder {
    nodes: Vec<NodeData>,
    tokens: Vec<TokenData>,
    frames: Vec<Frame>,
    top: Frame,
}

/// A position in the builder: the depth and the number of children of the
/// node under construction.
#[derive(Debug, Clone, Copy)]
pub struct Checkpoint {
    pub depth: usize,
    pub children: usize,
}

impl TreeBuilder {
    pub closed spec fn node_views(self) -> Seq<NodeView> {
        self.nodes@.map_values(|n: NodeData| n@)
    }

    pub closed spec fn token_views(self) -> Seq<TokenDataView> {
        self.tokens@.map_values(|t: TokenData| t@)
    }

    pub closed spec fn frame_views(self) -> Seq<NodeView> {
        self.frames@.map_values(|f: Frame| f@)
    }

    pub closed spec fn top_view(self) -> NodeView {
        self.top@
    }

    /// The finished nodes fit in memory.
    pub proof fn lemma_node_count_fits(self)
        ensures
            self.node_views().len() <= usize::MAX,
    {
        assert(self.nodes.len() == self.nodes@.len());
    }

    /// The number of unfinished nodes.
    pub open spec fn depth(self) -> nat {
        self.frame_views().len()
    }

    /// The builder invariant: references are valid, and the tokens under the
    /// stack, read bottom to top, are all tokens added so far in order.
    pub closed spec fn wf(self) -> bool {
        let nodes = self.node_views();
        let nt = self.tokens@.len() as int;
        &&& arena_wf(nodes, nt)
        &&& forall|i: int|
            0 <= i < self.frames@.len() ==> refs_valid(
                (#[trigger] self.frames@[i])@.children,
                nodes.len() as int,
                nt,
            )
        &&& refs_valid(self.top@.children, nodes.len() as int, nt)
        &&& frames_leaves(nodes, self.frame_views().push(self.top@)) == upto(nt)
    }

    /// The builder grew the node under construction from `old` without
    /// touching its ancestors: same depth, same ancestors, same kind, and the
    /// old children are a prefix of the new ones.
    pub open spec fn extends(self, old: TreeBuilder) -> bool {
        &&& self.frame_views() == old.frame_views()
        &&& self.top_view().kind == old.top_view().kind
        &&& old.top_view().children.len() <= self.top_view().children.len()
        &&& self.top_view().children.subrange(0, old.top_view().children.len() as int)
            == old.top_view().children
        &&& old.token_views().len() <= self.token_views().len()
        &&& self.token_views().subrange(0, old.token_views().len() as int) == old.token_views()
    }

    pub fn new() -> (b: TreeBuilder)
        ensures
            b.wf(),
            b.depth() == 0,
            b.top_view().children.len() == 0,
            b.token_views().len() == 0,
            b.node_views().len() == 0,
    {
        let b = TreeBuilder {
            nodes: Vec::new(),
            tokens: Vec::new(),
            frames: Vec::new(),
            top: Frame { kind: SyntaxKind::SourceFile, children: Vec::new() },
        };
        proof {
            assert(b.frame_views() =~= Seq::<NodeView>::empty());
            let fs = b.frame_views().push(b.top@);
            assert(fs.drop_last() =~= Seq::<NodeView>::empty());
            assert(upto(0) =~= Seq::<int>::empty());
            assert(frames_leaves(b.node_views(), fs.drop_last()) =~= Seq::<int>::empty());
            assert(elems_leaves(b.node_views(), b.top@.children, 0) =~= Seq::<int>::empty());
            assert(frames_leaves(b.node_views(), fs) =~= Seq::<int>::empty());
        }
        b
    }

    /// The number of tokens added so far.
    pub fn token_count(&self) -> (n: usize)
        ensures
            n == self.token_views().len(),
    {
        self.tokens.len()
    }

    /// Adds a token to the node under construction.
    pub fn token(&mut self, kind: SyntaxKind, text: String)
        requires
            old(self).wf(),
        ensures
            final(self).wf(),
            final(self).depth() == old(self).depth(),
            final(self).frame_views() == old(self).frame_views(),
            final(self).top_view().kind == old(self).top_view().kind,
            final(self).top_view().children == old(self).top_view().children.push(
                Elem::Token(old(self).token_views().len() as usize),
            ),
            final(self).token_views() == old(self).token_views().push(TokenDataView { kind, text: text@ }),
            final(self).node_views() == old(self).node_views(),
    {
        let ghost old_self = *self;
        let t = self.tokens.len();
        self.tokens.push(TokenData { kind, text });
        self.top.children.push(Elem::Token(t));
        proof {
            let nodes = self.node_views();
            assert(nodes =~= old_self.node_views());
            assert(self.frame_views() =~= old_self.frame_views());
            assert(self.token_views() =~= old_self.token_views().push(TokenDataView { kind, text: text@ }));
            let nt = self.tokens@.len() as int;
            assert forall|j: int| 0 <= j < nodes.len() implies refs_valid(#[trigger] nodes[j].children, j, nt) by {
                assert(refs_valid(old_self.node_views()[j].children, j, nt - 1));
            }
            assert forall|i: int| 0 <= i < self.frames@.len() implies refs_valid(
                (#[trigger] self.frames@[i])@.children,
                nodes.len() as int,
                nt,
            ) by {
                assert(refs_valid(old_self.frames@[i]@.children, nodes.len() as int, nt - 1));
            }
            assert(refs_valid(self.top@.children, nodes.len() as int, nt)) by {
                assert forall|i: int| 0 <= i < self.top@.children.len() implies match #[trigger] self.top@.children[i] {
                    Elem::Node(j) => j < nodes.len() as int,
                    Elem::Token(u) => u < nt,
                } by {
                    if i < old_self.top@.children.len() {
                        assert(self.top@.children[i] == old_self.top@.children[i]);
                    }
                }
            }
            let ofs = old_self.frame_views().push(old_self.top@);
            let nfs = self.frame_views().push(self.top@);
            assert(nfs.drop_last() =~= ofs.drop_last());
            assert(self.top@.children.drop_last() =~= old_self.top@.children);
            assert(elems_leaves(nodes, self.top@.children, nodes.len() as int) == elems_leaves(
                nodes,
                old_self.top@.children,
                nodes.len() as int,
            ).push(t as int));
            assert(upto(nt) =~= upto(nt - 1).push(t as int));
            let base = frames_leaves(nodes, ofs.drop_last());
            assert(base + elems_leaves(nodes, old_self.top@.children, nodes.len() as int).push(t as int)
                =~= (base + elems_leaves(nodes, old_self.top@.children, nodes.len() as int)).push(t as int));
        }
    }

    /// Starts a new node of the given kind as the node under construction.
    pub fn start_node(&mut self, kind: SyntaxKind)
        requires
            old(self).wf(),
        ensures
            final(self).wf(),
            final(self).depth() == old(self).depth() + 1,
            final(self).frame_views() == old(self).frame_views().push(old(self).top_view()),
            final(self).top_view() == (NodeView { kind, children: Seq::empty() }),
            final(self).token_views() == old(self).token_views(),
            final(self).node_views() == old(self).node_views(),
    {
        let ghost old_self = *self;
        let mut prev = Frame { kind, children: Vec::new() };
        std::mem::swap(&mut self.top, &mut prev);
        self.frames.push(prev);
        proof {
            let nodes = self.node_views();
            assert(nodes =~= old_self.node_views());
            assert(self.token_views() =~= old_self.token_views());
            assert(self.frame_views() =~= old_self.frame_views().push(old_self.top@));
            assert(self.top@.children =~= Seq::<Elem>::empty());
            let nt = self.tokens@.len() as int;
            assert forall|i: int| 0 <= i < self.frames@.len() implies refs_valid(
                (#[trigger] self.frames@[i])@.children,
                nodes.len() as int,
                nt,
            ) by {
                if i < old_self.frames@.len() {
                    assert(self.frames@[i] == old_self.frames@[i]);
                }
            }
            let nfs = self.frame_views().push(self.top@);
            assert(nfs.drop_last() =~= old_self.frame_views().push(old_self.top@));
            assert(elems_leaves(nodes, self.top@.children, nodes.len() as int) =~= Seq::<int>::empty());
            assert(frames_leaves(nodes, nfs) =~= frames_leaves(nodes, nfs.drop_last()));
        }
    }

    /// Finishes the node under construction and adds it to its parent.
    pub fn finish_node(&mut self)
        requires
            old(self).wf(),
            old(self).depth() > 0,
        ensures
            final(self).wf(),
            final(self).depth() == old(self).depth() - 1,
            final(self).frame_views() == old(self).frame_views().drop_last(),
            final(self).top_view().kind == old(self).frame_views().last().kind,
            final(self).top_view().children == old(self).frame_views().last().children.push(
                Elem::Node(old(self).node_views().len() as usize),
            ),
            final(self).token_views() == old(self).token_views(),
            final(self).node_views() == old(self).node_views().push(old(self).top_view()),
    {
        let ghost old_self = *self;
        let k = self.nodes.len();
        let parent = self.frames.pop().unwrap();
        let mut finished = parent;
        std::mem::swap(&mut self.top, &mut finished);
        self.nodes.push(NodeData { kind: finished.kind, children: finished.children });
        self.top.children.push(Elem::Node(k));
        proof {
            let onodes = old_self.node_views();
            let nodes = self.node_views();
            let nt = self.tokens@.len() as int;
            assert(nodes =~= onodes.push(old_self.top@));
            assert(self.token_views() =~= old_self.token_views());
            assert(self.frame_views() =~= old_self.frame_views().drop_last());
            let pview = old_self.frame_views().last();
            assert(pview == old_self.frames@[old_self.frames@.len() - 1]@);
            assert(self.top@.children =~= pview.children.push(Elem::Node(k)));
            // Well-formedness of the arena.
            assert forall|j: int| 0 <= j < nodes.len() implies refs_valid(#[trigger] nodes[j].children, j, nt) by {
                if j < onodes.len() {
                    assert(nodes[j] == onodes[j]);
                }
            }
            assert forall|i: int| 0 <= i < self.frames@.len() implies refs_valid(
                (#[trigger] self.frames@[i])@.children,
                nodes.len() as int,
                nt,
            ) by {
                assert(self.frames@[i] == old_self.frames@[i]);
                let es = self.frames@[i]@.children;
                assert(refs_valid(es, onodes.len() as int, nt));
            }
            assert(refs_valid(self.top@.children, nodes.len() as int, nt)) by {
                assert(refs_valid(old_self.frames@[old_self.frames@.len() - 1]@.children, onodes.len() as int, nt));
                assert forall|i: int| 0 <= i < self.top@.children.len() implies match #[trigger] self.top@.children[i] {
                    Elem::Node(j) => j < nodes.len() as int,
                    Elem::Token(u) => u < nt,
                } by {
                    if i < pview.children.len() {
                        assert(self.top@.children[i] == pview.children[i]);
                    }
                }
            }
            // Leaves: the finished node's leaves move into its parent.
            let ofs = old_self.frame_views().push(old_self.top@);
            let nfs = self.frame_views().push(self.top@);
            let lower = old_self.frame_views().drop_last();
            assert(ofs.drop_last() =~= lower.push(pview));
            assert(nfs.drop_last() =~= lower);
            lemma_frames_leaves_stable(onodes, nodes, lower, nt);
            assert(refs_valid(pview.children, onodes.len() as int, nt));
            lemma_leaves_stable(onodes, nodes, pview.children, onodes.len() as int, nodes.len() as int, nt);
            lemma_leaves_stable(onodes, nodes, old_self.top@.children, onodes.len() as int, k as int, nt);
            assert(nodes[k as int] == old_self.top@);
            assert(self.top@.children.drop_last() =~= pview.children);
            let lp = elems_leaves(onodes, pview.children, onodes.len() as int);
            let lt = elems_leaves(onodes, old_self.top@.children, onodes.len() as int);
            assert(elems_leaves(nodes, self.top@.children, nodes.len() as int) == lp + lt);
            let lf = frames_leaves(onodes, lower);
            assert(frames_leaves(onodes, lower.push(pview)) == lf + lp) by {
                assert(lower.push(pview).drop_last() =~= lower);
            }
            assert((lf + lp) + lt =~= lf + (lp + lt));
        }
    }

    /// Returns a checkpoint at the current position.
    pub fn checkpoint(&self) -> (c: Checkpoint)
        ensures
            c.depth == self.depth(),
            c.children == self.top_view().children.len(),
    {
        Checkpoint { depth: self.frames.len(), children: self.top.children.len() }
    }

    /// Starts a node of the given kind that takes over every child added to the
    /// node under construction since the checkpoint.
    pub fn start_node_at(&mut self, c: Checkpoint, kind: SyntaxKind)
        requires
            old(self).wf(),
            c.depth == old(self).depth(),
            c.children <= old(self).top_view().children.len(),
        ensures
            final(self).wf(),
            final(self).depth() == old(self).depth() + 1,
            final(self).frame_views() == old(self).frame_views().push(
                NodeView {
                    kind: old(self).top_view().kind,
                    children: old(self).top_view().children.subrange(0, c.children as int),
                },
            ),
            final(self).top_view() == (NodeView {
                kind,
                children: old(self).top_view().children.subrange(
                    c.children as int,
                    old(self).top_view().children.len() as int,
                ),
            }),
            final(self).token_views() == old(self).token_views(),
            final(self).node_views() == old(self).node_views(),
    {
        let ghost old_self = *self;
        let tail = self.top.children.split_off(c.children);
        let mut prev = Frame { kind, children: tail };
        std::mem::swap(&mut self.top, &mut prev);
        self.frames.push(prev);
        proof {
            let nodes = self.node_views();
            let nt = self.tokens@.len() as int;
            let och = old_self.top@.children;
            let head = och.subrange(0, c.children as int);
            let rest = och.subrange(c.children as int, och.len() as int);
            assert(nodes =~= old_self.node_views());
            assert(self.token_views() =~= old_self.token_views());
            assert(self.frame_views() =~= old_self.frame_views().push(
                NodeView { kind: old_self.top@.kind, children: head },
            ));
            assert(self.top@.children =~= rest);
            assert(och =~= head + rest);
            assert(refs_valid(head, nodes.len() as int, nt)) by {
                assert forall|i: int| 0 <= i < head.len() implies match #[trigger] head[i] {
                    Elem::Node(j) => j < nodes.len() as int,
                    Elem::Token(u) => u < nt,
                } by {
                    assert(head[i] == och[i]);
                }
            }
            assert(refs_valid(rest, nodes.len() as int, nt)) by {
                assert forall|i: int| 0 <= i < rest.len() implies match #[trigger] rest[i] {
                    Elem::Node(j) => j < nodes.len() as int,
                    Elem::Token(u) => u < nt,
                } by {
                    assert(rest[i] == och[i + c.children]);
                }
            }
            assert forall|i: int| 0 <= i < self.frames@.len() implies refs_valid(
                (#[trigger] self.frames@[i])@.children,
                nodes.len() as int,
                nt,
            ) by {
                if i < old_self.frames@.len() {
                    assert(self.frames@[i] == old_self.frames@[i]);
                } else {
                    assert(self.frames@[i]@.children == head);
                }
            }
            lemma_leaves_append(nodes, head, rest, nodes.len() as int);
            let lower = old_self.frame_views();
            let hf = NodeView { kind: old_self.top@.kind, children: head };
            let nfs = self.frame_views().push(self.top@);
            let ofs = lower.push(old_self.top@);
            assert(nfs.drop_last() =~= lower.push(hf));
            assert(lower.push(hf).drop_last() =~= lower);
            assert(ofs.drop_last() =~= lower);
            let lf = frames_leaves(nodes, lower);
            let lh = elems_leaves(nodes, head, nodes.len() as int);
            let lr = elems_leaves(nodes, rest, nodes.len() as int);
            assert(frames_leaves(nodes, lower.push(hf)) == lf + lh);
            assert(frames_leaves(nodes, nfs) == (lf + lh) + lr);
            assert(frames_leaves(nodes, ofs) == lf + elems_leaves(nodes, och, nodes.len() as int));
            assert((lf + lh) + lr =~= lf + (lh + lr));
        }
    }

    /// Finishes building: the builder must hold exactly one finished root node
    /// and no unfinished nodes.
    pub fn finish(self) -> (t: SyntaxTree)
        requires
            self.wf(),
            self.depth() == 0,
            self.top_view().children.len() == 1,
            self.top_view().children[0] is Node,
        ensures
            t.wf(),
            t.node_views() == self.node_views(),
            t.token_views() == self.token_views(),
            t.leaves() == upto(self.token_views().len() as int),
            t.root as int == self.top_view().children[0]->Node_0,
    {
        let ghost nodes = self.node_views();
        let ghost nt = self.tokens@.len() as int;
        let root = match self.top.children[0] {
            Elem::Node(r) => r,
            Elem::Token(_) => 0,
        };
        let t = SyntaxTree { nodes: self.nodes, tokens: self.tokens, root };
        proof {
            assert(t.node_views() =~= nodes);
            let fs = self.frame_views().push(self.top@);
            assert(self.frame_views() =~= Seq::<NodeView>::empty());
            assert(fs.drop_last() =~= Seq::<NodeView>::empty());
            let ch = self.top@.children;
            assert(ch.drop_last() =~= Seq::<Elem>::empty());
            assert(refs_valid(ch, nodes.len() as int, nt));
            assert(match ch[0] {
                Elem::Node(j) => j < nodes.len() as int,
                Elem::Token(u) => u < nt,
            });
            assert(elems_leaves(nodes, ch.drop_last(), nodes.len() as int) =~= Seq::<int>::empty());
            assert(elems_leaves(nodes, ch, nodes.len() as int) =~= Seq::<int>::empty() + node_leaves(nodes, root as int));
            assert(frames_leaves(nodes, fs.drop_last()) =~= Seq::<int>::empty());
            assert(frames_leaves(nodes, fs) =~= Seq::<int>::empty() + elems_leaves(nodes, ch, nodes.len() as int));
            assert(refs_valid(nodes[root as int].children, root as int, nt));
        }
        t
    }
}

/// Leaves of frames whose references are below the old node count are not
/// changed by adding nodes.
proof fn lemma_frames_leaves_stable(nodes: Seq<NodeView>, nodes2: Seq<NodeView>, frames: Seq<NodeView>, nt: int)
    requires
        arena_wf(nodes, nt),
        nodes.len() <= nodes2.len(),
        forall|j: int| 0 <= j < nodes.len() ==> #[trigger] nodes2[j] == nodes[j],
        forall|i: int| 0 <= i < frames.len() ==> refs_valid((#[trigger] frames[i]).children, nodes.len() as int, nt),
    ensures
        frames_leaves(nodes2, frames) == frames_leaves(nodes, frames),
    decreases frames.len(),
{
    if frames.len() > 0 {
        assert forall|i: int| 0 <= i < frames.drop_last().len() implies refs_valid(
            (#[trigger] frames.drop_last()[i]).children,
            nodes.len() as int,
            nt,
        ) by {
            assert(frames.drop_last()[i] == frames[i]);
        }
        lemma_frames_leaves_stable(nodes, nodes2, frames.drop_last(), nt);
        assert(refs_valid(frames[frames.len() - 1].children, nodes.len() as int, nt));
        lemma_leaves_stable(nodes, nodes2, frames.last().children, nodes.len() as int, nodes2.len() as int, nt);
    }
}

} // verus!
