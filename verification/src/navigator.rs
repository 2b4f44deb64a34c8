//! Interactive tree-view state over a resolved derivation graph:
//! expansion, scrolling, and selection.
//!
//! The visible lines are a depth-first, expansion-filtered traversal
//! from the root, recomputed on demand; a node's children are visited
//! only while the node is expanded (the default).  Traversal depth is
//! bounded by the node count, which covers every acyclic graph and
//! keeps the walk finite even on a cyclic one.

use vstd::prelude::*;
use vstd::string::StringExecFns;
use crate::Direction;
use crate::descriptor::StoreDerivation;
use crate::graph::{child_seq, graph_children, graph_edges, graph_node_count, graph_node_ref,
    graph_nodes};

verus! {

/// One line of the tree view: a node handle and its indentation depth.
pub struct VisibleLine {
    pub node: usize,
    pub depth: usize,
}

/// Whether `node` counts as expanded: recorded state if any, expanded
/// by default.
pub open spec fn node_expanded(expanded: Seq<bool>, node: usize) -> bool {
    if (node as int) < expanded.len() {
        expanded[node as int]
    } else {
        true
    }
}

/// The lines produced for `node`: the node itself, then, while it is
/// expanded and fuel remains, the lines of each of its children one
/// level deeper.
pub open spec fn tree_lines(
    edges: Seq<(usize, usize)>,
    expanded: Seq<bool>,
    node: usize,
    depth: usize,
    fuel: nat,
) -> Seq<VisibleLine>
    decreases fuel, 0int, 0int,
{
    let line = VisibleLine { node, depth };
    if fuel > 0 && node_expanded(expanded, node) {
        seq![line] + tree_children_lines(
            edges,
            expanded,
            child_seq(edges, node as int),
            (depth + 1) as usize,
            (fuel - 1) as nat,
        )
    } else {
        seq![line]
    }
}

/// The lines of a sequence of sibling subtrees, in order.
pub open spec fn tree_children_lines(
    edges: Seq<(usize, usize)>,
    expanded: Seq<bool>,
    children: Seq<usize>,
    depth: usize,
    fuel: nat,
) -> Seq<VisibleLine>
    decreases fuel, 1int, children.len(),
{
    if children.len() == 0 {
        Seq::empty()
    } else {
        tree_lines(edges, expanded, children[0], depth, fuel) + tree_children_lines(
            edges,
            expanded,
            children.drop_first(),
            depth,
            fuel,
        )
    }
}

/// The full visible-line sequence: the traversal from the root, or
/// nothing when the root handle does not name a node (empty graph).
pub open spec fn tree_view(
    edges: Seq<(usize, usize)>,
    expanded: Seq<bool>,
    root: usize,
    n: int,
) -> Seq<VisibleLine> {
    if (root as int) < n {
        tree_lines(edges, expanded, root, 0, n as nat)
    } else {
        Seq::empty()
    }
}

proof fn lemma_children_lines_snoc(
    edges: Seq<(usize, usize)>,
    expanded: Seq<bool>,
    children: Seq<usize>,
    x: usize,
    depth: usize,
    fuel: nat,
)
    ensures
        tree_children_lines(edges, expanded, children.push(x), depth, fuel)
            == tree_children_lines(edges, expanded, children, depth, fuel) + tree_lines(
            edges,
            expanded,
            x,
            depth,
            fuel,
        ),
    decreases children.len(),
{
    if children.len() == 0 {
        assert(children.push(x)[0] == x);
        assert(children.push(x).drop_first() =~= Seq::<usize>::empty());
        assert(tree_children_lines(edges, expanded, Seq::<usize>::empty(), depth, fuel)
            =~= Seq::<VisibleLine>::empty());
        assert(tree_children_lines(edges, expanded, children.push(x), depth, fuel) =~= tree_lines(
            edges,
            expanded,
            x,
            depth,
            fuel,
        ));
        assert(tree_children_lines(edges, expanded, children, depth, fuel) + tree_lines(
            edges,
            expanded,
            x,
            depth,
            fuel,
        ) =~= tree_lines(edges, expanded, x, depth, fuel));
    } else {
        assert(children.push(x)[0] == children[0]);
        assert(children.push(x).drop_first() =~= children.drop_first().push(x));
        lemma_children_lines_snoc(edges, expanded, children.drop_first(), x, depth, fuel);
        assert(tree_children_lines(edges, expanded, children.push(x), depth, fuel) =~= (
        tree_children_lines(edges, expanded, children, depth, fuel) + tree_lines(
            edges,
            expanded,
            x,
            depth,
            fuel,
        )));
    }
}

/// Appends the traversal of the subtree at `node` to `out`.
fn push_lines(
    g: &petgraph::graph::DiGraph<StoreDerivation, ()>,
    expanded: &Vec<bool>,
    node: usize,
    depth: usize,
    fuel: usize,
    out: &mut Vec<VisibleLine>,
)
    requires
        (node as int) < graph_nodes(*g).len(),
        expanded@.len() == graph_nodes(*g).len(),
        graph_nodes(*g).len() <= usize::MAX,
        depth + fuel <= graph_nodes(*g).len(),
    ensures
        final(out)@ == old(out)@ + tree_lines(graph_edges(*g), expanded@, node, depth, fuel as nat),
        forall|k: int|
            old(out)@.len() <= k < final(out)@.len() ==> (#[trigger] final(out)@[k].node as int)
                < graph_nodes(*g).len(),
    decreases fuel,
{
    let ghost prefix = out@;
    out.push(VisibleLine { node, depth });
    if fuel > 0 && expanded[node] {
        let children = graph_children(g, node);
        let ghost base = out@;
        let mut i: usize = 0;
        while i < children.len()
            invariant
                (node as int) < graph_nodes(*g).len(),
                expanded@.len() == graph_nodes(*g).len(),
                graph_nodes(*g).len() <= usize::MAX,
                depth + fuel <= graph_nodes(*g).len(),
                fuel >= 1,
                i <= children@.len(),
                children@ == child_seq(graph_edges(*g), node as int),
                forall|k: int|
                    0 <= k < children@.len() ==> (#[trigger] children@[k] as int) < graph_nodes(
                        *g,
                    ).len(),
                out@ == base + tree_children_lines(
                    graph_edges(*g),
                    expanded@,
                    children@.take(i as int),
                    (depth + 1) as usize,
                    (fuel - 1) as nat,
                ),
                base == prefix + seq![VisibleLine { node, depth }],
                forall|k: int|
                    prefix.len() <= k < out@.len() ==> (#[trigger] out@[k].node as int)
                        < graph_nodes(*g).len(),
            decreases children@.len() - i,
        {
            push_lines(g, expanded, children[i], depth + 1, fuel - 1, out);
            proof {
                assert(children@.take(i as int + 1) =~= children@.take(i as int).push(
                    children@[i as int],
                ));
                lemma_children_lines_snoc(
                    graph_edges(*g),
                    expanded@,
                    children@.take(i as int),
                    children@[i as int],
                    (depth + 1) as usize,
                    (fuel - 1) as nat,
                );
                assert(out@ =~= base + tree_children_lines(
                    graph_edges(*g),
                    expanded@,
                    children@.take(i as int + 1),
                    (depth + 1) as usize,
                    (fuel - 1) as nat,
                ));
            }
            i = i + 1;
        }
        proof {
            assert(children@.take(children@.len() as int) =~= children@);
            assert(out@ =~= prefix + tree_lines(
                graph_edges(*g),
                expanded@,
                node,
                depth,
                fuel as nat,
            ));
        }
    } else {
        proof {
            assert(out@ =~= prefix + tree_lines(
                graph_edges(*g),
                expanded@,
                node,
                depth,
                fuel as nat,
            ));
        }
    }
}

/// The whole visible-line traversal for the given expansion state.
fn compute_visible(
    g: &petgraph::graph::DiGraph<StoreDerivation, ()>,
    expanded: &Vec<bool>,
    root: usize,
) -> (out: Vec<VisibleLine>)
    requires
        expanded@.len() == graph_nodes(*g).len(),
    ensures
        out@ == tree_view(graph_edges(*g), expanded@, root, graph_nodes(*g).len() as int),
        forall|k: int|
            0 <= k < out@.len() ==> (#[trigger] out@[k].node as int) < graph_nodes(*g).len(),
{
    let n = graph_node_count(g);
    let mut out: Vec<VisibleLine> = Vec::new();
    if root < n {
        push_lines(g, expanded, root, 0, n, &mut out);
        proof {
            assert(out@ =~= Seq::<VisibleLine>::empty() + out@);
        }
    }
    out
}

/// The first index in `v` at or after `k` whose line shows node `s`,
/// or the length of `v` if there is none.
pub open spec fn first_node_pos(v: Seq<VisibleLine>, s: usize, k: int) -> int
    decreases v.len() - k,
{
    if k < 0 || k >= v.len() {
        v.len() as int
    } else if v[k].node == s {
        k
    } else {
        first_node_pos(v, s, k + 1)
    }
}

proof fn lemma_first_node_pos(v: Seq<VisibleLine>, s: usize, k: int)
    requires
        0 <= k <= v.len(),
    ensures
        k <= first_node_pos(v, s, k) <= v.len(),
        forall|j: int| k <= j < first_node_pos(v, s, k) ==> (#[trigger] v[j]).node != s,
        first_node_pos(v, s, k) < v.len() ==> v[first_node_pos(v, s, k)].node == s,
    decreases v.len() - k,
{
    if k < v.len() && v[k].node != s {
        lemma_first_node_pos(v, s, k + 1);
    }
}

/// Where the selection moves to: the line adjacent to the currently
/// selected line in the given direction, clamped at the ends; the
/// first line when nothing (or nothing visible) is selected.
pub open spec fn target_index(v: Seq<VisibleLine>, sel: Option<usize>, direction: Direction) -> int {
    match sel {
        Option::Some(s) => {
            let i = first_node_pos(v, s, 0);
            if i < v.len() {
                match direction {
                    Direction::Up => if i > 0 {
                        i - 1
                    } else {
                        i
                    },
                    Direction::Down => if i < v.len() - 1 {
                        i + 1
                    } else {
                        i
                    },
                }
            } else {
                0
            }
        },
        Option::None => 0,
    }
}

/// The scroll value after keeping line `idx` in view: jump up when the
/// line is above the window, jump down (leaving one context line) when
/// it is at or below the window's last line, then clamp to the valid
/// scroll range.
pub open spec fn adjusted_scroll(scroll: int, idx: int, height: int, len: int) -> int {
    let max = if len > height {
        len - height
    } else {
        0
    };
    let near = if height > 0 {
        height - 1
    } else {
        0
    };
    let back = if height > 1 {
        height - 2
    } else {
        0
    };
    let moved = if idx < scroll {
        idx
    } else if idx >= scroll + near {
        if idx - back > 0 {
            idx - back
        } else {
            0
        }
    } else {
        scroll
    };
    if moved > max {
        max
    } else {
        moved
    }
}

/// Finds the first line showing node `s`, if any.
fn find_line(v: &Vec<VisibleLine>, s: usize) -> (r: Option<usize>)
    ensures
        match r {
            Some(i) => (i as int) < v@.len() && v@[i as int].node == s && forall|j: int|
                0 <= j < i ==> (#[trigger] v@[j]).node != s,
            None => forall|j: int| 0 <= j < v@.len() ==> (#[trigger] v@[j]).node != s,
        },
{
    let mut i: usize = 0;
    while i < v.len()
        invariant
            i <= v@.len(),
            forall|j: int| 0 <= j < i ==> (#[trigger] v@[j]).node != s,
        decreases v@.len() - i,
    {
        if v[i].node == s {
            return Some(i);
        }
        i = i + 1;
    }
    None
}

/// Tree-view state over a resolved derivation graph.  The graph itself
/// is read, never written.
pub struct Tree<'a> {
    pub graph: &'a petgraph::graph::DiGraph<StoreDerivation, ()>,
    pub root: usize,
    pub scroll: usize,
    pub selected: Option<usize>,
    pub expanded: Vec<bool>,
    pub visible: Vec<VisibleLine>,
    pub height: usize,
}

impl<'a> Tree<'a> {
    /// The number of nodes in the underlying graph.
    pub open spec fn node_total(self) -> int {
        graph_nodes(*self.graph).len() as int
    }

    /// The visible lines as the current expansion state determines
    /// them (what the next recomputation will produce).
    pub open spec fn lines(self) -> Seq<VisibleLine> {
        tree_view(graph_edges(*self.graph), self.expanded@, self.root, self.node_total())
    }

    /// The largest admissible scroll value for the stored lines.
    pub open spec fn max_scroll(self) -> int {
        if self.visible@.len() > self.height {
            self.visible@.len() - self.height
        } else {
            0
        }
    }

    /// Structural well-formedness: one expansion flag per node and
    /// every recorded handle names a node.
    pub open spec fn wf_core(self) -> bool {
        &&& self.expanded@.len() == self.node_total()
        &&& self.node_total() <= usize::MAX
        &&& match self.selected {
            Option::Some(s) => (s as int) < self.node_total(),
            Option::None => true,
        }
        &&& forall|k: int|
            0 <= k < self.visible@.len() ==> (#[trigger] self.visible@[k].node as int)
                < self.node_total()
    }

    /// Well-formedness: structure plus the scroll position within its
    /// bounds.
    pub open spec fn wf(self) -> bool {
        self.wf_core() && self.scroll <= self.max_scroll()
    }

    /// A fresh view of `graph` rooted at `root`: everything expanded,
    /// nothing selected, scrolled to the top.
    pub fn new(graph: &'a petgraph::graph::DiGraph<StoreDerivation, ()>, root: usize) -> (t: Tree<
        'a,
    >)
        ensures
            t.wf(),
            t.graph == graph,
            t.root == root,
            t.scroll == 0,
            t.height == 0,
            t.selected is None,
            t.expanded@ =~= Seq::new(graph_nodes(*graph).len(), |i: int| true),
            t.visible@ == t.lines(),
    {
        let n = graph_node_count(graph);
        let mut expanded: Vec<bool> = Vec::new();
        while expanded.len() < n
            invariant
                expanded@.len() <= n,
                forall|k: int| 0 <= k < expanded@.len() ==> expanded@[k],
            decreases n - expanded@.len(),
        {
            expanded.push(true);
        }
        let visible = compute_visible(graph, &expanded, root);
        proof {
            assert(expanded@ =~= Seq::new(graph_nodes(*graph).len(), |i: int| true));
        }
        Tree { graph, root, scroll: 0, selected: None, expanded, visible, height: 0 }
    }

    /// Recomputes the stored visible lines from the expansion state.
    fn refresh(&mut self)
        requires
            old(self).wf(),
        ensures
            final(self).graph == old(self).graph,
            final(self).root == old(self).root,
            final(self).scroll == old(self).scroll,
            final(self).selected == old(self).selected,
            final(self).expanded == old(self).expanded,
            final(self).height == old(self).height,
            final(self).visible@ == old(self).lines(),
            forall|k: int|
                0 <= k < final(self).visible@.len() ==> (#[trigger] final(self).visible@[k].node
                    as int) < final(self).node_total(),
    {
        self.visible = compute_visible(self.graph, &self.expanded, self.root);
    }

    /// Sets the viewport height used for scroll arithmetic, keeping the
    /// scroll position within its (possibly shrunken) bounds.
    pub fn set_height(&mut self, height: usize)
        requires
            old(self).wf(),
        ensures
            final(self).wf(),
            final(self).graph == old(self).graph,
            final(self).root == old(self).root,
            final(self).selected == old(self).selected,
            final(self).expanded == old(self).expanded,
            final(self).visible == old(self).visible,
            final(self).height == height,
            final(self).scroll as int == if old(self).scroll as int <= final(self).max_scroll() {
                old(self).scroll as int
            } else {
                final(self).max_scroll()
            },
    {
        self.height = height;
        let max_scroll = if self.visible.len() > self.height {
            self.visible.len() - self.height
        } else {
            0
        };
        if self.scroll > max_scroll {
            self.scroll = max_scroll;
        }
    }

    /// Scrolls one line up, stopping at the top.
    pub fn scroll_up(&mut self)
        requires
            old(self).wf(),
        ensures
            final(self).wf(),
            final(self).graph == old(self).graph,
            final(self).root == old(self).root,
            final(self).selected == old(self).selected,
            final(self).expanded == old(self).expanded,
            final(self).visible == old(self).visible,
            final(self).height == old(self).height,
            final(self).scroll as int == if old(self).scroll > 0 {
                old(self).scroll - 1
            } else {
                0
            },
    {
        if self.scroll > 0 {
            self.scroll = self.scroll - 1;
        }
    }

    /// Scrolls one line down, stopping once the last lines fill the
    /// viewport.
    pub fn scroll_down(&mut self)
        requires
            old(self).wf(),
        ensures
            final(self).wf(),
            final(self).graph == old(self).graph,
            final(self).root == old(self).root,
            final(self).selected == old(self).selected,
            final(self).expanded == old(self).expanded,
            final(self).visible == old(self).visible,
            final(self).height == old(self).height,
            final(self).scroll as int == if (old(self).scroll as int) < old(self).max_scroll() {
                old(self).scroll + 1
            } else {
                old(self).scroll as int
            },
    {
        let max_scroll = if self.visible.len() > self.height {
            self.visible.len() - self.height
        } else {
            0
        };
        if self.scroll < max_scroll {
            self.scroll = self.scroll + 1;
        }
    }

    /// Flips the expansion state of the selected node, if any.  The
    /// stored lines are not recomputed until the next navigation or
    /// render call.
    pub fn toggle_selected(&mut self)
        requires
            old(self).wf(),
        ensures
            final(self).wf(),
            final(self).graph == old(self).graph,
            final(self).root == old(self).root,
            final(self).scroll == old(self).scroll,
            final(self).selected == old(self).selected,
            final(self).visible == old(self).visible,
            final(self).height == old(self).height,
            final(self).expanded@ == match old(self).selected {
                Option::Some(s) => old(self).expanded@.update(
                    s as int,
                    !old(self).expanded@[s as int],
                ),
                Option::None => old(self).expanded@,
            },
    {
        match self.selected {
            Some(s) => {
                let cur = self.expanded[s];
                self.expanded.set(s, !cur);
            },
            None => {
                proof {
                    assert(final(self).expanded@ =~= old(self).expanded@);
                }
            },
        }
    }

    /// Moves scroll so that the line at `idx` stays in view.
    fn adjust_scroll(&mut self, idx: usize)
        requires
            old(self).wf_core(),
            (idx as int) < old(self).visible@.len(),
        ensures
            final(self).graph == old(self).graph,
            final(self).root == old(self).root,
            final(self).selected == old(self).selected,
            final(self).expanded == old(self).expanded,
            final(self).visible == old(self).visible,
            final(self).height == old(self).height,
            final(self).scroll as int == adjusted_scroll(
                old(self).scroll as int,
                idx as int,
                old(self).height as int,
                old(self).visible@.len() as int,
            ),
            final(self).wf(),
    {
        let max_scroll = if self.visible.len() > self.height {
            self.visible.len() - self.height
        } else {
            0
        };
        let near = if self.height > 0 {
            self.height - 1
        } else {
            0
        };
        let back = if self.height > 1 {
            self.height - 2
        } else {
            0
        };
        if idx < self.scroll {
            self.scroll = idx;
        } else if idx >= near && idx - near >= self.scroll {
            self.scroll = if idx > back {
                idx - back
            } else {
                0
            };
        }
        if self.scroll > max_scroll {
            self.scroll = max_scroll;
        }
    }

    /// Recomputes the visible lines, then moves the selection one line
    /// in `direction` (clamped at the ends), or selects the first line
    /// when nothing was selected or the old selection is no longer
    /// visible; finally keeps the new selection in view.  On an empty
    /// view nothing is selectable and the scroll returns to the top.
    pub fn move_selection(&mut self, direction: Direction)
        requires
            old(self).wf(),
        ensures
            final(self).wf(),
            final(self).graph == old(self).graph,
            final(self).root == old(self).root,
            final(self).expanded == old(self).expanded,
            final(self).height == old(self).height,
            final(self).visible@ == old(self).lines(),
            final(self).selected is None <==> final(self).visible@.len() == 0,
            final(self).visible@.len() == 0 ==> final(self).scroll == 0,
            final(self).visible@.len() > 0 ==> {
                let i = target_index(final(self).visible@, old(self).selected, direction);
                &&& final(self).selected == Some(final(self).visible@[i].node)
                &&& final(self).scroll as int == adjusted_scroll(
                    old(self).scroll as int,
                    i,
                    old(self).height as int,
                    final(self).visible@.len() as int,
                )
            },
    {
        self.refresh();
        let ghost v = self.visible@;
        let pos = match self.selected {
            Some(s) => find_line(&self.visible, s),
            None => None,
        };
        proof {
            if let Option::Some(s) = self.selected {
                lemma_first_node_pos(v, s, 0);
            }
        }
        match pos {
            Some(i) => {
                proof {
                    let s = self.selected->0;
                    let fp = first_node_pos(v, s, 0);
                    if (i as int) < fp {
                        assert(v[i as int].node != s);
                    }
                    if fp < i as int {
                        assert(v[fp].node != s);
                    }
                    assert(fp == i as int);
                }
                let new_i = match direction {
                    Direction::Up => if i > 0 {
                        i - 1
                    } else {
                        i
                    },
                    Direction::Down => if i < self.visible.len() - 1 {
                        i + 1
                    } else {
                        i
                    },
                };
                self.selected = Some(self.visible[new_i].node);
                self.adjust_scroll(new_i);
            },
            None => {
                if self.visible.len() > 0 {
                    proof {
                        if let Option::Some(s) = self.selected {
                            let fp = first_node_pos(v, s, 0);
                            if fp < v.len() {
                                assert(v[fp].node != s);
                            }
                        }
                    }
                    self.selected = Some(self.visible[0].node);
                    self.adjust_scroll(0);
                } else {
                    self.selected = None;
                    self.scroll = 0;
                }
            },
        }
    }
}

/// Two spaces of indentation per tree level.
pub open spec fn indent_text(depth: int) -> Seq<char>
    decreases depth,
{
    if depth <= 0 {
        Seq::empty()
    } else {
        indent_text(depth - 1) + seq![' ', ' ']
    }
}

/// The expand/collapse marker: distinct glyphs for an expanded parent,
/// a collapsed parent, and a leaf.
pub open spec fn icon_text(has_children: bool, expanded: bool) -> Seq<char> {
    if has_children {
        if expanded {
            seq!['\u{25bc}', ' ']
        } else {
            seq!['\u{25b6}', ' ']
        }
    } else {
        seq![' ', ' ']
    }
}

/// The full text of one rendered line: indentation, marker, and name,
/// space-separated.
pub open spec fn line_text(
    depth: int,
    has_children: bool,
    expanded: bool,
    name: Seq<char>,
) -> Seq<char> {
    indent_text(depth) + seq![' '] + icon_text(has_children, expanded) + seq![' '] + name
}

/// Renders one visible line as text plus its selection flag.
fn render_one(
    g: &petgraph::graph::DiGraph<StoreDerivation, ()>,
    expanded: &Vec<bool>,
    selected: Option<usize>,
    line: VisibleLine,
) -> (r: (String, bool))
    requires
        (line.node as int) < graph_nodes(*g).len(),
        expanded@.len() == graph_nodes(*g).len(),
    ensures
        r.0@ == line_text(
            line.depth as int,
            child_seq(graph_edges(*g), line.node as int).len() > 0,
            node_expanded(expanded@, line.node),
            graph_nodes(*g)[line.node as int].name@,
        ),
        r.1 == (selected == Some(line.node)),
{
    proof {
        reveal_strlit("  ");
        reveal_strlit(" ");
        reveal_strlit("\u{25bc} ");
        reveal_strlit("\u{25b6} ");
    }
    let mut s = String::new();
    let mut d: usize = 0;
    while d < line.depth
        invariant
            d <= line.depth,
            s@ == indent_text(d as int),
        decreases line.depth - d,
    {
        s.append("  ");
        d = d + 1;
        proof {
            reveal_strlit("  ");
            assert(s@ =~= indent_text(d as int));
        }
    }
    s.append(" ");
    let children = graph_children(g, line.node);
    let has_children = children.len() > 0;
    let is_expanded = expanded[line.node];
    if has_children {
        if is_expanded {
            s.append("\u{25bc} ");
        } else {
            s.append("\u{25b6} ");
        }
    } else {
        s.append("  ");
    }
    s.append(" ");
    let name = &graph_node_ref(g, line.node).name;
    s.append(name.as_str());
    proof {
        assert(s@ =~= line_text(
            line.depth as int,
            child_seq(graph_edges(*g), line.node as int).len() > 0,
            node_expanded(expanded@, line.node),
            graph_nodes(*g)[line.node as int].name@,
        ));
    }
    let is_selected = match selected {
        Some(ss) => ss == line.node,
        None => false,
    };
    (s, is_selected)
}

impl<'a> Tree<'a> {
    /// Recomputes the visible lines, clamps the scroll position to
    /// them, and returns one `(text, is_selected)` pair per line:
    /// indentation proportional to depth, an expand/collapse marker,
    /// and the node's name.
    pub fn render_lines(&mut self) -> (r: Vec<(String, bool)>)
        requires
            old(self).wf(),
        ensures
            final(self).wf(),
            final(self).graph == old(self).graph,
            final(self).root == old(self).root,
            final(self).selected == old(self).selected,
            final(self).expanded == old(self).expanded,
            final(self).height == old(self).height,
            final(self).visible@ == old(self).lines(),
            final(self).scroll as int == if old(self).scroll as int <= final(self).max_scroll() {
                old(self).scroll as int
            } else {
                final(self).max_scroll()
            },
            r@.len() == final(self).visible@.len(),
            forall|k: int|
                0 <= k < r@.len() ==> (#[trigger] r@[k]).0@ == line_text(
                    final(self).visible@[k].depth as int,
                    child_seq(graph_edges(*old(self).graph), final(self).visible@[k].node as int).len()
                        > 0,
                    node_expanded(old(self).expanded@, final(self).visible@[k].node),
                    graph_nodes(*old(self).graph)[final(self).visible@[k].node as int].name@,
                ) && r@[k].1 == (old(self).selected == Some(final(self).visible@[k].node)),
    {
        self.refresh();
        let max_scroll = if self.visible.len() > self.height {
            self.visible.len() - self.height
        } else {
            0
        };
        if self.scroll > max_scroll {
            self.scroll = max_scroll;
        }
        let ghost snap = *self;
        let mut r: Vec<(String, bool)> = Vec::new();
        let mut k: usize = 0;
        while k < self.visible.len()
            invariant
                *self == snap,
                snap.wf_core(),
                k <= self.visible@.len(),
                r@.len() == k,
                forall|j: int|
                    0 <= j < k ==> (#[trigger] r@[j]).0@ == line_text(
                        self.visible@[j].depth as int,
                        child_seq(graph_edges(*self.graph), self.visible@[j].node as int).len()
                            > 0,
                        node_expanded(self.expanded@, self.visible@[j].node),
                        graph_nodes(*self.graph)[self.visible@[j].node as int].name@,
                    ) && r@[j].1 == (self.selected == Some(self.visible@[j].node)),
            decreases self.visible@.len() - k,
        {
            let line = VisibleLine { node: self.visible[k].node, depth: self.visible[k].depth };
            let one = render_one(self.graph, &self.expanded, self.selected, line);
            r.push(one);
            k = k + 1;
        }
        r
    }
}

} // verus!
