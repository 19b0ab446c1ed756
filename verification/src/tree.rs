//! The directory tree shown in the left panel: which nodes it holds, in
//! which order, and how each is drawn.
use vstd::prelude::*;
use crate::nav::hidden_name;
use crate::order::{keys_of, listing_order, order_by_keys, SortKey};
use crate::paths::{file_name, path_file_name};
use crate::text::{chars_of, copy_chars, lowercase, push_all, string_of, to_lowercase};

verus! {

/// How deep the tree goes below its root.
pub const TREE_MAX_DEPTH: usize = 2;

/// The most nodes the tree holds.
pub const TREE_MAX_NODES: usize = 200;

/// The most entries read from a single directory, so that directories with
/// millions of children cannot cause pathological allocation.
pub const MAX_ENTRIES_PER_DIR: usize = 1000;

/// One line of the tree.
#[derive(Debug)]
pub struct TreeNode {
    pub name: String,
    pub depth: usize,
    pub is_dir: bool,
    pub is_last: bool,
    /// For each ancestor depth, was that ancestor the last child of its parent?
    pub ancestors_last: Vec<bool>,
}

/// An entry of a directory as it was read, in the order the system gave
/// it, with the entries of its own directory when it is one that was read.
#[derive(Debug)]
pub struct RawEntry {
    pub name: String,
    pub is_dir: bool,
    pub children: Vec<RawEntry>,
}

/// A node as values: name, depth, directory flag, last-child flag and the
/// last-child flags of its ancestors.
pub type NodeSpec = (Seq<char>, usize, bool, bool, Seq<bool>);

/// The values of a node.
pub open spec fn node_view(n: TreeNode) -> NodeSpec {
    (n.name@, n.depth, n.is_dir, n.is_last, n.ancestors_last@)
}

/// The values of each node.
pub open spec fn node_views(v: Seq<TreeNode>) -> Seq<NodeSpec> {
    v.map_values(|n: TreeNode| node_view(n))
}

/// The entries of `s` that are shown: all of them, or those whose name
/// does not start with a dot.
pub open spec fn kept(s: Seq<RawEntry>, show_hidden: bool) -> Seq<RawEntry>
    decreases s.len(),
{
    if s.len() == 0 {
        seq![]
    } else {
        let k = kept(s.drop_last(), show_hidden);
        if show_hidden || !hidden_name(s.last().name@) {
            k.push(s.last())
        } else {
            k
        }
    }
}

/// The shown entries of a directory, at most `MAX_ENTRIES_PER_DIR` of them.
pub open spec fn shown(s: Seq<RawEntry>, show_hidden: bool) -> Seq<RawEntry> {
    let k = kept(s, show_hidden);
    if k.len() > MAX_ENTRIES_PER_DIR {
        k.take(MAX_ENTRIES_PER_DIR as int)
    } else {
        k
    }
}

/// The sort keys of entries: directory flag and lower-cased name.
pub open spec fn raw_keys(s: Seq<RawEntry>) -> Seq<SortKey> {
    Seq::new(s.len(), |i: int| (s[i].is_dir, lowercase(s[i].name@)))
}

/// The shown entries of a directory in listing order.
pub open spec fn listed(s: Seq<RawEntry>, show_hidden: bool) -> Seq<RawEntry> {
    let e = shown(s, show_hidden);
    listing_order(raw_keys(e)).map_values(|k: usize| e[k as int])
}

/// The nodes for the entries `entries` of a directory at `depth`, when
/// `count` nodes exist already: none below `TREE_MAX_DEPTH` or once the
/// tree is full, else each listed entry followed by its own subtree.
pub open spec fn walk_nodes(
    entries: Seq<RawEntry>,
    depth: nat,
    ancestors: Seq<bool>,
    show_hidden: bool,
    count: nat,
) -> Seq<NodeSpec>
    decreases (3 - depth) as nat, 1nat, 0nat,
{
    if depth > TREE_MAX_DEPTH || count >= TREE_MAX_NODES {
        seq![]
    } else {
        walk_from(listed(entries, show_hidden), 0, depth, ancestors, show_hidden, count)
    }
}

/// The nodes for the listed entries `es` from the `i`-th on (see
/// `walk_nodes`).
pub open spec fn walk_from(
    es: Seq<RawEntry>,
    i: nat,
    depth: nat,
    ancestors: Seq<bool>,
    show_hidden: bool,
    count: nat,
) -> Seq<NodeSpec>
    decreases (3 - depth) as nat, 0nat, es.len() - i,
{
    if i >= es.len() || count >= TREE_MAX_NODES || depth > TREE_MAX_DEPTH {
        seq![]
    } else {
        let e = es[i as int];
        let is_last = i + 1 == es.len();
        let node: NodeSpec = (e.name@, depth as usize, e.is_dir, is_last, ancestors);
        let sub = if e.is_dir {
            walk_nodes(e.children@, depth + 1, ancestors.push(is_last), show_hidden, count + 1)
        } else {
            seq![]
        };
        seq![node] + sub + walk_from(es, i + 1, depth, ancestors, show_hidden, count + 1 + sub.len())
    }
}

/// The name shown for the root: the last component of its path, or the
/// whole path when it has none.
pub open spec fn root_name(root: Seq<char>) -> Seq<char> {
    match path_file_name(root) {
        Some(n) => n,
        None => root,
    }
}

/// The nodes of the tree rooted at `root` whose entries are `listing`.
pub open spec fn tree_nodes(root: Seq<char>, listing: Seq<RawEntry>, show_hidden: bool) -> Seq<NodeSpec> {
    seq![(root_name(root), 0usize, true, true, Seq::<bool>::empty())] + walk_nodes(
        listing,
        1,
        seq![],
        show_hidden,
        1,
    )
}

fn copy_bools(v: &Vec<bool>) -> (r: Vec<bool>)
    ensures
        r@ == v@,
{
    let mut out: Vec<bool> = Vec::new();
    let mut i: usize = 0;
    while i < v.len()
        invariant
            i <= v@.len(),
            out@ == v@.take(i as int),
        decreases v@.len() - i,
    {
        out.push(v[i]);
        i = i + 1;
        assert(out@ =~= v@.take(i as int));
    }
    assert(v@.take(v@.len() as int) =~= v@);
    out
}

/// The positions in `entries` of its listed entries, in listing order.
fn listed_positions(entries: &Vec<RawEntry>, show_hidden: bool) -> (r: Vec<usize>)
    ensures
        r@.len() == listed(entries@, show_hidden).len(),
        forall|k: int| 0 <= k < r@.len() ==> #[trigger] r@[k] < entries@.len() && entries@[r@[k] as int]
            == listed(entries@, show_hidden)[k],
{
    let mut keep: Vec<usize> = Vec::new();
    let mut i: usize = 0;
    while i < entries.len()
        invariant
            i <= entries@.len(),
            keep@.len() == kept(entries@.take(i as int), show_hidden).len(),
            forall|k: int| 0 <= k < keep@.len() ==> #[trigger] keep@[k] < i && entries@[keep@[k] as int]
                == kept(entries@.take(i as int), show_hidden)[k],
        decreases entries@.len() - i,
    {
        assert(entries@.take(i + 1).drop_last() =~= entries@.take(i as int));
        let name = chars_of(entries[i].name.as_str());
        if show_hidden || !(name.len() > 0 && name[0] == '.') {
            keep.push(i);
        }
        i = i + 1;
    }
    assert(entries@.take(entries@.len() as int) =~= entries@);
    if keep.len() > MAX_ENTRIES_PER_DIR {
        keep.truncate(MAX_ENTRIES_PER_DIR);
    }
    let ghost e = shown(entries@, show_hidden);
    let mut dirs: Vec<bool> = Vec::new();
    let mut names: Vec<Vec<char>> = Vec::new();
    let mut j: usize = 0;
    while j < keep.len()
        invariant
            j <= keep@.len(),
            e == shown(entries@, show_hidden),
            keep@.len() == e.len(),
            forall|k: int| 0 <= k < keep@.len() ==> #[trigger] keep@[k] < entries@.len() && entries@[keep@[k] as int]
                == e[k],
            dirs@.len() == j,
            names@.len() == j,
            forall|k: int| 0 <= k < j ==> #[trigger] dirs@[k] == e[k].is_dir,
            forall|k: int| 0 <= k < j ==> #[trigger] names@[k]@ == lowercase(e[k].name@),
        decreases keep@.len() - j,
    {
        let x = &entries[keep[j]];
        dirs.push(x.is_dir);
        let low = to_lowercase(x.name.as_str());
        names.push(chars_of(low.as_str()));
        j = j + 1;
    }
    assert(keys_of(dirs@, names@) =~= raw_keys(e));
    let ord = order_by_keys(&dirs, &names);
    proof { crate::order::lemma_listing_order_sorts(raw_keys(e)); }
    let mut out: Vec<usize> = Vec::new();
    let mut k: usize = 0;
    while k < ord.len()
        invariant
            k <= ord@.len(),
            e == shown(entries@, show_hidden),
            keep@.len() == e.len(),
            forall|q: int| 0 <= q < keep@.len() ==> #[trigger] keep@[q] < entries@.len() && entries@[keep@[q] as int]
                == e[q],
            ord@ == listing_order(raw_keys(e)),
            crate::order::sorts(ord@, raw_keys(e)),
            out@.len() == k,
            forall|q: int| 0 <= q < k ==> #[trigger] out@[q] < entries@.len() && entries@[out@[q] as int]
                == e[ord@[q] as int],
        decreases ord@.len() - k,
    {
        out.push(keep[ord[k]]);
        k = k + 1;
    }
    out
}

/// Appends to `nodes` the nodes for the entries of a directory at `depth`
/// (see `walk_nodes`).
fn walk(
    entries: &Vec<RawEntry>,
    depth: usize,
    ancestors: &Vec<bool>,
    show_hidden: bool,
    nodes: &mut Vec<TreeNode>,
)
    requires
        depth <= 3,
    ensures
        node_views(final(nodes)@) == node_views(old(nodes)@) + walk_nodes(
            entries@,
            depth as nat,
            ancestors@,
            show_hidden,
            old(nodes)@.len(),
        ),
    decreases 3 - depth,
{
    let ghost start = node_views(nodes@);
    let ghost count0 = nodes@.len();
    if depth > TREE_MAX_DEPTH || nodes.len() >= TREE_MAX_NODES {
        assert(node_views(nodes@) =~= start + Seq::<NodeSpec>::empty());
        return;
    }
    let es = listed_positions(entries, show_hidden);
    let ghost les = listed(entries@, show_hidden);
    let total = es.len();
    let mut k: usize = 0;
    assert(node_views(nodes@) + walk_from(les, 0, depth as nat, ancestors@, show_hidden, nodes@.len()) =~= start + walk_nodes(entries@, depth as nat, ancestors@, show_hidden, count0));
    while k < total
        invariant
            start == node_views(old(nodes)@),
            count0 == old(nodes)@.len(),
            depth <= TREE_MAX_DEPTH,
            k <= total,
            total == es@.len(),
            es@.len() == les.len(),
            les == listed(entries@, show_hidden),
            forall|q: int| 0 <= q < es@.len() ==> #[trigger] es@[q] < entries@.len() && entries@[es@[q] as int]
                == les[q],
            node_views(nodes@) + walk_from(les, k as nat, depth as nat, ancestors@, show_hidden, nodes@.len())
                == start + walk_nodes(entries@, depth as nat, ancestors@, show_hidden, count0),
        decreases total - k,
    {
        if nodes.len() >= TREE_MAX_NODES {
            assert(walk_from(les, k as nat, depth as nat, ancestors@, show_hidden, nodes@.len()) == Seq::<NodeSpec>::empty());
            assert(node_views(nodes@) =~= node_views(nodes@) + Seq::<NodeSpec>::empty());
            return;
        }
        let e = &entries[es[k]];
        let is_last = k + 1 == total;
        let ghost before = node_views(nodes@);
        let ghost count = nodes@.len();
        nodes.push(
            TreeNode {
                name: e.name.clone(),
                depth,
                is_dir: e.is_dir,
                is_last,
                ancestors_last: copy_bools(ancestors),
            },
        );
        assert(node_views(nodes@) =~= before + seq![(e.name@, depth, e.is_dir, is_last, ancestors@)]);
        if e.is_dir {
            let mut next = copy_bools(ancestors);
            next.push(is_last);
            walk(&e.children, depth + 1, &next, show_hidden, nodes);
        } else {
            assert(node_views(nodes@) =~= node_views(nodes@) + Seq::<NodeSpec>::empty());
        }
        k = k + 1;
        assert(node_views(nodes@) + walk_from(les, k as nat, depth as nat, ancestors@, show_hidden, nodes@.len()) =~= before + walk_from(les, (k - 1) as nat, depth as nat, ancestors@, show_hidden, count));
    }
    assert(node_views(nodes@) =~= node_views(nodes@) + walk_from(les, k as nat, depth as nat, ancestors@, show_hidden, nodes@.len()));
}

/// Build a flat, render-ordered list of nodes representing the directory
/// tree rooted at `root`, whose entries are `listing`. Truncates at
/// `TREE_MAX_DEPTH` levels and `TREE_MAX_NODES` total nodes. When
/// `show_hidden` is false, dot-files are skipped.
pub fn build(root: &str, listing: &Vec<RawEntry>, show_hidden: bool) -> (r: Vec<TreeNode>)
    ensures
        node_views(r@) == tree_nodes(root@, listing@, show_hidden),
{
    let name = match file_name(root) {
        Some(n) => n,
        None => string_of(chars_of(root).as_slice()),
    };
    let mut nodes: Vec<TreeNode> = Vec::new();
    nodes.push(TreeNode { name, depth: 0, is_dir: true, is_last: true, ancestors_last: Vec::new() });
    assert(node_views(nodes@) =~= seq![(root_name(root@), 0usize, true, true, Seq::<bool>::empty())]);
    let empty: Vec<bool> = Vec::new();
    walk(listing, 1, &empty, show_hidden, &mut nodes);
    nodes
}

/// The tree never holds more than `TREE_MAX_NODES` nodes, and no node lies
/// deeper than `TREE_MAX_DEPTH`.
pub proof fn lemma_tree_is_bounded(root: Seq<char>, listing: Seq<RawEntry>, show_hidden: bool)
    ensures
        tree_nodes(root, listing, show_hidden).len() <= TREE_MAX_NODES,
        forall|k: int|
            0 <= k < tree_nodes(root, listing, show_hidden).len() ==> #[trigger] tree_nodes(
                root,
                listing,
                show_hidden,
            )[k].1 <= TREE_MAX_DEPTH,
{
    lemma_walk_nodes_bounded(listing, 1, seq![], show_hidden, 1);
    let t = tree_nodes(root, listing, show_hidden);
    let w = walk_nodes(listing, 1, seq![], show_hidden, 1);
    assert forall|k: int| 0 <= k < t.len() implies #[trigger] t[k].1 <= TREE_MAX_DEPTH by {
        if k > 0 {
            assert(t[k] == w[k - 1]);
        }
    }
}

/// Where a node is followed by a node one level deeper (its first child),
/// the child's ancestor flags are the parent's followed by whether the
/// parent is the last child; and a node at depth `d` carries `d - 1` flags.
pub open spec fn guides_consistent(s: Seq<NodeSpec>) -> bool {
    &&& forall|k: int|
        0 <= k < s.len() - 1 && s[k].1 >= 1 && #[trigger] s[k + 1].1 == s[k].1 + 1 ==> s[k + 1].4
            == s[k].4.push(s[k].3)
    &&& forall|k: int| 0 <= k < s.len() && (#[trigger] s[k]).1 >= 1 ==> s[k].4.len() + 1 == s[k].1
}

proof fn lemma_guides_concat(a: Seq<NodeSpec>, b: Seq<NodeSpec>)
    requires
        guides_consistent(a),
        guides_consistent(b),
        a.len() > 0 && b.len() > 0 && a.last().1 >= 1 && b[0].1 == a.last().1 + 1 ==> b[0].4
            == a.last().4.push(a.last().3),
    ensures
        guides_consistent(a + b),
{
    let c = a + b;
    assert forall|k: int|
        0 <= k < c.len() - 1 && c[k].1 >= 1 && #[trigger] c[k + 1].1 == c[k].1 + 1 implies c[k + 1].4
        == c[k].4.push(c[k].3) by {
        if k + 1 < a.len() {
            assert(c[k] == a[k] && c[k + 1] == a[k + 1]);
            assert(a[k + 1].1 == a[k].1 + 1);
        } else if k + 1 == a.len() {
            assert(c[k] == a.last() && c[k + 1] == b[0]);
        } else {
            let j = k - a.len();
            assert(c[k] == b[j] && c[k + 1] == b[j + 1]);
            assert(b[j + 1].1 == b[j].1 + 1);
        }
    }
    assert forall|k: int| 0 <= k < c.len() && (#[trigger] c[k]).1 >= 1 implies c[k].4.len() + 1 == c[k].1 by {
        if k < a.len() {
            assert(c[k] == a[k]);
        } else {
            assert(c[k] == b[k - a.len()]);
        }
    }
}

proof fn lemma_walk_nodes_guides(
    entries: Seq<RawEntry>,
    depth: nat,
    ancestors: Seq<bool>,
    show_hidden: bool,
    count: nat,
)
    requires
        depth >= 1,
        ancestors.len() + 1 == depth,
    ensures
        guides_consistent(walk_nodes(entries, depth, ancestors, show_hidden, count)),
        forall|k: int|
            0 <= k < walk_nodes(entries, depth, ancestors, show_hidden, count).len() ==> (
            #[trigger] walk_nodes(entries, depth, ancestors, show_hidden, count)[k]).1 >= depth,
        walk_nodes(entries, depth, ancestors, show_hidden, count).len() > 0 ==> walk_nodes(
            entries,
            depth,
            ancestors,
            show_hidden,
            count,
        )[0].1 == depth && walk_nodes(entries, depth, ancestors, show_hidden, count)[0].4 == ancestors,
    decreases (3 - depth) as nat, 1nat, 0nat,
{
    if !(depth > TREE_MAX_DEPTH || count >= TREE_MAX_NODES) {
        lemma_walk_from_guides(listed(entries, show_hidden), 0, depth, ancestors, show_hidden, count);
    }
}

proof fn lemma_walk_from_guides(
    es: Seq<RawEntry>,
    i: nat,
    depth: nat,
    ancestors: Seq<bool>,
    show_hidden: bool,
    count: nat,
)
    requires
        depth >= 1,
        ancestors.len() + 1 == depth,
    ensures
        guides_consistent(walk_from(es, i, depth, ancestors, show_hidden, count)),
        forall|k: int|
            0 <= k < walk_from(es, i, depth, ancestors, show_hidden, count).len() ==> (
            #[trigger] walk_from(es, i, depth, ancestors, show_hidden, count)[k]).1 >= depth,
        walk_from(es, i, depth, ancestors, show_hidden, count).len() > 0 ==> walk_from(
            es,
            i,
            depth,
            ancestors,
            show_hidden,
            count,
        )[0].1 == depth && walk_from(es, i, depth, ancestors, show_hidden, count)[0].4 == ancestors,
    decreases (3 - depth) as nat, 0nat, es.len() - i,
{
    if !(i >= es.len() || count >= TREE_MAX_NODES || depth > TREE_MAX_DEPTH) {
        let e = es[i as int];
        let is_last = i + 1 == es.len();
        let node: NodeSpec = (e.name@, depth as usize, e.is_dir, is_last, ancestors);
        let sub = if e.is_dir {
            walk_nodes(e.children@, depth + 1, ancestors.push(is_last), show_hidden, count + 1)
        } else {
            seq![]
        };
        if e.is_dir {
            lemma_walk_nodes_guides(e.children@, depth + 1, ancestors.push(is_last), show_hidden, count + 1);
        }
        lemma_walk_from_guides(es, i + 1, depth, ancestors, show_hidden, count + 1 + sub.len());
        let rest = walk_from(es, i + 1, depth, ancestors, show_hidden, count + 1 + sub.len());
        let all = walk_from(es, i, depth, ancestors, show_hidden, count);
        assert(all == seq![node] + sub + rest);
        let head = seq![node];
        assert(guides_consistent(head));
        lemma_guides_concat(head, sub);
        let hs = head + sub;
        assert forall|k: int| 0 <= k < hs.len() implies (#[trigger] hs[k]).1 >= depth by {
            if k > 0 {
                assert(hs[k] == sub[k - 1]);
            }
        }
        lemma_guides_concat(hs, rest);
        assert forall|k: int| 0 <= k < all.len() implies (#[trigger] all[k]).1 >= depth by {
            if k < hs.len() {
                assert(all[k] == hs[k]);
            } else {
                assert(all[k] == rest[k - hs.len()]);
            }
        }
        assert(all[0] == node);
    }
}

/// The guide lines of the tree are drawn from the nodes above: the first
/// child of a node below the root carries its parent's ancestor flags and
/// then whether the parent is the last of its siblings (so a last child's
/// children get blank space, any other's a vertical line), and every node
/// below the root has one flag per level between it and the root.
pub proof fn lemma_tree_guides(root: Seq<char>, listing: Seq<RawEntry>, show_hidden: bool)
    ensures
        guides_consistent(tree_nodes(root, listing, show_hidden)),
{
    lemma_walk_nodes_guides(listing, 1, seq![], show_hidden, 1);
    let w = walk_nodes(listing, 1, seq![], show_hidden, 1);
    let head = seq![(root_name(root), 0usize, true, true, Seq::<bool>::empty())];
    assert(guides_consistent(head));
    lemma_guides_concat(head, w);
}

proof fn lemma_kept_not_hidden(s: Seq<RawEntry>)
    ensures
        forall|k: int| 0 <= k < kept(s, false).len() ==> !hidden_name((#[trigger] kept(s, false)[k]).name@),
    decreases s.len(),
{
    if s.len() > 0 {
        lemma_kept_not_hidden(s.drop_last());
        let prev = kept(s.drop_last(), false);
        assert forall|k: int| 0 <= k < kept(s, false).len() implies !hidden_name(
            (#[trigger] kept(s, false)[k]).name@,
        ) by {
            if k < prev.len() {
                assert(kept(s, false)[k] == prev[k]);
            }
        }
    }
}

proof fn lemma_listed_not_hidden(s: Seq<RawEntry>)
    ensures
        forall|k: int| 0 <= k < listed(s, false).len() ==> !hidden_name((#[trigger] listed(s, false)[k]).name@),
{
    lemma_kept_not_hidden(s);
    let e = shown(s, false);
    assert forall|k: int| 0 <= k < e.len() implies !hidden_name((#[trigger] e[k]).name@) by {
        assert(e[k] == kept(s, false)[k]);
    }
    let keys = raw_keys(e);
    if keys.len() <= usize::MAX {
        crate::order::lemma_listing_order_sorts(keys);
    }
    let ord = listing_order(keys);
    assert forall|k: int| 0 <= k < listed(s, false).len() implies !hidden_name((#[trigger] listed(s, false)[k]).name@) by {
        assert(listed(s, false)[k] == e[ord[k] as int]);
    }
}

proof fn lemma_walk_nodes_not_hidden(entries: Seq<RawEntry>, depth: nat, ancestors: Seq<bool>, count: nat)
    ensures
        forall|k: int|
            0 <= k < walk_nodes(entries, depth, ancestors, false, count).len() ==> !hidden_name(
                (#[trigger] walk_nodes(entries, depth, ancestors, false, count)[k]).0,
            ),
    decreases (3 - depth) as nat, 1nat, 0nat,
{
    if !(depth > TREE_MAX_DEPTH || count >= TREE_MAX_NODES) {
        lemma_listed_not_hidden(entries);
        lemma_walk_from_not_hidden(listed(entries, false), 0, depth, ancestors, count);
        assert(walk_nodes(entries, depth, ancestors, false, count) == walk_from(
            listed(entries, false),
            0,
            depth,
            ancestors,
            false,
            count,
        ));
    }
}

proof fn lemma_walk_from_not_hidden(es: Seq<RawEntry>, i: nat, depth: nat, ancestors: Seq<bool>, count: nat)
    requires
        forall|k: int| 0 <= k < es.len() ==> !hidden_name((#[trigger] es[k]).name@),
    ensures
        forall|k: int|
            0 <= k < walk_from(es, i, depth, ancestors, false, count).len() ==> !hidden_name(
                (#[trigger] walk_from(es, i, depth, ancestors, false, count)[k]).0,
            ),
    decreases (3 - depth) as nat, 0nat, es.len() - i,
{
    if !(i >= es.len() || count >= TREE_MAX_NODES || depth > TREE_MAX_DEPTH) {
        let e = es[i as int];
        let is_last = i + 1 == es.len();
        let node: NodeSpec = (e.name@, depth as usize, e.is_dir, is_last, ancestors);
        let sub = if e.is_dir {
            walk_nodes(e.children@, depth + 1, ancestors.push(is_last), false, count + 1)
        } else {
            seq![]
        };
        if e.is_dir {
            lemma_walk_nodes_not_hidden(e.children@, depth + 1, ancestors.push(is_last), count + 1);
        }
        lemma_walk_from_not_hidden(es, i + 1, depth, ancestors, count + 1 + sub.len());
        let rest = walk_from(es, i + 1, depth, ancestors, false, count + 1 + sub.len());
        let all = walk_from(es, i, depth, ancestors, false, count);
        assert(all == seq![node] + sub + rest);
        assert forall|k: int| 0 <= k < all.len() implies !hidden_name((#[trigger] all[k]).0) by {
            if k == 0 {
            } else if k < 1 + sub.len() {
                assert(all[k] == sub[k - 1]);
            } else {
                assert(all[k] == rest[k - 1 - sub.len()]);
            }
        }
    }
}

/// With hidden entries filtered out, no node below the root has a name
/// starting with a dot.
pub proof fn lemma_tree_hides_dot_files(root: Seq<char>, listing: Seq<RawEntry>)
    ensures
        forall|k: int|
            1 <= k < tree_nodes(root, listing, false).len() ==> !hidden_name(
                (#[trigger] tree_nodes(root, listing, false)[k]).0,
            ),
{
    lemma_walk_nodes_not_hidden(listing, 1, seq![], 1);
    let w = walk_nodes(listing, 1, seq![], false, 1);
    let t = tree_nodes(root, listing, false);
    assert forall|k: int| 1 <= k < t.len() implies !hidden_name((#[trigger] t[k]).0) by {
        assert(t[k] == w[k - 1]);
    }
}

proof fn lemma_walk_nodes_bounded(
    entries: Seq<RawEntry>,
    depth: nat,
    ancestors: Seq<bool>,
    show_hidden: bool,
    count: nat,
)
    ensures
        count <= TREE_MAX_NODES ==> count + walk_nodes(entries, depth, ancestors, show_hidden, count).len()
            <= TREE_MAX_NODES,
        forall|k: int|
            0 <= k < walk_nodes(entries, depth, ancestors, show_hidden, count).len() ==> #[trigger] walk_nodes(
                entries,
                depth,
                ancestors,
                show_hidden,
                count,
            )[k].1 <= TREE_MAX_DEPTH,
    decreases (3 - depth) as nat, 1nat, 0nat,
{
    if !(depth > TREE_MAX_DEPTH || count >= TREE_MAX_NODES) {
        lemma_walk_from_bounded(listed(entries, show_hidden), 0, depth, ancestors, show_hidden, count);
    }
}

proof fn lemma_walk_from_bounded(
    es: Seq<RawEntry>,
    i: nat,
    depth: nat,
    ancestors: Seq<bool>,
    show_hidden: bool,
    count: nat,
)
    ensures
        count <= TREE_MAX_NODES ==> count + walk_from(es, i, depth, ancestors, show_hidden, count).len()
            <= TREE_MAX_NODES,
        forall|k: int|
            0 <= k < walk_from(es, i, depth, ancestors, show_hidden, count).len() ==> #[trigger] walk_from(
                es,
                i,
                depth,
                ancestors,
                show_hidden,
                count,
            )[k].1 <= TREE_MAX_DEPTH,
    decreases (3 - depth) as nat, 0nat, es.len() - i,
{
    if !(i >= es.len() || count >= TREE_MAX_NODES || depth > TREE_MAX_DEPTH) {
        let e = es[i as int];
        let is_last = i + 1 == es.len();
        let node: NodeSpec = (e.name@, depth as usize, e.is_dir, is_last, ancestors);
        let sub = if e.is_dir {
            walk_nodes(e.children@, depth + 1, ancestors.push(is_last), show_hidden, count + 1)
        } else {
            seq![]
        };
        if e.is_dir {
            lemma_walk_nodes_bounded(e.children@, depth + 1, ancestors.push(is_last), show_hidden, count + 1);
        }
        lemma_walk_from_bounded(es, i + 1, depth, ancestors, show_hidden, count + 1 + sub.len());
        let rest = walk_from(es, i + 1, depth, ancestors, show_hidden, count + 1 + sub.len());
        let all = walk_from(es, i, depth, ancestors, show_hidden, count);
        assert(all == seq![node] + sub + rest);
        assert forall|k: int| 0 <= k < all.len() implies #[trigger] all[k].1 <= TREE_MAX_DEPTH by {
            if k == 0 {
            } else if k < 1 + sub.len() {
                assert(all[k] == sub[k - 1]);
            } else {
                assert(all[k] == rest[k - 1 - sub.len()]);
            }
        }
    }
}

// ---------------------------------------------------------------------
// Drawing a node
// ---------------------------------------------------------------------

/// The guide drawn for the ancestors of a node: for each, blank space when
/// it was the last child, else a vertical line.
pub open spec fn guides(ancestors: Seq<bool>) -> Seq<char>
    decreases ancestors.len(),
{
    if ancestors.len() == 0 {
        seq![]
    } else {
        guides(ancestors.drop_last()) + if ancestors.last() {
            "    "@
        } else {
            "│   "@
        }
    }
}

/// The full line for a node: the ancestor guides, a branch (a corner for
/// the last child) unless it is the root, the name and `/` for directories.
pub open spec fn node_line(n: NodeSpec) -> Seq<char> {
    guides(n.4) + (if n.1 > 0 {
        if n.3 {
            "└── "@
        } else {
            "├── "@
        }
    } else {
        seq![]
    }) + n.0 + (if n.2 {
        "/"@
    } else {
        seq![]
    })
}

/// At most the first `n` characters of `s`.
pub open spec fn first_chars(s: Seq<char>, n: int) -> Seq<char> {
    if n <= s.len() {
        s.take(n)
    } else {
        s
    }
}

/// The first `max` characters of `s` (all of them where it is shorter) when
/// `max` is at most one; else at most `max - 1` of them and an ellipsis.
pub open spec fn ellipsised(s: Seq<char>, max: nat) -> Seq<char> {
    if max <= 1 {
        first_chars(s, max as int)
    } else {
        first_chars(s, max - 1).push('…')
    }
}

/// The line drawn for a node in `max_width` columns: the full line, or, when
/// it is longer, its shortened form.
pub open spec fn drawn_line(n: NodeSpec, max_width: nat) -> Seq<char> {
    if node_line(n).len() > max_width {
        ellipsised(node_line(n), max_width)
    } else {
        node_line(n)
    }
}

/// Shortens `s` to `max` characters, ending it with an ellipsis when there
/// is room for one (see `ellipsised`).
pub fn truncate_with_ellipsis(s: &str, max: usize) -> (r: String)
    ensures
        r@ == ellipsised(s@, max as nat),
{
    let cs = chars_of(s);
    let limit: usize = if max <= 1 {
        max
    } else {
        max - 1
    };
    let keep: usize = if limit <= cs.len() {
        limit
    } else {
        cs.len()
    };
    let mut kept = crate::text::slice_chars(cs.as_slice(), 0, keep);
    assert(kept@ =~= first_chars(s@, limit as int));
    if max <= 1 {
        return string_of(kept.as_slice());
    }
    kept.push('…');
    string_of(kept.as_slice())
}

/// Format a node into a single line of at most `max_width` characters,
/// e.g. `│   ├── app.rs` (see `drawn_line`).
pub fn render_line(node: &TreeNode, max_width: usize) -> (r: String)
    ensures
        r@ == drawn_line(node_view(*node), max_width as nat),
        r@.len() <= max_width,
{
    let mut line: Vec<char> = Vec::new();
    let mut i: usize = 0;
    while i < node.ancestors_last.len()
        invariant
            i <= node.ancestors_last@.len(),
            line@ == guides(node.ancestors_last@.take(i as int)),
        decreases node.ancestors_last@.len() - i,
    {
        let ghost before = line@;
        if node.ancestors_last[i] {
            push_all(&mut line, chars_of("    ").as_slice());
        } else {
            push_all(&mut line, chars_of("│   ").as_slice());
        }
        assert(node.ancestors_last@.take(i + 1).drop_last() =~= node.ancestors_last@.take(i as int));
        i = i + 1;
    }
    assert(node.ancestors_last@.take(node.ancestors_last@.len() as int) =~= node.ancestors_last@);
    let ghost g = line@;
    if node.depth > 0 {
        if node.is_last {
            push_all(&mut line, chars_of("└── ").as_slice());
        } else {
            push_all(&mut line, chars_of("├── ").as_slice());
        }
    }
    let ghost gb = line@;
    push_all(&mut line, chars_of(node.name.as_str()).as_slice());
    if node.is_dir {
        push_all(&mut line, chars_of("/").as_slice());
    }
    assert(line@ =~= node_line(node_view(*node)));
    let text = string_of(line.as_slice());
    if line.len() > max_width {
        truncate_with_ellipsis(text.as_str(), max_width)
    } else {
        text
    }
}

} // verus!
