//! Rendering a recipe's flattened contents as a tree, like the output of
//! the usual tree-printing tools. Storage is flat, so nesting is re-derived
//! here: every path component becomes a node of an intermediate prefix
//! trie, sibling nodes are ordered with directories before files and names
//! lexicographically within a kind, and the lines are drawn with branch and
//! cap connectors and accumulated indentation.

use vstd::prelude::*;

use crate::content::RecipeItem;
use crate::order::{rank_le, str_le, str_eq};
use crate::recipe::strs_view;

verus! {

/// A rendered tree node: a leaf (a file, or a directory with nothing
/// inside, told apart by the flag), or a directory with children.
#[derive(Debug)]
pub enum TreeContent {
    Leaf { name: String, empty_dir: bool },
    HasChildren { name: String, contents: Vec<TreeContent> },
}

/// The intermediate prefix trie: one node per path component, marked when
/// some entry ends at it as a file.
#[derive(Debug)]
pub struct TreeNode {
    pub children: Vec<(String, TreeNode)>,
    pub is_file: bool,
}

// ---- path components -------------------------------------------------

/// The number of consecutive non-separator characters from position `i`.
pub open spec fn nonsep_run(s: Seq<char>, i: int) -> int
    decreases s.len() - i,
{
    if i < 0 || i >= s.len() || s[i] == '/' {
        0
    } else {
        1 + nonsep_run(s, i + 1)
    }
}

/// The components of a path: maximal runs between separators, empty runs
/// dropped.
pub open spec fn spec_split(s: Seq<char>) -> Seq<Seq<char>>
    decreases s.len(),
{
    if s.len() == 0 {
        Seq::empty()
    } else if s[0] == '/' {
        spec_split(s.skip(1))
    } else {
        let l = nonsep_run(s, 0);
        if 1 <= l <= s.len() {
            seq![s.take(l)] + spec_split(s.skip(l))
        } else {
            seq![s]
        }
    }
}

proof fn lemma_nonsep_shift(s: Seq<char>, i: int, k: int)
    requires
        0 <= i <= s.len(),
        0 <= k,
    ensures
        nonsep_run(s, i + k) == nonsep_run(s.skip(i), k),
    decreases s.len() - i - k,
{
    if i + k < s.len() && s[i + k] != '/' {
        assert(s.skip(i)[k] == s[i + k]);
        lemma_nonsep_shift(s, i, k + 1);
    } else {
        if k < s.skip(i).len() {
            assert(s.skip(i)[k] == s[i + k]);
        }
    }
}

proof fn lemma_nonsep_bounds(s: Seq<char>, i: int)
    requires
        0 <= i <= s.len(),
    ensures
        0 <= nonsep_run(s, i) <= s.len() - i,
    decreases s.len() - i,
{
    if i < s.len() && s[i] != '/' {
        lemma_nonsep_bounds(s, i + 1);
    }
}

/// Counts the non-separator characters of `s` from position `i` on.
fn count_nonsep(s: &str, i: usize) -> (l: usize)
    requires
        i <= s@.len(),
    ensures
        l == nonsep_run(s@, i as int),
        i + l <= s@.len(),
{
    let n = s.unicode_len();
    let mut k: usize = 0;
    let mut done = false;
    while !done
        invariant
            n == s@.len(),
            i + k <= n,
            forall|x: int| i <= x < i + k ==> s@[x] != '/',
            done ==> i + k == n || s@[i + k] == '/',
        decreases n - i - k + (if done {
            0int
        } else {
            1int
        }),
    {
        if i + k < n {
            if s.get_char(i + k) != '/' {
                k += 1;
            } else {
                done = true;
            }
        } else {
            done = true;
        }
    }
    proof {
        lemma_nonsep_exact(s@, i as int, k as int);
    }
    k
}

proof fn lemma_nonsep_exact(s: Seq<char>, i: int, k: int)
    requires
        0 <= i,
        0 <= k,
        i + k <= s.len(),
        forall|x: int| i <= x < i + k ==> s[x] != '/',
        i + k == s.len() || s[i + k] == '/',
    ensures
        nonsep_run(s, i) == k,
    decreases k,
{
    if k > 0 {
        lemma_nonsep_exact(s, i + 1, k - 1);
    }
}

/// Splits a path into its components.
pub fn split_components(s: &str) -> (r: Vec<String>)
    ensures
        strs_view(r@) == spec_split(s@),
{
    let n = s.unicode_len();
    let mut out: Vec<String> = Vec::new();
    let mut i: usize = 0;
    proof {
        assert(s@.skip(0) =~= s@);
        assert(strs_view(out@) + spec_split(s@.skip(0)) =~= spec_split(s@));
    }
    while i < n
        invariant
            n == s@.len(),
            i <= n,
            spec_split(s@) == strs_view(out@) + spec_split(s@.skip(i as int)),
        decreases n - i,
    {
        let ghost pre = out@;
        if s.get_char(i) == '/' {
            proof {
                assert(s@.skip(i as int)[0] == s@[i as int]);
                assert(s@.skip(i as int).skip(1) =~= s@.skip(i + 1));
            }
            i += 1;
        } else {
            let l = count_nonsep(s, i);
            proof {
                lemma_nonsep_shift(s@, i as int, 0);
                lemma_nonsep_bounds(s@, i as int);
                lemma_nonsep_bounds(s@, i as int + 1);
                assert(s@.skip(i as int)[0] == s@[i as int]);
                assert(nonsep_run(s@, i as int) >= 1);
                assert(nonsep_run(s@.skip(i as int), 0) >= 1);
            }
            let comp = s.substring_char(i, i + l).to_owned();
            out.push(comp);
            proof {
                let si = s@.skip(i as int);
                assert(si.len() == n - i);
                assert(1 <= l <= si.len());
                assert(si.take(l as int) =~= s@.subrange(i as int, i + l));
                assert(si.skip(l as int) =~= s@.skip(i + l));
                assert(comp@ == si.take(l as int));
                assert(strs_view(out@) =~= strs_view(pre) + seq![si.take(l as int)]);
                assert(spec_split(si) == seq![si.take(l as int)] + spec_split(si.skip(l as int)));
                assert(strs_view(out@) + spec_split(s@.skip(i + l)) =~= spec_split(s@));
            }
            i += l;
        }
    }
    proof {
        assert(s@.skip(n as int) =~= Seq::<char>::empty());
        assert(strs_view(out@) =~= spec_split(s@));
    }
    out
}

// ---- the trie --------------------------------------------------------

/// A node with no children and no file mark.
pub open spec fn node_empty(n: TreeNode) -> bool {
    n.children@.len() == 0 && !n.is_file
}

/// Some child carries this component name.
pub open spec fn has_child_key(children: Seq<(String, TreeNode)>, key: Seq<char>) -> bool {
    exists|i: int| 0 <= i < children.len() && (#[trigger] children[i]).0@ == key
}

/// The first child position carrying this component name.
pub open spec fn child_key_index(children: Seq<(String, TreeNode)>, key: Seq<char>) -> int
    decreases children.len(),
{
    if children.len() == 0 {
        0
    } else if children[0].0@ == key {
        0
    } else {
        1 + child_key_index(children.skip(1), key)
    }
}

proof fn lemma_child_key_index(children: Seq<(String, TreeNode)>, key: Seq<char>, i: int)
    requires
        0 <= i < children.len(),
        children[i].0@ == key,
        forall|j: int| 0 <= j < i ==> (#[trigger] children[j]).0@ != key,
    ensures
        child_key_index(children, key) == i,
    decreases i,
{
    if i > 0 {
        assert forall|j: int| 0 <= j < i - 1 implies (#[trigger] children.skip(1)[j]).0@
            != key by {
            assert(children.skip(1)[j] == children[j + 1]);
        }
        assert(children.skip(1)[i - 1] == children[i]);
        lemma_child_key_index(children.skip(1), key, i - 1);
    }
}

/// A chain of fresh nodes for the remaining components, ending in a node
/// marked as the entry's kind asked.
pub open spec fn node_fresh(comps: Seq<Seq<char>>, k: int, is_file: bool, n: TreeNode) -> bool
    decreases comps.len() - k,
{
    if k < 0 || k >= comps.len() {
        n.children@.len() == 0 && n.is_file == is_file
    } else {
        !n.is_file && n.children@.len() == 1 && n.children@[0].0@ == comps[k] && node_fresh(
            comps,
            k + 1,
            is_file,
            n.children@[0].1,
        )
    }
}

/// `n` is `o` with the path `comps[k..]` inserted: the node at the end of
/// the path is marked as a file when asked, missing nodes are created, and
/// everything else is untouched.
pub open spec fn node_inserted(
    o: TreeNode,
    comps: Seq<Seq<char>>,
    k: int,
    is_file: bool,
    n: TreeNode,
) -> bool
    decreases comps.len() - k,
{
    if k < 0 || k >= comps.len() {
        n.children == o.children && n.is_file == (o.is_file || is_file)
    } else if has_child_key(o.children@, comps[k]) {
        let i = child_key_index(o.children@, comps[k]);
        n.is_file == o.is_file && n.children@.len() == o.children@.len() && (forall|j: int|
            0 <= j < o.children@.len() && j != i ==> n.children@[j] == o.children@[j])
            && n.children@[i].0 == o.children@[i].0 && node_inserted(
            o.children@[i].1,
            comps,
            k + 1,
            is_file,
            n.children@[i].1,
        )
    } else {
        n.is_file == o.is_file && n.children@.len() == o.children@.len() + 1 && n.children@.take(
            o.children@.len() as int,
        ) == o.children@ && n.children@.last().0@ == comps[k] && node_fresh(
            comps,
            k + 1,
            is_file,
            n.children@.last().1,
        )
    }
}

/// Builds the chain of fresh nodes for the components from `k` on.
fn make_fresh(comps: &Vec<String>, k: usize, is_file: bool) -> (n: TreeNode)
    ensures
        node_fresh(strs_view(comps@), k as int, is_file, n),
    decreases comps@.len() - k,
{
    if k >= comps.len() {
        TreeNode { children: Vec::new(), is_file }
    } else {
        let child = make_fresh(comps, k + 1, is_file);
        let mut children: Vec<(String, TreeNode)> = Vec::new();
        children.push((comps[k].clone(), child));
        TreeNode { children, is_file: false }
    }
}

impl TreeNode {
    /// A fresh, empty trie.
    pub fn new() -> (n: TreeNode)
        ensures
            node_empty(n),
    {
        TreeNode { children: Vec::new(), is_file: false }
    }

    /// Inserts the path `comps[k..]` into the trie, creating nodes for
    /// missing components and marking the final node as a file when asked.
    pub fn insert(&mut self, comps: &Vec<String>, k: usize, is_file: bool)
        requires
            k <= comps@.len(),
        ensures
            node_inserted(*old(self), strs_view(comps@), k as int, is_file, *final(self)),
        decreases comps@.len() - k,
    {
        let ghost o = *self;
        if k == comps.len() {
            if is_file {
                self.is_file = true;
            }
        } else {
            let m = self.children.len();
            let mut j: usize = 0;
            let mut found = false;
            while j < m && !found
                invariant
                    m == self.children@.len(),
                    j <= m,
                    *self == o,
                    k < comps@.len(),
                    found ==> j < m && self.children@[j as int].0@ == comps@[k as int]@,
                    forall|x: int|
                        0 <= x < j ==> (#[trigger] self.children@[x]).0@ != comps@[k as int]@,
                decreases m - j + (if found {
                    0int
                } else {
                    1int
                }),
            {
                if str_eq(self.children[j].0.as_str(), comps[k].as_str()) {
                    found = true;
                } else {
                    j += 1;
                }
            }
            if found {
                proof {
                    lemma_child_key_index(o.children@, strs_view(comps@)[k as int], j as int);
                }
                let (key, mut child) = self.children.remove(j);
                let ghost child0 = child;
                child.insert(comps, k + 1, is_file);
                self.children.insert(j, (key, child));
                proof {
                    assert(self.children@ =~= o.children@.update(
                        j as int,
                        (o.children@[j as int].0, self.children@[j as int].1),
                    ));
                    assert(child0 == o.children@[j as int].1);
                }
            } else {
                assert(!has_child_key(o.children@, strs_view(comps@)[k as int]));
                let fresh = make_fresh(comps, k + 1, is_file);
                self.children.push((comps[k].clone(), fresh));
                proof {
                    assert(self.children@.take(o.children@.len() as int) =~= o.children@);
                }
            }
        }
    }
}

// ---- ordering of rendered siblings -----------------------------------

/// Directory-like nodes — directories with children and empty directories
/// — order before files; within a kind, names order lexicographically.
pub open spec fn tc_rank(t: TreeContent) -> int {
    match t {
        TreeContent::Leaf { empty_dir, .. } => if empty_dir {
            0
        } else {
            1
        },
        TreeContent::HasChildren { .. } => 0,
    }
}

/// The display name of a rendered node.
pub open spec fn tc_name(t: TreeContent) -> Seq<char> {
    match t {
        TreeContent::Leaf { name, .. } => name@,
        TreeContent::HasChildren { name, .. } => name@,
    }
}

/// The sibling ordering of rendered nodes.
pub open spec fn tc_le(a: TreeContent, b: TreeContent) -> bool {
    rank_le(tc_rank(a), tc_name(a), tc_rank(b), tc_name(b))
}

/// Decides the sibling ordering.
pub fn tc_le_exec(a: &TreeContent, b: &TreeContent) -> (r: bool)
    ensures
        r == tc_le(*a, *b),
{
    let ra: u8 = match a {
        TreeContent::Leaf { empty_dir, .. } => if *empty_dir {
            0
        } else {
            1
        },
        TreeContent::HasChildren { .. } => 0,
    };
    let rb: u8 = match b {
        TreeContent::Leaf { empty_dir, .. } => if *empty_dir {
            0
        } else {
            1
        },
        TreeContent::HasChildren { .. } => 0,
    };
    if ra < rb {
        true
    } else if rb < ra {
        false
    } else {
        let na = match a {
            TreeContent::Leaf { name, .. } => name,
            TreeContent::HasChildren { name, .. } => name,
        };
        let nb = match b {
            TreeContent::Leaf { name, .. } => name,
            TreeContent::HasChildren { name, .. } => name,
        };
        str_le(na.as_str(), nb.as_str())
    }
}

/// `e` placed into `s` directly before the first sibling it orders
/// strictly before.
pub open spec fn spec_insert_tc(e: TreeContent, s: Seq<TreeContent>) -> Seq<TreeContent>
    decreases s.len(),
{
    if s.len() == 0 {
        seq![e]
    } else if tc_le(s[0], e) && !tc_le(e, s[0]) {
        seq![s[0]] + spec_insert_tc(e, s.skip(1))
    } else {
        seq![e] + s
    }
}

/// Insertion sort of rendered siblings.
pub open spec fn spec_sort_tc(s: Seq<TreeContent>) -> Seq<TreeContent>
    decreases s.len(),
{
    if s.len() == 0 {
        Seq::empty()
    } else {
        spec_insert_tc(s[0], spec_sort_tc(s.skip(1)))
    }
}

/// The siblings are ordered: directory-like nodes before files, and names
/// lexicographically within a kind.
pub open spec fn tc_sorted(s: Seq<TreeContent>) -> bool {
    forall|i: int, j: int| 0 <= i < j < s.len() ==> tc_le(s[i], s[j])
}

proof fn lemma_tc_le_total(a: TreeContent, b: TreeContent)
    ensures
        tc_le(a, b) || tc_le(b, a),
{
    crate::order::lemma_rank_le_total(tc_rank(a), tc_name(a), tc_rank(b), tc_name(b));
}

proof fn lemma_tc_le_trans(a: TreeContent, b: TreeContent, c: TreeContent)
    requires
        tc_le(a, b),
        tc_le(b, c),
    ensures
        tc_le(a, c),
{
    crate::order::lemma_rank_le_trans(
        tc_rank(a),
        tc_name(a),
        tc_rank(b),
        tc_name(b),
        tc_rank(c),
        tc_name(c),
    );
}

proof fn lemma_insert_tc_elems(e: TreeContent, s: Seq<TreeContent>)
    ensures
        spec_insert_tc(e, s).len() == s.len() + 1,
        forall|x: int|
            0 <= x < spec_insert_tc(e, s).len() ==> #[trigger] spec_insert_tc(e, s)[x] == e
                || s.contains(spec_insert_tc(e, s)[x]),
    decreases s.len(),
{
    if s.len() != 0 && tc_le(s[0], e) && !tc_le(e, s[0]) {
        lemma_insert_tc_elems(e, s.skip(1));
        let r = seq![s[0]] + spec_insert_tc(e, s.skip(1));
        assert forall|x: int| 0 <= x < r.len() implies #[trigger] r[x] == e || s.contains(
            r[x],
        ) by {
            if x == 0 {
                assert(s.contains(s[0]));
            } else {
                let rest = spec_insert_tc(e, s.skip(1));
                assert(r[x] == rest[x - 1]);
                if rest[x - 1] != e {
                    let k = choose|k: int| 0 <= k < s.skip(1).len() && s.skip(1)[k] == rest[x - 1];
                    assert(s[k + 1] == rest[x - 1]);
                }
            }
        }
    }
}

proof fn lemma_insert_tc_sorted(e: TreeContent, s: Seq<TreeContent>)
    requires
        tc_sorted(s),
    ensures
        tc_sorted(spec_insert_tc(e, s)),
    decreases s.len(),
{
    if s.len() == 0 {
    } else if tc_le(s[0], e) && !tc_le(e, s[0]) {
        assert(tc_sorted(s.skip(1)));
        lemma_insert_tc_sorted(e, s.skip(1));
        lemma_insert_tc_elems(e, s.skip(1));
        let rest = spec_insert_tc(e, s.skip(1));
        let r = seq![s[0]] + rest;
        assert forall|i: int, j: int| 0 <= i < j < r.len() implies tc_le(r[i], r[j]) by {
            if i == 0 {
                let x = rest[j - 1];
                if x == e {
                    assert(tc_le(s[0], e));
                } else {
                    let k = choose|k: int| 0 <= k < s.skip(1).len() && s.skip(1)[k] == x;
                    assert(tc_le(s[0], s[k + 1]));
                }
            }
        }
    } else {
        lemma_tc_le_total(e, s[0]);
        let r = seq![e] + s;
        assert forall|i: int, j: int| 0 <= i < j < r.len() implies tc_le(r[i], r[j]) by {
            if i == 0 {
                if j > 1 {
                    assert(tc_le(s[0], s[j - 1]));
                    lemma_tc_le_trans(e, s[0], s[j - 1]);
                }
            }
        }
    }
}

/// The sibling ordering invariant of the rendered tree: at every level of
/// the reconstructed nesting, directory-like siblings precede files and
/// siblings of one kind are ordered by name.
pub proof fn lemma_tc_sort_sorted(s: Seq<TreeContent>)
    ensures
        tc_sorted(spec_sort_tc(s)),
    decreases s.len(),
{
    if s.len() != 0 {
        lemma_tc_sort_sorted(s.skip(1));
        lemma_insert_tc_sorted(s[0], spec_sort_tc(s.skip(1)));
    }
}

fn insert_tc(e: TreeContent, v: Vec<TreeContent>) -> (r: Vec<TreeContent>)
    ensures
        r@ == spec_insert_tc(e, v@),
    decreases v@.len(),
{
    let ghost orig = v@;
    let mut v = v;
    if v.len() == 0 {
        v.push(e);
        assert(v@ =~= seq![e]);
        v
    } else {
        let lt = tc_le_exec(&v[0], &e) && !tc_le_exec(&e, &v[0]);
        if lt {
            let head = v.remove(0);
            assert(v@ =~= orig.skip(1));
            let mut rest = insert_tc(e, v);
            rest.insert(0, head);
            assert(rest@ =~= seq![head] + spec_insert_tc(e, orig.skip(1)));
            rest
        } else {
            let mut v = v;
            v.insert(0, e);
            assert(v@ =~= seq![e] + orig);
            v
        }
    }
}

/// Sorts rendered siblings: directory-like nodes first, names
/// lexicographically within a kind.
pub fn sort_tc(v: Vec<TreeContent>) -> (r: Vec<TreeContent>)
    ensures
        r@ == spec_sort_tc(v@),
    decreases v@.len(),
{
    let ghost orig = v@;
    let mut v = v;
    if v.len() == 0 {
        assert(v@ =~= spec_sort_tc(orig));
        v
    } else {
        let e = v.remove(0);
        assert(v@ =~= orig.skip(1));
        let rest = sort_tc(v);
        insert_tc(e, rest)
    }
}

// ---- conversion of the trie into rendered nodes ----------------------

/// `tc` is the rendered form of trie node `node` under this name: a node
/// without children renders as a leaf (an empty directory unless marked as
/// a file), and a node with children as a directory whose rendered
/// children are sorted by the sibling ordering.
pub open spec fn tc_represents(node: TreeNode, name: Seq<char>, tc: TreeContent) -> bool
    decreases node,
{
    if node.children@.len() == 0 {
        tc matches TreeContent::Leaf { name: n2, empty_dir } && n2@ == name && empty_dir
            == !node.is_file
    } else {
        tc matches TreeContent::HasChildren { name: n2, contents } && n2@ == name
            && children_converted(node.children@, contents@)
    }
}

/// Rendered siblings are ordered at their level: whatever child nodes they
/// came from, a converted sibling list is sorted by the sibling ordering —
/// directory-like entries precede files at each shared path-prefix level,
/// and entries of one kind are ordered by name.
pub proof fn lemma_children_converted_sorted(
    children: Seq<(String, TreeNode)>,
    tcs: Seq<TreeContent>,
)
    requires
        children_converted(children, tcs),
    ensures
        tc_sorted(tcs),
{
    let raw = choose|raw: Seq<TreeContent>|
        raw.len() == children.len() && (forall|i: int|
            0 <= i < children.len() ==> tc_represents(
                children[i].1,
                children[i].0@,
                #[trigger] raw[i],
            )) && tcs == #[trigger] spec_sort_tc(raw);
    lemma_tc_sort_sorted(raw);
}

/// `tcs` is the sorted rendering of these child nodes.
pub open spec fn children_converted(
    children: Seq<(String, TreeNode)>,
    tcs: Seq<TreeContent>,
) -> bool
    decreases children,
{
    exists|raw: Seq<TreeContent>|
        raw.len() == children.len() && (forall|i: int|
            0 <= i < children.len() ==> tc_represents(
                children[i].1,
                children[i].0@,
                #[trigger] raw[i],
            )) && tcs == #[trigger] spec_sort_tc(raw)
}

/// Renders one trie node under its name.
pub fn into_tree_content(node: TreeNode, name: String) -> (tc: TreeContent)
    ensures
        tc_represents(node, name@, tc),
    decreases node,
{
    let ghost n0 = node;
    let TreeNode { children, is_file } = node;
    if children.len() == 0 {
        TreeContent::Leaf { name, empty_dir: !is_file }
    } else {
        proof {
            assert(decreases_to!(n0 => n0.children));
            assert(children == n0.children);
        }
        let raw = convert_children(children);
        let ghost rawv = raw@;
        let sorted = sort_tc(raw);
        let tc = TreeContent::HasChildren { name, contents: sorted };
        proof {
            assert(rawv.len() == node.children@.len() && (forall|i: int|
                0 <= i < node.children@.len() ==> tc_represents(
                    node.children@[i].1,
                    node.children@[i].0@,
                    #[trigger] rawv[i],
                )) && sorted@ == spec_sort_tc(rawv));
            assert(children_converted(node.children@, sorted@));
        }
        tc
    }
}

/// Renders each child node, in order.
fn convert_children(children: Vec<(String, TreeNode)>) -> (r: Vec<TreeContent>)
    ensures
        r@.len() == children@.len(),
        forall|i: int|
            0 <= i < children@.len() ==> tc_represents(
                children@[i].1,
                children@[i].0@,
                #[trigger] r@[i],
            ),
    decreases children@,
{
    let ghost whole = children;
    let ghost orig = children@;
    let mut children = children;
    if children.len() == 0 {
        let r: Vec<TreeContent> = Vec::new();
        r
    } else {
        let (nm, child) = children.remove(0);
        proof {
            assert(child == orig[0].1);
            assert(children@ =~= orig.skip(1));
            assert(decreases_to!(whole@ => whole@[0]));
            assert(decreases_to!(whole@[0] => whole@[0].1));
            assert(decreases_to!(whole@ => child));
        }
        let tc = into_tree_content(child, nm);
        let mut rest = convert_children(children);
        rest.insert(0, tc);
        proof {
            assert forall|i: int| 0 <= i < orig.len() implies tc_represents(
                orig[i].1,
                orig[i].0@,
                #[trigger] rest@[i],
            ) by {
                if i > 0 {
                    assert(rest@[i] == rest@.subrange(1, rest@.len() as int)[i - 1]);
                    assert(orig.skip(1)[i - 1] == orig[i]);
                }
            }
        }
        rest
    }
}

// ---- rendering -------------------------------------------------------

/// The rendered lines of a list of siblings under the accumulated prefix:
/// each sibling's line, the last one capped, with a directory's children
/// indented beneath it.
pub open spec fn spec_render(cont: Seq<TreeContent>, prefix: Seq<char>) -> Seq<char>
    decreases cont,
{
    if cont.len() == 0 {
        Seq::empty()
    } else {
        spec_render_one(cont[0], prefix, cont.len() == 1) + spec_render(cont.skip(1), prefix)
    }
}

/// The rendered lines of one node: its own line — the prefix, a branch or
/// cap connector, and its name — followed, for a directory, by its
/// children under a prefix extended with a continuation or a gap.
pub open spec fn spec_render_one(t: TreeContent, prefix: Seq<char>, last: bool) -> Seq<char>
    decreases t,
{
    let connector = if last {
        "└── "@
    } else {
        "├── "@
    };
    match t {
        TreeContent::Leaf { name, .. } => prefix + connector + name@ + "\n"@,
        TreeContent::HasChildren { name, contents } => prefix + connector + name@ + "\n"@
            + spec_render(
            contents@,
            prefix + (if last {
                "    "@
            } else {
                "│   "@
            }),
        ),
    }
}

/// Renders the lines of a list of siblings under the accumulated prefix.
pub fn make_tree_string(cont: &Vec<TreeContent>, prefix: &str) -> (r: String)
    ensures
        r@ == spec_render(cont@, prefix@),
    decreases cont@,
{
    let mut out = String::new();
    let n = cont.len();
    let mut i: usize = 0;
    proof {
        assert(cont@.skip(0) =~= cont@);
        assert(out@ + spec_render(cont@.skip(0), prefix@) =~= spec_render(cont@, prefix@));
    }
    while i < n
        invariant
            n == cont@.len(),
            i <= n,
            spec_render(cont@, prefix@) == out@ + spec_render(cont@.skip(i as int), prefix@),
        decreases n - i,
    {
        let last = i + 1 == n;
        let line = render_one(&cont[i], prefix, last);
        out.append(line.as_str());
        proof {
            assert(cont@.skip(i as int)[0] == cont@[i as int]);
            assert((cont@.skip(i as int).len() == 1) == (i + 1 == n));
            assert(cont@.skip(i as int).skip(1) =~= cont@.skip(i + 1));
        }
        i += 1;
    }
    proof {
        assert(cont@.skip(n as int) =~= Seq::<TreeContent>::empty());
    }
    out
}

/// Renders the lines of one node.
fn render_one(t: &TreeContent, prefix: &str, last: bool) -> (r: String)
    ensures
        r@ == spec_render_one(*t, prefix@, last),
    decreases *t,
{
    let mut out = prefix.to_owned();
    if last {
        out.append("└── ");
    } else {
        out.append("├── ");
    }
    match t {
        TreeContent::Leaf { name, .. } => {
            out.append(name.as_str());
            out.append("\n");
        },
        TreeContent::HasChildren { name, contents } => {
            out.append(name.as_str());
            out.append("\n");
            let mut new_prefix = prefix.to_owned();
            if last {
                new_prefix.append("    ");
            } else {
                new_prefix.append("│   ");
            }
            let sub = make_tree_string(contents, new_prefix.as_str());
            out.append(sub.as_str());
        },
    }
    out
}

// ---- the whole pipeline ----------------------------------------------

/// The fold of the flat entries into the trie: each entry's component path
/// inserted in turn, starting from the empty trie.
pub open spec fn trie_fold(files: Seq<RecipeItem>, roots: Seq<TreeNode>) -> bool {
    roots.len() == files.len() + 1 && node_empty(roots[0]) && forall|q: int|
        0 <= q < files.len() ==> node_inserted(
            roots[q],
            spec_split(crate::content::spec_name(files[q])),
            0,
            files[q] is File,
            #[trigger] roots[q + 1],
        )
}

/// `tcs` is the rendered forest of the flat entries: the entries inserted
/// into a trie by component path, whose top-level nodes are rendered and
/// sorted.
pub open spec fn built_from(files: Seq<RecipeItem>, tcs: Seq<TreeContent>) -> bool {
    exists|roots: Seq<TreeNode>|
        #[trigger] trie_fold(files, roots) && children_converted(
            roots.last().children@,
            tcs,
        )
}

/// Builds the rendered forest of the flat entries: every path component
/// becomes a trie node, and the trie is rendered with siblings ordered
/// directory-like nodes first and lexicographically within a kind.
pub fn build_recursive_content(files: &Vec<RecipeItem>) -> (r: Vec<TreeContent>)
    ensures
        built_from(files@, r@),
{
    let mut root = TreeNode::new();
    let ghost mut roots: Seq<TreeNode> = seq![root];
    let n = files.len();
    let mut q: usize = 0;
    while q < n
        invariant
            n == files@.len(),
            q <= n,
            roots.len() == q + 1,
            node_empty(roots[0]),
            root == roots.last(),
            forall|x: int|
                0 <= x < q ==> node_inserted(
                    roots[x],
                    spec_split(crate::content::spec_name(files@[x])),
                    0,
                    files@[x] is File,
                    #[trigger] roots[x + 1],
                ),
        decreases n - q,
    {
        let item = &files[q];
        let item_name = item.name();
        let comps = split_components(item_name.as_str());
        let is_file = match item {
            RecipeItem::File(_) => true,
            RecipeItem::Directory(_) => false,
        };
        root.insert(&comps, 0, is_file);
        proof {
            let old_roots = roots;
            roots = roots.push(root);
            assert(roots[q as int] == old_roots[q as int]);
            assert(roots.last() == root);
            assert forall|x: int| 0 <= x < q + 1 implies node_inserted(
                roots[x],
                spec_split(crate::content::spec_name(files@[x])),
                0,
                files@[x] is File,
                #[trigger] roots[x + 1],
            ) by {
                if x < q {
                    assert(roots[x] == old_roots[x]);
                    assert(roots[x + 1] == old_roots[x + 1]);
                }
            }
        }
        q += 1;
    }
    let TreeNode { children, is_file } = root;
    let ghost root_snap = roots.last();
    let raw = convert_children(children);
    let ghost rawv = raw@;
    let sorted = sort_tc(raw);
    proof {
        assert(trie_fold(files@, roots));
        assert(rawv.len() == root_snap.children@.len() && (forall|i: int|
            0 <= i < root_snap.children@.len() ==> tc_represents(
                root_snap.children@[i].1,
                root_snap.children@[i].0@,
                #[trigger] rawv[i],
            )) && sorted@ == spec_sort_tc(rawv));
        assert(children_converted(root_snap.children@, sorted@));
        assert(built_from(files@, sorted@));
    }
    sorted
}

/// Creates the tree-style rendering of the flat entries, akin to the
/// output of the usual tree printer.
pub fn repr_tree(files: &Vec<RecipeItem>) -> (r: String)
    ensures
        exists|tcs: Seq<TreeContent>|
            #[trigger] built_from(files@, tcs) && r@ == spec_render(tcs, Seq::<char>::empty()),
{
    let tree = build_recursive_content(files);
    let r = make_tree_string(&tree, "");
    proof {
        reveal_strlit("");
        assert(""@ =~= Seq::<char>::empty());
    }
    r
}

} // verus!
