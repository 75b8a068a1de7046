//! The flattened content tree: every captured file or directory is one entry
//! in a flat sequence, carrying its full path relative to the capture root.
//! Nesting is implicit in path prefixes and is only re-derived when a tree is
//! rendered or built.

use vstd::prelude::*;

use crate::mkdev_error::Error;
use crate::order::{is_prefix, is_prefix_str, rank_le, str_eq, str_le};

verus! {

/// One entry of a recipe's contents: a file with its full text, or a
/// directory. Both carry a path relative to the capture root.
#[derive(Clone, Debug, PartialEq, Eq)]
pub enum RecipeItem {
    File(File),
    Directory(String),
}

/// A captured regular file: its relative path and its full text content.
#[derive(Clone, Debug, PartialEq, Eq)]
pub struct File {
    pub name: String,
    pub content: String,
}

/// Directories sort before files; entries of the same kind sort by name.
pub open spec fn item_rank(item: RecipeItem) -> int {
    match item {
        RecipeItem::Directory(_) => 0,
        RecipeItem::File(_) => 1,
    }
}

/// The relative path of an item, regardless of its kind.
pub open spec fn spec_name(item: RecipeItem) -> Seq<char> {
    match item {
        RecipeItem::File(f) => f.name@,
        RecipeItem::Directory(d) => d@,
    }
}

/// The ordering invariant of recipe contents: directories first, then files,
/// and names lexicographically within each kind.
pub open spec fn item_le(a: RecipeItem, b: RecipeItem) -> bool {
    rank_le(item_rank(a), spec_name(a), item_rank(b), spec_name(b))
}

/// `a` sorts strictly before `b`.
pub open spec fn item_lt(a: RecipeItem, b: RecipeItem) -> bool {
    item_le(a, b) && !item_le(b, a)
}

/// The sequence is sorted by the contents-ordering invariant.
pub open spec fn sorted_items(s: Seq<RecipeItem>) -> bool {
    forall|i: int, j: int| 0 <= i < j < s.len() ==> item_le(s[i], s[j])
}

/// `e` placed into `s` directly before the first element it sorts strictly
/// before.
pub open spec fn spec_insert_item(e: RecipeItem, s: Seq<RecipeItem>) -> Seq<RecipeItem>
    decreases s.len(),
{
    if s.len() == 0 {
        seq![e]
    } else if item_lt(s[0], e) {
        seq![s[0]] + spec_insert_item(e, s.skip(1))
    } else {
        seq![e] + s
    }
}

/// Insertion sort by the contents-ordering invariant.
pub open spec fn spec_sort_items(s: Seq<RecipeItem>) -> Seq<RecipeItem>
    decreases s.len(),
{
    if s.len() == 0 {
        Seq::empty()
    } else {
        spec_insert_item(s[0], spec_sort_items(s.skip(1)))
    }
}

pub proof fn lemma_item_le_total(a: RecipeItem, b: RecipeItem)
    ensures
        item_le(a, b) || item_le(b, a),
{
    crate::order::lemma_rank_le_total(item_rank(a), spec_name(a), item_rank(b), spec_name(b));
}

pub proof fn lemma_item_le_trans(a: RecipeItem, b: RecipeItem, c: RecipeItem)
    requires
        item_le(a, b),
        item_le(b, c),
    ensures
        item_le(a, c),
{
    crate::order::lemma_rank_le_trans(
        item_rank(a),
        spec_name(a),
        item_rank(b),
        spec_name(b),
        item_rank(c),
        spec_name(c),
    );
}

proof fn lemma_insert_item_multiset(e: RecipeItem, s: Seq<RecipeItem>)
    ensures
        spec_insert_item(e, s).to_multiset() == s.to_multiset().insert(e),
        spec_insert_item(e, s).len() == s.len() + 1,
    decreases s.len(),
{
    broadcast use vstd::seq_lib::group_to_multiset_ensures;

    if s.len() == 0 {
        assert(seq![e] =~= Seq::<RecipeItem>::empty().insert(0, e));
        assert(spec_insert_item(e, s).to_multiset() =~= s.to_multiset().insert(e));
    } else if item_lt(s[0], e) {
        lemma_insert_item_multiset(e, s.skip(1));
        let rest = spec_insert_item(e, s.skip(1));
        assert(seq![s[0]] + rest =~= rest.insert(0, s[0]));
        assert(s =~= s.skip(1).insert(0, s[0]));
        assert(spec_insert_item(e, s).to_multiset() =~= s.to_multiset().insert(e));
    } else {
        assert(seq![e] + s =~= s.insert(0, e));
        assert(spec_insert_item(e, s).to_multiset() =~= s.to_multiset().insert(e));
    }
}

proof fn lemma_insert_item_sorted(e: RecipeItem, s: Seq<RecipeItem>)
    requires
        sorted_items(s),
    ensures
        sorted_items(spec_insert_item(e, s)),
    decreases s.len(),
{
    broadcast use vstd::seq_lib::group_to_multiset_ensures;

    if s.len() == 0 {
    } else if item_lt(s[0], e) {
        assert(sorted_items(s.skip(1)));
        lemma_insert_item_sorted(e, s.skip(1));
        lemma_insert_item_multiset(e, s.skip(1));
        let rest = spec_insert_item(e, s.skip(1));
        let r = seq![s[0]] + rest;
        assert forall|i: int, j: int| 0 <= i < j < r.len() implies item_le(r[i], r[j]) by {
            if i == 0 {
                let x = rest[j - 1];
                assert(rest.to_multiset().count(x) > 0);
                assert(rest.contains(x));
                if x == e {
                    assert(item_le(s[0], e));
                } else {
                    assert(s.skip(1).to_multiset().count(x) > 0);
                    assert(s.skip(1).contains(x));
                    let k = choose|k: int| 0 <= k < s.skip(1).len() && s.skip(1)[k] == x;
                    assert(item_le(s[0], s[k + 1]));
                }
            }
        }
    } else {
        // e goes first: e is at most every element of s.
        assert(!item_lt(s[0], e));
        lemma_item_le_total(e, s[0]);
        let r = seq![e] + s;
        assert forall|i: int, j: int| 0 <= i < j < r.len() implies item_le(r[i], r[j]) by {
            if i == 0 {
                if j == 1 {
                } else {
                    assert(item_le(s[0], s[j - 1]));
                    lemma_item_le_trans(e, s[0], s[j - 1]);
                }
            }
        }
    }
}

proof fn lemma_sort_items_ensures(s: Seq<RecipeItem>)
    ensures
        sorted_items(spec_sort_items(s)),
        spec_sort_items(s).to_multiset() == s.to_multiset(),
        spec_sort_items(s).len() == s.len(),
    decreases s.len(),
{
    broadcast use vstd::seq_lib::group_to_multiset_ensures;

    if s.len() == 0 {
        assert(spec_sort_items(s).to_multiset() =~= s.to_multiset());
    } else {
        lemma_sort_items_ensures(s.skip(1));
        lemma_insert_item_sorted(s[0], spec_sort_items(s.skip(1)));
        lemma_insert_item_multiset(s[0], spec_sort_items(s.skip(1)));
        assert(s =~= s.skip(1).insert(0, s[0]));
        assert(spec_sort_items(s).to_multiset() =~= s.to_multiset());
    }
}

proof fn lemma_sort_items_id(s: Seq<RecipeItem>)
    requires
        sorted_items(s),
    ensures
        spec_sort_items(s) == s,
    decreases s.len(),
{
    if s.len() == 0 {
        assert(spec_sort_items(s) =~= s);
    } else {
        assert(sorted_items(s.skip(1)));
        lemma_sort_items_id(s.skip(1));
        if s.len() == 1 {
            assert(spec_sort_items(s) =~= s);
        } else {
            assert(item_le(s[0], s.skip(1)[0]));
            assert(!item_lt(s.skip(1)[0], s[0]));
            assert(spec_sort_items(s) =~= s);
        }
    }
}

/// The sorting invariant: sorting yields a sequence ordered by
/// directories-before-files and lexicographic names, keeps exactly the
/// entries it was given, and is idempotent.
pub proof fn lemma_sort_items_invariant(s: Seq<RecipeItem>)
    ensures
        sorted_items(spec_sort_items(s)),
        spec_sort_items(s).to_multiset() == s.to_multiset(),
        spec_sort_items(spec_sort_items(s)) == spec_sort_items(s),
{
    lemma_sort_items_ensures(s);
    lemma_sort_items_id(spec_sort_items(s));
}

impl RecipeItem {
    /// Returns the name of the item, regardless of type.
    pub fn name(&self) -> (r: String)
        ensures
            r@ == spec_name(*self),
    {
        match self {
            RecipeItem::File(file) => file.name.clone(),
            RecipeItem::Directory(dir) => dir.clone(),
        }
    }
}

/// Decides the contents ordering.
pub fn item_le_exec(a: &RecipeItem, b: &RecipeItem) -> (r: bool)
    ensures
        r == item_le(*a, *b),
{
    match (a, b) {
        (RecipeItem::Directory(da), RecipeItem::Directory(db)) => str_le(da.as_str(), db.as_str()),
        (RecipeItem::Directory(_), RecipeItem::File(_)) => true,
        (RecipeItem::File(_), RecipeItem::Directory(_)) => false,
        (RecipeItem::File(fa), RecipeItem::File(fb)) => str_le(fa.name.as_str(), fb.name.as_str()),
    }
}

/// Places `e` into the sorted sequence `v` at its ordered position.
pub fn insert_item(e: RecipeItem, v: Vec<RecipeItem>) -> (r: Vec<RecipeItem>)
    ensures
        r@ == spec_insert_item(e, v@),
    decreases v@.len(),
{
    let ghost orig = v@;
    let mut v = v;
    if v.len() == 0 {
        v.push(e);
        assert(v@ =~= seq![e]);
        v
    } else {
        let lt = item_le_exec(&v[0], &e) && !item_le_exec(&e, &v[0]);
        if lt {
            let head = v.remove(0);
            assert(v@ =~= orig.skip(1));
            let mut rest = insert_item(e, v);
            rest.insert(0, head);
            assert(rest@ =~= seq![head] + spec_insert_item(e, orig.skip(1)));
            rest
        } else {
            let mut v = v;
            v.insert(0, e);
            assert(v@ =~= seq![e] + orig);
            v
        }
    }
}

/// What one step of the filesystem walk reported: a path, what kind of entry
/// it is, and — for a regular file — its full text content.
#[derive(Clone, Debug)]
pub struct WalkEntry {
    pub path: String,
    pub kind: EntryKind,
    pub content: String,
}

/// The kind of a walked entry.
#[derive(Clone, Copy, Debug, PartialEq, Eq, Structural)]
pub enum EntryKind {
    File,
    Dir,
    Symlink,
}

/// The entry becomes part of the capture: it is not the root itself and not
/// a symbolic link (links are excluded entirely).
pub open spec fn entry_included(e: WalkEntry, root: Seq<char>) -> bool {
    e.path@ != root && !(e.kind is Symlink)
}

/// The path lies strictly inside the root's subtree.
pub open spec fn within_root(root: Seq<char>, p: Seq<char>) -> bool {
    is_prefix(root + "/"@, p)
}

/// The path rewritten relative to the root.
pub open spec fn spec_rel(p: Seq<char>, root: Seq<char>) -> Seq<char> {
    p.skip(root.len() as int + 1)
}

/// Every entry that takes part in the capture lies inside the root.
pub open spec fn all_within(entries: Seq<WalkEntry>, root: Seq<char>) -> bool {
    forall|k: int|
        0 <= k < entries.len() && entry_included(entries[k], root) ==> within_root(
            root,
            entries[k].path@,
        )
}

/// `it` is the captured form of walk entry `e`: same kind, the path
/// rewritten relative to the root, and — for a file — the same content.
pub open spec fn item_matches(it: RecipeItem, e: WalkEntry, root: Seq<char>) -> bool {
    match e.kind {
        EntryKind::File => it matches RecipeItem::File(f) && f.name@ == spec_rel(e.path@, root)
            && f.content@ == e.content@,
        EntryKind::Dir => it matches RecipeItem::Directory(d) && d@ == spec_rel(e.path@, root),
        EntryKind::Symlink => false,
    }
}

/// `items` is, in order, the captured form of the included walk entries.
pub open spec fn convert_rel(entries: Seq<WalkEntry>, root: Seq<char>, items: Seq<RecipeItem>) -> bool
    decreases entries.len(),
{
    if entries.len() == 0 {
        items.len() == 0
    } else if !entry_included(entries[0], root) {
        convert_rel(entries.skip(1), root, items)
    } else {
        items.len() > 0 && item_matches(items[0], entries[0], root) && convert_rel(
            entries.skip(1),
            root,
            items.skip(1),
        )
    }
}

/// Builds the recipe contents from a filesystem walk rooted at `root`: the
/// root itself and symbolic links are skipped, every other path is rewritten
/// relative to the root, and the result is sorted by the ordering invariant.
/// Fails when a walked path lies outside the root's subtree.
pub fn make_contents(entries: Vec<WalkEntry>, root: &str) -> (r: Result<Vec<RecipeItem>, Error>)
    ensures
        r is Ok <==> all_within(entries@, root@),
        r matches Ok(items) ==> exists|raw: Seq<RecipeItem>|
            #[trigger] convert_rel(entries@, root@, raw) && items@ == spec_sort_items(raw)
            && sorted_items(items@),
        r matches Err(e) ==> (e matches Error::Io(what, path) && what@
            == "path lies outside the captured directory"@ && exists|k: int|
            0 <= k < entries@.len() && entry_included(entries@[k], root@) && !within_root(
                root@,
                entries@[k].path@,
            ) && path@ == entries@[k].path@),
{
    let rootlen = root.unicode_len();
    let mut prefix = root.to_owned();
    prefix.append("/");
    let mut raw: Vec<RecipeItem> = Vec::new();
    let mut k: usize = 0;
    let n = entries.len();
    while k < n
        invariant
            n == entries@.len(),
            k <= n,
            rootlen == root@.len(),
            prefix@ == root@ + "/"@,
            convert_rel(entries@.take(k as int), root@, raw@),
            all_within(entries@.take(k as int), root@),
        decreases n - k,
    {
        let e = &entries[k];
        let ghost pre_raw = raw@;
        let skip = match e.kind {
            EntryKind::Symlink => true,
            _ => str_eq(e.path.as_str(), root),
        };
        if !skip {
            assert(entry_included(entries@[k as int], root@));
            if !is_prefix_str(prefix.as_str(), e.path.as_str()) {
                assert(!within_root(root@, entries@[k as int].path@));
                return Err(
                    Error::Io(
                        String::from_str("path lies outside the captured directory"),
                        e.path.clone(),
                    ),
                );
            }
            let plen = e.path.unicode_len();
            let rel = e.path.substring_char(rootlen + 1, plen).to_owned();
            assert(rel@ =~= spec_rel(e.path@, root@));
            match e.kind {
                EntryKind::File => {
                    raw.push(RecipeItem::File(File { name: rel, content: e.content.clone() }));
                },
                EntryKind::Dir => {
                    raw.push(RecipeItem::Directory(rel));
                },
                EntryKind::Symlink => {
                },
            }
            proof {
                assert(raw@.take(pre_raw.len() as int) =~= pre_raw);
                assert(raw@[pre_raw.len() as int] == raw@.last());
                assert(item_matches(raw@[pre_raw.len() as int], entries@[k as int], root@));
            }
        } else {
            assert(!entry_included(entries@[k as int], root@));
        }
        proof {
            lemma_convert_rel_step(entries@, root@, pre_raw, raw@, k as int);
        }
        k += 1;
    }
    proof {
        assert(entries@.take(n as int) =~= entries@);
        lemma_sort_items_ensures(raw@);
    }
    let ghost raw_snap = raw@;
    let items = sort_contents(raw);
    assert(convert_rel(entries@, root@, raw_snap) && items@ == spec_sort_items(raw_snap));
    Ok(items)
}

/// Extending the processed prefix of the walk by one entry extends the
/// conversion relation accordingly.
proof fn lemma_convert_rel_step(
    entries: Seq<WalkEntry>,
    root: Seq<char>,
    raw: Seq<RecipeItem>,
    raw2: Seq<RecipeItem>,
    k: int,
)
    requires
        0 <= k < entries.len(),
        convert_rel(entries.take(k), root, raw),
        !entry_included(entries[k], root) ==> raw2 == raw,
        entry_included(entries[k], root) ==> raw2.len() == raw.len() + 1 && raw2.take(raw.len() as int)
            == raw && item_matches(raw2[raw.len() as int], entries[k], root),
    ensures
        convert_rel(entries.take(k + 1), root, raw2),
{
    lemma_convert_rel_append(entries.take(k), root, raw, raw2, entries[k]);
    assert(entries.take(k).push(entries[k]) =~= entries.take(k + 1));
}

/// Appending one walk entry (and, when it is included, its captured item) to
/// matching sequences keeps them matching.
proof fn lemma_convert_rel_append(
    entries: Seq<WalkEntry>,
    root: Seq<char>,
    raw: Seq<RecipeItem>,
    raw2: Seq<RecipeItem>,
    e: WalkEntry,
)
    requires
        convert_rel(entries, root, raw),
        !entry_included(e, root) ==> raw2 == raw,
        entry_included(e, root) ==> raw2.len() == raw.len() + 1 && raw2.take(raw.len() as int)
            == raw && item_matches(raw2[raw.len() as int], e, root),
    ensures
        convert_rel(entries.push(e), root, raw2),
    decreases entries.len(),
{
    let es = entries.push(e);
    assert(es[entries.len() as int] == e);
    if entries.len() == 0 {
        assert(es[0] == e);
        assert(es.skip(1) =~= Seq::<WalkEntry>::empty());
        if entry_included(e, root) {
            assert(raw.len() == 0);
            assert(raw2.skip(1) =~= Seq::<RecipeItem>::empty());
            assert(raw2[0] == raw2[raw.len() as int]);
            assert(item_matches(raw2[0], es[0], root));
            assert(convert_rel(es.skip(1), root, raw2.skip(1)));
        } else {
            assert(raw2.len() == 0);
            assert(convert_rel(es.skip(1), root, raw2));
        }
    } else {
        if !entry_included(entries[0], root) {
            lemma_convert_rel_append(entries.skip(1), root, raw, raw2, e);
            assert(es.skip(1) =~= entries.skip(1).push(e));
        } else {
            if entry_included(e, root) {
                assert(raw2.skip(1).take(raw.skip(1).len() as int) =~= raw.skip(1));
                assert(raw2.skip(1)[raw.skip(1).len() as int] == raw2[raw.len() as int]);
            } else {
                assert(raw2.skip(1) =~= raw.skip(1));
            }
            lemma_convert_rel_append(entries.skip(1), root, raw.skip(1), raw2.skip(1), e);
            assert(es.skip(1) =~= entries.skip(1).push(e));
            assert(raw2[0] == raw[0]);
        }
    }
}

/// The captured items carry exactly the relative paths of the included walk
/// entries: every included entry appears among the items under its
/// root-relative name, and every item's name comes from an included entry
/// whose path is the root, a separator, and that name — so no item refers
/// outside the captured directory.
pub proof fn lemma_capture_render_paths(
    entries: Seq<WalkEntry>,
    root: Seq<char>,
    raw: Seq<RecipeItem>,
    items: Seq<RecipeItem>,
)
    requires
        all_within(entries, root),
        convert_rel(entries, root, raw),
        items == spec_sort_items(raw),
    ensures
        forall|k: int|
            0 <= k < entries.len() && entry_included(#[trigger] entries[k], root)
                ==> some_item_has_name(items, spec_rel(entries[k].path@, root)),
        forall|i: int|
            0 <= i < items.len() ==> name_from_walk(entries, root, spec_name(#[trigger] items[i])),
{
    broadcast use vstd::seq_lib::group_to_multiset_ensures;

    lemma_sort_items_ensures(raw);
    assert forall|k: int|
        0 <= k < entries.len() && entry_included(#[trigger] entries[k], root)
        implies some_item_has_name(items, spec_rel(entries[k].path@, root)) by {
        lemma_convert_rel_entry_to_item(entries, root, raw, k);
        let j = choose|j: int|
            0 <= j < raw.len() && item_matches(#[trigger] raw[j], entries[k], root);
        assert(raw.contains(raw[j]));
        assert(items.to_multiset().count(raw[j]) > 0);
        assert(items.contains(raw[j]));
        let i = choose|i: int| 0 <= i < items.len() && items[i] == raw[j];
        assert(spec_name(items[i]) == spec_rel(entries[k].path@, root));
    }
    assert forall|i: int| 0 <= i < items.len() implies name_from_walk(
        entries,
        root,
        spec_name(#[trigger] items[i]),
    ) by {
        assert(items.contains(items[i]));
        assert(raw.to_multiset().count(items[i]) > 0);
        assert(raw.contains(items[i]));
        let j = choose|j: int| 0 <= j < raw.len() && raw[j] == items[i];
        lemma_convert_rel_item_to_entry(entries, root, raw, j);
        let k = choose|k: int|
            0 <= k < entries.len() && entry_included(#[trigger] entries[k], root) && item_matches(
                raw[j],
                entries[k],
                root,
            );
        assert(within_root(root, entries[k].path@));
        lemma_within_root_decompose(root, entries[k].path@);
        assert(item_matches(items[i], entries[k], root));
        match entries[k].kind {
            EntryKind::File => {
                assert(spec_name(items[i]) == spec_rel(entries[k].path@, root));
            },
            EntryKind::Dir => {
                assert(spec_name(items[i]) == spec_rel(entries[k].path@, root));
            },
            EntryKind::Symlink => {
                assert(false);
            },
        }
        assert(entries[k].path@ == root + "/"@ + spec_name(items[i]));
    }
}

/// Some item of the sequence carries the given name.
pub open spec fn some_item_has_name(items: Seq<RecipeItem>, nm: Seq<char>) -> bool {
    exists|i: int| 0 <= i < items.len() && spec_name(#[trigger] items[i]) == nm
}

/// The name comes from an included walk entry whose path is the root, a
/// separator, and the name itself.
pub open spec fn name_from_walk(entries: Seq<WalkEntry>, root: Seq<char>, nm: Seq<char>) -> bool {
    exists|k: int|
        0 <= k < entries.len() && entry_included(#[trigger] entries[k], root) && entries[k].path@
            == root + "/"@ + nm
}

/// A path inside the root is the root, a separator, and its relative form.
proof fn lemma_within_root_decompose(root: Seq<char>, p: Seq<char>)
    requires
        within_root(root, p),
    ensures
        p == root + "/"@ + spec_rel(p, root),
{
    assert(p =~= root + "/"@ + p.skip(root.len() as int + 1)) by {
        assert(("/"@).len() == 1) by {
            reveal_strlit("/");
        }
        assert forall|x: int| 0 <= x < p.len() implies p[x] == (root + "/"@ + p.skip(
            root.len() as int + 1,
        ))[x] by {
            if x < root.len() + 1 {
                assert((root + "/"@)[x] == p[x]);
            }
        }
    }
}

/// Every included entry has a matching item somewhere in the raw capture.
proof fn lemma_convert_rel_entry_to_item(
    entries: Seq<WalkEntry>,
    root: Seq<char>,
    raw: Seq<RecipeItem>,
    k: int,
)
    requires
        convert_rel(entries, root, raw),
        0 <= k < entries.len(),
        entry_included(entries[k], root),
    ensures
        exists|j: int| 0 <= j < raw.len() && item_matches(#[trigger] raw[j], entries[k], root),
    decreases entries.len(),
{
    if !entry_included(entries[0], root) {
        lemma_convert_rel_entry_to_item(entries.skip(1), root, raw, k - 1);
        let j = choose|j: int|
            0 <= j < raw.len() && item_matches(#[trigger] raw[j], entries.skip(1)[k - 1], root);
        assert(item_matches(raw[j], entries[k], root));
    } else {
        if k == 0 {
            assert(item_matches(raw[0], entries[k], root));
        } else {
            lemma_convert_rel_entry_to_item(entries.skip(1), root, raw.skip(1), k - 1);
            let j = choose|j: int|
                0 <= j < raw.skip(1).len() && item_matches(
                    #[trigger] raw.skip(1)[j],
                    entries.skip(1)[k - 1],
                    root,
                );
            assert(item_matches(raw[j + 1], entries[k], root));
        }
    }
}

/// Every item of the raw capture comes from some included entry.
proof fn lemma_convert_rel_item_to_entry(
    entries: Seq<WalkEntry>,
    root: Seq<char>,
    raw: Seq<RecipeItem>,
    j: int,
)
    requires
        convert_rel(entries, root, raw),
        0 <= j < raw.len(),
    ensures
        exists|k: int|
            0 <= k < entries.len() && entry_included(#[trigger] entries[k], root) && item_matches(
                raw[j],
                entries[k],
                root,
            ),
    decreases entries.len(),
{
    if entries.len() == 0 {
    } else if !entry_included(entries[0], root) {
        lemma_convert_rel_item_to_entry(entries.skip(1), root, raw, j);
        let k = choose|k: int|
            0 <= k < entries.skip(1).len() && entry_included(
                #[trigger] entries.skip(1)[k],
                root,
            ) && item_matches(raw[j], entries.skip(1)[k], root);
        assert(entry_included(entries[k + 1], root));
        assert(item_matches(raw[j], entries[k + 1], root));
    } else {
        if j == 0 {
            assert(entry_included(entries[0], root) && item_matches(raw[0], entries[0], root));
        } else {
            lemma_convert_rel_item_to_entry(entries.skip(1), root, raw.skip(1), j - 1);
            let k = choose|k: int|
                0 <= k < entries.skip(1).len() && entry_included(
                    #[trigger] entries.skip(1)[k],
                    root,
                ) && item_matches(raw.skip(1)[j - 1], entries.skip(1)[k], root);
            assert(entry_included(entries[k + 1], root));
            assert(item_matches(raw[j], entries[k + 1], root));
        }
    }
}

/// Sorts recipe contents by the ordering invariant: directories before
/// files, then lexicographically by name.
pub fn sort_contents(v: Vec<RecipeItem>) -> (r: Vec<RecipeItem>)
    ensures
        r@ == spec_sort_items(v@),
        sorted_items(r@),
        r@.to_multiset() == v@.to_multiset(),
    decreases v@.len(),
{
    proof {
        lemma_sort_items_ensures(v@);
    }
    let mut v = v;
    if v.len() == 0 {
        v
    } else {
        let ghost orig = v@;
        let e = v.remove(0);
        assert(v@ =~= orig.skip(1));
        let rest = sort_contents(v);
        insert_item(e, rest)
    }
}

} // verus!
