//! The versioned recipe schemas and the migration that upgrades any stored
//! shape to the current one. The oldest schema stored contents as a true
//! nested tree (a directory held its children) and languages as bare
//! strings; the current schema flattens directories into path-prefixed
//! entries and carries structured language/colour pairs. Deserialisation
//! tries the newest shape first and falls back to the oldest, converting.

use vstd::prelude::*;

use crate::content::{sort_contents, sorted_items, spec_sort_items, File, RecipeItem};
use crate::lang::{spec_coloured, spec_coloured_b, spec_coloured_g, spec_coloured_name,
    spec_coloured_r, Language};
use crate::recipe::Recipe;

verus! {

/// A recipe as the oldest schema stored it.
pub struct RecipeV1 {
    pub name: String,
    pub description: String,
    pub languages: Vec<String>,
    pub contents: Vec<ContentV1>,
}

/// One entry of the oldest schema: a file, or a directory holding its
/// children.
pub enum ContentV1 {
    File(FileV1),
    Directory(DirectoryV1),
}

/// A file of the oldest schema: its name and full text content.
#[derive(Clone, Debug, PartialEq, Eq)]
pub struct FileV1 {
    pub name: String,
    pub content: String,
}

/// A directory of the oldest schema, with its nested children.
pub struct DirectoryV1 {
    pub name: String,
    pub files: Vec<ContentV1>,
}

/// Either known schema, newest first.
pub enum RecipeVersions {
    V2(Recipe),
    V1(RecipeV1),
}

/// What an item of the current schema holds, as plain values: its kind
/// rank, its full relative path, and — for a file — its content.
pub open spec fn item_model(it: RecipeItem) -> (int, Seq<char>, Seq<char>) {
    match it {
        RecipeItem::File(f) => (1int, f.name@, f.content@),
        RecipeItem::Directory(d) => (0int, d@, Seq::<char>::empty()),
    }
}

/// The models of a sequence of items.
pub open spec fn item_models(s: Seq<RecipeItem>) -> Seq<(int, Seq<char>, Seq<char>)> {
    s.map_values(|it: RecipeItem| item_model(it))
}

/// The flattening of the oldest schema's nested entries under an
/// accumulated path prefix: a file becomes one entry under the full path;
/// a directory becomes one entry for itself followed by its flattened
/// children, each under the directory's path plus a separator.
pub open spec fn spec_flatten_v1(prefix: Seq<char>, items: Seq<ContentV1>) -> Seq<
    (int, Seq<char>, Seq<char>),
>
    decreases items,
{
    if items.len() == 0 {
        Seq::empty()
    } else {
        spec_flatten_one(prefix, items[0]) + spec_flatten_v1(prefix, items.skip(1))
    }
}

/// The flattening of one nested entry.
pub open spec fn spec_flatten_one(prefix: Seq<char>, item: ContentV1) -> Seq<
    (int, Seq<char>, Seq<char>),
>
    decreases item,
{
    match item {
        ContentV1::File(f) => seq![(1int, prefix + f.name@, f.content@)],
        ContentV1::Directory(d) => seq![(0int, prefix + d.name@, Seq::<char>::empty())]
            + spec_flatten_v1(prefix + d.name@ + "/"@, d.files@),
    }
}

/// Flattening a longer prefix of the entries extends the flattened models.
proof fn lemma_flatten_push(prefix: Seq<char>, items: Seq<ContentV1>, e: ContentV1)
    ensures
        spec_flatten_v1(prefix, items.push(e)) == spec_flatten_v1(prefix, items)
            + spec_flatten_one(prefix, e),
    decreases items.len(),
{
    if items.len() == 0 {
        assert(items.push(e).skip(1) =~= Seq::<ContentV1>::empty());
        assert(items.push(e)[0] == e);
        assert(spec_flatten_v1(prefix, Seq::<ContentV1>::empty()) =~~= Seq::empty());
        assert(spec_flatten_v1(prefix, items) =~~= Seq::empty());
        assert(spec_flatten_v1(prefix, items.push(e)) =~~= spec_flatten_v1(prefix, items)
            + spec_flatten_one(prefix, e));
    } else {
        assert(items.push(e).skip(1) =~= items.skip(1).push(e));
        lemma_flatten_push(prefix, items.skip(1), e);
        assert(items.push(e)[0] == items[0]);
        assert(spec_flatten_v1(prefix, items.push(e)) =~~= spec_flatten_v1(prefix, items)
            + spec_flatten_one(prefix, e));
    }
}

/// Flattens the oldest schema's nested entries into current-schema items,
/// accumulating the path prefix.
pub fn flatten_v1_recursive(prefix: &str, old: &Vec<ContentV1>) -> (r: Vec<RecipeItem>)
    ensures
        item_models(r@) == spec_flatten_v1(prefix@, old@),
    decreases old@,
{
    let mut out: Vec<RecipeItem> = Vec::new();
    let n = old.len();
    let mut i: usize = 0;
    while i < n
        invariant
            n == old@.len(),
            i <= n,
            item_models(out@) == spec_flatten_v1(prefix@, old@.take(i as int)),
        decreases n - i,
    {
        let ghost pre = out@;
        match &old[i] {
            ContentV1::File(f) => {
                let mut name = prefix.to_owned();
                name.append(f.name.as_str());
                out.push(RecipeItem::File(File { name, content: f.content.clone() }));
                assert(item_models(out@) =~= item_models(pre) + spec_flatten_one(
                    prefix@,
                    old@[i as int],
                ));
            },
            ContentV1::Directory(d) => {
                let mut dir_name = prefix.to_owned();
                dir_name.append(d.name.as_str());
                let mut sub_prefix = dir_name.clone();
                sub_prefix.append("/");
                out.push(RecipeItem::Directory(dir_name));
                let ghost mid = out@;
                let mut sub = flatten_v1_recursive(sub_prefix.as_str(), &d.files);
                let ghost subv = sub@;
                out.append(&mut sub);
                assert(out@ =~= mid + subv);
                proof {
                    let om = item_models(out@);
                    let goal = item_models(pre) + spec_flatten_one(prefix@, old@[i as int]);
                    assert forall|k: int| 0 <= k < om.len() implies om[k] == goal[k] by {
                        if k < pre.len() {
                        } else if k == pre.len() {
                        } else {
                            assert(out@[k] == subv[k - pre.len() - 1]);
                            assert(item_models(subv)[k - pre.len() - 1] == spec_flatten_v1(
                                sub_prefix@,
                                d.files@,
                            )[k - pre.len() - 1]);
                        }
                    }
                    assert(om =~= goal);
                }
            },
        }
        proof {
            lemma_flatten_push(prefix@, old@.take(i as int), old@[i as int]);
            assert(old@.take(i as int).push(old@[i as int]) =~= old@.take(i + 1));
        }
        i += 1;
    }
    assert(old@.take(n as int) =~= old@);
    out
}

/// The structured language that one stored language string migrates to.
pub open spec fn lang_matches_stored(stored: Seq<char>, l: Language) -> bool {
    if spec_coloured(stored) {
        l.name@ == spec_coloured_name(stored) && (l.colour matches Some(c) && c.0
            == spec_coloured_r(stored) && c.1 == spec_coloured_g(stored) && c.2
            == spec_coloured_b(stored))
    } else {
        l.name@ == stored && l.colour is None
    }
}

impl Recipe {
    /// Normalises either stored schema to the current shape. The newest is
    /// taken as it is; the oldest has its bare language strings parsed into
    /// structured languages and its nested contents flattened into the
    /// path-prefixed, sorted representation.
    pub fn from_versions(value: RecipeVersions) -> (r: Recipe)
        ensures
            value matches RecipeVersions::V2(v2) ==> r == v2,
            value matches RecipeVersions::V1(v1) ==> r.name == v1.name && r.description
                == v1.description && r.languages@.len() == v1.languages@.len() && (forall|k: int|
                0 <= k < v1.languages@.len() ==> lang_matches_stored(
                    v1.languages@[k]@,
                    #[trigger] r.languages@[k],
                )) && (exists|raw: Seq<RecipeItem>|
                item_models(raw) == spec_flatten_v1(Seq::<char>::empty(), v1.contents@)
                    && r.contents@ == #[trigger] spec_sort_items(raw)),
    {
        match value {
            RecipeVersions::V2(r) => r,
            RecipeVersions::V1(r1) => {
                let mut languages: Vec<Language> = Vec::new();
                let n = r1.languages.len();
                let mut k: usize = 0;
                while k < n
                    invariant
                        n == r1.languages@.len(),
                        k <= n,
                        languages@.len() == k,
                        forall|x: int|
                            0 <= x < k ==> lang_matches_stored(
                                r1.languages@[x]@,
                                #[trigger] languages@[x],
                            ),
                    decreases n - k,
                {
                    languages.push(Language::from_stored(r1.languages[k].as_str()));
                    k += 1;
                }
                let raw = flatten_v1_recursive("", &r1.contents);
                proof {
                    reveal_strlit("");
                    assert(""@ =~= Seq::<char>::empty());
                }
                let contents = sort_contents(raw);
                Recipe { name: r1.name, description: r1.description, languages, contents }
            },
        }
    }
}

/// The migration of the oldest schema keeps exactly the flattened entries:
/// every file of the nested tree appears in the migrated contents under its
/// accumulated path with its content, every directory under its accumulated
/// path, and nothing else appears — the shapes differ only in
/// representation and ordering, and the result is sorted.
pub proof fn lemma_migration_round_trip(v1: RecipeV1, r: Recipe, raw: Seq<RecipeItem>)
    requires
        item_models(raw) == spec_flatten_v1(Seq::<char>::empty(), v1.contents@),
        r.contents@ == spec_sort_items(raw),
    ensures
        sorted_items(r.contents@),
        item_models(r.contents@).to_multiset() == spec_flatten_v1(
            Seq::<char>::empty(),
            v1.contents@,
        ).to_multiset(),
{
    crate::content::lemma_sort_items_invariant(raw);
    lemma_map_models_multiset(r.contents@, raw);
}

/// Two item sequences with the same entries have the same entry models.
proof fn lemma_map_models_multiset(s: Seq<RecipeItem>, t: Seq<RecipeItem>)
    requires
        s.to_multiset() == t.to_multiset(),
    ensures
        item_models(s).to_multiset() == item_models(t).to_multiset(),
    decreases s.len(),
{
    broadcast use vstd::seq_lib::group_to_multiset_ensures;
    broadcast use vstd::multiset::group_multiset_axioms;

    vstd::seq_lib::to_multiset_len(s);
    vstd::seq_lib::to_multiset_len(t);
    if s.len() == 0 {
        assert(t.len() == 0);
        assert(item_models(s).to_multiset() =~= item_models(t).to_multiset());
    } else {
        let e = s[0];
        assert(s.contains(e));
        assert(t.to_multiset().count(e) > 0);
        assert(t.contains(e));
        let i = choose|i: int| 0 <= i < t.len() && t[i] == e;
        assert(s.remove(0).to_multiset() =~= t.remove(i).to_multiset()) by {
            assert(s.remove(0).to_multiset() == s.to_multiset().remove(e));
            assert(t.remove(i).to_multiset() == t.to_multiset().remove(e));
        }
        lemma_map_models_multiset(s.remove(0), t.remove(i));
        let me = item_model(e);
        let ms = item_models(s).to_multiset();
        let mt = item_models(t).to_multiset();
        assert(item_models(s.remove(0)) =~= item_models(s).remove(0));
        assert(item_models(t.remove(i)) =~= item_models(t).remove(i));
        assert(item_models(s)[0] == me);
        assert(item_models(t)[i] == me);
        assert(item_models(s).remove(0).to_multiset() == ms.remove(me));
        assert(item_models(t).remove(i).to_multiset() == mt.remove(me));
        assert(ms.remove(me) == mt.remove(me));
        assert(item_models(s).contains(me));
        assert(ms.count(me) > 0);
        assert(item_models(t).contains(me));
        assert(mt.count(me) > 0);
        assert forall|x: (int, Seq<char>, Seq<char>)| ms.count(x) == mt.count(x) by {
            if x == me {
                assert(ms.remove(me).count(me) == ms.count(me) - 1);
                assert(mt.remove(me).count(me) == mt.count(me) - 1);
            } else {
                assert(ms.remove(me).count(x) == ms.count(x));
                assert(mt.remove(me).count(x) == mt.count(x));
            }
        }
        assert(ms =~= mt);
    }
}

} // verus!
