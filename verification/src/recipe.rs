//! A recipe: a named, reusable template of a captured directory. Its
//! contents are the flattened, sorted sequence of [`RecipeItem`] entries;
//! the languages record what was detected in the captured tree, most
//! prevalent first.

use vstd::prelude::*;

use crate::content::{spec_name, RecipeItem};
use crate::lang::Language;
use crate::order::{lex_le, str_le};

verus! {

/// A named template: description, detected languages, and the flattened
/// contents of the captured directory.
#[derive(Clone, Debug)]
pub struct Recipe {
    pub name: String,
    pub description: String,
    pub languages: Vec<Language>,
    pub contents: Vec<RecipeItem>,
}

/// The views of a sequence of strings.
pub open spec fn strs_view(v: Seq<String>) -> Seq<Seq<char>> {
    Seq::new(v.len(), |i: int| v[i]@)
}

/// `a` sorts strictly before `b` lexicographically.
pub open spec fn str_lt(a: Seq<char>, b: Seq<char>) -> bool {
    lex_le(a, b) && !lex_le(b, a)
}

/// `e` placed into `s` directly before the first string it sorts strictly
/// before.
pub open spec fn spec_insert_str(e: Seq<char>, s: Seq<Seq<char>>) -> Seq<Seq<char>>
    decreases s.len(),
{
    if s.len() == 0 {
        seq![e]
    } else if str_lt(s[0], e) {
        seq![s[0]] + spec_insert_str(e, s.skip(1))
    } else {
        seq![e] + s
    }
}

/// Insertion sort of strings, lexicographically.
pub open spec fn spec_sort_strs(s: Seq<Seq<char>>) -> Seq<Seq<char>>
    decreases s.len(),
{
    if s.len() == 0 {
        Seq::empty()
    } else {
        spec_insert_str(s[0], spec_sort_strs(s.skip(1)))
    }
}

/// Places `e` into the sorted string sequence `v` at its ordered position.
fn insert_str(e: String, v: Vec<String>) -> (r: Vec<String>)
    ensures
        strs_view(r@) == spec_insert_str(e@, strs_view(v@)),
    decreases v@.len(),
{
    let ghost orig = strs_view(v@);
    let mut v = v;
    if v.len() == 0 {
        v.push(e);
        assert(strs_view(v@) =~= seq![e@]);
        v
    } else {
        let lt = str_le(v[0].as_str(), e.as_str()) && !str_le(e.as_str(), v[0].as_str());
        if lt {
            let head = v.remove(0);
            assert(strs_view(v@) =~= orig.skip(1));
            let mut rest = insert_str(e, v);
            rest.insert(0, head);
            assert(strs_view(rest@) =~= seq![head@] + spec_insert_str(e@, orig.skip(1)));
            rest
        } else {
            let mut v = v;
            v.insert(0, e);
            assert(strs_view(v@) =~= seq![e@] + orig);
            v
        }
    }
}

/// Sorts strings lexicographically.
fn sort_strs(v: Vec<String>) -> (r: Vec<String>)
    ensures
        strs_view(r@) == spec_sort_strs(strs_view(v@)),
    decreases v@.len(),
{
    let ghost orig = strs_view(v@);
    let mut v = v;
    if v.len() == 0 {
        assert(strs_view(v@) =~= spec_sort_strs(orig));
        v
    } else {
        let e = v.remove(0);
        assert(strs_view(v@) =~= orig.skip(1));
        let rest = sort_strs(v);
        let r = insert_str(e, rest);
        assert(strs_view(r@) == spec_insert_str(e@, spec_sort_strs(orig.skip(1))));
        r
    }
}

/// The names of a sequence of recipe items.
pub open spec fn item_names(s: Seq<RecipeItem>) -> Seq<Seq<char>> {
    s.map_values(|it: RecipeItem| spec_name(it))
}

proof fn lemma_insert_str_multiset(e: Seq<char>, s: Seq<Seq<char>>)
    ensures
        spec_insert_str(e, s).to_multiset() == s.to_multiset().insert(e),
        spec_insert_str(e, s).len() == s.len() + 1,
    decreases s.len(),
{
    broadcast use vstd::seq_lib::group_to_multiset_ensures;

    if s.len() == 0 {
        assert(seq![e] =~= Seq::<Seq<char>>::empty().insert(0, e));
        assert(spec_insert_str(e, s).to_multiset() =~= s.to_multiset().insert(e));
    } else if str_lt(s[0], e) {
        lemma_insert_str_multiset(e, s.skip(1));
        let rest = spec_insert_str(e, s.skip(1));
        assert(seq![s[0]] + rest =~= rest.insert(0, s[0]));
        assert(s =~= s.skip(1).insert(0, s[0]));
        assert(spec_insert_str(e, s).to_multiset() =~= s.to_multiset().insert(e));
    } else {
        assert(seq![e] + s =~= s.insert(0, e));
        assert(spec_insert_str(e, s).to_multiset() =~= s.to_multiset().insert(e));
    }
}

/// The plain listing shows exactly the entries' names: sorting them keeps
/// them all, so the rendered path list enumerates the same set of relative
/// paths as the contents themselves.
pub proof fn lemma_sort_strs_names(s: Seq<Seq<char>>)
    ensures
        spec_sort_strs(s).to_multiset() == s.to_multiset(),
        forall|nm: Seq<char>| spec_sort_strs(s).contains(nm) <==> s.contains(nm),
    decreases s.len(),
{
    broadcast use vstd::seq_lib::group_to_multiset_ensures;

    if s.len() == 0 {
        assert(spec_sort_strs(s).to_multiset() =~= s.to_multiset());
    } else {
        lemma_sort_strs_names(s.skip(1));
        lemma_insert_str_multiset(s[0], spec_sort_strs(s.skip(1)));
        assert(s =~= s.skip(1).insert(0, s[0]));
        assert(spec_sort_strs(s).to_multiset() =~= s.to_multiset());
    }
    assert forall|nm: Seq<char>| spec_sort_strs(s).contains(nm) <==> s.contains(nm) by {
        assert(s.contains(nm) <==> s.to_multiset().count(nm) > 0);
        assert(spec_sort_strs(s).contains(nm) <==> spec_sort_strs(s).to_multiset().count(nm) > 0);
    }
}

impl Recipe {
    /// The name of the file this recipe is stored under.
    pub fn file_name(&self) -> (r: String)
        ensures
            r@ == self.name@ + ".toml"@,
    {
        let mut r = self.name.clone();
        r.append(".toml");
        r
    }

    /// Display the contents as a tree: the recipe's name on its own line,
    /// then the rendered tree of the contents.
    pub fn display_contents(&self) -> (r: String)
        ensures
            exists|tcs: Seq<crate::tree::TreeContent>|
                #[trigger] crate::tree::built_from(self.contents@, tcs) && r@ == self.name@ + "\n"@
                    + crate::tree::spec_render(tcs, Seq::<char>::empty()),
    {
        let mut out = self.name.clone();
        out.append("\n");
        let tree = crate::tree::repr_tree(&self.contents);
        out.append(tree.as_str());
        out
    }

    /// Display all file names associated with the recipe: every entry's
    /// relative path, sorted lexicographically, joined by newlines.
    pub fn display_contents_plain(&self) -> (r: String)
        ensures
            r@ == crate::mkdev_error::spec_join_lines(spec_sort_strs(item_names(self.contents@))),
    {
        let mut names: Vec<String> = Vec::new();
        let n = self.contents.len();
        let mut i: usize = 0;
        while i < n
            invariant
                n == self.contents@.len(),
                i <= n,
                names@.len() == i,
                strs_view(names@) == item_names(self.contents@.take(i as int)),
        decreases n - i,
        {
            let nm = self.contents[i].name();
            names.push(nm);
            proof {
                let lhs = strs_view(names@);
                let rhs = item_names(self.contents@.take(i + 1));
                assert forall|k: int| 0 <= k < i + 1 implies lhs[k] == rhs[k] by {
                    if k < i {
                        assert(lhs[k] == item_names(self.contents@.take(i as int))[k]);
                        assert(self.contents@.take(i as int)[k] == self.contents@[k]);
                    }
                    assert(self.contents@.take(i + 1)[k] == self.contents@[k]);
                }
                assert(lhs =~= rhs);
            }
            i += 1;
        }
        assert(self.contents@.take(n as int) =~= self.contents@);
        assert(strs_view(names@) =~~= item_names(self.contents@));
        let sorted = sort_strs(names);
        assert(sorted.deep_view() =~~= strs_view(sorted@));
        crate::mkdev_error::join_lines(&sorted)
    }
}

} // verus!
