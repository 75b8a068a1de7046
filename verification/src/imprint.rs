//! Capturing a recipe: the walked contents of a directory become a named,
//! sorted recipe, with the detected languages ordered by prevalence. The
//! walk itself and the language detection report plain values; assembling
//! and validating the recipe happens here.

use vstd::prelude::*;

use crate::cli::Imprint;
use crate::content::{make_contents, WalkEntry};
use crate::evoke::has_recipe;
use crate::lang::Language;
use crate::mkdev_error::Error;
use crate::recipe::Recipe;

verus! {

/// A detected language before conversion: its name, its hex colour if one
/// is known, and in how many files it was seen.
#[derive(Clone, Debug)]
pub struct Detected {
    pub name: String,
    pub colour: Option<String>,
    pub count: u64,
}

/// What a detected language holds, as plain values.
pub open spec fn detected_model(d: Detected) -> (Seq<char>, Option<Seq<char>>, int) {
    (
        d.name@,
        match d.colour {
            Some(h) => Some(h@),
            None => None,
        },
        d.count as int,
    )
}

/// The models of a sequence of detections.
pub open spec fn detected_models(s: Seq<Detected>) -> Seq<(Seq<char>, Option<Seq<char>>, int)> {
    s.map_values(|d: Detected| detected_model(d))
}

/// `e` placed into `s` directly before the first detection seen in
/// strictly fewer files.
pub open spec fn spec_insert_detected(e: Detected, s: Seq<Detected>) -> Seq<Detected>
    decreases s.len(),
{
    if s.len() == 0 {
        seq![e]
    } else if s[0].count >= e.count {
        seq![s[0]] + spec_insert_detected(e, s.skip(1))
    } else {
        seq![e] + s
    }
}

/// Insertion sort of detections by prevalence, most seen first.
pub open spec fn spec_sort_detected(s: Seq<Detected>) -> Seq<Detected>
    decreases s.len(),
{
    if s.len() == 0 {
        Seq::empty()
    } else {
        spec_insert_detected(s[0], spec_sort_detected(s.skip(1)))
    }
}

proof fn lemma_insert_detected_len(e: Detected, s: Seq<Detected>)
    ensures
        spec_insert_detected(e, s).len() == s.len() + 1,
    decreases s.len(),
{
    if s.len() > 0 && s[0].count >= e.count {
        lemma_insert_detected_len(e, s.skip(1));
    }
}

/// Sorting the detections keeps their number.
pub proof fn lemma_sort_detected_len(s: Seq<Detected>)
    ensures
        spec_sort_detected(s).len() == s.len(),
    decreases s.len(),
{
    if s.len() > 0 {
        lemma_sort_detected_len(s.skip(1));
        lemma_insert_detected_len(s[0], spec_sort_detected(s.skip(1)));
    }
}

fn insert_detected(e: Detected, v: Vec<Detected>) -> (r: Vec<Detected>)
    ensures
        r@ == spec_insert_detected(e, v@),
    decreases v@.len(),
{
    let ghost orig = v@;
    let mut v = v;
    if v.len() == 0 {
        v.push(e);
        assert(v@ =~= seq![e]);
        v
    } else {
        if v[0].count >= e.count {
            let head = v.remove(0);
            assert(v@ =~= orig.skip(1));
            let mut rest = insert_detected(e, v);
            rest.insert(0, head);
            assert(rest@ =~= seq![head] + spec_insert_detected(e, orig.skip(1)));
            rest
        } else {
            let mut v = v;
            v.insert(0, e);
            assert(v@ =~= seq![e] + orig);
            v
        }
    }
}

/// Sorts the detected languages by prevalence, most seen first.
pub fn sort_detected(v: Vec<Detected>) -> (r: Vec<Detected>)
    ensures
        r@ == spec_sort_detected(v@),
    decreases v@.len(),
{
    let ghost orig = v@;
    let mut v = v;
    if v.len() == 0 {
        assert(v@ =~= spec_sort_detected(orig));
        v
    } else {
        let e = v.remove(0);
        assert(v@ =~= orig.skip(1));
        let rest = sort_detected(v);
        insert_detected(e, rest)
    }
}

/// The structured language of one detection.
pub open spec fn lang_matches_detected(d: Detected, l: Language) -> bool {
    l.name@ == d.name@ && (match d.colour {
        None => l.colour is None,
        Some(h) => if crate::lang::spec_hex_colour(h@) {
            l.colour matches Some(c) && c.0 == 16 * crate::lang::hex_val(h@[1])
                + crate::lang::hex_val(h@[2]) && c.1 == 16 * crate::lang::hex_val(h@[3])
                + crate::lang::hex_val(h@[4]) && c.2 == 16 * crate::lang::hex_val(h@[5])
                + crate::lang::hex_val(h@[6])
        } else {
            l.colour is None
        },
    })
}

impl Recipe {
    /// Assembles a recipe from a filesystem walk of the captured root and
    /// the languages detected there: the contents are rewritten relative to
    /// the root and sorted, the languages ordered by prevalence, and a
    /// missing description becomes empty. Fails when a walked path lies
    /// outside the root.
    pub fn imprint(
        name: String,
        description: Option<String>,
        entries: Vec<WalkEntry>,
        root: &str,
        detected: Vec<Detected>,
    ) -> (r: Result<Recipe, Error>)
        ensures
            r is Ok <==> crate::content::all_within(entries@, root@),
            r matches Ok(rec) ==> rec.name == name && (match description {
                Some(d) => rec.description == d,
                None => rec.description@.len() == 0,
            }) && rec.languages@.len() == detected@.len() && (forall|k: int|
                0 <= k < detected@.len() ==> lang_matches_detected(
                    spec_sort_detected(detected@)[k],
                    #[trigger] rec.languages@[k],
                )) && crate::content::sorted_items(rec.contents@) && (exists|
                raw: Seq<crate::content::RecipeItem>,
            |
                #[trigger] crate::content::convert_rel(entries@, root@, raw) && rec.contents@
                    == crate::content::spec_sort_items(raw)),
    {
        let contents = match make_contents(entries, root) {
            Ok(c) => c,
            Err(e) => {
                return Err(e);
            },
        };
        let description = match description {
            Some(d) => d,
            None => String::new(),
        };
        proof {
            lemma_sort_detected_len(detected@);
        }
        let ranked = sort_detected(detected);
        let mut languages: Vec<Language> = Vec::new();
        let n = ranked.len();
        let mut k: usize = 0;
        while k < n
            invariant
                n == ranked@.len(),
                k <= n,
                languages@.len() == k,
                forall|x: int|
                    0 <= x < k ==> lang_matches_detected(
                        ranked@[x],
                        #[trigger] languages@[x],
                    ),
            decreases n - k,
        {
            let d = &ranked[k];
            let colour = match &d.colour {
                Some(h) => Some(h.clone()),
                None => None,
            };
            languages.push(Language::from_detected(d.name.clone(), colour));
            k += 1;
        }
        Ok(Recipe { name, description, languages, contents })
    }
}

/// What a capture request resolved to, once the recipe is assembled.
#[derive(Clone, Debug, PartialEq, Eq)]
pub enum ImprintPlan {
    /// Write the recipe as a Nix expression to this file instead of saving.
    WriteNix { path: String },
    /// Save the recipe under this file of the store.
    Save { file: String },
}

/// Validates a capture request: writing to a Nix file is always allowed;
/// saving over an existing recipe of the same name is an overwrite conflict
/// unless warnings are suppressed.
pub fn imprint_recipe(args: &Imprint, new: &Recipe, user_recipes: &Vec<Recipe>) -> (r: Result<
    ImprintPlan,
    Error,
>)
    ensures
        args.to_nix matches Some(p) ==> (r matches Ok(pl) && pl matches ImprintPlan::WriteNix {
            path,
        } && path@ == p@),
        args.to_nix is None && has_recipe(user_recipes@, new.name@) && !args.suppress_warnings ==> (
        r matches Err(e) && e matches Error::DestructionWarning(w) && w@ == new.name@),
        args.to_nix is None && (!has_recipe(user_recipes@, new.name@) || args.suppress_warnings)
            ==> (r matches Ok(pl) && pl matches ImprintPlan::Save { file } && file@ == new.name@
            + ".toml"@),
{
    match &args.to_nix {
        Some(p) => Ok(ImprintPlan::WriteNix { path: p.clone() }),
        None => {
            let destructive = crate::evoke::find_recipe(user_recipes, new.name.as_str()).is_some();
            if destructive && !args.suppress_warnings {
                Err(Error::DestructionWarning(new.name.clone()))
            } else {
                Ok(ImprintPlan::Save { file: new.file_name() })
            }
        },
    }
}

} // verus!
