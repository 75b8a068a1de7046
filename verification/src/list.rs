//! Listing recipes: the decision of what to show. One recipe can be shown
//! in any output style; all recipes at once in every style but one. The
//! rendering of the chosen style — and the serialised forms — happen in the
//! surrounding program; the tree and plain renderings are computed by the
//! recipe itself.

use vstd::prelude::*;

use crate::cli::List;
use crate::evoke::{find_recipe, has_recipe, spec_find_recipe};
use crate::mkdev_error::Error;
use crate::output_type::OutputType;
use crate::recipe::Recipe;

verus! {

/// What a listing request resolved to.
#[derive(Clone, Copy, Debug, PartialEq, Eq)]
pub enum ListPlan {
    /// Show the recipe at this position of the store in the given style.
    One { output_type: OutputType, index: usize },
    /// Show every recipe in the given style.
    All { output_type: OutputType },
    /// The whole-store listing cannot be rendered in the TOML style; warn
    /// and show nothing.
    WarnTomlAll,
}

/// The output style in effect: the requested one, or the default.
pub open spec fn spec_list_style(args: List) -> OutputType {
    match args.output_type {
        Some(t) => t,
        None => OutputType::Default,
    }
}

/// Validates a listing request: a named recipe must exist and resolves to
/// its position in the store; an unnamed request shows everything, except
/// that the TOML style covers only a single recipe.
pub fn list_recipe(args: &List, user_recipes: &Vec<Recipe>) -> (r: Result<ListPlan, Error>)
    ensures
        args.recipe matches Some(nm) ==> (if has_recipe(user_recipes@, nm@) {
            r matches Ok(p) && p matches ListPlan::One { output_type, index } && output_type
                == spec_list_style(*args) && index == spec_find_recipe(user_recipes@, nm@)
        } else {
            r matches Err(e) && (e matches Error::Invalid(w, egs) && w@ == "recipe"@ && (egs
                matches Some(v) && v@.len() == 1 && v@[0]@ == nm@))
        }),
        args.recipe is None ==> (r matches Ok(p) && (if spec_list_style(*args) is Toml {
            p == ListPlan::WarnTomlAll
        } else {
            p == (ListPlan::All { output_type: spec_list_style(*args) })
        })),
{
    let output_type = match &args.output_type {
        Some(t) => *t,
        None => OutputType::Default,
    };
    match &args.recipe {
        Some(nm) => {
            match find_recipe(user_recipes, nm.as_str()) {
                Some(_) => {
                    let index = find_recipe_index(user_recipes, nm.as_str());
                    Ok(ListPlan::One { output_type, index })
                },
                None => {
                    let mut egs: Vec<String> = Vec::new();
                    egs.push(nm.clone());
                    Err(Error::Invalid(String::from_str("recipe"), Some(egs)))
                },
            }
        },
        None => {
            match output_type {
                OutputType::Toml => Ok(ListPlan::WarnTomlAll),
                _ => Ok(ListPlan::All { output_type }),
            }
        },
    }
}

/// The position of the first stored recipe with the given name.
fn find_recipe_index(rs: &Vec<Recipe>, nm: &str) -> (r: usize)
    requires
        has_recipe(rs@, nm@),
    ensures
        r == spec_find_recipe(rs@, nm@),
        r < rs@.len(),
{
    let n = rs.len();
    let mut i: usize = 0;
    while i < n
        invariant
            n == rs@.len(),
            has_recipe(rs@, nm@),
            i <= n,
            forall|k: int| 0 <= k < i ==> (#[trigger] rs@[k]).name@ != nm@,
        decreases n - i,
    {
        if crate::order::str_eq(rs[i].name.as_str(), nm) {
            proof {
                crate::evoke::lemma_spec_find_recipe(rs@, nm@, i as int);
            }
            return i;
        }
        i += 1;
    }
    proof {
        assert(false);
    }
    0
}

} // verus!
