//! Deleting a recipe: the store holds one file per recipe, so deletion is
//! the removal of that file. The decision — which file, and whether the
//! request is valid — is made here; the surrounding program removes the
//! file.

use vstd::prelude::*;

use crate::cli::Delete;
use crate::evoke::{find_recipe, has_recipe};
use crate::mkdev_error::Error;
use crate::recipe::Recipe;

verus! {

/// Validates a deletion request: when the named recipe exists, the name of
/// the store file to remove; when it does not, the invalid-recipe error
/// naming it.
pub fn delete_recipe(args: &Delete, user_recipes: &Vec<Recipe>) -> (r: Result<String, Error>)
    ensures
        has_recipe(user_recipes@, args.recipe@) ==> (r matches Ok(file) && file@ == args.recipe@
            + ".toml"@),
        !has_recipe(user_recipes@, args.recipe@) ==> (r matches Err(e) && (e matches Error::Invalid(
            w,
            egs,
        ) && w@ == "recipe"@ && (egs matches Some(v) && v@.len() == 1 && v@[0]@ == args.recipe@))),
{
    match find_recipe(user_recipes, args.recipe.as_str()) {
        Some(rec) => Ok(rec.file_name()),
        None => {
            let mut egs: Vec<String> = Vec::new();
            egs.push(args.recipe.clone());
            Err(Error::Invalid(String::from_str("recipe"), Some(egs)))
        },
    }
}

} // verus!
