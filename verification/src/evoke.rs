//! The build engine. Building a recipe is planned here as a sequence of
//! steps — create a directory, write a file — computed from the recipe's
//! sorted contents with every name and file body run through the
//! substitution engine. The surrounding program executes the steps in
//! order; because directories sort before files, a directory always exists
//! before anything beneath it is written. Whether an existing file may be
//! replaced is decided here as well.

use vstd::prelude::*;

use crate::cli::Evoke;
use crate::config::Config;
use crate::content::{spec_name, RecipeItem};
use crate::mkdev_error::Error;
use crate::order::str_eq;
use crate::recipe::Recipe;
use crate::subs::{deterministic_text, spec_sub_det, spec_sub_outs, Replacer};

verus! {

/// One step of materialising a recipe under the destination root.
#[derive(Clone, Debug, PartialEq, Eq)]
pub enum BuildStep {
    /// Create the directory at the path, if it is not already there.
    MkDir { path: String },
    /// Write the file at the path with the given content.
    PutFile { path: String, content: String },
}

/// What a step holds, as plain values: its kind rank, its path, and — for
/// a file — its content.
pub open spec fn step_model(s: BuildStep) -> (int, Seq<char>, Seq<char>) {
    match s {
        BuildStep::MkDir { path } => (0int, path@, Seq::<char>::empty()),
        BuildStep::PutFile { path, content } => (1int, path@, content@),
    }
}

/// The models of a sequence of steps.
pub open spec fn step_models(s: Seq<BuildStep>) -> Seq<(int, Seq<char>, Seq<char>)> {
    s.map_values(|st: BuildStep| step_model(st))
}

/// The step that one recipe item plans to, under some shell outputs: a
/// directory becomes a directory creation at the substituted name under the
/// root; a file becomes a file write with both its name and its content
/// substituted.
pub open spec fn step_rel(
    pairs: Seq<(Seq<char>, Seq<char>)>,
    dir: Seq<char>,
    name: Seq<char>,
    item: RecipeItem,
    st: BuildStep,
) -> bool {
    match item {
        RecipeItem::Directory(d) => exists|outs: Seq<Seq<char>>|
            step_model(st) == (0int, dir + "/"@ + #[trigger] spec_sub_outs(
                pairs,
                d@,
                name,
                dir,
                outs,
            ), Seq::<char>::empty()),
        RecipeItem::File(f) => exists|outs: Seq<Seq<char>>, outs2: Seq<Seq<char>>|
            step_model(st) == (1int, dir + "/"@ + #[trigger] spec_sub_outs(
                pairs,
                f.name@,
                name,
                dir,
                outs,
            ), #[trigger] spec_sub_outs(pairs, f.content@, name, dir, outs2)),
    }
}

/// The plan of one recipe: the destination root first, then one step per
/// item, in order.
pub open spec fn plan_rel(
    pairs: Seq<(Seq<char>, Seq<char>)>,
    dir: Seq<char>,
    name: Seq<char>,
    items: Seq<RecipeItem>,
    steps: Seq<BuildStep>,
) -> bool {
    steps.len() == 1 + items.len() && step_model(steps[0]) == (
        0int,
        dir,
        Seq::<char>::empty(),
    ) && forall|i: int|
        0 <= i < items.len() ==> step_rel(pairs, dir, name, items[i], #[trigger] steps[i + 1])
}

/// Every name and file body of the recipe resolves through builtins alone,
/// so its plan depends on nothing outside the arguments.
pub open spec fn deterministic_items(
    pairs: Seq<(Seq<char>, Seq<char>)>,
    items: Seq<RecipeItem>,
) -> bool {
    forall|i: int|
        0 <= i < items.len() ==> deterministic_text(pairs, spec_name(#[trigger] items[i]))
            && (items[i] matches RecipeItem::File(f) ==> deterministic_text(pairs, f.content@))
}

/// The pinned step model of one item of a deterministic recipe.
pub open spec fn spec_step_det(
    pairs: Seq<(Seq<char>, Seq<char>)>,
    dir: Seq<char>,
    name: Seq<char>,
    item: RecipeItem,
) -> (int, Seq<char>, Seq<char>) {
    match item {
        RecipeItem::Directory(d) => (
            0int,
            dir + "/"@ + spec_sub_det(pairs, d@, name, dir),
            Seq::<char>::empty(),
        ),
        RecipeItem::File(f) => (
            1int,
            dir + "/"@ + spec_sub_det(pairs, f.name@, name, dir),
            spec_sub_det(pairs, f.content@, name, dir),
        ),
    }
}

/// Building is deterministic: any two plans of the same recipe into the
/// same destination under the same evocation name, produced by runs whose
/// substitutions all resolve through builtins, consist of identical steps.
pub proof fn lemma_build_deterministic(
    pairs: Seq<(Seq<char>, Seq<char>)>,
    dir: Seq<char>,
    name: Seq<char>,
    items: Seq<RecipeItem>,
    s1: Seq<BuildStep>,
    s2: Seq<BuildStep>,
)
    requires
        deterministic_items(pairs, items),
        plan_rel(pairs, dir, name, items, s1),
        plan_rel(pairs, dir, name, items, s2),
    ensures
        step_models(s1) == step_models(s2),
{
    assert forall|k: int| 0 <= k < s1.len() implies step_models(s1)[k] == step_models(s2)[k] by {
        if k > 0 {
            assert(step_rel(pairs, dir, name, items[k - 1], s1[(k - 1) + 1]));
            assert(step_rel(pairs, dir, name, items[k - 1], s2[(k - 1) + 1]));
            lemma_step_det(pairs, dir, name, items[k - 1], s1[k]);
            lemma_step_det(pairs, dir, name, items[k - 1], s2[k]);
        }
    }
    assert(step_models(s1) =~= step_models(s2));
}

/// One step of a deterministic item is pinned.
proof fn lemma_step_det(
    pairs: Seq<(Seq<char>, Seq<char>)>,
    dir: Seq<char>,
    name: Seq<char>,
    item: RecipeItem,
    st: BuildStep,
)
    requires
        step_rel(pairs, dir, name, item, st),
        deterministic_text(pairs, spec_name(item)),
        item matches RecipeItem::File(f) ==> deterministic_text(pairs, f.content@),
    ensures
        step_model(st) == spec_step_det(pairs, dir, name, item),
{
    match item {
        RecipeItem::Directory(d) => {
            let outs = choose|outs: Seq<Seq<char>>|
                step_model(st) == (0int, dir + "/"@ + #[trigger] spec_sub_outs(
                    pairs,
                    d@,
                    name,
                    dir,
                    outs,
                ), Seq::<char>::empty());
            crate::subs::lemma_sub_outs_deterministic(pairs, d@, name, dir, outs);
        },
        RecipeItem::File(f) => {
            let (outs, outs2) = choose|outs: Seq<Seq<char>>, outs2: Seq<Seq<char>>|
                step_model(st) == (1int, dir + "/"@ + #[trigger] spec_sub_outs(
                    pairs,
                    f.name@,
                    name,
                    dir,
                    outs,
                ), #[trigger] spec_sub_outs(pairs, f.content@, name, dir, outs2));
            crate::subs::lemma_sub_outs_deterministic(pairs, f.name@, name, dir, outs);
            crate::subs::lemma_sub_outs_deterministic(pairs, f.content@, name, dir, outs2);
        },
    }
}

/// Decides whether a file about to be written may replace what is already
/// at its path: a collision is an overwrite conflict unless the caller
/// suppressed the protection. On a conflict the pre-existing file is left
/// untouched, since the caller writes only on `Ok`.
pub fn decide_overwrite(exists_already: bool, suppress: bool, path: &str) -> (r: Result<
    (),
    Error,
>)
    ensures
        r is Err <==> exists_already && !suppress,
        r matches Err(e) ==> (e matches Error::DestructionWarning(p) && p@ == path@),
{
    if exists_already && !suppress {
        Err(Error::DestructionWarning(path.to_owned()))
    } else {
        Ok(())
    }
}

/// Plans the build of one recipe's contents into the destination root:
/// ensure the root exists, then — per item, in order — create the
/// substituted directory or write the substituted file.
pub fn plan_build(dir: &str, contents: &Vec<RecipeItem>, name: &str, re: &Replacer) -> (r: Vec<
    BuildStep,
>)
    ensures
        plan_rel(re.view_pairs(), dir@, name@, contents@, r@),
{
    let mut steps: Vec<BuildStep> = Vec::new();
    steps.push(BuildStep::MkDir { path: dir.to_owned() });
    let n = contents.len();
    let mut i: usize = 0;
    while i < n
        invariant
            n == contents@.len(),
            i <= n,
            steps@.len() == 1 + i,
            step_model(steps@[0]) == (0int, dir@, Seq::<char>::empty()),
            forall|k: int|
                0 <= k < i ==> step_rel(re.view_pairs(), dir@, name@, contents@[k], #[trigger] steps@[
                k + 1]),
        decreases n - i,
    {
        let item = &contents[i];
        let item_name = item.name();
        let subbed = re.sub(item_name.as_str(), name, dir);
        let mut path = dir.to_owned();
        path.append("/");
        path.append(subbed.as_str());
        match item {
            RecipeItem::Directory(_) => {
                steps.push(BuildStep::MkDir { path });
            },
            RecipeItem::File(f) => {
                let content = re.sub(f.content.as_str(), name, dir);
                steps.push(BuildStep::PutFile { path, content });
            },
        }
        assert(step_rel(re.view_pairs(), dir@, name@, contents@[i as int], steps@[i + 1]));
        i += 1;
    }
    steps
}

/// The names, in order, of the requested recipes that the store does not
/// hold.
pub open spec fn spec_missing(rs: Seq<Recipe>, names: Seq<String>) -> Seq<Seq<char>>
    decreases names.len(),
{
    if names.len() == 0 {
        Seq::empty()
    } else {
        let rest = spec_missing(rs, names.skip(1));
        if has_recipe(rs, names[0]@) {
            rest
        } else {
            seq![names[0]@] + rest
        }
    }
}

/// The store holds a recipe of this name.
pub open spec fn has_recipe(rs: Seq<Recipe>, nm: Seq<char>) -> bool {
    exists|i: int| 0 <= i < rs.len() && (#[trigger] rs[i]).name@ == nm
}

/// Finds the first stored recipe with the given name.
pub fn find_recipe<'a>(rs: &'a Vec<Recipe>, nm: &str) -> (r: Option<&'a Recipe>)
    ensures
        r matches Some(rec) ==> has_recipe(rs@, nm@) && rec.name@ == nm@ && spec_find_recipe(
            rs@,
            nm@,
        ) < rs@.len() && *rec == rs@[spec_find_recipe(rs@, nm@)],
        r is None ==> !has_recipe(rs@, nm@),
{
    let n = rs.len();
    let mut i: usize = 0;
    while i < n
        invariant
            n == rs@.len(),
            i <= n,
            forall|k: int| 0 <= k < i ==> (#[trigger] rs@[k]).name@ != nm@,
        decreases n - i,
    {
        if str_eq(rs[i].name.as_str(), nm) {
            proof {
                lemma_spec_find_recipe(rs@, nm@, i as int);
            }
            return Some(&rs[i]);
        }
        i += 1;
    }
    None
}

/// Validates a build request and plans it: every requested recipe must
/// exist, at least one must be named, the evocation name defaults when
/// absent, and each recipe's plan follows in request order.
pub fn build_recipes(args: &Evoke, user_recipes: &Vec<Recipe>, cwd: &str, cfg: &Config) -> (r:
    Result<Vec<BuildStep>, Error>)
    ensures
        args.recipes@.len() == 0 ==> (r matches Err(e) && e matches Error::NoneSpecified(w) && w@
            == "recipes"@),
        args.recipes@.len() > 0 && spec_missing(user_recipes@, args.recipes@).len() > 0 ==> (
        r matches Err(e) && e matches Error::Invalid(w, egs) && w@ == "recipe(s)"@ && (egs
            matches Some(v) && crate::recipe::strs_view(v@) == spec_missing(
            user_recipes@,
            args.recipes@,
        ))),
        args.recipes@.len() > 0 && spec_missing(user_recipes@, args.recipes@).len() == 0 ==> (
        r matches Ok(steps) && exists|plans: Seq<Seq<BuildStep>>|
            #[trigger] plans.len() == args.recipes@.len() && steps@ == flatten_steps(plans) && (
            forall|q: int|
                0 <= q < plans.len() ==> plan_rel(
                    crate::config::pairs_view(cfg.subs@),
                    spec_build_dir(*args, cwd@),
                    spec_build_name(*args),
                    user_recipes@[spec_find_recipe(user_recipes@, args.recipes@[q]@)].contents@,
                    #[trigger] plans[q],
                ))),
{
    if args.recipes.len() == 0 {
        return Err(Error::NoneSpecified(String::from_str("recipes")));
    }
    let mut missing: Vec<String> = Vec::new();
    let m = args.recipes.len();
    let mut q: usize = 0;
    while q < m
        invariant
            m == args.recipes@.len(),
            q <= m,
            crate::recipe::strs_view(missing@) == spec_missing_upto(
                user_recipes@,
                args.recipes@,
                q as int,
            ),
        decreases m - q,
    {
        if find_recipe(user_recipes, args.recipes[q].as_str()).is_none() {
            missing.push(args.recipes[q].clone());
        }
        proof {
            lemma_missing_step(user_recipes@, args.recipes@, q as int);
            assert(crate::recipe::strs_view(missing@) =~~= spec_missing_upto(
                user_recipes@,
                args.recipes@,
                q + 1,
            ));
        }
        q += 1;
    }
    proof {
        lemma_missing_upto_full(user_recipes@, args.recipes@);
    }
    if missing.len() > 0 {
        return Err(Error::Invalid(String::from_str("recipe(s)"), Some(missing)));
    }
    let re = Replacer::new(cfg);
    let name = match &args.name {
        Some(n) => n.clone(),
        None => String::from_str("NAME"),
    };
    let dir = match &args.dir_name {
        Some(d) => d.clone(),
        None => cwd.to_owned(),
    };
    let mut steps: Vec<BuildStep> = Vec::new();
    let ghost mut plans: Seq<Seq<BuildStep>> = Seq::empty();
    let mut q: usize = 0;
    while q < m
        invariant
            m == args.recipes@.len(),
            q <= m,
            spec_missing(user_recipes@, args.recipes@).len() == 0,
            re.view_pairs() == crate::config::pairs_view(cfg.subs@),
            name@ == spec_build_name(*args),
            dir@ == spec_build_dir(*args, cwd@),
            plans.len() == q,
            steps@ == flatten_steps(plans),
            forall|x: int|
                0 <= x < q ==> plan_rel(
                    crate::config::pairs_view(cfg.subs@),
                    spec_build_dir(*args, cwd@),
                    spec_build_name(*args),
                    user_recipes@[spec_find_recipe(user_recipes@, args.recipes@[x]@)].contents@,
                    #[trigger] plans[x],
                ),
        decreases m - q,
    {
        proof {
            lemma_missing_all_present(user_recipes@, args.recipes@, q as int);
        }
        let rec = match find_recipe(user_recipes, args.recipes[q].as_str()) {
            Some(rec) => rec,
            None => {
                proof {
                    assert(false);
                }
                return Err(Error::NoneSpecified(String::from_str("recipes")));
            },
        };
        let plan = plan_build(dir.as_str(), &rec.contents, name.as_str(), &re);
        let ghost pre_steps = steps@;
        let mut plan_mut = plan;
        let ghost planv = plan_mut@;
        steps.append(&mut plan_mut);
        proof {
            let old_plans = plans;
            plans = plans.push(planv);
            lemma_flatten_steps_push(old_plans, planv);
            assert(steps@ =~= flatten_steps(plans));
            assert(plans[q as int] == planv);
            assert forall|x: int| 0 <= x < q + 1 implies plan_rel(
                crate::config::pairs_view(cfg.subs@),
                spec_build_dir(*args, cwd@),
                spec_build_name(*args),
                user_recipes@[spec_find_recipe(user_recipes@, args.recipes@[x]@)].contents@,
                #[trigger] plans[x],
            ) by {
                if x < q {
                    assert(plans[x] == old_plans[x]);
                }
            }
        }
        q += 1;
    }
    Ok(steps)
}

/// The first index of a stored recipe with this name, or the length when
/// none carries it.
pub open spec fn spec_find_recipe(rs: Seq<Recipe>, nm: Seq<char>) -> int
    decreases rs.len(),
{
    if rs.len() == 0 {
        0
    } else if rs[0].name@ == nm {
        0
    } else {
        1 + spec_find_recipe(rs.skip(1), nm)
    }
}

/// A found position is the first one carrying the name.
pub proof fn lemma_spec_find_recipe(rs: Seq<Recipe>, nm: Seq<char>, i: int)
    requires
        0 <= i < rs.len(),
        rs[i].name@ == nm,
        forall|k: int| 0 <= k < i ==> (#[trigger] rs[k]).name@ != nm,
    ensures
        spec_find_recipe(rs, nm) == i,
    decreases i,
{
    if i > 0 {
        assert forall|k: int| 0 <= k < i - 1 implies (#[trigger] rs.skip(1)[k]).name@ != nm by {
            assert(rs.skip(1)[k] == rs[k + 1]);
        }
        lemma_spec_find_recipe(rs.skip(1), nm, i - 1);
    }
}

/// The evocation name in effect: the one given, or the default.
pub open spec fn spec_build_name(args: Evoke) -> Seq<char> {
    match args.name {
        Some(n) => n@,
        None => "NAME"@,
    }
}

/// The destination root in effect: the one given, or the working
/// directory.
pub open spec fn spec_build_dir(args: Evoke, cwd: Seq<char>) -> Seq<char> {
    match args.dir_name {
        Some(d) => d@,
        None => cwd,
    }
}

/// The concatenation of the per-recipe plans.
pub open spec fn flatten_steps(plans: Seq<Seq<BuildStep>>) -> Seq<BuildStep>
    decreases plans.len(),
{
    if plans.len() == 0 {
        Seq::empty()
    } else {
        flatten_steps(plans.drop_last()) + plans.last()
    }
}

proof fn lemma_flatten_steps_push(plans: Seq<Seq<BuildStep>>, e: Seq<BuildStep>)
    ensures
        flatten_steps(plans.push(e)) == flatten_steps(plans) + e,
{
    assert(plans.push(e).drop_last() =~= plans);
    assert(plans.push(e).last() == e);
}

/// The missing names among the first `q` requests.
pub open spec fn spec_missing_upto(rs: Seq<Recipe>, names: Seq<String>, q: int) -> Seq<Seq<char>> {
    spec_missing(rs, names.take(q))
}

/// Checking one more request extends the missing names accordingly.
proof fn lemma_missing_step(rs: Seq<Recipe>, names: Seq<String>, q: int)
    requires
        0 <= q < names.len(),
    ensures
        spec_missing(rs, names.take(q + 1)) == spec_missing(rs, names.take(q)) + (if has_recipe(
            rs,
            names[q]@,
        ) {
            Seq::<Seq<char>>::empty()
        } else {
            seq![names[q]@]
        }),
{
    lemma_missing_push(rs, names.take(q), names[q]);
    assert(names.take(q).push(names[q]) =~= names.take(q + 1));
}

proof fn lemma_missing_push(rs: Seq<Recipe>, names: Seq<String>, e: String)
    ensures
        spec_missing(rs, names.push(e)) == spec_missing(rs, names) + (if has_recipe(rs, e@) {
            Seq::<Seq<char>>::empty()
        } else {
            seq![e@]
        }),
    decreases names.len(),
{
    if names.len() == 0 {
        assert(names.push(e)[0] == e);
        assert(names.push(e).skip(1) =~= Seq::<String>::empty());
        assert(spec_missing(rs, names.push(e).skip(1)) =~~= Seq::<Seq<char>>::empty());
        assert(spec_missing(rs, names) =~~= Seq::<Seq<char>>::empty());
        assert(spec_missing(rs, names.push(e)) =~~= spec_missing(rs, names) + (if has_recipe(
            rs,
            e@,
        ) {
            Seq::<Seq<char>>::empty()
        } else {
            seq![e@]
        }));
    } else {
        assert(names.push(e).skip(1) =~= names.skip(1).push(e));
        lemma_missing_push(rs, names.skip(1), e);
        assert(names.push(e)[0] == names[0]);
        assert(spec_missing(rs, names.push(e)) =~~= spec_missing(rs, names) + (if has_recipe(
            rs,
            e@,
        ) {
            Seq::<Seq<char>>::empty()
        } else {
            seq![e@]
        }));
    }
}

proof fn lemma_missing_upto_full(rs: Seq<Recipe>, names: Seq<String>)
    ensures
        spec_missing(rs, names.take(names.len() as int)) == spec_missing(rs, names),
{
    assert(names.take(names.len() as int) =~= names);
}

/// When nothing is missing, every requested name is present.
proof fn lemma_missing_all_present(rs: Seq<Recipe>, names: Seq<String>, q: int)
    requires
        spec_missing(rs, names).len() == 0,
        0 <= q < names.len(),
    ensures
        has_recipe(rs, names[q]@),
    decreases q,
{
    if q == 0 {
    } else {
        assert(names.skip(1)[q - 1] == names[q]);
        lemma_missing_all_present(rs, names.skip(1), q - 1);
    }
}

} // verus!
