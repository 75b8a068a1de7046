//! The run-wide configuration: where recipes are stored and which
//! substitution tokens are available. A configuration value is constructed
//! once at the outermost boundary of a run (loaded from disk, or the
//! defaults below) and handed explicitly to whatever needs it.

use vstd::prelude::*;

verus! {

/// Configuration handed to the substitution and build engines.
#[derive(Debug)]
pub struct Config {
    /// The directory that recipes are stored in; `None` selects the
    /// platform's data directory.
    pub recipe_dir: Option<String>,
    /// User-defined substitution tokens: each pair maps a token, as written
    /// between doubled braces, to its resolver. The resolver is one of the
    /// two builtin markers or a shell command line.
    pub subs: Vec<(String, String)>,
}

/// The token pairs of a configuration, as sequences of characters.
pub open spec fn pairs_view(v: Seq<(String, String)>) -> Seq<(Seq<char>, Seq<char>)> {
    Seq::new(v.len(), |i: int| (v[i].0@, v[i].1@))
}

/// The default substitution tokens: the two builtins, the user's name, and
/// the current day, month and year.
pub open spec fn spec_default_subs() -> Seq<(Seq<char>, Seq<char>)> {
    seq![
        ("dir"@, "mk::dir"@),
        ("name"@, "mk::name"@),
        ("user"@, "whoami"@),
        ("day"@, "date +%d"@),
        ("month"@, "date +%m"@),
        ("year"@, "date +%Y"@),
    ]
}

impl Config {
    /// The configuration in effect: the one the caller loaded, if any, or
    /// the defaults.
    pub fn get(loaded: Option<Config>) -> (c: Config)
        ensures
            loaded matches Some(l) ==> c == l,
            loaded is None ==> c.recipe_dir is None && pairs_view(c.subs@)
                == spec_default_subs(),
    {
        match loaded {
            Some(l) => l,
            None => Config::default(),
        }
    }
}

impl Default for Config {
    /// No recipe-directory override, and the builtin token table.
    fn default() -> (c: Config)
        ensures
            c.recipe_dir is None,
            pairs_view(c.subs@) == spec_default_subs(),
    {
        let mut subs: Vec<(String, String)> = Vec::new();
        subs.push((String::from_str("dir"), String::from_str("mk::dir")));
        subs.push((String::from_str("name"), String::from_str("mk::name")));
        subs.push((String::from_str("user"), String::from_str("whoami")));
        subs.push((String::from_str("day"), String::from_str("date +%d")));
        subs.push((String::from_str("month"), String::from_str("date +%m")));
        subs.push((String::from_str("year"), String::from_str("date +%Y")));
        assert(pairs_view(subs@) =~= spec_default_subs());
        Config { recipe_dir: None, subs }
    }
}

} // verus!
