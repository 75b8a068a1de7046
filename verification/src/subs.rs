//! The placeholder substitution engine. A `Replacer` is compiled from the
//! configuration's token table; [`Replacer::sub`] rewrites a text by
//! replacing every occurrence of `{{token}}` for a configured token, leaving
//! everything else untouched. The two builtin resolvers yield the
//! destination directory and the evocation name in-process; every other
//! resolver is a shell command line whose captured output (with one trailing
//! newline stripped) replaces the occurrence. A command that cannot be run
//! degrades to leaving the placeholder text in place — it never aborts the
//! surrounding build.

use vstd::prelude::*;

use crate::config::{pairs_view, Config};
use crate::order::is_prefix;

verus! {

/// The text a token is written as inside a template: the token between
/// doubled braces.
pub open spec fn placeholder(key: Seq<char>) -> Seq<char> {
    seq!['{', '{'] + key + seq!['}', '}']
}

/// The first configured pair, from position `j` on, whose placeholder is a
/// prefix of `text`.
pub open spec fn match_from(
    pairs: Seq<(Seq<char>, Seq<char>)>,
    text: Seq<char>,
    j: int,
) -> Option<int>
    decreases pairs.len() - j,
{
    if j < 0 || j >= pairs.len() {
        None
    } else if is_prefix(placeholder(pairs[j].0), text) {
        Some(j)
    } else {
        match_from(pairs, text, j + 1)
    }
}

/// The resolver marker for the destination directory.
pub open spec fn is_dir_marker(v: Seq<char>) -> bool {
    v == "mk::dir"@
}

/// The resolver marker for the evocation name.
pub open spec fn is_name_marker(v: Seq<char>) -> bool {
    v == "mk::name"@
}

/// The substitution result, given the sequence `outs` of replacement
/// strings that the shell resolvers produced, in occurrence order. Scanning
/// left to right: a recognised placeholder is replaced — by the directory or
/// the name for the builtin resolvers, and by the next entry of `outs` for a
/// shell resolver — and any character that starts no placeholder is kept.
pub open spec fn spec_sub_outs(
    pairs: Seq<(Seq<char>, Seq<char>)>,
    text: Seq<char>,
    name: Seq<char>,
    dir: Seq<char>,
    outs: Seq<Seq<char>>,
) -> Seq<char>
    decreases text.len(),
{
    if text.len() == 0 {
        Seq::empty()
    } else {
        match match_from(pairs, text, 0) {
            Some(j) => {
                let n = placeholder(pairs[j].0).len() as int;
                let rest = if n <= text.len() {
                    text.skip(n)
                } else {
                    Seq::<char>::empty()
                };
                if is_dir_marker(pairs[j].1) {
                    dir + spec_sub_outs(pairs, rest, name, dir, outs)
                } else if is_name_marker(pairs[j].1) {
                    name + spec_sub_outs(pairs, rest, name, dir, outs)
                } else {
                    let rep = if outs.len() > 0 {
                        outs[0]
                    } else {
                        Seq::<char>::empty()
                    };
                    rep + spec_sub_outs(pairs, rest, name, dir, outs.skip(1))
                }
            },
            None => seq![text[0]] + spec_sub_outs(pairs, text.skip(1), name, dir, outs),
        }
    }
}

/// Every placeholder occurrence in the text resolves to a builtin, so the
/// substitution depends on nothing outside its arguments.
pub open spec fn deterministic_text(pairs: Seq<(Seq<char>, Seq<char>)>, text: Seq<char>) -> bool
    decreases text.len(),
{
    if text.len() == 0 {
        true
    } else {
        match match_from(pairs, text, 0) {
            Some(j) => {
                let n = placeholder(pairs[j].0).len() as int;
                let rest = if n <= text.len() {
                    text.skip(n)
                } else {
                    Seq::<char>::empty()
                };
                (is_dir_marker(pairs[j].1) || is_name_marker(pairs[j].1)) && deterministic_text(
                    pairs,
                    rest,
                )
            },
            None => deterministic_text(pairs, text.skip(1)),
        }
    }
}

/// The substitution result when every matched placeholder is a builtin.
pub open spec fn spec_sub_det(
    pairs: Seq<(Seq<char>, Seq<char>)>,
    text: Seq<char>,
    name: Seq<char>,
    dir: Seq<char>,
) -> Seq<char>
    decreases text.len(),
{
    if text.len() == 0 {
        Seq::empty()
    } else {
        match match_from(pairs, text, 0) {
            Some(j) => {
                let n = placeholder(pairs[j].0).len() as int;
                let rest = if n <= text.len() {
                    text.skip(n)
                } else {
                    Seq::<char>::empty()
                };
                let rep = if is_dir_marker(pairs[j].1) {
                    dir
                } else {
                    name
                };
                rep + spec_sub_det(pairs, rest, name, dir)
            },
            None => seq![text[0]] + spec_sub_det(pairs, text.skip(1), name, dir),
        }
    }
}

/// A matching position returned by `match_from` is in range and its
/// placeholder is a prefix of the text.
pub proof fn lemma_match_from_some(
    pairs: Seq<(Seq<char>, Seq<char>)>,
    text: Seq<char>,
    j0: int,
    j: int,
)
    requires
        0 <= j0,
        match_from(pairs, text, j0) == Some(j),
    ensures
        j0 <= j < pairs.len(),
        is_prefix(placeholder(pairs[j].0), text),
    decreases pairs.len() - j0,
{
    if j0 >= pairs.len() {
    } else if is_prefix(placeholder(pairs[j0].0), text) {
    } else {
        lemma_match_from_some(pairs, text, j0 + 1, j);
    }
}

/// On a text whose placeholders all resolve to builtins, the substitution
/// does not depend on the shell outputs: whatever run produced the result,
/// it is the one builtin substitution.
pub proof fn lemma_sub_outs_deterministic(
    pairs: Seq<(Seq<char>, Seq<char>)>,
    text: Seq<char>,
    name: Seq<char>,
    dir: Seq<char>,
    outs: Seq<Seq<char>>,
)
    requires
        deterministic_text(pairs, text),
    ensures
        spec_sub_outs(pairs, text, name, dir, outs) == spec_sub_det(pairs, text, name, dir),
    decreases text.len(),
{
    if text.len() == 0 {
    } else if match_from(pairs, text, 0) is Some {
        let j = match_from(pairs, text, 0)->0;
        let n = placeholder(pairs[j].0).len() as int;
        let rest = if n <= text.len() {
            text.skip(n)
        } else {
            Seq::<char>::empty()
        };
        lemma_sub_outs_deterministic(pairs, rest, name, dir, outs);
    } else {
        lemma_sub_outs_deterministic(pairs, text.skip(1), name, dir, outs);
    }
}

/// The compiled substitution engine: the configuration's token table, ready
/// to be matched against any text.
#[derive(Debug)]
pub struct Replacer {
    pub pairs: Vec<(String, String)>,
}

/// Relies on `duct::cmd`: runs `sh -c command` synchronously with standard
/// output captured and returns that output, decoded lossily; `Err` when the
/// process could not be started at all. A non-zero exit status is not a
/// failure. The output depends on the machine and the moment, so nothing is
/// promised about it.
#[verifier::external_body]
fn run_shell(command: &str) -> (r: Result<String, ()>) {
    match duct::cmd("sh", ["-c", command]).stdout_capture().unchecked().run() {
        Ok(out) => Ok(String::from_utf8_lossy(&out.stdout).into_owned()),
        Err(_) => Err(()),
    }
}

/// Removes a single trailing newline, if one is present.
fn strip_newline(s: String) -> (r: String)
    ensures
        (s@.len() > 0 && s@.last() == '\n') ==> r@ == s@.drop_last(),
        !(s@.len() > 0 && s@.last() == '\n') ==> r@ == s@,
{
    let n = s.as_str().unicode_len();
    if n > 0 && s.as_str().get_char(n - 1) == '\n' {
        let r = s.as_str().substring_char(0, n - 1).to_owned();
        assert(r@ =~= s@.drop_last());
        r
    } else {
        s
    }
}

/// The literal placeholder text of a token, used as the fallback when its
/// command cannot be run.
fn placeholder_text(key: &str) -> (r: String)
    ensures
        r@ == placeholder(key@),
{
    let mut out = String::new();
    out.append("{{");
    out.append(key);
    out.append("}}");
    proof {
        reveal_strlit("{{");
        reveal_strlit("}}");
        assert(out@ =~= placeholder(key@));
    }
    out
}

impl Replacer {
    /// The token table as sequences of characters.
    pub open spec fn view_pairs(&self) -> Seq<(Seq<char>, Seq<char>)> {
        pairs_view(self.pairs@)
    }

    /// Compiles the configuration's token table into a substitution engine.
    pub fn new(cfg: &Config) -> (r: Replacer)
        ensures
            r.view_pairs() == pairs_view(cfg.subs@),
    {
        let mut pairs: Vec<(String, String)> = Vec::new();
        let n = cfg.subs.len();
        let mut i: usize = 0;
        while i < n
            invariant
                i <= n,
                n == cfg.subs.len(),
                pairs@ =~= cfg.subs@.take(i as int),
            decreases n - i,
        {
            let key = cfg.subs[i].0.clone();
            let val = cfg.subs[i].1.clone();
            pairs.push((key, val));
            assert(pairs@ =~= cfg.subs@.take(i + 1));
            i += 1;
        }
        assert(cfg.subs@.take(n as int) =~= cfg.subs@);
        Replacer { pairs }
    }

    /// Decides whether the placeholder of `key` starts the text.
    fn placeholder_starts(key: &str, text: &str) -> (r: bool)
        ensures
            r == is_prefix(placeholder(key@), text@),
    {
        let klen = key.unicode_len();
        let tlen = text.unicode_len();
        proof {
            assert(placeholder(key@).len() == klen + 4);
        }
        if tlen < 4 {
            return false;
        }
        if klen > tlen - 4 {
            return false;
        }
        proof {
            assert(placeholder(key@)[0] == '{');
            assert(placeholder(key@)[1] == '{');
            assert(forall|x: int| 0 <= x < klen ==> placeholder(key@)[x + 2] == key@[x]);
            assert(placeholder(key@)[klen + 2] == '}');
            assert(placeholder(key@)[klen + 3] == '}');
        }
        if text.get_char(0) != '{' || text.get_char(1) != '{' {
            return false;
        }
        let mut k: usize = 0;
        while k < klen
            invariant
                k <= klen,
                klen == key@.len(),
                tlen == text@.len(),
                klen + 4 <= tlen,
                forall|x: int| 0 <= x < k ==> key@[x] == text@[x + 2],
            decreases klen - k,
        {
            if key.get_char(k) != text.get_char(2 + k) {
                assert(placeholder(key@)[k + 2] != text@[k + 2]);
                return false;
            }
            k += 1;
        }
        if text.get_char(klen + 2) != '}' || text.get_char(klen + 3) != '}' {
            return false;
        }
        true
    }

    /// Finds the first configured token whose placeholder starts the text,
    /// returning its index and the placeholder's length in characters.
    fn find_match(&self, text: &str) -> (r: Option<(usize, usize)>)
        ensures
            r matches Some(p) ==> (match_from(self.view_pairs(), text@, 0) == Some(p.0 as int)
                && p.1 == placeholder(self.view_pairs()[p.0 as int].0).len() && p.1 <= text@.len()),
            r is None ==> match_from(self.view_pairs(), text@, 0) is None,
    {
        let m = self.pairs.len();
        let tlen = text.unicode_len();
        let mut j: usize = 0;
        while j < m
            invariant
                j <= m,
                m == self.pairs.len(),
                tlen == text@.len(),
                match_from(self.view_pairs(), text@, 0) == match_from(
                    self.view_pairs(),
                    text@,
                    j as int,
                ),
            decreases m - j,
        {
            let key = &self.pairs[j].0;
            if Self::placeholder_starts(key.as_str(), text) {
                let klen = key.unicode_len();
                assert(klen + 4 <= tlen);
                return Some((j, klen + 4));
            }
            j += 1;
        }
        None
    }

    /// Resolves one matched token: the builtin markers yield the directory
    /// or the name; anything else is run as a shell command, whose trimmed
    /// output — or, when it cannot be run, the placeholder itself — is the
    /// replacement.
    fn resolve(&self, j: usize, name: &str, dir: &str) -> (r: String)
        requires
            j < self.pairs@.len(),
        ensures
            is_dir_marker(self.view_pairs()[j as int].1) ==> r@ == dir@,
            !is_dir_marker(self.view_pairs()[j as int].1) && is_name_marker(
                self.view_pairs()[j as int].1,
            ) ==> r@ == name@,
    {
        let val = &self.pairs[j].1;
        let dir_marker = String::from_str("mk::dir");
        let name_marker = String::from_str("mk::name");
        if *val == dir_marker {
            dir.to_owned()
        } else if *val == name_marker {
            name.to_owned()
        } else {
            match run_shell(val.as_str()) {
                Ok(out) => strip_newline(out),
                Err(_) => placeholder_text(self.pairs[j].0.as_str()),
            }
        }
    }

    /// Substitutes every recognised placeholder in `text`, scanning left to
    /// right from the front, and reports the shell outputs it used.
    fn sub_rec(&self, text: &str, name: &str, dir: &str) -> (r: (String, Ghost<Seq<Seq<char>>>))
        ensures
            r.0@ == spec_sub_outs(self.view_pairs(), text@, name@, dir@, r.1@),
        decreases text@.len(),
    {
        let tlen = text.unicode_len();
        if tlen == 0 {
            return (String::new(), Ghost(Seq::empty()));
        }
        match self.find_match(text) {
            Some(p) => {
                let (j, n) = p;
                proof {
                    lemma_match_from_some(self.view_pairs(), text@, 0, j as int);
                }
                let rep = self.resolve(j, name, dir);
                let rest = text.substring_char(n, tlen);
                assert(rest@ =~= text@.skip(n as int));
                let (tail, tail_outs) = self.sub_rec(rest, name, dir);
                let out = rep.concat(tail.as_str());
                let pv = Ghost(self.view_pairs());
                if self.is_builtin(j) {
                    assert(out@ == spec_sub_outs(pv@, text@, name@, dir@, tail_outs@));
                    (out, tail_outs)
                } else {
                    let outs = Ghost(seq![rep@] + tail_outs@);
                    assert(outs@.skip(1) =~= tail_outs@);
                    assert(out@ == spec_sub_outs(pv@, text@, name@, dir@, outs@));
                    (out, outs)
                }
            },
            None => {
                let head = text.substring_char(0, 1);
                let rest = text.substring_char(1, tlen);
                assert(head@ =~= seq![text@[0]]);
                assert(rest@ =~= text@.skip(1));
                let (tail, tail_outs) = self.sub_rec(rest, name, dir);
                let out = head.to_owned().concat(tail.as_str());
                assert(out@ == spec_sub_outs(self.view_pairs(), text@, name@, dir@, tail_outs@));
                (out, tail_outs)
            },
        }
    }

    /// Decides whether the resolver of pair `j` is one of the two builtin
    /// markers.
    fn is_builtin(&self, j: usize) -> (r: bool)
        requires
            j < self.pairs@.len(),
        ensures
            r == (is_dir_marker(self.view_pairs()[j as int].1) || is_name_marker(
                self.view_pairs()[j as int].1,
            )),
    {
        let val = &self.pairs[j].1;
        let dir_marker = String::from_str("mk::dir");
        let name_marker = String::from_str("mk::name");
        *val == dir_marker || *val == name_marker
    }

    /// Replaces every recognised `{{token}}` occurrence in `text`: the two
    /// builtins resolve to the destination directory and the evocation name;
    /// any other configured token runs its command afresh per occurrence;
    /// text that matches no configured placeholder is left verbatim. The
    /// result is the substitution under some sequence of shell outputs, and
    /// when every occurrence resolves to a builtin it is pinned exactly.
    pub fn sub(&self, text: &str, name: &str, dir: &str) -> (r: String)
        ensures
            exists|outs: Seq<Seq<char>>|
                r@ == #[trigger] spec_sub_outs(self.view_pairs(), text@, name@, dir@, outs),
            deterministic_text(self.view_pairs(), text@) ==> r@ == spec_sub_det(
                self.view_pairs(),
                text@,
                name@,
                dir@,
            ),
    {
        let (r, outs) = self.sub_rec(text, name, dir);
        proof {
            assert(r@ == spec_sub_outs(self.view_pairs(), text@, name@, dir@, outs@));
            if deterministic_text(self.view_pairs(), text@) {
                lemma_sub_outs_deterministic(self.view_pairs(), text@, name@, dir@, outs@);
            }
        }
        r
    }
}

} // verus!
