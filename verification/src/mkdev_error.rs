//! The crate's error taxonomy: what a caller is told when a recipe is
//! missing, a filesystem step fails, a recipe cannot be (de)serialised, or a
//! build would overwrite existing work.

use vstd::prelude::*;

verus! {

/// Everything that can go wrong across the commands.
///
/// `DestructionWarning` is the overwrite-conflict case: the named path or
/// recipe already exists and the caller did not permit replacing it.
#[derive(Clone, Debug, PartialEq, Eq)]
pub enum Error {
    NoneSpecified(String),
    Invalid(String, Option<Vec<String>>),
    Io(String, String),
    Serialisation(String, String),
    Deserialisation(String, String),
    DestructionWarning(String),
}

/// The lines of `s` joined with a newline between each pair.
pub open spec fn spec_join_lines(s: Seq<Seq<char>>) -> Seq<char>
    decreases s.len(),
{
    if s.len() == 0 {
        Seq::empty()
    } else if s.len() == 1 {
        s[0]
    } else {
        spec_join_lines(s.drop_last()) + "\n"@ + s.last()
    }
}

/// The human-readable rendering of each error.
pub open spec fn spec_message(e: Error) -> Seq<char> {
    match e {
        Error::NoneSpecified(what) => "No "@ + what@ + " specified."@,
        Error::Invalid(what, egs) => match egs {
            Some(egs) => "invalid "@ + what@ + ":\n"@ + spec_join_lines(egs.deep_view()),
            None => "invalid "@ + what@ + "."@,
        },
        Error::Io(what, cause) => what@ + ": "@ + cause@,
        Error::Serialisation(what, cause) => "failed to serialise "@ + what@ + ": "@ + cause@,
        Error::Deserialisation(what, cause) => "failed to deserialise "@ + what@ + ": "@
            + cause@,
        Error::DestructionWarning(what) => "'"@ + what@ + "' already exists. Use -s to overwrite."@,
    }
}

/// Joins strings with a newline between each pair.
pub fn join_lines(lines: &Vec<String>) -> (r: String)
    ensures
        r@ == spec_join_lines(lines.deep_view()),
{
    let mut out = String::new();
    let mut i: usize = 0;
    let n = lines.len();
    while i < n
        invariant
            n == lines.len(),
            i <= n,
            i == 0 ==> out@ == Seq::<char>::empty(),
            i > 0 ==> out@ == spec_join_lines(lines.deep_view().take(i as int)),
        decreases n - i,
    {
        if i > 0 {
            out.append("\n");
        }
        out.append(lines[i].as_str());
        proof {
            let s = lines.deep_view();
            assert(s.take(i + 1).drop_last() =~= s.take(i as int));
            assert(s.take(i + 1).last() == s[i as int]);
        }
        i += 1;
    }
    proof {
        if n > 0 {
            assert(lines.deep_view().take(n as int) =~= lines.deep_view());
        }
    }
    out
}

impl Error {
    /// The message shown to the user for this error.
    pub fn message(&self) -> (r: String)
        ensures
            r@ == spec_message(*self),
    {
        let mut out = String::new();
        match self {
            Error::NoneSpecified(what) => {
                out.append("No ");
                out.append(what.as_str());
                out.append(" specified.");
            },
            Error::Invalid(what, egs) => {
                out.append("invalid ");
                out.append(what.as_str());
                match egs {
                    Some(egs) => {
                        out.append(":\n");
                        let joined = join_lines(egs);
                        out.append(joined.as_str());
                    },
                    None => {
                        out.append(".");
                    },
                }
            },
            Error::Io(what, cause) => {
                out.append(what.as_str());
                out.append(": ");
                out.append(cause.as_str());
            },
            Error::Serialisation(what, cause) => {
                out.append("failed to serialise ");
                out.append(what.as_str());
                out.append(": ");
                out.append(cause.as_str());
            },
            Error::Deserialisation(what, cause) => {
                out.append("failed to deserialise ");
                out.append(what.as_str());
                out.append(": ");
                out.append(cause.as_str());
            },
            Error::DestructionWarning(what) => {
                out.append("'");
                out.append(what.as_str());
                out.append("' already exists. Use -s to overwrite.");
            },
        }
        out
    }
}

/// Attaches a human context string to a failure, turning it into [`Error`].
pub trait ResultExt<T>: Sized {
    fn context(self, s: &str) -> Result<T, Error>;
}

impl<T> ResultExt<T> for Result<T, String> {
    /// Wraps a raw failure message, as reported by the surrounding process,
    /// into an I/O-class error carrying the caller's context.
    fn context(self, s: &str) -> (r: Result<T, Error>)
        ensures
            self is Ok ==> r is Ok && r->Ok_0 == self->Ok_0,
            self is Err ==> (r matches Err(Error::Io(what, cause)) && what@ == s@ && cause
                == self->Err_0),
    {
        match self {
            Ok(v) => Ok(v),
            Err(why) => Err(Error::Io(s.to_owned(), why)),
        }
    }
}

} // verus!
