//! The package to create: its target directory, its name, and the options that
//! select what goes into it.

use vstd::prelude::*;
use crate::casing::{lower_of, to_lower, to_upper_camel, upper_camel_of};
use crate::paths::{file_name, file_name_of};
use vstd::utf8::is_ascii_chars;
use crate::text::{CharClass, chars_of, string_of, strip, strip_range};

verus! {

/// Why scaffolding a package stopped.
#[derive(Clone, Debug, PartialEq, Eq)]
pub enum ScaffoldError {
    /// The target directory exists and holds entries.
    InvalidTarget { path: String },
    /// Creating, copying, reading or writing a path failed.
    FilesystemError { path: String, reason: String },
    /// The template source could not be fetched.
    FetchError { reason: String },
    /// The profile initializer failed or recorded no address.
    ProfileInitError { reason: String },
    /// The user declined, or no answer could be read.
    UserCancelled,
    /// The package name came out empty.
    EmptyPackageName,
}

/// What is at the target path before anything is written.
#[derive(Clone, Copy, PartialEq, Eq, Structural, Debug)]
pub enum TargetState {
    /// Nothing: the directory is created.
    Missing,
    /// A directory with no entries.
    Empty,
    /// A directory, or another node, with entries.
    NonEmpty,
}

/// A validated target directory: a path whose target was missing or empty when it
/// was checked. The caller makes the path absolute and normalised before the check.
#[derive(Clone, Debug)]
pub struct PackageDir(String);

impl View for PackageDir {
    type V = Seq<char>;

    closed spec fn view(&self) -> Seq<char> {
        self.0@
    }
}

/// The package name that a target directory suggests: its final segment in upper
/// camel case, the segment as it is where it holds a non-ASCII character, or empty
/// where the directory has no final segment.
pub open spec fn suggested_name(dir: Seq<char>) -> Seq<char> {
    match file_name(dir) {
        Some(n) => if is_ascii_chars(n) {
            upper_camel_of(n)
        } else {
            n
        },
        None => Seq::empty(),
    }
}

impl PackageDir {
    /// Accepts `path` as the target directory unless something with entries is
    /// already there.
    pub fn new(path: String, state: TargetState) -> (r: Result<PackageDir, ScaffoldError>)
        ensures
            r is Ok <==> state != TargetState::NonEmpty,
            r matches Ok(d) ==> d@ == path@,
            r matches Err(e) ==> e matches ScaffoldError::InvalidTarget { path: p } && p@ == path@,
    {
        match state {
            TargetState::NonEmpty => Err(ScaffoldError::InvalidTarget { path }),
            _ => Ok(PackageDir(path)),
        }
    }

    /// The directory's path.
    pub fn as_str(&self) -> (r: &str)
        ensures
            r@ == self@,
    {
        self.0.as_str()
    }

    /// The package name derived from the directory's final segment.
    pub fn to_package_name(&self) -> (r: String)
        ensures
            r@ == suggested_name(self@),
    {
        match file_name_of(self.0.as_str()) {
            Some(name) => if name.as_str().is_ascii() {
                to_upper_camel(name.as_str())
            } else {
                name
            },
            None => String::new(),
        }
    }
}

/// What a typed answer to the package-name prompt selects: the answer with white
/// space trimmed, or the suggested name where nothing else is left.
pub open spec fn answered_name(answer: Seq<char>, suggested: Seq<char>) -> Seq<char> {
    if strip(answer, CharClass::White).len() == 0 {
        suggested
    } else {
        strip(answer, CharClass::White)
    }
}

/// The prompt that asks for an example coin module.
pub const COIN_QUESTION: &'static str = "Add an example coin module to the package? ";

/// The prompt that asks for a sample dApp.
pub const DAPP_QUESTION: &'static str = "Add a sample dApp to the package? ";

/// The prompt that asks whether to configure an account profile.
pub const INIT_QUESTION: &'static str = "Configure Aptos account? ";

/// The options of one package creation.
pub struct NewPackage {
    /// Directory to create the new Move package in.
    pub package_dir: PackageDir,
    /// Name of the new package; derived from the directory where absent.
    pub name: Option<String>,
    /// Whether to add an example dApp; asked where absent.
    pub add_js: Option<bool>,
    /// Whether to add an example coin module; asked where absent.
    pub add_coin: Option<bool>,
    /// Do not create a "default" profile.
    pub skip_profile_creation: bool,
}

impl NewPackage {
    /// The package name: the explicit one, or else what `read` answers when shown
    /// the suggested name. `read` gives `None` where no answer could be read. A
    /// package name is never empty: an empty one is an error.
    pub fn ask_package_name<F: FnOnce(&str) -> Option<String>>(&self, read: F) -> (r: Result<
        String,
        ScaffoldError,
    >)
        requires
            self.name is None ==> forall|s: &str| call_requires(read, (s,)),
        ensures
            r matches Ok(m) ==> m@.len() > 0,
            match self.name {
                Some(n) => if n@.len() > 0 {
                    r matches Ok(m) && m@ == n@
                } else {
                    r == Err::<String, ScaffoldError>(ScaffoldError::EmptyPackageName)
                },
                None => exists|s: &str, a: Option<String>|
                    s@ == suggested_name(self.package_dir@) && call_ensures(read, (s,), a) && match a {
                        Some(t) => if answered_name(t@, suggested_name(self.package_dir@)).len() > 0 {
                            r matches Ok(m) && m@ == answered_name(
                                t@,
                                suggested_name(self.package_dir@),
                            )
                        } else {
                            r == Err::<String, ScaffoldError>(ScaffoldError::EmptyPackageName)
                        },
                        None => r == Err::<String, ScaffoldError>(ScaffoldError::UserCancelled),
                    },
            },
    {
        match &self.name {
            Some(name) => if name.as_str().unicode_len() > 0 {
                Ok(name.clone())
            } else {
                Err(ScaffoldError::EmptyPackageName)
            },
            None => {
                let suggested = self.package_dir.to_package_name();
                let answer = read(suggested.as_str());
                match answer {
                    None => Err(ScaffoldError::UserCancelled),
                    Some(text) => {
                        let v = chars_of(text.as_str());
                        let (lo, hi) = strip_range(&v, 0, v.len(), CharClass::White);
                        assert(v@.subrange(0, v@.len() as int) =~= v@);
                        if lo == hi {
                            if suggested.as_str().unicode_len() > 0 {
                                Ok(suggested)
                            } else {
                                Err(ScaffoldError::EmptyPackageName)
                            }
                        } else {
                            let mut t: Vec<char> = Vec::new();
                            let mut i: usize = lo;
                            while i < hi
                                invariant
                                    lo <= i <= hi <= v@.len(),
                                    t@ == v@.subrange(lo as int, i as int),
                                decreases hi - i,
                            {
                                t.push(v[i]);
                                i = i + 1;
                                assert(t@ =~= v@.subrange(lo as int, i as int));
                            }
                            Ok(string_of(&t))
                        }
                    },
                }
            },
        }
    }

    /// Whether to add the example coin module: the flag where given, else the
    /// answer to a yes/no question whose default is no.
    pub fn ask_add_coin_module<F: FnOnce(&str, bool) -> bool>(&self, ask: F) -> (r: bool)
        requires
            self.add_coin is None ==> forall|q: &str, d: bool| call_requires(ask, (q, d)),
        ensures
            match self.add_coin {
                Some(b) => r == b,
                None => call_ensures(ask, (COIN_QUESTION, false), r),
            },
    {
        if let Some(add_example) = self.add_coin {
            add_example
        } else {
            ask(COIN_QUESTION, false)
        }
    }

    /// Whether to add the sample dApp: the flag where given, else the answer to a
    /// yes/no question whose default is no.
    pub fn ask_add_dapp<F: FnOnce(&str, bool) -> bool>(&self, ask: F) -> (r: bool)
        requires
            self.add_js is None ==> forall|q: &str, d: bool| call_requires(ask, (q, d)),
        ensures
            match self.add_js {
                Some(b) => r == b,
                None => call_ensures(ask, (DAPP_QUESTION, false), r),
            },
    {
        if let Some(selected_value) = self.add_js {
            selected_value
        } else {
            ask(DAPP_QUESTION, false)
        }
    }

    /// Whether to run the profile initializer: never where profile creation is
    /// skipped, else the answer to a yes/no question whose default is no.
    pub fn ask_run_aptos_init<F: FnOnce(&str, bool) -> bool>(&self, ask: F) -> (r: bool)
        requires
            !self.skip_profile_creation ==> forall|q: &str, d: bool| call_requires(ask, (q, d)),
        ensures
            self.skip_profile_creation ==> !r,
            !self.skip_profile_creation ==> call_ensures(ask, (INIT_QUESTION, false), r),
    {
        if self.skip_profile_creation {
            false
        } else {
            ask(INIT_QUESTION, false)
        }
    }
}

/// What an answer to a yes/no question selects once lower-cased: white space
/// trimmed, nothing takes the default, `y` or `yes` is yes, `n` or `no` is no,
/// anything else asks again (`None`).
pub open spec fn yes_no_of(folded: Seq<char>, default: bool) -> Option<bool> {
    let t = strip(folded, CharClass::White);
    if t.len() == 0 {
        Some(default)
    } else if t == seq!['y'] || t == seq!['y', 'e', 's'] {
        Some(true)
    } else if t == seq!['n'] || t == seq!['n', 'o'] {
        Some(false)
    } else {
        None
    }
}

/// Reads an already lower-cased answer to a yes/no question.
pub fn yes_no_folded(folded: &str, default: bool) -> (r: Option<bool>)
    ensures
        r == yes_no_of(folded@, default),
{
    let v = chars_of(folded);
    let (lo, hi) = strip_range(&v, 0, v.len(), CharClass::White);
    assert(v@.subrange(0, v@.len() as int) =~= v@);
    let ghost t = v@.subrange(lo as int, hi as int);
    let n = hi - lo;
    if n == 0 {
        Some(default)
    } else if (n == 1 && v[lo] == 'y') || (n == 3 && v[lo] == 'y' && v[lo + 1] == 'e' && v[lo + 2]
        == 's') {
        proof {
            if n == 1 {
                assert(t =~= seq!['y']);
            } else {
                assert(t =~= seq!['y', 'e', 's']);
            }
        }
        Some(true)
    } else if (n == 1 && v[lo] == 'n') || (n == 2 && v[lo] == 'n' && v[lo + 1] == 'o') {
        proof {
            if n == 1 {
                assert(t =~= seq!['n']);
                assert(t != seq!['y']) by { assert(t[0] != seq!['y'][0]); }
            } else {
                assert(t =~= seq!['n', 'o']);
            }
        }
        Some(false)
    } else {
        proof {
            if t == seq!['y'] { assert(t[0] == 'y'); }
            if t == seq!['y', 'e', 's'] { assert(t[0] == 'y' && t[1] == 'e' && t[2] == 's'); }
            if t == seq!['n'] { assert(t[0] == 'n'); }
            if t == seq!['n', 'o'] { assert(t[0] == 'n' && t[1] == 'o'); }
        }
        None
    }
}

/// Reads an answer to a yes/no question: lower-cased, then as `yes_no_folded`.
pub fn yes_no_answer(answer: &str, default: bool) -> (r: Option<bool>)
    ensures
        r == yes_no_of(lower_of(answer@), default),
{
    let folded = to_lower(answer);
    yes_no_folded(folded.as_str(), default)
}

} // verus!
