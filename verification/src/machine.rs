//! The machine that paths are read on: its home directory, and how it tells absolute
//! paths and joins two.

use crate::json::optional_view;
use crate::text::has_prefix;
use vstd::prelude::*;

verus! {

/// The machine that paths are read on. One that is a Windows machine is only ever made
/// on such a machine, by `Machine::current`.
#[derive(Debug, Clone)]
pub struct Machine {
    home: Option<String>,
    separator: char,
}

/// Whether a Windows machine takes `path` to be absolute.
pub uninterp spec fn windows_absolute(path: Seq<char>) -> bool;

/// The directory `dir` followed by `rest`, as a Windows machine joins paths.
pub uninterp spec fn windows_joined(dir: Seq<char>, rest: Seq<char>) -> Seq<char>;

/// Reads `std::path::MAIN_SEPARATOR`: a backslash on Windows, a slash on POSIX systems.
/// Which one it is rests on the machine, so nothing is claimed of it.
#[verifier::external_body]
fn main_separator() -> (r: char) {
    std::path::MAIN_SEPARATOR
}

/// Calls `std::path::Path::is_absolute`, on a Windows machine. What that machine takes
/// to be absolute is a function of the path: a drive or another prefix, and a root
/// after it. It is given a name, and no more is claimed.
#[verifier::external_body]
fn is_absolute_on_windows(machine: &Machine, path: &str) -> (r: bool)
    requires
        machine.is_windows(),
    ensures
        r == windows_absolute(path@),
{
    std::path::Path::new(path).is_absolute()
}

/// Calls `std::path::Path::join`, on a Windows machine. What it gives is a function of
/// both paths: their roots and prefixes decide what is kept of `dir`. It is given a
/// name, and no more is claimed.
#[verifier::external_body]
fn join_on_windows(machine: &Machine, dir: &str, rest: &str) -> (r: String)
    requires
        machine.is_windows(),
    ensures
        r@ == windows_joined(dir@, rest@),
{
    std::path::Path::new(dir).join(rest).to_string_lossy().into_owned()
}

/// Whether `machine` takes `path` to be absolute: on POSIX systems, where it starts
/// with a slash.
pub open spec fn absolute_on(path: Seq<char>, machine: Machine) -> bool {
    if machine.is_windows() {
        windows_absolute(path)
    } else {
        seq!['/'].is_prefix_of(path)
    }
}

/// The directory `dir` followed by `rest`, as `machine` joins paths: on POSIX systems
/// with a slash between them, unless `rest` is absolute.
pub open spec fn joined_on(dir: Seq<char>, rest: Seq<char>, machine: Machine) -> Seq<char> {
    if machine.is_windows() {
        windows_joined(dir, rest)
    } else if seq!['/'].is_prefix_of(rest) {
        rest
    } else if dir.len() == 0 || dir.last() == '/' {
        dir + rest
    } else {
        dir + seq!['/'] + rest
    }
}

impl Machine {
    /// The home directory, where there is one.
    pub closed spec fn home_dir(self) -> Option<Seq<char>> {
        optional_view(self.home)
    }

    /// Whether it is a Windows machine.
    pub closed spec fn is_windows(self) -> bool {
        self.separator == '\\'
    }

    /// The machine that this runs on, with this home directory.
    pub fn current(home: Option<String>) -> (r: Machine)
        ensures
            r.home_dir() == optional_view(home),
    {
        Machine { home, separator: main_separator() }
    }

    /// A machine of a POSIX system, with this home directory.
    pub fn posix(home: Option<String>) -> (r: Machine)
        ensures
            r.home_dir() == optional_view(home),
            !r.is_windows(),
    {
        Machine { home, separator: '/' }
    }

    /// The home directory, where there is one.
    pub fn home(&self) -> (r: Option<&str>)
        ensures
            match r {
                Some(dir) => self.home_dir() == Some(dir@),
                None => self.home_dir() is None,
            },
    {
        match &self.home {
            Some(dir) => Some(dir.as_str()),
            None => None,
        }
    }

    /// Whether it is a Windows machine.
    pub fn on_windows(&self) -> (r: bool)
        ensures
            r == self.is_windows(),
    {
        self.separator == '\\'
    }

    /// Whether `path` is absolute here.
    pub fn is_absolute(&self, path: &str) -> (r: bool)
        ensures
            r == absolute_on(path@, *self),
    {
        if self.on_windows() {
            return is_absolute_on_windows(self, path);
        }
        proof {
            reveal_strlit("/");
            assert("/"@ =~= seq!['/']);
        }
        has_prefix(path, "/")
    }

    /// The directory `dir` followed by `rest`, as paths are joined here.
    pub fn join(&self, dir: &str, rest: &str) -> (r: String)
        ensures
            r@ == joined_on(dir@, rest@, *self),
    {
        if self.on_windows() {
            return join_on_windows(self, dir, rest);
        }
        proof {
            reveal_strlit("/");
            assert("/"@ =~= seq!['/']);
        }
        if has_prefix(rest, "/") {
            return rest.to_owned();
        }
        let n: usize = dir.unicode_len();
        if n == 0 || dir.get_char(n - 1) == '/' {
            dir.to_owned().concat(rest)
        } else {
            dir.to_owned().concat("/").concat(rest)
        }
    }
}

} // verus!
