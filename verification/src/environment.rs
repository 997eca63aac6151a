//! What the program knows of the session that it runs in.

use crate::text::{lowercase_spec, texts, to_chars, to_lowercase, trim, trim_spec};
use vstd::prelude::*;

verus! {

/// The name that the program goes by where none is given.
pub const DEFAULT_PKG_NAME: &'static str = "wallswitch";

/// The home directory, the desktop and the name of the program.
#[derive(Debug)]
pub struct Environment {
    pub desktop: String,
    pub home: String,
    pub pkg_name: String,
}

/// The text of a desktop name as it is compared: trimmed, in lower case.
pub open spec fn desktop_form(name: Seq<char>) -> Seq<char> {
    lowercase_spec(trim_spec(name))
}

/// The longest of the names in the form in which they are compared, and the
/// last of the longest where there are several: it tells most about the
/// desktop.
pub open spec fn desktop_spec(names: Seq<Seq<char>>) -> Seq<char>
    decreases names.len(),
{
    if names.len() == 0 {
        Seq::<char>::empty()
    } else if names.len() == 1 {
        desktop_form(names[0])
    } else {
        let before = desktop_spec(names.drop_last());
        let last = desktop_form(names.last());
        if last.len() >= before.len() {
            last
        } else {
            before
        }
    }
}

/// The name of the program: the one given, or the default.
pub open spec fn pkg_name_spec(given: Option<String>) -> Seq<char> {
    match given {
        Some(name) => name@,
        None => DEFAULT_PKG_NAME@,
    }
}

/// The desktop among the names that the session gives it.
pub fn get_desktop(names: &Vec<String>) -> (r: String)
    requires
        names@.len() > 0,
    ensures
        r@ == desktop_spec(texts(names@)),
{
    let ghost all = texts(names@);
    let mut best = to_lowercase(trim(names[0].as_str()).as_str());
    let mut width: usize = to_chars(best.as_str()).len();
    let mut i: usize = 1;
    assert(all.take(1).drop_last() =~= Seq::<Seq<char>>::empty());
    assert(all.take(1)[0] == names@[0]@);
    while i < names.len()
        invariant
            1 <= i <= names@.len(),
            all == texts(names@),
            best@ == desktop_spec(all.take(i as int)),
            width == best@.len(),
        decreases names@.len() - i,
    {
        let name = to_lowercase(trim(names[i].as_str()).as_str());
        let name_width = to_chars(name.as_str()).len();
        proof {
            let next = all.take(i + 1);
            assert(next.drop_last() =~= all.take(i as int));
            assert(next.last() == names@[i as int]@);
        }
        if name_width >= width {
            best = name;
            width = name_width;
        }
        i += 1;
    }
    assert(all.take(names@.len() as int) =~= all);
    best
}

/// The name of the program: the one given, or the default.
pub fn get_pkg_name(given: Option<String>) -> (r: String)
    ensures
        r@ == pkg_name_spec(given),
{
    match given {
        Some(name) => name,
        None => DEFAULT_PKG_NAME.to_string(),
    }
}

impl Environment {
    /// The environment of a session with the home directory `home`, whose
    /// desktop goes by the names `desktops`, for a program that was given
    /// the name `pkg_name`, if any.
    pub fn new(home: String, desktops: &Vec<String>, pkg_name: Option<String>) -> (r: Environment)
        requires
            desktops@.len() > 0,
        ensures
            r.home == home,
            r.desktop@ == desktop_spec(texts(desktops@)),
            r.pkg_name@ == pkg_name_spec(pkg_name),
    {
        Environment { desktop: get_desktop(desktops), home, pkg_name: get_pkg_name(pkg_name) }
    }

    /// The desktop of the session.
    pub fn get_desktop(&self) -> (r: &str)
        ensures
            r@ == self.desktop@,
    {
        self.desktop.as_str()
    }

    /// The home directory.
    pub fn get_home(&self) -> (r: &str)
        ensures
            r@ == self.home@,
    {
        self.home.as_str()
    }

    /// The name of the program.
    pub fn get_pkg_name(&self) -> (r: &str)
        ensures
            r@ == self.pkg_name@,
    {
        self.pkg_name.as_str()
    }
}

} // verus!
