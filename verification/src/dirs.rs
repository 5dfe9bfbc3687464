//! Where games are installed.

use vstd::prelude::*;

use crate::path;
use crate::path::join;

verus! {

broadcast use vstd::string::group_string_axioms;

/// Filesystem root for game installations. Always injected, so that everything can
/// be redirected at another directory.
#[derive(Debug, PartialEq, Eq)]
pub struct Dirs {
    pub app_support: String,
}

impl View for Dirs {
    type V = Seq<char>;

    open spec fn view(&self) -> Seq<char> {
        self.app_support@
    }
}

impl Clone for Dirs {
    fn clone(&self) -> (r: Dirs)
        ensures
            r@ == self@,
    {
        Dirs { app_support: self.app_support.clone() }
    }
}

impl Dirs {
    /// `~/Library/Application Support`, where there is a home directory.
    pub fn system(home: Option<&str>) -> (r: Option<Dirs>)
        ensures
            r is Some <==> home is Some,
            r matches Some(d) ==> d@ == path::under(home->0@, "Library/Application Support"@),
    {
        match home {
            Some(home) => Some(Dirs { app_support: join(home, "Library/Application Support") }),
            None => None,
        }
    }

    /// Everything under `root`.
    pub fn at(root: &str) -> (d: Dirs)
        ensures
            d@ == root@,
    {
        Dirs { app_support: root.to_owned() }
    }
}

} // verus!
