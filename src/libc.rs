//! The fixed capability table: the headers the interpreter knows and the
//! functions they export.
use vstd::prelude::*;

verus! {

/// The recognised headers, and the functions of the standard I/O header.
pub struct LibC {
    pub filepaths: Vec<String>,
    pub stdio: Stdio,
}

/// The functions that the standard I/O header exports.
pub struct Stdio {
    pub funcnames: Vec<String>,
}

/// The models of a vector of strings.
pub open spec fn strings_view(v: Seq<String>) -> Seq<Seq<char>> {
    v.map_values(|s: String| s@)
}

impl LibC {
    /// The names of the recognised headers.
    pub open spec fn headers(&self) -> Seq<Seq<char>> {
        strings_view(self.filepaths@)
    }

    /// The names of the functions that a recognised header exports.
    pub open spec fn exports(&self) -> Seq<Seq<char>> {
        strings_view(self.stdio.funcnames@)
    }

    /// The standard table: `stdio.h`, which exports `printf`.
    pub fn new() -> (r: Self)
        ensures
            r.headers() == seq!["stdio.h"@],
            r.exports() == seq!["printf"@],
    {
        let mut filepaths: Vec<String> = Vec::new();
        filepaths.push(String::from_str("stdio.h"));
        let stdio = Stdio::new();
        let r = Self { filepaths, stdio };
        proof {
            assert(r.headers() =~= seq!["stdio.h"@]);
        }
        r
    }
}

impl Stdio {
    pub fn new() -> (r: Self)
        ensures
            strings_view(r.funcnames@) == seq!["printf"@],
    {
        let mut funcnames: Vec<String> = Vec::new();
        funcnames.push(String::from_str("printf"));
        let r = Self { funcnames };
        proof {
            assert(strings_view(r.funcnames@) =~= seq!["printf"@]);
        }
        r
    }
}

} // verus!
