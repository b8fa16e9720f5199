//! The application's identity.
use vstd::prelude::*;

use crate::text::{chars_of, push_char, push_chars};

verus! {

/// The version label: the package version, then in parentheses the build's commit
/// (from `BUILD_SHA`, else `GITHUB_SHA`), or "dev" when neither is set.
pub open spec fn version_label(
    version: Seq<char>,
    build_sha: Option<Seq<char>>,
    github_sha: Option<Seq<char>>,
) -> Seq<char> {
    let sha = match build_sha {
        Some(s) => s,
        None => match github_sha {
            Some(s) => s,
            None => "dev"@,
        },
    };
    version + seq![' ', '('] + sha + seq![')']
}

/// The character view of an optional string slice.
pub open spec fn opt_str_view(o: Option<&str>) -> Option<Seq<char>> {
    match o {
        Some(s) => Some(s@),
        None => None,
    }
}

/// The web application.
pub struct App;

impl App {
    /// The version label shown by the application (see `version_label`).
    pub fn app_version(version: &str, build_sha: Option<&str>, github_sha: Option<&str>) -> (r: String)
        ensures
            r@ == version_label(version@, opt_str_view(build_sha), opt_str_view(github_sha)),
    {
        let sha: &str = match build_sha {
            Some(s) => s,
            None => match github_sha {
                Some(s) => s,
                None => "dev",
            },
        };
        let mut r = String::new();
        let v = chars_of(version);
        push_chars(&mut r, &v);
        push_char(&mut r, ' ');
        push_char(&mut r, '(');
        let s = chars_of(sha);
        push_chars(&mut r, &s);
        push_char(&mut r, ')');
        assert(r@ =~= version_label(version@, opt_str_view(build_sha), opt_str_view(github_sha)));
        r
    }
}

} // verus!
