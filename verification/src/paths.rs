//! Path assembly over plain strings: joining path segments with `/`,
//! with an absolute segment replacing what was built so far.

use vstd::prelude::*;

verus! {

/// What pushing `b` onto `a` yields: `b` alone when absolute, otherwise
/// `a` and `b` joined with exactly one separator.
pub open spec fn spec_path_push(a: Seq<char>, b: Seq<char>) -> Seq<char> {
    if b.len() > 0 && b[0] == '/' {
        b
    } else if a.len() == 0 {
        b
    } else if a.last() == '/' {
        a + b
    } else {
        a + seq!['/'] + b
    }
}

/// A path under construction.
#[derive(Debug)]
pub struct PathBuilder {
    inner: String,
}

impl PathBuilder {
    pub closed spec fn view(&self) -> Seq<char> {
        self.inner@
    }

    /// Starts from a path.
    pub fn from_path(path: &str) -> (r: PathBuilder)
        ensures
            r@ == path@,
    {
        PathBuilder { inner: path.to_owned() }
    }

    /// Adds one segment.
    pub fn push(self, path: &str) -> (r: PathBuilder)
        ensures
            r@ == spec_path_push(self@, path@),
    {
        let absolute = path.unicode_len() > 0 && path.get_char(0) == '/';
        if absolute {
            return PathBuilder { inner: path.to_owned() };
        }
        let mut inner = self.inner;
        let n = inner.as_str().unicode_len();
        if n == 0 {
            return PathBuilder { inner: path.to_owned() };
        }
        if inner.as_str().get_char(n - 1) != '/' {
            inner.append("/");
            proof {
                reveal_strlit("/");
            }
        }
        inner.append(path);
        PathBuilder { inner }
    }

    /// The assembled path.
    pub fn build(self) -> (r: String)
        ensures
            r@ == self@,
    {
        self.inner
    }
}

/// Joins two path segments.
pub fn path_concat2(p1: &str, p2: &str) -> (r: String)
    ensures
        r@ == spec_path_push(p1@, p2@),
{
    PathBuilder::from_path(p1).push(p2).build()
}

} // verus!
