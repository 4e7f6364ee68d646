//! Node paths in a Zarr hierarchy.

use vstd::prelude::*;
use vstd::string::StrSliceExecFns;
use vstd::string::StringExecFns;

verus! {

/// A node path is valid: it begins with `/`, has no empty component, and,
/// except for the root, does not end with one.
pub open spec fn node_path_valid(s: Seq<char>) -> bool {
    &&& s.len() >= 1
    &&& s[0] == '/'
    &&& (s.len() == 1 || s[s.len() - 1] != '/')
    &&& forall|i: int| 0 <= i < s.len() - 1 ==> !(#[trigger] s[i] == '/' && s[i + 1] == '/')
}

/// An invalid node path.
#[derive(Clone, Debug)]
pub struct NodePathError {
    /// The offending path.
    pub path: String,
}

impl NodePathError {
    /// The error message.
    pub fn to_string(&self) -> (r: String)
        ensures
            r@ == "invalid node path "@ + self.path@,
    {
        let mut s = String::new();
        s.append("invalid node path ");
        s.append(self.path.as_str());
        proof {
            assert(Seq::<char>::empty() + "invalid node path "@ + self.path@ =~= "invalid node path "@
                + self.path@);
        }
        s
    }
}

/// The path of a node (an array or a group) in a hierarchy.
#[derive(Clone, Debug)]
pub struct NodePath {
    path: String,
}

impl NodePath {
    /// The characters of the path.
    pub closed spec fn spec_path(&self) -> Seq<char> {
        self.path@
    }

    /// The path is valid.
    pub open spec fn wf(&self) -> bool {
        node_path_valid(self.spec_path())
    }

    /// Create a node path.
    ///
    /// Fails with [`NodePathError`] if and only if the path does not begin
    /// with `/`, or ends with `/` without being the root.
    pub fn new(path: &str) -> (r: Result<Self, NodePathError>)
        ensures
            r is Ok <==> node_path_valid(path@),
            r matches Ok(p) ==> p.spec_path() == path@ && p.wf(),
            r matches Err(e) ==> e.path@ == path@,
    {
        let n = path.unicode_len();
        if n == 0 {
            return Err(NodePathError { path: path.to_owned() });
        }
        if path.get_char(0) != '/' {
            return Err(NodePathError { path: path.to_owned() });
        }
        if n > 1 && path.get_char(n - 1) == '/' {
            return Err(NodePathError { path: path.to_owned() });
        }
        let mut i: usize = 0;
        while i + 1 < n
            invariant
                0 <= i,
                i + 1 <= n || i == 0,
                n == path@.len(),
                forall|j: int|
                    0 <= j < i ==> !(#[trigger] path@[j] == '/' && path@[j + 1] == '/'),
            decreases n - i,
        {
            if path.get_char(i) == '/' && path.get_char(i + 1) == '/' {
                return Err(NodePathError { path: path.to_owned() });
            }
            i = i + 1;
        }
        Ok(NodePath { path: path.to_owned() })
    }

    /// The path as a string slice.
    pub fn as_str(&self) -> (r: &str)
        ensures
            r@ == self.spec_path(),
    {
        self.path.as_str()
    }
}

} // verus!
