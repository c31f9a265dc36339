use vstd::prelude::*;
use vstd::string::StrSliceExecFns;
use vstd::string::StringExecFns;

verus! {

/// A path written as a non-empty string that starts at the filesystem
/// root.
pub open spec fn is_absolute(s: Seq<char>) -> bool {
    s.len() > 0 && s[0] == '/'
}

/// Relies on path_absolutize::Absolutize::absolutize: on a non-empty path
/// it resolves `.` and `..` against the process's current directory and
/// yields an absolute path. `None` when the current directory cannot be
/// read or the result is not valid UTF-8.
#[verifier::external_body]
pub fn to_absolute_path(path: &String) -> (r: Option<String>)
    ensures
        path@.len() > 0 && r is Some ==> is_absolute(r->0@),
{
    let p = std::path::Path::new(path.as_str());
    match path_absolutize::Absolutize::absolutize(p) {
        Ok(abs) => abs.to_str().map(|s| s.to_string()),
        Err(_) => None,
    }
}

/// Resolve the directory the tool synchronizes under to an absolute path.
pub fn to_valid_syncing_directory(sync_directory: &String) -> (r: Option<String>)
    ensures
        sync_directory@.len() > 0 && r is Some ==> is_absolute(r->0@),
{
    to_absolute_path(sync_directory)
}

/// Each path starts with `root` and one separator; what follows is the
/// relative path.
pub open spec fn all_under_root(paths: Seq<Seq<char>>, root: Seq<char>) -> bool {
    forall|i: int|
        0 <= i < paths.len() ==> (#[trigger] paths[i]).len() > root.len() + 1 && paths[i].subrange(
            0,
            root.len() + 1 as int,
        ) == root + seq!['/']
}

/// Strip the root directory and its trailing separator from every
/// enumerated path.
pub fn to_relative_paths(paths: Vec<String>, root: &String) -> (r: Vec<String>)
    requires
        all_under_root(paths@.map_values(|p: String| p@), root@),
    ensures
        r@.len() == paths@.len(),
        forall|i: int|
            0 <= i < r@.len() ==> (#[trigger] r@[i])@ == paths@[i]@.skip(root@.len() + 1 as int),
{
    let mut out: Vec<String> = Vec::new();
    let rootn = root.as_str().unicode_len();
    let mut i: usize = 0;
    while i < paths.len()
        invariant
            i <= paths@.len(),
            rootn == root@.len(),
            all_under_root(paths@.map_values(|p: String| p@), root@),
            out@.len() == i,
            forall|j: int|
                0 <= j < i ==> (#[trigger] out@[j])@ == paths@[j]@.skip(root@.len() + 1 as int),
        decreases paths@.len() - i,
    {
        let p = &paths[i];
        let n = p.as_str().unicode_len();
        proof {
            assert(paths@.map_values(|q: String| q@)[i as int] == p@);
        }
        let rel = p.as_str().substring_char(rootn + 1, n);
        out.push(rel.to_owned());
        proof {
            assert(p@.subrange(rootn + 1, n as int) =~= p@.skip(root@.len() + 1 as int));
        }
        i += 1;
    }
    out
}

} // verus!
