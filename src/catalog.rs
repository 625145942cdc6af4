use vstd::prelude::*;

verus! {

/// A module path given explicitly, with whether it exists on the filesystem.
#[derive(Debug)]
pub struct ExplicitPath {
    pub path: String,
    pub exists: bool,
}

/// One entry of a scanned directory, with whether it is an existing regular
/// file.
#[derive(Debug)]
pub struct ScannedEntry {
    pub path: String,
    pub is_file: bool,
}

/// The extension of the file name of `path`, as `std::path::Path::extension`
/// finds it.
pub uninterp spec fn path_extension(path: Seq<char>) -> Option<Seq<char>>;

/// The extensions native modules carry on the platforms the loader supports.
pub open spec fn is_platform_extension(ext: Seq<char>) -> bool {
    ext == seq!['s', 'o'] || ext == seq!['d', 'y', 'l', 'i', 'b'] || ext == seq!['d', 'l', 'l']
}

/// Relies on `std::path::Path::extension`: the extension of the path's file
/// name, which depends on the path alone.
#[verifier::external_body]
fn extension_of(path: &String) -> (r: Option<String>)
    ensures
        r matches Some(e) ==> path_extension(path@) == Some(e@),
        r is None ==> path_extension(path@) is None,
{
    std::path::Path::new(path.as_str()).extension().and_then(|e| e.to_str()).map(|e| e.to_string())
}

/// Relies on `dlopen::utils::PLATFORM_FILE_EXTENSION`: the file extension of
/// dynamic libraries on the target platform.
#[verifier::external_body]
fn platform_extension() -> (r: String)
    ensures
        is_platform_extension(r@),
{
    dlopen::utils::PLATFORM_FILE_EXTENSION.to_string()
}

/// A scanned entry is a candidate module: a regular file with extension `ext`.
pub open spec fn keeps_scanned(e: ScannedEntry, ext: Seq<char>) -> bool {
    e.is_file && path_extension(e.path@) == Some(ext)
}

/// `p` is a path that discovery should try.
pub open spec fn is_candidate(
    explicit: Seq<ExplicitPath>,
    scanned: Seq<ScannedEntry>,
    ext: Seq<char>,
    p: Seq<char>,
) -> bool {
    (exists|i: int| 0 <= i < explicit.len() && #[trigger] explicit[i].exists && explicit[i].path@ == p)
        || (exists|j: int|
        0 <= j < scanned.len() && #[trigger] keeps_scanned(scanned[j], ext) && scanned[j].path@ == p)
}

/// The views of a list of paths.
pub open spec fn paths_of(r: Seq<String>) -> Seq<Seq<char>> {
    r.map_values(|s: String| s@)
}

/// `r` lists every candidate path exactly once, and nothing else.
pub open spec fn is_discovery(
    explicit: Seq<ExplicitPath>,
    scanned: Seq<ScannedEntry>,
    ext: Seq<char>,
    r: Seq<Seq<char>>,
) -> bool {
    &&& r.no_duplicates()
    &&& forall|p: Seq<char>| r.contains(p) <==> is_candidate(explicit, scanned, ext, p)
}

/// A path that is given explicitly and also found by a directory scan is
/// listed exactly once.
pub proof fn lemma_discovery_dedups(
    explicit: Seq<ExplicitPath>,
    scanned: Seq<ScannedEntry>,
    ext: Seq<char>,
    r: Seq<Seq<char>>,
    i: int,
    j: int,
)
    requires
        is_discovery(explicit, scanned, ext, r),
        0 <= i < explicit.len(),
        explicit[i].exists,
        0 <= j < scanned.len(),
        keeps_scanned(scanned[j], ext),
        scanned[j].path@ == explicit[i].path@,
    ensures
        exists|k: int|
            0 <= k < r.len() && r[k] == explicit[i].path@ && (forall|m: int|
                0 <= m < r.len() && r[m] == explicit[i].path@ ==> m == k),
{
    let p = explicit[i].path@;
    assert(is_candidate(explicit, scanned, ext, p));
    assert(r.contains(p));
    let k = choose|k: int| 0 <= k < r.len() && r[k] == p;
    assert forall|m: int| 0 <= m < r.len() && r[m] == p implies m == k by {
        if m != k {
            assert(r[m] == r[k]);
        }
    }
}

/// Appending `x` adds exactly `x` to what a list contains.
pub(crate) proof fn lemma_push_contains(s: Seq<Seq<char>>, x: Seq<char>)
    ensures
        forall|q: Seq<char>| s.push(x).contains(q) <==> (s.contains(q) || q == x),
{
    assert forall|q: Seq<char>| s.push(x).contains(q) <==> (s.contains(q) || q == x) by {
        if s.contains(q) {
            let m = choose|m: int| 0 <= m < s.len() && s[m] == q;
            assert(s.push(x)[m] == q);
        }
        if q == x {
            assert(s.push(x)[s.len() as int] == q);
        }
        if s.push(x).contains(q) && q != x {
            let m = choose|m: int| 0 <= m < s.push(x).len() && s.push(x)[m] == q;
            assert(s[m] == q);
        }
    }
}

/// Appending an element that is not there keeps a list free of duplicates.
pub(crate) proof fn lemma_push_unique(s: Seq<Seq<char>>, x: Seq<char>)
    requires
        s.no_duplicates(),
        !s.contains(x),
    ensures
        s.push(x).no_duplicates(),
{
    let t = s.push(x);
    assert forall|a: int, b: int| 0 <= a < t.len() && 0 <= b < t.len() && a != b implies t[a] != t[b] by {
        if a == s.len() as int {
            assert(s[b] == t[b]);
        } else if b == s.len() as int {
            assert(s[a] == t[a]);
        }
    }
}

/// Whether `v` holds a path equal to `p`.
fn contains_path(v: &Vec<String>, p: &String) -> (r: bool)
    ensures
        r == paths_of(v@).contains(p@),
{
    let mut k: usize = 0;
    while k < v.len()
        invariant
            k <= v.len(),
            forall|m: int| 0 <= m < k ==> v@[m]@ != p@,
        decreases v.len() - k,
    {
        if v[k] == *p {
            assert(paths_of(v@)[k as int] == p@);
            return true;
        }
        k = k + 1;
    }
    proof {
        if paths_of(v@).contains(p@) {
            let m = choose|m: int| 0 <= m < v@.len() && paths_of(v@)[m] == p@;
            assert(v@[m]@ == p@);
        }
    }
    false
}

/// Adds `p` to `found` unless an equal path is already there.
fn insert_path(found: &mut Vec<String>, p: &String)
    requires
        paths_of(old(found)@).no_duplicates(),
    ensures
        paths_of(final(found)@).no_duplicates(),
        forall|q: Seq<char>|
            paths_of(final(found)@).contains(q) <==> (paths_of(old(found)@).contains(q) || q == p@),
{
    if !contains_path(found, p) {
        let ghost before = paths_of(found@);
        found.push(p.clone());
        proof {
            assert(paths_of(found@) =~= before.push(p@));
            lemma_push_contains(before, p@);
            lemma_push_unique(before, p@);
        }
    }
}

/// The deduplicated list of module paths to try, for the module extension
/// `ext`: each explicit path that exists, and each scanned entry that is a
/// regular file whose extension is `ext`.
pub fn discover_with_extension(
    explicit: &Vec<ExplicitPath>,
    scanned: &Vec<ScannedEntry>,
    ext: &String,
) -> (r: Vec<String>)
    ensures
        is_discovery(explicit@, scanned@, ext@, paths_of(r@)),
{
    let mut found: Vec<String> = Vec::new();
    let mut i: usize = 0;
    while i < explicit.len()
        invariant
            i <= explicit.len(),
            paths_of(found@).no_duplicates(),
            forall|q: Seq<char>|
                paths_of(found@).contains(q) <==> (exists|k: int|
                    0 <= k < i && #[trigger] explicit@[k].exists && explicit@[k].path@ == q),
        decreases explicit.len() - i,
    {
        if explicit[i].exists {
            insert_path(&mut found, &explicit[i].path);
        }
        proof {
            assert forall|q: Seq<char>|
                paths_of(found@).contains(q) <==> (exists|k: int|
                    0 <= k < i + 1 && #[trigger] explicit@[k].exists && explicit@[k].path@ == q) by {
                if explicit@[i as int].exists && explicit@[i as int].path@ == q {
                    assert(0 <= i < i + 1);
                }
            }
        }
        i = i + 1;
    }
    let mut j: usize = 0;
    while j < scanned.len()
        invariant
            j <= scanned.len(),
            i == explicit.len(),
            paths_of(found@).no_duplicates(),
            forall|q: Seq<char>|
                paths_of(found@).contains(q) <==> ((exists|k: int|
                    0 <= k < i && #[trigger] explicit@[k].exists && explicit@[k].path@ == q) || (exists|k: int|
                    0 <= k < j && #[trigger] keeps_scanned(scanned@[k], ext@) && scanned@[k].path@ == q)),
        decreases scanned.len() - j,
    {
        let keep = if scanned[j].is_file {
            match extension_of(&scanned[j].path) {
                Some(e) => e == *ext,
                None => false,
            }
        } else {
            false
        };
        assert(keep == keeps_scanned(scanned@[j as int], ext@));
        if keep {
            insert_path(&mut found, &scanned[j].path);
        }
        proof {
            assert forall|q: Seq<char>|
                paths_of(found@).contains(q) <==> ((exists|k: int|
                    0 <= k < i && #[trigger] explicit@[k].exists && explicit@[k].path@ == q) || (exists|k: int|
                    0 <= k < j + 1 && #[trigger] keeps_scanned(scanned@[k], ext@) && scanned@[k].path@ == q)) by {
                if keeps_scanned(scanned@[j as int], ext@) && scanned@[j as int].path@ == q {
                    assert(0 <= j < j + 1);
                }
            }
        }
        j = j + 1;
    }
    found
}

/// The deduplicated list of module paths to try, for the platform's native
/// module extension.
pub fn discover(explicit: &Vec<ExplicitPath>, scanned: &Vec<ScannedEntry>) -> (r: Vec<String>)
    ensures
        exists|ext: Seq<char>|
            is_platform_extension(ext) && is_discovery(explicit@, scanned@, ext, paths_of(r@)),
{
    let ext = platform_extension();
    discover_with_extension(explicit, scanned, &ext)
}

} // verus!
