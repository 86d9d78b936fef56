use vstd::prelude::*;

use crate::model::JavaError;
use crate::platform::Platform;
use crate::text::{
    chars_of, eq_ignoring_case, matches_at_ignoring_case, matches_at_ignoring_case_exec, str_equal,
};

verus! {

// ---------------------------------------------------------------------------
// Path operations of the standard library
// ---------------------------------------------------------------------------

/// What `Path::parent` gives for a path, as text.
pub uninterp spec fn path_parent_of(path: Seq<char>) -> Option<Seq<char>>;

/// What `Path::file_name` gives for a path, as text.
pub uninterp spec fn path_file_name_of(path: Seq<char>) -> Option<Seq<char>>;

/// The extension of a file name: the text after its last dot, when the name has a dot
/// that is not its first character; none otherwise.
pub open spec fn name_extension(name: Seq<char>) -> Option<Seq<char>> {
    if exists|i: int| 0 < i < name.len() && name[i] == '.' {
        let i = choose|i: int|
            0 < i < name.len() && name[i] == '.' && forall|j: int|
                i < j < name.len() ==> name[j] != '.';
        Some(name.skip(i + 1))
    } else {
        None
    }
}

/// A file name `<stem>.<ext>` with a non-empty stem and no dot in `<ext>` has the
/// extension `<ext>`; a name whose only dot, if any, is its first character has none.
pub proof fn lemma_name_extension(stem: Seq<char>, ext: Seq<char>, plain: Seq<char>)
    requires
        stem.len() > 0,
        !ext.contains('.'),
        forall|i: int| 0 < i < plain.len() ==> plain[i] != '.',
    ensures
        name_extension(stem + seq!['.'] + ext) == Some(ext),
        name_extension(plain) is None,
{
    let name = stem + seq!['.'] + ext;
    let d = stem.len() as int;
    assert(0 < d < name.len() && name[d] == '.');
    assert forall|j: int| d < j < name.len() implies name[j] != '.' by {
        assert(name[j] == ext[j - d - 1]);
    }
    let c = choose|k: int|
        0 < k < name.len() && name[k] == '.' && forall|j: int| k < j < name.len() ==> name[j] != '.';
    assert(c == d) by {
        if c < d {
            assert(name[d] != '.');
        } else if c > d {
            assert(name[c] == ext[c - d - 1]);
        }
    }
    assert(name.skip(d + 1) =~= ext);
}

/// The extension of the file name of a path; none when the path has no file name.
pub open spec fn path_extension_of(path: Seq<char>) -> Option<Seq<char>> {
    match path_file_name_of(path) {
        Some(n) => name_extension(n),
        None => None,
    }
}

/// What `Path::join` gives for a base path and a relative tail, as text.
pub uninterp spec fn path_join_of(base: Seq<char>, tail: Seq<char>) -> Seq<char>;

/// The text of an optional string.
pub open spec fn opt_text(o: Option<String>) -> Option<Seq<char>> {
    match o {
        Some(s) => Some(s@),
        None => None,
    }
}

/// `std::path::Path::parent`: the path without its final component. On a given
/// target the result depends on the path text alone; this contract only names it,
/// since the component rules differ between targets.
#[verifier::external_body]
pub(crate) fn path_parent(path: &str) -> (r: Option<String>)
    ensures
        opt_text(r) == path_parent_of(path@),
{
    match std::path::Path::new(path).parent() {
        Some(p) => Some(p.to_string_lossy().into_owned()),
        None => None,
    }
}

/// `std::path::Path::file_name`: the final component of the path, if it is a normal
/// one. Named only, as for `path_parent`.
#[verifier::external_body]
pub(crate) fn path_file_name(path: &str) -> (r: Option<String>)
    ensures
        opt_text(r) == path_file_name_of(path@),
{
    match std::path::Path::new(path).file_name() {
        Some(n) => Some(n.to_string_lossy().into_owned()),
        None => None,
    }
}

/// The extension of a file name: the text after its last dot, when that dot is not the
/// name's first character.
fn name_extension_exec(name: &str) -> (r: Option<String>)
    ensures
        opt_text(r) == name_extension(name@),
{
    let cs = chars_of(name);
    let n = cs.len();
    let mut i: usize = n;
    while i > 0 && cs[i - 1] != '.'
        invariant
            n == cs@.len(),
            cs@ == name@,
            i <= n,
            forall|j: int| i <= j < n ==> cs@[j] != '.',
        decreases i,
    {
        i = i - 1;
    }
    // now either i == 0 (no dot) or cs[i - 1] is the last dot
    if i <= 1 {
        assert(!exists|k: int| 0 < k < name@.len() && name@[k] == '.') by {
            if exists|k: int| 0 < k < name@.len() && name@[k] == '.' {
                let k = choose|k: int| 0 < k < name@.len() && name@[k] == '.';
                assert(cs@[k] != '.');
            }
        }
        return None;
    }
    let d = i - 1;
    assert(0 < d < name@.len() && name@[d as int] == '.');
    let ghost c = choose|k: int|
        0 < k < name@.len() && name@[k] == '.' && forall|j: int| k < j < name@.len() ==> name@[j] != '.';
    assert(0 < d < name@.len() && name@[d as int] == '.' && forall|j: int|
        d < j < name@.len() ==> name@[j] != '.');
    assert(c == d) by {
        if c < d {
            assert(name@[d as int] != '.');
        } else if c > d {
            assert(cs@[c] != '.');
        }
    }
    let ext = name.substring_char(i, n);
    assert(ext@ =~= name@.skip(d + 1));
    Some(String::from_str(ext))
}

/// The extension of the file name of `path`, as `std::path::Path::extension` documents
/// it: none when the path has no file name, when the file name has no dot, or when its
/// only dot is its first character; otherwise the part of the file name after its last
/// dot.
pub fn path_extension(path: &str) -> (r: Option<String>)
    ensures
        opt_text(r) == path_extension_of(path@),
{
    match path_file_name(path) {
        Some(name) => name_extension_exec(name.as_str()),
        None => None,
    }
}

/// `std::path::Path::join`: `tail` adjoined to `base` with the target's separator.
/// Named only, as for `path_parent`.
#[verifier::external_body]
pub(crate) fn path_join(base: &str, tail: &str) -> (r: String)
    ensures
        r@ == path_join_of(base@, tail@),
{
    std::path::Path::new(base).join(tail).to_string_lossy().into_owned()
}

// ---------------------------------------------------------------------------
// Installation roots
// ---------------------------------------------------------------------------

/// The installation root chosen for an executable from its parent directory, that
/// directory's name and the parent's parent: the grandparent when the executable
/// sits in a `bin` directory, else the parent, else the executable path itself.
pub open spec fn java_home_choice(
    exe: Seq<char>,
    parent: Option<Seq<char>>,
    parent_name: Option<Seq<char>>,
    grandparent: Option<Seq<char>>,
) -> Seq<char> {
    match parent {
        Some(p) => if parent_name == Some("bin"@) && grandparent is Some {
            grandparent->0
        } else {
            p
        },
        None => exe,
    }
}

/// The installation root of an executable that sits in a `bin` directory.
pub open spec fn bin_home_choice(
    parent: Option<Seq<char>>,
    parent_name: Option<Seq<char>>,
    grandparent: Option<Seq<char>>,
) -> Option<Seq<char>> {
    if parent is Some && parent_name == Some("bin"@) {
        grandparent
    } else {
        None
    }
}

/// The name of the parent directory of `exe`.
pub open spec fn parent_name_of(exe: Seq<char>) -> Option<Seq<char>> {
    match path_parent_of(exe) {
        Some(p) => path_file_name_of(p),
        None => None,
    }
}

/// The parent of the parent directory of `exe`.
pub open spec fn grandparent_of(exe: Seq<char>) -> Option<Seq<char>> {
    match path_parent_of(exe) {
        Some(p) => path_parent_of(p),
        None => None,
    }
}

/// The installation root inferred for an executable path.
pub open spec fn java_home_of(exe: Seq<char>) -> Seq<char> {
    java_home_choice(exe, path_parent_of(exe), parent_name_of(exe), grandparent_of(exe))
}

/// The installation root of an executable path that has the `<root>/bin/<exe>` shape.
pub open spec fn bin_home_of(exe: Seq<char>) -> Option<Seq<char>> {
    bin_home_choice(path_parent_of(exe), parent_name_of(exe), grandparent_of(exe))
}

fn is_bin(name: &Option<String>) -> (r: bool)
    ensures
        r == (opt_text(*name) == Some("bin"@)),
{
    match name {
        Some(n) => str_equal(n.as_str(), "bin"),
        None => false,
    }
}

/// Chooses the installation root of `exe` from its ancestors.
pub fn java_home_from_ancestors(
    exe: &str,
    parent: Option<String>,
    parent_name: Option<String>,
    grandparent: Option<String>,
) -> (r: String)
    ensures
        r@ == java_home_choice(exe@, opt_text(parent), opt_text(parent_name), opt_text(grandparent)),
{
    let named_bin = is_bin(&parent_name);
    match parent {
        Some(p) => if named_bin {
            match grandparent {
                Some(g) => g,
                None => p,
            }
        } else {
            p
        },
        None => String::from_str(exe),
    }
}

/// Chooses the installation root of an executable in a `bin` directory from its ancestors.
pub fn bin_home_from_ancestors(
    parent: Option<String>,
    parent_name: Option<String>,
    grandparent: Option<String>,
) -> (r: Option<String>)
    ensures
        opt_text(r) == bin_home_choice(opt_text(parent), opt_text(parent_name), opt_text(grandparent)),
{
    if parent.is_some() && is_bin(&parent_name) {
        grandparent
    } else {
        None
    }
}

/// Infers `JAVA_HOME` from the path of a Java executable (usually `JAVA_HOME/bin/java`).
pub fn determine_java_home(java_exe_path: &str) -> (r: String)
    ensures
        r@ == java_home_of(java_exe_path@),
{
    let parent = path_parent(java_exe_path);
    let (parent_name, grandparent) = match &parent {
        Some(p) => (path_file_name(p.as_str()), path_parent(p.as_str())),
        None => (None, None),
    };
    java_home_from_ancestors(java_exe_path, parent, parent_name, grandparent)
}

/// Infers `JAVA_HOME` from the full path of a Java executable, when that executable
/// sits in a `bin` directory.
pub fn extract_java_home_from_executable_path(exe_path: &str) -> (r: Option<String>)
    ensures
        opt_text(r) == bin_home_of(exe_path@),
{
    let parent = path_parent(exe_path);
    let (parent_name, grandparent) = match &parent {
        Some(p) => (path_file_name(p.as_str()), path_parent(p.as_str())),
        None => (None, None),
    };
    bin_home_from_ancestors(parent, parent_name, grandparent)
}

/// Whenever an executable sits in a `bin` directory, both ways of inferring its
/// installation root agree.
pub proof fn lemma_bin_home_agrees(exe: Seq<char>)
    ensures
        bin_home_of(exe) matches Some(h) ==> java_home_of(exe) == h,
{
}

// ---------------------------------------------------------------------------
// Executables
// ---------------------------------------------------------------------------

/// Whether a file name (and its extension) is that of a Java executable: on Windows an
/// `.exe` file whose name begins with `java`, both ignoring ASCII case; elsewhere a
/// file named exactly `java`.
pub open spec fn java_executable_name(
    platform: Platform,
    file_name: Option<Seq<char>>,
    extension: Option<Seq<char>>,
) -> bool {
    if platform == Platform::Windows {
        &&& extension matches Some(e) && eq_ignoring_case(e, "exe"@)
        &&& file_name matches Some(n) && matches_at_ignoring_case(n, "java"@, 0)
    } else {
        file_name == Some("java"@)
    }
}

/// Whether `path` names a Java executable.
pub open spec fn is_java_executable_path(platform: Platform, path: Seq<char>) -> bool {
    java_executable_name(platform, path_file_name_of(path), path_extension_of(path))
}

/// Decides from its file name and extension whether a file is a Java executable.
pub fn is_java_executable_name(
    platform: Platform,
    file_name: &Option<String>,
    extension: &Option<String>,
) -> (r: bool)
    ensures
        r == java_executable_name(platform, opt_text(*file_name), opt_text(*extension)),
{
    if platform == Platform::Windows {
        let ext_ok = match extension {
            Some(e) => {
                let ec = chars_of(e.as_str());
                let exe = chars_of("exe");
                ec.len() == exe.len() && matches_at_ignoring_case_exec(&ec, &exe, 0)
            },
            None => false,
        };
        let name_ok = match file_name {
            Some(n) => {
                let nc = chars_of(n.as_str());
                let java = chars_of("java");
                matches_at_ignoring_case_exec(&nc, &java, 0)
            },
            None => false,
        };
        ext_ok && name_ok
    } else {
        match file_name {
            Some(n) => str_equal(n.as_str(), "java"),
            None => false,
        }
    }
}

/// Whether `path` names a Java executable.
pub fn is_java_executable(platform: Platform, path: &str) -> (r: bool)
    ensures
        r == is_java_executable_path(platform, path@),
{
    let name = path_file_name(path);
    let ext = path_extension(path);
    is_java_executable_name(platform, &name, &ext)
}

/// The places below an installation directory where its Java executable may sit.
pub open spec fn java_executable_candidates_of(platform: Platform, dir: Seq<char>) -> Seq<Seq<char>> {
    if platform == Platform::Windows {
        seq![
            path_join_of(path_join_of(dir, "bin"@), "java.exe"@),
            path_join_of(dir, "java.exe"@),
            path_join_of(dir, "javaw.exe"@),
        ]
    } else {
        seq![path_join_of(path_join_of(dir, "bin"@), "java"@), path_join_of(dir, "java"@)]
    }
}

/// The places below an installation directory where its Java executable may sit, in
/// the order in which they are tried.
pub fn java_executable_candidates(platform: Platform, dir: &str) -> (r: Vec<String>)
    ensures
        r@.len() == java_executable_candidates_of(platform, dir@).len(),
        forall|i: int|
            0 <= i < r@.len() ==> #[trigger] r@[i]@ == java_executable_candidates_of(platform, dir@)[i],
{
    let mut r: Vec<String> = Vec::new();
    let bin = path_join(dir, "bin");
    if platform == Platform::Windows {
        r.push(path_join(bin.as_str(), "java.exe"));
        r.push(path_join(dir, "java.exe"));
        r.push(path_join(dir, "javaw.exe"));
    } else {
        r.push(path_join(bin.as_str(), "java"));
        r.push(path_join(dir, "java"));
    }
    r
}

/// The candidate is known to be present and names a Java executable.
pub open spec fn usable_candidate(
    platform: Platform,
    candidates: Seq<Seq<char>>,
    exists: Seq<bool>,
    k: int,
) -> bool {
    k < exists.len() && exists[k] && is_java_executable_path(platform, candidates[k])
}

/// Finds the Java executable that `path` names: the path itself when it is a file,
/// otherwise the first candidate below it (see `java_executable_candidates`) that is
/// present and is a Java executable. `path_is_file` says whether `path` is a file and
/// `candidate_exists[k]` whether the k-th candidate is present (a candidate without a
/// flag counts as absent).
pub fn find_java_executable(
    platform: Platform,
    path: &str,
    path_is_file: bool,
    candidate_exists: &Vec<bool>,
) -> (r: Result<String, JavaError>)
    ensures
        r matches Ok(p) ==> is_java_executable_path(platform, p@),
        path_is_file ==> (if is_java_executable_path(platform, path@) {
            r matches Ok(p) && p@ == path@
        } else {
            r == Err::<String, JavaError>(JavaError::NotJavaExecutable)
        }),
        !path_is_file ==> ({
            let cands = java_executable_candidates_of(platform, path@);
            match r {
                Ok(p) => exists|k: int|
                    0 <= k < cands.len() && #[trigger] usable_candidate(
                        platform,
                        cands,
                        candidate_exists@,
                        k,
                    ) && p@ == cands[k] && forall|j: int|
                        0 <= j < k ==> !#[trigger] usable_candidate(
                            platform,
                            cands,
                            candidate_exists@,
                            j,
                        ),
                Err(e) => (e matches JavaError::ExecutableNotFound(d) && d@ == path@) && forall|
                    k: int,
                | 0 <= k < cands.len() ==> !#[trigger] usable_candidate(
                    platform,
                    cands,
                    candidate_exists@,
                    k,
                ),
            }
        }),
{
    if path_is_file {
        if is_java_executable(platform, path) {
            return Ok(String::from_str(path));
        } else {
            return Err(JavaError::NotJavaExecutable);
        }
    }
    let cands = java_executable_candidates(platform, path);
    let ghost spec_cands = java_executable_candidates_of(platform, path@);
    let mut k: usize = 0;
    while k < cands.len()
        invariant
            !path_is_file,
            spec_cands == java_executable_candidates_of(platform, path@),
            cands@.len() == spec_cands.len(),
            forall|i: int| 0 <= i < cands@.len() ==> #[trigger] cands@[i]@ == spec_cands[i],
            k <= cands@.len(),
            forall|j: int|
                0 <= j < k ==> !#[trigger] usable_candidate(platform, spec_cands, candidate_exists@, j),
        decreases cands@.len() - k,
    {
        if k < candidate_exists.len() && candidate_exists[k] && is_java_executable(platform, cands[k].as_str()) {
            assert(usable_candidate(platform, spec_cands, candidate_exists@, k as int));
            return Ok(cands[k].clone());
        }
        k = k + 1;
    }
    Err(JavaError::ExecutableNotFound(String::from_str(path)))
}

/// Where the installation root is taken from, stated over the path operations: an
/// executable whose parent directory is named `bin` and has a parent of its own has that
/// grandparent as its root, whatever the executable's own name; any other executable
/// with a parent has the parent as its root; an executable without a parent is its own
/// root. Only the first kind has a `bin` root.
pub proof fn lemma_java_home_from_path_operations(exe: Seq<char>)
    ensures
        path_parent_of(exe) is Some && path_file_name_of(path_parent_of(exe)->0) == Some("bin"@)
            && path_parent_of(path_parent_of(exe)->0) is Some ==> java_home_of(exe)
            == path_parent_of(path_parent_of(exe)->0)->0 && bin_home_of(exe) == path_parent_of(
            path_parent_of(exe)->0,
        ),
        path_parent_of(exe) is Some && !(path_file_name_of(path_parent_of(exe)->0) == Some(
            "bin"@,
        ) && path_parent_of(path_parent_of(exe)->0) is Some) ==> java_home_of(exe)
            == path_parent_of(exe)->0 && bin_home_of(exe) is None,
        path_parent_of(exe) is None ==> java_home_of(exe) == exe && bin_home_of(exe) is None,
{
}

/// The candidates below a directory depend only on whether the platform is Windows: on
/// Windows `bin/java.exe`, `java.exe`, `javaw.exe`; everywhere else (macOS included)
/// `bin/java`, then `java`.
pub proof fn lemma_candidates_by_platform(platform: Platform, dir: Seq<char>)
    ensures
        platform == Platform::Windows ==> java_executable_candidates_of(platform, dir) == seq![
            path_join_of(path_join_of(dir, "bin"@), "java.exe"@),
            path_join_of(dir, "java.exe"@),
            path_join_of(dir, "javaw.exe"@),
        ],
        platform != Platform::Windows ==> java_executable_candidates_of(platform, dir) == seq![
            path_join_of(path_join_of(dir, "bin"@), "java"@),
            path_join_of(dir, "java"@),
        ],
        java_executable_candidates_of(Platform::MacOs, dir) == java_executable_candidates_of(
            Platform::Other,
            dir,
        ),
{
}

} // verus!
