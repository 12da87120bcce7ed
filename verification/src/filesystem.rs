//! Project file access policy: path validation against the project root,
//! symlink rejection, and the results of script reads and writes.
//!
//! The file system itself is read by the caller; the functions here decide on
//! what it reported. Paths are handled as the text `Path::display` gives.
use vstd::prelude::*;
use crate::error::{error_text, ErrorModel, RobloxMcpError};
use crate::text::{contains_seq, push_str, str_contains, string_from_chars};

verus! {

#[derive(Debug, Clone)]
pub struct ScriptContent {
    pub path: String,
    pub content: String,
    pub size_bytes: usize,
}

#[derive(Debug, Clone)]
pub struct WriteResult {
    pub path: String,
    pub bytes_written: usize,
}

/// A name for what pushing `p` onto the path `base` gives, displayed
/// (`PathBuf::push`, then `Path::display`): `p` appended after a separator,
/// or `p` itself in place of `base` when `p` is absolute, as the platform's
/// path syntax has it.
pub uninterp spec fn path_pushed(base: Seq<char>, p: Seq<char>) -> Seq<char>;

/// Whether `p` is one plain path component on every platform: not empty,
/// with no separator (`/`, `\`), no drive colon (`:`) and no `..`.
pub open spec fn plain_name(p: Seq<char>) -> bool {
    &&& p.len() > 0
    &&& forall|i: int| 0 <= i < p.len() ==> (#[trigger] p[i]) != '/' && p[i] != '\\' && p[i] != ':'
    &&& !contains_seq(p, ".."@)
}

/// `PathBuf::from(base)` with `p` pushed onto it, displayed; its result is
/// named by `path_pushed`. A plain name is relative, so it is appended as
/// one more component, and `Path::starts_with` compares whole components:
/// every prefix of `base` is a prefix of the result.
#[verifier::external_body]
pub(crate) fn push_path(base: &str, p: &str) -> (s: String)
    ensures
        s@ == path_pushed(base@, p@),
        plain_name(p@) ==> forall|r: Seq<char>| #[trigger] path_has_prefix(base@, r) ==> path_has_prefix(s@, r),
{
    let mut b = std::path::PathBuf::from(base);
    b.push(p);
    b.display().to_string()
}

/// A name for what `std::path::Path::starts_with` answers: whether `base` is a
/// prefix of `p`, comparing whole path components.
pub uninterp spec fn path_has_prefix(p: Seq<char>, base: Seq<char>) -> bool;

/// `Path::new(p).starts_with(base)`; its answer is named by `path_has_prefix`.
#[verifier::external_body]
fn path_prefix(p: &str, base: &str) -> (b: bool)
    ensures
        b == path_has_prefix(p@, base@),
{
    std::path::Path::new(p).starts_with(base)
}

/// What the file system reports of one of the requested path's ancestors
/// (the path itself first, then each parent in turn, as `Path::ancestors`
/// lists them).
#[derive(Debug)]
pub struct AncestorProbe {
    /// `Path::exists`.
    pub exists: bool,
    /// `Path::file_name`, read lossily as text.
    pub file_name: Option<String>,
    /// `Path::canonicalize`, displayed, or the error's text.
    pub canonical: Result<String, String>,
}

pub struct AncestorModel {
    pub exists: bool,
    pub file_name: Option<Seq<char>>,
    pub canonical: Result<Seq<char>, Seq<char>>,
}

pub open spec fn opt_view(o: Option<String>) -> Option<Seq<char>> {
    match o {
        Some(s) => Some(s@),
        None => None,
    }
}

pub open spec fn res_view(r: Result<String, String>) -> Result<Seq<char>, Seq<char>> {
    match r {
        Ok(s) => Ok(s@),
        Err(e) => Err(e@),
    }
}

impl View for AncestorProbe {
    type V = AncestorModel;

    open spec fn view(&self) -> AncestorModel {
        AncestorModel {
            exists: self.exists,
            file_name: opt_view(self.file_name),
            canonical: res_view(self.canonical),
        }
    }
}

pub open spec fn probes_view(v: Seq<AncestorProbe>) -> Seq<AncestorModel> {
    v.map_values(|p: AncestorProbe| p@)
}

/// Walking up from the requested path: the index of the nearest ancestor that
/// exists, or why there is none.
pub open spec fn nearest_existing(a: Seq<AncestorModel>, j: int) -> Result<int, ErrorModel>
    decreases a.len() - j,
{
    if j < 0 || j >= a.len() {
        Err(ErrorModel::InvalidPath("Cannot find existing ancestor directory"@))
    } else if a[j].exists {
        Ok(j)
    } else if a[j].file_name is None {
        Err(ErrorModel::InvalidPath("Path has no valid components"@))
    } else if j + 1 >= a.len() {
        Err(ErrorModel::InvalidPath("Cannot find existing ancestor directory"@))
    } else {
        nearest_existing(a, j + 1)
    }
}

/// The names to append below the ancestor at `k`, outermost first.
pub open spec fn names_below(a: Seq<AncestorModel>, k: int) -> Seq<Seq<char>> {
    Seq::new(k as nat, |t: int| a[k - 1 - t].file_name->0)
}

/// Appending the remaining names, refusing any that holds `..`.
pub open spec fn rebuild(base: Seq<char>, names: Seq<Seq<char>>, requested: Seq<char>) -> Result<
    Seq<char>,
    ErrorModel,
>
    decreases names.len(),
{
    if names.len() == 0 {
        Ok(base)
    } else if contains_seq(names[0], ".."@) {
        Err(ErrorModel::PathTraversal(requested))
    } else {
        rebuild(path_pushed(base, names[0]), names.drop_first(), requested)
    }
}

/// The outcome of validating `requested` against the project root.
pub open spec fn validate_spec(
    requested: Seq<char>,
    root: Result<Seq<char>, Seq<char>>,
    a: Seq<AncestorModel>,
) -> Result<Seq<char>, ErrorModel> {
    match root {
        Err(e) => Err(ErrorModel::InvalidPath("Cannot canonicalize project root: "@ + e)),
        Ok(r) => if a.len() > 0 && a[0].canonical is Ok {
            let c = a[0].canonical->Ok_0;
            if path_has_prefix(c, r) {
                Ok(c)
            } else {
                Err(ErrorModel::PathTraversal(c))
            }
        } else {
            match nearest_existing(a, 0) {
                Err(e) => Err(e),
                Ok(k) => match a[k].canonical {
                    Err(e) => Err(ErrorModel::InvalidPath("Cannot canonicalize ancestor: "@ + e)),
                    Ok(c) => if !path_has_prefix(c, r) {
                        Err(ErrorModel::PathTraversal(c))
                    } else {
                        rebuild(c, names_below(a, k), requested)
                    },
                },
            }
        },
    }
}

pub open spec fn path_result_view(r: Result<String, RobloxMcpError>) -> Result<Seq<char>, ErrorModel> {
    match r {
        Ok(s) => Ok(s@),
        Err(e) => Err(e@),
    }
}

fn invalid_path(prefix: &str, detail: &str) -> (e: RobloxMcpError)
    ensures
        e@ == ErrorModel::InvalidPath(prefix@ + detail@),
{
    let mut v: Vec<char> = Vec::new();
    push_str(&mut v, prefix);
    push_str(&mut v, detail);
    RobloxMcpError::InvalidPath(string_from_chars(&v))
}

/// The file names of the ancestors are plain names once `..` is set
/// aside: what `Path::file_name` gives, barring a name that holds `\` or
/// `:`, which on some platforms is not one component.
pub open spec fn names_plain(a: Seq<AncestorModel>) -> bool {
    forall|t: int| 0 <= t < a.len() && (#[trigger] a[t]).file_name is Some ==> {
        let n = a[t].file_name->0;
        n.len() > 0 && forall|i: int| 0 <= i < n.len() ==> (#[trigger] n[i]) != '/' && n[i] != '\\' && n[i] != ':'
    }
}

/// Validate that a path lies within the project root.
///
/// `canonical_root` is the canonical project root (or why it could not be
/// had) and `ancestors` what the file system reports of the requested path
/// and of each of its ancestors. A path that exists is accepted in its
/// canonical form when it lies under the root. A path that does not is
/// rebuilt from its nearest existing ancestor, which must lie under the root,
/// by appending the missing names, none of which may hold `..`.
pub fn validate_path(
    requested: &str,
    canonical_root: &Result<String, String>,
    ancestors: &Vec<AncestorProbe>,
) -> (r: Result<String, RobloxMcpError>)
    ensures
        path_result_view(r) == validate_spec(requested@, res_view(*canonical_root), probes_view(ancestors@)),
        names_plain(probes_view(ancestors@)) ==> (r matches Ok(p) ==> canonical_root matches Ok(root)
            && path_has_prefix(p@, root@)),
{
    let ghost a = probes_view(ancestors@);
    let root = match canonical_root {
        Err(e) => {
            return Err(invalid_path("Cannot canonicalize project root: ", e.as_str()));
        },
        Ok(r) => r,
    };
    if ancestors.len() > 0 {
        if let Ok(c) = &ancestors[0].canonical {
            assert(a[0] == ancestors@[0]@);
            if path_prefix(c.as_str(), root.as_str()) {
                return Ok(c.clone());
            } else {
                return Err(RobloxMcpError::PathTraversal(c.clone()));
            }
        }
    }
    // Walk up to the nearest ancestor that exists.
    let ghost skip_direct = !(a.len() > 0 && a[0].canonical is Ok);
    assert(skip_direct);
    let mut k: usize = 0;
    loop
        invariant
            a == probes_view(ancestors@),
            a.len() == ancestors.len(),
            res_view(*canonical_root) == Ok::<Seq<char>, Seq<char>>(root@),
            !(a.len() > 0 && a[0].canonical is Ok),
            k < ancestors.len() || (k == 0 && ancestors.len() == 0),
            nearest_existing(a, 0) == nearest_existing(a, k as int),
            forall|t: int| 0 <= t < k ==> !a[t].exists && a[t].file_name is Some,
        ensures
            k < ancestors.len(),
            k < a.len() && a[k as int].exists,
            nearest_existing(a, 0) == nearest_existing(a, k as int),
            forall|t: int| 0 <= t < k ==> !a[t].exists && a[t].file_name is Some,
        decreases ancestors.len() - k,
    {
        if k >= ancestors.len() {
            return Err(RobloxMcpError::InvalidPath(String::from_str("Cannot find existing ancestor directory")));
        }
        assert(a[k as int] == ancestors@[k as int]@);
        if ancestors[k].exists {
            break;
        }
        if ancestors[k].file_name.is_none() {
            return Err(RobloxMcpError::InvalidPath(String::from_str("Path has no valid components")));
        }
        if k + 1 >= ancestors.len() {
            return Err(RobloxMcpError::InvalidPath(String::from_str("Cannot find existing ancestor directory")));
        }
        k += 1;
    }
    assert(a[k as int] == ancestors@[k as int]@);
    assert(nearest_existing(a, 0) == Ok::<int, ErrorModel>(k as int));
    let anc = match &ancestors[k].canonical {
        Err(e) => {
            return Err(invalid_path("Cannot canonicalize ancestor: ", e.as_str()));
        },
        Ok(c) => c,
    };
    if !path_prefix(anc.as_str(), root.as_str()) {
        return Err(RobloxMcpError::PathTraversal(anc.clone()));
    }
    let ghost names = names_below(a, k as int);
    let mut result = anc.clone();
    assert(names.subrange(0, k as int) =~= names);
    assert(validate_spec(requested@, res_view(*canonical_root), a) == rebuild(anc@, names, requested@));
    let mut j: usize = k;
    while j > 0
        invariant
            a == probes_view(ancestors@),
            j <= k < ancestors.len(),
            names == names_below(a, k as int),
            forall|t: int| 0 <= t < k ==> !a[t].exists && a[t].file_name is Some,
            rebuild(anc@, names, requested@) == rebuild(result@, names.subrange(k - j, k as int), requested@),
            validate_spec(requested@, res_view(*canonical_root), a) == rebuild(anc@, names, requested@),
            res_view(*canonical_root) == Ok::<Seq<char>, Seq<char>>(root@),
            names_plain(a) ==> path_has_prefix(result@, root@),
        decreases j,
    {
        j -= 1;
        assert(a[j as int] == ancestors@[j as int]@);
        let name = match &ancestors[j].file_name {
            Some(n) => n,
            None => {
                assert(false);
                return Err(RobloxMcpError::InvalidPath(String::new()));
            },
        };
        let ghost rest = names.subrange(k - j - 1, k as int);
        assert(rest[0] == name@);
        assert(rest.drop_first() =~= names.subrange(k - j, k as int));
        if str_contains(name.as_str(), "..") {
            return Err(RobloxMcpError::PathTraversal(String::from_str(requested)));
        }
        proof {
            if names_plain(a) {
                assert(a[j as int].file_name is Some);
                assert(plain_name(name@));
            }
        }
        result = push_path(result.as_str(), name.as_str());
    }
    assert(names.subrange(k as int, k as int) =~= Seq::<Seq<char>>::empty());
    Ok(result)
}

/// Refuse a path that is a symlink. `is_symlink` is what reading the path's
/// own metadata (without following links) reported, or that read's error.
pub fn reject_if_symlink(path: &str, is_symlink: &Result<bool, String>) -> (r: Result<(), RobloxMcpError>)
    ensures
        match *is_symlink {
            Err(e) => r matches Err(x) && x@ == ErrorModel::FileSystemError {
                operation: "symlink_metadata"@,
                path: path@,
                source: e@,
            },
            Ok(true) => r matches Err(x) && x@ == ErrorModel::SecurityViolation(
                "Symlinks are not allowed for security reasons: "@ + path@,
            ),
            Ok(false) => r is Ok,
        },
{
    match is_symlink {
        Err(e) => Err(
            RobloxMcpError::FileSystemError {
                operation: String::from_str("symlink_metadata"),
                path: String::from_str(path),
                source: e.clone(),
            },
        ),
        Ok(true) => {
            let mut v: Vec<char> = Vec::new();
            push_str(&mut v, "Symlinks are not allowed for security reasons: ");
            push_str(&mut v, path);
            Err(RobloxMcpError::SecurityViolation(string_from_chars(&v)))
        },
        Ok(false) => Ok(()),
    }
}

/// What reading a write target's own metadata (without following links)
/// reported.
#[derive(Debug)]
pub enum WriteTargetProbe {
    /// Nothing is at the path yet.
    Absent,
    /// Something is at the path; whether it is a symlink (a dangling one
    /// included).
    Present(bool),
    /// The metadata could not be read; the error's text.
    Unreadable(String),
}

/// Refuse to write through a symlink: a path holding a symlink, dangling or
/// not, is refused. A path with nothing at it, or with a file that is no
/// symlink, may be written; so may one whose metadata cannot be read, which
/// the file system does not report as existing (the write then succeeds or
/// fails on its own).
pub fn check_write_symlink(path: &str, probe: &WriteTargetProbe) -> (r: Result<(), RobloxMcpError>)
    ensures
        match *probe {
            WriteTargetProbe::Present(true) => r matches Err(x) && x@ == ErrorModel::SecurityViolation(
                "Symlinks are not allowed for security reasons: "@ + path@,
            ),
            _ => r is Ok,
        },
{
    match probe {
        WriteTargetProbe::Present(is_link) => reject_if_symlink(path, &Ok(*is_link)),
        _ => Ok(()),
    }
}

/// Only `.luau` scripts are read; `extension` is the path's extension.
pub fn check_script_extension(extension: Option<&str>) -> (r: Result<(), RobloxMcpError>)
    ensures
        match extension {
            Some(x) => (x@ == "luau"@) == (r is Ok),
            None => !(r is Ok),
        },
        r matches Err(e) ==> e@ == ErrorModel::InvalidPath("Only .luau files supported"@),
{
    let ok = match extension {
        Some(x) => {
            proof {
                reveal_strlit("luau");
            }
            let xv = crate::text::chars_of(x);
            xv.len() == 4 && xv[0] == 'l' && xv[1] == 'u' && xv[2] == 'a' && xv[3] == 'u'
        },
        None => false,
    };
    proof {
        reveal_strlit("luau");
        if let Some(x) = extension {
            if ok {
                assert(x@ =~= "luau"@);
            }
        }
    }
    if ok {
        Ok(())
    } else {
        Err(RobloxMcpError::InvalidPath(String::from_str("Only .luau files supported")))
    }
}

/// What the file system reports of the parent of a script about to be
/// written.
#[derive(Debug)]
pub enum ParentState {
    /// The path has no parent (`Path::parent` gives nothing).
    NoParent,
    /// The parent exists; what validating it against the project root gave.
    Exists(Result<String, RobloxMcpError>),
    /// The parent does not exist yet; its text.
    Missing(String),
}

/// Where a script at `path` would be written: the path itself when it is
/// absolute, else the path joined to the project root. Pushing `path` onto
/// the root gives exactly that (`Path::join` is a push onto a copy, and a
/// pushed absolute path replaces the base).
pub open spec fn write_target_abs(path: Seq<char>, root: Seq<char>) -> Seq<char> {
    path_pushed(root, path)
}

pub open spec fn unit_result_view(r: Result<(), String>) -> Result<(), Seq<char>> {
    match r {
        Ok(()) => Ok(()),
        Err(m) => Err(m@),
    }
}

pub open spec fn opt_str_view(o: Option<&str>) -> Option<Seq<char>> {
    match o {
        Some(x) => Some(x@),
        None => None,
    }
}

/// The decision on a script write, with every check the write makes before
/// it touches the file: the parent must exist or be allowed to be created;
/// an existing parent must pass validation against the project root; a
/// parent still to be created must lead to a target `abs` under the root
/// (`under_root`); and only `.luau` scripts are written.
pub open spec fn write_verdict(
    parent: ParentState,
    create_dirs: bool,
    abs: Seq<char>,
    under_root: bool,
    extension: Option<Seq<char>>,
) -> Result<(), Seq<char>> {
    match parent {
        ParentState::NoParent => Err("Invalid file path: no parent directory"@),
        ParentState::Missing(p) => if !create_dirs {
            Err("Parent directory does not exist: "@ + p@ + ". Set create_directories=true to create it."@)
        } else if !under_root {
            Err("Path traversal detected: "@ + abs)
        } else {
            luau_only(extension)
        },
        ParentState::Exists(Err(e)) => Err(error_text(e)),
        ParentState::Exists(Ok(_)) => luau_only(extension),
    }
}

pub open spec fn luau_only(extension: Option<Seq<char>>) -> Result<(), Seq<char>> {
    if extension == Some("luau"@) {
        Ok(())
    } else {
        Err("Only .luau files are supported"@)
    }
}

fn luau_only_exec(extension: Option<&str>) -> (r: Result<(), String>)
    ensures
        unit_result_view(r) == luau_only(opt_str_view(extension)),
{
    let ok = match extension {
        Some(x) => crate::text::str_eq(x, "luau"),
        None => false,
    };
    if ok {
        Ok(())
    } else {
        Err(String::from_str("Only .luau files are supported"))
    }
}

/// Decide a script write from what the file system reported (see
/// `write_verdict`); `abs` is the write target and `under_root` whether it
/// lies under the project root.
pub fn decide_write(
    parent: &ParentState,
    create_dirs: bool,
    abs: &str,
    under_root: bool,
    extension: Option<&str>,
) -> (r: Result<(), String>)
    ensures
        unit_result_view(r) == write_verdict(*parent, create_dirs, abs@, under_root, opt_str_view(extension)),
{
    match parent {
        ParentState::NoParent => Err(String::from_str("Invalid file path: no parent directory")),
        ParentState::Missing(p) => {
            if !create_dirs {
                let mut v: Vec<char> = Vec::new();
                push_str(&mut v, "Parent directory does not exist: ");
                push_str(&mut v, p.as_str());
                push_str(&mut v, ". Set create_directories=true to create it.");
                Err(string_from_chars(&v))
            } else if !under_root {
                let mut v: Vec<char> = Vec::new();
                push_str(&mut v, "Path traversal detected: ");
                push_str(&mut v, abs);
                Err(string_from_chars(&v))
            } else {
                luau_only_exec(extension)
            }
        },
        ParentState::Exists(Err(e)) => Err(e.message()),
        ParentState::Exists(Ok(_)) => luau_only_exec(extension),
    }
}

/// Check a script write at `path` against the project at `project_root`
/// before it is made. A parent still to be created is checked by where the
/// write would land (`write_target_abs`), which must start with the root
/// component by component.
pub fn check_write_target(
    path: &str,
    parent: &ParentState,
    create_dirs: bool,
    project_root: &str,
    extension: Option<&str>,
) -> (r: Result<(), String>)
    ensures
        unit_result_view(r) == write_verdict(
            *parent,
            create_dirs,
            write_target_abs(path@, project_root@),
            path_has_prefix(write_target_abs(path@, project_root@), project_root@),
            opt_str_view(extension),
        ),
{
    let abs = push_path(project_root, path);
    let under_root = path_prefix(abs.as_str(), project_root);
    decide_write(parent, create_dirs, abs.as_str(), under_root, extension)
}

/// The decision on deleting a script: the path must pass validation, be a
/// `.luau` script (`extension` is that of the validated path) and exist
/// (`exists`); the validated path is what gets deleted.
pub open spec fn delete_verdict(
    validated: Result<Seq<char>, ErrorModel>,
    error: Seq<char>,
    extension: Option<Seq<char>>,
    exists: bool,
) -> Result<Seq<char>, Seq<char>> {
    match validated {
        Err(_) => Err(error),
        Ok(p) => if extension != Some("luau"@) {
            Err("Only .luau files can be deleted"@)
        } else if !exists {
            Err("File not found: "@ + p)
        } else {
            Ok(p)
        },
    }
}

pub open spec fn string_result_view(r: Result<String, String>) -> Result<Seq<char>, Seq<char>> {
    match r {
        Ok(p) => Ok(p@),
        Err(m) => Err(m@),
    }
}

/// Decide a script deletion from the validation of its path and what the
/// file system reports of the validated path; gives the path to delete.
pub fn decide_delete(
    validated: &Result<String, RobloxMcpError>,
    extension: Option<&str>,
    exists: bool,
) -> (r: Result<String, String>)
    ensures
        string_result_view(r) == delete_verdict(
            path_result_view(*validated),
            match *validated {
                Err(e) => error_text(e),
                Ok(_) => Seq::empty(),
            },
            opt_str_view(extension),
            exists,
        ),
{
    match validated {
        Err(e) => Err(e.message()),
        Ok(p) => {
            let ok = match extension {
                Some(x) => crate::text::str_eq(x, "luau"),
                None => false,
            };
            if !ok {
                Err(String::from_str("Only .luau files can be deleted"))
            } else if !exists {
                let mut v: Vec<char> = Vec::new();
                push_str(&mut v, "File not found: ");
                push_str(&mut v, p.as_str());
                Err(string_from_chars(&v))
            } else {
                Ok(p.clone())
            }
        },
    }
}

impl ScriptContent {
    /// The result of reading `content` from `path`; the size is its length in
    /// UTF-8 bytes.
    pub fn new(path: &str, content: String) -> (r: Self)
        ensures
            r.path@ == path@,
            r.content@ == content@,
            r.size_bytes == vstd::utf8::encode_utf8(content@).len() as usize,
    {
        let n = content.as_str().len();
        ScriptContent { path: String::from_str(path), content, size_bytes: n }
    }
}

impl WriteResult {
    /// The result of writing `content` to `path`; the count is in UTF-8 bytes.
    pub fn new(path: &str, content: &str) -> (r: Self)
        ensures
            r.path@ == path@,
            r.bytes_written == vstd::utf8::encode_utf8(content@).len() as usize,
    {
        WriteResult { path: String::from_str(path), bytes_written: content.len() }
    }
}

/// `names` pushed one after another onto `base`.
pub open spec fn pushed_all(base: Seq<char>, names: Seq<Seq<char>>) -> Seq<char>
    decreases names.len(),
{
    if names.len() == 0 {
        base
    } else {
        pushed_all(path_pushed(base, names[0]), names.drop_first())
    }
}

proof fn lemma_rebuild_is_push(b: Seq<char>, names: Seq<Seq<char>>, requested: Seq<char>)
    ensures
        rebuild(b, names, requested) matches Ok(p) ==> p == pushed_all(b, names) && forall|i: int|
            0 <= i < names.len() ==> !contains_seq(#[trigger] names[i], ".."@),
    decreases names.len(),
{
    if names.len() > 0 && !contains_seq(names[0], ".."@) {
        lemma_rebuild_is_push(path_pushed(b, names[0]), names.drop_first(), requested);
        if rebuild(b, names, requested) is Ok {
            assert forall|i: int| 0 <= i < names.len() implies !contains_seq(#[trigger] names[i], ".."@) by {
                if i > 0 {
                    assert(names[i] == names.drop_first()[i - 1]);
                }
            }
        }
    }
}

/// Rebuilding a missing path refuses it, naming the requested path, exactly
/// when one of the missing names holds `..`; otherwise it is the ancestor
/// with every missing name pushed on, outermost first.
pub proof fn law_rebuild(b: Seq<char>, names: Seq<Seq<char>>, requested: Seq<char>)
    ensures
        (rebuild(b, names, requested) is Err) == (exists|i: int| 0 <= i < names.len() && contains_seq(#[trigger] names[i], ".."@)),
        rebuild(b, names, requested) is Err ==> rebuild(b, names, requested) == Err::<Seq<char>, ErrorModel>(
            ErrorModel::PathTraversal(requested),
        ),
        rebuild(b, names, requested) matches Ok(p) ==> p == pushed_all(b, names),
    decreases names.len(),
{
    lemma_rebuild_is_push(b, names, requested);
    if names.len() > 0 {
        if contains_seq(names[0], ".."@) {
            assert(contains_seq(names[0], ".."@));
        } else {
            law_rebuild(path_pushed(b, names[0]), names.drop_first(), requested);
            if exists|i: int| 0 <= i < names.len() && contains_seq(#[trigger] names[i], ".."@) {
                let i = choose|i: int| 0 <= i < names.len() && contains_seq(#[trigger] names[i], ".."@);
                assert(names.drop_first()[i - 1] == names[i]);
            }
            if exists|i: int| 0 <= i < names.drop_first().len() && contains_seq(#[trigger] names.drop_first()[i], ".."@) {
                let i = choose|i: int| 0 <= i < names.drop_first().len() && contains_seq(#[trigger] names.drop_first()[i], ".."@);
                assert(names[i + 1] == names.drop_first()[i]);
            }
        }
    }
}

/// Every path that validation accepts is either the canonical form of the
/// requested path, lying under the canonical project root, or a canonical
/// ancestor lying under the root with the missing names pushed onto it, none
/// of which holds `..`.
pub proof fn law_validated_path_under_root(
    requested: Seq<char>,
    root: Seq<char>,
    ancestors: Seq<AncestorModel>,
)
    ensures
        validate_spec(requested, Ok(root), ancestors) matches Ok(p) ==> {
            ||| path_has_prefix(p, root)
            ||| exists|c: Seq<char>, names: Seq<Seq<char>>| {
                &&& path_has_prefix(c, root)
                &&& (forall|i: int| 0 <= i < names.len() ==> !contains_seq(#[trigger] names[i], ".."@))
                &&& p == pushed_all(c, names)
            }
        },
{
    if !(ancestors.len() > 0 && ancestors[0].canonical is Ok) {
        if let Ok(k) = nearest_existing(ancestors, 0) {
            if let Ok(c) = ancestors[k].canonical {
                if path_has_prefix(c, root) {
                    let names = names_below(ancestors, k);
                    lemma_rebuild_is_push(c, names, requested);
                }
            }
        }
    }
}

/// A write is accepted only for a `.luau` script, and only when its parent
/// exists and passed validation, or is to be created and the target lies
/// under the project root.
pub proof fn law_accepted_writes_are_contained_scripts(
    parent: ParentState,
    create_dirs: bool,
    abs: Seq<char>,
    under_root: bool,
    extension: Option<Seq<char>>,
)
    ensures
        write_verdict(parent, create_dirs, abs, under_root, extension) is Ok ==> {
            &&& extension == Some("luau"@)
            &&& match parent {
                ParentState::Exists(v) => v is Ok,
                ParentState::Missing(_) => create_dirs && under_root,
                ParentState::NoParent => false,
            }
        },
{
}

} // verus!
