//! Breadth-first construction of a project file tree.
//!
//! The caller lists directories; `TreeBuilder` decides what each listing
//! contributes: which entries are skipped and why, the order of the kept
//! ones (directories first, then by lower-cased name, ties in listing order),
//! the entry limit, and which directories are visited next. `finish` nests
//! the flat node table into a `FileTree`.
//!
//! The caller's loop: `start`, then while `next_directory` names a directory,
//! list it and hand the listing to `add_listing`; then `finish`.
use std::collections::VecDeque;
use vstd::prelude::*;
use crate::filesystem::{opt_view, res_view};
use crate::text::{chars_of, chars_eq, decimal, decimal_exec, lowercase, push_chars, push_str, str_eq, string_from_chars, text_lt, text_lt_exec, to_lowercase};

verus! {

/// Upper bound on the entries of one tree.
pub const MAX_TREE_ENTRIES: usize = 10000;

#[derive(Debug)]
pub struct FileTree {
    pub path: String,
    pub name: String,
    pub is_file: bool,
    pub children: Option<Vec<FileTree>>,
}

/// An entry that was skipped during tree building, and why.
#[derive(Debug, Clone)]
pub struct SkippedEntry {
    pub path: String,
    pub reason: String,
}

/// A tree, the entries left out of it, and whether the entry limit cut it short.
#[derive(Debug)]
pub struct TreeBuildResult {
    pub tree: FileTree,
    pub skipped: Vec<SkippedEntry>,
    /// Whether the tree was truncated due to the entry limit.
    pub truncated: bool,
    /// The limit that was applied (only present when truncated).
    pub limit: Option<usize>,
    /// Total entries counted (only present when truncated).
    pub total_entries: Option<usize>,
}

/// What listing a directory reported of one entry.
#[derive(Debug)]
pub enum EntryProbe {
    /// The listing failed on this entry, with the error's text.
    Failed(String),
    Found {
        /// The entry's path, displayed.
        path: String,
        /// Its file name, read lossily as text.
        name: Option<String>,
        /// From its own metadata (links not followed): whether it is a
        /// symlink, or `None` when that metadata could not be read.
        is_symlink: Option<bool>,
        /// From its metadata (links followed): whether it is a file, or the
        /// error's text.
        is_file: Result<bool, String>,
    },
}

pub enum ProbeModel {
    Failed(Seq<char>),
    Found {
        path: Seq<char>,
        name: Option<Seq<char>>,
        is_symlink: Option<bool>,
        is_file: Result<bool, Seq<char>>,
    },
}

pub open spec fn res_bool_view(r: Result<bool, String>) -> Result<bool, Seq<char>> {
    match r {
        Ok(b) => Ok(b),
        Err(e) => Err(e@),
    }
}

impl View for EntryProbe {
    type V = ProbeModel;

    open spec fn view(&self) -> ProbeModel {
        match *self {
            EntryProbe::Failed(e) => ProbeModel::Failed(e@),
            EntryProbe::Found { path, name, is_symlink, is_file } => ProbeModel::Found {
                path: path@,
                name: opt_view(name),
                is_symlink,
                is_file: res_bool_view(is_file),
            },
        }
    }
}

/// An entry kept for the tree.
pub struct CandModel {
    pub path: Seq<char>,
    pub name: Option<Seq<char>>,
    pub is_file: bool,
}

pub enum Verdict {
    Skip(Seq<char>, Seq<char>),
    Keep(CandModel),
}

/// Whether a listed entry is skipped (with its path and the reason) or kept.
pub open spec fn classify(dir: Seq<char>, p: ProbeModel) -> Verdict {
    match p {
        ProbeModel::Failed(e) => Verdict::Skip(dir, "entry error: "@ + e),
        ProbeModel::Found { path, name, is_symlink, is_file } => {
            if is_symlink == Some(true) {
                Verdict::Skip(path, "symlink rejected for security"@)
            } else if is_symlink is None {
                Verdict::Skip(path, "cannot read file metadata"@)
            } else if name is Some && name->0.len() > 0 && name->0[0] == '.' {
                Verdict::Skip(path, "hidden file/directory (starts with '.')"@)
            } else if name == Some("node_modules"@) {
                Verdict::Skip(path, "node_modules directory excluded"@)
            } else if name == Some("target"@) {
                Verdict::Skip(path, "target directory excluded (Rust build output)"@)
            } else {
                match is_file {
                    Err(e) => Verdict::Skip(path, "cannot read metadata: "@ + e),
                    Ok(f) => Verdict::Keep(CandModel { path, name, is_file: f }),
                }
            }
        },
    }
}

/// The skipped entries and the kept ones of a listing, each in listing order.
pub open spec fn split_listing(dir: Seq<char>, ps: Seq<ProbeModel>) -> (Seq<(Seq<char>, Seq<char>)>, Seq<CandModel>)
    decreases ps.len(),
{
    if ps.len() == 0 {
        (Seq::empty(), Seq::empty())
    } else {
        let (s, c) = split_listing(dir, ps.drop_last());
        match classify(dir, ps.last()) {
            Verdict::Skip(p, r) => (s.push((p, r)), c),
            Verdict::Keep(k) => (s, c.push(k)),
        }
    }
}

/// The sort key of an entry: directories before files, then the lower-cased
/// name (an entry without a name first).
pub open spec fn key_lname(c: CandModel) -> Option<Seq<char>> {
    match c.name {
        Some(n) => Some(lowercase(n)),
        None => None,
    }
}

pub open spec fn key_gt(a: CandModel, b: CandModel) -> bool {
    if a.is_file != b.is_file {
        a.is_file
    } else {
        match (key_lname(a), key_lname(b)) {
            (None, _) => false,
            (Some(_), None) => true,
            (Some(x), Some(y)) => text_lt(y, x),
        }
    }
}

/// Where a later entry goes in a sorted run: before the first entry whose key
/// is greater.
pub open spec fn insert_pos(s: Seq<CandModel>, x: CandModel) -> int
    decreases s.len(),
{
    if s.len() == 0 {
        0
    } else if key_gt(s[0], x) {
        0
    } else {
        1 + insert_pos(s.drop_first(), x)
    }
}

/// Stable sort by key.
pub open spec fn sort_entries(s: Seq<CandModel>) -> Seq<CandModel>
    decreases s.len(),
{
    if s.len() == 0 {
        s
    } else {
        let t = sort_entries(s.drop_last());
        t.insert(insert_pos(t, s.last()), s.last())
    }
}

/// A node of the flat tree table.
pub struct NodeModel {
    pub path: Seq<char>,
    pub name: Seq<char>,
    pub is_file: bool,
    /// A directory that may still get children (below the depth limit).
    pub open_dir: bool,
    /// Whether the entry had a file name (`name` is empty otherwise).
    pub has_name: bool,
    /// Levels below the root (the root is at 0).
    pub depth: int,
}

pub struct PendingModel {
    pub path: Seq<char>,
    pub depth: int,
    pub index: int,
}

pub struct BuilderModel {
    pub nodes: Seq<NodeModel>,
    /// The children of each node, once its directory was listed.
    pub kids: Seq<Option<Seq<int>>>,
    pub queue: Seq<PendingModel>,
    pub current: Option<PendingModel>,
    pub skipped: Seq<(Seq<char>, Seq<char>)>,
    pub truncated: bool,
    pub max_depth: int,
    pub limit: int,
}

pub open spec fn node_of(c: CandModel, depth: int, max_depth: int) -> NodeModel {
    NodeModel {
        path: c.path,
        name: match c.name {
            Some(n) => n,
            None => Seq::empty(),
        },
        is_file: c.is_file,
        open_dir: !c.is_file && depth + 1 < max_depth,
        has_name: c.name is Some,
        depth: depth + 1,
    }
}

pub open spec fn nodes_of(acc: Seq<CandModel>, depth: int, max_depth: int) -> Seq<NodeModel> {
    acc.map_values(|c: CandModel| node_of(c, depth, max_depth))
}

pub open spec fn limit_skips(rej: Seq<CandModel>, limit: int) -> Seq<(Seq<char>, Seq<char>)> {
    rej.map_values(|c: CandModel| (c.path, limit_reason(limit)))
}

/// The directories among the new nodes that will be visited, with their
/// table indices (`base` is the index of the first new node).
pub open spec fn queued_dirs(acc: Seq<CandModel>, base: int, depth: int, max_depth: int) -> Seq<PendingModel>
    decreases acc.len(),
{
    if acc.len() == 0 {
        Seq::empty()
    } else {
        let q = queued_dirs(acc.drop_last(), base, depth, max_depth);
        let c = acc.last();
        if !c.is_file && depth + 1 < max_depth {
            q.push(PendingModel { path: c.path, depth: depth + 1, index: base + acc.len() - 1 })
        } else {
            q
        }
    }
}

pub open spec fn limit_reason(limit: int) -> Seq<char> {
    "entry limit reached ("@ + decimal(limit as nat) + ")"@
}

/// How many of `n` sorted entries still fit under the limit.
pub open spec fn room(count: int, limit: int, n: int) -> int {
    if count >= limit {
        0
    } else if limit - count < n {
        limit - count
    } else {
        n
    }
}

/// The state after the listing of the current directory.
pub open spec fn after_listing(m: BuilderModel, listing: Result<Seq<ProbeModel>, Seq<char>>) -> BuilderModel {
    match m.current {
        None => m,
        Some(cur) => match listing {
            Err(e) => BuilderModel {
                current: None,
                skipped: m.skipped.push((cur.path, "cannot read directory: "@ + e)),
                ..m
            },
            Ok(ps) => {
                let (skips, cands) = split_listing(cur.path, ps);
                let sorted = sort_entries(cands);
                let n0 = m.nodes.len() as int;
                let acc_n = room(n0, m.limit, sorted.len() as int);
                let acc = sorted.take(acc_n);
                let rej = sorted.skip(acc_n);
                BuilderModel {
                    nodes: m.nodes + nodes_of(acc, cur.depth, m.max_depth),
                    kids: (m.kids + Seq::new(acc_n as nat, |t: int| None::<Seq<int>>)).update(
                        cur.index,
                        Some(Seq::new(acc_n as nat, |t: int| n0 + t)),
                    ),
                    queue: m.queue + queued_dirs(acc, n0, cur.depth, m.max_depth),
                    current: None,
                    skipped: m.skipped + skips + limit_skips(rej, m.limit),
                    truncated: m.truncated || rej.len() > 0,
                    ..m
                }
            },
        },
    }
}

/// The index of the first queued directory that is below the depth limit.
pub open spec fn first_open(q: Seq<PendingModel>, max_depth: int) -> int
    decreases q.len(),
{
    if q.len() == 0 {
        0
    } else if q[0].depth < max_depth {
        0
    } else {
        1 + first_open(q.drop_first(), max_depth)
    }
}

struct Node {
    path: String,
    name: String,
    is_file: bool,
    open_dir: bool,
    has_name: bool,
    depth: usize,
}

struct Pending {
    path: String,
    depth: usize,
    index: usize,
}

struct Cand {
    path: String,
    name: Option<String>,
    lname: Option<String>,
    is_file: bool,
}

/// The state of a tree under construction.
pub struct TreeBuilder {
    nodes: Vec<Node>,
    kids: Vec<Option<Vec<usize>>>,
    queue: VecDeque<Pending>,
    current: Option<Pending>,
    skipped: Vec<SkippedEntry>,
    truncated: bool,
    max_depth: usize,
    limit: usize,
}

/// How building starts: a file is its own tree; a directory needs listing.
pub enum TreeStart {
    File(TreeBuildResult),
    Directory(TreeBuilder),
}

spec fn node_view(n: Node) -> NodeModel {
    NodeModel { path: n.path@, name: n.name@, is_file: n.is_file, open_dir: n.open_dir, has_name: n.has_name, depth: n.depth as int }
}

spec fn pending_view(p: Pending) -> PendingModel {
    PendingModel { path: p.path@, depth: p.depth as int, index: p.index as int }
}

pub open spec fn ints_of(v: Seq<usize>) -> Seq<int> {
    v.map_values(|x: usize| x as int)
}

pub open spec fn kids_view(k: Option<Vec<usize>>) -> Option<Seq<int>> {
    match k {
        Some(v) => Some(ints_of(v@)),
        None => None,
    }
}

spec fn nodes_table(v: Seq<Node>) -> Seq<NodeModel> {
    v.map_values(|n: Node| node_view(n))
}

spec fn kids_table(v: Seq<Option<Vec<usize>>>) -> Seq<Option<Seq<int>>> {
    v.map_values(|k: Option<Vec<usize>>| kids_view(k))
}

pub open spec fn skip_view(s: SkippedEntry) -> (Seq<char>, Seq<char>) {
    (s.path@, s.reason@)
}

spec fn cand_view(c: Cand) -> CandModel {
    CandModel { path: c.path@, name: opt_view(c.name), is_file: c.is_file }
}

impl View for TreeBuilder {
    type V = BuilderModel;

    closed spec fn view(&self) -> BuilderModel {
        BuilderModel {
            nodes: nodes_table(self.nodes@),
            kids: kids_table(self.kids@),
            queue: self.queue@.map_values(|p: Pending| pending_view(p)),
            current: match self.current {
                Some(p) => Some(pending_view(p)),
                None => None,
            },
            skipped: self.skipped@.map_values(|s: SkippedEntry| skip_view(s)),
            truncated: self.truncated,
            max_depth: self.max_depth as int,
            limit: self.limit as int,
        }
    }
}

/// The table is consistent: children come after their parent, and every
/// queued or current directory is a node.
pub open spec fn model_wf(m: BuilderModel) -> bool {
    &&& m.kids.len() == m.nodes.len()
    &&& 1 <= m.nodes.len() <= if m.limit < 1 { 1 } else { m.limit }
    &&& forall|i: int, k: int|
        0 <= i < m.kids.len() && m.kids[i] is Some && 0 <= k < m.kids[i]->0.len() ==> i
            < #[trigger] m.kids[i]->0[k] < m.nodes.len()
    &&& forall|j: int| 0 <= j < m.queue.len() ==> 0 <= #[trigger] m.queue[j].index < m.nodes.len()
    &&& (m.current matches Some(c) ==> 0 <= c.index < m.nodes.len() && c.depth < m.max_depth)
}

/// Whether `t` is the tree the table holds at node `i`.
pub open spec fn tree_at(t: FileTree, nodes: Seq<NodeModel>, kids: Seq<Option<Seq<int>>>, i: int) -> bool
    decreases nodes.len() - i, 1int, 0int,
{
    &&& 0 <= i < nodes.len()
    &&& kids.len() == nodes.len()
    &&& t.path@ == nodes[i].path
    &&& t.name@ == nodes[i].name
    &&& t.is_file == nodes[i].is_file
    &&& match kids[i] {
        Some(cs) => t.children is Some && forest_at(t.children->0@, nodes, kids, cs, i),
        None => if nodes[i].open_dir {
            t.children is Some && t.children->0@.len() == 0
        } else {
            t.children is None
        },
    }
}

/// Whether `ts` are the trees the table holds at the nodes `cs`, children of
/// node `parent`.
pub open spec fn forest_at(
    ts: Seq<FileTree>,
    nodes: Seq<NodeModel>,
    kids: Seq<Option<Seq<int>>>,
    cs: Seq<int>,
    parent: int,
) -> bool
    decreases nodes.len() - parent, 0int, ts.len(),
{
    &&& ts.len() == cs.len()
    &&& ts.len() > 0 ==> {
        &&& 0 <= parent < cs.last() < nodes.len()
        &&& tree_at(ts.last(), nodes, kids, cs.last())
        &&& forest_at(ts.drop_last(), nodes, kids, cs.drop_last(), parent)
    }
}

pub open spec fn skipped_view(v: Seq<SkippedEntry>) -> Seq<(Seq<char>, Seq<char>)> {
    v.map_values(|s: SkippedEntry| skip_view(s))
}

impl TreeBuilder {
    pub closed spec fn wf(&self) -> bool {
        model_wf(self@) && self.kids@.len() == self.nodes@.len() && cut_only_when_full(self@)
            && open_consistent(self@) && listed_sorted(self@) && depth_consistent(self@)
    }

    /// Start a tree at `root_path`. `root_name` is its file name and
    /// `root_is_file` what its metadata reported; a missing name or a failed
    /// read is an error.
    pub fn start(
        root_path: &str,
        root_name: Option<String>,
        root_is_file: Result<bool, String>,
        max_depth: usize,
        limit: usize,
    ) -> (r: Result<TreeStart, String>)
        ensures
            root_name is None ==> (r matches Err(e) && e@ == "Path has no file name: "@ + root_path@),
            root_name matches Some(n) ==> match root_is_file {
                Err(e) => r matches Err(x) && x@ == e@,
                Ok(true) => r matches Ok(TreeStart::File(t)) && t.tree.path@ == root_path@
                    && t.tree.name@ == n@ && t.tree.is_file && t.tree.children is None
                    && t.skipped@.len() == 0 && !t.truncated && t.limit is None
                    && t.total_entries is None,
                Ok(false) => r matches Ok(TreeStart::Directory(b)) && b.wf() && b@ == (BuilderModel {
                    nodes: seq![NodeModel { path: root_path@, name: n@, is_file: false, open_dir: true, has_name: true, depth: 0 }],
                    kids: seq![None],
                    queue: seq![PendingModel { path: root_path@, depth: 0, index: 0 }],
                    current: None,
                    skipped: Seq::empty(),
                    truncated: false,
                    max_depth: max_depth as int,
                    limit: limit as int,
                }),
            },
    {
        let name = match root_name {
            None => {
                let mut v: Vec<char> = Vec::new();
                push_str(&mut v, "Path has no file name: ");
                push_str(&mut v, root_path);
                return Err(string_from_chars(&v));
            },
            Some(n) => n,
        };
        match root_is_file {
            Err(e) => Err(e),
            Ok(true) => Ok(
                TreeStart::File(
                    TreeBuildResult {
                        tree: FileTree {
                            path: String::from_str(root_path),
                            name,
                            is_file: true,
                            children: None,
                        },
                        skipped: Vec::new(),
                        truncated: false,
                        limit: None,
                        total_entries: None,
                    },
                ),
            ),
            Ok(false) => {
                let mut nodes: Vec<Node> = Vec::new();
                nodes.push(Node { path: String::from_str(root_path), name, is_file: false, open_dir: true, has_name: true, depth: 0 });
                let mut kids: Vec<Option<Vec<usize>>> = Vec::new();
                kids.push(None);
                let mut queue: VecDeque<Pending> = VecDeque::new();
                queue.push_back(Pending { path: String::from_str(root_path), depth: 0, index: 0 });
                let b = TreeBuilder {
                    nodes,
                    kids,
                    queue,
                    current: None,
                    skipped: Vec::new(),
                    truncated: false,
                    max_depth,
                    limit,
                };
                assert(b@.nodes =~= seq![NodeModel { path: root_path@, name: b@.nodes[0].name, is_file: false, open_dir: true, has_name: true, depth: 0 }]);
                assert(b@.kids =~= seq![None]);
                assert(b@.queue =~= seq![PendingModel { path: root_path@, depth: 0, index: 0 }]);
                assert(b@.skipped =~= Seq::empty());
                Ok(TreeStart::Directory(b))
            },
        }
    }

    /// The next directory to list, if any: the first queued one below the
    /// depth limit (those at the limit are dropped). Nothing more is listed
    /// once the entry limit was hit.
    pub fn next_directory(&mut self) -> (r: Option<String>)
        requires
            old(self).wf(),
        ensures
            final(self).wf(),
            old(self)@.truncated ==> r is None && final(self)@ == old(self)@,
            !old(self)@.truncated ==> {
                let q = old(self)@.queue;
                let i = first_open(q, old(self)@.max_depth);
                if i >= q.len() {
                    r is None && final(self)@ == (BuilderModel { queue: Seq::empty(), current: None, ..old(self)@ })
                } else {
                    r matches Some(p) && p@ == q[i].path && final(self)@ == (BuilderModel {
                        queue: q.subrange(i + 1, q.len() as int),
                        current: Some(q[i]),
                        ..old(self)@
                    })
                }
            },
    {
        if self.truncated {
            return None;
        }
        let ghost q = self@.queue;
        let ghost m0 = self@;
        let ghost mut i: int = 0;
        loop
            invariant
                m0 == old(self)@,
                q == m0.queue,
                !m0.truncated,
                0 <= i <= q.len(),
                self@.queue == q.subrange(i, q.len() as int),
                self@ == (BuilderModel { queue: q.subrange(i, q.len() as int), ..m0 }),
                first_open(q, m0.max_depth) == i + first_open(q.subrange(i, q.len() as int), m0.max_depth),
                model_wf(m0),
                cut_only_when_full(m0),
                open_consistent(m0),
                listed_sorted(m0),
                depth_consistent(m0),
                self.kids@.len() == self.nodes@.len(),
                self@.max_depth == self.max_depth,
            decreases q.len() - i,
        {
            let ghost before = self@.queue;
            match self.queue.pop_front() {
                None => {
                    self.current = None;
                    assert(self@.queue =~= Seq::empty());
                    assert(self@ =~= BuilderModel { queue: Seq::empty(), current: None, ..m0 });
                    return None;
                },
                Some(p) => {
                    assert(before[0] == pending_view(p));
                    assert(q.subrange(i + 1, q.len() as int) =~= q.subrange(i, q.len() as int).drop_first());
                    if p.depth < self.max_depth {
                        let path = p.path.clone();
                        self.current = Some(p);
                        assert(self@.queue =~= q.subrange(i + 1, q.len() as int));
                        assert(0 <= q[i].index < m0.nodes.len());
                        assert forall|j: int| 0 <= j < self@.queue.len() implies 0 <= #[trigger] self@.queue[j].index < self@.nodes.len() by {
                            assert(self@.queue[j] == q[i + 1 + j]);
                        }
                        assert forall|j: int| 0 <= j < self@.queue.len() implies self@.nodes[(#[trigger] self@.queue[j]).index].open_dir by {
                            assert(self@.queue[j] == q[i + 1 + j]);
                        }
                        assert(m0.nodes[q[i].index].open_dir);
                        assert(self@ =~= BuilderModel {
                            queue: q.subrange(i + 1, q.len() as int),
                            current: Some(q[i]),
                            ..m0
                        });
                        return Some(path);
                    }
                    proof {
                        i = i + 1;
                    }
                    assert(self@.queue =~= q.subrange(i, q.len() as int));
                },
            }
        }
    }
}


pub open spec fn probes_view(v: Seq<EntryProbe>) -> Seq<ProbeModel> {
    v.map_values(|p: EntryProbe| p@)
}

spec fn cands_view(v: Seq<Cand>) -> Seq<CandModel> {
    v.map_values(|c: Cand| cand_view(c))
}

/// A kept entry carries its lower-cased name, the sort key.
spec fn cand_ok(c: Cand) -> bool {
    opt_view(c.lname) == key_lname(cand_view(c))
}

fn skip_entry(path: &str, reason: &str) -> (s: SkippedEntry)
    ensures
        skip_view(s) == (path@, reason@),
{
    SkippedEntry { path: String::from_str(path), reason: String::from_str(reason) }
}

fn skip_entry2(path: &str, reason: &str, detail: &str) -> (s: SkippedEntry)
    ensures
        skip_view(s) == (path@, reason@ + detail@),
{
    let mut v: Vec<char> = Vec::new();
    push_str(&mut v, reason);
    push_str(&mut v, detail);
    SkippedEntry { path: String::from_str(path), reason: string_from_chars(&v) }
}

fn clone_opt(o: &Option<String>) -> (r: Option<String>)
    ensures
        opt_view(r) == opt_view(*o),
{
    match o {
        Some(s) => Some(s.clone()),
        None => None,
    }
}

fn classify_exec(dir: &str, p: &EntryProbe) -> (r: Result<Cand, SkippedEntry>)
    ensures
        match classify(dir@, p@) {
            Verdict::Skip(path, reason) => r matches Err(s) && skip_view(s) == (path, reason),
            Verdict::Keep(c) => r matches Ok(k) && cand_view(k) == c && cand_ok(k),
        },
{
    match p {
        EntryProbe::Failed(e) => Err(skip_entry2(dir, "entry error: ", e.as_str())),
        EntryProbe::Found { path, name, is_symlink, is_file } => {
            match is_symlink {
                Some(true) => {
                    return Err(skip_entry(path.as_str(), "symlink rejected for security"));
                },
                None => {
                    return Err(skip_entry(path.as_str(), "cannot read file metadata"));
                },
                Some(false) => {},
            }
            if let Some(n) = name {
                let nv = chars_of(n.as_str());
                if nv.len() > 0 && nv[0] == '.' {
                    return Err(skip_entry(path.as_str(), "hidden file/directory (starts with '.')"));
                }
                if str_eq(n.as_str(), "node_modules") {
                    return Err(skip_entry(path.as_str(), "node_modules directory excluded"));
                }
                if str_eq(n.as_str(), "target") {
                    return Err(skip_entry(path.as_str(), "target directory excluded (Rust build output)"));
                }
            }
            match is_file {
                Err(e) => Err(skip_entry2(path.as_str(), "cannot read metadata: ", e.as_str())),
                Ok(f) => {
                    let lname = match name {
                        Some(n) => Some(to_lowercase(n.as_str())),
                        None => None,
                    };
                    Ok(Cand { path: path.clone(), name: clone_opt(name), lname, is_file: *f })
                },
            }
        },
    }
}

/// Split a listing into skipped entries and kept ones.
fn split_entries(dir: &str, ps: &Vec<EntryProbe>) -> (r: (Vec<SkippedEntry>, Vec<Cand>))
    ensures
        (skipped_view(r.0@), cands_view(r.1@)) == split_listing(dir@, probes_view(ps@)),
        forall|k: int| 0 <= k < r.1@.len() ==> cand_ok(#[trigger] r.1@[k]),
{
    let mut skips: Vec<SkippedEntry> = Vec::new();
    let mut cands: Vec<Cand> = Vec::new();
    let mut i: usize = 0;
    while i < ps.len()
        invariant
            i <= ps.len(),
            (skipped_view(skips@), cands_view(cands@)) == split_listing(dir@, probes_view(ps@.subrange(0, i as int))),
            forall|k: int| 0 <= k < cands@.len() ==> cand_ok(#[trigger] cands@[k]),
        decreases ps.len() - i,
    {
        let ghost pre = probes_view(ps@.subrange(0, i as int));
        let ghost nxt = probes_view(ps@.subrange(0, i + 1));
        assert(nxt.drop_last() =~= pre);
        assert(nxt.last() == ps@[i as int]@);
        match classify_exec(dir, &ps[i]) {
            Err(sk) => {
                let ghost before = skips@;
                skips.push(sk);
                assert(skips@.drop_last() =~= before);
                assert(skipped_view(skips@) =~= skipped_view(before).push(skip_view(skips@.last())));
            },
            Ok(c) => {
                let ghost before = cands@;
                cands.push(c);
                assert(cands@.drop_last() =~= before);
                assert(cands_view(cands@) =~= cands_view(before).push(cand_view(cands@.last())));
            },
        }
        i += 1;
    }
    assert(ps@.subrange(0, ps.len() as int) =~= ps@);
    (skips, cands)
}


fn key_gt_exec(a: &Cand, b: &Cand) -> (r: bool)
    requires
        cand_ok(*a),
        cand_ok(*b),
    ensures
        r == key_gt(cand_view(*a), cand_view(*b)),
{
    if a.is_file != b.is_file {
        a.is_file
    } else {
        match (&a.lname, &b.lname) {
            (None, _) => false,
            (Some(_), None) => true,
            (Some(x), Some(y)) => {
                let xv = chars_of(x.as_str());
                let yv = chars_of(y.as_str());
                text_lt_exec(&yv, &xv)
            },
        }
    }
}

fn clone_cand(c: &Cand) -> (r: Cand)
    ensures
        cand_view(r) == cand_view(*c),
        opt_view(r.lname) == opt_view(c.lname),
{
    Cand { path: c.path.clone(), name: clone_opt(&c.name), lname: clone_opt(&c.lname), is_file: c.is_file }
}

/// Stable sort of the kept entries: directories first, then by lower-cased name.
fn sort_cands(cs: &Vec<Cand>) -> (r: Vec<Cand>)
    requires
        forall|k: int| 0 <= k < cs@.len() ==> cand_ok(#[trigger] cs@[k]),
    ensures
        cands_view(r@) == sort_entries(cands_view(cs@)),
        forall|k: int| 0 <= k < r@.len() ==> cand_ok(#[trigger] r@[k]),
{
    let mut out: Vec<Cand> = Vec::new();
    let mut i: usize = 0;
    while i < cs.len()
        invariant
            i <= cs.len(),
            forall|k: int| 0 <= k < cs@.len() ==> cand_ok(#[trigger] cs@[k]),
            cands_view(out@) == sort_entries(cands_view(cs@.subrange(0, i as int))),
            forall|k: int| 0 <= k < out@.len() ==> cand_ok(#[trigger] out@[k]),
        decreases cs.len() - i,
    {
        let x = clone_cand(&cs[i]);
        assert(cand_ok(cs@[i as int]));
        let ghost t = cands_view(out@);
        let ghost xv = cand_view(x);
        let mut p: usize = 0;
        assert(t.subrange(0, t.len() as int) =~= t);
        while p < out.len() && !key_gt_exec(&out[p], &x)
            invariant
                p <= out.len(),
                t == cands_view(out@),
                xv == cand_view(x),
                cand_ok(x),
                forall|k: int| 0 <= k < out@.len() ==> cand_ok(#[trigger] out@[k]),
                insert_pos(t, xv) == p + insert_pos(t.subrange(p as int, t.len() as int), xv),
            decreases out.len() - p,
        {
            let ghost rest = t.subrange(p as int, t.len() as int);
            assert(rest[0] == t[p as int]);
            assert(rest.drop_first() =~= t.subrange(p + 1, t.len() as int));
            p += 1;
        }
        proof {
            let rest = t.subrange(p as int, t.len() as int);
            if p < out.len() {
                assert(rest[0] == t[p as int]);
            }
            assert(insert_pos(t, xv) == p);
            let pre = cands_view(cs@.subrange(0, i as int));
            let nxt = cands_view(cs@.subrange(0, i + 1));
            assert(nxt.drop_last() =~= pre);
            assert(nxt.last() == xv);
        }
        let ghost before = out@;
        out.insert(p, x);
        assert(cands_view(out@) =~= t.insert(p as int, xv));
        assert forall|k: int| 0 <= k < out@.len() implies cand_ok(#[trigger] out@[k]) by {
            if k < p {
                assert(out@[k] == before[k]);
            } else if k > p {
                assert(out@[k] == before[k - 1]);
            }
        }
        i += 1;
    }
    assert(cs@.subrange(0, cs.len() as int) =~= cs@);
    out
}


pub open spec fn listing_view(l: Result<Vec<EntryProbe>, String>) -> Result<Seq<ProbeModel>, Seq<char>> {
    match l {
        Ok(v) => Ok(probes_view(v@)),
        Err(e) => Err(e@),
    }
}

fn limit_skip(path: &str, limit: usize) -> (s: SkippedEntry)
    ensures
        skip_view(s) == (path@, limit_reason(limit as int)),
{
    let mut v: Vec<char> = Vec::new();
    push_str(&mut v, "entry limit reached (");
    let d = decimal_exec(limit as u128);
    push_chars(&mut v, &d);
    push_str(&mut v, ")");
    SkippedEntry { path: String::from_str(path), reason: string_from_chars(&v) }
}

impl TreeBuilder {
    /// Take in the listing of the current directory (or why it could not be
    /// listed). Without a current directory nothing changes.
    pub fn add_listing(&mut self, listing: Result<Vec<EntryProbe>, String>)
        requires
            old(self).wf(),
        ensures
            final(self).wf(),
            final(self)@ == after_listing(old(self)@, listing_view(listing)),
    {
        let ghost m = self@;
        proof {
            law_cut_only_when_full(m, listing_view(listing));
            law_open_consistent(m, listing_view(listing));
            law_listed_sorted(m, listing_view(listing));
            law_depth_consistent(m, listing_view(listing));
        }
        let cur = match self.current.take() {
            None => {
                assert(self@ =~= m);
                return;
            },
            Some(c) => c,
        };
        let entries = match listing {
            Err(e) => {
                let ghost before = self.skipped@;
                self.skipped.push(skip_entry2(cur.path.as_str(), "cannot read directory: ", e.as_str()));
                assert(self.skipped@.drop_last() =~= before);
                assert(skipped_view(self.skipped@) =~= m.skipped.push(skip_view(self.skipped@.last())));
                assert(self@ =~= after_listing(m, listing_view(Err(e))));
                return;
            },
            Ok(v) => v,
        };
        let ghost ps = probes_view(entries@);
        let (skips, cands) = split_entries(cur.path.as_str(), &entries);
        let sorted = sort_cands(&cands);
        let ghost sv = cands_view(sorted@);
        let ghost split = split_listing(cur.path@, ps);
        assert(sv == sort_entries(split.1));
        // Skipped entries first, in listing order.
        let mut j: usize = 0;
        let ghost s0 = self.skipped@;
        while j < skips.len()
            invariant
                j <= skips.len(),
                self@ == (BuilderModel { skipped: skipped_view(self.skipped@), current: None, ..m }),
                self.kids@.len() == self.nodes@.len(),
                self@.max_depth == self.max_depth,
                self@.limit == self.limit,
                skipped_view(self.skipped@) == skipped_view(s0) + skipped_view(skips@.subrange(0, j as int)),
            decreases skips.len() - j,
        {
            let ghost before = self.skipped@;
            let ghost mid = self@;
            self.skipped.push(skip_entry(skips[j].path.as_str(), skips[j].reason.as_str()));
            assert(self.skipped@.drop_last() =~= before);
            assert(skipped_view(skips@.subrange(0, j + 1)) =~= skipped_view(skips@.subrange(0, j as int)).push(skip_view(skips@[j as int])));
            assert(skipped_view(self.skipped@) =~= skipped_view(before).push(skip_view(self.skipped@.last())));
            assert(self@ =~= (BuilderModel { skipped: skipped_view(self.skipped@), ..mid }));
            j += 1;
        }
        assert(skips@.subrange(0, skips.len() as int) =~= skips@);
        let ghost s1 = skipped_view(self.skipped@);
        assert(self@.nodes == m.nodes && self@.kids == m.kids && self@.queue == m.queue);
        assert(m.current == Some(pending_view(cur)));
        let ghost q0 = self@.queue;
        let ghost k0 = self@.kids;
        let ghost nodes0 = self@.nodes;
        let n0 = self.nodes.len();
        let depth = cur.depth;
        let mut child_indices: Vec<usize> = Vec::new();
        let mut k: usize = 0;
        while k < sorted.len()
            invariant
                m.kids.len() == m.nodes.len(),
                n0 == nodes0.len(),
                nodes0 == m.nodes,
                k0 == m.kids,
                q0 == m.queue,
                0 <= cur.index < n0,
                self.kids@.len() == self.nodes@.len(),
                k <= sorted.len(),
                sv == cands_view(sorted@),
                forall|t: int| 0 <= t < sorted@.len() ==> cand_ok(#[trigger] sorted@[t]),
                self.limit == m.limit,
                self.max_depth == m.max_depth,
                depth == cur.depth,
                depth < self.max_depth,
                self@.current is None,
                ({
                    let a = room(n0 as int, m.limit, k as int);
                    &&& self@.nodes == nodes0 + nodes_of(sv.take(a), depth as int, m.max_depth)
                    &&& self@.kids == k0 + Seq::new(a as nat, |t: int| None::<Seq<int>>)
                    &&& ints_of(child_indices@) == Seq::new(a as nat, |t: int| n0 + t)
                    &&& self@.queue == q0 + queued_dirs(sv.take(a), n0 as int, depth as int, m.max_depth)
                    &&& skipped_view(self.skipped@) == s1 + limit_skips(sv.subrange(a, k as int), m.limit)
                    &&& self.truncated == (m.truncated || k > a)
                }),
                self@.max_depth == m.max_depth,
                self@.limit == m.limit,
            decreases sorted.len() - k,
        {
            let ghost a = room(n0 as int, m.limit, k as int);
            let ghost nodes_before = self@.nodes;
            let ghost kids_before = self@.kids;
            let ghost queue_before = self@.queue;
            let ghost skipped_before = self.skipped@;
            let ghost ci_before = child_indices@;
            assert(self@.nodes.len() == n0 + a);
            if self.nodes.len() >= self.limit {
                self.truncated = true;
                self.skipped.push(limit_skip(sorted[k].path.as_str(), self.limit));
                proof {
                    assert(room(n0 as int, m.limit, k + 1) == a);
                    assert(self.skipped@.drop_last() =~= skipped_before);
                    assert(sv.subrange(a, k + 1) =~= sv.subrange(a, k as int).push(sv[k as int]));
                    assert(skipped_view(self.skipped@) =~= skipped_view(skipped_before).push(skip_view(self.skipped@.last())));
                    assert(limit_skips(sv.subrange(a, k + 1), m.limit) =~= limit_skips(sv.subrange(a, k as int), m.limit).push((sv[k as int].path, limit_reason(m.limit))));
                    assert(sv[k as int] == cand_view(sorted@[k as int]));
                    assert(self@.nodes =~= nodes_before);
                    assert(self@.kids =~= kids_before);
                    assert(self@.queue =~= queue_before);
                }
            } else {
                let idx = self.nodes.len();
                let c = &sorted[k];
                let open = !c.is_file && depth + 1 < self.max_depth;
                let name = match &c.name {
                    Some(n) => n.clone(),
                    None => String::new(),
                };
                let has_name = c.name.is_some();
                self.nodes.push(Node { path: c.path.clone(), name, is_file: c.is_file, open_dir: open, has_name, depth: depth + 1 });
                self.kids.push(None);
                child_indices.push(idx);
                if open {
                    self.queue.push_back(Pending { path: c.path.clone(), depth: depth + 1, index: idx });
                }
                proof {
                    assert(sv[k as int] == cand_view(sorted@[k as int]));
                    assert(self@.nodes.drop_last() =~= nodes_before);
                    assert(self@.nodes.last() == node_of(sv[k as int], depth as int, m.max_depth));
                    assert(room(n0 as int, m.limit, k + 1) == a + 1);
                    assert(a == k);
                    let acc1 = sv.take(a + 1);
                    assert(acc1.drop_last() =~= sv.take(a));
                    assert(acc1.last() == sv[k as int]);
                    assert(nodes_of(acc1, depth as int, m.max_depth) =~= nodes_of(sv.take(a), depth as int, m.max_depth).push(node_of(sv[k as int], depth as int, m.max_depth)));
                    let nn = node_of(sv[k as int], depth as int, m.max_depth);
                    assert(nodes_before == nodes0 + nodes_of(sv.take(a), depth as int, m.max_depth));
                    assert(self@.nodes =~= nodes_before.push(nn));
                    assert(nodes0 + nodes_of(acc1, depth as int, m.max_depth) =~= (nodes0 + nodes_of(sv.take(a), depth as int, m.max_depth)).push(nn));
                    assert(self@.nodes =~= nodes0 + nodes_of(acc1, depth as int, m.max_depth));
                    assert(self@.kids.drop_last() =~= kids_before);
                    assert(self@.kids.last() is None);
                    assert(self@.kids =~= kids_before.push(None));
                    assert(self@.kids =~= k0 + Seq::new((a + 1) as nat, |t: int| None::<Seq<int>>));
                    assert(child_indices@ =~= ci_before.push(idx));
                    assert(ints_of(child_indices@) =~= ints_of(ci_before).push(idx as int));
                    assert(ints_of(child_indices@) =~= Seq::new((a + 1) as nat, |t: int| n0 + t));
                    let qd = queued_dirs(acc1, n0 as int, depth as int, m.max_depth);
                    if open {
                        assert(self@.queue =~= queue_before.push(PendingModel { path: sv[k as int].path, depth: depth + 1, index: idx as int }));
                    } else {
                        assert(self@.queue =~= queue_before);
                    }
                    assert(self@.queue =~= q0 + queued_dirs(acc1, n0 as int, depth as int, m.max_depth));
                    assert(sv.subrange(a + 1, k + 1) =~= Seq::<CandModel>::empty());
                    assert(sv.subrange(a, k as int) =~= Seq::<CandModel>::empty());
                    assert(skipped_view(self.skipped@) =~= s1 + limit_skips(sv.subrange(a + 1, k + 1), m.limit));
                }
            }
            k += 1;
        }
        let ghost acc_n = room(n0 as int, m.limit, sv.len() as int);
        let ghost kids_mid = self@.kids;
        self.kids.set(cur.index, Some(child_indices));
        proof {
            let after = after_listing(m, listing_view(Ok(entries)));
            assert(listing_view(Ok(entries)) == Ok::<Seq<ProbeModel>, Seq<char>>(ps));
            assert(sv.subrange(acc_n, sv.len() as int) =~= sv.skip(acc_n));
            assert(self@.kids =~= kids_mid.update(cur.index as int, Some(Seq::new(acc_n as nat, |t: int| n0 + t))));
            assert(self@.skipped =~= after.skipped);
            assert(self@ =~= after);
            // The table stays consistent.
            assert(model_wf(self@)) by {
                let mm = self@;
                assert forall|i: int, t: int|
                    0 <= i < mm.kids.len() && mm.kids[i] is Some && 0 <= t < mm.kids[i]->0.len() implies i
                        < #[trigger] mm.kids[i]->0[t] < mm.nodes.len() by {
                    if i == cur.index {
                    } else if i < n0 {
                        assert(mm.kids[i] == m.kids[i]);
                    } else {
                        assert(mm.kids[i] is None);
                    }
                }
                assert forall|j: int| 0 <= j < mm.queue.len() implies 0 <= #[trigger] mm.queue[j].index < mm.nodes.len() by {
                    if j < q0.len() {
                        assert(mm.queue[j] == m.queue[j]);
                    } else {
                        lemma_queued_dirs_indices(sv.take(acc_n), n0 as int, depth as int, m.max_depth, j - q0.len());
                    }
                }
            }
        }
    }
}

proof fn lemma_queued_dirs_indices(acc: Seq<CandModel>, base: int, depth: int, max_depth: int, j: int)
    requires
        0 <= j < queued_dirs(acc, base, depth, max_depth).len(),
        base >= 0,
    ensures
        base <= queued_dirs(acc, base, depth, max_depth)[j].index < base + acc.len(),
        queued_dirs(acc, base, depth, max_depth).len() <= acc.len(),
    decreases acc.len(),
{
    lemma_queued_dirs_len(acc, base, depth, max_depth);
    if acc.len() > 0 {
        let q = queued_dirs(acc.drop_last(), base, depth, max_depth);
        lemma_queued_dirs_len(acc.drop_last(), base, depth, max_depth);
        if j < q.len() {
            lemma_queued_dirs_indices(acc.drop_last(), base, depth, max_depth, j);
        }
    }
}

proof fn lemma_queued_dirs_len(acc: Seq<CandModel>, base: int, depth: int, max_depth: int)
    ensures
        queued_dirs(acc, base, depth, max_depth).len() <= acc.len(),
    decreases acc.len(),
{
    if acc.len() > 0 {
        lemma_queued_dirs_len(acc.drop_last(), base, depth, max_depth);
    }
}


spec fn table_wf(nodes: Seq<NodeModel>, kids: Seq<Option<Seq<int>>>) -> bool {
    &&& kids.len() == nodes.len()
    &&& forall|i: int, k: int|
        0 <= i < kids.len() && kids[i] is Some && 0 <= k < kids[i]->0.len() ==> i
            < #[trigger] kids[i]->0[k] < nodes.len()
}

/// The tree held at node `i`.
fn assemble(nodes: &Vec<Node>, kids: &Vec<Option<Vec<usize>>>, i: usize) -> (t: FileTree)
    requires
        i < nodes.len(),
        table_wf(nodes_table(nodes@), kids_table(kids@)),
    ensures
        tree_at(t, nodes_table(nodes@), kids_table(kids@), i as int),
    decreases nodes.len() - i,
{
    let ghost nv = nodes_table(nodes@);
    let ghost kv = kids_table(kids@);
    assert(nv[i as int] == node_view(nodes@[i as int]));
    assert(kv[i as int] == kids_view(kids@[i as int]));
    let n = &nodes[i];
    let children = match &kids[i] {
        Some(cs) => {
            let ghost csv = ints_of(cs@);
            let mut v: Vec<FileTree> = Vec::new();
            let mut k: usize = 0;
            while k < cs.len()
                invariant
                    k <= cs.len(),
                    i < nodes.len(),
                    nv == nodes_table(nodes@),
                    kv == kids_table(kids@),
                    table_wf(nv, kv),
                    kv[i as int] == Some(csv),
                    csv == ints_of(cs@),
                    v@.len() == k,
                    forest_at(v@, nv, kv, csv.take(k as int), i as int),
                decreases cs.len() - k,
            {
                assert(csv[k as int] == cs@[k as int] as int);
                assert(i < kv[i as int]->0[k as int] < nv.len());
                let c = cs[k];
                let sub = assemble(nodes, kids, c);
                let ghost before = v@;
                v.push(sub);
                assert(v@.drop_last() =~= before);
                assert(csv.take(k + 1).drop_last() =~= csv.take(k as int));
                k += 1;
            }
            assert(csv.len() == cs@.len());
            assert(csv.take(csv.len() as int) =~= csv);
            Some(v)
        },
        None => if n.open_dir {
            Some(Vec::new())
        } else {
            None
        },
    };
    let t = FileTree { path: n.path.clone(), name: n.name.clone(), is_file: n.is_file, children };
    t
}

impl TreeBuilder {
    /// The finished tree: every listed directory holds its kept entries in
    /// order; a directory that was not listed holds an empty list, or no list
    /// at all when it lies at the depth limit. The limit and the entry count
    /// are reported only when the tree was cut short.
    pub fn finish(self) -> (r: TreeBuildResult)
        requires
            self.wf(),
        ensures
            tree_at(r.tree, self@.nodes, self@.kids, 0),
            skipped_view(r.skipped@) == self@.skipped,
            r.truncated == self@.truncated,
            r.limit == (if self@.truncated { Some(self@.limit as usize) } else { None }),
            r.total_entries == (if self@.truncated { Some(self@.nodes.len() as usize) } else { None }),
            r.tree.children is Some,
            self@.nodes.len() <= (if self@.limit < 1 { 1 } else { self@.limit }),
            listed_sorted(self@),
            open_consistent(self@),
            depth_consistent(self@),
            forall|k: int| 0 <= k < self@.nodes.len() && (#[trigger] self@.nodes[k]).open_dir ==> !self@.nodes[k].is_file,
            forall|k: int| 0 <= k < self@.kids.len() && (#[trigger] self@.kids[k]) is Some ==> self@.nodes[k].open_dir,
            r.truncated ==> r.total_entries == Some((if self@.limit < 1 { 1 } else { self@.limit }) as usize),
            r.truncated ==> exists|k: int| 0 <= k < r.skipped@.len() && (#[trigger] r.skipped@[k]).reason@
                == limit_reason(self@.limit),
    {
        let tree = assemble(&self.nodes, &self.kids, 0);
        let truncated = self.truncated;
        let n = self.nodes.len();
        let ghost k: int = choose|k: int| 0 <= k < self@.skipped.len() && (#[trigger] self@.skipped[k]).1
            == limit_reason(self@.limit);
        proof {
            if truncated {
                assert(self@.skipped[k] == skip_view(self.skipped@[k]));
            }
        }
        let r = TreeBuildResult {
            tree,
            skipped: self.skipped,
            truncated,
            limit: if truncated { Some(self.limit) } else { None },
            total_entries: if truncated { Some(n) } else { None },
        };
        assert(truncated ==> r.skipped@[k].reason@ == limit_reason(self@.limit));
        proof {
            law_children_iff_open(r.tree, self@.nodes, self@.kids, 0);
        }
        r
    }
}


// ---------------------------------------------------------------------------
// Laws
// ---------------------------------------------------------------------------

proof fn lemma_text_lt_asym(a: Seq<char>, b: Seq<char>)
    ensures
        text_lt(a, b) ==> !text_lt(b, a),
        !text_lt(a, a),
    decreases a.len(),
{
    if a.len() > 0 && b.len() > 0 && a[0] == b[0] {
        lemma_text_lt_asym(a.drop_first(), b.drop_first());
    }
    if a.len() > 0 {
        lemma_text_lt_asym(a.drop_first(), a.drop_first());
    }
}

proof fn lemma_text_lt_total(a: Seq<char>, b: Seq<char>)
    ensures
        a != b ==> text_lt(a, b) || text_lt(b, a),
    decreases a.len(),
{
    if a.len() > 0 && b.len() > 0 {
        if a[0] == b[0] {
            lemma_text_lt_total(a.drop_first(), b.drop_first());
            if a.drop_first() == b.drop_first() {
                assert(a =~= seq![a[0]] + a.drop_first());
                assert(b =~= seq![b[0]] + b.drop_first());
            }
        }
    } else if a.len() == 0 && b.len() == 0 {
        assert(a =~= b);
    }
}

proof fn lemma_text_lt_trans(a: Seq<char>, b: Seq<char>, c: Seq<char>)
    ensures
        text_lt(a, b) && text_lt(b, c) ==> text_lt(a, c),
    decreases a.len(),
{
    if a.len() > 0 && b.len() > 0 && c.len() > 0 && a[0] == b[0] && b[0] == c[0] {
        lemma_text_lt_trans(a.drop_first(), b.drop_first(), c.drop_first());
    }
}

/// Entry `a` may stand before entry `b`.
pub open spec fn key_le(a: CandModel, b: CandModel) -> bool {
    !key_gt(a, b)
}

proof fn lemma_key_le_total(a: CandModel, b: CandModel)
    ensures
        key_le(a, b) || key_le(b, a),
{
    if a.is_file == b.is_file {
        if let (Some(x), Some(y)) = (key_lname(a), key_lname(b)) {
            lemma_text_lt_asym(x, y);
        }
    }
}

proof fn lemma_key_le_trans(a: CandModel, b: CandModel, c: CandModel)
    ensures
        key_le(a, b) && key_le(b, c) ==> key_le(a, c),
{
    if key_le(a, b) && key_le(b, c) && a.is_file == b.is_file && b.is_file == c.is_file {
        if let (Some(x), Some(y), Some(z)) = (key_lname(a), key_lname(b), key_lname(c)) {
            // x <= y <= z in text order
            lemma_text_lt_total(x, y);
            lemma_text_lt_total(y, z);
            lemma_text_lt_trans(x, y, z);
            lemma_text_lt_asym(z, x);
            lemma_text_lt_trans(z, x, y);
            lemma_text_lt_trans(z, y, x);
            lemma_text_lt_asym(y, z);
        }
    }
}

pub open spec fn entries_sorted(s: Seq<CandModel>) -> bool {
    forall|i: int, j: int| 0 <= i < j < s.len() ==> key_le(#[trigger] s[i], #[trigger] s[j])
}

proof fn lemma_insert_pos(t: Seq<CandModel>, x: CandModel)
    ensures
        0 <= insert_pos(t, x) <= t.len(),
        forall|q: int| 0 <= q < insert_pos(t, x) ==> !key_gt(#[trigger] t[q], x),
        insert_pos(t, x) < t.len() ==> key_gt(t[insert_pos(t, x)], x),
    decreases t.len(),
{
    if t.len() > 0 && !key_gt(t[0], x) {
        lemma_insert_pos(t.drop_first(), x);
        assert forall|q: int| 0 <= q < insert_pos(t, x) implies !key_gt(#[trigger] t[q], x) by {
            if q > 0 {
                assert(t[q] == t.drop_first()[q - 1]);
            }
        }
    }
}

/// Listed entries are ordered directories first, then by lower-cased name.
pub proof fn law_entries_sorted(s: Seq<CandModel>)
    ensures
        entries_sorted(sort_entries(s)),
        sort_entries(s).len() == s.len(),
    decreases s.len(),
{
    if s.len() > 0 {
        law_entries_sorted(s.drop_last());
        let t = sort_entries(s.drop_last());
        let x = s.last();
        lemma_insert_pos(t, x);
        let p = insert_pos(t, x);
        let u = t.insert(p, x);
        assert forall|i: int, j: int| 0 <= i < j < u.len() implies key_le(#[trigger] u[i], #[trigger] u[j]) by {
            if j < p {
                assert(u[i] == t[i] && u[j] == t[j]);
            } else if j == p {
                assert(u[i] == t[i]);
            } else if i < p {
                assert(u[i] == t[i] && u[j] == t[j - 1]);
                if i < j - 1 {
                    assert(key_le(t[i], t[j - 1]));
                }
            } else if i == p {
                assert(u[j] == t[j - 1]);
                lemma_key_le_total(t[p], x);
                if p < j - 1 {
                    assert(key_le(t[p], t[j - 1]));
                }
                lemma_key_le_trans(x, t[p], t[j - 1]);
            } else {
                assert(u[i] == t[i - 1] && u[j] == t[j - 1]);
            }
        }
    }
}

proof fn lemma_split_listing_len(dir: Seq<char>, ps: Seq<ProbeModel>)
    ensures
        split_listing(dir, ps).0.len() + split_listing(dir, ps).1.len() == ps.len(),
    decreases ps.len(),
{
    if ps.len() > 0 {
        lemma_split_listing_len(dir, ps.drop_last());
    }
}

/// No listed entry goes missing: each one either becomes a node of the tree
/// or is reported as skipped (a directory that cannot be listed is reported
/// itself), and the tree never holds more than the entry limit allows.
pub proof fn law_listing_accounted(m: BuilderModel, listing: Result<Seq<ProbeModel>, Seq<char>>)
    requires
        model_wf(m),
        m.current is Some,
    ensures
        ({
            let a = after_listing(m, listing);
            &&& m.nodes.len() <= a.nodes.len()
            &&& m.skipped.len() <= a.skipped.len()
            &&& a.nodes.len() <= (if m.limit < 1 { 1 } else { m.limit })
            &&& match listing {
                Ok(ps) => (a.nodes.len() - m.nodes.len()) + (a.skipped.len() - m.skipped.len()) == ps.len(),
                Err(_) => a.nodes.len() == m.nodes.len() && a.skipped.len() == m.skipped.len() + 1,
            }
        }),
{
    let cur = m.current->0;
    if let Ok(ps) = listing {
        let (skips, cands) = split_listing(cur.path, ps);
        lemma_split_listing_len(cur.path, ps);
        law_entries_sorted(cands);
    }
}

/// A tree is cut short only when it is full: once entries had to be left
/// out, the tree holds exactly the entry limit (its root at least), and an
/// entry skipped for the
/// limit says so. Every listing keeps this so (a new builder holds it, not
/// being cut short).
pub open spec fn cut_only_when_full(m: BuilderModel) -> bool {
    m.truncated ==> {
        &&& m.nodes.len() == (if m.limit < 1 { 1 } else { m.limit })
        &&& exists|k: int| 0 <= k < m.skipped.len() && (#[trigger] m.skipped[k]).1 == limit_reason(m.limit)
    }
}

pub proof fn law_cut_only_when_full(m: BuilderModel, listing: Result<Seq<ProbeModel>, Seq<char>>)
    requires
        model_wf(m),
        cut_only_when_full(m),
    ensures
        cut_only_when_full(after_listing(m, listing)),
{
    let a = after_listing(m, listing);
    if let Some(cur) = m.current {
        match listing {
            Err(e) => {
                if m.truncated {
                    let k = choose|k: int| 0 <= k < m.skipped.len() && (#[trigger] m.skipped[k]).1
                        == limit_reason(m.limit);
                    assert(a.skipped[k] == m.skipped[k]);
                }
            },
            Ok(ps) => {
                let (skips, cands) = split_listing(cur.path, ps);
                let sorted = sort_entries(cands);
                let n0 = m.nodes.len() as int;
                let acc_n = room(n0, m.limit, sorted.len() as int);
                let acc = sorted.take(acc_n);
                let rej = sorted.skip(acc_n);
                assert(a.nodes.len() == n0 + acc_n);
                assert(a.skipped == m.skipped + skips + limit_skips(rej, m.limit));
                if m.truncated {
                    let k = choose|k: int| 0 <= k < m.skipped.len() && (#[trigger] m.skipped[k]).1
                        == limit_reason(m.limit);
                    assert(a.skipped[k] == m.skipped[k]);
                    assert(acc_n == 0);
                } else if rej.len() > 0 {
                    let k: int = (m.skipped.len() + skips.len()) as int;
                    assert(a.skipped[k] == limit_skips(rej, m.limit)[0]);
                    assert(a.skipped[k].1 == limit_reason(m.limit));
                }
            },
        }
    }
}

/// The children lists agree with the depth limit: the root and every
/// directory below the limit are open, only open directories get listed, and
/// only open directories wait to be listed.
pub open spec fn open_consistent(m: BuilderModel) -> bool {
    &&& m.nodes.len() > 0 ==> m.nodes[0].open_dir
    &&& forall|i: int| 0 <= i < m.nodes.len() && (#[trigger] m.nodes[i]).open_dir ==> !m.nodes[i].is_file
    &&& forall|i: int| 0 <= i < m.kids.len() && (#[trigger] m.kids[i]) is Some ==> m.nodes[i].open_dir
    &&& forall|j: int| 0 <= j < m.queue.len() ==> m.nodes[(#[trigger] m.queue[j]).index].open_dir
    &&& (m.current matches Some(c) ==> m.nodes[c.index].open_dir)
}

proof fn lemma_queued_dirs(acc: Seq<CandModel>, base: int, depth: int, max_depth: int)
    ensures
        forall|j: int| 0 <= j < queued_dirs(acc, base, depth, max_depth).len() ==> {
            let q = #[trigger] queued_dirs(acc, base, depth, max_depth)[j];
            &&& base <= q.index < base + acc.len()
            &&& !acc[q.index - base].is_file
            &&& depth + 1 < max_depth
        },
    decreases acc.len(),
{
    if acc.len() > 0 {
        lemma_queued_dirs(acc.drop_last(), base, depth, max_depth);
        let q = queued_dirs(acc.drop_last(), base, depth, max_depth);
        assert forall|j: int| 0 <= j < q.len() implies {
            let e = #[trigger] q[j];
            &&& base <= e.index < base + acc.len()
            &&& !acc[e.index - base].is_file
        } by {
            assert(acc.drop_last()[q[j].index - base] == acc[q[j].index - base]);
        }
    }
}

/// Listing a directory keeps the children lists in agreement with the depth
/// limit.
pub proof fn law_open_consistent(m: BuilderModel, listing: Result<Seq<ProbeModel>, Seq<char>>)
    requires
        model_wf(m),
        open_consistent(m),
    ensures
        open_consistent(after_listing(m, listing)),
{
    let a = after_listing(m, listing);
    if let Some(cur) = m.current {
        if let Ok(ps) = listing {
            let (skips, cands) = split_listing(cur.path, ps);
            let sorted = sort_entries(cands);
            let n0 = m.nodes.len() as int;
            let acc_n = room(n0, m.limit, sorted.len() as int);
            let acc = sorted.take(acc_n);
            let fresh = nodes_of(acc, cur.depth, m.max_depth);
            let nq = queued_dirs(acc, n0, cur.depth, m.max_depth);
            lemma_queued_dirs(acc, n0, cur.depth, m.max_depth);
            assert(a.nodes == m.nodes + fresh);
            assert forall|i: int| 0 <= i < a.nodes.len() && (#[trigger] a.nodes[i]).open_dir implies !a.nodes[i].is_file by {
                if i >= n0 {
                    assert(a.nodes[i] == fresh[i - n0]);
                } else {
                    assert(a.nodes[i] == m.nodes[i]);
                }
            }
            assert forall|i: int| 0 <= i < a.kids.len() && (#[trigger] a.kids[i]) is Some implies a.nodes[i].open_dir by {
                if i != cur.index {
                    if i < n0 {
                        assert(a.kids[i] == m.kids[i]);
                        assert(a.nodes[i] == m.nodes[i]);
                    } else {
                        assert(a.kids[i] == (m.kids + Seq::new(acc_n as nat, |t: int| None::<Seq<int>>))[i]);
                    }
                } else {
                    assert(a.nodes[i] == m.nodes[i]);
                }
            }
            assert forall|j: int| 0 <= j < a.queue.len() implies a.nodes[(#[trigger] a.queue[j]).index].open_dir by {
                if j < m.queue.len() {
                    assert(a.queue[j] == m.queue[j]);
                    assert(m.nodes[m.queue[j].index].open_dir);
                    assert(a.nodes[m.queue[j].index] == m.nodes[m.queue[j].index]);
                } else {
                    let e = nq[j - m.queue.len()];
                    assert(a.queue[j] == e);
                    assert(nq[j - m.queue.len()] == e);
                    assert(a.nodes[e.index] == fresh[e.index - n0]);
                }
            }
            assert(a.nodes[0] == m.nodes[0]);
        }
    }
}

/// In a finished tree, a node has a list of children exactly when it is an
/// open directory: a directory above the depth limit, or the root. Files
/// never have one.
pub proof fn law_children_iff_open(t: FileTree, nodes: Seq<NodeModel>, kids: Seq<Option<Seq<int>>>, i: int)
    requires
        tree_at(t, nodes, kids, i),
        forall|k: int| 0 <= k < nodes.len() && (#[trigger] nodes[k]).open_dir ==> !nodes[k].is_file,
        forall|k: int| 0 <= k < kids.len() && (#[trigger] kids[k]) is Some ==> nodes[k].open_dir,
    ensures
        (t.children is Some) == nodes[i].open_dir,
        t.is_file ==> t.children is None,
{
    assert(nodes[i] == nodes[i]);
    assert(kids[i] is Some ==> nodes[i].open_dir);
}

/// The entry a node was made from, as far as its sort key goes.
pub open spec fn node_entry(n: NodeModel) -> CandModel {
    CandModel {
        path: n.path,
        name: if n.has_name {
            Some(n.name)
        } else {
            None
        },
        is_file: n.is_file,
    }
}

/// Every listed directory holds its children in order: directories first,
/// then by lower-cased name.
pub open spec fn listed_sorted(m: BuilderModel) -> bool {
    forall|i: int, a: int, b: int|
        0 <= i < m.kids.len() && m.kids[i] is Some && 0 <= a < b < m.kids[i]->0.len() ==> key_le(
            node_entry(m.nodes[#[trigger] m.kids[i]->0[a]]),
            node_entry(m.nodes[#[trigger] m.kids[i]->0[b]]),
        )
}

/// Listing a directory keeps every listed directory's children in order.
pub proof fn law_listed_sorted(m: BuilderModel, listing: Result<Seq<ProbeModel>, Seq<char>>)
    requires
        model_wf(m),
        listed_sorted(m),
    ensures
        listed_sorted(after_listing(m, listing)),
{
    let a = after_listing(m, listing);
    if let Some(cur) = m.current {
        if let Ok(ps) = listing {
            let (skips, cands) = split_listing(cur.path, ps);
            let sorted = sort_entries(cands);
            law_entries_sorted(cands);
            let n0 = m.nodes.len() as int;
            let acc_n = room(n0, m.limit, sorted.len() as int);
            let acc = sorted.take(acc_n);
            let fresh = nodes_of(acc, cur.depth, m.max_depth);
            let cs = Seq::new(acc_n as nat, |t: int| n0 + t);
            assert(a.nodes == m.nodes + fresh);
            assert forall|i: int, x: int, y: int|
                0 <= i < a.kids.len() && a.kids[i] is Some && 0 <= x < y < a.kids[i]->0.len() implies key_le(
                    node_entry(a.nodes[#[trigger] a.kids[i]->0[x]]),
                    node_entry(a.nodes[#[trigger] a.kids[i]->0[y]]),
                ) by {
                if i == cur.index {
                    assert(a.kids[i] == Some(cs));
                    assert(a.nodes[n0 + x] == fresh[x]);
                    assert(a.nodes[n0 + y] == fresh[y]);
                    assert(acc[x] == sorted[x] && acc[y] == sorted[y]);
                    assert(key_le(sorted[x], sorted[y]));
                    assert(node_entry(fresh[x]).name == acc[x].name);
                    assert(node_entry(fresh[y]).name == acc[y].name);
                } else if i < n0 {
                    assert(a.kids[i] == m.kids[i]);
                    let ks = m.kids[i]->0;
                    assert(ks[x] < n0 && ks[y] < n0);
                    assert(a.nodes[ks[x]] == m.nodes[ks[x]]);
                    assert(a.nodes[ks[y]] == m.nodes[ks[y]]);
                } else {
                    assert(a.kids[i] == (m.kids + Seq::new(acc_n as nat, |t: int| None::<Seq<int>>))[i]);
                }
            }
        }
    }
}

/// Depths agree with the table: the root is at depth 0 and no node lies
/// deeper than the limit; a child lies one level below its parent; a node
/// other than the root is an open directory exactly when it is a directory
/// above the limit; a directory waiting to be listed carries its node's depth.
pub open spec fn depth_consistent(m: BuilderModel) -> bool {
    &&& m.nodes.len() > 0 ==> m.nodes[0].depth == 0
    &&& forall|i: int| 0 <= i < m.nodes.len() ==> 0 <= (#[trigger] m.nodes[i]).depth <= m.max_depth
    &&& forall|i: int| 0 < i < m.nodes.len() ==> (#[trigger] m.nodes[i]).open_dir == (!m.nodes[i].is_file
        && m.nodes[i].depth < m.max_depth)
    &&& forall|i: int, k: int|
        0 <= i < m.kids.len() && m.kids[i] is Some && 0 <= k < m.kids[i]->0.len() ==> m.nodes[
            #[trigger] m.kids[i]->0[k]
        ].depth == m.nodes[i].depth + 1
    &&& forall|j: int| 0 <= j < m.queue.len() ==> (#[trigger] m.queue[j]).depth == m.nodes[m.queue[j].index].depth
    &&& (m.current matches Some(c) ==> c.depth == m.nodes[c.index].depth)
}

proof fn lemma_queued_depths(acc: Seq<CandModel>, base: int, depth: int, max_depth: int)
    ensures
        forall|j: int| 0 <= j < queued_dirs(acc, base, depth, max_depth).len() ==> {
            let q = #[trigger] queued_dirs(acc, base, depth, max_depth)[j];
            &&& base <= q.index < base + acc.len()
            &&& q.depth == depth + 1
        },
    decreases acc.len(),
{
    lemma_queued_dirs(acc, base, depth, max_depth);
    if acc.len() > 0 {
        lemma_queued_depths(acc.drop_last(), base, depth, max_depth);
        let q = queued_dirs(acc.drop_last(), base, depth, max_depth);
        let full = queued_dirs(acc, base, depth, max_depth);
        assert forall|j: int| 0 <= j < full.len() implies (#[trigger] full[j]).depth == depth + 1 by {
            if j < q.len() {
                assert(full[j] == q[j]);
            }
        }
    }
}

/// Listing a directory keeps depths in agreement with the table.
pub proof fn law_depth_consistent(m: BuilderModel, listing: Result<Seq<ProbeModel>, Seq<char>>)
    requires
        model_wf(m),
        depth_consistent(m),
    ensures
        depth_consistent(after_listing(m, listing)),
{
    let a = after_listing(m, listing);
    if let Some(cur) = m.current {
        if let Ok(ps) = listing {
            let (skips, cands) = split_listing(cur.path, ps);
            let sorted = sort_entries(cands);
            let n0 = m.nodes.len() as int;
            let acc_n = room(n0, m.limit, sorted.len() as int);
            let acc = sorted.take(acc_n);
            let fresh = nodes_of(acc, cur.depth, m.max_depth);
            let nq = queued_dirs(acc, n0, cur.depth, m.max_depth);
            let cs = Seq::new(acc_n as nat, |t: int| n0 + t);
            lemma_queued_depths(acc, n0, cur.depth, m.max_depth);
            assert(a.nodes == m.nodes + fresh);
            assert(m.nodes[cur.index].depth == cur.depth);
            assert forall|i: int| 0 <= i < a.nodes.len() implies 0 <= (#[trigger] a.nodes[i]).depth <= a.max_depth by {
                if i >= n0 {
                    assert(a.nodes[i] == fresh[i - n0]);
                } else {
                    assert(a.nodes[i] == m.nodes[i]);
                }
            }
            assert forall|i: int| 0 < i < a.nodes.len() implies (#[trigger] a.nodes[i]).open_dir == (!a.nodes[i].is_file
                && a.nodes[i].depth < a.max_depth) by {
                if i >= n0 {
                    assert(a.nodes[i] == fresh[i - n0]);
                } else {
                    assert(a.nodes[i] == m.nodes[i]);
                }
            }
            assert forall|i: int, k: int|
                0 <= i < a.kids.len() && a.kids[i] is Some && 0 <= k < a.kids[i]->0.len() implies a.nodes[
                    #[trigger] a.kids[i]->0[k]
                ].depth == a.nodes[i].depth + 1 by {
                if i == cur.index {
                    assert(a.kids[i] == Some(cs));
                    assert(a.nodes[n0 + k] == fresh[k]);
                    assert(a.nodes[i] == m.nodes[i]);
                } else if i < n0 {
                    assert(a.kids[i] == m.kids[i]);
                    let ks = m.kids[i]->0;
                    assert(ks[k] < n0);
                    assert(a.nodes[ks[k]] == m.nodes[ks[k]]);
                    assert(a.nodes[i] == m.nodes[i]);
                } else {
                    assert(a.kids[i] == (m.kids + Seq::new(acc_n as nat, |t: int| None::<Seq<int>>))[i]);
                }
            }
            assert forall|j: int| 0 <= j < a.queue.len() implies (#[trigger] a.queue[j]).depth == a.nodes[a.queue[j].index].depth by {
                if j < m.queue.len() {
                    assert(a.queue[j] == m.queue[j]);
                    assert(a.nodes[m.queue[j].index] == m.nodes[m.queue[j].index]);
                } else {
                    let e = nq[j - m.queue.len()];
                    assert(a.queue[j] == e);
                    assert(a.nodes[e.index] == fresh[e.index - n0]);
                }
            }
            assert(a.nodes[0] == m.nodes[0]);
        }
    }
}

/// In a finished tree, a node below the root has a list of children exactly
/// when it is a directory above the depth limit; it lies one level below its
/// parent and never deeper than the limit.
pub proof fn law_children_by_depth(m: BuilderModel, t: FileTree, i: int)
    requires
        tree_at(t, m.nodes, m.kids, i),
        open_consistent(m),
        depth_consistent(m),
        0 < i,
    ensures
        (t.children is Some) == (!t.is_file && m.nodes[i].depth < m.max_depth),
        m.nodes[i].depth <= m.max_depth,
{
    law_children_iff_open(t, m.nodes, m.kids, i);
    assert(m.nodes[i] == m.nodes[i]);
}

} // verus!
