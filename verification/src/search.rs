//! Regex safety checks, content search over script files, and change scans.
//!
//! The directory walk is the caller's: each entry it reports is handed to a
//! `ContentSearch` or a `ChangeScan`, which decide what the entry contributes.
use vstd::prelude::*;
use crate::error::{ErrorModel, RobloxMcpError};
use crate::text::{
    after_char, before_char, chars_of, contains_char, contains_seq, copy_range, find_char, find_char_from,
    lemma_find_char, push_chars, push_str, str_contains, str_eq, string_from_chars, trim, trim_chars,
};

verus! {

/// Maximum compiled regex size in bytes.
pub const MAX_REGEX_SIZE: usize = 1_000_000;

/// Maximum number of matches one search reports.
pub const MAX_SEARCH_RESULTS: usize = 1000;

/// Maximum number of files one change scan reports.
pub const MAX_FILE_ENTRIES: usize = 10000;

#[verifier::external_type_specification]
#[verifier::external_body]
pub struct ExRegex(regex::Regex);

#[verifier::external_type_specification]
#[verifier::external_body]
pub struct ExRegexError(regex::Error);

/// Whether `RegexBuilder::new(pattern).size_limit(size_limit).build()`
/// succeeds.
pub uninterp spec fn regex_builds(pattern: Seq<char>, size_limit: usize) -> bool;

/// Whether a regex compiled from `pattern` matches somewhere in `haystack`
/// (`Regex::is_match`).
pub uninterp spec fn regex_matches(pattern: Seq<char>, haystack: Seq<char>) -> bool;

/// A compiled search pattern, with the text it was compiled from.
pub struct SearchPattern {
    regex: regex::Regex,
    source: String,
}

impl View for SearchPattern {
    type V = Seq<char>;

    closed spec fn view(&self) -> Seq<char> {
        self.source@
    }
}

/// `RegexBuilder::new(pattern).size_limit(size_limit).build()`: succeeds
/// exactly when the pattern compiles within the size limit; the compiled
/// pattern keeps its source text.
#[verifier::external_body]
fn build_pattern(pattern: &str, size_limit: usize) -> (r: Result<SearchPattern, regex::Error>)
    ensures
        (r is Ok) == regex_builds(pattern@, size_limit),
        r matches Ok(p) ==> p@ == pattern@,
{
    match regex::RegexBuilder::new(pattern).size_limit(size_limit).build() {
        Ok(regex) => Ok(SearchPattern { regex, source: pattern.to_string() }),
        Err(e) => Err(e),
    }
}

/// The text of a regex compile error (`Display` of `regex::Error`); nothing
/// is stated of it.
#[verifier::external_body]
fn regex_error_text(e: &regex::Error) -> (s: String) {
    e.to_string()
}

/// `Regex::is_match` on the compiled pattern.
#[verifier::external_body]
fn pattern_is_match(p: &SearchPattern, line: &str) -> (b: bool)
    ensures
        b == regex_matches(p@, line@),
{
    p.regex.is_match(line)
}

/// Patterns known to cause catastrophic backtracking.
pub open spec fn dangerous_patterns() -> Seq<Seq<char>> {
    seq![
        "(.*)*"@,
        "(.+)+"@,
        "(a+)+"@,
        "(a*)*"@,
        "(a|aa)+"@,
        "(a|a?)+"@,
        "(.*)\\1"@,
        "(.+)\\1+"@,
    ]
}

fn dangerous_pattern(i: usize) -> (s: &'static str)
    requires
        i < 8,
    ensures
        s@ == dangerous_patterns()[i as int],
{
    if i == 0 {
        "(.*)*"
    } else if i == 1 {
        "(.+)+"
    } else if i == 2 {
        "(a+)+"
    } else if i == 3 {
        "(a*)*"
    } else if i == 4 {
        "(a|aa)+"
    } else if i == 5 {
        "(a|a?)+"
    } else if i == 6 {
        "(.*)\\1"
    } else {
        "(.+)\\1+"
    }
}

/// The first dangerous pattern (in list order) that `pattern` contains.
pub open spec fn first_dangerous(pattern: Seq<char>, from: int) -> Option<int>
    decreases 8 - from,
{
    if from < 0 || from >= 8 {
        None
    } else if contains_seq(pattern, dangerous_patterns()[from]) {
        Some(from)
    } else {
        first_dangerous(pattern, from + 1)
    }
}

pub open spec fn dangerous_message(d: Seq<char>) -> Seq<char> {
    "Potentially dangerous regex pattern containing '"@ + d
        + "'. These patterns can cause catastrophic backtracking and server hangs."@
}

/// Validate that a regex pattern is safe to compile and run: it must hold
/// none of the known catastrophic-backtracking patterns, and it must compile
/// within `MAX_REGEX_SIZE` bytes.
pub fn validate_regex_safety(pattern: &str) -> (r: Result<SearchPattern, RobloxMcpError>)
    ensures
        first_dangerous(pattern@, 0) matches Some(i) ==> r matches Err(e) && e@
            == ErrorModel::ConfigError(dangerous_message(dangerous_patterns()[i])),
        first_dangerous(pattern@, 0) is None ==> ((r is Ok) == regex_builds(pattern@, MAX_REGEX_SIZE)),
        first_dangerous(pattern@, 0) is None ==> (r matches Err(e) ==> e@ matches ErrorModel::ConfigError(m)
            && exists|t: Seq<char>| m == "Invalid regex pattern: "@ + t),
        r matches Ok(p) ==> p@ == pattern@,
{
    let mut i: usize = 0;
    while i < 8
        invariant
            i <= 8,
            first_dangerous(pattern@, 0) == first_dangerous(pattern@, i as int),
        decreases 8 - i,
    {
        let d = dangerous_pattern(i);
        if str_contains(pattern, d) {
            let mut v: Vec<char> = Vec::new();
            push_str(&mut v, "Potentially dangerous regex pattern containing '");
            push_str(&mut v, d);
            push_str(&mut v, "'. These patterns can cause catastrophic backtracking and server hangs.");
            return Err(RobloxMcpError::ConfigError(string_from_chars(&v)));
        }
        i += 1;
    }
    match build_pattern(pattern, MAX_REGEX_SIZE) {
        Ok(p) => Ok(p),
        Err(e) => {
            let text = regex_error_text(&e);
            let mut v: Vec<char> = Vec::new();
            push_str(&mut v, "Invalid regex pattern: ");
            push_str(&mut v, text.as_str());
            assert(v@ == "Invalid regex pattern: "@ + text@);
            Err(RobloxMcpError::ConfigError(string_from_chars(&v)))
        },
    }
}

/// `str::lines`: split at `\n`, dropping a `\r` before it; a final line
/// ending adds no empty line.
pub open spec fn lines_of(s: Seq<char>) -> Seq<Seq<char>>
    decreases s.len(),
{
    if s.len() == 0 {
        Seq::empty()
    } else if contains_char(s, '\n') {
        proof {
            lemma_find_char(s, '\n');
        }
        let l = before_char(s, '\n');
        let l2 = if l.len() > 0 && l.last() == '\r' {
            l.drop_last()
        } else {
            l
        };
        seq![l2] + lines_of(after_char(s, '\n'))
    } else {
        seq![s]
    }
}

/// `str::lines`, collected.
pub fn split_lines(content: &str) -> (r: Vec<String>)
    ensures
        r@.map_values(|l: String| l@) == lines_of(content@),
{
    let v = chars_of(content);
    let len = v.len();
    let mut out: Vec<String> = Vec::new();
    let mut start: usize = 0;
    assert(v@.subrange(0, len as int) =~= v@);
    while start < len
        invariant
            start <= len == v.len(),
            v@ == content@,
            lines_of(content@) == out@.map_values(|l: String| l@) + lines_of(v@.subrange(start as int, len as int)),
        decreases len - start,
    {
        let ghost rest = v@.subrange(start as int, len as int);
        proof {
            lemma_find_char(rest, '\n');
        }
        let nl = find_char_from(&v, '\n', start);
        let end = match nl {
            Some(i) => i,
            None => len,
        };
        let raw = copy_range(&v, start, end);
        let line = if nl.is_some() && raw.len() > 0 && raw[raw.len() - 1] == '\r' {
            copy_range(&raw, 0, raw.len() - 1)
        } else {
            raw
        };
        let ghost ls = lines_of(rest);
        proof {
            if nl is None {
                assert(!contains_char(rest, '\n'));
                assert(rest =~= v@.subrange(start as int, end as int));
            } else {
                assert(before_char(rest, '\n') =~= v@.subrange(start as int, end as int));
                assert(after_char(rest, '\n') =~= v@.subrange(end + 1, len as int));
            }
            assert(ls[0] == line@);
        }
        let ghost before = out@;
        out.push(string_from_chars(&line));
        proof {
            assert(out@.map_values(|l: String| l@) =~= before.map_values(|l: String| l@).push(line@));
            let next_rest = match nl {
                Some(i) => v@.subrange(i + 1, len as int),
                None => Seq::empty(),
            };
            assert(ls =~= seq![line@] + lines_of(next_rest));
            assert(out@.map_values(|l: String| l@) + lines_of(next_rest) =~= before.map_values(|l: String| l@) + ls);
        }
        match nl {
            Some(i) => {
                start = i + 1;
            },
            None => {
                start = len;
            },
        }
    }
    assert(v@.subrange(start as int, len as int) =~= Seq::<char>::empty());
    out
}

/// One search hit.
#[derive(Debug, Clone)]
pub struct SearchMatch {
    pub file: String,
    /// One-based line number.
    pub line: usize,
    /// The line, trimmed.
    pub content: String,
}

pub struct MatchModel {
    pub file: Seq<char>,
    pub line: int,
    pub content: Seq<char>,
}

pub open spec fn match_view(m: SearchMatch) -> MatchModel {
    MatchModel { file: m.file@, line: m.line as int, content: m.content@ }
}

pub open spec fn matches_view(v: Seq<SearchMatch>) -> Seq<MatchModel> {
    v.map_values(|m: SearchMatch| match_view(m))
}

/// The matching lines of a file, numbered from `first`.
pub open spec fn line_matches(file: Seq<char>, pattern: Seq<char>, lines: Seq<Seq<char>>, first: int) -> Seq<MatchModel>
    decreases lines.len(),
{
    if lines.len() == 0 {
        Seq::empty()
    } else {
        let rest = line_matches(file, pattern, lines.drop_first(), first + 1);
        if regex_matches(pattern, lines[0]) {
            seq![MatchModel { file, line: first, content: trim(lines[0]) }] + rest
        } else {
            rest
        }
    }
}

/// Appending the matches of a file to `found` stops at `limit` matches; the
/// result says whether a match was left out.
pub open spec fn add_matches(found: Seq<MatchModel>, new: Seq<MatchModel>, limit: int) -> (Seq<MatchModel>, bool) {
    if found.len() + new.len() <= limit {
        (found + new, false)
    } else if found.len() >= limit {
        (found, true)
    } else {
        (found + new.take(limit - found.len()), true)
    }
}

/// Search the lines of `content` (the text of `file`) for `pattern`, adding
/// the hits to `results` up to `limit`. Returns whether a hit was left out.
pub fn search_lines(
    file: &str,
    content: &str,
    pattern: &SearchPattern,
    results: &mut Vec<SearchMatch>,
    limit: usize,
) -> (truncated: bool)
    requires
        old(results).len() <= limit,
    ensures
        (matches_view(final(results)@), truncated) == add_matches(
            matches_view(old(results)@),
            line_matches(file@, pattern@, lines_of(content@), 1),
            limit as int,
        ),
{
    let v = chars_of(content);
    let len = v.len();
    let mut start: usize = 0;
    let mut idx: usize = 0;
    let ghost all = line_matches(file@, pattern@, lines_of(content@), 1);
    let ghost found0 = matches_view(results@);
    let ghost mut taken: Seq<MatchModel> = Seq::empty();
    assert(v@.subrange(0, len as int) =~= v@);
    while start < len
        invariant
            start <= len == v.len(),
            v@ == content@,
            all == line_matches(file@, pattern@, lines_of(content@), 1),
            all == taken + line_matches(file@, pattern@, lines_of(v@.subrange(start as int, len as int)), idx + 1),
            matches_view(results@) == found0 + taken,
            found0 == matches_view(old(results)@),
            results.len() <= limit,
            found0.len() + taken.len() <= limit,
            idx <= start,
        decreases len - start,
    {
        let ghost rest = v@.subrange(start as int, len as int);
        proof {
            lemma_find_char(rest, '\n');
        }
        let nl = find_char_from(&v, '\n', start);
        let end = match nl {
            Some(i) => i,
            None => len,
        };
        let raw = copy_range(&v, start, end);
        let line = if nl.is_some() && raw.len() > 0 && raw[raw.len() - 1] == '\r' {
            copy_range(&raw, 0, raw.len() - 1)
        } else {
            raw
        };
        let ghost ls = lines_of(rest);
        proof {
            if nl is None {
                assert(!contains_char(rest, '\n'));
                assert(rest =~= v@.subrange(start as int, end as int));
                assert(ls == seq![rest]);
            } else {
                assert(before_char(rest, '\n') =~= v@.subrange(start as int, end as int));
                assert(after_char(rest, '\n') =~= v@.subrange(end + 1, len as int));
            }
            assert(ls[0] == line@);
        }
        let line_str = string_from_chars(&line);
        let hit = pattern_is_match(pattern, line_str.as_str());
        if hit {
            if results.len() >= limit {
                proof {
                    let lm = line_matches(file@, pattern@, ls, idx + 1);
                    assert(lm.len() > 0);
                    assert(matches_view(results@).len() == results@.len());
                    assert((found0 + taken).len() == found0.len() + taken.len());
                    assert(found0.len() + taken.len() == limit);
                    if found0.len() < limit {
                        assert(all.take(limit - found0.len()) =~= taken);
                    } else {
                        assert(taken.len() == 0);
                        assert(found0 + taken =~= found0);
                    }
                }
                return true;
            }
            let t = trim_chars(&line);
            let ghost before = results@;
            let sm = SearchMatch { file: String::from_str(file), line: idx + 1, content: string_from_chars(&t) };
            results.push(sm);
            proof {
                let m = MatchModel { file: file@, line: idx + 1, content: trim(line@) };
                assert(results@.drop_last() =~= before);
                assert(match_view(results@.last()) == m);
                assert(matches_view(results@) =~= matches_view(before).push(m));
                taken = taken.push(m);
                assert(found0 + taken =~= (found0 + taken.drop_last()).push(m));
            }
        }
        proof {
            assert(ls.drop_first() == lines_of(match nl {
                Some(i) => v@.subrange(i + 1, len as int),
                None => Seq::empty(),
            }));
        }
        match nl {
            Some(i) => {
                start = i + 1;
            },
            None => {
                start = len;
            },
        }
        idx = idx + 1;
    }
    proof {
        assert(v@.subrange(start as int, len as int) =~= Seq::<char>::empty());
        assert(all =~= taken);
    }
    false
}


/// What the directory walk reported of one entry.
#[derive(Debug)]
#[allow(inconsistent_fields)]
pub enum WalkEntry {
    /// The walk failed here: the path it names, if any, and the error's text.
    Failed { path: Option<String>, error: String },
    Entry {
        /// The entry's path, displayed.
        path: String,
        is_dir: bool,
        /// `Path::extension`, read lossily as text.
        extension: Option<String>,
        /// `Path::file_name`, read lossily as text.
        file_name: Option<String>,
    },
}

#[allow(inconsistent_fields)]
pub enum WalkModel {
    Failed { path: Option<Seq<char>>, error: Seq<char> },
    Entry { path: Seq<char>, is_dir: bool, extension: Option<Seq<char>>, file_name: Option<Seq<char>> },
}

pub open spec fn ostr(o: Option<String>) -> Option<Seq<char>> {
    match o {
        Some(s) => Some(s@),
        None => None,
    }
}

impl View for WalkEntry {
    type V = WalkModel;

    open spec fn view(&self) -> WalkModel {
        match *self {
            WalkEntry::Failed { path, error } => WalkModel::Failed { path: ostr(path), error: error@ },
            WalkEntry::Entry { path, is_dir, extension, file_name } => WalkModel::Entry {
                path: path@,
                is_dir,
                extension: ostr(extension),
                file_name: ostr(file_name),
            },
        }
    }
}

/// A problem met during a scan: its kind, the path concerned and the error's text.
#[derive(Debug, Clone)]
pub struct ScanIssue {
    pub kind: String,
    pub path: Option<String>,
    pub error: Option<String>,
}

pub struct IssueModel {
    pub kind: Seq<char>,
    pub path: Option<Seq<char>>,
    pub error: Option<Seq<char>>,
}

pub open spec fn issue_view(i: ScanIssue) -> IssueModel {
    IssueModel { kind: i.kind@, path: ostr(i.path), error: ostr(i.error) }
}

pub open spec fn issues_view(v: Seq<ScanIssue>) -> Seq<IssueModel> {
    v.map_values(|i: ScanIssue| issue_view(i))
}

pub enum EntryAction {
    /// Report a problem.
    Report(IssueModel),
    /// Not a file of interest.
    Ignore,
    /// A file of interest: read it.
    Examine,
}

/// What a walk entry calls for when files with extension `ext` are wanted:
/// walk errors are reported, directories and other extensions ignored,
/// hidden files reported as skipped.
pub open spec fn entry_action(e: WalkModel, ext: Seq<char>) -> EntryAction {
    match e {
        WalkModel::Failed { path, error } => EntryAction::Report(
            IssueModel { kind: "enumeration_error"@, path, error: Some(error) },
        ),
        WalkModel::Entry { path, is_dir, extension, file_name } => {
            if is_dir {
                EntryAction::Ignore
            } else if extension != Some(ext) {
                EntryAction::Ignore
            } else if file_name is Some && file_name->0.len() > 0 && file_name->0[0] == '.' {
                EntryAction::Report(IssueModel { kind: "skipped_hidden"@, path: Some(path), error: None })
            } else {
                EntryAction::Examine
            }
        },
    }
}

fn clone_ostr(o: &Option<String>) -> (r: Option<String>)
    ensures
        ostr(r) == ostr(*o),
{
    match o {
        Some(s) => Some(s.clone()),
        None => None,
    }
}

fn entry_action_exec(e: &WalkEntry, ext: &str) -> (r: Result<bool, ScanIssue>)
    ensures
        match entry_action(e@, ext@) {
            EntryAction::Report(m) => r matches Err(i) && issue_view(i) == m,
            EntryAction::Ignore => r == Ok::<bool, ScanIssue>(false),
            EntryAction::Examine => r == Ok::<bool, ScanIssue>(true),
        },
{
    match e {
        WalkEntry::Failed { path, error } => Err(
            ScanIssue { kind: String::from_str("enumeration_error"), path: clone_ostr(path), error: Some(error.clone()) },
        ),
        WalkEntry::Entry { path, is_dir, extension, file_name } => {
            if *is_dir {
                return Ok(false);
            }
            let same_ext = match extension {
                Some(x) => str_eq(x.as_str(), ext),
                None => false,
            };
            if !same_ext {
                return Ok(false);
            }
            if let Some(n) = file_name {
                let nv = chars_of(n.as_str());
                if nv.len() > 0 && nv[0] == '.' {
                    return Err(ScanIssue { kind: String::from_str("skipped_hidden"), path: Some(path.clone()), error: None });
                }
            }
            Ok(true)
        },
    }
}

/// The state of a content search over a walk.
pub struct ContentSearch {
    pattern: SearchPattern,
    extension: String,
    results: Vec<SearchMatch>,
    issues: Vec<ScanIssue>,
    truncated: bool,
    limit: usize,
}

pub struct SearchModel {
    pub pattern: Seq<char>,
    pub extension: Seq<char>,
    pub results: Seq<MatchModel>,
    pub issues: Seq<IssueModel>,
    pub truncated: bool,
    pub limit: int,
}

impl View for ContentSearch {
    type V = SearchModel;

    closed spec fn view(&self) -> SearchModel {
        SearchModel {
            pattern: self.pattern@,
            extension: self.extension@,
            results: matches_view(self.results@),
            issues: issues_view(self.issues@),
            truncated: self.truncated,
            limit: self.limit as int,
        }
    }
}

/// The search state after one walk entry (`content`: the file's text, or
/// the read error's text, for an entry that is examined).
pub open spec fn search_step(m: SearchModel, e: WalkModel, content: Option<Result<Seq<char>, Seq<char>>>) -> SearchModel {
    if m.truncated {
        m
    } else {
        match entry_action(e, m.extension) {
            EntryAction::Report(i) => SearchModel { issues: m.issues.push(i), ..m },
            EntryAction::Ignore => m,
            EntryAction::Examine => match (e, content) {
                (WalkModel::Entry { path, .. }, Some(Err(err))) => SearchModel {
                    issues: m.issues.push(IssueModel { kind: "read_error"@, path: Some(path), error: Some(err) }),
                    ..m
                },
                (WalkModel::Entry { path, .. }, Some(Ok(text))) => {
                    let (r, t) = add_matches(m.results, line_matches(path, m.pattern, lines_of(text), 1), m.limit);
                    SearchModel { results: r, truncated: t, ..m }
                },
                _ => m,
            },
        }
    }
}

pub open spec fn content_view(c: Option<Result<String, String>>) -> Option<Result<Seq<char>, Seq<char>>> {
    match c {
        Some(Ok(s)) => Some(Ok(s@)),
        Some(Err(e)) => Some(Err(e@)),
        None => None,
    }
}

impl ContentSearch {
    pub closed spec fn wf(&self) -> bool {
        self.results.len() <= self.limit
    }

    /// A search for `pattern` in the files with the given extension,
    /// reporting at most `MAX_SEARCH_RESULTS` matches.
    pub fn new(pattern: SearchPattern, extension: &str) -> (s: Self)
        ensures
            s.wf(),
            s@ == (SearchModel {
                pattern: pattern@,
                extension: extension@,
                results: Seq::empty(),
                issues: Seq::empty(),
                truncated: false,
                limit: MAX_SEARCH_RESULTS as int,
            }),
    {
        let s = ContentSearch {
            pattern,
            extension: String::from_str(extension),
            results: Vec::new(),
            issues: Vec::new(),
            truncated: false,
            limit: MAX_SEARCH_RESULTS,
        };
        assert(s@.results =~= Seq::empty());
        assert(s@.issues =~= Seq::empty());
        s
    }

    /// Whether the walk entry is a file whose text the search wants.
    pub fn wants_content(&self, e: &WalkEntry) -> (b: bool)
        ensures
            b == (!self@.truncated && entry_action(e@, self@.extension) is Examine),
    {
        if self.truncated {
            return false;
        }
        match entry_action_exec(e, self.extension.as_str()) {
            Ok(b) => b,
            Err(_) => false,
        }
    }

    /// Whether the search hit its limit; the walk stops there.
    pub fn is_done(&self) -> (b: bool)
        ensures
            b == self@.truncated,
    {
        self.truncated
    }

    /// Take in one walk entry, with the file's text (or the read error) when
    /// `wants_content` asked for it.
    pub fn add_entry(&mut self, e: &WalkEntry, content: Option<Result<String, String>>)
        requires
            old(self).wf(),
        ensures
            final(self).wf(),
            final(self)@ == search_step(old(self)@, e@, content_view(content)),
    {
        let ghost m = self@;
        if self.truncated {
            return;
        }
        match entry_action_exec(e, self.extension.as_str()) {
            Err(issue) => {
                let ghost before = self.issues@;
                self.issues.push(issue);
                assert(self.issues@.drop_last() =~= before);
                assert(issues_view(self.issues@) =~= m.issues.push(issue_view(self.issues@.last())));
                assert(self@ =~= search_step(m, e@, content_view(content)));
            },
            Ok(false) => {},
            Ok(true) => {
                if let WalkEntry::Entry { path, .. } = e {
                    match content {
                        Some(Err(err)) => {
                            let ghost before = self.issues@;
                            self.issues.push(ScanIssue { kind: String::from_str("read_error"), path: Some(path.clone()), error: Some(err) });
                            assert(self.issues@.drop_last() =~= before);
                            assert(issues_view(self.issues@) =~= m.issues.push(issue_view(self.issues@.last())));
                            assert(self@ =~= search_step(m, e@, content_view(Some(Err(err)))));
                        },
                        Some(Ok(text)) => {
                            let t = search_lines(path.as_str(), text.as_str(), &self.pattern, &mut self.results, self.limit);
                            self.truncated = t;
                            proof {
                                let (r, tt) = add_matches(m.results, line_matches(path@, m.pattern, lines_of(text@), 1), m.limit);
                                assert(self@.results == r);
                                assert(r.len() <= m.limit);
                            }
                            assert(self@ =~= search_step(m, e@, content_view(Some(Ok(text)))));
                        },
                        None => {},
                    }
                }
            },
        }
    }

    /// The matches found, the problems met, and whether the limit cut the search short.
    pub fn finish(self) -> (r: (Vec<SearchMatch>, Vec<ScanIssue>, bool))
        ensures
            matches_view(r.0@) == self@.results,
            issues_view(r.1@) == self@.issues,
            r.2 == self@.truncated,
    {
        (self.results, self.issues, self.truncated)
    }
}

/// Why a file's modification time could not be had.
#[derive(Debug)]
pub enum TimeError {
    /// Reading the metadata failed.
    Metadata(String),
    /// The platform gave no modification time.
    Modified(String),
    /// The time lies before the Unix epoch.
    Timestamp(String),
}

pub open spec fn time_issue(path: Seq<char>, e: TimeError) -> IssueModel {
    match e {
        TimeError::Metadata(m) => IssueModel { kind: "metadata_error"@, path: Some(path), error: Some(m@) },
        TimeError::Modified(m) => IssueModel { kind: "modified_time_error"@, path: Some(path), error: Some(m@) },
        TimeError::Timestamp(m) => IssueModel { kind: "timestamp_error"@, path: Some(path), error: Some(m@) },
    }
}

/// The state of a scan for the modification times of `.luau` files.
pub struct ChangeScan {
    files: Vec<(String, u64)>,
    issues: Vec<ScanIssue>,
    truncated: bool,
    limit: usize,
}

pub struct ScanModel {
    pub files: Seq<(Seq<char>, u64)>,
    pub issues: Seq<IssueModel>,
    pub truncated: bool,
    pub limit: int,
}

pub open spec fn files_view(v: Seq<(String, u64)>) -> Seq<(Seq<char>, u64)> {
    v.map_values(|f: (String, u64)| (f.0@, f.1))
}

impl View for ChangeScan {
    type V = ScanModel;

    closed spec fn view(&self) -> ScanModel {
        ScanModel {
            files: files_view(self.files@),
            issues: issues_view(self.issues@),
            truncated: self.truncated,
            limit: self.limit as int,
        }
    }
}

/// The scan state after one walk entry (`mtime`: the file's modification
/// time in seconds since the epoch, or why there is none, for an entry that
/// is examined). Once `limit` files are held, the next entry ends the scan.
pub open spec fn scan_step(m: ScanModel, e: WalkModel, mtime: Option<Result<u64, TimeError>>) -> ScanModel {
    if m.truncated {
        m
    } else if m.files.len() >= m.limit {
        ScanModel { truncated: true, ..m }
    } else {
        match entry_action(e, "luau"@) {
            EntryAction::Report(i) => ScanModel { issues: m.issues.push(i), ..m },
            EntryAction::Ignore => m,
            EntryAction::Examine => match (e, mtime) {
                (WalkModel::Entry { path, .. }, Some(Err(err))) => ScanModel {
                    issues: m.issues.push(time_issue(path, err)),
                    ..m
                },
                (WalkModel::Entry { path, .. }, Some(Ok(secs))) => ScanModel {
                    files: m.files.push((path, secs)),
                    ..m
                },
                _ => m,
            },
        }
    }
}

impl ChangeScan {
    /// A scan reporting at most `MAX_FILE_ENTRIES` files.
    pub fn new() -> (s: Self)
        ensures
            s@ == (ScanModel { files: Seq::empty(), issues: Seq::empty(), truncated: false, limit: MAX_FILE_ENTRIES as int }),
    {
        let s = ChangeScan { files: Vec::new(), issues: Vec::new(), truncated: false, limit: MAX_FILE_ENTRIES };
        assert(s@.files =~= Seq::empty());
        assert(s@.issues =~= Seq::empty());
        s
    }

    /// Whether the walk entry is a file whose modification time the scan wants.
    pub fn wants_mtime(&self, e: &WalkEntry) -> (b: bool)
        ensures
            b == (!self@.truncated && self@.files.len() < self@.limit && entry_action(e@, "luau"@) is Examine),
    {
        if self.truncated || self.files.len() >= self.limit {
            return false;
        }
        match entry_action_exec(e, "luau") {
            Ok(b) => b,
            Err(_) => false,
        }
    }

    /// Whether the scan ended at its limit; the walk stops there.
    pub fn is_done(&self) -> (b: bool)
        ensures
            b == self@.truncated,
    {
        self.truncated
    }

    /// Take in one walk entry, with its modification time when
    /// `wants_mtime` asked for it.
    pub fn add_entry(&mut self, e: &WalkEntry, mtime: Option<Result<u64, TimeError>>)
        ensures
            final(self)@ == scan_step(old(self)@, e@, mtime),
    {
        let ghost m = self@;
        let ghost mt = mtime;
        if self.truncated {
            return;
        }
        if self.files.len() >= self.limit {
            self.truncated = true;
            assert(self@ =~= scan_step(m, e@, mt));
            return;
        }
        match entry_action_exec(e, "luau") {
            Err(issue) => {
                let ghost before = self.issues@;
                self.issues.push(issue);
                assert(self.issues@.drop_last() =~= before);
                assert(issues_view(self.issues@) =~= m.issues.push(issue_view(self.issues@.last())));
                assert(self@ =~= scan_step(m, e@, mt));
            },
            Ok(false) => {},
            Ok(true) => {
                if let WalkEntry::Entry { path, .. } = e {
                    match mtime {
                        Some(Err(err)) => {
                            let ghost before = self.issues@;
                            let (kind, msg) = match err {
                                TimeError::Metadata(x) => ("metadata_error", x),
                                TimeError::Modified(x) => ("modified_time_error", x),
                                TimeError::Timestamp(x) => ("timestamp_error", x),
                            };
                            self.issues.push(ScanIssue { kind: String::from_str(kind), path: Some(path.clone()), error: Some(msg) });
                            assert(self.issues@.drop_last() =~= before);
                            assert(issue_view(self.issues@.last()) == time_issue(path@, mt->0->Err_0));
                            assert(issues_view(self.issues@) =~= m.issues.push(issue_view(self.issues@.last())));
                            assert(self@ =~= scan_step(m, e@, mt));
                        },
                        Some(Ok(secs)) => {
                            let ghost before = self.files@;
                            self.files.push((path.clone(), secs));
                            assert(self.files@.drop_last() =~= before);
                            assert(files_view(self.files@) =~= m.files.push((path@, secs)));
                            assert(self@ =~= scan_step(m, e@, mt));
                        },
                        None => {},
                    }
                }
            },
        }
    }

    /// The files with their modification times, the problems met, and
    /// whether the limit cut the scan short.
    pub fn finish(self) -> (r: (Vec<(String, u64)>, Vec<ScanIssue>, bool))
        ensures
            files_view(r.0@) == self@.files,
            issues_view(r.1@) == self@.issues,
            r.2 == self@.truncated,
    {
        (self.files, self.issues, self.truncated)
    }
}

/// A search never reports more than its limit: hits are only ever appended,
/// in order, and the ones past the limit are left out (and flagged).
pub proof fn law_search_within_limit(found: Seq<MatchModel>, new: Seq<MatchModel>, limit: int)
    requires
        found.len() <= limit,
    ensures
        add_matches(found, new, limit).0.len() <= limit,
        found.is_prefix_of(add_matches(found, new, limit).0),
        add_matches(found, new, limit).0.is_prefix_of(found + new),
        add_matches(found, new, limit).1 == (found.len() + new.len() > limit),
{
    let r = add_matches(found, new, limit).0;
    assert(found =~= r.subrange(0, found.len() as int));
    assert(r =~= (found + new).subrange(0, r.len() as int));
}

/// The search over a whole walk: one step per entry, with what was read of
/// each (`cs[i]` for `es[i]`).
pub open spec fn search_walk(
    m: SearchModel,
    es: Seq<WalkModel>,
    cs: Seq<Option<Result<Seq<char>, Seq<char>>>>,
) -> SearchModel
    decreases es.len(),
{
    if es.len() == 0 || cs.len() < es.len() {
        m
    } else {
        search_walk(search_step(m, es[0], cs[0]), es.drop_first(), cs.drop_first())
    }
}

/// The hits of one walk entry: the matching lines of a file that is
/// examined and could be read.
pub open spec fn entry_hits(
    pattern: Seq<char>,
    ext: Seq<char>,
    e: WalkModel,
    c: Option<Result<Seq<char>, Seq<char>>>,
) -> Seq<MatchModel> {
    match (entry_action(e, ext), e, c) {
        (EntryAction::Examine, WalkModel::Entry { path, .. }, Some(Ok(text))) => line_matches(
            path,
            pattern,
            lines_of(text),
            1,
        ),
        _ => Seq::empty(),
    }
}

/// The problems of one walk entry: walk errors, hidden files, unreadable
/// files.
pub open spec fn entry_issues(ext: Seq<char>, e: WalkModel, c: Option<Result<Seq<char>, Seq<char>>>) -> Seq<
    IssueModel,
> {
    match entry_action(e, ext) {
        EntryAction::Report(i) => seq![i],
        EntryAction::Ignore => Seq::empty(),
        EntryAction::Examine => match (e, c) {
            (WalkModel::Entry { path, .. }, Some(Err(err))) => seq![
                IssueModel { kind: "read_error"@, path: Some(path), error: Some(err) },
            ],
            _ => Seq::empty(),
        },
    }
}

/// All hits of a walk, in walk order and line order.
pub open spec fn walk_hits(
    pattern: Seq<char>,
    ext: Seq<char>,
    es: Seq<WalkModel>,
    cs: Seq<Option<Result<Seq<char>, Seq<char>>>>,
) -> Seq<MatchModel>
    decreases es.len(),
{
    if es.len() == 0 || cs.len() < es.len() {
        Seq::empty()
    } else {
        entry_hits(pattern, ext, es[0], cs[0]) + walk_hits(pattern, ext, es.drop_first(), cs.drop_first())
    }
}

/// All problems of a walk, in walk order.
pub open spec fn walk_issues(
    ext: Seq<char>,
    es: Seq<WalkModel>,
    cs: Seq<Option<Result<Seq<char>, Seq<char>>>>,
) -> Seq<IssueModel>
    decreases es.len(),
{
    if es.len() == 0 || cs.len() < es.len() {
        Seq::empty()
    } else {
        entry_issues(ext, es[0], cs[0]) + walk_issues(ext, es.drop_first(), cs.drop_first())
    }
}

proof fn lemma_walk_stays_cut(m: SearchModel, es: Seq<WalkModel>, cs: Seq<Option<Result<Seq<char>, Seq<char>>>>)
    requires
        m.truncated,
    ensures
        search_walk(m, es, cs) == m,
    decreases es.len(),
{
    if es.len() > 0 && cs.len() >= es.len() {
        lemma_walk_stays_cut(m, es.drop_first(), cs.drop_first());
    }
}

/// Over a whole walk, a search reports every matching line of every file
/// of the wanted extension that is not hidden, in walk order and line order,
/// after the hits it already held, and every walk error, hidden file and
/// unreadable file as a problem; cut short, it holds the first `limit` of
/// those hits exactly.
pub proof fn law_search_walk(m: SearchModel, es: Seq<WalkModel>, cs: Seq<Option<Result<Seq<char>, Seq<char>>>>)
    requires
        !m.truncated,
        m.results.len() <= m.limit,
    ensures
        ({
            let f = search_walk(m, es, cs);
            let all = m.results + walk_hits(m.pattern, m.extension, es, cs);
            &&& !f.truncated ==> f.results == all && f.issues == m.issues + walk_issues(m.extension, es, cs)
            &&& f.truncated ==> f.results == all.take(m.limit) && all.len() > m.limit
        }),
    decreases es.len(),
{
    if es.len() == 0 || cs.len() < es.len() {
        assert(m.results + Seq::<MatchModel>::empty() =~= m.results);
        assert(m.issues + Seq::<IssueModel>::empty() =~= m.issues);
    } else {
        let e = es[0];
        let c = cs[0];
        let m1 = search_step(m, e, c);
        let h0 = entry_hits(m.pattern, m.extension, e, c);
        let i0 = entry_issues(m.extension, e, c);
        let hr = walk_hits(m.pattern, m.extension, es.drop_first(), cs.drop_first());
        let ir = walk_issues(m.extension, es.drop_first(), cs.drop_first());
        assert(walk_hits(m.pattern, m.extension, es, cs) == h0 + hr);
        assert(walk_issues(m.extension, es, cs) == i0 + ir);
        assert(m.results + (h0 + hr) =~= (m.results + h0) + hr);
        assert(m.issues + (i0 + ir) =~= (m.issues + i0) + ir);
        if m1.truncated {
            lemma_walk_stays_cut(m1, es.drop_first(), cs.drop_first());
            let all = m.results + (h0 + hr);
            // Only a file's hits can cut the search short.
            assert(m.results.len() + h0.len() > m.limit);
            assert(m1.results =~= (m.results + h0).take(m.limit));
            assert((m.results + h0).take(m.limit) =~= all.take(m.limit));
        } else {
            assert(m1.results =~= m.results + h0);
            assert(m1.issues =~= m.issues + i0);
            law_search_walk(m1, es.drop_first(), cs.drop_first());
        }
    }
}

/// The change scan over a whole walk: one step per entry, with what was
/// read of each (`ts[i]` for `es[i]`).
pub open spec fn scan_walk(m: ScanModel, es: Seq<WalkModel>, ts: Seq<Option<Result<u64, TimeError>>>) -> ScanModel
    decreases es.len(),
{
    if es.len() == 0 || ts.len() < es.len() {
        m
    } else {
        scan_walk(scan_step(m, es[0], ts[0]), es.drop_first(), ts.drop_first())
    }
}

/// The file one walk entry contributes: a `.luau` file that is not hidden,
/// with its modification time.
pub open spec fn entry_file(e: WalkModel, t: Option<Result<u64, TimeError>>) -> Seq<(Seq<char>, u64)> {
    match (entry_action(e, "luau"@), e, t) {
        (EntryAction::Examine, WalkModel::Entry { path, .. }, Some(Ok(secs))) => seq![(path, secs)],
        _ => Seq::empty(),
    }
}

/// The problem one walk entry contributes to a change scan.
pub open spec fn entry_scan_issues(e: WalkModel, t: Option<Result<u64, TimeError>>) -> Seq<IssueModel> {
    match entry_action(e, "luau"@) {
        EntryAction::Report(i) => seq![i],
        EntryAction::Ignore => Seq::empty(),
        EntryAction::Examine => match (e, t) {
            (WalkModel::Entry { path, .. }, Some(Err(err))) => seq![time_issue(path, err)],
            _ => Seq::empty(),
        },
    }
}

pub open spec fn walk_files(es: Seq<WalkModel>, ts: Seq<Option<Result<u64, TimeError>>>) -> Seq<(Seq<char>, u64)>
    decreases es.len(),
{
    if es.len() == 0 || ts.len() < es.len() {
        Seq::empty()
    } else {
        entry_file(es[0], ts[0]) + walk_files(es.drop_first(), ts.drop_first())
    }
}

pub open spec fn walk_scan_issues(es: Seq<WalkModel>, ts: Seq<Option<Result<u64, TimeError>>>) -> Seq<IssueModel>
    decreases es.len(),
{
    if es.len() == 0 || ts.len() < es.len() {
        Seq::empty()
    } else {
        entry_scan_issues(es[0], ts[0]) + walk_scan_issues(es.drop_first(), ts.drop_first())
    }
}

proof fn lemma_scan_stays_cut(m: ScanModel, es: Seq<WalkModel>, ts: Seq<Option<Result<u64, TimeError>>>)
    requires
        m.truncated,
    ensures
        scan_walk(m, es, ts) == m,
    decreases es.len(),
{
    if es.len() > 0 && ts.len() >= es.len() {
        lemma_scan_stays_cut(m, es.drop_first(), ts.drop_first());
    }
}

/// Over a whole walk, a change scan reports every `.luau` file that is not
/// hidden and whose time could be read, in walk order, after the files it
/// already held, and every walk error, hidden file and unreadable time as a
/// problem; cut short, it holds exactly the first `limit` of those files.
pub proof fn law_scan_walk(m: ScanModel, es: Seq<WalkModel>, ts: Seq<Option<Result<u64, TimeError>>>)
    requires
        !m.truncated,
        m.files.len() <= m.limit,
    ensures
        ({
            let f = scan_walk(m, es, ts);
            let all = m.files + walk_files(es, ts);
            &&& !f.truncated ==> f.files == all && f.issues == m.issues + walk_scan_issues(es, ts)
            &&& f.truncated ==> f.files.len() == m.limit && f.files == all.take(m.limit)
        }),
    decreases es.len(),
{
    if es.len() == 0 || ts.len() < es.len() {
        assert(m.files + Seq::<(Seq<char>, u64)>::empty() =~= m.files);
        assert(m.issues + Seq::<IssueModel>::empty() =~= m.issues);
    } else {
        let e = es[0];
        let t = ts[0];
        let m1 = scan_step(m, e, t);
        let f0 = entry_file(e, t);
        let i0 = entry_scan_issues(e, t);
        let fr = walk_files(es.drop_first(), ts.drop_first());
        let ir = walk_scan_issues(es.drop_first(), ts.drop_first());
        assert(walk_files(es, ts) == f0 + fr);
        assert(walk_scan_issues(es, ts) == i0 + ir);
        assert(m.files + (f0 + fr) =~= (m.files + f0) + fr);
        assert(m.issues + (i0 + ir) =~= (m.issues + i0) + ir);
        if m1.truncated {
            lemma_scan_stays_cut(m1, es.drop_first(), ts.drop_first());
            assert(m1.files == m.files);
            assert(m.files.len() == m.limit);
            assert((m.files + (f0 + fr)).take(m.limit) =~= m.files);
        } else {
            assert(m1.files =~= m.files + f0);
            assert(m1.issues =~= m.issues + i0);
            law_scan_walk(m1, es.drop_first(), ts.drop_first());
        }
    }
}

/// Line numbers are one-based positions in the content's lines: every
/// reported match names its file, lies on a line the pattern matches, and
/// holds that line trimmed; matches come in line order, and every line the
/// pattern matches is reported (`first` is the number of the first line).
pub proof fn law_line_numbers(file: Seq<char>, pattern: Seq<char>, lines: Seq<Seq<char>>, first: int)
    ensures
        ({
            let ms = line_matches(file, pattern, lines, first);
            &&& forall|j: int| 0 <= j < ms.len() ==> {
                let m = #[trigger] ms[j];
                &&& first <= m.line < first + lines.len()
                &&& m.file == file
                &&& regex_matches(pattern, lines[m.line - first])
                &&& m.content == trim(lines[m.line - first])
            }
            &&& forall|a: int, b: int| 0 <= a < b < ms.len() ==> (#[trigger] ms[a]).line < (#[trigger] ms[b]).line
            &&& forall|k: int| 0 <= k < lines.len() && regex_matches(pattern, #[trigger] lines[k]) ==> exists|j: int|
                0 <= j < ms.len() && (#[trigger] ms[j]).line == first + k
        }),
    decreases lines.len(),
{
    if lines.len() > 0 {
        let rest = lines.drop_first();
        law_line_numbers(file, pattern, rest, first + 1);
        let rs = line_matches(file, pattern, rest, first + 1);
        let ms = line_matches(file, pattern, lines, first);
        assert forall|j: int| 0 <= j < rs.len() implies {
            let m = #[trigger] rs[j];
            &&& regex_matches(pattern, lines[m.line - first])
            &&& m.content == trim(lines[m.line - first])
        } by {
            assert(lines[rs[j].line - first] == rest[rs[j].line - (first + 1)]);
        }
        if regex_matches(pattern, lines[0]) {
            let head = MatchModel { file, line: first, content: trim(lines[0]) };
            assert(ms == seq![head] + rs);
            assert forall|j: int| 0 <= j < ms.len() implies {
                let m = #[trigger] ms[j];
                &&& first <= m.line < first + lines.len()
                &&& m.file == file
                &&& regex_matches(pattern, lines[m.line - first])
                &&& m.content == trim(lines[m.line - first])
            } by {
                if j > 0 {
                    assert(ms[j] == rs[j - 1]);
                }
            }
            assert forall|a: int, b: int| 0 <= a < b < ms.len() implies (#[trigger] ms[a]).line < (#[trigger] ms[b]).line by {
                assert(ms[b] == rs[b - 1]);
                if a > 0 {
                    assert(ms[a] == rs[a - 1]);
                }
            }
            assert forall|k: int| 0 <= k < lines.len() && regex_matches(pattern, #[trigger] lines[k]) implies exists|j: int|
                0 <= j < ms.len() && (#[trigger] ms[j]).line == first + k by {
                if k == 0 {
                    assert(ms[0].line == first);
                } else {
                    assert(rest[k - 1] == lines[k]);
                    let j = choose|j: int| 0 <= j < rs.len() && (#[trigger] rs[j]).line == first + 1 + (k - 1);
                    assert(ms[j + 1] == rs[j]);
                }
            }
        } else {
            assert(ms == rs);
            assert forall|k: int| 0 <= k < lines.len() && regex_matches(pattern, #[trigger] lines[k]) implies exists|j: int|
                0 <= j < ms.len() && (#[trigger] ms[j]).line == first + k by {
                assert(k != 0);
                assert(rest[k - 1] == lines[k]);
            }
        }
    }
}

/// Lines put back together with `\n` between them.
pub open spec fn joined_lines(ls: Seq<Seq<char>>) -> Seq<char>
    decreases ls.len(),
{
    if ls.len() == 0 {
        Seq::empty()
    } else if ls.len() == 1 {
        ls[0]
    } else {
        ls[0] + seq!['\n'] + joined_lines(ls.drop_first())
    }
}

/// For text without carriage returns, its lines hold no line break and,
/// joined with line breaks, give back the text, short of one final line
/// break at most.
pub proof fn law_lines_rejoin(s: Seq<char>)
    requires
        forall|i: int| 0 <= i < s.len() ==> s[i] != '\r',
    ensures
        forall|k: int, i: int| 0 <= k < lines_of(s).len() && 0 <= i < lines_of(s)[k].len() ==> #[trigger] lines_of(
            s,
        )[k][i] != '\n',
        joined_lines(lines_of(s)) == s || joined_lines(lines_of(s)) + seq!['\n'] == s,
    decreases s.len(),
{
    lemma_find_char(s, '\n');
    if s.len() > 0 && contains_char(s, '\n') {
        let i = find_char(s, '\n')->0;
        let l = s.subrange(0, i);
        let rest = s.subrange(i + 1, s.len() as int);
        assert(before_char(s, '\n') == l);
        assert(after_char(s, '\n') == rest);
        if l.len() > 0 {
            assert(l.last() == s[i - 1]);
        }
        law_lines_rejoin(rest);
        let lr = lines_of(rest);
        assert(lines_of(s) == seq![l] + lr);
        assert forall|k: int, j: int| 0 <= k < lines_of(s).len() && 0 <= j < lines_of(s)[k].len() implies #[trigger] lines_of(
            s,
        )[k][j] != '\n' by {
            if k == 0 {
                assert(lines_of(s)[0] == l);
                assert(l[j] == s[j]);
            } else {
                assert(lines_of(s)[k] == lr[k - 1]);
            }
        }
        if lr.len() == 0 {
            assert(joined_lines(lines_of(s)) == l);
            assert(rest.len() == 0);
            assert(l + seq!['\n'] =~= s);
        } else {
            assert((seq![l] + lr).drop_first() =~= lr);
            assert(joined_lines(lines_of(s)) == l + seq!['\n'] + joined_lines(lr));
            if joined_lines(lr) == rest {
                assert(l + seq!['\n'] + rest =~= s);
            } else {
                assert(l + seq!['\n'] + joined_lines(lr) + seq!['\n'] =~= l + seq!['\n'] + (joined_lines(lr) + seq!['\n']));
                assert(l + seq!['\n'] + rest =~= s);
            }
        }
    } else if s.len() > 0 {
        assert(lines_of(s) == seq![s]);
    } else {
        assert(joined_lines(lines_of(s)) =~= s);
    }
}

} // verus!
