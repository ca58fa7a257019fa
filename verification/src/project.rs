//! The workspace model: a root directory and a cached index of source
//! files, with search, read resolution, insertion planning and directory
//! rendering. All file-system reads and writes happen outside this
//! library; the functions here take their results as plain values.

use vstd::prelude::*;
use vstd::string::*;
use crate::text::{
    contains_sub, dec_str, ends_with_text, eq_text, find_last, fmt_usize, fold_case, lines_spec,
    rfind_char, split_lines, trim, trim_spec,
};
use crate::inserter::{insert_spec, CodeInserter};

verus! {

/// The last path segment: everything after the final separator.
pub open spec fn last_segment(p: Seq<char>) -> Seq<char> {
    let i = rfind_char(p, '/');
    if i >= 0 {
        p.subrange(i + 1, p.len() as int)
    } else {
        p
    }
}

/// Does the path name a source file of the target language? Its last
/// segment must carry the `.rs` extension over a non-empty stem.
pub open spec fn is_rs_path(p: Seq<char>) -> bool {
    let seg = last_segment(p);
    seg.len() >= 4 && ".rs"@.is_suffix_of(seg)
}

/// The path relative to `root`: `None` when the path is not under `root`.
pub open spec fn rel_path_spec(root: Seq<char>, p: Seq<char>) -> Option<Seq<char>> {
    if p == root {
        Option::Some(Seq::empty())
    } else if root.len() == 0 {
        Option::Some(p)
    } else if root.is_prefix_of(p) && p.len() > root.len() && p[root.len() as int] == '/' {
        Option::Some(p.subrange(root.len() as int + 1, p.len() as int))
    } else {
        Option::<Seq<char>>::None
    }
}

/// The path relative to `root`, for a path known to lie under it.
pub open spec fn rel_of(root: Seq<char>, p: Seq<char>) -> Seq<char> {
    match rel_path_spec(root, p) {
        Option::Some(r) => r,
        Option::None => p,
    }
}

/// Joining a relative path onto a root directory.
pub open spec fn join_spec(root: Seq<char>, rel: Seq<char>) -> Seq<char> {
    if rel.len() > 0 && rel[0] == '/' {
        rel
    } else if root.len() == 0 {
        rel
    } else if root[root.len() - 1] == '/' {
        root + rel
    } else {
        root + "/"@ + rel
    }
}

/// One entry handed in from walking the workspace tree.
pub struct WalkEntry {
    pub path: String,
    pub is_file: bool,
}

/// The mathematical form of a walk entry.
pub struct WalkEntryV {
    pub path: Seq<char>,
    pub is_file: bool,
}

impl View for WalkEntry {
    type V = WalkEntryV;

    open spec fn view(&self) -> WalkEntryV {
        WalkEntryV { path: self.path@, is_file: self.is_file }
    }
}

impl DeepView for WalkEntry {
    type V = WalkEntryV;

    open spec fn deep_view(&self) -> WalkEntryV {
        self.view()
    }
}

/// The indexed file list that a scan of the given walk entries yields:
/// the regular files with the target extension that lie under `root`,
/// in walk order.
pub open spec fn scan_spec(root: Seq<char>, entries: Seq<WalkEntryV>) -> Seq<Seq<char>>
    decreases entries.len(),
{
    if entries.len() == 0 {
        Seq::empty()
    } else {
        let rest = scan_spec(root, entries.drop_last());
        let e = entries.last();
        if e.is_file && is_rs_path(e.path) && rel_path_spec(root, e.path) is Some {
            rest.push(e.path)
        } else {
            rest
        }
    }
}

proof fn lemma_scan_spec_under_root(root: Seq<char>, entries: Seq<WalkEntryV>)
    ensures
        forall|k: int|
            0 <= k < scan_spec(root, entries).len() ==> rel_path_spec(
                root,
                scan_spec(root, entries)[k],
            ) is Some,
    decreases entries.len(),
{
    if entries.len() > 0 {
        lemma_scan_spec_under_root(root, entries.drop_last());
    }
}

/// Why a workspace operation failed.
#[derive(Debug, Clone)]
pub enum ProjectError {
    PathDoesNotExist { path: String },
    NotUnderRoot { path: String },
    FileNotFound { path: String },
}

/// The mathematical form of a workspace error.
pub enum ProjectErrorV {
    PathDoesNotExist { path: Seq<char> },
    NotUnderRoot { path: Seq<char> },
    FileNotFound { path: Seq<char> },
}

impl View for ProjectError {
    type V = ProjectErrorV;

    open spec fn view(&self) -> ProjectErrorV {
        match self {
            ProjectError::PathDoesNotExist { path } => ProjectErrorV::PathDoesNotExist {
                path: path@,
            },
            ProjectError::NotUnderRoot { path } => ProjectErrorV::NotUnderRoot { path: path@ },
            ProjectError::FileNotFound { path } => ProjectErrorV::FileNotFound { path: path@ },
        }
    }
}

impl ProjectErrorV {
    /// The diagnostic text for each workspace error.
    pub open spec fn message_spec(self) -> Seq<char> {
        match self {
            ProjectErrorV::PathDoesNotExist { path } => "Path does not exist: "@ + path,
            ProjectErrorV::NotUnderRoot { path } => "Failed to get relative path: "@ + path,
            ProjectErrorV::FileNotFound { path } => "File not found: "@ + path,
        }
    }
}

impl ProjectError {
    /// The diagnostic text reported to the caller.
    pub fn message(&self) -> (r: String)
        ensures
            r@ == self@.message_spec(),
    {
        match self {
            ProjectError::PathDoesNotExist { path } => {
                let mut out = "Path does not exist: ".to_owned();
                out.append(path.as_str());
                out
            },
            ProjectError::NotUnderRoot { path } => {
                let mut out = "Failed to get relative path: ".to_owned();
                out.append(path.as_str());
                out
            },
            ProjectError::FileNotFound { path } => {
                let mut out = "File not found: ".to_owned();
                out.append(path.as_str());
                out
            },
        }
    }
}

/// A loaded workspace: its root directory and the indexed source files.
#[derive(Debug)]
pub struct Project {
    pub root_path: String,
    pub rust_files: Vec<String>,
}

impl Project {
    /// The indexed file list, as character sequences.
    pub open spec fn files_view(&self) -> Seq<Seq<char>> {
        self.rust_files.deep_view()
    }

    /// Every indexed file lies under the root; scanning establishes this.
    pub open spec fn wf(&self) -> bool {
        forall|k: int|
            0 <= k < self.files_view().len() ==> rel_path_spec(
                self.root_path@,
                self.files_view()[k],
            ) is Some
    }

    /// Load a workspace: fails when the root does not exist, otherwise
    /// indexes the walked entries.
    pub fn load(root_path: String, root_exists: bool, entries: &Vec<WalkEntry>) -> (r: Result<
        Project,
        ProjectError,
    >)
        ensures
            match r {
                Ok(p) => root_exists && p.root_path@ == root_path@ && p.files_view() == scan_spec(
                    root_path@,
                    entries.deep_view(),
                ) && p.wf(),
                Err(e) => !root_exists && e@ == (ProjectErrorV::PathDoesNotExist {
                    path: root_path@,
                }),
            },
    {
        if !root_exists {
            return Err(ProjectError::PathDoesNotExist { path: root_path });
        }
        let mut project = Project { root_path, rust_files: Vec::new() };
        project.scan_rust_files(entries);
        Ok(project)
    }

    /// Rebuild the file index wholesale from freshly walked entries.
    pub fn scan_rust_files(&mut self, entries: &Vec<WalkEntry>)
        ensures
            final(self).root_path@ == old(self).root_path@,
            final(self).files_view() == scan_spec(old(self).root_path@, entries.deep_view()),
            final(self).wf(),
    {
        let ghost root = self.root_path@;
        let ghost evs = entries.deep_view();
        let mut files: Vec<String> = Vec::new();
        let mut i: usize = 0;
        proof {
            assert(evs.subrange(0, 0) =~= Seq::<WalkEntryV>::empty());
            assert(files.deep_view() =~= scan_spec(root, evs.subrange(0, 0)));
        }
        while i < entries.len()
            invariant
                0 <= i <= entries@.len(),
                evs == entries.deep_view(),
                evs.len() == entries@.len(),
                root == self.root_path@,
                files.deep_view() == scan_spec(root, evs.subrange(0, i as int)),
            decreases entries@.len() - i,
        {
            let e = &entries[i];
            let ghost prev = files.deep_view();
            let keep = e.is_file && is_rs_file(&e.path) && under_root(&self.root_path, &e.path);
            if keep {
                files.push(e.path.clone());
                proof {
                    assert(files.deep_view() =~= prev.push(e.path@));
                }
            }
            proof {
                assert(evs.subrange(0, i + 1).drop_last() =~= evs.subrange(0, i as int));
                assert(evs.subrange(0, i + 1).last() == evs[i as int]);
                assert(files.deep_view() == scan_spec(root, evs.subrange(0, i + 1)));
            }
            i = i + 1;
        }
        proof {
            assert(evs.subrange(0, evs.len() as int) =~= evs);
        }
        self.rust_files = files;
        proof {
            lemma_scan_spec_under_root(root, evs);
        }
    }

    /// The relative form of each indexed file, in index order. Always
    /// succeeds on a well-formed workspace.
    pub fn list_rust_files(&self) -> (r: Result<Vec<String>, ProjectError>)
        requires
            self.wf(),
        ensures
            match r {
                Ok(v) => v.deep_view() == self.files_view().map_values(
                    |f: Seq<char>| rel_of(self.root_path@, f),
                ),
                Err(e) => false,
            },
    {
        let mut out: Vec<String> = Vec::new();
        let mut i: usize = 0;
        while i < self.rust_files.len()
            invariant
                0 <= i <= self.files_view().len(),
                self.wf(),
                self.files_view().len() == self.rust_files@.len(),
                out.deep_view() =~= self.files_view().subrange(0, i as int).map_values(
                    |f: Seq<char>| rel_of(self.root_path@, f),
                ),
            decreases self.rust_files@.len() - i,
        {
            let ghost prev = out.deep_view();
            proof {
                assert(self.rust_files@[i as int]@ == self.files_view()[i as int]);
            }
            let rel = self.relative_part(&self.rust_files[i]);
            out.push(rel);
            proof {
                assert(out.deep_view() =~= prev.push(rel_of(self.root_path@, self.files_view()[i as int])));
                assert(out.deep_view() =~= self.files_view().subrange(0, i + 1).map_values(
                    |f: Seq<char>| rel_of(self.root_path@, f),
                ));
            }
            i = i + 1;
        }
        proof {
            assert(self.files_view().subrange(0, self.files_view().len() as int) =~= self.files_view());
        }
        Ok(out)
    }

    /// The path relative to the root, for a path known to lie under it.
    fn relative_part(&self, path: &String) -> (r: String)
        requires
            rel_path_spec(self.root_path@, path@) is Some,
        ensures
            r@ == rel_of(self.root_path@, path@),
    {
        match self.relative_path(path.as_str()) {
            Ok(r) => r,
            Err(_) => {
                proof {
                    assert(false);
                }
                String::new()
            },
        }
    }

    /// The path relative to the root: an error when the path does not lie
    /// under the root.
    pub fn relative_path(&self, path: &str) -> (r: Result<String, ProjectError>)
        ensures
            match r {
                Ok(v) => rel_path_spec(self.root_path@, path@) matches Some(s) && v@ == s,
                Err(e) => rel_path_spec(self.root_path@, path@) is None && e@
                    == (ProjectErrorV::NotUnderRoot { path: path@ }),
            },
    {
        let root = self.root_path.as_str();
        let rn = root.unicode_len();
        let pn = path.unicode_len();
        if eq_text(path, root) {
            return Ok(String::new());
        }
        if rn == 0 {
            return Ok(path.to_owned());
        }
        if crate::text::starts_with_text(path, root) && pn > rn && path.get_char(rn) == '/' {
            return Ok(path.substring_char(rn + 1, pn).to_owned());
        }
        Err(ProjectError::NotUnderRoot { path: path.to_owned() })
    }

    /// The absolute form of a root-relative path.
    pub fn full_path(&self, rel: &str) -> (r: String)
        ensures
            r@ == join_spec(self.root_path@, rel@),
    {
        let rn = rel.unicode_len();
        if rn > 0 && rel.get_char(0) == '/' {
            return rel.to_owned();
        }
        let root = self.root_path.as_str();
        let n = root.unicode_len();
        if n == 0 {
            return rel.to_owned();
        }
        let mut out = self.root_path.clone();
        if root.get_char(n - 1) != '/' {
            out.append("/");
        }
        out.append(rel);
        proof {
            if root@[n - 1] != '/' {
                assert(out@ =~= root@ + "/"@ + rel@);
            }
        }
        out
    }
}

/// Does the path carry the `.rs` extension on its last segment?
pub fn is_rs_file(path: &String) -> (r: bool)
    ensures
        r == is_rs_path(path@),
{
    let s = path.as_str();
    let n = s.unicode_len();
    let base = match find_last(s, '/') {
        Some(i) => {
            proof {
                lemma_rfind_props_local(s@, i as int);
            }
            s.substring_char(i + 1, n)
        },
        None => s,
    };
    let bn = base.unicode_len();
    bn >= 4 && ends_with_text(base, ".rs")
}

proof fn lemma_rfind_props_local(s: Seq<char>, i: int)
    requires
        rfind_char(s, '/') == i,
        0 <= i,
    ensures
        i < s.len(),
        s[i] == '/',
    decreases s.len(),
{
    if s.len() > 0 && s[s.len() - 1] != '/' {
        lemma_rfind_props_local(s.drop_last(), i);
    }
}

/// The last path segment of `s`.
pub fn base_name<'a>(s: &'a str) -> (r: &'a str)
    ensures
        r@ == last_segment(s@),
{
    let n = s.unicode_len();
    match find_last(s, '/') {
        Some(i) => {
            proof {
                lemma_rfind_props_local(s@, i as int);
            }
            s.substring_char(i + 1, n)
        },
        None => s,
    }
}

/// Does a text match the query, ignoring case? Both sides are compared
/// under the library's case folding.
pub open spec fn matches_ci(text: Seq<char>, query: Seq<char>) -> bool {
    contains_sub(fold_case(text), fold_case(query))
}

/// A filename-match search result line.
pub open spec fn fm_line(rel: Seq<char>) -> Seq<char> {
    "File: "@ + rel
}

/// A content-match search result line: relative path, 1-based line number,
/// and the trimmed matching line.
pub open spec fn lm_line(rel: Seq<char>, num: int, line: Seq<char>) -> Seq<char> {
    rel + ":"@ + dec_str(num) + " - "@ + trim_spec(line)
}

/// The filename pass: one result for every indexed file whose base name
/// contains the query, in index order.
pub open spec fn name_pass(root: Seq<char>, files: Seq<Seq<char>>, query: Seq<char>) -> Seq<
    Seq<char>,
>
    decreases files.len(),
{
    if files.len() == 0 {
        Seq::empty()
    } else {
        let rest = name_pass(root, files.drop_last(), query);
        if matches_ci(last_segment(files.last()), query) {
            rest.push(fm_line(rel_of(root, files.last())))
        } else {
            rest
        }
    }
}

/// The matching lines of one file, line numbers ascending.
pub open spec fn line_matches(rel: Seq<char>, ls: Seq<Seq<char>>, query: Seq<char>) -> Seq<
    Seq<char>,
>
    decreases ls.len(),
{
    if ls.len() == 0 {
        Seq::empty()
    } else {
        let rest = line_matches(rel, ls.drop_last(), query);
        if matches_ci(ls.last(), query) {
            rest.push(lm_line(rel, ls.len() as int, ls.last()))
        } else {
            rest
        }
    }
}

/// The content pass: for every indexed file that could be read, its
/// matching lines, file-major.
pub open spec fn content_pass(
    root: Seq<char>,
    files: Seq<Seq<char>>,
    contents: Seq<Option<Seq<char>>>,
    query: Seq<char>,
) -> Seq<Seq<char>>
    decreases files.len(),
{
    if files.len() == 0 || contents.len() == 0 {
        Seq::empty()
    } else {
        content_pass(root, files.drop_last(), contents.drop_last(), query) + (match contents.last() {
            Option::Some(text) => line_matches(rel_of(root, files.last()), lines_spec(text), query),
            Option::None => Seq::<Seq<char>>::empty(),
        })
    }
}

/// Every search result: the filename pass, then the content pass.
pub open spec fn search_spec(
    root: Seq<char>,
    files: Seq<Seq<char>>,
    contents: Seq<Option<Seq<char>>>,
    query: Seq<char>,
) -> Seq<Seq<char>> {
    name_pass(root, files, query) + content_pass(root, files, contents, query)
}

/// Matching is decided by case-folded forms alone: texts and queries that
/// differ only in case match exactly alike.
pub proof fn lemma_matches_ci_folded(t1: Seq<char>, t2: Seq<char>, q1: Seq<char>, q2: Seq<char>)
    requires
        fold_case(t1) == fold_case(t2),
        fold_case(q1) == fold_case(q2),
    ensures
        matches_ci(t1, q1) == matches_ci(t2, q2),
{
}

/// The index a scan yields is determined by the walked entries alone: two
/// scans of the same root over the same entries index the same files, in
/// the same order, and so the same set.
pub proof fn lemma_scan_deterministic(p1: Project, p2: Project, entries: Seq<WalkEntryV>)
    requires
        p1.root_path@ == p2.root_path@,
        p1.files_view() == scan_spec(p1.root_path@, entries),
        p2.files_view() == scan_spec(p2.root_path@, entries),
    ensures
        p1.files_view() == p2.files_view(),
        p1.files_view().to_set() == p2.files_view().to_set(),
{
}

/// A query matches exactly as any other query with the same case folding:
/// search results depend on the query only through its folded form.
pub proof fn lemma_search_case_insensitive(
    root: Seq<char>,
    files: Seq<Seq<char>>,
    contents: Seq<Option<Seq<char>>>,
    q1: Seq<char>,
    q2: Seq<char>,
)
    requires
        fold_case(q1) == fold_case(q2),
    ensures
        search_spec(root, files, contents, q1) == search_spec(root, files, contents, q2),
    decreases files.len(),
{
    lemma_name_pass_folded(root, files, q1, q2);
    lemma_content_pass_folded(root, files, contents, q1, q2);
}

proof fn lemma_name_pass_folded(root: Seq<char>, files: Seq<Seq<char>>, q1: Seq<char>, q2: Seq<char>)
    requires
        fold_case(q1) == fold_case(q2),
    ensures
        name_pass(root, files, q1) == name_pass(root, files, q2),
    decreases files.len(),
{
    if files.len() > 0 {
        lemma_name_pass_folded(root, files.drop_last(), q1, q2);
    }
}

proof fn lemma_line_matches_folded(rel: Seq<char>, ls: Seq<Seq<char>>, q1: Seq<char>, q2: Seq<char>)
    requires
        fold_case(q1) == fold_case(q2),
    ensures
        line_matches(rel, ls, q1) == line_matches(rel, ls, q2),
    decreases ls.len(),
{
    if ls.len() > 0 {
        lemma_line_matches_folded(rel, ls.drop_last(), q1, q2);
    }
}

proof fn lemma_content_pass_folded(
    root: Seq<char>,
    files: Seq<Seq<char>>,
    contents: Seq<Option<Seq<char>>>,
    q1: Seq<char>,
    q2: Seq<char>,
)
    requires
        fold_case(q1) == fold_case(q2),
    ensures
        content_pass(root, files, contents, q1) == content_pass(root, files, contents, q2),
    decreases files.len(),
{
    if files.len() > 0 && contents.len() > 0 {
        lemma_content_pass_folded(root, files.drop_last(), contents.drop_last(), q1, q2);
        match contents.last() {
            Option::Some(text) => {
                lemma_line_matches_folded(rel_of(root, files.last()), lines_spec(text), q1, q2);
            },
            Option::None => {},
        }
    }
}

impl Project {
    /// Search the workspace: filename matches first, then content matches,
    /// both case-insensitive. `contents` holds, for each indexed file in
    /// order, its text at call time, or `None` where it could not be read.
    pub fn search(&self, query: &str, contents: &Vec<Option<String>>) -> (r: Result<
        Vec<String>,
        ProjectError,
    >)
        requires
            self.wf(),
            contents@.len() == self.files_view().len(),
        ensures
            match r {
                Ok(v) => v.deep_view() == search_spec(
                    self.root_path@,
                    self.files_view(),
                    contents.deep_view(),
                    query@,
                ),
                Err(e) => false,
            },
    {
        let ghost root = self.root_path@;
        let ghost fv = self.files_view();
        let ghost cv = contents.deep_view();
        let ghost qv = query@;
        let mut out: Vec<String> = Vec::new();
        let n = self.rust_files.len();
        let mut i: usize = 0;
        proof {
            assert(fv.subrange(0, 0) =~= Seq::<Seq<char>>::empty());
            assert(out.deep_view() =~= name_pass(root, fv.subrange(0, 0), qv));
        }
        while i < n
            invariant
                0 <= i <= n,
                n == self.rust_files@.len(),
                self.wf(),
                root == self.root_path@,
                fv == self.files_view(),
                qv == query@,
                out.deep_view() == name_pass(root, fv.subrange(0, i as int), qv),
            decreases n - i,
        {
            let f = &self.rust_files[i];
            proof {
                assert(f@ == fv[i as int]);
            }
            if crate::text::contains_fold(base_name(f.as_str()), query) {
                let rel = self.relative_part(f);
                let mut line = "File: ".to_owned();
                line.append(rel.as_str());
                let ghost prev = out.deep_view();
                proof {
                    assert(line@ =~= fm_line(rel_of(root, fv[i as int])));
                }
                out.push(line);
                proof {
                    assert(out.deep_view() =~= prev.push(fm_line(rel_of(root, fv[i as int]))));
                }
            }
            proof {
                assert(fv.subrange(0, i + 1).drop_last() =~= fv.subrange(0, i as int));
                assert(fv.subrange(0, i + 1).last() == fv[i as int]);
                assert(out.deep_view() == name_pass(root, fv.subrange(0, i + 1), qv));
            }
            i = i + 1;
        }
        proof {
            assert(fv.subrange(0, n as int) =~= fv);
            assert(cv.subrange(0, 0) =~= Seq::<Option<Seq<char>>>::empty());
            assert(content_pass(root, fv.subrange(0, 0), cv.subrange(0, 0), qv)
                =~= Seq::<Seq<char>>::empty());
            assert(out.deep_view() =~= name_pass(root, fv, qv) + content_pass(
                root,
                fv.subrange(0, 0),
                cv.subrange(0, 0),
                qv,
            ));
        }
        let mut i: usize = 0;
        while i < n
            invariant
                0 <= i <= n,
                n == self.rust_files@.len(),
                self.wf(),
                root == self.root_path@,
                fv == self.files_view(),
                cv == contents.deep_view(),
                cv.len() == fv.len(),
                n == fv.len(),
                qv == query@,
                out.deep_view() == name_pass(root, fv, qv) + content_pass(
                    root,
                    fv.subrange(0, i as int),
                    cv.subrange(0, i as int),
                    qv,
                ),
            decreases n - i,
        {
            let f = &self.rust_files[i];
            proof {
                assert(f@ == fv[i as int]);
                assert(contents@[i as int].deep_view() == cv[i as int]);
            }
            match &contents[i] {
                Some(text) => {
                    let rel = self.relative_part(f);
                    let ghost relv = rel@;
                    let ls = split_lines(text.as_str());
                    let ghost lsv = lines_spec(text@);
                    let m = ls.len();
                    let mut j: usize = 0;
                    proof {
                        assert(lsv.subrange(0, 0) =~= Seq::<Seq<char>>::empty());
                        assert(line_matches(relv, lsv.subrange(0, 0), qv)
                            =~= Seq::<Seq<char>>::empty());
                        assert(out.deep_view() + line_matches(relv, lsv.subrange(0, 0), qv)
                            =~= out.deep_view());
                    }
                    let ghost base = out.deep_view();
                    while j < m
                        invariant
                            0 <= j <= m,
                            m == ls@.len(),
                            m == lsv.len(),
                            ls.deep_view() == lsv,
                            relv == rel@,
                            qv == query@,
                            out.deep_view() == base + line_matches(relv, lsv.subrange(0, j as int), qv),
                        decreases m - j,
                    {
                        proof {
                            assert(ls@[j as int]@ == lsv[j as int]);
                        }
                        if crate::text::contains_fold(ls[j].as_str(), query) {
                            let num = fmt_usize(j + 1);
                            let mut line = rel.clone();
                            line.append(":");
                            line.append(num.as_str());
                            line.append(" - ");
                            line.append(trim(ls[j].as_str()));
                            let ghost prev = out.deep_view();
                            proof {
                                assert(line@ =~= lm_line(relv, j + 1, lsv[j as int]));
                            }
                            out.push(line);
                            proof {
                                assert(out.deep_view() =~= prev.push(
                                    lm_line(relv, j + 1, lsv[j as int]),
                                ));
                            }
                        }
                        proof {
                            assert(lsv.subrange(0, j + 1).drop_last() =~= lsv.subrange(0, j as int));
                            assert(lsv.subrange(0, j + 1).last() == lsv[j as int]);
                            assert(lsv.subrange(0, j + 1).len() == j + 1);
                            assert(out.deep_view() == base + line_matches(
                                relv,
                                lsv.subrange(0, j + 1),
                                qv,
                            ));
                        }
                        j = j + 1;
                    }
                    proof {
                        assert(lsv.subrange(0, m as int) =~= lsv);
                        assert(cv.subrange(0, i + 1).drop_last() =~= cv.subrange(0, i as int));
                        assert(fv.subrange(0, i + 1).drop_last() =~= fv.subrange(0, i as int));
                        assert(cv.subrange(0, i + 1).last() == cv[i as int]);
                        assert(fv.subrange(0, i + 1).last() == fv[i as int]);
                        assert(cv[i as int] matches Option::Some(t) && t == text@);
                        assert(out.deep_view() =~= name_pass(root, fv, qv) + content_pass(
                            root,
                            fv.subrange(0, i + 1),
                            cv.subrange(0, i + 1),
                            qv,
                        ));
                    }
                },
                None => {
                    proof {
                        assert(cv.subrange(0, i + 1).drop_last() =~= cv.subrange(0, i as int));
                        assert(fv.subrange(0, i + 1).drop_last() =~= fv.subrange(0, i as int));
                        assert(cv.subrange(0, i + 1).last() == cv[i as int]);
                        assert(cv[i as int] is None);
                        assert(out.deep_view() =~= name_pass(root, fv, qv) + content_pass(
                            root,
                            fv.subrange(0, i + 1),
                            cv.subrange(0, i + 1),
                            qv,
                        ));
                    }
                },
            }
            i = i + 1;
        }
        proof {
            assert(fv.subrange(0, n as int) =~= fv);
            assert(cv.subrange(0, n as int) =~= cv);
        }
        Ok(out)
    }
}

/// Does `p` end with the path fragment `frag`, at a segment boundary?
pub open spec fn path_ends_with(p: Seq<char>, frag: Seq<char>) -> bool {
    p == frag || ("/"@ + frag).is_suffix_of(p)
}

/// The first indexed file that ends with the fragment, in index order.
pub open spec fn suffix_match_spec(files: Seq<Seq<char>>, frag: Seq<char>) -> Option<Seq<char>>
    decreases files.len(),
{
    if files.len() == 0 {
        Option::<Seq<char>>::None
    } else if path_ends_with(files.first(), frag) {
        Option::Some(files.first())
    } else {
        suffix_match_spec(files.drop_first(), frag)
    }
}

proof fn lemma_suffix_match_at(files: Seq<Seq<char>>, frag: Seq<char>, i: int)
    requires
        0 <= i < files.len(),
        path_ends_with(files[i], frag),
        forall|k: int| 0 <= k < i ==> !path_ends_with(files[k], frag),
    ensures
        suffix_match_spec(files, frag) == Option::Some(files[i]),
    decreases i,
{
    if i > 0 {
        let t = files.drop_first();
        assert forall|k: int| 0 <= k < i - 1 implies !path_ends_with(t[k], frag) by {
            assert(t[k] == files[k + 1]);
        }
        assert(t[i - 1] == files[i]);
        lemma_suffix_match_at(t, frag, i - 1);
    }
}

proof fn lemma_suffix_match_none(files: Seq<Seq<char>>, frag: Seq<char>)
    requires
        forall|k: int| 0 <= k < files.len() ==> !path_ends_with(files[k], frag),
    ensures
        suffix_match_spec(files, frag) is None,
    decreases files.len(),
{
    if files.len() > 0 {
        let t = files.drop_first();
        assert forall|k: int| 0 <= k < t.len() implies !path_ends_with(t[k], frag) by {
            assert(t[k] == files[k + 1]);
        }
        lemma_suffix_match_none(t, frag);
    }
}

/// How a read of a named file resolves.
pub enum ReadResolution {
    /// The root-relative path exists on disk: read it there.
    Direct { path: String },
    /// It does not, but an indexed file ends with the fragment: read that.
    Indexed { path: String },
    /// Neither resolves: the read fails.
    Missing,
}

impl Project {
    /// Decide where a `read_file` request resolves: the root-relative path
    /// itself when it exists on disk, else the first indexed file whose
    /// path ends with the fragment, else nowhere.
    pub fn resolve_read(&self, file_path: &str, direct_exists: bool) -> (r: ReadResolution)
        ensures
            direct_exists ==> (r matches ReadResolution::Direct { path } && path@ == join_spec(
                self.root_path@,
                file_path@,
            )),
            !direct_exists ==> match suffix_match_spec(self.files_view(), file_path@) {
                Option::Some(f) => r matches ReadResolution::Indexed { path } && path@ == f,
                Option::None => r is Missing,
            },
    {
        if direct_exists {
            return ReadResolution::Direct { path: self.full_path(file_path) };
        }
        let ghost fv = self.files_view();
        let mut probe = "/".to_owned();
        probe.append(file_path);
        proof {
            assert(probe@ =~= "/"@ + file_path@);
        }
        let n = self.rust_files.len();
        let mut i: usize = 0;
        while i < n
            invariant
                !direct_exists,
                0 <= i <= n,
                n == self.rust_files@.len(),
                fv == self.files_view(),
                probe@ == "/"@ + file_path@,
                forall|k: int| 0 <= k < i ==> !path_ends_with(fv[k], file_path@),
            decreases n - i,
        {
            let f = &self.rust_files[i];
            proof {
                assert(f@ == fv[i as int]);
            }
            if eq_text(f.as_str(), file_path) || ends_with_text(f.as_str(), probe.as_str()) {
                proof {
                    lemma_suffix_match_at(fv, file_path@, i as int);
                }
                return ReadResolution::Indexed { path: f.clone() };
            }
            i = i + 1;
        }
        proof {
            lemma_suffix_match_none(fv, file_path@);
        }
        ReadResolution::Missing
    }
}

/// The registration statement for a module.
pub open spec fn mod_decl_spec(name: Seq<char>) -> Seq<char> {
    "mod "@ + name + ";"@
}

/// The module identifier a new source file registers under: the path must
/// lie under the source root and carry the target extension; the name is
/// the last segment of what remains.
pub open spec fn module_name_spec(file_path: Seq<char>) -> Option<Seq<char>> {
    if "src/"@.is_prefix_of(file_path) {
        let mid = file_path.subrange("src/"@.len() as int, file_path.len() as int);
        if ".rs"@.is_suffix_of(mid) {
            Option::Some(last_segment(mid.subrange(0, mid.len() - ".rs"@.len())))
        } else {
            Option::<Seq<char>>::None
        }
    } else {
        Option::<Seq<char>>::None
    }
}

impl Project {
    /// Is module registration called for? Only when the file is new, lies
    /// under the source root, and carries the target extension.
    pub fn needs_module_registration(file_path: &str, file_existed: bool) -> (r: bool)
        ensures
            r == (!file_existed && "src/"@.is_prefix_of(file_path@) && ".rs"@.is_suffix_of(
                file_path@,
            )),
    {
        !file_existed && crate::text::starts_with_text(file_path, "src/") && ends_with_text(
            file_path,
            ".rs",
        )
    }

    /// The module identifier a new source file registers under.
    pub fn module_name_of(file_path: &str) -> (r: Option<String>)
        ensures
            match r {
                Some(name) => module_name_spec(file_path@) matches Some(m) && name@ == m,
                None => module_name_spec(file_path@) is None,
            },
    {
        if crate::text::starts_with_text(file_path, "src/") {
            proof {
                reveal_strlit("src/");
            }
            let n = file_path.unicode_len();
            let mid = file_path.substring_char(4, n);
            if ends_with_text(mid, ".rs") {
                proof {
                    reveal_strlit(".rs");
                }
                let mn = mid.unicode_len();
                let stem = mid.substring_char(0, mn - 3);
                Some(base_name(stem).to_owned())
            } else {
                None
            }
        } else {
            None
        }
    }

    /// The registration statement for a module.
    pub fn mod_decl(name: &str) -> (r: String)
        ensures
            r@ == mod_decl_spec(name@),
    {
        let mut out = "mod ".to_owned();
        out.append(name);
        out.append(";");
        proof {
            assert(out@ =~= mod_decl_spec(name@));
        }
        out
    }

    /// Decide what a registration writes into the entry file: nothing when
    /// the statement is already present, else the content with the
    /// statement merged in.
    pub fn plan_registration(entry_content: &str, module_name: &str) -> (r: Option<String>)
        ensures
            ({
                let decl = mod_decl_spec(module_name@);
                match r {
                    Some(u) => !contains_sub(entry_content@, decl) && u@ == insert_spec(
                        entry_content@,
                        decl,
                    ),
                    None => contains_sub(entry_content@, decl),
                }
            }),
    {
        let decl = Self::mod_decl(module_name);
        if crate::text::contains_text(entry_content, decl.as_str()) {
            None
        } else {
            let inserter = CodeInserter::new();
            Some(inserter.insert_code(entry_content, decl.as_str()))
        }
    }

    /// Which conventional entry file receives the registration: the
    /// primary entry point when it exists, else the library entry point,
    /// else none.
    pub fn registration_entry(main_exists: bool, lib_exists: bool) -> (r: Option<String>)
        ensures
            match r {
                Some(p) => (main_exists && p@ == "src/main.rs"@) || (!main_exists && lib_exists
                    && p@ == "src/lib.rs"@),
                None => !main_exists && !lib_exists,
            },
    {
        if main_exists {
            Some("src/main.rs".to_owned())
        } else if lib_exists {
            Some("src/lib.rs".to_owned())
        } else {
            None
        }
    }
}

/// One step of a depth-first walk over the directory tree: entering an
/// entry (its base name, and whether it is the last among its siblings),
/// or leaving it after its children.
pub enum TreeEvent {
    Open { name: String, is_last: bool },
    Close,
}

/// The mathematical form of a walk step.
pub enum TreeEventV {
    Open { name: Seq<char>, is_last: bool },
    Close,
}

impl View for TreeEvent {
    type V = TreeEventV;

    open spec fn view(&self) -> TreeEventV {
        match self {
            TreeEvent::Open { name, is_last } => TreeEventV::Open { name: name@, is_last: *is_last },
            TreeEvent::Close => TreeEventV::Close,
        }
    }
}

impl DeepView for TreeEvent {
    type V = TreeEventV;

    open spec fn deep_view(&self) -> TreeEventV {
        self.view()
    }
}

/// The indentation for a nesting level: one column per open ancestor,
/// blank under a last sibling, a rule under the others.
pub open spec fn tree_prefix(st: Seq<bool>) -> Seq<char>
    decreases st.len(),
{
    if st.len() == 0 {
        Seq::empty()
    } else {
        tree_prefix(st.drop_last()) + (if st.last() {
            "    "@
        } else {
            "│   "@
        })
    }
}

/// The branch connector in front of an entry's name.
pub open spec fn tree_connector(is_last: bool) -> Seq<char> {
    if is_last {
        "└── "@
    } else {
        "├── "@
    }
}

/// One rendering step: opening an entry emits its line and deepens the
/// indentation; closing it shallows the indentation again.
pub open spec fn render_step(st: Seq<bool>, out: Seq<char>, e: TreeEventV) -> (Seq<bool>, Seq<char>) {
    match e {
        TreeEventV::Open { name, is_last } => (
            st.push(is_last),
            out + tree_prefix(st) + tree_connector(is_last) + name + "\n"@,
        ),
        TreeEventV::Close => (
            if st.len() == 0 {
                st
            } else {
                st.drop_last()
            },
            out,
        ),
    }
}

pub open spec fn render_fold(evs: Seq<TreeEventV>) -> (Seq<bool>, Seq<char>)
    decreases evs.len(),
{
    if evs.len() == 0 {
        (Seq::<bool>::empty(), Seq::<char>::empty())
    } else {
        render_step(render_fold(evs.drop_last()).0, render_fold(evs.drop_last()).1, evs.last())
    }
}

/// The rendered directory structure for a depth-first walk.
pub open spec fn render_spec(evs: Seq<TreeEventV>) -> Seq<char> {
    render_fold(evs).1
}

impl Project {
    /// Render the workspace tree from a depth-first walk of its entries.
    pub fn get_directory_structure(&self, events: &Vec<TreeEvent>) -> (r: String)
        ensures
            r@ == render_spec(events.deep_view()),
    {
        let ghost evs = events.deep_view();
        let mut st: Vec<bool> = Vec::new();
        let mut out = String::new();
        let n = events.len();
        let mut i: usize = 0;
        proof {
            assert(evs.subrange(0, 0) =~= Seq::<TreeEventV>::empty());
            assert(st@ =~= render_fold(evs.subrange(0, 0)).0);
            assert(out@ =~= render_fold(evs.subrange(0, 0)).1);
        }
        while i < n
            invariant
                0 <= i <= n,
                n == events@.len(),
                evs == events.deep_view(),
                evs.len() == n,
                st@ == render_fold(evs.subrange(0, i as int)).0,
                out@ == render_fold(evs.subrange(0, i as int)).1,
            decreases n - i,
        {
            let ghost st0 = st@;
            let ghost out0 = out@;
            proof {
                assert(events@[i as int]@ == evs[i as int]);
                assert(evs.subrange(0, i + 1).drop_last() =~= evs.subrange(0, i as int));
                assert(evs.subrange(0, i + 1).last() == evs[i as int]);
            }
            match &events[i] {
                TreeEvent::Open { name, is_last } => {
                    let m = st.len();
                    let mut j: usize = 0;
                    let mut pre = String::new();
                    proof {
                        assert(st0.subrange(0, 0) =~= Seq::<bool>::empty());
                        assert(pre@ =~= tree_prefix(st0.subrange(0, 0)));
                    }
                    while j < m
                        invariant
                            0 <= j <= m,
                            m == st@.len(),
                            st@ == st0,
                            pre@ == tree_prefix(st0.subrange(0, j as int)),
                        decreases m - j,
                    {
                        if st[j] {
                            pre.append("    ");
                        } else {
                            pre.append("│   ");
                        }
                        proof {
                            assert(st0.subrange(0, j + 1).drop_last() =~= st0.subrange(0, j as int));
                            assert(st0.subrange(0, j + 1).last() == st0[j as int]);
                        }
                        j = j + 1;
                    }
                    proof {
                        assert(st0.subrange(0, m as int) =~= st0);
                    }
                    out.append(pre.as_str());
                    if *is_last {
                        out.append("└── ");
                    } else {
                        out.append("├── ");
                    }
                    out.append(name.as_str());
                    crate::text::push_char(&mut out, '\n');
                    st.push(*is_last);
                    proof {
                        reveal_strlit("\n");
                        assert("\n"@ =~= seq!['\n']);
                        assert(out@ =~= out0 + tree_prefix(st0) + tree_connector(*is_last) + name@
                            + "\n"@);
                        assert(st@ =~= st0.push(*is_last));
                        assert(st@ == render_fold(evs.subrange(0, i + 1)).0);
                        assert(out@ == render_fold(evs.subrange(0, i + 1)).1);
                    }
                },
                TreeEvent::Close => {
                    if st.len() > 0 {
                        st.pop();
                        proof {
                            assert(st@ =~= st0.drop_last());
                        }
                    }
                    proof {
                        assert(st@ == render_fold(evs.subrange(0, i + 1)).0);
                        assert(out@ == render_fold(evs.subrange(0, i + 1)).1);
                    }
                },
            }
            i = i + 1;
        }
        proof {
            assert(evs.subrange(0, n as int) =~= evs);
        }
        out
    }
}

/// Does the path lie under the root?
pub fn under_root(root: &String, path: &String) -> (r: bool)
    ensures
        r == (rel_path_spec(root@, path@) is Some),
{
    let rs = root.as_str();
    let ps = path.as_str();
    let rn = rs.unicode_len();
    let pn = ps.unicode_len();
    if eq_text(ps, rs) {
        return true;
    }
    if rn == 0 {
        return true;
    }
    crate::text::starts_with_text(ps, rs) && pn > rn && ps.get_char(rn) == '/'
}

} // verus!
