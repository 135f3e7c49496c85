//! Searching a directory tree: the up-front directory check, the
//! enumeration of its regular files, and the fail-fast aggregation of the
//! matching lines of every readable file.

use crate::scan::line_seq;
use crate::scan::matches_of;
use crate::scan::scan_lines;
use vstd::prelude::*;

verus! {

/// Why a search failed.
#[derive(Debug, PartialEq)]
pub enum SearchError {
    /// Recursive mode was asked of a path that does not name a directory.
    NotADirectory { path: String },
    /// A file could not be read; `cause` carries the reader's message.
    NotReadable { path: String, cause: String },
}

/// One file of a tree, as handed to the searcher: its path, and either its
/// text or the cause for which it could not be read.
#[derive(Debug, PartialEq)]
pub struct FileEntry {
    /// Where the file stands.
    pub path: String,
    /// Its whole text, or the cause of the failed read.
    pub contents: Result<String, String>,
}

/// The outcome of scanning a sequence of file entries, at the specification
/// level.
pub enum ScanOutcome {
    /// Every file was readable: the matching lines, in visit order.
    Lines { lines: Seq<Seq<char>> },
    /// Some file was unreadable: the first such file, with the cause.
    Unreadable { path: Seq<char>, cause: Seq<char> },
}

/// What a fail-fast scan of the entries yields: the concatenation, in visit
/// order, of each file's matching lines, unless some file was unreadable,
/// in which case the first unreadable file is reported and nothing else.
pub open spec fn tree_outcome(
    query: Seq<char>,
    case_sensitive: bool,
    entries: Seq<FileEntry>,
) -> ScanOutcome
    decreases entries.len(),
{
    if entries.len() == 0 {
        ScanOutcome::Lines { lines: Seq::empty() }
    } else {
        match entries[0].contents {
            Err(cause) => ScanOutcome::Unreadable { path: entries[0].path@, cause: cause@ },
            Ok(text) => match tree_outcome(query, case_sensitive, entries.drop_first()) {
                ScanOutcome::Lines { lines } => (ScanOutcome::Lines {
                    lines: matches_of(query, case_sensitive, line_seq(text@)) + lines,
                }),
                ScanOutcome::Unreadable { path, cause } => (ScanOutcome::Unreadable {
                    path,
                    cause,
                }),
            },
        }
    }
}

/// Scans the entries of a tree in their visit order. On the first
/// unreadable entry the whole search fails with `NotReadable`; otherwise
/// every matching line of every file is returned, in visit order.
pub fn search_entries(query: &str, case_sensitive: bool, entries: &Vec<FileEntry>) -> (r: Result<
    Vec<String>,
    SearchError,
>)
    ensures
        (match r {
            Ok(v) => tree_outcome(query@, case_sensitive, entries@) == (ScanOutcome::Lines {
                lines: v@.map_values(|l: String| l@),
            }),
            Err(e) => {
                &&& tree_outcome(query@, case_sensitive, entries@) matches ScanOutcome::Unreadable
                    { path, cause }
                &&& e matches SearchError::NotReadable { path: p, cause: c }
                &&& p@ == path
                &&& c@ == cause
            },
        }),
{
    let ghost q = query@;
    let mut out: Vec<String> = Vec::new();
    let mut idx: usize = 0;
    proof {
        assert(entries@.skip(0) =~= entries@);
        assert(out@.map_values(|l: String| l@) =~= Seq::<Seq<char>>::empty());
    }
    while idx < entries.len()
        invariant
            q == query@,
            idx <= entries@.len(),
            tree_outcome(q, case_sensitive, entries@.skip(idx as int)) matches ScanOutcome::Lines
                { lines } ==> tree_outcome(q, case_sensitive, entries@) == (ScanOutcome::Lines {
                lines: out@.map_values(|l: String| l@) + lines,
            }),
            tree_outcome(q, case_sensitive, entries@.skip(idx as int)) matches
                ScanOutcome::Unreadable { path, cause } ==> tree_outcome(q, case_sensitive, entries@)
                == tree_outcome(q, case_sensitive, entries@.skip(idx as int)),
        decreases entries@.len() - idx,
    {
        proof {
            assert(entries@.skip(idx as int)[0] == entries@[idx as int]);
            assert(entries@.skip(idx as int).drop_first() =~= entries@.skip(idx + 1));
        }
        match &entries[idx].contents {
            Err(cause) => {
                return Err(
                    SearchError::NotReadable {
                        path: entries[idx].path.clone(),
                        cause: cause.clone(),
                    },
                );
            },
            Ok(text) => {
                let mut found = scan_lines(query, text.as_str(), case_sensitive);
                let ghost out_before = out@;
                let ghost found_view = found@.map_values(|l: String| l@);
                proof {
                    let suffix = tree_outcome(q, case_sensitive, entries@.skip(idx + 1));
                    if suffix is Lines {
                        assert((out_before.map_values(|l: String| l@) + found_view)
                            + suffix->Lines_lines =~= out_before.map_values(|l: String| l@) + (
                        found_view + suffix->Lines_lines));
                    }
                }
                out.append(&mut found);
                proof {
                    assert(out@.map_values(|l: String| l@) =~= out_before.map_values(
                        |l: String| l@,
                    ) + found_view);
                }
            },
        }
        idx = idx + 1;
    }
    proof {
        assert(entries@.skip(entries@.len() as int) =~= Seq::<FileEntry>::empty());
        assert(out@.map_values(|l: String| l@) + Seq::<Seq<char>>::empty() =~= out@.map_values(
            |l: String| l@,
        ));
    }
    Ok(out)
}

/// The outcome of scanning a sequence of file entries when each matching
/// line is tagged with the path of the file it came from.
pub enum TaggedScanOutcome {
    /// Every file was readable: the matching lines in visit order, each
    /// paired with its source path.
    Pairs { pairs: Seq<(Seq<char>, Seq<char>)> },
    /// Some file was unreadable: the first such file, with the cause.
    Unreadable { path: Seq<char>, cause: Seq<char> },
}

/// Like `tree_outcome`, with each matching line tagged with the path of
/// its file.
pub open spec fn tagged_tree_outcome(
    query: Seq<char>,
    case_sensitive: bool,
    entries: Seq<FileEntry>,
) -> TaggedScanOutcome
    decreases entries.len(),
{
    if entries.len() == 0 {
        TaggedScanOutcome::Pairs { pairs: Seq::empty() }
    } else {
        match entries[0].contents {
            Err(cause) => (TaggedScanOutcome::Unreadable {
                path: entries[0].path@,
                cause: cause@,
            }),
            Ok(text) => match tagged_tree_outcome(query, case_sensitive, entries.drop_first()) {
                TaggedScanOutcome::Pairs { pairs } => (TaggedScanOutcome::Pairs {
                    pairs: matches_of(query, case_sensitive, line_seq(text@)).map_values(
                        |l: Seq<char>| (entries[0].path@, l),
                    ) + pairs,
                }),
                TaggedScanOutcome::Unreadable { path, cause } => (TaggedScanOutcome::Unreadable {
                    path,
                    cause,
                }),
            },
        }
    }
}

/// Scans the entries of a tree in their visit order, as `search_entries`
/// does, with each matching line paired with the path of the file that
/// holds it.
pub fn search_entries_tagged(query: &str, case_sensitive: bool, entries: &Vec<FileEntry>) -> (r:
    Result<Vec<(String, String)>, SearchError>)
    ensures
        (match r {
            Ok(v) => tagged_tree_outcome(query@, case_sensitive, entries@)
                == (TaggedScanOutcome::Pairs {
                pairs: v@.map_values(|p: (String, String)| (p.0@, p.1@)),
            }),
            Err(e) => {
                &&& tagged_tree_outcome(query@, case_sensitive, entries@) matches
                    TaggedScanOutcome::Unreadable { path, cause }
                &&& e matches SearchError::NotReadable { path: p, cause: c }
                &&& p@ == path
                &&& c@ == cause
            },
        }),
{
    let ghost q = query@;
    let mut out: Vec<(String, String)> = Vec::new();
    let mut idx: usize = 0;
    proof {
        assert(entries@.skip(0) =~= entries@);
        assert(out@.map_values(|p: (String, String)| (p.0@, p.1@)) =~= Seq::<
            (Seq<char>, Seq<char>),
        >::empty());
    }
    while idx < entries.len()
        invariant
            q == query@,
            idx <= entries@.len(),
            tagged_tree_outcome(q, case_sensitive, entries@.skip(idx as int)) matches
                TaggedScanOutcome::Pairs { pairs } ==> tagged_tree_outcome(
                q,
                case_sensitive,
                entries@,
            ) == (TaggedScanOutcome::Pairs {
                pairs: out@.map_values(|p: (String, String)| (p.0@, p.1@)) + pairs,
            }),
            tagged_tree_outcome(q, case_sensitive, entries@.skip(idx as int)) matches
                TaggedScanOutcome::Unreadable { path, cause } ==> tagged_tree_outcome(
                q,
                case_sensitive,
                entries@,
            ) == tagged_tree_outcome(q, case_sensitive, entries@.skip(idx as int)),
        decreases entries@.len() - idx,
    {
        proof {
            assert(entries@.skip(idx as int)[0] == entries@[idx as int]);
            assert(entries@.skip(idx as int).drop_first() =~= entries@.skip(idx + 1));
        }
        match &entries[idx].contents {
            Err(cause) => {
                return Err(
                    SearchError::NotReadable {
                        path: entries[idx].path.clone(),
                        cause: cause.clone(),
                    },
                );
            },
            Ok(text) => {
                let found = scan_lines(query, text.as_str(), case_sensitive);
                let ghost out_before = out@;
                let ghost tag = entries@[idx as int].path@;
                let ghost found_tagged = found@.map_values(|l: String| l@).map_values(
                    |l: Seq<char>| (tag, l),
                );
                let mut k: usize = 0;
                while k < found.len()
                    invariant
                        k <= found@.len(),
                        tag == entries@[idx as int].path@,
                        idx < entries@.len(),
                        found_tagged == found@.map_values(|l: String| l@).map_values(
                            |l: Seq<char>| (tag, l),
                        ),
                        out@.map_values(|p: (String, String)| (p.0@, p.1@)) == out_before
                            .map_values(|p: (String, String)| (p.0@, p.1@)) + found_tagged.take(
                            k as int,
                        ),
                    decreases found@.len() - k,
                {
                    let pair = (entries[idx].path.clone(), found[k].clone());
                    proof {
                        assert(found_tagged[k as int] == (tag, found@[k as int]@));
                        assert(out@.push(pair).map_values(|p: (String, String)| (p.0@, p.1@)) =~=
                            out@.map_values(|p: (String, String)| (p.0@, p.1@)).push(
                            (pair.0@, pair.1@),
                        ));
                        assert(out_before.map_values(|p: (String, String)| (p.0@, p.1@))
                            + found_tagged.take(k + 1) =~= (out_before.map_values(
                            |p: (String, String)| (p.0@, p.1@),
                        ) + found_tagged.take(k as int)).push((pair.0@, pair.1@)));
                    }
                    out.push(pair);
                    k = k + 1;
                }
                proof {
                    assert(found_tagged.take(found@.len() as int) =~= found_tagged);
                    let suffix = tagged_tree_outcome(q, case_sensitive, entries@.skip(idx + 1));
                    assert(found_tagged =~= matches_of(
                        q,
                        case_sensitive,
                        line_seq(entries@[idx as int].contents->Ok_0@),
                    ).map_values(|l: Seq<char>| (tag, l)));
                    if suffix is Pairs {
                        assert((out_before.map_values(|p: (String, String)| (p.0@, p.1@))
                            + found_tagged) + suffix->Pairs_pairs =~= out_before.map_values(
                            |p: (String, String)| (p.0@, p.1@),
                        ) + (found_tagged + suffix->Pairs_pairs));
                    }
                }
            },
        }
        idx = idx + 1;
    }
    proof {
        assert(entries@.skip(entries@.len() as int) =~= Seq::<FileEntry>::empty());
        assert(out@.map_values(|p: (String, String)| (p.0@, p.1@)) + Seq::<
            (Seq<char>, Seq<char>),
        >::empty() =~= out@.map_values(|p: (String, String)| (p.0@, p.1@)));
    }
    Ok(out)
}

/// Dropping the path tags from a tagged scan leaves exactly the plain
/// scan: the same matching lines in the same order, or the same error.
pub proof fn lemma_tagged_projects_to_plain(
    query: Seq<char>,
    case_sensitive: bool,
    entries: Seq<FileEntry>,
)
    ensures
        (match (
            tagged_tree_outcome(query, case_sensitive, entries),
            tree_outcome(query, case_sensitive, entries),
        ) {
            (
                TaggedScanOutcome::Pairs { pairs },
                ScanOutcome::Lines { lines },
            ) => lines == pairs.map_values(|p: (Seq<char>, Seq<char>)| p.1),
            (
                TaggedScanOutcome::Unreadable { path: tp, cause: tc },
                ScanOutcome::Unreadable { path, cause },
            ) => tp == path && tc == cause,
            _ => false,
        }),
    decreases entries.len(),
{
    if entries.len() == 0 {
        assert(Seq::<(Seq<char>, Seq<char>)>::empty().map_values(
            |p: (Seq<char>, Seq<char>)| p.1,
        ) =~= Seq::<Seq<char>>::empty());
    } else {
        lemma_tagged_projects_to_plain(query, case_sensitive, entries.drop_first());
        match entries[0].contents {
            Err(_) => {},
            Ok(text) => {
                let file_matches = matches_of(query, case_sensitive, line_seq(text@));
                let tag = entries[0].path@;
                match tagged_tree_outcome(query, case_sensitive, entries.drop_first()) {
                    TaggedScanOutcome::Pairs { pairs } => {
                        assert((file_matches.map_values(|l: Seq<char>| (tag, l))
                            + pairs).map_values(|p: (Seq<char>, Seq<char>)| p.1) =~= file_matches
                            + pairs.map_values(|p: (Seq<char>, Seq<char>)| p.1));
                    },
                    TaggedScanOutcome::Unreadable { .. } => {},
                }
            },
        }
    }
}

/// Relies on `std::path::Path::is_dir`: probes the filesystem for whether
/// the path names a directory. Nothing is promised of the answer.
#[verifier::external_body]
fn path_is_dir(path: &String) -> bool {
    std::path::Path::new(path.as_str()).is_dir()
}

/// Relies on walkdir's `WalkDir`: enumerates the entries under `root`,
/// keeps the regular files, and renders each path as text. What comes back
/// depends on the filesystem, so nothing is promised of it.
#[verifier::external_body]
fn walk_file_paths(root: &String) -> Vec<String> {
    let mut paths: Vec<String> = Vec::new();
    for entry in walkdir::WalkDir::new(root.as_str()).into_iter().filter_map(|e| e.ok()) {
        if entry.file_type().is_file() {
            paths.push(entry.path().display().to_string());
        }
    }
    paths
}

/// Recursive mode's up-front check: a root that is not a directory fails
/// with `NotADirectory` before any traversal; under a directory root the
/// regular files are enumerated.
pub fn plan_walk(root: &String, root_is_dir: bool) -> (r: Result<Vec<String>, SearchError>)
    ensures
        !root_is_dir ==> (r matches Err(e) && e matches SearchError::NotADirectory { path }
            && path@ == root@),
        root_is_dir ==> r is Ok,
{
    if !root_is_dir {
        Err(SearchError::NotADirectory { path: root.clone() })
    } else {
        Ok(walk_file_paths(root))
    }
}

/// Probes the filesystem and plans the walk: the only error it can return
/// is `NotADirectory`, carrying the root path itself.
pub fn plan_search(root: &String) -> (r: Result<Vec<String>, SearchError>)
    ensures
        r matches Err(e) ==> (e matches SearchError::NotADirectory { path } && path@ == root@),
{
    let root_is_dir = path_is_dir(root);
    plan_walk(root, root_is_dir)
}

/// Fail-fast: as soon as any entry of the tree is unreadable, the scan of
/// the whole tree reports an unreadable file, whatever the other entries
/// hold.
pub proof fn lemma_fail_fast(query: Seq<char>, case_sensitive: bool, entries: Seq<FileEntry>)
    requires
        exists|i: int| 0 <= i < entries.len() && entries[i].contents is Err,
    ensures
        tree_outcome(query, case_sensitive, entries) is Unreadable,
    decreases entries.len(),
{
    let i = choose|i: int| 0 <= i < entries.len() && entries[i].contents is Err;
    if entries[0].contents is Ok {
        assert(entries.drop_first()[i - 1].contents is Err);
        lemma_fail_fast(query, case_sensitive, entries.drop_first());
    }
}

/// Two entries that carry the same path and the same reading outcome.
pub open spec fn entry_like(a: FileEntry, b: FileEntry) -> bool {
    &&& a.path@ == b.path@
    &&& match (a.contents, b.contents) {
        (Ok(x), Ok(y)) => x@ == y@,
        (Err(x), Err(y)) => x@ == y@,
        _ => false,
    }
}

/// Repeating a search on an unchanged tree: two entry sequences that hold
/// the same paths and the same texts in the same order produce the very
/// same outcome, so the same search run twice yields the identical ordered
/// result.
pub proof fn lemma_search_repeatable(
    query: Seq<char>,
    case_sensitive: bool,
    first: Seq<FileEntry>,
    second: Seq<FileEntry>,
)
    requires
        first.len() == second.len(),
        forall|i: int| 0 <= i < first.len() ==> entry_like(first[i], second[i]),
    ensures
        tree_outcome(query, case_sensitive, first) == tree_outcome(query, case_sensitive, second),
    decreases first.len(),
{
    if first.len() > 0 {
        assert(entry_like(first[0], second[0]));
        assert(forall|i: int|
            0 <= i < first.drop_first().len() ==> entry_like(
                first.drop_first()[i],
                second.drop_first()[i],
            ));
        lemma_search_repeatable(query, case_sensitive, first.drop_first(), second.drop_first());
    }
}

} // verus!
