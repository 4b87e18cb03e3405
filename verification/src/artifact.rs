use vstd::prelude::*;
use vstd::string::StrSliceExecFns;

use crate::text::{contains_string, str_eq};

verus! {

/// A tracked file — a source, a header or an object — with its path and its
/// last-modification time, in nanoseconds since the epoch.
///
/// Artifacts are created fresh on every build invocation from a file-system
/// scan and are never persisted. Identity is the path.
#[derive(Debug, Clone, PartialEq, Eq)]
pub struct Artifact {
    pub path: String,
    pub modified: u64,
}

/// One entry met while recursively walking a directory: its path, whether it
/// is a regular file, and its last-modification time. The shell around the
/// engine produces these; the engine selects artifacts from them.
#[derive(Debug, Clone, PartialEq, Eq)]
pub struct ScanEntry {
    pub path: String,
    pub is_file: bool,
    pub modified: u64,
}

/// Whether `c` separates path components.
pub open spec fn is_sep(c: char) -> bool {
    c == '/' || c == '\\'
}

/// The index of the last character of `s` satisfying `pred`, or -1 if none
/// does.
pub open spec fn last_where(s: Seq<char>, pred: spec_fn(char) -> bool) -> int
    decreases s.len(),
{
    if s.len() == 0 {
        -1
    } else if pred(s.last()) {
        s.len() - 1
    } else {
        last_where(s.drop_last(), pred)
    }
}

/// The separator predicate, as a single closure value shared by every use.
pub open spec fn sep_pred() -> spec_fn(char) -> bool {
    |c: char| is_sep(c)
}

/// The dot predicate, as a single closure value shared by every use.
pub open spec fn dot_pred() -> spec_fn(char) -> bool {
    |c: char| c == '.'
}

pub proof fn lemma_last_where(s: Seq<char>, pred: spec_fn(char) -> bool)
    ensures
        -1 <= last_where(s, pred) < s.len(),
        last_where(s, pred) >= 0 ==> pred(s[last_where(s, pred)]),
        forall|k: int| last_where(s, pred) < k < s.len() ==> !pred(#[trigger] s[k]),
    decreases s.len(),
{
    if s.len() == 0 {
    } else if pred(s.last()) {
    } else {
        lemma_last_where(s.drop_last(), pred);
        assert forall|k: int| last_where(s, pred) < k < s.len() implies !pred(#[trigger] s[k]) by {
            if k < s.len() - 1 {
                assert(s[k] == s.drop_last()[k]);
            } else {
                assert(s[k] == s.last());
            }
        }
    }
}

pub proof fn lemma_last_where_unique(s: Seq<char>, pred: spec_fn(char) -> bool, c: int)
    requires
        -1 <= c < s.len(),
        c >= 0 ==> pred(s[c]),
        forall|k: int| c < k < s.len() ==> !pred(#[trigger] s[k]),
    ensures
        c == last_where(s, pred),
{
    lemma_last_where(s, pred);
    let lw = last_where(s, pred);
    if c < lw {
        assert(!pred(s[lw]));
        assert(false);
    }
    if c > lw {
        assert(!pred(s[c]));
        assert(false);
    }
}

/// The final component of a path: everything after the last separator, or
/// the whole path if it has no separator.
pub open spec fn file_name_spec(p: Seq<char>) -> Seq<char> {
    p.subrange(last_where(p, sep_pred()) + 1, p.len() as int)
}

fn sep_char(c: char) -> (r: bool)
    ensures
        r == is_sep(c),
{
    c == '/' || c == '\\'
}

/// Returns the final component of `path`.
pub fn file_name(path: &str) -> (r: String)
    ensures
        r@ == file_name_spec(path@),
{
    let n = path.unicode_len();
    let mut cut: usize = n;
    while cut > 0 && !sep_char(path.get_char(cut - 1))
        invariant
            n == path@.len(),
            cut <= n,
            forall|k: int| cut <= k < n ==> !is_sep(#[trigger] path@[k]),
        decreases cut,
    {
        cut = cut - 1;
    }
    proof {
        lemma_last_where_unique(path@, sep_pred(), cut as int - 1);
    }
    path.substring_char(cut, n).to_owned()
}

/// The extension of a path: everything after the last dot of its file name,
/// provided that dot is neither absent nor the file name's first character.
pub open spec fn extension_spec(p: Seq<char>) -> Option<Seq<char>> {
    let f = file_name_spec(p);
    let d = last_where(f, dot_pred());
    if d >= 1 {
        Some(f.subrange(d + 1, f.len() as int))
    } else {
        None
    }
}

/// Returns the extension of `path`, if it has one.
pub fn extension(path: &str) -> (r: Option<String>)
    ensures
        r.deep_view() == extension_spec(path@),
{
    let f = file_name(path);
    let fs = f.as_str();
    let n = fs.unicode_len();
    let mut j: usize = n;
    while j > 0 && fs.get_char(j - 1) != '.'
        invariant
            n == fs@.len(),
            fs@ == f@,
            j <= n,
            forall|k: int| j <= k < n ==> fs@[k] != '.',
        decreases j,
    {
        j = j - 1;
    }
    proof {
        lemma_last_where_unique(fs@, dot_pred(), j as int - 1);
    }
    if j >= 2 {
        Some(fs.substring_char(j, n).to_owned())
    } else {
        None
    }
}

/// Whether the path has an extension and that extension is in `exts`.
pub open spec fn has_matching_ext(p: Seq<char>, exts: Seq<Seq<char>>) -> bool {
    match extension_spec(p) {
        Some(e) => exts.contains(e),
        None => false,
    }
}

/// Returns whether `path` carries one of the extensions in `exts`.
pub fn matches_ext(path: &str, exts: &Vec<String>) -> (r: bool)
    ensures
        r == has_matching_ext(path@, exts.deep_view()),
{
    match extension(path) {
        None => false,
        Some(e) => contains_string(exts, e.as_str()),
    }
}

/// The artifacts selected from a directory scan: one artifact per entry that
/// is a regular file with an extension in `exts`, in scan order.
pub open spec fn artifacts_of(entries: Seq<ScanEntry>, exts: Seq<Seq<char>>) -> Seq<Artifact>
    decreases entries.len(),
{
    if entries.len() == 0 {
        Seq::empty()
    } else {
        let rest = artifacts_of(entries.drop_last(), exts);
        let e = entries.last();
        if e.is_file && has_matching_ext(e.path@, exts) {
            rest.push(Artifact { path: e.path, modified: e.modified })
        } else {
            rest
        }
    }
}

/// Selects from a directory scan the artifacts with an extension in `exts`,
/// keeping the scan order.
pub fn select_artifacts(entries: &Vec<ScanEntry>, exts: &Vec<String>) -> (r: Vec<Artifact>)
    ensures
        r@ == artifacts_of(entries@, exts.deep_view()),
{
    let mut out: Vec<Artifact> = Vec::new();
    let mut i: usize = 0;
    while i < entries.len()
        invariant
            i <= entries@.len(),
            out@ == artifacts_of(entries@.subrange(0, i as int), exts.deep_view()),
        decreases entries@.len() - i,
    {
        let e = &entries[i];
        if e.is_file && matches_ext(e.path.as_str(), exts) {
            out.push(Artifact { path: e.path.clone(), modified: e.modified });
        }
        proof {
            assert(entries@.subrange(0, i + 1 as int).drop_last() =~= entries@.subrange(0, i as int));
            assert(entries@.subrange(0, i + 1 as int).last() == entries@[i as int]);
        }
        i = i + 1;
    }
    proof {
        assert(entries@.subrange(0, entries@.len() as int) =~= entries@);
    }
    out
}

} // verus!
