use vstd::prelude::*;
use vstd::string::StrSliceExecFns;

use crate::text::{contains_string, str_eq};

verus! {

// Extraction of quoted header references from the text of a C-family file.
//
// The engine recognizes the common, simple form of a quoted header
// reference: a `#` directive naming the referenced file between double
// quotes, where the name is made of word characters and dots and carries
// one of the recognized header extensions. Comments, conditional
// compilation and macro-expanded names are deliberately not understood;
// matching is line-pattern based, not a real preprocessor.

/// Whether `c` is whitespace that may stand between the directive and the
/// opening quote.
pub open spec fn is_ws(c: char) -> bool {
    c == ' ' || c == '\t' || c == '\r' || c == '\n'
}

/// Whether `c` may stand in a quoted header name: a word character or a dot.
pub open spec fn is_name_char(c: char) -> bool {
    ('a' <= c && c <= 'z') || ('A' <= c && c <= 'Z') || ('0' <= c && c <= '9') || c == '_' || c
        == '.'
}

/// The index of the first character at or after `j` that is not whitespace,
/// or the text's length if only whitespace follows.
pub open spec fn ws_end(s: Seq<char>, j: int) -> int
    decreases s.len() - j,
    when 0 <= j <= s.len()
{
    if j < s.len() && is_ws(s[j]) {
        ws_end(s, j + 1)
    } else {
        j
    }
}

/// The index of the first character at or after `j` that cannot stand in a
/// quoted header name, or the text's length.
pub open spec fn name_end(s: Seq<char>, j: int) -> int
    decreases s.len() - j,
    when 0 <= j <= s.len()
{
    if j < s.len() && is_name_char(s[j]) {
        name_end(s, j + 1)
    } else {
        j
    }
}

pub proof fn lemma_ws_end(s: Seq<char>, j: int)
    requires
        0 <= j <= s.len(),
    ensures
        j <= ws_end(s, j) <= s.len(),
    decreases s.len() - j,
{
    if j < s.len() && is_ws(s[j]) {
        lemma_ws_end(s, j + 1);
    }
}

pub proof fn lemma_name_end(s: Seq<char>, j: int)
    requires
        0 <= j <= s.len(),
    ensures
        j <= name_end(s, j) <= s.len(),
    decreases s.len() - j,
{
    if j < s.len() && is_name_char(s[j]) {
        lemma_name_end(s, j + 1);
    }
}

/// Whether `name` ends with a dot followed by the extension `e`.
pub open spec fn ext_matches(name: Seq<char>, e: Seq<char>) -> bool {
    &&& name.len() > e.len()
    &&& name[name.len() - e.len() - 1] == '.'
    &&& name.subrange(name.len() - e.len(), name.len() as int) == e
}

/// Whether `name` carries one of the extensions in `exts`.
pub open spec fn has_valid_ext(name: Seq<char>, exts: Seq<Seq<char>>) -> bool {
    exists|k: int| 0 <= k < exts.len() && ext_matches(name, #[trigger] exts[k])
}

/// Whether the eight characters of the reference directive stand at `i`.
pub open spec fn directive_at(s: Seq<char>, i: int) -> bool {
    &&& 0 <= i
    &&& i + 8 <= s.len()
    &&& s[i] == '#'
    &&& s[i + 1] == 'i'
    &&& s[i + 2] == 'n'
    &&& s[i + 3] == 'c'
    &&& s[i + 4] == 'l'
    &&& s[i + 5] == 'u'
    &&& s[i + 6] == 'd'
    &&& s[i + 7] == 'e'
}

/// If a full quoted header reference with a recognized extension stands at
/// `i`, the index just after its closing quote; otherwise -1.
pub open spec fn match_end(s: Seq<char>, i: int, exts: Seq<Seq<char>>) -> int {
    if directive_at(s, i) {
        let q = ws_end(s, i + 8);
        if q < s.len() && s[q] == '"' {
            let e = name_end(s, q + 1);
            if e < s.len() && s[e] == '"' && has_valid_ext(s.subrange(q + 1, e), exts) {
                e + 1
            } else {
                -1
            }
        } else {
            -1
        }
    } else {
        -1
    }
}

/// The quoted name of the reference standing at `i`; meaningful only when
/// `match_end(s, i, exts) >= 0`.
pub open spec fn match_name(s: Seq<char>, i: int, exts: Seq<Seq<char>>) -> Seq<char> {
    let q = ws_end(s, i + 8);
    s.subrange(q + 1, name_end(s, q + 1))
}

pub proof fn lemma_match_end(s: Seq<char>, i: int, exts: Seq<Seq<char>>)
    requires
        0 <= i,
    ensures
        match_end(s, i, exts) >= 0 ==> i < match_end(s, i, exts) <= s.len(),
{
    if directive_at(s, i) {
        lemma_ws_end(s, i + 8);
        let q = ws_end(s, i + 8);
        if q < s.len() && s[q] == '"' {
            lemma_name_end(s, q + 1);
        }
    }
}

/// Every quoted header name found scanning the text from `i` on, in text
/// order, duplicates kept.
pub open spec fn scan_names(s: Seq<char>, i: int, exts: Seq<Seq<char>>) -> Seq<Seq<char>>
    decreases s.len() - i,
    when 0 <= i
{
    if i >= s.len() {
        Seq::empty()
    } else if match_end(s, i, exts) >= 0 {
        proof {
            lemma_match_end(s, i, exts);
        }
        seq![match_name(s, i, exts)] + scan_names(s, match_end(s, i, exts), exts)
    } else {
        scan_names(s, i + 1, exts)
    }
}

/// `s` with every repetition of an earlier element removed: the first
/// occurrences, in order.
pub open spec fn dedup_names(s: Seq<Seq<char>>) -> Seq<Seq<char>>
    decreases s.len(),
{
    if s.len() == 0 {
        Seq::empty()
    } else {
        let rest = dedup_names(s.drop_last());
        if s.drop_last().contains(s.last()) {
            rest
        } else {
            rest.push(s.last())
        }
    }
}

pub proof fn lemma_dedup_names_contains(s: Seq<Seq<char>>, x: Seq<char>)
    ensures
        dedup_names(s).contains(x) == s.contains(x),
    decreases s.len(),
{
    if s.len() == 0 {
        assert(!s.contains(x));
        assert(!dedup_names(s).contains(x));
    } else {
        let dl = s.drop_last();
        lemma_dedup_names_contains(dl, x);
        assert(s.contains(x) == (dl.contains(x) || s.last() == x)) by {
            if s.contains(x) {
                let k = choose|k: int| 0 <= k < s.len() && s[k] == x;
                if k < s.len() - 1 {
                    assert(dl[k] == x);
                }
            }
            if dl.contains(x) {
                let k = choose|k: int| 0 <= k < dl.len() && dl[k] == x;
                assert(s[k] == x);
            }
            if s.last() == x {
                assert(s[s.len() - 1] == x);
            }
        }
        let rest = dedup_names(dl);
        if dl.contains(s.last()) {
            assert(dedup_names(s) == rest);
        } else {
            assert(dedup_names(s) == rest.push(s.last()));
            assert(rest.push(s.last()).contains(x) == (rest.contains(x) || s.last() == x)) by {
                if rest.push(s.last()).contains(x) {
                    let k = choose|k: int|
                        0 <= k < rest.push(s.last()).len() && rest.push(s.last())[k] == x;
                    if k < rest.len() {
                        assert(rest[k] == x);
                    }
                }
                if rest.contains(x) {
                    let k = choose|k: int| 0 <= k < rest.len() && rest[k] == x;
                    assert(rest.push(s.last())[k] == x);
                }
                if s.last() == x {
                    assert(rest.push(s.last())[rest.len() as int] == x);
                }
            }
        }
    }
}

/// The quoted header names of a text: every name a reference directive
/// quotes with a recognized extension, in order of first occurrence,
/// without repetitions.
pub open spec fn header_names(text: Seq<char>, exts: Seq<Seq<char>>) -> Seq<Seq<char>> {
    dedup_names(scan_names(text, 0, exts))
}

fn ws_char(c: char) -> (r: bool)
    ensures
        r == is_ws(c),
{
    c == ' ' || c == '\t' || c == '\r' || c == '\n'
}

fn name_char(c: char) -> (r: bool)
    ensures
        r == is_name_char(c),
{
    ('a' <= c && c <= 'z') || ('A' <= c && c <= 'Z') || ('0' <= c && c <= '9') || c == '_' || c
        == '.'
}

/// Returns whether `name` carries one of the extensions in `exts`.
fn has_ext(name: &str, exts: &Vec<String>) -> (r: bool)
    ensures
        r == has_valid_ext(name@, exts.deep_view()),
{
    proof {
        assert forall|m: int| 0 <= m < exts@.len() implies exts.deep_view()[m] == exts@[m]@ by {}
    }
    let n = name.unicode_len();
    let mut k: usize = 0;
    while k < exts.len()
        invariant
            n == name@.len(),
            k <= exts@.len(),
            exts.deep_view().len() == exts@.len(),
            forall|m: int| 0 <= m < exts@.len() ==> exts.deep_view()[m] == exts@[m]@,
            forall|m: int| 0 <= m < k ==> !ext_matches(name@, exts.deep_view()[m]),
        decreases exts@.len() - k,
    {
        let e = &exts[k];
        let el = e.as_str().unicode_len();
        if el < n && name.get_char(n - el - 1) == '.' && str_eq(
            name.substring_char(n - el, n),
            e.as_str(),
        ) {
            proof {
                assert(ext_matches(name@, exts.deep_view()[k as int]));
            }
            return true;
        }
        proof {
            assert(!ext_matches(name@, exts.deep_view()[k as int]));
        }
        k = k + 1;
    }
    false
}

/// Tries to recognize a full quoted header reference standing at `i`.
/// On success returns the quoted name and the index just after the closing
/// quote.
fn try_match(text: &str, n: usize, i: usize, exts: &Vec<String>) -> (r: Option<(String, usize)>)
    requires
        n == text@.len(),
        i < n,
    ensures
        match r {
            Some(p) => {
                &&& match_end(text@, i as int, exts.deep_view()) == p.1 as int
                &&& p.0@ == match_name(text@, i as int, exts.deep_view())
                &&& i < p.1 <= n
            },
            None => match_end(text@, i as int, exts.deep_view()) == -1,
        },
{
    if n - i < 8 {
        return None;
    }
    if !(text.get_char(i) == '#' && text.get_char(i + 1) == 'i' && text.get_char(i + 2) == 'n'
        && text.get_char(i + 3) == 'c' && text.get_char(i + 4) == 'l' && text.get_char(i + 5)
        == 'u' && text.get_char(i + 6) == 'd' && text.get_char(i + 7) == 'e') {
        return None;
    }
    let mut q: usize = i + 8;
    while q < n && ws_char(text.get_char(q))
        invariant
            n == text@.len(),
            i + 8 <= q <= n,
            ws_end(text@, i + 8) == ws_end(text@, q as int),
        decreases n - q,
    {
        q = q + 1;
    }
    if q >= n {
        return None;
    }
    if text.get_char(q) != '"' {
        return None;
    }
    let mut e: usize = q + 1;
    while e < n && name_char(text.get_char(e))
        invariant
            n == text@.len(),
            q + 1 <= e <= n,
            name_end(text@, q + 1) == name_end(text@, e as int),
        decreases n - e,
    {
        e = e + 1;
    }
    if e >= n {
        return None;
    }
    if text.get_char(e) != '"' {
        return None;
    }
    let name = text.substring_char(q + 1, e);
    if !has_ext(name, exts) {
        return None;
    }
    Some((name.to_owned(), e + 1))
}

/// Extracts the quoted header names of `text`: every name quoted by a
/// reference directive with an extension in `exts`, in order of first
/// occurrence, without repetitions.
pub fn quoted_headers(text: &str, exts: &Vec<String>) -> (r: Vec<String>)
    ensures
        r.deep_view() == header_names(text@, exts.deep_view()),
{
    let ghost gexts = exts.deep_view();
    let n = text.unicode_len();
    let mut out: Vec<String> = Vec::new();
    let ghost mut raw: Seq<Seq<char>> = Seq::empty();
    let mut i: usize = 0;
    proof {
        assert(raw + scan_names(text@, 0, gexts) =~= scan_names(text@, 0, gexts));
    }
    while i < n
        invariant
            n == text@.len(),
            i <= n,
            gexts == exts.deep_view(),
            scan_names(text@, 0, gexts) == raw + scan_names(text@, i as int, gexts),
            out.deep_view() == dedup_names(raw),
        decreases n - i,
    {
        match try_match(text, n, i, exts) {
            Some(p) => {
                let (name, next) = p;
                let ghost name_s = match_name(text@, i as int, gexts);
                proof {
                    assert(scan_names(text@, i as int, gexts) == seq![name_s] + scan_names(
                        text@,
                        next as int,
                        gexts,
                    ));
                    assert(raw + scan_names(text@, i as int, gexts) =~= raw.push(name_s)
                        + scan_names(text@, next as int, gexts));
                    lemma_dedup_names_contains(raw, name_s);
                    assert(raw.push(name_s).drop_last() =~= raw);
                }
                let ghost old_deep = out.deep_view();
                if !contains_string(&out, name.as_str()) {
                    out.push(name);
                    proof {
                        assert(out.deep_view() =~= old_deep.push(name_s));
                    }
                }
                proof {
                    raw = raw.push(name_s);
                    assert(out.deep_view() == dedup_names(raw));
                }
                i = next;
            },
            None => {
                proof {
                    assert(scan_names(text@, i as int, gexts) == scan_names(
                        text@,
                        i + 1,
                        gexts,
                    ));
                }
                i = i + 1;
            },
        }
    }
    proof {
        assert(scan_names(text@, i as int, gexts) =~= Seq::empty());
        assert(raw + scan_names(text@, i as int, gexts) =~= raw);
    }
    out
}

} // verus!
