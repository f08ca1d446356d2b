//! Path normalization and containment checks.
//!
//! A path is modeled as a string of characters. Comparison keys are obtained
//! by turning every `/` into `\` and lowercasing the result; every safety
//! check in the crate (containment in a root, exclusion, deduplication) goes
//! through these keys.

use vstd::prelude::*;

verus! {

/// What `str::to_lowercase` returns for a given character sequence.
pub uninterp spec fn lower_of(s: Seq<char>) -> Seq<char>;

/// Relies on `str::to_lowercase`: the result depends on the characters alone.
#[verifier::external_body]
fn to_lowercase_str(s: &str) -> (r: String)
    ensures
        r@ == lower_of(s@),
{
    s.to_lowercase()
}

/// Relies on `String::push`: appends the given character to the end of the string.
pub assume_specification[ String::push ](s: &mut String, ch: char)
    ensures
        final(s)@ == old(s)@.push(ch),
;

/// The canonical form of one character: forward slashes become backslashes.
pub open spec fn sep_char(c: char) -> char {
    if c == '/' {
        '\\'
    } else {
        c
    }
}

/// Character-wise separator canonicalization.
pub open spec fn replace_sep(s: Seq<char>) -> Seq<char> {
    s.map_values(|c: char| sep_char(c))
}

/// The comparison key of a path: separators canonicalized, then lowercased.
pub open spec fn norm_of(s: Seq<char>) -> Seq<char> {
    lower_of(replace_sep(s))
}

#[verifier::loop_isolation(false)]
fn replace_separators(s: &str) -> (r: String)
    ensures
        r@ == replace_sep(s@),
{
    let n = s.unicode_len();
    let mut out = String::new();
    let mut i: usize = 0;
    while i < n
        invariant
            n == s@.len(),
            i <= n,
            out@ == replace_sep(s@.take(i as int)),
        decreases n - i,
    {
        let c = s.get_char(i);
        proof {
            assert(s@.take(i + 1) =~= s@.take(i as int).push(s@[i as int]));
            assert(replace_sep(s@.take(i + 1)) =~= replace_sep(s@.take(i as int)).push(
                sep_char(s@[i as int]),
            ));
        }
        if c == '/' {
            out.push('\\');
        } else {
            out.push(c);
        }
        i = i + 1;
    }
    proof {
        assert(s@.take(n as int) =~= s@);
    }
    out
}

/// The comparison key of a path given as a string slice.
pub fn normalize_path_str(path: &str) -> (r: String)
    ensures
        r@ == norm_of(path@),
{
    let replaced = replace_separators(path);
    to_lowercase_str(replaced.as_str())
}

/// The comparison key of a path given as an owned string.
pub fn normalize_path(path: &String) -> (r: String)
    ensures
        r@ == norm_of(path@),
{
    normalize_path_str(path.as_str())
}

/// Two paths denote the same location up to case and separator style.
pub fn path_eq_ignore_case(left: &String, right: &String) -> (r: bool)
    ensures
        r == (norm_of(left@) == norm_of(right@)),
{
    let l = normalize_path(left);
    let t = normalize_path(right);
    l == t
}

#[verifier::loop_isolation(false)]
fn starts_with_prefix(s: &String, prefix: &String) -> (r: bool)
    ensures
        r == prefix@.is_prefix_of(s@),
{
    let sn = s.as_str().unicode_len();
    let pn = prefix.as_str().unicode_len();
    if pn > sn {
        return false;
    }
    let mut i: usize = 0;
    while i < pn
        invariant
            pn == prefix@.len(),
            sn == s@.len(),
            pn <= sn,
            i <= pn,
            forall|j: int| 0 <= j < i ==> prefix@[j] == s@[j],
        decreases pn - i,
    {
        if prefix.as_str().get_char(i) != s.as_str().get_char(i) {
            return false;
        }
        i = i + 1;
    }
    proof {
        assert(prefix@ =~= s@.subrange(0, pn as int));
    }
    true
}

/// All trailing backslashes removed.
pub open spec fn trim_sep(s: Seq<char>) -> Seq<char>
    decreases s.len(),
{
    if s.len() > 0 && s.last() == '\\' {
        trim_sep(s.drop_last())
    } else {
        s
    }
}

proof fn lemma_trim_sep_at(s: Seq<char>, e: int)
    requires
        0 <= e <= s.len(),
        forall|j: int| e <= j < s.len() ==> s[j] == '\\',
        e > 0 ==> s[e - 1] != '\\',
    ensures
        trim_sep(s) == s.take(e),
    decreases s.len(),
{
    if s.len() > 0 && s.last() == '\\' {
        assert(e < s.len());
        lemma_trim_sep_at(s.drop_last(), e);
        assert(s.drop_last().take(e) =~= s.take(e));
    } else {
        assert(e == s.len());
        assert(s.take(e) =~= s);
    }
}

#[verifier::loop_isolation(false)]
fn trim_trailing_backslashes(s: &String) -> (r: String)
    ensures
        r@ == trim_sep(s@),
{
    let n = s.as_str().unicode_len();
    let mut end: usize = n;
    while end > 0 && s.as_str().get_char(end - 1) == '\\'
        invariant
            n == s@.len(),
            end <= n,
            forall|j: int| end <= j < n ==> s@[j] == '\\',
        decreases end,
    {
        end = end - 1;
    }
    proof {
        lemma_trim_sep_at(s@, end as int);
    }
    let trimmed = s.as_str().substring_char(0, end);
    String::from_str(trimmed)
}

/// A root key extended with a trailing backslash, unless it already ends in one.
pub open spec fn root_prefix(root_norm: Seq<char>) -> Seq<char> {
    if root_norm.len() > 0 && root_norm.last() == '\\' {
        root_norm
    } else {
        root_norm.push('\\')
    }
}

fn make_root_prefix(root_norm: &String) -> (r: String)
    ensures
        r@ == root_prefix(root_norm@),
{
    let n = root_norm.as_str().unicode_len();
    if n > 0 && root_norm.as_str().get_char(n - 1) == '\\' {
        root_norm.clone()
    } else {
        let mut p = root_norm.clone();
        p.push('\\');
        p
    }
}

/// A pattern occurs in `text` at offset `i`.
pub open spec fn has_substring_at(text: Seq<char>, pat: Seq<char>, i: int) -> bool {
    0 <= i && i + pat.len() <= text.len() && text.subrange(i, i + pat.len() as int) == pat
}

/// A pattern occurs somewhere in `text`.
pub open spec fn has_substring(text: Seq<char>, pat: Seq<char>) -> bool {
    exists|i: int| has_substring_at(text, pat, i)
}

#[verifier::loop_isolation(false)]
fn contains_substring(text: &String, pat: &str) -> (r: bool)
    ensures
        r == has_substring(text@, pat@),
{
    let tn = text.as_str().unicode_len();
    let pn = pat.unicode_len();
    if pn > tn {
        proof {
            assert(forall|i: int| !has_substring_at(text@, pat@, i));
        }
        return false;
    }
    let mut i: usize = 0;
    while i <= tn - pn
        invariant
            tn == text@.len(),
            pn == pat@.len(),
            pn <= tn,
            i <= tn - pn + 1,
            forall|k: int| 0 <= k < i ==> !has_substring_at(text@, pat@, k),
        decreases tn - i,
    {
        let mut j: usize = 0;
        let mut matched = true;
        while j < pn
            invariant
                tn == text@.len(),
                pn == pat@.len(),
                i + pn <= tn,
                j <= pn,
                matched == (forall|m: int| 0 <= m < j ==> text@[i + m] == pat@[m]),
            decreases pn - j,
        {
            if text.as_str().get_char(i + j) != pat.get_char(j) {
                matched = false;
                proof {
                    assert(!(forall|m: int| 0 <= m < j + 1 ==> text@[i + m] == pat@[m]));
                }
            }
            if !matched {
                j = pn;
            } else {
                j = j + 1;
            }
        }
        if matched {
            proof {
                assert(text@.subrange(i as int, i + pn as int) =~= pat@);
                assert(has_substring_at(text@, pat@, i as int));
            }
            return true;
        }
        i = i + 1;
    }
    proof {
        assert(forall|k: int| !has_substring_at(text@, pat@, k));
    }
    false
}

/// Some keyword occurs in the lowercased text.
pub open spec fn spec_contains_keyword(text: Seq<char>, keywords: Seq<Seq<char>>) -> bool {
    exists|i: int| 0 <= i < keywords.len() && has_substring(lower_of(text), keywords[i])
}

/// Whether the lowercased text contains any of the given keywords.
#[verifier::loop_isolation(false)]
pub fn contains_keyword(text: &str, keywords: &Vec<String>) -> (r: bool)
    ensures
        r == spec_contains_keyword(text@, keywords.deep_view()),
{
    let lowered = to_lowercase_str(text);
    let n = keywords.len();
    let mut i: usize = 0;
    while i < n
        invariant
            n == keywords@.len(),
            i <= n,
            lowered@ == lower_of(text@),
            forall|k: int| 0 <= k < i ==> !has_substring(lower_of(text@), keywords.deep_view()[k]),
        decreases n - i,
    {
        if contains_substring(&lowered, keywords[i].as_str()) {
            proof {
                assert(keywords.deep_view()[i as int] == keywords@[i as int]@);
            }
            return true;
        }
        i = i + 1;
    }
    false
}

/// The characters of "log".
pub open spec fn kw_log() -> Seq<char> {
    seq!['l', 'o', 'g']
}

/// The characters of "cache".
pub open spec fn kw_cache() -> Seq<char> {
    seq!['c', 'a', 'c', 'h', 'e']
}

/// The characters of "temp".
pub open spec fn kw_temp() -> Seq<char> {
    seq!['t', 'e', 'm', 'p']
}

/// The characters of "tmp".
pub open spec fn kw_tmp() -> Seq<char> {
    seq!['t', 'm', 'p']
}

/// The fixed keyword set of the large-item sweep.
pub open spec fn spec_suspicious_keywords() -> Seq<Seq<char>> {
    seq![kw_log(), kw_cache(), kw_temp(), kw_tmp()]
}

/// The keywords that mark a name or path as reclaimable-looking:
/// "log", "cache", "temp", "tmp".
pub fn suspicious_keywords() -> (r: Vec<String>)
    ensures
        r.deep_view() == spec_suspicious_keywords(),
{
    let mut v: Vec<String> = Vec::new();
    v.push(String::from_str("log"));
    v.push(String::from_str("cache"));
    v.push(String::from_str("temp"));
    v.push(String::from_str("tmp"));
    proof {
        reveal_strlit("log");
        reveal_strlit("cache");
        reveal_strlit("temp");
        reveal_strlit("tmp");
        assert(v.deep_view() =~~= spec_suspicious_keywords());
    }
    v
}

/// A path separator, in either style.
pub open spec fn is_sep(c: char) -> bool {
    c == '/' || c == '\\'
}

/// The index of the last separator of `s`, or -1 when none occurs.
pub open spec fn last_sep(s: Seq<char>) -> int
    decreases s.len(),
{
    if s.len() == 0 {
        -1
    } else if is_sep(s.last()) {
        s.len() - 1
    } else {
        last_sep(s.drop_last())
    }
}

proof fn lemma_last_sep(s: Seq<char>)
    ensures
        -1 <= last_sep(s) < s.len(),
        last_sep(s) >= 0 ==> is_sep(s[last_sep(s)]),
        forall|j: int| last_sep(s) < j < s.len() ==> !is_sep(s[j]),
    decreases s.len(),
{
    if s.len() == 0 {
    } else if is_sep(s.last()) {
    } else {
        lemma_last_sep(s.drop_last());
        assert forall|j: int| last_sep(s) < j < s.len() implies !is_sep(s[j]) by {
            if j < s.len() - 1 {
                assert(s.drop_last()[j] == s[j]);
            }
        }
    }
}

/// The final component of a path: everything after the last separator.
pub open spec fn spec_file_name(s: Seq<char>) -> Seq<char> {
    s.subrange(last_sep(s) + 1, s.len() as int)
}

/// The parent of a path: everything before the last separator, or nothing
/// when the path has no separator.
pub open spec fn spec_parent(s: Seq<char>) -> Option<Seq<char>> {
    if last_sep(s) >= 0 {
        Some(s.take(last_sep(s)))
    } else {
        None
    }
}

#[verifier::loop_isolation(false)]
fn find_last_sep(s: &String) -> (r: Option<usize>)
    ensures
        match r {
            Some(i) => last_sep(s@) == i && i < s@.len(),
            None => last_sep(s@) == -1,
        },
{
    proof {
        lemma_last_sep(s@);
    }
    let n = s.as_str().unicode_len();
    let mut i: usize = n;
    while i > 0
        invariant
            n == s@.len(),
            i <= n,
            forall|j: int| i <= j < n ==> !is_sep(s@[j]),
            last_sep(s@) < i,
        decreases i,
    {
        let c = s.as_str().get_char(i - 1);
        if c == '/' || c == '\\' {
            proof {
                lemma_last_sep_found(s@, i - 1);
            }
            return Some(i - 1);
        }
        i = i - 1;
    }
    None
}

proof fn lemma_last_sep_found(s: Seq<char>, i: int)
    requires
        0 <= i < s.len(),
        is_sep(s[i]),
        forall|j: int| i < j < s.len() ==> !is_sep(s[j]),
    ensures
        last_sep(s) == i,
    decreases s.len(),
{
    if i == s.len() - 1 {
    } else {
        lemma_last_sep_found(s.drop_last(), i);
    }
}

/// The final component of a path.
pub fn file_name_of(path: &String) -> (r: String)
    ensures
        r@ == spec_file_name(path@),
{
    let n = path.as_str().unicode_len();
    match find_last_sep(path) {
        Some(i) => {
            let part = path.as_str().substring_char(i + 1, n);
            String::from_str(part)
        },
        None => {
            proof {
                assert(spec_file_name(path@) =~= path@);
            }
            path.clone()
        },
    }
}

/// The parent of a path, when it has one.
pub fn parent_of(path: &String) -> (r: Option<String>)
    ensures
        match r {
            Some(p) => spec_parent(path@) == Some(p@),
            None => spec_parent(path@) is None,
        },
{
    match find_last_sep(path) {
        Some(i) => {
            let part = path.as_str().substring_char(0, i);
            Some(String::from_str(part))
        },
        None => None,
    }
}

/// The nearest ancestor directory, starting from `start` and walking upward,
/// whose own name contains a keyword; nothing when the climb reaches a path
/// without separators and its name matches no keyword either.
pub open spec fn spec_find_suspicious_dir(s: Seq<char>, keywords: Seq<Seq<char>>) -> Option<
    Seq<char>,
>
    decreases s.len(),
{
    if spec_contains_keyword(spec_file_name(s), keywords) {
        Some(s)
    } else {
        match spec_parent(s) {
            Some(p) => {
                if p.len() < s.len() {
                    spec_find_suspicious_dir(p, keywords)
                } else {
                    None
                }
            },
            None => None,
        }
    }
}

/// Climbs from `start` toward the root, returning the first directory whose
/// name contains one of the keywords.
#[verifier::loop_isolation(false)]
pub fn find_suspicious_dir(start: &String, keywords: &Vec<String>) -> (r: Option<String>)
    ensures
        match r {
            Some(d) => spec_find_suspicious_dir(start@, keywords.deep_view()) == Some(d@),
            None => spec_find_suspicious_dir(start@, keywords.deep_view()) is None,
        },
{
    let mut current = start.clone();
    loop
        invariant
            spec_find_suspicious_dir(start@, keywords.deep_view()) == spec_find_suspicious_dir(
                current@,
                keywords.deep_view(),
            ),
        decreases current@.len(),
    {
        let name = file_name_of(&current);
        if contains_keyword(name.as_str(), keywords) {
            return Some(current);
        }
        proof {
            lemma_last_sep(current@);
        }
        match parent_of(&current) {
            Some(p) => {
                current = p;
            },
            None => {
                return None;
            },
        }
    }
}

/// Containment of a path in the volume root: equality with the root key
/// (trailing backslashes ignored), or descent below it.
pub open spec fn spec_within_root(root: Seq<char>, root_is_file: bool, path: Seq<char>) -> bool {
    let rn = norm_of(root);
    let t = norm_of(path);
    if root_is_file {
        t == rn
    } else {
        let prefix = root_prefix(rn);
        t == trim_sep(prefix) || prefix.is_prefix_of(t)
    }
}

/// Whether `path` lies at or below `root`. A file root contains only itself;
/// a directory root contains itself and everything under it. The comparison
/// is case- and separator-insensitive.
pub fn is_within_root(root: &String, root_is_file: bool, path: &String) -> (r: bool)
    ensures
        r == spec_within_root(root@, root_is_file, path@),
{
    let rn = normalize_path(root);
    let t = normalize_path(path);
    if root_is_file {
        t == rn
    } else {
        let prefix = make_root_prefix(&rn);
        let trimmed = trim_trailing_backslashes(&prefix);
        t == trimmed || starts_with_prefix(&t, &prefix)
    }
}


/// Number of separator-delimited non-empty segments remaining, given whether
/// a segment is already underway.
pub open spec fn seg_count_rec(s: Seq<char>, in_seg: bool) -> nat
    decreases s.len(),
{
    if s.len() == 0 {
        0
    } else if is_sep(s[0]) {
        seg_count_rec(s.drop_first(), false)
    } else if in_seg {
        seg_count_rec(s.drop_first(), true)
    } else {
        1 + seg_count_rec(s.drop_first(), true)
    }
}

/// The number of non-empty components of a path; deletion of directory
/// chains orders by this, deepest first.
pub open spec fn component_count(s: Seq<char>) -> nat {
    seg_count_rec(s, false)
}

/// Counts the non-empty separator-delimited components of a path.
#[verifier::loop_isolation(false)]
pub fn count_components(path: &String) -> (r: usize)
    ensures
        r == component_count(path@),
{
    let n = path.as_str().unicode_len();
    let mut count: usize = 0;
    let mut in_seg = false;
    let mut i: usize = 0;
    proof {
        assert(path@.skip(0) =~= path@);
    }
    while i < n
        invariant
            n == path@.len(),
            i <= n,
            count <= i,
            component_count(path@) == count + seg_count_rec(path@.skip(i as int), in_seg),
        decreases n - i,
    {
        let c = path.as_str().get_char(i);
        proof {
            assert(path@.skip(i as int)[0] == path@[i as int]);
            assert(path@.skip(i as int).drop_first() =~= path@.skip(i + 1));
        }
        if c == '/' || c == '\\' {
            in_seg = false;
        } else {
            if !in_seg {
                count = count + 1;
            }
            in_seg = true;
        }
        i = i + 1;
    }
    proof {
        assert(path@.skip(n as int) =~= Seq::<char>::empty());
    }
    count
}

/// Whether some element of `v` is exactly the string `x`.
#[verifier::loop_isolation(false)]
pub fn contains_string(v: &Vec<String>, x: &String) -> (r: bool)
    ensures
        r == v.deep_view().contains(x@),
{
    let n = v.len();
    let mut i: usize = 0;
    while i < n
        invariant
            n == v@.len(),
            i <= n,
            forall|j: int| 0 <= j < i ==> v.deep_view()[j] != x@,
        decreases n - i,
    {
        proof {
            assert(v.deep_view()[i as int] == v@[i as int]@);
        }
        if v[i].eq(x) {
            return true;
        }
        i = i + 1;
    }
    false
}

/// Some earlier path in the list shares a comparison key with `p`.
pub open spec fn key_in(paths: Seq<Seq<char>>, p: Seq<char>) -> bool {
    exists|j: int| 0 <= j < paths.len() && norm_of(paths[j]) == norm_of(p)
}

/// The subsequence of `s` keeping the first path of each comparison key.
pub open spec fn spec_dedup(s: Seq<Seq<char>>) -> Seq<Seq<char>>
    decreases s.len(),
{
    if s.len() == 0 {
        s
    } else if key_in(s.drop_last(), s.last()) {
        spec_dedup(s.drop_last())
    } else {
        spec_dedup(s.drop_last()).push(s.last())
    }
}

/// Drops every path whose comparison key was already seen earlier in the
/// list, keeping first occurrences in order.
#[verifier::loop_isolation(false)]
pub fn dedup_paths(paths: Vec<String>) -> (r: Vec<String>)
    ensures
        r.deep_view() == spec_dedup(paths.deep_view()),
{
    let ghost pv = paths.deep_view();
    let n = paths.len();
    let mut out: Vec<String> = Vec::new();
    let mut seen: Vec<String> = Vec::new();
    let mut i: usize = 0;
    while i < n
        invariant
            n == paths@.len(),
            i <= n,
            pv == paths.deep_view(),
            out.deep_view() == spec_dedup(pv.take(i as int)),
            seen.deep_view() == out.deep_view().map_values(|q: Seq<char>| norm_of(q)),
            forall|p: Seq<char>|
                #[trigger] key_in(pv.take(i as int), p) == key_in(out.deep_view(), p),
        decreases n - i,
    {
        let ghost outdv = out.deep_view();
        let key = normalize_path(&paths[i]);
        proof {
            assert(pv[i as int] == paths@[i as int]@);
            assert(key_in(pv.take(i as int), pv[i as int]) == key_in(outdv, pv[i as int]));
            assert(pv.take(i + 1).drop_last() =~= pv.take(i as int));
        }
        let dup = contains_string(&seen, &key);
        proof {
            if dup {
                let j = choose|j: int| 0 <= j < seen.deep_view().len() && seen.deep_view()[j]
                    == key@;
                assert(norm_of(outdv[j]) == norm_of(pv[i as int]));
                assert(key_in(outdv, pv[i as int]));
            } else {
                if key_in(outdv, pv[i as int]) {
                    let j = choose|j: int|
                        0 <= j < outdv.len() && norm_of(outdv[j]) == norm_of(pv[i as int]);
                    assert(seen.deep_view()[j] == norm_of(outdv[j]));
                    assert(seen.deep_view().contains(key@));
                }
                assert(!key_in(outdv, pv[i as int]));
            }
        }
        if !dup {
            let ghost p_new = pv[i as int];
            let ghost seendv = seen.deep_view();
            let ghost key_view = key@;
            out.push(paths[i].clone());
            seen.push(key);
            proof {
                assert(out.deep_view() =~= outdv.push(p_new));
                assert(seen.deep_view() =~= seendv.push(key_view));
                assert(seen.deep_view() =~= out.deep_view().map_values(
                    |q: Seq<char>| norm_of(q),
                ));
            }
        }
        proof {
            let outdv1 = out.deep_view();
            let pvt1 = pv.take(i + 1);
            assert forall|p: Seq<char>| #[trigger] key_in(pvt1, p) == key_in(outdv1, p) by {
                if key_in(pvt1, p) {
                    let j = choose|j: int|
                        0 <= j < pvt1.len() && norm_of(pvt1[j]) == norm_of(p);
                    if j < i {
                        assert(pvt1[j] == pv.take(i as int)[j]);
                        assert(key_in(pv.take(i as int), p));
                        let m = choose|m: int|
                            0 <= m < outdv.len() && norm_of(outdv[m]) == norm_of(p);
                        assert(outdv1[m] == outdv[m]);
                        assert(key_in(outdv1, p));
                    } else {
                        assert(norm_of(pv[i as int]) == norm_of(p));
                        if dup {
                            let m = choose|m: int|
                                0 <= m < outdv.len() && norm_of(outdv[m]) == norm_of(
                                    pv[i as int],
                                );
                            assert(outdv1[m] == outdv[m]);
                            assert(key_in(outdv1, p));
                        } else {
                            assert(outdv1[outdv1.len() - 1] == pv[i as int]);
                            assert(key_in(outdv1, p));
                        }
                    }
                }
                if key_in(outdv1, p) {
                    let j = choose|j: int|
                        0 <= j < outdv1.len() && norm_of(outdv1[j]) == norm_of(p);
                    if j < outdv.len() {
                        assert(outdv1[j] == outdv[j]);
                        assert(key_in(outdv, p));
                        assert(key_in(pv.take(i as int), p));
                        let m = choose|m: int|
                            0 <= m < pv.take(i as int).len() && norm_of(pv.take(i as int)[m])
                                == norm_of(p);
                        assert(pvt1[m] == pv.take(i as int)[m]);
                        assert(key_in(pvt1, p));
                    } else {
                        assert(outdv1[j] == pv[i as int]);
                        assert(pvt1[i as int] == pv[i as int]);
                        assert(key_in(pvt1, p));
                    }
                }
            }
        }
        i = i + 1;
    }
    proof {
        assert(pv.take(n as int) =~= pv);
    }
    out
}

/// The comparison keys of a list of excluded paths.
#[verifier::loop_isolation(false)]
pub fn normalize_exclusions(exclusions: &Vec<String>) -> (r: Vec<String>)
    ensures
        r.deep_view() == exclusions.deep_view().map_values(|p: Seq<char>| norm_of(p)),
{
    let n = exclusions.len();
    let mut out: Vec<String> = Vec::new();
    let mut i: usize = 0;
    while i < n
        invariant
            n == exclusions@.len(),
            i <= n,
            out.deep_view() =~= exclusions.deep_view().take(i as int).map_values(
                |p: Seq<char>| norm_of(p),
            ),
        decreases n - i,
    {
        let key = normalize_path(&exclusions[i]);
        let ghost odv = out.deep_view();
        let ghost key_view = key@;
        out.push(key);
        proof {
            assert(out.deep_view() =~= odv.push(key_view));
            assert(key_view == norm_of(exclusions.deep_view()[i as int]));
            assert(exclusions.deep_view().take(i + 1) =~= exclusions.deep_view().take(
                i as int,
            ).push(exclusions.deep_view()[i as int]));
            assert(out.deep_view() =~= exclusions.deep_view().take(i + 1).map_values(
                |p: Seq<char>| norm_of(p),
            ));
        }
        i = i + 1;
    }
    proof {
        assert(exclusions.deep_view().take(n as int) =~= exclusions.deep_view());
    }
    out
}

/// A path joined to a further component, in the canonical separator style.
pub open spec fn spec_join(base: Seq<char>, name: Seq<char>) -> Seq<char> {
    if base.len() > 0 && is_sep(base.last()) {
        base + name
    } else {
        base.push('\\') + name
    }
}

/// Appends one component to a base path, inserting a backslash unless the
/// base already ends in a separator.
pub fn join_path(base: &String, name: &str) -> (r: String)
    ensures
        r@ == spec_join(base@, name@),
{
    let n = base.as_str().unicode_len();
    let mut out = base.clone();
    if n == 0 {
        out.push('\\');
    } else {
        let c = base.as_str().get_char(n - 1);
        if c != '/' && c != '\\' {
            out.push('\\');
        }
    }
    out.append(name);
    proof {
        if !(base@.len() > 0 && is_sep(base@.last())) {
            assert(base@.push('\\') + name@ =~= out@);
        }
    }
    out
}


/// Containment of a path in one category root: a file root contains only
/// itself; a directory root contains itself and everything below it.
pub open spec fn spec_root_contains(root: Seq<char>, root_is_file: bool, path: Seq<char>) -> bool {
    let rn = norm_of(root);
    let t = norm_of(path);
    if root_is_file {
        t == rn
    } else {
        t == rn || root_prefix(rn).is_prefix_of(t)
    }
}

/// Whether `path` is the root itself or lies below it, case- and
/// separator-insensitively.
pub fn root_contains(root: &String, root_is_file: bool, path: &String) -> (r: bool)
    ensures
        r == spec_root_contains(root@, root_is_file, path@),
{
    let rn = normalize_path(root);
    let t = normalize_path(path);
    if root_is_file {
        t == rn
    } else if t.eq(&rn) {
        true
    } else {
        let prefix = make_root_prefix(&rn);
        starts_with_prefix(&t, &prefix)
    }
}

} // verus!
