//! Character classes and small string operations shared by the whole crate:
//! whitespace trimming, blank tests, path joining and comma normalization.

use vstd::prelude::*;

verus! {

pub assume_specification [ String::push ](s: &mut String, c: char)
    ensures
        final(s)@ == old(s)@.push(c),
;

pub assume_specification [ <str as PartialEq>::eq ](s: &str, other: &str) -> (r: bool)
    ensures
        r == (s@ == other@),
;

/// Content equality of two string slices.
pub fn str_eq(a: &str, b: &str) -> (r: bool)
    ensures
        r == (a@ == b@),
{
    a.eq(b)
}

/// True for exactly the characters with the Unicode `White_Space` property,
/// the set `str::trim_end` and `char::is_whitespace` go by.
pub open spec fn spec_is_whitespace(c: char) -> bool {
    c == ' ' || ('\u{0009}' <= c && c <= '\u{000d}') || c == '\u{0085}' || c == '\u{00a0}'
        || c == '\u{1680}' || ('\u{2000}' <= c && c <= '\u{200a}') || c == '\u{2028}'
        || c == '\u{2029}' || c == '\u{202f}' || c == '\u{205f}' || c == '\u{3000}'
}

pub fn is_whitespace_char(c: char) -> (r: bool)
    ensures
        r == spec_is_whitespace(c),
{
    c == ' ' || ('\u{0009}' <= c && c <= '\u{000d}') || c == '\u{0085}' || c == '\u{00a0}'
        || c == '\u{1680}' || ('\u{2000}' <= c && c <= '\u{200a}') || c == '\u{2028}'
        || c == '\u{2029}' || c == '\u{202f}' || c == '\u{205f}' || c == '\u{3000}'
}

/// The sequence with every trailing whitespace character removed.
pub open spec fn spec_trim_end(s: Seq<char>) -> Seq<char>
    decreases s.len(),
{
    if s.len() == 0 {
        s
    } else if spec_is_whitespace(s[s.len() - 1]) {
        spec_trim_end(s.drop_last())
    } else {
        s
    }
}

/// True when every character of `s` is whitespace (an empty sequence is blank).
pub open spec fn spec_is_blank(s: Seq<char>) -> bool {
    forall|i: int| 0 <= i < s.len() ==> spec_is_whitespace(s[i])
}

proof fn lemma_trim_end_prefix(s: Seq<char>, n: int)
    requires
        0 <= n <= s.len(),
        forall|i: int| n <= i < s.len() ==> spec_is_whitespace(s[i]),
        n == 0 || !spec_is_whitespace(s[n - 1]),
    ensures
        spec_trim_end(s) == s.subrange(0, n),
    decreases s.len(),
{
    if s.len() == 0 {
        assert(s.subrange(0, 0) =~= s);
    } else if n == s.len() {
        assert(s.subrange(0, s.len() as int) =~= s);
    } else {
        assert(spec_is_whitespace(s[s.len() - 1]));
        lemma_trim_end_prefix(s.drop_last(), n);
        assert(s.drop_last().subrange(0, n) =~= s.subrange(0, n));
    }
}

/// `str::trim_end`, written out: drops every trailing whitespace character.
pub fn trim_end_str(s: &str) -> (r: String)
    ensures
        r@ == spec_trim_end(s@),
{
    let len = s.unicode_len();
    let mut end: usize = len;
    while end > 0 && is_whitespace_char(s.get_char(end - 1))
        invariant
            end <= len,
            len == s@.len(),
            forall|i: int| end <= i < s@.len() ==> spec_is_whitespace(s@[i]),
        decreases end,
    {
        end = end - 1;
    }
    proof {
        lemma_trim_end_prefix(s@, end as int);
    }
    s.substring_char(0, end).to_owned()
}

/// True when `s` is empty or all whitespace, as `s.trim().is_empty()` reports.
pub fn is_blank_str(s: &str) -> (r: bool)
    ensures
        r == spec_is_blank(s@),
{
    let len = s.unicode_len();
    let mut i: usize = 0;
    while i < len
        invariant
            i <= len,
            len == s@.len(),
            forall|j: int| 0 <= j < i ==> spec_is_whitespace(s@[j]),
        decreases len - i,
    {
        if !is_whitespace_char(s.get_char(i)) {
            return false;
        }
        i = i + 1;
    }
    true
}

/// `s` with every `,` replaced by `.`, the normalization applied before the
/// second floating-point parse attempt of cell coercion.
pub open spec fn spec_commas_to_dots(s: Seq<char>) -> Seq<char> {
    s.map_values(|c: char| if c == ',' { '.' } else { c })
}

pub fn commas_to_dots(s: &str) -> (r: String)
    ensures
        r@ == spec_commas_to_dots(s@),
{
    let len = s.unicode_len();
    let mut out = String::new();
    let mut i: usize = 0;
    while i < len
        invariant
            i <= len,
            len == s@.len(),
            out@ =~= spec_commas_to_dots(s@.subrange(0, i as int)),
        decreases len - i,
    {
        let c = s.get_char(i);
        if c == ',' {
            out.push('.');
        } else {
            out.push(c);
        }
        i = i + 1;
        proof {
            assert(s@.subrange(0, i as int) =~= s@.subrange(0, i - 1).push(s@[i - 1]));
        }
    }
    proof {
        assert(s@.subrange(0, len as int) =~= s@);
    }
    out
}

/// The string holding exactly the given characters.
pub fn string_from_chars(v: &Vec<char>) -> (r: String)
    ensures
        r@ == v@,
{
    let n = v.len();
    let mut out = String::new();
    let mut i: usize = 0;
    while i < n
        invariant
            i <= n,
            n == v@.len(),
            out@ =~= v@.subrange(0, i as int),
        decreases n - i,
    {
        out.push(v[i]);
        i = i + 1;
        proof {
            assert(v@.subrange(0, i as int) =~= v@.subrange(0, i - 1).push(v@[i - 1]));
        }
    }
    proof {
        assert(v@.subrange(0, n as int) =~= v@);
    }
    out
}

/// Joins a directory and a file name with `/`; an empty directory leaves the
/// name untouched.
pub fn join_path(dir: &str, name: &str) -> (r: String)
    ensures
        dir@.len() == 0 ==> r@ == name@,
        dir@.len() > 0 ==> r@ == dir@ + "/"@ + name@,
{
    if dir.unicode_len() == 0 {
        name.to_owned()
    } else {
        let mut out = dir.to_owned();
        out.append("/");
        out.append(name);
        out
    }
}

/// Index of the last occurrence of `c` in `s`, if any.
pub open spec fn spec_rfind(s: Seq<char>, c: char) -> Option<int>
    decreases s.len(),
{
    if s.len() == 0 {
        None
    } else if s.last() == c {
        Some(s.len() - 1)
    } else {
        spec_rfind(s.drop_last(), c)
    }
}

proof fn lemma_rfind_at(s: Seq<char>, c: char, p: int)
    requires
        0 <= p < s.len(),
        s[p] == c,
        forall|j: int| p < j < s.len() ==> s[j] != c,
    ensures
        spec_rfind(s, c) == Some(p),
    decreases s.len(),
{
    if p < s.len() - 1 {
        lemma_rfind_at(s.drop_last(), c, p);
    }
}

proof fn lemma_rfind_none(s: Seq<char>, c: char)
    requires
        forall|j: int| 0 <= j < s.len() ==> s[j] != c,
    ensures
        spec_rfind(s, c) is None,
    decreases s.len(),
{
    if s.len() > 0 {
        lemma_rfind_none(s.drop_last(), c);
    }
}

/// The part of a path after its last `/`; the whole path when it has none.
pub open spec fn spec_basename(s: Seq<char>) -> Seq<char> {
    match spec_rfind(s, '/') {
        Some(i) => s.subrange(i + 1, s.len() as int),
        None => s,
    }
}

/// The extension of a file name, as `Path::extension` reads it: what
/// follows the last `.` of the base name, unless that dot starts the name.
pub open spec fn spec_extension(s: Seq<char>) -> Option<Seq<char>> {
    let b = spec_basename(s);
    match spec_rfind(b, '.') {
        None => None,
        Some(i) => if i == 0 {
            None
        } else {
            Some(b.subrange(i + 1, b.len() as int))
        },
    }
}

/// The extension of `name`, if it has one.
#[verifier::loop_isolation(false)]
pub fn extension_of(name: &str) -> (r: Option<String>)
    ensures
        r is Some <==> spec_extension(name@) is Some,
        r matches Some(e) ==> spec_extension(name@) == Some(e@),
{
    let len = name.unicode_len();
    // last '/' bounds the base name
    let mut start: usize = len;
    let mut i: usize = len;
    while i > 0
        invariant
            i <= len,
            start == len,
            forall|j: int| i <= j < len ==> name@[j] != '/',
        decreases i,
    {
        if name.get_char(i - 1) == '/' {
            break;
        }
        i = i - 1;
    }
    let base_start = i;
    let ghost b = spec_basename(name@);
    proof {
        if base_start > 0 {
            lemma_rfind_at(name@, '/', base_start - 1);
        } else {
            lemma_rfind_none(name@, '/');
        }
        assert(b =~= name@.subrange(base_start as int, len as int));
    }
    // last '.' within the base name
    let mut k: usize = len;
    while k > base_start
        invariant
            base_start <= k <= len,
            forall|j: int| k <= j < len ==> name@[j] != '.',
        decreases k,
    {
        if name.get_char(k - 1) == '.' {
            break;
        }
        k = k - 1;
    }
    if k == base_start {
        // no dot in the base name
        proof {
            assert forall|j: int| 0 <= j < b.len() implies b[j] != '.' by {
                assert(b[j] == name@[base_start + j]);
            }
            lemma_rfind_none(b, '.');
        }
        return None;
    }
    let dot = k - 1;
    proof {
        assert(b[dot - base_start] == name@[dot as int]);
        assert forall|j: int| dot - base_start < j < b.len() implies b[j] != '.' by {
            assert(b[j] == name@[base_start + j]);
        }
        lemma_rfind_at(b, '.', dot - base_start);
    }
    if dot == base_start {
        // a leading dot names a hidden file, not an extension
        return None;
    }
    let ext = name.substring_char(dot + 1, len).to_owned();
    proof {
        assert(b.subrange(dot - base_start + 1, b.len() as int) =~= name@.subrange(
            dot + 1,
            len as int,
        ));
    }
    Some(ext)
}

} // verus!
