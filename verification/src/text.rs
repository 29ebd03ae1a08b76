//! Character-level string helpers shared by the rest of the library.
//!
//! Strings are handled as `Vec<char>` / `Seq<char>` internally; `String`
//! values are produced at the edges with `string_of`.

use vstd::prelude::*;

verus! {

/// The views of a sequence of strings.
pub open spec fn views(v: Seq<String>) -> Seq<Seq<char>> {
    v.map_values(|s: String| s@)
}

/// The characters of `s`, in order.
pub fn chars_of(s: &str) -> (v: Vec<char>)
    ensures
        v@ == s@,
{
    let mut v: Vec<char> = Vec::new();
    for c in it: s.chars()
        invariant
            v@ == it.seq().take(it.index()),
    {
        v.push(c);
    }
    v
}

/// `String::from_iter` over chars: the string holding exactly `v`'s characters.
#[verifier::external_body]
pub(crate) fn string_of(v: &Vec<char>) -> (s: String)
    ensures
        s@ == v@,
{
    v.iter().collect()
}

/// An owned copy of `s`.
pub fn owned(s: &str) -> (r: String)
    ensures
        r@ == s@,
{
    let v = chars_of(s);
    string_of(&v)
}

/// Appends the characters of `s` to `v`.
pub fn push_str(v: &mut Vec<char>, s: &str)
    ensures
        final(v)@ == old(v)@ + s@,
{
    let ghost start = v@;
    for c in it: s.chars()
        invariant
            v@ == start + it.seq().take(it.index()),
    {
        v.push(c);
        proof {
            assert(it.seq().take(it.index() + 1) =~= it.seq().take(it.index()).push(c));
        }
    }
}


/// The decimal digit character for `d` (0..=9).
pub open spec fn digit(d: int) -> char {
    (d + 48) as char
}

/// Is `c` an ASCII decimal digit?
pub open spec fn is_digit(c: char) -> bool {
    '0' <= c && c <= '9'
}

/// The base-10 rendering of `n`, without sign or leading zeros (what
/// `Display` writes for an unsigned integer).
pub open spec fn decimal(n: nat) -> Seq<char>
    decreases n,
{
    if n < 10 {
        seq![digit(n as int)]
    } else {
        decimal(n / 10).push(digit((n % 10) as int))
    }
}

/// Appends the base-10 rendering of `n` to `v`.
pub fn push_decimal(v: &mut Vec<char>, n: u64)
    ensures
        final(v)@ == old(v)@ + decimal(n as nat),
    decreases n,
{
    if n >= 10 {
        push_decimal(v, n / 10);
    }
    let d: u8 = (n % 10) as u8;
    v.push((d + 48) as char);
}

/// Appends the base-10 rendering of `n` to `v`.
pub fn push_decimal_wide(v: &mut Vec<char>, n: u128)
    ensures
        final(v)@ == old(v)@ + decimal(n as nat),
    decreases n,
{
    if n >= 10 {
        push_decimal_wide(v, n / 10);
    }
    let d: u8 = (n % 10) as u8;
    v.push((d + 48) as char);
}

/// Do the two strings hold the same characters?
pub fn str_eq(a: &str, b: &str) -> (r: bool)
    ensures
        r == (a@ == b@),
{
    let x = chars_of(a);
    let y = chars_of(b);
    chars_eq(&x, &y)
}

/// Do the two character vectors hold the same characters?
pub fn chars_eq(x: &Vec<char>, y: &Vec<char>) -> (r: bool)
    ensures
        r == (x@ == y@),
{
    if x.len() != y.len() {
        return false;
    }
    let mut i: usize = 0;
    while i < x.len()
        invariant
            x.len() == y.len(),
            i <= x.len(),
            forall|j: int| 0 <= j < i ==> x@[j] == y@[j],
        decreases x.len() - i,
    {
        if x[i] != y[i] {
            return false;
        }
        i += 1;
    }
    assert(x@ =~= y@);
    true
}


/// The Unicode lowercase mapping of a string, as `str::to_lowercase` computes
/// it from Unicode's case tables.
pub uninterp spec fn lowercase(s: Seq<char>) -> Seq<char>;

/// `str::to_lowercase`. Its result is the Unicode lowercase mapping of `s`,
/// a function of `s` alone; the contract names it and states nothing of the
/// tables behind it.
#[verifier::external_body]
pub(crate) fn to_lowercase(s: &str) -> (r: String)
    ensures
        r@ == lowercase(s@),
{
    s.to_lowercase()
}


/// The characters `v[lo..hi]` as a new vector.
pub fn slice_chars(v: &Vec<char>, lo: usize, hi: usize) -> (r: Vec<char>)
    requires
        lo <= hi <= v.len(),
    ensures
        r@ == v@.subrange(lo as int, hi as int),
{
    let mut r: Vec<char> = Vec::new();
    let mut i = lo;
    while i < hi
        invariant
            lo <= i <= hi <= v.len(),
            r@ == v@.subrange(lo as int, i as int),
        decreases hi - i,
    {
        r.push(v[i]);
        proof {
            assert(v@.subrange(lo as int, i + 1) =~= v@.subrange(lo as int, i as int).push(v@[i as int]));
        }
        i += 1;
    }
    r
}

/// Appends the characters of `w` to `v`.
pub fn push_chars(v: &mut Vec<char>, w: &Vec<char>)
    ensures
        final(v)@ == old(v)@ + w@,
{
    let ghost start = v@;
    let mut i: usize = 0;
    while i < w.len()
        invariant
            i <= w.len(),
            v@ == start + w@.take(i as int),
        decreases w.len() - i,
    {
        v.push(w[i]);
        proof {
            assert(w@.take(i + 1) =~= w@.take(i as int).push(w@[i as int]));
        }
        i += 1;
    }
    assert(w@.take(w.len() as int) =~= w@);
}

/// Index of the last `c` in `s`, or -1 when there is none (`str::rfind`).
pub open spec fn rfind(s: Seq<char>, c: char) -> int
    decreases s.len(),
{
    if s.len() == 0 {
        -1
    } else if s.last() == c {
        s.len() - 1
    } else {
        rfind(s.drop_last(), c)
    }
}

/// What `rfind` gives back: an index of `c` with no `c` after it, or -1
/// when `c` does not occur.
pub proof fn lemma_rfind(s: Seq<char>, c: char)
    ensures
        -1 <= rfind(s, c) < s.len(),
        rfind(s, c) >= 0 ==> s[rfind(s, c)] == c,
        forall|j: int| rfind(s, c) < j < s.len() ==> s[j] != c,
    decreases s.len(),
{
    if s.len() > 0 && s.last() != c {
        lemma_rfind(s.drop_last(), c);
        assert forall|j: int| rfind(s, c) < j < s.len() implies s[j] != c by {
            if j < s.len() - 1 {
                assert(s.drop_last()[j] == s[j]);
            }
        }
    }
}

/// The position of the last `c` in `v`.
pub fn rfind_char(v: &Vec<char>, c: char) -> (r: Option<usize>)
    ensures
        match r {
            Some(i) => i as int == rfind(v@, c),
            None => rfind(v@, c) == -1,
        },
{
    let mut i = v.len();
    assert(v@.take(i as int) =~= v@);
    while i > 0
        invariant
            i <= v.len(),
            rfind(v@, c) == rfind(v@.take(i as int), c),
        decreases i,
    {
        if v[i - 1] == c {
            return Some(i - 1);
        }
        assert(v@.take(i as int).drop_last() =~= v@.take(i - 1));
        i -= 1;
    }
    None
}

/// Does `pat` occur in `s` at position `i`?
pub open spec fn occurs_at(s: Seq<char>, pat: Seq<char>, i: int) -> bool {
    0 <= i && i + pat.len() <= s.len() && s.subrange(i, i + pat.len()) == pat
}

/// The first position at or after `i` where `pat` occurs in `s`, or -1.
pub open spec fn find_from(s: Seq<char>, pat: Seq<char>, i: int) -> int
    decreases s.len() + 1 - i,
{
    if i < 0 || i + pat.len() > s.len() {
        -1
    } else if occurs_at(s, pat, i) {
        i
    } else {
        find_from(s, pat, i + 1)
    }
}

/// The first position of `pat` in `s`, or -1 (`str::find`).
pub open spec fn find(s: Seq<char>, pat: Seq<char>) -> int {
    find_from(s, pat, 0)
}

/// What `find_from` gives back: -1 or an occurrence at or after `i`.
pub proof fn lemma_find_from(s: Seq<char>, pat: Seq<char>, i: int)
    ensures
        find_from(s, pat, i) == -1 || (i <= find_from(s, pat, i) && occurs_at(
            s,
            pat,
            find_from(s, pat, i),
        )),
    decreases s.len() + 1 - i,
{
    if !(i < 0 || i + pat.len() > s.len()) && !occurs_at(s, pat, i) {
        lemma_find_from(s, pat, i + 1);
    }
}

/// Does `pat` occur in `v` at `i`?
pub fn occurs_at_exec(v: &Vec<char>, pat: &Vec<char>, i: usize) -> (r: bool)
    ensures
        r == occurs_at(v@, pat@, i as int),
{
    if i > v.len() || pat.len() > v.len() - i {
        return false;
    }
    let mut j: usize = 0;
    while j < pat.len()
        invariant
            i + pat.len() <= v.len(),
            j <= pat.len(),
            forall|k: int| 0 <= k < j ==> v@[i + k] == pat@[k],
        decreases pat.len() - j,
    {
        if v[i + j] != pat[j] {
            assert(v@.subrange(i as int, i + pat.len())[j as int] != pat@[j as int]);
            return false;
        }
        j += 1;
    }
    assert(v@.subrange(i as int, i + pat.len()) =~= pat@);
    true
}

/// The first position of `pat` in `v`.
pub fn find_chars(v: &Vec<char>, pat: &Vec<char>) -> (r: Option<usize>)
    ensures
        match r {
            Some(i) => i as int == find(v@, pat@),
            None => find(v@, pat@) == -1,
        },
{
    let mut i: usize = 0;
    while i <= v.len()
        invariant
            i <= v.len() + 1,
            find(v@, pat@) == find_from(v@, pat@, i as int),
        decreases v.len() + 1 - i,
    {
        if pat.len() > v.len() - i {
            return None;
        }
        if occurs_at_exec(v, pat, i) {
            return Some(i);
        }
        proof {
            if pat.len() == 0 {
                assert(v@.subrange(i as int, i as int) =~= pat@);
            }
        }
        i += 1;
    }
    None
}

/// Does `s` end with `suf`?
pub open spec fn ends_with(s: Seq<char>, suf: Seq<char>) -> bool {
    suf.len() <= s.len() && s.subrange(s.len() - suf.len(), s.len() as int) == suf
}

/// Does `s` start with `pre`?
pub open spec fn starts_with(s: Seq<char>, pre: Seq<char>) -> bool {
    pre.len() <= s.len() && s.subrange(0, pre.len() as int) == pre
}

/// `s` with `suf` taken off its end, when it ends with it (`str::strip_suffix`).
pub open spec fn without_suffix(s: Seq<char>, suf: Seq<char>) -> Seq<char> {
    s.subrange(0, s.len() - suf.len())
}

/// Does `v` end with `suf`?
pub fn ends_with_exec(v: &Vec<char>, suf: &str) -> (r: bool)
    ensures
        r == ends_with(v@, suf@),
{
    let p = chars_of(suf);
    if p.len() > v.len() {
        return false;
    }
    let r = occurs_at_exec(v, &p, v.len() - p.len());
    r
}

/// Does `v` start with `pre`?
pub fn starts_with_exec(v: &Vec<char>, pre: &str) -> (r: bool)
    ensures
        r == starts_with(v@, pre@),
{
    let p = chars_of(pre);
    occurs_at_exec(v, &p, 0)
}


/// Is `x` one of the strings in `v`?
pub fn contains_string(v: &Vec<String>, x: &String) -> (r: bool)
    ensures
        r == views(v@).contains(x@),
{
    let ghost m = views(v@);
    let mut j: usize = 0;
    while j < v.len()
        invariant
            j <= v.len(),
            m == views(v@),
            forall|t: int| 0 <= t < j ==> m[t] != x@,
        decreases v.len() - j,
    {
        if str_eq(v[j].as_str(), x.as_str()) {
            assert(m[j as int] == x@);
            return true;
        }
        j += 1;
    }
    false
}

/// Appends a copy of `s` to a list of strings.
pub fn push_arg(args: &mut Vec<String>, s: &str)
    ensures
        views(final(args)@) == views(old(args)@).push(s@),
{
    let ghost before = views(args@);
    args.push(owned(s));
    assert(views(args@) =~= before.push(s@));
}

/// Appends a string built from characters to a list of strings.
pub fn push_arg_chars(args: &mut Vec<String>, v: &Vec<char>)
    ensures
        views(final(args)@) == views(old(args)@).push(v@),
{
    let ghost before = views(args@);
    args.push(string_of(v));
    assert(views(args@) =~= before.push(v@));
}

/// The parent directory of a path as `Path::parent` gives it (None for a
/// root or an empty path), rendered with `to_string_lossy`.
pub uninterp spec fn path_parent(p: Seq<char>) -> Option<Seq<char>>;

/// A file name without its extension: the part before the final dot, or
/// the whole name when it has no dot or only a leading one.
pub open spec fn name_stem(n: Seq<char>) -> Seq<char> {
    let k = rfind(n, '.');
    if k <= 0 {
        n
    } else {
        n.subrange(0, k)
    }
}

/// A file name's extension: the part after the final dot; none when the
/// name has no dot or only a leading one.
pub open spec fn name_extension(n: Seq<char>) -> Option<Seq<char>> {
    let k = rfind(n, '.');
    if k <= 0 {
        None
    } else {
        Some(n.subrange(k + 1, n.len() as int))
    }
}

/// The file name of a path without its extension, as `Path::file_stem`
/// gives it: none without a file name.
pub open spec fn path_file_stem(p: Seq<char>) -> Option<Seq<char>> {
    match path_file_name(p) {
        Some(n) => Some(name_stem(n)),
        None => None,
    }
}

/// The extension of a path, as `Path::extension` gives it: none without a
/// file name.
pub open spec fn path_extension(p: Seq<char>) -> Option<Seq<char>> {
    match path_file_name(p) {
        Some(n) => name_extension(n),
        None => None,
    }
}

/// `Path::parent`, rendered as a string. What the parent is — the path's
/// components less the last — is std's path grammar; the contract names it.
#[verifier::external_body]
pub(crate) fn parent_of(p: &str) -> (r: Option<String>)
    ensures
        r.is_some() == path_parent(p@).is_some(),
        r matches Some(d) ==> d@ == path_parent(p@).unwrap(),
{
    std::path::Path::new(p).parent().map(|d| d.to_string_lossy().to_string())
}

/// The last component of a path, as `Path::file_name` gives it.
pub uninterp spec fn path_file_name(p: Seq<char>) -> Option<Seq<char>>;

/// `Path::file_name`. What the last component is (none for a path ending in
/// "..") is std's path grammar; the contract names it.
#[verifier::external_body]
pub(crate) fn file_name_of(p: &str) -> (r: Option<String>)
    ensures
        r.is_some() == path_file_name(p@).is_some(),
        r matches Some(s) ==> s@ == path_file_name(p@).unwrap(),
{
    std::path::Path::new(p).file_name().and_then(|s| s.to_str()).map(|s| s.to_string())
}

/// `Path::file_stem`: the file name up to its final dot, or the whole name
/// when it has no dot or only a leading one (as std documents it); which
/// component is the file name is left to `path_file_name`.
#[verifier::external_body]
pub(crate) fn file_stem_of(p: &str) -> (r: Option<String>)
    ensures
        r.is_some() == path_file_stem(p@).is_some(),
        r matches Some(s) ==> s@ == path_file_stem(p@).unwrap(),
{
    std::path::Path::new(p).file_stem().and_then(|s| s.to_str()).map(|s| s.to_string())
}

/// `Path::extension`: the file name after its final dot; none when the name
/// has no dot or only a leading one (as std documents it); which
/// component is the file name is left to `path_file_name`.
#[verifier::external_body]
pub(crate) fn extension_of(p: &str) -> (r: Option<String>)
    ensures
        r.is_some() == path_extension(p@).is_some(),
        r matches Some(s) ==> s@ == path_extension(p@).unwrap(),
{
    std::path::Path::new(p).extension().and_then(|s| s.to_str()).map(|s| s.to_string())
}

/// Does `c` have the Unicode White_Space property (`char::is_whitespace`)?
pub open spec fn is_white(c: char) -> bool {
    ('\t' <= c && c <= '\r') || c == ' ' || c == '\u{85}' || c == '\u{a0}' || c == '\u{1680}' || (
    '\u{2000}' <= c && c <= '\u{200a}') || c == '\u{2028}' || c == '\u{2029}' || c == '\u{202f}'
        || c == '\u{205f}' || c == '\u{3000}'
}

/// `char::is_whitespace`.
pub fn is_white_exec(c: char) -> (r: bool)
    ensures
        r == is_white(c),
{
    ('\t' <= c && c <= '\r') || c == ' ' || c == '\u{85}' || c == '\u{a0}' || c == '\u{1680}' || (
    '\u{2000}' <= c && c <= '\u{200a}') || c == '\u{2028}' || c == '\u{2029}' || c == '\u{202f}'
        || c == '\u{205f}' || c == '\u{3000}'
}

/// `s` without its leading whitespace.
pub open spec fn trim_start(s: Seq<char>) -> Seq<char>
    decreases s.len(),
{
    if s.len() > 0 && is_white(s[0]) {
        trim_start(s.drop_first())
    } else {
        s
    }
}

/// `s` without its trailing whitespace.
pub open spec fn trim_end(s: Seq<char>) -> Seq<char>
    decreases s.len(),
{
    if s.len() > 0 && is_white(s.last()) {
        trim_end(s.drop_last())
    } else {
        s
    }
}

/// `s` without leading and trailing whitespace (`str::trim`).
pub open spec fn trimmed(s: Seq<char>) -> Seq<char> {
    trim_end(trim_start(s))
}

/// `str::trim` on characters.
pub fn trim_chars(v: &Vec<char>) -> (r: Vec<char>)
    ensures
        r@ == trimmed(v@),
{
    let mut lo: usize = 0;
    assert(v@.subrange(0, v.len() as int) =~= v@);
    while lo < v.len() && is_white_exec(v[lo])
        invariant
            lo <= v.len(),
            trim_start(v@) == trim_start(v@.subrange(lo as int, v.len() as int)),
        decreases v.len() - lo,
    {
        assert(v@.subrange(lo + 1, v.len() as int) =~= v@.subrange(lo as int, v.len() as int).drop_first());
        lo += 1;
    }
    assert(trim_start(v@) == v@.subrange(lo as int, v.len() as int));
    let mut hi: usize = v.len();
    while hi > lo && is_white_exec(v[hi - 1])
        invariant
            lo <= hi <= v.len(),
            trim_end(v@.subrange(lo as int, hi as int)) == trimmed(v@),
        decreases hi,
    {
        assert(v@.subrange(lo as int, hi - 1) =~= v@.subrange(lo as int, hi as int).drop_last());
        hi -= 1;
    }
    assert(trim_end(v@.subrange(lo as int, hi as int)) == v@.subrange(lo as int, hi as int));
    slice_chars(v, lo, hi)
}

/// Does path `p` start with path `base`, whole component by whole
/// component (`Path::starts_with`)?
pub uninterp spec fn path_has_prefix(p: Seq<char>, base: Seq<char>) -> bool;

/// `Path::starts_with`. How paths split into components is std's path
/// grammar; the contract names the answer.
#[verifier::external_body]
pub(crate) fn path_starts_with(p: &str, base: &str) -> (r: bool)
    ensures
        r == path_has_prefix(p@, base@),
{
    std::path::Path::new(p).starts_with(base)
}

/// `base` joined with the relative path `name`, as `Path::join` gives it.
pub uninterp spec fn path_join(base: Seq<char>, name: Seq<char>) -> Seq<char>;

/// `Path::join`, rendered as a string. How the two are put together (a
/// separator added unless `base` ends in one; an absolute `name` replaces
/// `base`) is std's path grammar; the contract names it.
#[verifier::external_body]
pub(crate) fn join_path(base: &str, name: &str) -> (r: String)
    ensures
        r@ == path_join(base@, name@),
{
    std::path::Path::new(base).join(name).to_string_lossy().to_string()
}

/// `parts` joined with `sep` between them.
pub open spec fn join(parts: Seq<Seq<char>>, sep: Seq<char>) -> Seq<char>
    decreases parts.len(),
{
    if parts.len() == 0 {
        Seq::empty()
    } else if parts.len() == 1 {
        parts[0]
    } else {
        join(parts.drop_last(), sep) + sep + parts.last()
    }
}

/// `parts` joined with `sep`.
pub fn join_chars(parts: &Vec<Vec<char>>, sep: &str) -> (r: Vec<char>)
    ensures
        r@ == join(parts@.map_values(|p: Vec<char>| p@), sep@),
{
    let ghost m = parts@.map_values(|p: Vec<char>| p@);
    let mut out: Vec<char> = Vec::new();
    let mut i: usize = 0;
    while i < parts.len()
        invariant
            i <= parts.len(),
            m == parts@.map_values(|p: Vec<char>| p@),
            out@ == join(m.take(i as int), sep@),
        decreases parts.len() - i,
    {
        if i > 0 {
            push_str(&mut out, sep);
        }
        push_chars(&mut out, &parts[i]);
        proof {
            let t = m.take(i + 1);
            assert(t.drop_last() =~= m.take(i as int));
            assert(t.last() == parts@[i as int]@);
            if i == 0 {
                assert(out@ =~= join(t, sep@));
            } else {
                assert(out@ =~= join(t, sep@));
            }
        }
        i += 1;
    }
    assert(m.take(i as int) =~= m);
    out
}

} // verus!
