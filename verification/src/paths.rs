//! Relative image paths: the extension allow-list, and the path arithmetic
//! used to place copies, diff images and thumbnails in the report tree.
//!
//! A path is kept verbatim for display and file operations; only the file
//! extension is folded to lower case (ASCII) for the membership test.

use vstd::prelude::*;
use vstd::string::StrSliceExecFns;
use vstd::string::StringExecFns;

verus! {

/// The character code after folding an ASCII upper-case letter to lower case.
pub open spec fn lower_code(c: char) -> int {
    if 'A' as u32 <= c as u32 && c as u32 <= 'Z' as u32 {
        c as u32 + 32
    } else {
        c as u32 as int
    }
}

/// Two character sequences are equal up to ASCII case.
pub open spec fn matches_ci(s: Seq<char>, t: Seq<char>) -> bool {
    &&& s.len() == t.len()
    &&& forall|i: int| 0 <= i < s.len() ==> lower_code(s[i]) == lower_code(t[i])
}

/// The fixed allow-list of raster-image extensions, matched without regard
/// to ASCII case.
pub open spec fn is_image_extension(e: Seq<char>) -> bool {
    ||| matches_ci(e, "gif"@)
    ||| matches_ci(e, "jpg"@)
    ||| matches_ci(e, "jpeg"@)
    ||| matches_ci(e, "png"@)
    ||| matches_ci(e, "webp"@)
}

/// Compares two characters up to ASCII case.
pub fn chars_eq_ci(a: char, b: char) -> (r: bool)
    ensures
        r == (lower_code(a) == lower_code(b)),
{
    let ca: u32 = a as u32;
    let cb: u32 = b as u32;
    let la: u32 = if 65 <= ca && ca <= 90 {
        ca + 32
    } else {
        ca
    };
    let lb: u32 = if 65 <= cb && cb <= 90 {
        cb + 32
    } else {
        cb
    };
    la == lb
}

/// Compares the suffix of `s` that starts at character `from` with `t`,
/// up to ASCII case.
pub fn suffix_matches_ci(s: &str, from: usize, t: &str) -> (r: bool)
    requires
        from <= s@.len(),
    ensures
        r == matches_ci(s@.subrange(from as int, s@.len() as int), t@),
{
    let s_len: usize = s.unicode_len();
    let t_len: usize = t.unicode_len();
    if s_len - from != t_len {
        return false;
    }
    let mut i: usize = 0;
    while i < t_len
        invariant
            from + t_len == s_len,
            s_len == s@.len(),
            t_len == t@.len(),
            0 <= i <= t_len,
            forall|j: int| 0 <= j < i ==> lower_code(s@[from + j]) == lower_code(t@[j]),
        decreases t_len - i,
    {
        if !chars_eq_ci(s.get_char(from + i), t.get_char(i)) {
            return false;
        }
        i = i + 1;
    }
    assert(s@.subrange(from as int, s@.len() as int) =~= s@.skip(from as int));
    true
}

/// `i` is the position of the last occurrence of `c` in `s`.
pub open spec fn is_last_pos(s: Seq<char>, c: char, i: int) -> bool {
    &&& 0 <= i < s.len()
    &&& s[i] == c
    &&& forall|j: int| i < j < s.len() ==> s[j] != c
}

/// `s` contains the character `c`.
pub open spec fn has_char(s: Seq<char>, c: char) -> bool {
    exists|i: int| 0 <= i < s.len() && s[i] == c
}

/// The position of the last occurrence of `c` in `s` (meaningful only when
/// `has_char(s, c)`).
pub open spec fn last_pos(s: Seq<char>, c: char) -> int {
    choose|i: int| is_last_pos(s, c, i)
}

pub proof fn lemma_last_pos(s: Seq<char>, c: char, i: int)
    requires
        is_last_pos(s, c, i),
    ensures
        has_char(s, c),
        last_pos(s, c) == i,
{
    assert(has_char(s, c));
    let k = last_pos(s, c);
    assert(is_last_pos(s, c, k));
    if k < i {
        assert(s[i] == c);
        assert(false);
    } else if i < k {
        assert(s[k] == c);
        assert(false);
    }
}

/// Finds the position of the last occurrence of `c` in `s`.
pub fn find_last_char(s: &str, c: char) -> (r: Option<usize>)
    ensures
        match r {
            Some(i) => is_last_pos(s@, c, i as int) && has_char(s@, c) && last_pos(s@, c)
                == i as int,
            None => !has_char(s@, c),
        },
{
    let len: usize = s.unicode_len();
    let mut i: usize = len;
    while i > 0
        invariant
            len == s@.len(),
            0 <= i <= len,
            forall|j: int| i <= j < len ==> s@[j] != c,
        decreases i,
    {
        i = i - 1;
        if s.get_char(i) == c {
            proof {
                lemma_last_pos(s@, c, i as int);
            }
            return Some(i);
        }
    }
    None
}

/// The position where the file name of `s` begins: just after the last
/// path separator, or `0` when there is none.
pub open spec fn name_start(s: Seq<char>) -> int {
    if has_char(s, '/') {
        last_pos(s, '/') + 1
    } else {
        0
    }
}

/// `i` is the dot that begins the extension of `s`: the last dot of the
/// string, inside the file name but not as its first character (a leading
/// dot marks a hidden file, not an extension).
pub open spec fn is_ext_dot(s: Seq<char>, i: int) -> bool {
    &&& name_start(s) < i < s.len()
    &&& s[i] == '.'
    &&& forall|j: int| i < j < s.len() ==> s[j] != '.'
}

/// The path has an extension.
pub open spec fn has_ext(s: Seq<char>) -> bool {
    exists|i: int| is_ext_dot(s, i)
}

/// The position of the dot that begins the extension (meaningful only when
/// `has_ext(s)`).
pub open spec fn ext_dot(s: Seq<char>) -> int {
    choose|i: int| is_ext_dot(s, i)
}

pub proof fn lemma_ext_dot(s: Seq<char>, i: int)
    requires
        is_ext_dot(s, i),
    ensures
        has_ext(s),
        ext_dot(s) == i,
{
    assert(has_ext(s));
    let k = ext_dot(s);
    assert(is_ext_dot(s, k));
    if k < i {
        assert(s[i] == '.');
        assert(false);
    } else if i < k {
        assert(s[k] == '.');
        assert(false);
    }
}

/// The extension of `s`, without its dot (meaningful only when `has_ext(s)`).
pub open spec fn ext_of(s: Seq<char>) -> Seq<char> {
    s.subrange(ext_dot(s) + 1, s.len() as int)
}

/// Whether `s` names an image file: it has an extension on the fixed
/// allow-list, matched without regard to ASCII case.
pub open spec fn spec_is_image_path(s: Seq<char>) -> bool {
    has_ext(s) && is_image_extension(ext_of(s))
}

/// Finds the dot that begins the extension of `s`, if any.
pub fn find_ext_dot(s: &str) -> (r: Option<usize>)
    ensures
        match r {
            Some(i) => is_ext_dot(s@, i as int) && has_ext(s@) && ext_dot(s@) == i as int,
            None => !has_ext(s@),
        },
{
    let len: usize = s.unicode_len();
    let dot: Option<usize> = find_last_char(s, '.');
    let slash: Option<usize> = find_last_char(s, '/');
    match dot {
        None => {
            assert forall|i: int| !is_ext_dot(s@, i) by {}
            None
        },
        Some(d) => {
            let ns: usize = match slash {
                None => 0,
                Some(sl) => sl + 1,
            };
            if d >= ns && d != ns && d < len {
                proof {
                    lemma_ext_dot(s@, d as int);
                }
                Some(d)
            } else {
                proof {
                    assert forall|i: int| !is_ext_dot(s@, i) by {
                        if name_start(s@) < i < s@.len() && s@[i] == '.' {
                            assert(i <= d as int);
                        }
                    }
                }
                None
            }
        },
    }
}

/// The name of the thumbnail that stands beside an artifact: the path's
/// extension (dot included) replaced by `.sm.jpg`, or that suffix appended
/// when the path has no extension.
pub open spec fn spec_thumb_path(s: Seq<char>) -> Seq<char> {
    if has_ext(s) {
        s.subrange(0, ext_dot(s)) + ".sm.jpg"@
    } else {
        s + ".sm.jpg"@
    }
}

/// The file name of `s` without its extension.
pub open spec fn spec_stem(s: Seq<char>) -> Seq<char> {
    if has_ext(s) {
        s.subrange(name_start(s), ext_dot(s))
    } else {
        s.subrange(name_start(s), s.len() as int)
    }
}

/// Everything before the last path separator of `s`, or the empty path when
/// there is none.
pub open spec fn spec_parent(s: Seq<char>) -> Seq<char> {
    if has_char(s, '/') {
        s.subrange(0, last_pos(s, '/'))
    } else {
        Seq::<char>::empty()
    }
}

/// `a` and `b` joined by a path separator.
pub open spec fn spec_join(a: Seq<char>, b: Seq<char>) -> Seq<char> {
    a + "/"@ + b
}

/// Builds the thumbnail path for `p` (see `spec_thumb_path`).
pub fn thumb_path(p: &String) -> (r: String)
    ensures
        r@ == spec_thumb_path(p@),
{
    let s: &str = p.as_str();
    let mut out: String = match find_ext_dot(s) {
        None => p.clone(),
        Some(d) => {
            let prefix: &str = s.substring_char(0, d);
            String::from_str(prefix)
        },
    };
    out.append(".sm.jpg");
    out
}

/// Returns the file name of `p` without its extension (see `spec_stem`).
pub fn file_stem(p: &String) -> (r: String)
    ensures
        r@ == spec_stem(p@),
{
    let s: &str = p.as_str();
    let len: usize = s.unicode_len();
    let ns: usize = match find_last_char(s, '/') {
        None => 0,
        Some(sl) => sl + 1,
    };
    let end: usize = match find_ext_dot(s) {
        None => len,
        Some(d) => d,
    };
    assert(ns <= end) by {
        if has_ext(s@) {
            assert(is_ext_dot(s@, ext_dot(s@)));
        }
    }
    String::from_str(s.substring_char(ns, end))
}

/// Returns the parent of `p` (see `spec_parent`).
pub fn parent_path(p: &String) -> (r: String)
    ensures
        r@ == spec_parent(p@),
{
    let s: &str = p.as_str();
    match find_last_char(s, '/') {
        None => String::new(),
        Some(sl) => String::from_str(s.substring_char(0, sl)),
    }
}

/// Joins two paths with a separator (see `spec_join`).
pub fn join_path(a: &String, b: &String) -> (r: String)
    ensures
        r@ == spec_join(a@, b@),
{
    let mut out: String = a.clone();
    out.append("/");
    out.append(b.as_str());
    out
}

proof fn lemma_ci_keeps_mark(c1: char, c2: char, m: char)
    requires
        lower_code(c1) == lower_code(c2),
        (m as u32) < 65,
    ensures
        ((c1 == m) <==> (c2 == m)),
{
    if c1 == m {
        assert(lower_code(c1) == m as u32);
        assert(c2 as u32 == m as u32);
    }
    if c2 == m {
        assert(lower_code(c2) == m as u32);
        assert(c1 as u32 == m as u32);
    }
}

proof fn lemma_exists_last_pos(s: Seq<char>, c: char)
    requires
        has_char(s, c),
    ensures
        exists|i: int| is_last_pos(s, c, i),
    decreases s.len(),
{
    if s.last() == c {
        assert(is_last_pos(s, c, s.len() - 1));
    } else {
        assert(has_char(s.drop_last(), c)) by {
            let i = choose|i: int| 0 <= i < s.len() && s[i] == c;
            assert(s.drop_last()[i] == c);
        }
        lemma_exists_last_pos(s.drop_last(), c);
        let i = choose|i: int| is_last_pos(s.drop_last(), c, i);
        assert(is_last_pos(s, c, i)) by {
            assert(s[i] == s.drop_last()[i]);
            assert forall|j: int| i < j < s.len() implies s[j] != c by {
                if j < s.len() - 1 {
                    assert(s[j] == s.drop_last()[j]);
                }
            }
        }
    }
}

/// Indexing whether a path is an image file is insensitive to ASCII case:
/// two paths equal up to case fold are either both indexed or neither.
pub proof fn lemma_is_image_path_case_insensitive(s1: Seq<char>, s2: Seq<char>)
    requires
        s1.len() == s2.len(),
        forall|i: int| 0 <= i < s1.len() ==> lower_code(s1[i]) == lower_code(s2[i]),
    ensures
        spec_is_image_path(s1) == spec_is_image_path(s2),
{
    assert forall|i: int| 0 <= i < s1.len() implies (s1[i] == '/' <==> s2[i] == '/') && (s1[i]
        == '.' <==> s2[i] == '.') by {
        lemma_ci_keeps_mark(s1[i], s2[i], '/');
        lemma_ci_keeps_mark(s1[i], s2[i], '.');
    }
    assert(has_char(s1, '/') <==> has_char(s2, '/'));
    assert(name_start(s1) == name_start(s2)) by {
        if has_char(s1, '/') {
            lemma_exists_last_pos(s1, '/');
            let i = choose|i: int| is_last_pos(s1, '/', i);
            assert(is_last_pos(s2, '/', i));
            lemma_last_pos(s1, '/', i);
            lemma_last_pos(s2, '/', i);
        }
    }
    assert(name_start(s1) >= 0) by {
        if has_char(s1, '/') {
            lemma_exists_last_pos(s1, '/');
            let i = choose|i: int| is_last_pos(s1, '/', i);
            lemma_last_pos(s1, '/', i);
        }
    }
    assert forall|i: int| is_ext_dot(s1, i) implies is_ext_dot(s2, i) by {
        lemma_ci_keeps_mark(s1[i], s2[i], '.');
        assert(s2[i] == '.');
        assert forall|j: int| i < j < s2.len() implies s2[j] != '.' by {
            lemma_ci_keeps_mark(s1[j], s2[j], '.');
            assert(s1[j] != '.');
        }
    }
    assert forall|i: int| is_ext_dot(s2, i) implies is_ext_dot(s1, i) by {
        lemma_ci_keeps_mark(s1[i], s2[i], '.');
        assert(s1[i] == '.');
        assert forall|j: int| i < j < s1.len() implies s1[j] != '.' by {
            lemma_ci_keeps_mark(s1[j], s2[j], '.');
            assert(s2[j] != '.');
        }
    }
    assert(has_ext(s1) <==> has_ext(s2));
    if has_ext(s1) {
        let d = ext_dot(s1);
        assert(is_ext_dot(s1, d));
        assert(is_ext_dot(s2, d));
        lemma_ext_dot(s2, d);
        let e1 = ext_of(s1);
        let e2 = ext_of(s2);
        assert(e1.len() == e2.len());
        assert(forall|i: int| 0 <= i < e1.len() ==> lower_code(#[trigger] e1[i]) == lower_code(
            e2[i],
        ));
        assert(is_image_extension(e1) == is_image_extension(e2)) by {
            assert(matches_ci(e1, "gif"@) <==> matches_ci(e2, "gif"@));
            assert(matches_ci(e1, "jpg"@) <==> matches_ci(e2, "jpg"@));
            assert(matches_ci(e1, "jpeg"@) <==> matches_ci(e2, "jpeg"@));
            assert(matches_ci(e1, "png"@) <==> matches_ci(e2, "png"@));
            assert(matches_ci(e1, "webp"@) <==> matches_ci(e2, "webp"@));
        }
    }
}

/// Whether the path names an image file (see `spec_is_image_path`).
pub fn is_image_path(p: &String) -> (r: bool)
    ensures
        r == spec_is_image_path(p@),
{
    match find_ext_dot(p.as_str()) {
        None => false,
        Some(d) => {
            let s: &str = p.as_str();
            let len: usize = s.unicode_len();
            let from: usize = d + 1;
            suffix_matches_ci(s, from, "gif") || suffix_matches_ci(s, from, "jpg")
                || suffix_matches_ci(s, from, "jpeg") || suffix_matches_ci(s, from, "png")
                || suffix_matches_ci(s, from, "webp")
        },
    }
}

} // verus!
