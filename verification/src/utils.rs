//! Small helpers: the word-count rounding rule and relative-path handling.

use vstd::prelude::*;

use crate::text::{chars_of, str_eq, string_of, subrange_vec};

verus! {

/// The editorial rounding rule: counts above 17,500 words are rounded up to
/// the next multiple of 500, counts of at most 100 words are reported exactly,
/// and everything in between is rounded up to the next multiple of 100.
/// A count already on a boundary is bumped to the next one.
pub open spec fn round_up_spec(wc: int) -> int {
    if wc > 17500 {
        (wc + 500) - ((wc + 500) % 500)
    } else if wc <= 100 {
        wc
    } else {
        (wc + 100) - ((wc + 100) % 100)
    }
}

/// Round a raw word count for editorial display.
pub fn round_up(wc: usize) -> (r: usize)
    requires
        wc + 500 <= usize::MAX,
    ensures
        r == round_up_spec(wc as int),
{
    let mut wc = wc;
    if wc > 17500 {
        wc = wc + 500;
        wc = wc - wc % 500;
        return wc;
    } else if wc <= 100 {
        return wc;
    }
    wc = wc + 100;
    wc = wc - wc % 100;
    wc
}

/// Relies on `std::path::Path::is_file`: whether the path names an existing
/// regular file; the answer depends on the state of the filesystem.
#[verifier::external_body]
fn path_is_file(p: &str) -> bool {
    std::path::Path::new(p).is_file()
}

/// Whether the given path names an existing file on the filesystem.
pub fn file_exists(filename: &str) -> bool {
    path_is_file(filename)
}

/// The text with every occurrence of the (non-empty) pattern removed,
/// scanning left to right over non-overlapping occurrences; an empty pattern
/// removes nothing.
pub open spec fn remove_pattern_spec(s: Seq<char>, pat: Seq<char>) -> Seq<char>
    decreases s.len(),
{
    if pat.len() == 0 {
        s
    } else if s.len() == 0 {
        Seq::empty()
    } else if s.len() >= pat.len() && s.subrange(0, pat.len() as int) == pat {
        remove_pattern_spec(s.skip(pat.len() as int), pat)
    } else {
        seq![s[0]] + remove_pattern_spec(s.skip(1), pat)
    }
}

/// The text with every leading `/` removed.
pub open spec fn trim_start_slashes_spec(s: Seq<char>) -> Seq<char>
    decreases s.len(),
{
    if s.len() > 0 && s[0] == '/' {
        trim_start_slashes_spec(s.drop_first())
    } else {
        s
    }
}

/// The position of the last `/` strictly before position `i`, if any.
pub open spec fn last_slash_before(s: Seq<char>, i: int) -> Option<int>
    decreases i,
{
    if i <= 0 || i > s.len() {
        None
    } else if s[i - 1] == '/' {
        Some(i - 1)
    } else {
        last_slash_before(s, i - 1)
    }
}

/// The final path component: what follows the last `/`, or the whole path
/// when it holds none.
pub open spec fn file_name_spec(s: Seq<char>) -> Seq<char> {
    match last_slash_before(s, s.len() as int) {
        Some(j) => s.skip(j + 1),
        None => s,
    }
}

/// The directory part of a path: what precedes the last `/`, or nothing when
/// the path holds none.
pub open spec fn parent_dir_spec(s: Seq<char>) -> Seq<char> {
    match last_slash_before(s, s.len() as int) {
        Some(j) => s.take(j),
        None => Seq::empty(),
    }
}

/// The position of the last `.` strictly before position `i`, if any.
pub open spec fn last_dot_before(s: Seq<char>, i: int) -> Option<int>
    decreases i,
{
    if i <= 0 || i > s.len() {
        None
    } else if s[i - 1] == '.' {
        Some(i - 1)
    } else {
        last_dot_before(s, i - 1)
    }
}

/// The extension of a path: what follows the last `.` of its final
/// component; a component without a dot, or whose only dot leads it (a
/// hidden file), has none.
pub open spec fn extension_spec(s: Seq<char>) -> Option<Seq<char>> {
    let name = file_name_spec(s);
    match last_dot_before(name, name.len() as int) {
        Some(j) => if j > 0 {
            Some(name.skip(j + 1))
        } else {
            None
        },
        None => None,
    }
}

/// Whether the path carries the Markdown file extension `md` — the sole
/// markdown-detection rule, case-sensitive.
pub open spec fn is_markdown_spec(s: Seq<char>) -> bool {
    extension_spec(s) == Some("md"@)
}

/// The position of the last `.` in the given characters, if any.
fn find_last_dot(v: &Vec<char>) -> (r: Option<usize>)
    ensures
        match r {
            Some(j) => last_dot_before(v@, v@.len() as int) == Some(j as int) && j < v@.len(),
            None => last_dot_before(v@, v@.len() as int) is None,
        },
{
    let n = v.len();
    let mut i: usize = n;
    while i > 0
        invariant
            i <= n,
            n == v@.len(),
            last_dot_before(v@, n as int) == last_dot_before(v@, i as int),
        decreases i,
    {
        if v[i - 1] == '.' {
            return Some(i - 1);
        }
        i = i - 1;
    }
    None
}

/// Determine if the file is Markdown, based on extension.
pub fn is_markdown(path: &str) -> (r: bool)
    ensures
        r == is_markdown_spec(path@),
{
    let v = chars_of(path);
    let n = v.len();
    let name_start: usize = match find_last_slash(&v) {
        Some(j) => j + 1,
        None => 0,
    };
    let name = subrange_vec(&v, name_start, n);
    proof {
        match last_slash_before(v@, v@.len() as int) {
            Some(j) => {
                assert(v@.subrange(j + 1, n as int) =~= v@.skip(j + 1));
            },
            None => {
                assert(v@.subrange(0, n as int) =~= v@);
            },
        }
        assert(name@ == file_name_spec(v@));
    }
    let m = name.len();
    match find_last_dot(&name) {
        Some(j) => {
            if j == 0 {
                return false;
            }
            proof {
                reveal_strlit("md");
            }
            if m - j - 1 == 2 && name[j + 1] == 'm' && name[j + 2] == 'd' {
                proof {
                    assert(name@.skip(j + 1) =~= "md"@);
                }
                true
            } else {
                proof {
                    if m - j - 1 == 2 {
                        assert(name@.skip(j + 1)[0] == name@[j + 1]);
                        assert(name@.skip(j + 1)[1] == name@[j + 2]);
                    } else {
                        assert(name@.skip(j + 1).len() != "md"@.len());
                    }
                    assert(name@.skip(j + 1) != "md"@);
                }
                false
            }
        },
        None => false,
    }
}

/// The position of the last `/` in the given characters, if any.
fn find_last_slash(v: &Vec<char>) -> (r: Option<usize>)
    ensures
        match r {
            Some(j) => last_slash_before(v@, v@.len() as int) == Some(j as int) && j < v@.len(),
            None => last_slash_before(v@, v@.len() as int) is None,
        },
{
    let n = v.len();
    let mut i: usize = n;
    while i > 0
        invariant
            i <= n,
            n == v@.len(),
            last_slash_before(v@, n as int) == last_slash_before(v@, i as int),
        decreases i,
    {
        if v[i - 1] == '/' {
            return Some(i - 1);
        }
        i = i - 1;
    }
    None
}

/// Whether the pattern occurs in the text at position `i`.
fn occurs_at(v: &Vec<char>, pat: &Vec<char>, i: usize) -> (r: bool)
    requires
        i <= v@.len(),
    ensures
        r == (i + pat@.len() <= v@.len() && v@.subrange(
            i as int,
            i as int + pat@.len() as int,
        ) == pat@),
{
    let m = pat.len();
    let nv = v.len();
    if nv - i < m {
        return false;
    }
    let mut k: usize = 0;
    while k < m
        invariant
            k <= m,
            m == pat@.len(),
            i + m <= nv,
            nv == v@.len(),
            forall|j: int| 0 <= j < k ==> v@[i + j] == pat@[j],
        decreases m - k,
    {
        if v[i + k] != pat[k] {
            proof {
                assert(v@.subrange(i as int, i as int + m as int)[k as int] != pat@[k as int]);
            }
            return false;
        }
        k = k + 1;
    }
    proof {
        assert(v@.subrange(i as int, i as int + m as int) =~= pat@);
    }
    true
}

/// Remove every occurrence of the pattern from the text.
fn remove_pattern(v: &Vec<char>, pat: &Vec<char>) -> (r: Vec<char>)
    ensures
        r@ == remove_pattern_spec(v@, pat@),
{
    let n = v.len();
    let m = pat.len();
    if m == 0 {
        let r = subrange_vec(v, 0, n);
        proof {
            assert(v@.subrange(0, n as int) =~= v@);
        }
        return r;
    }
    let mut r: Vec<char> = Vec::new();
    let mut i: usize = 0;
    proof {
        assert(v@.skip(0) =~= v@);
        assert(r@ + remove_pattern_spec(v@, pat@) =~= remove_pattern_spec(v@, pat@));
    }
    while i < n
        invariant
            i <= n,
            n == v@.len(),
            m == pat@.len(),
            m >= 1,
            remove_pattern_spec(v@, pat@) == r@ + remove_pattern_spec(v@.skip(i as int), pat@),
        decreases n - i,
    {
        let ghost t = v@.skip(i as int);
        if occurs_at(v, pat, i) {
            proof {
                assert(t.subrange(0, m as int) =~= v@.subrange(i as int, i as int + m as int));
                assert(t.skip(m as int) =~= v@.skip(i as int + m as int));
                assert(remove_pattern_spec(t, pat@) == remove_pattern_spec(
                    v@.skip(i as int + m as int),
                    pat@,
                ));
            }
            i = i + m;
        } else {
            proof {
                if t.len() >= m {
                    assert(t.subrange(0, m as int) =~= v@.subrange(i as int, i as int + m as int));
                }
                assert(t[0] == v@[i as int]);
                assert(t.skip(1) =~= v@.skip(i as int + 1));
                assert(remove_pattern_spec(t, pat@) == seq![v@[i as int]] + remove_pattern_spec(
                    v@.skip(i as int + 1),
                    pat@,
                ));
            }
            r.push(v[i]);
            i = i + 1;
            proof {
                assert(r@ + remove_pattern_spec(v@.skip(i as int), pat@) =~= r@.drop_last()
                    + (seq![v@[i as int - 1]] + remove_pattern_spec(v@.skip(i as int), pat@)));
            }
        }
    }
    proof {
        assert(v@.skip(n as int) =~= Seq::<char>::empty());
        assert(remove_pattern_spec(Seq::<char>::empty(), pat@) =~= Seq::<char>::empty());
        assert(r@ + Seq::<char>::empty() =~= r@);
    }
    r
}

/// Get the filename relative to the base directory: every occurrence of the
/// base directory is removed from the path and leading `/` stripped. When
/// base directory and path coincide, the result is the path's final
/// component if the path names a file on disk, and empty otherwise.
pub fn get_base_filename(basedir: String, path: String) -> (r: String)
    ensures
        basedir@ != path@ ==> r@ == trim_start_slashes_spec(
            remove_pattern_spec(path@, basedir@),
        ),
        basedir@ == path@ ==> (r@ == file_name_spec(path@) || r@ == Seq::<char>::empty()),
{
    if str_eq(basedir.as_str(), path.as_str()) {
        if path_is_file(path.as_str()) {
            let v = chars_of(path.as_str());
            let nv = v.len();
            match find_last_slash(&v) {
                Some(j) => {
                    let name = subrange_vec(&v, j + 1, nv);
                    proof {
                        assert(v@.subrange(j as int + 1, v@.len() as int) =~= v@.skip(j + 1));
                    }
                    string_of(&name)
                },
                None => {
                    proof {
                        assert(file_name_spec(path@) == path@);
                    }
                    path
                },
            }
        } else {
            String::new()
        }
    } else {
        let v = chars_of(path.as_str());
        let p = chars_of(basedir.as_str());
        let removed = remove_pattern(&v, &p);
        let mut lo: usize = 0;
        let n = removed.len();
        proof {
            assert(removed@.skip(0) =~= removed@);
        }
        while lo < n && removed[lo] == '/'
            invariant
                lo <= n,
                n == removed@.len(),
                trim_start_slashes_spec(removed@) == trim_start_slashes_spec(
                    removed@.skip(lo as int),
                ),
            decreases n - lo,
        {
            proof {
                assert(removed@.skip(lo as int)[0] == removed@[lo as int]);
                assert(removed@.skip(lo as int).drop_first() =~= removed@.skip(lo as int + 1));
            }
            lo = lo + 1;
        }
        proof {
            if lo < n {
                assert(trim_start_slashes_spec(removed@.skip(lo as int)) == removed@.skip(
                    lo as int,
                ));
            } else {
                assert(removed@.skip(lo as int) =~= Seq::<char>::empty());
            }
        }
        let out = subrange_vec(&removed, lo, n);
        proof {
            assert(removed@.subrange(lo as int, n as int) =~= removed@.skip(lo as int));
        }
        string_of(&out)
    }
}

/// The directory where the given file is located: the path up to its final
/// component.
pub fn get_file_basedir(file: String) -> (r: String)
    ensures
        r@ == parent_dir_spec(file@),
{
    let v = chars_of(file.as_str());
    match find_last_slash(&v) {
        Some(j) => {
            let dir = subrange_vec(&v, 0, j);
            proof {
                assert(v@.subrange(0, j as int) =~= v@.take(j as int));
            }
            string_of(&dir)
        },
        None => String::new(),
    }
}

} // verus!
