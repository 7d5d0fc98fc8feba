//! Character-level text transforms applied to fragment bodies: whitespace
//! trimming, space collapsing, hyperlink stripping, comment stripping and
//! line splitting, each verified against a direct mathematical definition.

use vstd::prelude::*;
use vstd::string::StrSliceExecFns;

verus! {

/// The whitespace characters recognized by the transforms (the ASCII set).
pub open spec fn is_ws_char(c: char) -> bool {
    c == ' ' || c == '\t' || c == '\n' || c == '\r' || c == '\u{b}' || c == '\u{c}'
}

/// Executable test for `is_ws_char`.
pub fn is_ws(c: char) -> (r: bool)
    ensures
        r == is_ws_char(c),
{
    c == ' ' || c == '\t' || c == '\n' || c == '\r' || c == '\u{b}' || c == '\u{c}'
}

/// The characters of a string slice, as a vector.
pub fn chars_of(s: &str) -> (r: Vec<char>)
    ensures
        r@ == s@,
{
    let n = s.unicode_len();
    let mut v: Vec<char> = Vec::new();
    let mut i: usize = 0;
    while i < n
        invariant
            i <= n,
            n == s@.len(),
            v@ == s@.take(i as int),
        decreases n - i,
    {
        let c = s.get_char(i);
        v.push(c);
        i = i + 1;
        proof {
            assert(v@ =~= s@.take(i as int));
        }
    }
    proof {
        assert(s@.take(n as int) =~= s@);
    }
    v
}

/// Relies on `String::push`: appends one character to the string.
#[verifier::external_body]
fn push_char(s: &mut String, c: char)
    ensures
        final(s)@ == old(s)@.push(c),
{
    s.push(c);
}

/// A string holding exactly the given characters.
pub fn string_of(v: &Vec<char>) -> (r: String)
    ensures
        r@ == v@,
{
    let mut s = String::new();
    let mut i: usize = 0;
    while i < v.len()
        invariant
            i <= v.len(),
            s@ == v@.take(i as int),
        decreases v.len() - i,
    {
        push_char(&mut s, v[i]);
        i = i + 1;
        proof {
            assert(s@ =~= v@.take(i as int));
        }
    }
    proof {
        assert(v@.take(v@.len() as int) =~= v@);
    }
    s
}

/// The sequence with leading whitespace removed.
pub open spec fn trim_start_spec(s: Seq<char>) -> Seq<char>
    decreases s.len(),
{
    if s.len() > 0 && is_ws_char(s[0]) {
        trim_start_spec(s.drop_first())
    } else {
        s
    }
}

/// The sequence with trailing whitespace removed.
pub open spec fn trim_end_spec(s: Seq<char>) -> Seq<char>
    decreases s.len(),
{
    if s.len() > 0 && is_ws_char(s[s.len() - 1]) {
        trim_end_spec(s.drop_last())
    } else {
        s
    }
}

/// The sequence with whitespace removed from both ends.
pub open spec fn trim_spec(s: Seq<char>) -> Seq<char> {
    trim_end_spec(trim_start_spec(s))
}

proof fn lemma_trim_start_skip(s: Seq<char>, i: int)
    requires
        0 <= i <= s.len(),
        forall|j: int| 0 <= j < i ==> is_ws_char(s[j]),
    ensures
        trim_start_spec(s) == trim_start_spec(s.skip(i)),
    decreases i,
{
    if i > 0 {
        assert(s.skip(0) =~= s);
        lemma_trim_start_skip(s, i - 1);
        // one unfolding step: the head of s.skip(i - 1) is whitespace
        assert(s.skip(i - 1).drop_first() =~= s.skip(i));
        assert(trim_start_spec(s.skip(i - 1)) == trim_start_spec(s.skip(i)));
    } else {
        assert(s.skip(0) =~= s);
    }
}

proof fn lemma_trim_start_no_ws(s: Seq<char>, i: int)
    requires
        0 <= i <= s.len(),
        forall|j: int| 0 <= j < i ==> is_ws_char(s[j]),
        i == s.len() || !is_ws_char(s[i]),
    ensures
        trim_start_spec(s) == s.skip(i),
{
    lemma_trim_start_skip(s, i);
}

proof fn lemma_trim_end_take(s: Seq<char>, i: int)
    requires
        0 <= i <= s.len(),
        forall|j: int| i <= j < s.len() ==> is_ws_char(s[j]),
    ensures
        trim_end_spec(s) == trim_end_spec(s.take(i)),
    decreases s.len() - i,
{
    if i < s.len() {
        lemma_trim_end_take(s, i + 1);
        assert(s.take(i + 1).drop_last() =~= s.take(i));
        assert(trim_end_spec(s.take(i + 1)) == trim_end_spec(s.take(i)));
    } else {
        assert(s.take(i) =~= s);
    }
}

proof fn lemma_trim_end_no_ws(s: Seq<char>, i: int)
    requires
        0 <= i <= s.len(),
        forall|j: int| i <= j < s.len() ==> is_ws_char(s[j]),
        i == 0 || !is_ws_char(s[i - 1]),
    ensures
        trim_end_spec(s) == s.take(i),
{
    lemma_trim_end_take(s, i);
}

/// The given characters with whitespace removed from both ends.
pub fn trim_chars(v: &Vec<char>) -> (r: Vec<char>)
    ensures
        r@ == trim_spec(v@),
{
    let n = v.len();
    let mut lo: usize = 0;
    while lo < n && is_ws(v[lo])
        invariant
            lo <= n,
            n == v@.len(),
            forall|j: int| 0 <= j < lo ==> is_ws_char(v@[j]),
        decreases n - lo,
    {
        lo = lo + 1;
    }
    proof {
        lemma_trim_start_no_ws(v@, lo as int);
    }
    let ghost t = v@.skip(lo as int);
    let mut hi: usize = n;
    while hi > lo && is_ws(v[hi - 1])
        invariant
            lo <= hi <= n,
            n == v@.len(),
            forall|j: int| hi <= j < n ==> is_ws_char(v@[j]),
        decreases hi,
    {
        hi = hi - 1;
    }
    proof {
        assert(forall|j: int| (hi - lo) <= j < t.len() ==> is_ws_char(#[trigger] t[j]));
        lemma_trim_end_no_ws(t, hi - lo);
    }
    let mut r: Vec<char> = Vec::new();
    let mut i: usize = lo;
    while i < hi
        invariant
            lo <= i <= hi <= n,
            n == v@.len(),
            r@ == v@.subrange(lo as int, i as int),
        decreases hi - i,
    {
        r.push(v[i]);
        i = i + 1;
        proof {
            assert(r@ =~= v@.subrange(lo as int, i as int));
        }
    }
    proof {
        assert(t.take(hi - lo) =~= v@.subrange(lo as int, hi as int));
    }
    r
}

/// Whether the sequence contains no two adjacent spaces.
pub open spec fn is_space_collapsed(s: Seq<char>) -> bool {
    forall|i: int| 0 <= i < s.len() - 1 ==> !(#[trigger] s[i] == ' ' && s[i + 1] == ' ')
}

/// The sequence with every run of consecutive spaces collapsed to one space.
pub open spec fn collapse_spaces_spec(s: Seq<char>) -> Seq<char>
    decreases s.len(),
{
    if s.len() == 0 {
        Seq::empty()
    } else if s[0] == ' ' && s.len() > 1 && s[1] == ' ' {
        collapse_spaces_spec(s.drop_first())
    } else {
        seq![s[0]] + collapse_spaces_spec(s.drop_first())
    }
}

/// Collapsing preserves the first character of a non-empty sequence.
proof fn lemma_collapse_head(s: Seq<char>)
    requires
        s.len() > 0,
    ensures
        collapse_spaces_spec(s).len() > 0,
        collapse_spaces_spec(s)[0] == s[0],
    decreases s.len(),
{
    if s[0] == ' ' && s.len() > 1 && s[1] == ' ' {
        lemma_collapse_head(s.drop_first());
    }
}

/// The output of space collapsing never holds two adjacent spaces.
pub proof fn lemma_collapse_collapsed(s: Seq<char>)
    ensures
        is_space_collapsed(collapse_spaces_spec(s)),
    decreases s.len(),
{
    if s.len() == 0 {
    } else if s[0] == ' ' && s.len() > 1 && s[1] == ' ' {
        lemma_collapse_collapsed(s.drop_first());
    } else {
        lemma_collapse_collapsed(s.drop_first());
        let rest = collapse_spaces_spec(s.drop_first());
        let c = collapse_spaces_spec(s);
        assert(c == seq![s[0]] + rest);
        if s.drop_first().len() > 0 {
            lemma_collapse_head(s.drop_first());
            assert(rest[0] == s[1]);
        }
        assert forall|i: int| 0 <= i < c.len() - 1 implies !(#[trigger] c[i] == ' ' && c[i + 1]
            == ' ') by {
            if i == 0 {
                if c.len() > 1 {
                    assert(c[1] == rest[0]);
                }
            } else {
                assert(c[i] == rest[i - 1] && c[i + 1] == rest[i]);
            }
        }
    }
}

/// Space collapsing leaves an already collapsed sequence unchanged.
pub proof fn lemma_collapse_identity(s: Seq<char>)
    requires
        is_space_collapsed(s),
    ensures
        collapse_spaces_spec(s) == s,
    decreases s.len(),
{
    if s.len() == 0 {
        assert(collapse_spaces_spec(s) =~= s);
    } else {
        assert(!(s[0] == ' ' && s.len() > 1 && s[1] == ' '));
        assert(forall|i: int| 0 <= i < s.drop_first().len() - 1
            ==> !(#[trigger] s.drop_first()[i] == ' ' && s.drop_first()[i + 1] == ' ')) by {
            assert(forall|i: int| 0 <= i < s.drop_first().len() - 1
                ==> s.drop_first()[i] == s[i + 1] && #[trigger] s.drop_first()[i + 1] == s[i + 2]);
        }
        lemma_collapse_identity(s.drop_first());
        assert(collapse_spaces_spec(s) =~= s);
    }
}

/// Space collapsing is idempotent.
pub proof fn lemma_collapse_idempotent(s: Seq<char>)
    ensures
        collapse_spaces_spec(collapse_spaces_spec(s)) == collapse_spaces_spec(s),
{
    lemma_collapse_collapsed(s);
    lemma_collapse_identity(collapse_spaces_spec(s));
}

/// Collapse every run of consecutive spaces to a single space.
pub fn collapse_spaces(v: &Vec<char>) -> (r: Vec<char>)
    ensures
        r@ == collapse_spaces_spec(v@),
{
    let n = v.len();
    let mut r: Vec<char> = Vec::new();
    let mut i: usize = 0;
    proof {
        assert(v@.skip(0) =~= v@);
        assert(r@ + collapse_spaces_spec(v@) =~= collapse_spaces_spec(v@));
    }
    while i < n
        invariant
            i <= n,
            n == v@.len(),
            collapse_spaces_spec(v@) == r@ + collapse_spaces_spec(v@.skip(i as int)),
        decreases n - i,
    {
        proof {
            assert(v@.skip(i as int)[0] == v@[i as int]);
            assert(v@.skip(i as int).drop_first() =~= v@.skip(i as int + 1));
        }
        if v[i] == ' ' && i + 1 < n && v[i + 1] == ' ' {
            proof {
                assert(v@.skip(i as int)[1] == v@[i as int + 1]);
                assert(collapse_spaces_spec(v@.skip(i as int))
                    == collapse_spaces_spec(v@.skip(i as int + 1)));
            }
        } else {
            r.push(v[i]);
            proof {
                if v@.skip(i as int).len() > 1 {
                    assert(v@.skip(i as int)[1] == v@[i as int + 1]);
                }
                assert(collapse_spaces_spec(v@.skip(i as int))
                    == seq![v@[i as int]] + collapse_spaces_spec(v@.skip(i as int + 1)));
                assert(r@ + collapse_spaces_spec(v@.skip(i as int + 1))
                    =~= (r@.drop_last() + collapse_spaces_spec(v@.skip(i as int))));
            }
        }
        i = i + 1;
    }
    proof {
        assert(v@.skip(n as int) =~= Seq::<char>::empty());
        assert(r@ + Seq::<char>::empty() =~= r@);
    }
    r
}

/// The first position at or after `i` holding `'['` or `']'`.
pub open spec fn first_bracket_from(s: Seq<char>, i: int) -> Option<int>
    decreases s.len() - i,
{
    if i < 0 || i >= s.len() {
        None
    } else if s[i] == '[' || s[i] == ']' {
        Some(i)
    } else {
        first_bracket_from(s, i + 1)
    }
}

/// The first position at or after `i` holding `')'`.
pub open spec fn first_close_paren_from(s: Seq<char>, i: int) -> Option<int>
    decreases s.len() - i,
{
    if i < 0 || i >= s.len() {
        None
    } else if s[i] == ')' {
        Some(i)
    } else {
        first_close_paren_from(s, i + 1)
    }
}

/// A hyperlink construct `[label](target)` starting at position `i`: the label
/// holds no brackets, the target no closing parenthesis, and both are
/// non-empty. Returns the positions of the closing bracket and the closing
/// parenthesis.
pub open spec fn link_at(s: Seq<char>, i: int) -> Option<(int, int)> {
    if 0 <= i < s.len() && s[i] == '[' {
        match first_bracket_from(s, i + 1) {
            Some(j) => if s[j] == ']' && j >= i + 2 && j + 1 < s.len() && s[j + 1] == '(' {
                match first_close_paren_from(s, j + 2) {
                    Some(k) => if k >= j + 3 {
                        Some((j, k))
                    } else {
                        None
                    },
                    None => None,
                }
            } else {
                None
            },
            None => None,
        }
    } else {
        None
    }
}

/// The text from position `i` on, with every hyperlink construct replaced by
/// its label, scanning left to right over non-overlapping matches.
pub open spec fn strip_links_from(s: Seq<char>, i: int) -> Seq<char>
    decreases s.len() - i,
{
    if i < 0 || i >= s.len() {
        Seq::empty()
    } else {
        match link_at(s, i) {
            Some((j, k)) => {
                // a match always ends past its start and inside the text; the
                // guard keeps the recursion visibly decreasing
                let next = if i < k + 1 <= s.len() { k + 1 } else { i + 1 };
                s.subrange(i + 1, j) + strip_links_from(s, next)
            },
            None => seq![s[i]] + strip_links_from(s, i + 1),
        }
    }
}

/// The text with every `[label](target)` construct replaced by `label`.
pub open spec fn strip_links_spec(s: Seq<char>) -> Seq<char> {
    strip_links_from(s, 0)
}

/// Whether no hyperlink construct occurs anywhere in the text.
pub open spec fn has_no_link(s: Seq<char>) -> bool {
    forall|i: int| 0 <= i < s.len() ==> #[trigger] link_at(s, i) is None
}

/// Link stripping leaves a text without hyperlink constructs unchanged.
pub proof fn lemma_strip_links_identity(s: Seq<char>)
    requires
        has_no_link(s),
    ensures
        strip_links_spec(s) == s,
{
    lemma_strip_links_from_identity(s, 0);
    assert(s.skip(0) =~= s);
}

proof fn lemma_strip_links_from_identity(s: Seq<char>, i: int)
    requires
        0 <= i <= s.len(),
        has_no_link(s),
    ensures
        strip_links_from(s, i) == s.skip(i),
    decreases s.len() - i,
{
    if i < s.len() {
        lemma_strip_links_from_identity(s, i + 1);
        assert(seq![s[i]] + s.skip(i + 1) =~= s.skip(i));
    } else {
        assert(s.skip(i) =~= Seq::<char>::empty());
    }
}

fn first_bracket_exec(v: &Vec<char>, from: usize) -> (r: Option<usize>)
    ensures
        match r {
            Some(j) => first_bracket_from(v@, from as int) == Some(j as int) && from <= j
                < v@.len(),
            None => first_bracket_from(v@, from as int) is None,
        },
{
    let n = v.len();
    let mut i: usize = from;
    if i > n {
        return None;
    }
    while i < n
        invariant
            from <= i <= n,
            n == v@.len(),
            first_bracket_from(v@, from as int) == first_bracket_from(v@, i as int),
        decreases n - i,
    {
        if v[i] == '[' || v[i] == ']' {
            return Some(i);
        }
        i = i + 1;
    }
    None
}

fn first_close_paren_exec(v: &Vec<char>, from: usize) -> (r: Option<usize>)
    ensures
        match r {
            Some(k) => first_close_paren_from(v@, from as int) == Some(k as int) && from <= k
                < v@.len(),
            None => first_close_paren_from(v@, from as int) is None,
        },
{
    let n = v.len();
    let mut i: usize = from;
    if i > n {
        return None;
    }
    while i < n
        invariant
            from <= i <= n,
            n == v@.len(),
            first_close_paren_from(v@, from as int) == first_close_paren_from(v@, i as int),
        decreases n - i,
    {
        if v[i] == ')' {
            return Some(i);
        }
        i = i + 1;
    }
    None
}

/// Replace every `[label](target)` construct in the text by `label`.
pub fn strip_links(v: &Vec<char>) -> (r: Vec<char>)
    ensures
        r@ == strip_links_spec(v@),
{
    let n = v.len();
    let mut r: Vec<char> = Vec::new();
    let mut i: usize = 0;
    proof {
        assert(r@ + strip_links_from(v@, 0) =~= strip_links_from(v@, 0));
    }
    while i < n
        invariant
            i <= n,
            n == v@.len(),
            strip_links_spec(v@) == r@ + strip_links_from(v@, i as int),
        decreases n - i,
    {
        let mut matched: bool = false;
        if v[i] == '[' {
            if let Some(j) = first_bracket_exec(v, i + 1) {
                if v[j] == ']' && j >= i + 2 && j + 1 < n && v[j + 1] == '(' {
                    if let Some(k) = first_close_paren_exec(v, j + 2) {
                        if k >= j + 3 {
                            proof {
                                assert(link_at(v@, i as int) == Some((j as int, k as int)));
                                assert(strip_links_from(v@, i as int) == v@.subrange(
                                    i as int + 1,
                                    j as int,
                                ) + strip_links_from(v@, k as int + 1));
                            }
                            matched = true;
                            let ghost tail = strip_links_from(v@, k as int + 1);
                            let mut p: usize = i + 1;
                            proof {
                                assert(r@ + (v@.subrange(p as int, j as int) + tail) =~= r@
                                    + v@.subrange(p as int, j as int) + tail);
                            }
                            while p < j
                                invariant
                                    i + 1 <= p <= j,
                                    j < n,
                                    n == v@.len(),
                                    tail == strip_links_from(v@, k as int + 1),
                                    strip_links_spec(v@) == r@ + v@.subrange(p as int, j as int)
                                        + tail,
                                decreases j - p,
                            {
                                r.push(v[p]);
                                p = p + 1;
                                proof {
                                    assert(r@ + v@.subrange(p as int, j as int) + tail
                                        =~= r@.drop_last() + v@.subrange(p as int - 1, j as int)
                                        + tail);
                                }
                            }
                            i = k + 1;
                            proof {
                                assert(v@.subrange(j as int, j as int) =~= Seq::<char>::empty());
                                assert(r@ + Seq::<char>::empty() + tail =~= r@ + tail);
                            }
                        }
                    }
                }
            }
        }
        if !matched {
            proof {
                assert(strip_links_from(v@, i as int) == seq![v@[i as int]] + strip_links_from(
                    v@,
                    i as int + 1,
                ));
            }
            r.push(v[i]);
            i = i + 1;
            proof {
                assert(r@ + strip_links_from(v@, i as int) =~= r@.drop_last() + (seq![
                    v@[i as int - 1],
                ] + strip_links_from(v@, i as int)));
            }
        }
    }
    proof {
        assert(strip_links_from(v@, n as int) =~= Seq::<char>::empty());
        assert(r@ + Seq::<char>::empty() =~= r@);
    }
    r
}

/// The first position at or after `e` where a comment block may close: a
/// `%%` pair immediately preceded by whitespace.
pub open spec fn first_comment_close_from(s: Seq<char>, e: int) -> Option<int>
    decreases s.len() - e,
{
    if e < 1 || e + 1 >= s.len() {
        None
    } else if s[e] == '%' && s[e + 1] == '%' && is_ws_char(s[e - 1]) {
        Some(e)
    } else {
        first_comment_close_from(s, e + 1)
    }
}

/// A comment block `%% ... %%` opening at position `i`: a `%%` pair followed
/// by whitespace, closed at the earliest `%%` pair preceded by whitespace.
/// Returns the position of the closing pair; the block spans up to and
/// including it.
pub open spec fn comment_at(s: Seq<char>, i: int) -> Option<int> {
    if 0 <= i && i + 2 < s.len() && s[i] == '%' && s[i + 1] == '%' && is_ws_char(s[i + 2]) {
        first_comment_close_from(s, i + 4)
    } else {
        None
    }
}

/// The text from position `i` on with every comment block removed, scanning
/// left to right over non-overlapping blocks.
pub open spec fn remove_comments_from(s: Seq<char>, i: int) -> Seq<char>
    decreases s.len() - i,
{
    if i < 0 || i >= s.len() {
        Seq::empty()
    } else {
        match comment_at(s, i) {
            Some(e) => {
                // a block always ends past its start and inside the text; the
                // guard keeps the recursion visibly decreasing
                let next = if i < e + 2 <= s.len() { e + 2 } else { i + 1 };
                remove_comments_from(s, next)
            },
            None => seq![s[i]] + remove_comments_from(s, i + 1),
        }
    }
}

/// The text with every `%% ... %%` comment block removed and the remainder
/// trimmed of surrounding whitespace.
pub open spec fn strip_comments_spec(s: Seq<char>) -> Seq<char> {
    trim_spec(remove_comments_from(s, 0))
}

fn first_comment_close_exec(v: &Vec<char>, from: usize) -> (r: Option<usize>)
    requires
        from >= 1,
    ensures
        match r {
            Some(e) => first_comment_close_from(v@, from as int) == Some(e as int) && from <= e
                && e + 1 < v@.len(),
            None => first_comment_close_from(v@, from as int) is None,
        },
{
    let n = v.len();
    if n < 2 || from >= n - 1 {
        return None;
    }
    let mut e: usize = from;
    while e < n - 1
        invariant
            1 <= from <= e <= n - 1,
            2 <= n == v@.len(),
            first_comment_close_from(v@, from as int) == first_comment_close_from(v@, e as int),
        decreases n - e,
    {
        if v[e] == '%' && v[e + 1] == '%' && is_ws(v[e - 1]) {
            return Some(e);
        }
        e = e + 1;
    }
    None
}

/// Remove every comment block from the text.
fn remove_comments(v: &Vec<char>) -> (r: Vec<char>)
    ensures
        r@ == remove_comments_from(v@, 0),
{
    let n = v.len();
    let mut r: Vec<char> = Vec::new();
    let mut i: usize = 0;
    proof {
        assert(r@ + remove_comments_from(v@, 0) =~= remove_comments_from(v@, 0));
    }
    while i < n
        invariant
            i <= n,
            n == v@.len(),
            remove_comments_from(v@, 0) == r@ + remove_comments_from(v@, i as int),
        decreases n - i,
    {
        let mut matched: bool = false;
        if n - i >= 6 && v[i] == '%' && v[i + 1] == '%' && is_ws(v[i + 2]) {
            if let Some(e) = first_comment_close_exec(v, i + 4) {
                proof {
                    assert(comment_at(v@, i as int) == Some(e as int));
                    assert(remove_comments_from(v@, i as int) == remove_comments_from(
                        v@,
                        e as int + 2,
                    ));
                }
                matched = true;
                i = e + 2;
            }
        }
        if !matched {
            proof {
                assert(comment_at(v@, i as int) is None);
                assert(remove_comments_from(v@, i as int) == seq![v@[i as int]]
                    + remove_comments_from(v@, i as int + 1));
            }
            r.push(v[i]);
            i = i + 1;
            proof {
                assert(r@ + remove_comments_from(v@, i as int) =~= r@.drop_last() + (seq![
                    v@[i as int - 1],
                ] + remove_comments_from(v@, i as int)));
            }
        }
    }
    proof {
        assert(remove_comments_from(v@, n as int) =~= Seq::<char>::empty());
        assert(r@ + Seq::<char>::empty() =~= r@);
    }
    r
}

/// Remove every comment block and trim the surrounding whitespace.
pub fn strip_comment_blocks(v: &Vec<char>) -> (r: Vec<char>)
    ensures
        r@ == strip_comments_spec(v@),
{
    let cleaned = remove_comments(v);
    trim_chars(&cleaned)
}

/// The first position at or after `i` holding a line feed.
pub open spec fn first_newline_from(s: Seq<char>, i: int) -> Option<int>
    decreases s.len() - i,
{
    if i < 0 || i >= s.len() {
        None
    } else if s[i] == '\n' {
        Some(i)
    } else {
        first_newline_from(s, i + 1)
    }
}

/// A line with one trailing carriage return removed.
pub open spec fn strip_cr_spec(l: Seq<char>) -> Seq<char> {
    if l.len() > 0 && l[l.len() - 1] == '\r' {
        l.drop_last()
    } else {
        l
    }
}

/// The lines of the text from position `i` on: pieces split at line feeds,
/// each with a trailing carriage return removed; a final line terminator
/// produces no empty last line.
pub open spec fn split_lines_from(s: Seq<char>, i: int) -> Seq<Seq<char>>
    decreases s.len() - i,
{
    if i < 0 || i >= s.len() {
        Seq::empty()
    } else {
        match first_newline_from(s, i) {
            Some(j) => {
                let next = if i < j + 1 <= s.len() { j + 1 } else { i + 1 };
                seq![strip_cr_spec(s.subrange(i, j))] + split_lines_from(s, next)
            },
            None => seq![strip_cr_spec(s.subrange(i, s.len() as int))],
        }
    }
}

/// The lines of the text, as `str::lines` yields them.
pub open spec fn split_lines_spec(s: Seq<char>) -> Seq<Seq<char>> {
    split_lines_from(s, 0)
}

fn first_newline_exec(v: &Vec<char>, from: usize) -> (r: Option<usize>)
    ensures
        match r {
            Some(j) => first_newline_from(v@, from as int) == Some(j as int) && from <= j
                < v@.len(),
            None => first_newline_from(v@, from as int) is None,
        },
{
    let n = v.len();
    let mut i: usize = from;
    if i > n {
        return None;
    }
    while i < n
        invariant
            from <= i <= n,
            n == v@.len(),
            first_newline_from(v@, from as int) == first_newline_from(v@, i as int),
        decreases n - i,
    {
        if v[i] == '\n' {
            return Some(i);
        }
        i = i + 1;
    }
    None
}

/// The characters of `v` between positions `a` and `b`.
pub fn subrange_vec(v: &Vec<char>, a: usize, b: usize) -> (r: Vec<char>)
    requires
        a <= b <= v@.len(),
    ensures
        r@ == v@.subrange(a as int, b as int),
{
    let mut r: Vec<char> = Vec::new();
    let mut i: usize = a;
    while i < b
        invariant
            a <= i <= b <= v@.len(),
            r@ == v@.subrange(a as int, i as int),
        decreases b - i,
    {
        r.push(v[i]);
        i = i + 1;
        proof {
            assert(r@ =~= v@.subrange(a as int, i as int));
        }
    }
    r
}

fn strip_cr_exec(l: Vec<char>) -> (r: Vec<char>)
    ensures
        r@ == strip_cr_spec(l@),
{
    let mut l = l;
    if l.len() > 0 && l[l.len() - 1] == '\r' {
        let _ = l.pop();
    }
    l
}

/// Split the text into lines at line feeds, removing one trailing carriage
/// return from each line.
pub fn split_lines(v: &Vec<char>) -> (r: Vec<Vec<char>>)
    ensures
        r.deep_view() == split_lines_spec(v@),
{
    let n = v.len();
    let mut r: Vec<Vec<char>> = Vec::new();
    let mut i: usize = 0;
    proof {
        assert(r.deep_view() + split_lines_from(v@, 0) =~~= split_lines_from(v@, 0));
    }
    while i < n
        invariant
            i <= n,
            n == v@.len(),
            split_lines_spec(v@) == r.deep_view() + split_lines_from(v@, i as int),
        decreases n - i,
    {
        match first_newline_exec(v, i) {
            Some(j) => {
                proof {
                    assert(split_lines_from(v@, i as int) == seq![
                        strip_cr_spec(v@.subrange(i as int, j as int)),
                    ] + split_lines_from(v@, j as int + 1));
                }
                let piece = subrange_vec(v, i, j);
                let line = strip_cr_exec(piece);
                let ghost pre = r.deep_view();
                let ghost lv = line@;
                r.push(line);
                i = j + 1;
                proof {
                    assert(r.deep_view() =~~= pre + seq![lv]);
                    assert((pre + seq![lv]) + split_lines_from(v@, i as int) =~~= pre + (seq![lv]
                        + split_lines_from(v@, i as int)));
                }
            },
            None => {
                proof {
                    assert(split_lines_from(v@, i as int) == seq![
                        strip_cr_spec(v@.subrange(i as int, n as int)),
                    ]);
                }
                let piece = subrange_vec(v, i, n);
                let line = strip_cr_exec(piece);
                let ghost pre = r.deep_view();
                let ghost lv = line@;
                r.push(line);
                i = n;
                proof {
                    assert(r.deep_view() =~~= pre + seq![lv]);
                    assert(split_lines_from(v@, n as int) =~= Seq::<Seq<char>>::empty());
                    assert((pre + seq![lv]) + Seq::<Seq<char>>::empty() =~~= pre + seq![lv]);
                }
            },
        }
    }
    proof {
        assert(split_lines_from(v@, n as int) =~= Seq::<Seq<char>>::empty());
        assert(r.deep_view() + Seq::<Seq<char>>::empty() =~~= r.deep_view());
    }
    r
}

/// Whether two string slices hold the same characters.
pub fn str_eq(a: &str, b: &str) -> (r: bool)
    ensures
        r == (a@ == b@),
{
    let n = a.unicode_len();
    if n != b.unicode_len() {
        proof {
            assert(a@ != b@);
        }
        return false;
    }
    let mut i: usize = 0;
    while i < n
        invariant
            i <= n,
            n == a@.len(),
            n == b@.len(),
            forall|j: int| 0 <= j < i ==> a@[j] == b@[j],
        decreases n - i,
    {
        if a.get_char(i) != b.get_char(i) {
            return false;
        }
        i = i + 1;
    }
    proof {
        assert(a@ =~= b@);
    }
    true
}

/// The body post-processing applied to every parsed fragment: collapse runs
/// of spaces, then strip hyperlink constructs.
pub open spec fn post_process_spec(s: Seq<char>) -> Seq<char> {
    strip_links_spec(collapse_spaces_spec(s))
}

/// The body post-processing is idempotent: re-applying space collapsing and
/// link stripping to an already processed text is a no-op, provided one pass
/// left no double space and no hyperlink construct behind (stripping a link
/// whose label ends in a space can create a new double space, and a nested
/// construct can surface a new link; such texts are excluded here).
pub proof fn lemma_post_process_idempotent(s: Seq<char>)
    requires
        is_space_collapsed(post_process_spec(s)),
        has_no_link(post_process_spec(s)),
    ensures
        post_process_spec(post_process_spec(s)) == post_process_spec(s),
{
    let t = post_process_spec(s);
    lemma_collapse_identity(t);
    lemma_strip_links_identity(t);
}

} // verus!
