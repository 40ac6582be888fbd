//! Verified text utilities: whitespace, prefixes, substring search,
//! line splitting and joining, and lexicographic order on strings.

use vstd::prelude::*;

verus! {

/// A Unicode `White_Space` character, the set `char::is_whitespace` accepts.
pub open spec fn is_ws(c: char) -> bool {
    let u = c as u32;
    (9 <= u && u <= 13) || u == 32 || u == 0x85 || u == 0xA0 || u == 0x1680 || (0x2000 <= u && u
        <= 0x200A) || u == 0x2028 || u == 0x2029 || u == 0x202F || u == 0x205F || u == 0x3000
}

/// A string is blank when every character is whitespace (so trimming it
/// leaves nothing); the empty string is blank.
pub open spec fn is_blank(s: Seq<char>) -> bool {
    forall|i: int| 0 <= i < s.len() ==> is_ws(#[trigger] s[i])
}

/// `p` is a prefix of `s`.
pub open spec fn has_prefix(s: Seq<char>, p: Seq<char>) -> bool {
    p.len() <= s.len() && s.take(p.len() as int) == p
}

/// `needle` occurs in `s` at position `i`.
pub open spec fn occurs_at(s: Seq<char>, needle: Seq<char>, i: int) -> bool {
    0 <= i && i + needle.len() <= s.len() && s.subrange(i, i + needle.len()) == needle
}

/// `needle` occurs somewhere in `s`.
pub open spec fn contains_sub(s: Seq<char>, needle: Seq<char>) -> bool {
    exists|i: int| occurs_at(s, needle, i)
}

/// `s` contains the character `c`.
pub open spec fn has_char(s: Seq<char>, c: char) -> bool {
    exists|i: int| 0 <= i < s.len() && s[i] == c
}

/// The view of optionally-present text, such as the content of a file
/// that may not exist.
pub open spec fn opt_view(content: Option<&str>) -> Option<Seq<char>> {
    match content {
        Some(s) => Some(s@),
        None => None,
    }
}

/// Index of the first newline in `s`, or `s.len()` if there is none.
pub open spec fn first_nl(s: Seq<char>) -> int
    decreases s.len(),
{
    if s.len() == 0 {
        0
    } else if s[0] == '\n' {
        0
    } else {
        1 + first_nl(s.drop_first())
    }
}

pub proof fn lemma_first_nl(s: Seq<char>)
    ensures
        0 <= first_nl(s) <= s.len(),
        first_nl(s) < s.len() ==> s[first_nl(s)] == '\n',
        forall|j: int| 0 <= j < first_nl(s) ==> s[j] != '\n',
    decreases s.len(),
{
    if s.len() > 0 && s[0] != '\n' {
        lemma_first_nl(s.drop_first());
        assert forall|j: int| 0 <= j < first_nl(s) implies s[j] != '\n' by {
            if j > 0 {
                assert(s.drop_first()[j - 1] != '\n');
            }
        }
    }
}

/// The first newline is at `k` exactly when no earlier character is a
/// newline and `k` is either a newline or the end of the string.
pub proof fn lemma_first_nl_at(s: Seq<char>, k: int)
    requires
        0 <= k <= s.len(),
        forall|j: int| 0 <= j < k ==> s[j] != '\n',
        k < s.len() ==> s[k] == '\n',
    ensures
        first_nl(s) == k,
    decreases k,
{
    if s.len() == 0 || s[0] == '\n' {
    } else {
        lemma_first_nl_at(s.drop_first(), k - 1);
    }
}

/// The lines of `s`, in order, split at each newline; the separators are
/// dropped.  The result always has one more line than `s` has newlines,
/// so it is never empty.
pub open spec fn split_lines(s: Seq<char>) -> Seq<Seq<char>>
    decreases s.len(),
{
    let i = first_nl(s);
    if !(0 <= i < s.len()) {
        seq![s]
    } else {
        seq![s.take(i)] + split_lines(s.skip(i + 1))
    }
}

/// No line produced by `split_lines` contains a newline.
pub proof fn lemma_split_lines_no_nl(s: Seq<char>)
    ensures
        forall|k: int, j: int|
            0 <= k < split_lines(s).len() && 0 <= j < split_lines(s)[k].len() ==> #[trigger] split_lines(
                s,
            )[k][j] != '\n',
    decreases s.len(),
{
    lemma_first_nl(s);
    let i = first_nl(s);
    if i < s.len() {
        lemma_split_lines_no_nl(s.skip(i + 1));
        assert forall|k: int, j: int|
            0 <= k < split_lines(s).len() && 0 <= j < split_lines(s)[k].len() implies #[trigger] split_lines(
            s,
        )[k][j] != '\n' by {
            if k == 0 {
                assert(split_lines(s)[0] == s.take(i));
            } else {
                assert(split_lines(s)[k] == split_lines(s.skip(i + 1))[k - 1]);
            }
        }
    }
}

/// The lines joined back with a newline between each two.
pub open spec fn join_lines(ls: Seq<Seq<char>>) -> Seq<char>
    decreases ls.len(),
{
    if ls.len() == 0 {
        Seq::empty()
    } else if ls.len() == 1 {
        ls[0]
    } else {
        ls[0] + seq!['\n'] + join_lines(ls.drop_first())
    }
}

/// Appending one more line to a non-empty list appends a newline and the line.
pub proof fn lemma_join_push(ls: Seq<Seq<char>>, x: Seq<char>)
    requires
        ls.len() >= 1,
    ensures
        join_lines(ls.push(x)) == join_lines(ls) + seq!['\n'] + x,
    decreases ls.len(),
{
    if ls.len() == 1 {
        let l2 = ls.push(x);
        assert(l2.len() == 2);
        assert(l2[0] == ls[0]);
        assert(l2.drop_first() =~= seq![x]);
        assert(join_lines(seq![x]) == x);
        assert(join_lines(ls.push(x)) =~= ls[0] + seq!['\n'] + x);
    } else {
        lemma_join_push(ls.drop_first(), x);
        assert(ls.push(x).drop_first() =~= ls.drop_first().push(x));
        assert(join_lines(ls.push(x)) =~= ls[0] + seq!['\n'] + join_lines(ls.drop_first().push(x)));
        assert(join_lines(ls) + seq!['\n'] + x =~= ls[0] + seq!['\n'] + (join_lines(ls.drop_first())
            + seq!['\n'] + x));
    }
}

/// `a` is lexicographically at most `b`, comparing characters by code point.
pub open spec fn lex_le(a: Seq<char>, b: Seq<char>) -> bool
    decreases a.len(),
{
    if a.len() == 0 {
        true
    } else if b.len() == 0 {
        false
    } else if (a[0] as u32) < (b[0] as u32) {
        true
    } else if (a[0] as u32) > (b[0] as u32) {
        false
    } else {
        lex_le(a.drop_first(), b.drop_first())
    }
}

/// What `str::to_lowercase` returns for given characters: the result
/// depends on the characters alone.
pub uninterp spec fn lower_of(s: Seq<char>) -> Seq<char>;

/// Relies on `str::to_lowercase`: the Unicode lowercase mapping of the
/// characters, a function of the characters alone.
#[verifier::external_body]
pub fn lowercase(s: &str) -> (r: String)
    ensures
        r@ == lower_of(s@),
{
    s.to_lowercase()
}

/// Whether `c` is Unicode whitespace, as [`is_ws`] states.
pub fn char_is_ws(c: char) -> (r: bool)
    ensures
        r == is_ws(c),
{
    let u = c as u32;
    (9 <= u && u <= 13) || u == 32 || u == 0x85 || u == 0xA0 || u == 0x1680 || (0x2000 <= u && u
        <= 0x200A) || u == 0x2028 || u == 0x2029 || u == 0x202F || u == 0x205F || u == 0x3000
}

/// Whether every character of `s` is whitespace.
pub fn str_is_blank(s: &str) -> (r: bool)
    ensures
        r == is_blank(s@),
{
    let n = s.unicode_len();
    let mut i: usize = 0;
    while i < n
        invariant
            n == s@.len(),
            i <= n,
            forall|j: int| 0 <= j < i ==> is_ws(#[trigger] s@[j]),
        decreases n - i,
    {
        if !char_is_ws(s.get_char(i)) {
            return false;
        }
        i += 1;
    }
    true
}

/// Whether `s` starts with `p`.
pub fn str_has_prefix(s: &str, p: &str) -> (r: bool)
    ensures
        r == has_prefix(s@, p@),
{
    let n = s.unicode_len();
    let m = p.unicode_len();
    if m > n {
        assert(!has_prefix(s@, p@));
        return false;
    }
    let mut i: usize = 0;
    while i < m
        invariant
            n == s@.len(),
            m == p@.len(),
            m <= n,
            i <= m,
            forall|j: int| 0 <= j < i ==> s@[j] == p@[j],
        decreases m - i,
    {
        if s.get_char(i) != p.get_char(i) {
            assert(s@.take(p@.len() as int)[i as int] != p@[i as int]);
            return false;
        }
        i += 1;
    }
    assert(s@.take(p@.len() as int) =~= p@);
    true
}

/// Whether `needle` occurs anywhere in `s`.
pub fn str_contains(s: &str, needle: &str) -> (r: bool)
    ensures
        r == contains_sub(s@, needle@),
{
    let n = s.unicode_len();
    let m = needle.unicode_len();
    if m > n {
        return false;
    }
    if m == 0 {
        proof {
            assert(s@.subrange(0, 0) =~= needle@);
            assert(occurs_at(s@, needle@, 0));
        }
        return true;
    }
    let mut i: usize = 0;
    while i <= n - m
        invariant
            n == s@.len(),
            m == needle@.len(),
            1 <= m <= n,
            i <= n - m + 1,
            forall|k: int| 0 <= k < i ==> !occurs_at(s@, needle@, k),
        decreases n - m + 1 - i,
    {
        let mut j: usize = 0;
        let mut hit = true;
        while j < m
            invariant
                n == s@.len(),
                m == needle@.len(),
                m <= n,
                i <= n - m,
                j <= m,
                hit ==> forall|t: int| 0 <= t < j ==> s@[i + t] == needle@[t],
                !hit ==> !occurs_at(s@, needle@, i as int),
            decreases m - j,
        {
            if s.get_char(i + j) != needle.get_char(j) {
                proof {
                    if occurs_at(s@, needle@, i as int) {
                        assert(s@.subrange(i as int, i + needle@.len())[j as int] == needle@[
                        j as int]);
                    }
                }
                hit = false;
                j = m;
            } else {
                j += 1;
            }
        }
        if hit {
            proof {
                assert(s@.subrange(i as int, i + needle@.len()) =~= needle@);
                assert(occurs_at(s@, needle@, i as int));
            }
            return true;
        }
        i += 1;
    }
    assert forall|k: int| !occurs_at(s@, needle@, k) by {
        if 0 <= k && k + needle@.len() <= s@.len() {
            assert(k < i);
        }
    }
    false
}

/// Whether the character `c` occurs in `s`.
pub fn str_has_char(s: &str, c: char) -> (r: bool)
    ensures
        r == has_char(s@, c),
{
    let n = s.unicode_len();
    let mut i: usize = 0;
    while i < n
        invariant
            n == s@.len(),
            i <= n,
            forall|j: int| 0 <= j < i ==> s@[j] != c,
        decreases n - i,
    {
        if s.get_char(i) == c {
            return true;
        }
        i += 1;
    }
    false
}

/// Splits `s` at each newline, as [`split_lines`] states.
pub fn str_split_lines(s: &str) -> (r: Vec<String>)
    ensures
        r.deep_view() == split_lines(s@),
{
    let n = s.unicode_len();
    let mut out: Vec<String> = Vec::new();
    let mut start: usize = 0;
    let mut i: usize = 0;
    proof {
        assert(s@.skip(0) =~= s@);
        assert(out.deep_view() + split_lines(s@) =~~= split_lines(s@));
    }
    while i < n
        invariant
            n == s@.len(),
            start <= i <= n,
            forall|j: int| start <= j < i ==> s@[j] != '\n',
            split_lines(s@) =~~= out.deep_view() + split_lines(s@.skip(start as int)),
        decreases n - i,
    {
        if s.get_char(i) == '\n' {
            let line = s.substring_char(start, i).to_owned();
            let ghost old_dv = out.deep_view();
            proof {
                let rest = s@.skip(start as int);
                lemma_first_nl_at(rest, i - start);
                assert(rest.take(i - start) =~= s@.subrange(start as int, i as int));
                assert(rest.skip(i - start + 1) =~= s@.skip(i + 1));
                assert(split_lines(rest) =~~= seq![line@] + split_lines(s@.skip(i + 1)));
            }
            out.push(line);
            proof {
                assert(out.deep_view() =~~= old_dv.push(line@));
                assert(split_lines(s@) =~~= out.deep_view() + split_lines(s@.skip(i + 1)));
            }
            start = i + 1;
        }
        i += 1;
    }
    let line = s.substring_char(start, n).to_owned();
    let ghost old_dv = out.deep_view();
    proof {
        let rest = s@.skip(start as int);
        lemma_first_nl_at(rest, n - start);
        assert(rest.take(rest.len() as int) =~= rest);
        assert(split_lines(rest) =~~= seq![rest]);
        assert(line@ =~= rest);
    }
    out.push(line);
    proof {
        assert(out.deep_view() =~~= old_dv.push(line@));
        assert(out.deep_view() =~~= old_dv + split_lines(s@.skip(start as int)));
    }
    out
}

/// Joins lines with a newline between each two, as [`join_lines`] states.
pub fn str_join_lines(ls: &Vec<String>) -> (r: String)
    ensures
        r@ == join_lines(ls.deep_view()),
{
    let mut out = String::new();
    let mut i: usize = 0;
    proof {
        reveal_strlit("\n");
    }
    while i < ls.len()
        invariant
            i <= ls.len(),
            out@ == join_lines(ls.deep_view().take(i as int)),
            "\n"@ =~= seq!['\n'],
        decreases ls.len() - i,
    {
        if i > 0 {
            out.append("\n");
        }
        out.append(ls[i].as_str());
        proof {
            let pre = ls.deep_view().take(i as int);
            assert(ls.deep_view().take(i + 1) =~~= pre.push(ls.deep_view()[i as int]));
            if i > 0 {
                lemma_join_push(pre, ls.deep_view()[i as int]);
            } else {
                assert(join_lines(seq![ls.deep_view()[0]]) == ls.deep_view()[0]);
            }
        }
        i += 1;
    }
    proof {
        assert(ls.deep_view().take(ls.len() as int) =~~= ls.deep_view());
    }
    out
}

/// Compares two strings lexicographically by code point, as [`lex_le`] states.
pub fn str_lex_le(a: &str, b: &str) -> (r: bool)
    ensures
        r == lex_le(a@, b@),
{
    let na = a.unicode_len();
    let nb = b.unicode_len();
    let mut i: usize = 0;
    proof {
        assert(a@.skip(0) =~= a@);
        assert(b@.skip(0) =~= b@);
    }
    loop
        invariant
            na == a@.len(),
            nb == b@.len(),
            i <= na,
            i <= nb,
            lex_le(a@, b@) == lex_le(a@.skip(i as int), b@.skip(i as int)),
        decreases na - i,
    {
        if i >= na {
            return true;
        }
        if i >= nb {
            assert(a@.skip(i as int).len() > 0);
            return false;
        }
        let ca = a.get_char(i) as u32;
        let cb = b.get_char(i) as u32;
        if ca < cb {
            return true;
        }
        if ca > cb {
            return false;
        }
        proof {
            assert(a@.skip(i as int).drop_first() =~= a@.skip(i + 1));
            assert(b@.skip(i as int).drop_first() =~= b@.skip(i + 1));
        }
        i += 1;
    }
}

} // verus!
