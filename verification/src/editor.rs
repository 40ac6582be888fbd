//! Idempotent line-level edits of `export KEY=VALUE` statements against
//! shell-configuration file content, as pure functions from old content to
//! new content.  Lines that are not the targeted statement pass through
//! unchanged and keep their order (except for the documented blank-line
//! compaction performed by [`remove`]).

use crate::text::{
    has_char, has_prefix, is_blank, join_lines, lemma_first_nl_at, lemma_split_lines_no_nl,
    opt_view, split_lines, str_has_prefix, str_is_blank, str_join_lines, str_split_lines,
};
use vstd::prelude::*;

verus! {

/// The statement line `export <key>=<value>`.
pub open spec fn export_line(key: Seq<char>, value: Seq<char>) -> Seq<char> {
    "export "@ + key + "="@ + value
}

/// The prefix `export <key>` that [`spec_insert`] and [`spec_remove`] match
/// lines against.
pub open spec fn export_key_prefix(key: Seq<char>) -> Seq<char> {
    "export "@ + key
}

/// The prefix `export <key>=` that [`spec_update`] replaces lines by.
pub open spec fn export_eq_prefix(key: Seq<char>) -> Seq<char> {
    "export "@ + key + "="@
}

/// The single comment line a fresh configuration file starts from.
pub open spec fn header_line() -> Seq<char> {
    "# Environment variables configuration"@
}

/// The content synthesized when no configuration file exists yet.
pub open spec fn header_content() -> Seq<char> {
    header_line() + seq!['\n']
}

/// `s` with a trailing newline ensured and `export key=value` appended as
/// the final line.
pub open spec fn append_export(s: Seq<char>, key: Seq<char>, value: Seq<char>) -> Seq<char> {
    let t = if s.len() > 0 && s[s.len() - 1] == '\n' {
        s
    } else {
        s + seq!['\n']
    };
    t + export_line(key, value) + seq!['\n']
}

/// Whether some line of `s` starts with `export <key>`.
pub open spec fn has_export(s: Seq<char>, key: Seq<char>) -> bool {
    exists|k: int|
        0 <= k < split_lines(s).len() && has_prefix(
            #[trigger] split_lines(s)[k],
            export_key_prefix(key),
        )
}

/// Whether some line of `s` starts with `export <key>=`.
pub open spec fn has_export_eq(s: Seq<char>, key: Seq<char>) -> bool {
    exists|k: int|
        0 <= k < split_lines(s).len() && has_prefix(
            #[trigger] split_lines(s)[k],
            export_eq_prefix(key),
        )
}

/// What [`insert`] produces: absent content is replaced by the header
/// comment first; a key some line already carries is refused.
pub open spec fn spec_insert(content: Option<Seq<char>>, key: Seq<char>, value: Seq<char>) -> Result<
    Seq<char>,
    (),
> {
    match content {
        None => Ok(append_export(header_content(), key, value)),
        Some(s) => if has_export(s, key) {
            Err(())
        } else {
            Ok(append_export(s, key, value))
        },
    }
}

/// One line as [`update`] rewrites it: a line carrying `export <key>=` is
/// replaced verbatim by the new statement, any other line passes through.
pub open spec fn update_line(l: Seq<char>, key: Seq<char>, value: Seq<char>) -> Seq<char> {
    if has_prefix(l, export_eq_prefix(key)) {
        export_line(key, value)
    } else {
        l
    }
}

/// What [`update`] produces: every matching line is replaced; if none
/// matches, the statement is appended as a new last line.  Absent content
/// behaves as a fresh insert.
pub open spec fn spec_update(content: Option<Seq<char>>, key: Seq<char>, value: Seq<char>) -> Seq<
    char,
> {
    match content {
        None => append_export(header_content(), key, value),
        Some(s) => {
            let mapped = split_lines(s).map_values(|l: Seq<char>| update_line(l, key, value));
            if has_export_eq(s, key) {
                join_lines(mapped)
            } else {
                join_lines(mapped.push(export_line(key, value)))
            }
        },
    }
}

/// Whether [`remove`] keeps a line: it must not carry `export <key>` and,
/// as a documented quirk, must not be blank either.
pub open spec fn keep_line(l: Seq<char>, key: Seq<char>) -> bool {
    !has_prefix(l, export_key_prefix(key)) && !is_blank(l)
}

/// What [`remove`] produces: every line carrying `export <key>` is dropped,
/// and so is every blank line; the survivors keep their order.  Absent
/// content yields empty content.  Dropping unrelated blank lines looks
/// accidental, but callers rely on today's behavior, so it is kept and
/// pinned by a test rather than fixed silently.
pub open spec fn spec_remove(content: Option<Seq<char>>, key: Seq<char>) -> Seq<char> {
    match content {
        None => Seq::empty(),
        Some(s) => join_lines(split_lines(s).filter(|l: Seq<char>| keep_line(l, key))),
    }
}

/// Builds the statement line `export <key>=<value>`.
pub fn build_export_line(key: &str, value: &str) -> (r: String)
    ensures
        r@ == export_line(key@, value@),
{
    let mut p = String::from_str("export ");
    p.append(key);
    p.append("=");
    p.append(value);
    proof {
        assert(p@ =~= export_line(key@, value@));
    }
    p
}

fn build_key_prefix(key: &str) -> (r: String)
    ensures
        r@ == export_key_prefix(key@),
{
    let mut p = String::from_str("export ");
    p.append(key);
    p
}

fn build_eq_prefix(key: &str) -> (r: String)
    ensures
        r@ == export_eq_prefix(key@),
{
    let mut p = String::from_str("export ");
    p.append(key);
    p.append("=");
    proof {
        assert(p@ =~= export_eq_prefix(key@));
    }
    p
}

fn push_export(s: &str, key: &str, value: &str) -> (r: String)
    ensures
        r@ == append_export(s@, key@, value@),
{
    let n = s.unicode_len();
    let mut out = String::from_str(s);
    if n == 0 || s.get_char(n - 1) != '\n' {
        out.append("\n");
        proof {
            reveal_strlit("\n");
            assert(out@ =~= s@ + seq!['\n']);
        }
    }
    let line = build_export_line(key, value);
    out.append(line.as_str());
    out.append("\n");
    proof {
        reveal_strlit("\n");
        assert(out@ =~= append_export(s@, key@, value@));
    }
    out
}

/// Whether some line of `s` starts with `export <key>`.
pub fn contains_export(s: &str, key: &str) -> (r: bool)
    ensures
        r == has_export(s@, key@),
{
    let lines = str_split_lines(s);
    let pfx = build_key_prefix(key);
    let mut k: usize = 0;
    while k < lines.len()
        invariant
            lines.deep_view() == split_lines(s@),
            pfx@ == export_key_prefix(key@),
            k <= lines.len(),
            forall|j: int|
                0 <= j < k ==> !has_prefix(#[trigger] split_lines(s@)[j], export_key_prefix(key@)),
        decreases lines.len() - k,
    {
        proof {
            assert(lines.deep_view()[k as int] == lines@[k as int]@);
        }
        if str_has_prefix(lines[k].as_str(), pfx.as_str()) {
            assert(has_export(s@, key@));
            return true;
        }
        k += 1;
    }
    false
}

/// Inserts `export key=value` as a new last statement.  If the content is
/// absent, a minimal header comment is synthesized first; if some line
/// already starts with `export <key>`, the insert is refused.
pub fn insert(content: Option<&str>, key: &str, value: &str) -> (r: Result<String, String>)
    ensures
        ({
            let si = spec_insert(opt_view(content), key@, value@);
            match r {
                Ok(out) => si == Ok::<Seq<char>, ()>(out@),
                Err(e) => si is Err && e@ == "配置文件已包含该变量，请使用更新功能"@,
            }
        }),
{
    match content {
        None => {
            let mut base = String::from_str("# Environment variables configuration");
            base.append("\n");
            proof {
                reveal_strlit("\n");
                assert(base@ =~= header_content());
            }
            Ok(push_export(base.as_str(), key, value))
        },
        Some(s) => {
            if contains_export(s, key) {
                Err(String::from_str("配置文件已包含该变量，请使用更新功能"))
            } else {
                Ok(push_export(s, key, value))
            }
        },
    }
}

/// Replaces every line starting with `export <key>=` by `export key=value`,
/// appending the statement instead when no line matches; all other lines
/// pass through unchanged, in order.
pub fn update(content: Option<&str>, key: &str, value: &str) -> (r: String)
    ensures
        r@ == spec_update(opt_view(content), key@, value@),
{
    match content {
        None => {
            let mut base = String::from_str("# Environment variables configuration");
            base.append("\n");
            proof {
                reveal_strlit("\n");
                assert(base@ =~= header_content());
            }
            push_export(base.as_str(), key, value)
        },
        Some(s) => {
            let lines = str_split_lines(s);
            let pfx = build_eq_prefix(key);
            let line_new = build_export_line(key, value);
            let mut out_lines: Vec<String> = Vec::new();
            let mut found = false;
            let mut k: usize = 0;
            while k < lines.len()
                invariant
                    lines.deep_view() == split_lines(s@),
                    pfx@ == export_eq_prefix(key@),
                    line_new@ == export_line(key@, value@),
                    k <= lines.len(),
                    out_lines.deep_view().len() == k,
                    forall|j: int|
                        0 <= j < k ==> out_lines.deep_view()[j] == update_line(
                            #[trigger] split_lines(s@)[j],
                            key@,
                            value@,
                        ),
                    found == exists|j: int|
                        0 <= j < k && has_prefix(
                            #[trigger] split_lines(s@)[j],
                            export_eq_prefix(key@),
                        ),
                decreases lines.len() - k,
            {
                proof {
                    assert(lines.deep_view()[k as int] == lines@[k as int]@);
                }
                if str_has_prefix(lines[k].as_str(), pfx.as_str()) {
                    out_lines.push(line_new.clone());
                    found = true;
                } else {
                    out_lines.push(lines[k].clone());
                }
                k += 1;
            }
            let ghost mapped = split_lines(s@).map_values(
                |l: Seq<char>| update_line(l, key@, value@),
            );
            proof {
                assert(out_lines.deep_view() =~~= mapped);
            }
            if !found {
                out_lines.push(line_new);
                proof {
                    assert(out_lines.deep_view() =~~= mapped.push(export_line(key@, value@)));
                }
            }
            str_join_lines(&out_lines)
        },
    }
}

/// Drops every line starting with `export <key>`, and every blank line,
/// keeping the order of the surviving lines.  Absent content yields empty
/// content.
pub fn remove(content: Option<&str>, key: &str) -> (r: String)
    ensures
        r@ == spec_remove(opt_view(content), key@),
{
    match content {
        None => String::new(),
        Some(s) => {
            let lines = str_split_lines(s);
            let pfx = build_key_prefix(key);
            let ghost pred = |l: Seq<char>| keep_line(l, key@);
            let mut kept: Vec<String> = Vec::new();
            let mut k: usize = 0;
            proof {
                assert(split_lines(s@).take(0) =~= Seq::<Seq<char>>::empty());
                lemma_filter_empty(pred);
                assert(kept.deep_view() =~~= split_lines(s@).take(0).filter(pred));
            }
            while k < lines.len()
                invariant
                    lines.deep_view() == split_lines(s@),
                    pfx@ == export_key_prefix(key@),
                    pred == (|l: Seq<char>| keep_line(l, key@)),
                    k <= lines.len(),
                    kept.deep_view() == split_lines(s@).take(k as int).filter(pred),
                decreases lines.len() - k,
            {
                proof {
                    assert(lines.deep_view()[k as int] == lines@[k as int]@);
                }
                let ghost before = kept.deep_view();
                let ghost l = split_lines(s@)[k as int];
                let not_stmt = !str_has_prefix(lines[k].as_str(), pfx.as_str());
                let not_blank = !str_is_blank(lines[k].as_str());
                if not_stmt && not_blank {
                    kept.push(lines[k].clone());
                    proof {
                        assert(kept.deep_view() =~~= before.push(l));
                    }
                }
                proof {
                    assert(split_lines(s@).take(k + 1) =~= split_lines(s@).take(k as int).push(l));
                    lemma_filter_push(split_lines(s@).take(k as int), l, pred);
                    assert(kept.deep_view() =~~= split_lines(s@).take(k + 1).filter(pred));
                }
                k += 1;
            }
            proof {
                assert(split_lines(s@).take(lines.deep_view().len() as int) =~= split_lines(s@));
            }
            str_join_lines(&kept)
        },
    }
}

/// Filtering the empty sequence yields the empty sequence.
proof fn lemma_filter_empty<A>(pred: spec_fn(A) -> bool)
    ensures
        Seq::<A>::empty().filter(pred) == Seq::<A>::empty(),
{
    reveal(Seq::filter);
}

/// Filtering a sequence extended by one element keeps the element exactly
/// when the predicate holds of it.
proof fn lemma_filter_push<A>(s: Seq<A>, x: A, pred: spec_fn(A) -> bool)
    ensures
        (s.push(x)).filter(pred) == if pred(x) {
            s.filter(pred).push(x)
        } else {
            s.filter(pred)
        },
{
    reveal(Seq::filter);
    assert((s.push(x)).drop_last() =~= s);
    assert((s.push(x)).last() == x);
}

/// Every element of a filtered sequence occurs in the original.
proof fn lemma_filter_subset<A>(s: Seq<A>, pred: spec_fn(A) -> bool)
    ensures
        forall|i: int| 0 <= i < s.filter(pred).len() ==> s.contains(#[trigger] s.filter(pred)[i]),
    decreases s.len(),
{
    reveal(Seq::filter);
    if s.len() > 0 {
        lemma_filter_subset(s.drop_last(), pred);
        let sub = s.drop_last().filter(pred);
        assert forall|i: int| 0 <= i < s.filter(pred).len() implies s.contains(
            #[trigger] s.filter(pred)[i],
        ) by {
            let x = s.filter(pred)[i];
            if i < sub.len() {
                assert(sub[i] == x);
                assert(s.drop_last().contains(x));
                let j = choose|j: int| 0 <= j < s.drop_last().len() && s.drop_last()[j] == x;
                assert(s[j] == x);
            } else {
                assert(x == s.last());
                assert(s[s.len() - 1] == x);
            }
        }
    }
}

/// Facts about the literal pieces a statement line is built from.
proof fn lemma_export_literals()
    ensures
        "export "@.len() == 7,
        "="@.len() == 1,
        forall|j: int| 0 <= j < 7 ==> #[trigger] "export "@[j] != '\n',
        "="@[0] != '\n',
        "export "@[0] == 'e',
{
    reveal_strlit("export ");
    reveal_strlit("=");
    assert forall|j: int| 0 <= j < 7 implies #[trigger] "export "@[j] != '\n' by {
        if j == 0 {
            assert("export "@[0] == 'e');
        } else if j == 1 {
            assert("export "@[1] == 'x');
        } else if j == 2 {
            assert("export "@[2] == 'p');
        } else if j == 3 {
            assert("export "@[3] == 'o');
        } else if j == 4 {
            assert("export "@[4] == 'r');
        } else if j == 5 {
            assert("export "@[5] == 't');
        } else {
            assert("export "@[6] == ' ');
        }
    }
}

/// The header comment line holds no newline and starts with `#`.
proof fn lemma_header_no_nl()
    ensures
        header_line().len() == 37,
        forall|j: int| 0 <= j < header_line().len() ==> #[trigger] header_line()[j] != '\n',
        header_line()[0] == '#',
{
    reveal_strlit("# Environment variables configuration");
}

/// A statement line built from a newline-free key and value holds no
/// newline.
proof fn lemma_export_line_no_nl(key: Seq<char>, value: Seq<char>)
    requires
        !has_char(key, '\n'),
        !has_char(value, '\n'),
    ensures
        forall|j: int|
            0 <= j < export_line(key, value).len() ==> #[trigger] export_line(key, value)[j]
                != '\n',
{
    lemma_export_literals();
    let l = export_line(key, value);
    assert forall|j: int| 0 <= j < l.len() implies #[trigger] l[j] != '\n' by {
        if j < 7 {
            assert(l[j] == "export "@[j]);
        } else if j < 7 + key.len() {
            assert(l[j] == key[j - 7]);
            if key[j - 7] == '\n' {
                assert(has_char(key, '\n'));
            }
        } else if j == 7 + key.len() {
            assert(l[j] == "="@[0]);
        } else {
            assert(l[j] == value[j - 8 - key.len()]);
            if value[j - 8 - key.len()] == '\n' {
                assert(has_char(value, '\n'));
            }
        }
    }
}

/// A statement line starts with both prefixes that the editing operations
/// match against.
proof fn lemma_export_line_prefixes(key: Seq<char>, v: Seq<char>)
    ensures
        has_prefix(export_line(key, v), export_eq_prefix(key)),
        has_prefix(export_line(key, v), export_key_prefix(key)),
        export_key_prefix(key).len() == 7 + key.len(),
        export_eq_prefix(key).len() == 8 + key.len(),
{
    lemma_export_literals();
    let l = export_line(key, v);
    assert(l.take(export_eq_prefix(key).len() as int) =~= export_eq_prefix(key));
    assert(l.take(export_key_prefix(key).len() as int) =~= export_key_prefix(key));
}

/// Joining two lines followed by a final blank line yields each line with
/// a newline after it.
proof fn lemma_join_two_then_blank(a: Seq<char>, b: Seq<char>)
    ensures
        join_lines(seq![a, b, Seq::<char>::empty()]) == a + seq!['\n'] + b + seq!['\n'],
{
    let ls = seq![a, b, Seq::<char>::empty()];
    let t2 = seq![b, Seq::<char>::empty()];
    let e1 = seq![Seq::<char>::empty()];
    assert(ls.drop_first() =~= t2);
    assert(t2.drop_first() =~= e1);
    assert(e1.len() == 1);
    assert(join_lines(e1) == e1[0]);
    assert(e1[0] == Seq::<char>::empty());
    assert(t2.len() == 2);
    assert(join_lines(t2) == t2[0] + seq!['\n'] + join_lines(t2.drop_first()));
    assert(join_lines(t2) == b + seq!['\n'] + Seq::<char>::empty());
    assert(join_lines(ls) == a + seq!['\n'] + join_lines(t2));
    assert(a + seq!['\n'] + (b + seq!['\n'] + Seq::<char>::empty()) =~= a + seq!['\n'] + b
        + seq!['\n']);
}

/// Splitting is the inverse of joining, for any non-empty list of lines
/// none of which holds a newline.
pub proof fn lemma_split_join(ls: Seq<Seq<char>>)
    requires
        ls.len() >= 1,
        forall|k: int, j: int|
            0 <= k < ls.len() && 0 <= j < ls[k].len() ==> #[trigger] ls[k][j] != '\n',
    ensures
        split_lines(join_lines(ls)) == ls,
    decreases ls.len(),
{
    let s = join_lines(ls);
    if ls.len() == 1 {
        assert(s == ls[0]);
        lemma_first_nl_at(s, s.len() as int);
        assert(split_lines(s) =~~= ls);
    } else {
        let rest = ls.drop_first();
        let i = ls[0].len() as int;
        assert(s == ls[0] + seq!['\n'] + join_lines(rest));
        assert forall|j: int| 0 <= j < i implies s[j] != '\n' by {
            assert(s[j] == ls[0][j]);
        }
        assert(s[i] == '\n');
        lemma_first_nl_at(s, i);
        assert forall|k: int, j: int|
            0 <= k < rest.len() && 0 <= j < rest[k].len() implies #[trigger] rest[k][j] != '\n' by {
            assert(rest[k] == ls[k + 1]);
        }
        lemma_split_join(rest);
        assert(s.take(i) =~= ls[0]);
        assert(s.skip(i + 1) =~= join_lines(rest));
        assert(split_lines(s) =~~= seq![ls[0]] + rest);
        assert(seq![ls[0]] + rest =~~= ls);
    }
}

/// Updating the same key twice leaves exactly what updating once with the
/// final value leaves: the last write wins, whatever the starting content.
/// (A key or first value holding a newline would change the line structure
/// of the intermediate content, so those are left out.)
pub proof fn lemma_update_last_write_wins(
    content: Option<Seq<char>>,
    key: Seq<char>,
    v1: Seq<char>,
    v2: Seq<char>,
)
    requires
        !has_char(key, '\n'),
        !has_char(v1, '\n'),
    ensures
        spec_update(Some(spec_update(content, key, v1)), key, v2) == spec_update(content, key, v2),
{
    lemma_export_literals();
    lemma_export_line_no_nl(key, v1);
    lemma_export_line_prefixes(key, v1);
    lemma_export_line_prefixes(key, v2);
    let pfx = export_eq_prefix(key);
    let line1 = export_line(key, v1);
    let line2 = export_line(key, v2);
    let f1 = |l: Seq<char>| update_line(l, key, v1);
    let f2 = |l: Seq<char>| update_line(l, key, v2);
    match content {
        None => {
            lemma_header_no_nl();
            let u1 = append_export(header_content(), key, v1);
            let ls1 = seq![header_line(), line1, Seq::<char>::empty()];
            lemma_join_two_then_blank(header_line(), line1);
            assert(join_lines(ls1) =~= u1);
            lemma_split_join(ls1);
            assert(split_lines(u1) == ls1);
            assert(has_prefix(ls1[1], pfx));
            assert(has_export_eq(u1, key));
            assert(!has_prefix(header_line(), pfx)) by {
                if has_prefix(header_line(), pfx) {
                    assert(header_line().take(pfx.len() as int)[0] == pfx[0]);
                    assert(pfx[0] == 'e');
                }
            }
            assert(!has_prefix(Seq::<char>::empty(), pfx));
            let m2 = ls1.map_values(f2);
            assert(m2 =~~= seq![header_line(), line2, Seq::<char>::empty()]);
            lemma_join_two_then_blank(header_line(), line2);
            assert(spec_update(Some(u1), key, v2) =~= spec_update(content, key, v2));
        },
        Some(s) => {
            lemma_split_lines_no_nl(s);
            let ls = split_lines(s);
            let m1 = ls.map_values(f1);
            let md2 = ls.map_values(f2);
            assert forall|k: int, j: int|
                0 <= k < m1.len() && 0 <= j < m1[k].len() implies #[trigger] m1[k][j] != '\n' by {
                assert(m1[k] == f1(ls[k]));
            }
            if has_export_eq(s, key) {
                let u1 = join_lines(m1);
                lemma_split_join(m1);
                assert(split_lines(u1) == m1);
                let kw = choose|k: int| 0 <= k < ls.len() && has_prefix(ls[k], pfx);
                assert(m1[kw] == line1);
                assert(has_prefix(m1[kw], pfx));
                assert(has_export_eq(u1, key));
                let m2 = m1.map_values(f2);
                assert forall|k: int| 0 <= k < ls.len() implies m2[k] == md2[k] by {
                    assert(m1[k] == f1(ls[k]));
                    if has_prefix(ls[k], pfx) {
                        assert(m1[k] == line1);
                    }
                }
                assert(m2 =~~= md2);
                assert(spec_update(Some(u1), key, v2) == join_lines(m2));
            } else {
                assert forall|k: int| 0 <= k < ls.len() implies m1[k] == ls[k] by {
                    assert(m1[k] == f1(ls[k]));
                }
                assert(m1 =~~= ls);
                let lsp = ls.push(line1);
                let u1 = join_lines(m1.push(line1));
                assert(m1.push(line1) =~~= lsp);
                assert forall|k: int, j: int|
                    0 <= k < lsp.len() && 0 <= j < lsp[k].len() implies #[trigger] lsp[k][j]
                    != '\n' by {
                    if k < ls.len() {
                        assert(lsp[k] == ls[k]);
                    } else {
                        assert(lsp[k] == line1);
                    }
                }
                lemma_split_join(lsp);
                assert(split_lines(u1) == lsp);
                assert(has_prefix(lsp[ls.len() as int], pfx));
                assert(has_export_eq(u1, key));
                let m2 = lsp.map_values(f2);
                assert forall|k: int| 0 <= k < lsp.len() implies m2[k] == md2.push(line2)[k] by {
                    assert(m2[k] == f2(lsp[k]));
                    if k < ls.len() {
                        assert(lsp[k] == ls[k]);
                        assert(md2[k] == f2(ls[k]));
                    } else {
                        assert(lsp[k] == line1);
                    }
                }
                assert(m2 =~~= md2.push(line2));
                assert(spec_update(Some(u1), key, v2) == join_lines(m2));
            }
        },
    }
}

/// After removing `key`, no line of the content starts with
/// `export <key>` — whatever the content was.
pub proof fn lemma_remove_no_export(s: Seq<char>, key: Seq<char>)
    ensures
        forall|k: int|
            0 <= k < split_lines(spec_remove(Some(s), key)).len() ==> !has_prefix(
                #[trigger] split_lines(spec_remove(Some(s), key))[k],
                export_key_prefix(key),
            ),
{
    lemma_export_literals();
    lemma_split_lines_no_nl(s);
    let pred = |l: Seq<char>| keep_line(l, key);
    let ls = split_lines(s);
    broadcast use vstd::seq_lib::group_filter_ensures;

    let kept = ls.filter(pred);
    let removed = spec_remove(Some(s), key);
    lemma_filter_subset(ls, pred);
    if kept.len() == 0 {
        assert(removed == Seq::<char>::empty());
        lemma_first_nl_at(removed, 0);
        assert(split_lines(removed) =~~= seq![Seq::<char>::empty()]);
        assert(export_key_prefix(key).len() >= 7);
        assert(!has_prefix(Seq::<char>::empty(), export_key_prefix(key)));
    } else {
        assert forall|k: int, j: int|
            0 <= k < kept.len() && 0 <= j < kept[k].len() implies #[trigger] kept[k][j] != '\n' by {
            assert(ls.contains(kept[k]));
            let w = choose|w: int| 0 <= w < ls.len() && ls[w] == kept[k];
            assert(ls[w][j] != '\n');
        }
        lemma_split_join(kept);
        assert(split_lines(removed) == kept);
        assert forall|k: int| 0 <= k < kept.len() implies !has_prefix(
            kept[k],
            export_key_prefix(key),
        ) by {
            assert(pred(kept[k]));
        }
    }
}

/// Round-trip deletion: inserting `key` into absent content and then
/// removing `key` leaves content in which no line starts with
/// `export <key>`.
pub proof fn lemma_remove_round_trip(key: Seq<char>, value: Seq<char>)
    ensures
        ({
            let inserted = spec_insert(None, key, value)->Ok_0;
            let removed = spec_remove(Some(inserted), key);
            forall|k: int|
                0 <= k < split_lines(removed).len() ==> !has_prefix(
                    #[trigger] split_lines(removed)[k],
                    export_key_prefix(key),
                )
        }),
{
    let inserted = spec_insert(None, key, value)->Ok_0;
    lemma_remove_no_export(inserted, key);
}

} // verus!
