//! The synchronization engine's pure core: validation verdicts for
//! environment variables, the checks preceding each mutation, and the
//! case-insensitively sorted listing.
//!
//! Reading the live environment, testing paths on disk and writing the
//! configuration file are capabilities of the caller; they hand plain
//! values in and take plain values back.

use crate::editor::{spec_insert, spec_remove, spec_update};
use crate::text::{
    has_char, is_blank, lex_le, lower_of, lowercase, opt_view, str_is_blank, str_lex_le,
};
use crate::validator::{is_valid_var_name, valid_name};
use vstd::prelude::*;

verus! {

/// One observed environment entry with its validation verdict, as the
/// listing reports it.
#[derive(Debug, Clone)]
pub struct EnvVar {
    pub key: String,
    pub value: String,
    pub is_valid: bool,
    pub error_message: Option<String>,
}

/// One raw entry read from the live environment: the pair itself and
/// whether the value, read as a filesystem path, names something that
/// exists.  The flag is only consulted when the value holds a path
/// separator.
#[derive(Debug, Clone)]
pub struct EnvEntry {
    pub key: String,
    pub value: String,
    pub path_ok: bool,
}

/// The contract-level model of an [`EnvVar`]: key, value, verdict and
/// message, all by view.
pub open spec fn env_var_view(e: EnvVar) -> (Seq<char>, Seq<char>, bool, Option<Seq<char>>) {
    (
        e.key@,
        e.value@,
        e.is_valid,
        match e.error_message {
            Some(m) => Some(m@),
            None => None,
        },
    )
}

pub open spec fn env_var_views(s: Seq<EnvVar>) -> Seq<(Seq<char>, Seq<char>, bool, Option<Seq<char>>)> {
    s.map_values(|e: EnvVar| env_var_view(e))
}

/// The validation verdict for a key/value pair: a malformed name, a blank
/// value, and a path-like value that names nothing on disk are rejected,
/// in that order; anything else passes.
pub open spec fn spec_verdict(key: Seq<char>, value: Seq<char>, path_ok: bool) -> (
    bool,
    Option<Seq<char>>,
) {
    if !valid_name(key) {
        (false, Some("变量名格式无效"@))
    } else if is_blank(value) {
        (false, Some("值不能为空"@))
    } else if (has_char(value, '/') || has_char(value, '\\')) && !path_ok {
        (false, Some("路径不存在"@))
    } else {
        (true, None)
    }
}

/// The model of the [`EnvVar`] built for one raw entry.
pub open spec fn entry_view(e: EnvEntry) -> (Seq<char>, Seq<char>, bool, Option<Seq<char>>) {
    let v = spec_verdict(e.key@, e.value@, e.path_ok);
    (e.key@, e.value@, v.0, v.1)
}

/// Whether `value` looks like a filesystem path, so that validation will
/// consult its existence: it holds `/` or `\`.
pub fn value_is_path_like(value: &str) -> (r: bool)
    ensures
        r == (has_char(value@, '/') || has_char(value@, '\\')),
{
    crate::text::str_has_char(value, '/') || crate::text::str_has_char(value, '\\')
}

/// Computes the validation verdict for a key/value pair, as
/// [`spec_verdict`] states.  `path_ok` reports whether the value, read as
/// a path, exists on disk; it is only consulted when the value holds a
/// path separator.
pub fn validate_env_value_internal(key: &str, value: &str, path_ok: bool) -> (r: (
    bool,
    Option<String>,
))
    ensures
        ({
            let v = spec_verdict(key@, value@, path_ok);
            r.0 == v.0 && (match (r.1, v.1) {
                (Some(m), Some(vm)) => m@ == vm,
                (None, None) => true,
                _ => false,
            })
        }),
{
    if !is_valid_var_name(key) {
        return (false, Some(String::from_str("变量名格式无效")));
    }
    if str_is_blank(value) {
        return (false, Some(String::from_str("值不能为空")));
    }
    if value_is_path_like(value) && !path_ok {
        return (false, Some(String::from_str("路径不存在")));
    }
    (true, None)
}

/// The rejection that adding `key` meets before anything is mutated:
/// a blank key, a malformed name, or a key the live environment already
/// holds; `None` when the add may proceed.
pub open spec fn spec_add_verdict(key: Seq<char>, exists_in_env: bool) -> Option<Seq<char>> {
    if is_blank(key) {
        Some("变量名不能为空"@)
    } else if !valid_name(key) {
        Some("变量名只能包含字母、数字和下划线，且必须以字母或下划线开头"@)
    } else if exists_in_env {
        Some("该环境变量已存在"@)
    } else {
        None
    }
}

/// Checks whether `key` may be added, given whether the live environment
/// already holds it, as [`spec_add_verdict`] states.
pub fn check_add_env_var(key: &str, exists_in_env: bool) -> (r: Result<(), String>)
    ensures
        ({
            match r {
                Ok(_) => spec_add_verdict(key@, exists_in_env) is None,
                Err(e) => spec_add_verdict(key@, exists_in_env) == Some(e@),
            }
        }),
{
    if str_is_blank(key) {
        return Err(String::from_str("变量名不能为空"));
    }
    if !is_valid_var_name(key) {
        return Err(String::from_str("变量名只能包含字母、数字和下划线，且必须以字母或下划线开头"));
    }
    if exists_in_env {
        return Err(String::from_str("该环境变量已存在"));
    }
    Ok(())
}

/// Adds `key=value`: runs the checks of [`check_add_env_var`], then
/// inserts the statement into the configuration content, and returns the
/// new content to persist.
pub fn add_env_var(key: &str, value: &str, exists_in_env: bool, content: Option<&str>) -> (r:
    Result<String, String>)
    ensures
        ({
            match spec_add_verdict(key@, exists_in_env) {
                Some(m) => r is Err && r->Err_0@ == m,
                None => match r {
                    Ok(out) => spec_insert(opt_view(content), key@, value@) == Ok::<Seq<char>, ()>(
                        out@,
                    ),
                    Err(e) => spec_insert(opt_view(content), key@, value@) is Err && e@
                        == "配置文件已包含该变量，请使用更新功能"@,
                },
            }
        }),
{
    match check_add_env_var(key, exists_in_env) {
        Err(e) => Err(e),
        Ok(_) => crate::editor::insert(content, key, value),
    }
}

/// Updates `key=value`: a blank key is rejected; otherwise the
/// configuration content is rewritten as [`spec_update`] states and
/// returned for persisting.
pub fn update_env_var(key: &str, value: &str, content: Option<&str>) -> (r: Result<String, String>)
    ensures
        ({
            match r {
                Err(e) => is_blank(key@) && e@ == "变量名不能为空"@,
                Ok(out) => !is_blank(key@) && out@ == spec_update(opt_view(content), key@, value@),
            }
        }),
{
    if str_is_blank(key) {
        return Err(String::from_str("变量名不能为空"));
    }
    Ok(crate::editor::update(content, key, value))
}

/// Deletes `key`: a blank key is rejected; otherwise the configuration
/// content is rewritten as [`spec_remove`] states and returned for
/// persisting.  With absent content the result is empty and the caller
/// persists nothing.
pub fn delete_env_var(key: &str, content: Option<&str>) -> (r: Result<String, String>)
    ensures
        ({
            match r {
                Err(e) => is_blank(key@) && e@ == "变量名不能为空"@,
                Ok(out) => !is_blank(key@) && out@ == spec_remove(opt_view(content), key@),
            }
        }),
{
    if str_is_blank(key) {
        return Err(String::from_str("变量名不能为空"));
    }
    Ok(crate::editor::remove(content, key))
}

/// The listing's order: by the lowercase folding of the key, then by
/// arrival for equal foldings.
pub open spec fn le_key(
    a: (Seq<char>, Seq<char>, bool, Option<Seq<char>>),
    b: (Seq<char>, Seq<char>, bool, Option<Seq<char>>),
) -> bool {
    lex_le(lower_of(a.0), lower_of(b.0))
}

/// `x` inserted into `s` after every element that sorts at or before it,
/// so that equal keys keep their arrival order.
pub open spec fn insert_sorted(
    s: Seq<(Seq<char>, Seq<char>, bool, Option<Seq<char>>)>,
    x: (Seq<char>, Seq<char>, bool, Option<Seq<char>>),
) -> Seq<(Seq<char>, Seq<char>, bool, Option<Seq<char>>)>
    decreases s.len(),
{
    if s.len() == 0 {
        seq![x]
    } else if le_key(s.last(), x) {
        s.push(x)
    } else {
        insert_sorted(s.drop_last(), x).push(s.last())
    }
}

/// The stable insertion sort of the listing, element by element.
pub open spec fn sort_views(s: Seq<(Seq<char>, Seq<char>, bool, Option<Seq<char>>)>) -> Seq<
    (Seq<char>, Seq<char>, bool, Option<Seq<char>>),
>
    decreases s.len(),
{
    if s.len() == 0 {
        Seq::empty()
    } else {
        insert_sorted(sort_views(s.drop_last()), s.last())
    }
}

/// What the listing returns for given raw entries: each entry's verdict
/// computed, then the whole sorted case-insensitively by key, ties in
/// arrival order.
pub open spec fn spec_get_env_vars(entries: Seq<EnvEntry>) -> Seq<
    (Seq<char>, Seq<char>, bool, Option<Seq<char>>),
> {
    sort_views(entries.map_values(|e: EnvEntry| entry_view(e)))
}

/// Inserting at the position the comparisons pick is what
/// [`insert_sorted`] does.
proof fn lemma_insert_sorted_at(
    s: Seq<(Seq<char>, Seq<char>, bool, Option<Seq<char>>)>,
    x: (Seq<char>, Seq<char>, bool, Option<Seq<char>>),
    p: int,
)
    requires
        0 <= p <= s.len(),
        forall|t: int| p <= t < s.len() ==> !le_key(#[trigger] s[t], x),
        p > 0 ==> le_key(s[p - 1], x),
    ensures
        insert_sorted(s, x) == s.take(p).push(x) + s.skip(p),
    decreases s.len(),
{
    if s.len() == 0 {
        assert(insert_sorted(s, x) =~= s.take(p).push(x) + s.skip(p));
    } else if le_key(s.last(), x) {
        assert(p == s.len());
        assert(s.take(p) =~= s);
        assert(insert_sorted(s, x) =~= s.take(p).push(x) + s.skip(p));
    } else {
        assert(p < s.len());
        lemma_insert_sorted_at(s.drop_last(), x, p);
        assert(s.drop_last().take(p) =~= s.take(p));
        assert(insert_sorted(s, x) == insert_sorted(s.drop_last(), x).push(s.last()));
        assert((s.drop_last().take(p).push(x) + s.drop_last().skip(p)).push(s.last()) =~= s.take(
            p,
        ).push(x) + s.skip(p));
    }
}

/// Finds where a key whose folded form is `low` belongs among the already
/// sorted folded keys `lows`: after every entry folding at or before it.
fn find_insert_pos(lows: &Vec<String>, low: &str) -> (p: usize)
    ensures
        p <= lows@.len(),
        forall|t: int| p <= t < lows@.len() ==> !lex_le(#[trigger] lows@[t]@, low@),
        p > 0 ==> lex_le(lows@[p - 1]@, low@),
{
    let mut p: usize = lows.len();
    while p > 0
        invariant
            p <= lows@.len(),
            forall|t: int| p <= t < lows@.len() ==> !lex_le(#[trigger] lows@[t]@, low@),
        decreases p,
    {
        if str_lex_le(lows[p - 1].as_str(), low) {
            return p;
        }
        p -= 1;
    }
    p
}

/// Builds the sorted listing of the live environment from its raw
/// entries, as [`spec_get_env_vars`] states: one [`EnvVar`] with its
/// verdict for each pair, ordered case-insensitively by key with ties in
/// arrival order.
pub fn get_env_vars(entries: Vec<EnvEntry>) -> (r: Vec<EnvVar>)
    ensures
        env_var_views(r@) == spec_get_env_vars(entries@),
{
    let n = entries.len();
    let mut out: Vec<EnvVar> = Vec::new();
    let mut lows: Vec<String> = Vec::new();
    let mut i: usize = 0;
    proof {
        assert(entries@.take(0).map_values(|e: EnvEntry| entry_view(e))
            =~= Seq::<(Seq<char>, Seq<char>, bool, Option<Seq<char>>)>::empty());
        assert(env_var_views(out@) =~= sort_views(
            entries@.take(0).map_values(|e: EnvEntry| entry_view(e)),
        ));
    }
    while i < n
        invariant
            n == entries@.len(),
            i <= n,
            out@.len() == lows@.len(),
            forall|k: int| 0 <= k < out@.len() ==> #[trigger] lows@[k]@ == lower_of(out@[k].key@),
            env_var_views(out@) == sort_views(
                entries@.take(i as int).map_values(|e: EnvEntry| entry_view(e)),
            ),
        decreases n - i,
    {
        let key = entries[i].key.clone();
        let value = entries[i].value.clone();
        let (ok, msg) = validate_env_value_internal(key.as_str(), value.as_str(), entries[i].path_ok);
        let ev = EnvVar { key, value, is_valid: ok, error_message: msg };
        let low = lowercase(ev.key.as_str());
        let ghost x = entry_view(entries@[i as int]);
        proof {
            assert(env_var_view(ev) == x);
        }
        let p = find_insert_pos(&lows, low.as_str());
        let ghost sorted_pre = env_var_views(out@);
        proof {
            assert forall|t: int| p <= t < sorted_pre.len() implies !le_key(
                #[trigger] sorted_pre[t],
                x,
            ) by {
                assert(sorted_pre[t].0 == out@[t].key@);
                assert(lows@[t]@ == lower_of(out@[t].key@));
            }
            if p > 0 {
                assert(sorted_pre[p - 1].0 == out@[p - 1].key@);
                assert(lows@[p - 1]@ == lower_of(out@[p - 1].key@));
            }
            lemma_insert_sorted_at(sorted_pre, x, p as int);
        }
        out.insert(p, ev);
        lows.insert(p, low);
        proof {
            let pre = entries@.take(i as int).map_values(|e: EnvEntry| entry_view(e));
            let cur = entries@.take(i + 1).map_values(|e: EnvEntry| entry_view(e));
            assert(cur.drop_last() =~= pre);
            assert(cur.last() == x);
            assert(sort_views(cur) == insert_sorted(sort_views(pre), x));
            assert(env_var_views(out@) =~~= sorted_pre.take(p as int).push(x) + sorted_pre.skip(
                p as int,
            ));
        }
        i += 1;
    }
    proof {
        assert(entries@.take(n as int) =~= entries@);
    }
    out
}

} // verus!
