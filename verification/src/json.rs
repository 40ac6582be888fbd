//! Structural analysis, validation and reformatting of JSON documents.
//!
//! Parsing and serialization are serde_json's work and stay behind trusted
//! wrappers; the statistics pass over the parsed tree is verified here.

use crate::text::is_blank;
use crate::text::str_is_blank;
use vstd::prelude::*;

verus! {

#[verifier::external_type_specification]
#[verifier::external_body]
pub struct ExNumber(serde_json::Number);

#[verifier::external_type_specification]
#[verifier::external_body]
pub struct ExValue(serde_json::Value);

/// A parsed JSON document tree.  Numbers are carried as the parser's own
/// number type, which the statistics never look into.
pub enum JsonNode {
    Null,
    Bool(bool),
    Num(serde_json::Number),
    Text(String),
    Array(Vec<JsonNode>),
    Object(Vec<JsonMember>),
}

/// One named member of a JSON object.
pub struct JsonMember {
    pub name: String,
    pub value: JsonNode,
}

/// Statistics derived from a JSON tree; the root sits at depth 0.
#[derive(Debug, PartialEq, Eq)]
pub struct JsonStats {
    pub key_count: usize,
    pub max_depth: usize,
    pub object_count: usize,
    pub array_count: usize,
}

/// The outcome of validating a JSON text: statistics are present exactly
/// when the text is valid.
#[derive(Debug)]
pub struct JsonValidationResult {
    pub is_valid: bool,
    pub error: Option<String>,
    pub stats: Option<JsonStats>,
}

pub open spec fn nat_max(a: nat, b: nat) -> nat {
    if a >= b {
        a
    } else {
        b
    }
}

/// The statistics of one node, as mathematical numbers:
/// `(key_count, max_depth, object_count, array_count)`.  Every object or
/// array node counts once wherever it sits; `key_count` sums the member
/// counts of all objects; `max_depth` is the largest depth any node
/// reaches, the node itself sitting at depth 0.
pub open spec fn stats_of(n: JsonNode) -> (nat, nat, nat, nat)
    decreases n,
{
    match n {
        JsonNode::Array(cs) => {
            let t = stats_of_seq(cs@);
            (t.0, if cs@.len() == 0 {
                0
            } else {
                t.1 + 1
            }, t.2, t.3 + 1)
        },
        JsonNode::Object(ms) => {
            let t = stats_of_members(ms@);
            (t.0 + ms@.len(), if ms@.len() == 0 {
                0
            } else {
                t.1 + 1
            }, t.2 + 1, t.3)
        },
        _ => (0, 0, 0, 0),
    }
}

/// Combined statistics of a list of nodes: counts add up, depths take
/// the maximum.
pub open spec fn stats_of_seq(s: Seq<JsonNode>) -> (nat, nat, nat, nat)
    decreases s,
{
    if s.len() == 0 {
        (0nat, 0nat, 0nat, 0nat)
    } else {
        let t = stats_of_seq(s.drop_last());
        let h = stats_of(s.last());
        (t.0 + h.0, nat_max(t.1, h.1), t.2 + h.2, t.3 + h.3)
    }
}

/// Combined statistics of the values of a list of object members.
pub open spec fn stats_of_members(s: Seq<JsonMember>) -> (nat, nat, nat, nat)
    decreases s,
{
    if s.len() == 0 {
        (0nat, 0nat, 0nat, 0nat)
    } else {
        let t = stats_of_members(s.drop_last());
        let h = stats_of(s.last().value);
        (t.0 + h.0, nat_max(t.1, h.1), t.2 + h.2, t.3 + h.3)
    }
}

/// A count clamped to what a machine word holds.
pub open spec fn capped(x: nat) -> nat {
    if x > usize::MAX as nat {
        usize::MAX as nat
    } else {
        x
    }
}

/// Whether `st` reports exactly the statistics of `n`, each count
/// saturating at the machine-word maximum.
pub open spec fn stats_match(st: JsonStats, n: JsonNode) -> bool {
    &&& st.key_count as nat == capped(stats_of(n).0)
    &&& st.max_depth as nat == capped(stats_of(n).1)
    &&& st.object_count as nat == capped(stats_of(n).2)
    &&& st.array_count as nat == capped(stats_of(n).3)
}

/// Addition that saturates at the machine-word maximum.
fn sat_add(a: usize, b: usize) -> (r: usize)
    ensures
        r as nat == capped(a as nat + b as nat),
{
    if a > usize::MAX - b {
        usize::MAX
    } else {
        a + b
    }
}

/// Walks the tree and accumulates its statistics, as [`stats_match`]
/// states: exact counts wherever they fit in a machine word, saturated
/// otherwise.
#[verifier::loop_isolation(false)]
pub fn calculate_json_stats(value: &JsonNode) -> (r: JsonStats)
    ensures
        stats_match(r, *value),
    decreases *value,
{
    match value {
        JsonNode::Array(cs) => {
            let mut kc: usize = 0;
            let mut md: usize = 0;
            let mut oc: usize = 0;
            let mut ac: usize = 0;
            let mut i: usize = 0;
            proof {
                assert(cs@.take(0) =~= Seq::<JsonNode>::empty());
            }
            while i < cs.len()
                invariant
                    i <= cs@.len(),
                    kc as nat == capped(stats_of_seq(cs@.take(i as int)).0),
                    md as nat == capped(stats_of_seq(cs@.take(i as int)).1),
                    oc as nat == capped(stats_of_seq(cs@.take(i as int)).2),
                    ac as nat == capped(stats_of_seq(cs@.take(i as int)).3),
                decreases cs@.len() - i,
            {
                proof {
                    assert(*value == JsonNode::Array(*cs));
                    assert(decreases_to!(*value => (*value)->Array_0));
                    assert((*value)->Array_0 == *cs);
                    assert(decreases_to!(*cs => cs@));
                    assert(decreases_to!(cs@ => cs@[i as int]));
                    assert(decreases_to!(*value => cs@[i as int]));
                }
                let c = calculate_json_stats(&cs[i]);
                kc = sat_add(kc, c.key_count);
                if c.max_depth > md {
                    md = c.max_depth;
                }
                oc = sat_add(oc, c.object_count);
                ac = sat_add(ac, c.array_count);
                proof {
                    assert(cs@.take(i + 1).drop_last() =~= cs@.take(i as int));
                    assert(cs@.take(i + 1).last() == cs@[i as int]);
                }
                i += 1;
            }
            proof {
                assert(cs@.take(cs@.len() as int) =~= cs@);
            }
            let depth = if cs.len() == 0 {
                0
            } else {
                sat_add(md, 1)
            };
            JsonStats { key_count: kc, max_depth: depth, object_count: oc, array_count: sat_add(ac, 1) }
        },
        JsonNode::Object(ms) => {
            let mut kc: usize = 0;
            let mut md: usize = 0;
            let mut oc: usize = 0;
            let mut ac: usize = 0;
            let mut i: usize = 0;
            proof {
                assert(ms@.take(0) =~= Seq::<JsonMember>::empty());
            }
            while i < ms.len()
                invariant
                    i <= ms@.len(),
                    kc as nat == capped(stats_of_members(ms@.take(i as int)).0),
                    md as nat == capped(stats_of_members(ms@.take(i as int)).1),
                    oc as nat == capped(stats_of_members(ms@.take(i as int)).2),
                    ac as nat == capped(stats_of_members(ms@.take(i as int)).3),
                decreases ms@.len() - i,
            {
                proof {
                    assert(*value == JsonNode::Object(*ms));
                    assert(decreases_to!(*value => (*value)->Object_0));
                    assert((*value)->Object_0 == *ms);
                    assert(decreases_to!(*ms => ms@));
                    assert(decreases_to!(ms@ => ms@[i as int]));
                    assert(decreases_to!(ms@[i as int] => ms@[i as int].value));
                    assert(decreases_to!(*value => ms@[i as int].value));
                }
                let c = calculate_json_stats(&ms[i].value);
                kc = sat_add(kc, c.key_count);
                if c.max_depth > md {
                    md = c.max_depth;
                }
                oc = sat_add(oc, c.object_count);
                ac = sat_add(ac, c.array_count);
                proof {
                    assert(ms@.take(i + 1).drop_last() =~= ms@.take(i as int));
                    assert(ms@.take(i + 1).last() == ms@[i as int]);
                }
                i += 1;
            }
            proof {
                assert(ms@.take(ms@.len() as int) =~= ms@);
            }
            let depth = if ms.len() == 0 {
                0
            } else {
                sat_add(md, 1)
            };
            JsonStats {
                key_count: sat_add(kc, ms.len()),
                max_depth: depth,
                object_count: sat_add(oc, 1),
                array_count: ac,
            }
        },
        _ => JsonStats { key_count: 0, max_depth: 0, object_count: 0, array_count: 0 },
    }
}

/// What parsing a text yields: the tree, or the parser's error message.
/// The outcome depends on the text alone.
pub uninterp spec fn parse_of(s: Seq<char>) -> Result<JsonNode, Seq<char>>;

/// What serializing a tree with two-space indentation yields; a function
/// of the tree alone.
pub uninterp spec fn pretty_of(n: JsonNode) -> Seq<char>;

/// What serializing a tree compactly yields; a function of the tree
/// alone.
pub uninterp spec fn compact_of(n: JsonNode) -> Seq<char>;

/// Relies on `serde_json::from_str::<serde_json::Value>`: deterministic
/// parsing of the text into a value tree, or an error message that also
/// depends on the text alone.  The tree is carried over into the
/// library's own node type, variant by variant.
#[verifier::external_body]
fn parse_json(s: &str) -> (r: Result<JsonNode, String>)
    ensures
        ({
            match r {
                Ok(n) => parse_of(s@) == Ok::<JsonNode, Seq<char>>(n),
                Err(e) => parse_of(s@) == Err::<JsonNode, Seq<char>>(e@),
            }
        }),
{
    match serde_json::from_str::<serde_json::Value>(s) {
        Ok(v) => Ok(node_of_value(v)),
        Err(e) => Err(e.to_string()),
    }
}

/// Conversion half of [`parse_json`]: carries `serde_json::Value` over
/// into [`JsonNode`], variant by variant, moving the fields.
#[verifier::external_body]
fn node_of_value(v: serde_json::Value) -> JsonNode {
    match v {
        serde_json::Value::Null => JsonNode::Null,
        serde_json::Value::Bool(b) => JsonNode::Bool(b),
        serde_json::Value::Number(x) => JsonNode::Num(x),
        serde_json::Value::String(s) => JsonNode::Text(s),
        serde_json::Value::Array(a) => JsonNode::Array(a.into_iter().map(node_of_value).collect()),
        serde_json::Value::Object(m) => JsonNode::Object(
            m.into_iter().map(|(k, v)| JsonMember { name: k, value: node_of_value(v) }).collect(),
        ),
    }
}

/// Conversion half of [`to_pretty`] and [`to_compact`]: carries
/// [`JsonNode`] back into `serde_json::Value`, variant by variant.
#[verifier::external_body]
fn value_of_node(n: &JsonNode) -> serde_json::Value {
    match n {
        JsonNode::Null => serde_json::Value::Null,
        JsonNode::Bool(b) => serde_json::Value::Bool(*b),
        JsonNode::Num(x) => serde_json::Value::Number(x.clone()),
        JsonNode::Text(s) => serde_json::Value::String(s.clone()),
        JsonNode::Array(cs) => serde_json::Value::Array(cs.iter().map(value_of_node).collect()),
        JsonNode::Object(ms) => serde_json::Value::Object(
            ms.iter().map(|m| (m.name.clone(), value_of_node(&m.value))).collect(),
        ),
    }
}

/// Relies on `serde_json::to_string_pretty`: two-space-indented
/// serialization of the tree, a function of the tree alone.  Serializing
/// a plain value tree never fails, so the error arm is unreachable.
#[verifier::external_body]
fn to_pretty(n: &JsonNode) -> (r: String)
    ensures
        r@ == pretty_of(*n),
{
    match serde_json::to_string_pretty(&value_of_node(n)) {
        Ok(s) => s,
        Err(_) => String::new(),
    }
}

/// Relies on `serde_json::to_string`: compact serialization of the tree,
/// a function of the tree alone.  Serializing a plain value tree never
/// fails, so the error arm is unreachable.
#[verifier::external_body]
fn to_compact(n: &JsonNode) -> (r: String)
    ensures
        r@ == compact_of(*n),
{
    match serde_json::to_string(&value_of_node(n)) {
        Ok(s) => s,
        Err(_) => String::new(),
    }
}

/// Pretty-prints a JSON text with two-space indentation.  Blank input and
/// malformed input are rejected, each with its message.
pub fn format_json(json_str: &str) -> (r: Result<String, String>)
    ensures
        ({
            if is_blank(json_str@) {
                r is Err && r->Err_0@ == "JSON 字符串不能为空"@
            } else {
                match parse_of(json_str@) {
                    Ok(n) => r is Ok && r->Ok_0@ == pretty_of(n),
                    Err(m) => r is Err && r->Err_0@ == "JSON 解析错误: "@ + m,
                }
            }
        }),
{
    if str_is_blank(json_str) {
        return Err(String::from_str("JSON 字符串不能为空"));
    }
    match parse_json(json_str) {
        Ok(n) => Ok(to_pretty(&n)),
        Err(e) => {
            let mut msg = String::from_str("JSON 解析错误: ");
            msg.append(e.as_str());
            Err(msg)
        },
    }
}

/// Re-serializes a JSON text compactly, with no insignificant
/// whitespace.  Blank input and malformed input are rejected, each with
/// its message.
pub fn minify_json(json_str: &str) -> (r: Result<String, String>)
    ensures
        ({
            if is_blank(json_str@) {
                r is Err && r->Err_0@ == "JSON 字符串不能为空"@
            } else {
                match parse_of(json_str@) {
                    Ok(n) => r is Ok && r->Ok_0@ == compact_of(n),
                    Err(m) => r is Err && r->Err_0@ == "JSON 解析错误: "@ + m,
                }
            }
        }),
{
    if str_is_blank(json_str) {
        return Err(String::from_str("JSON 字符串不能为空"));
    }
    match parse_json(json_str) {
        Ok(n) => Ok(to_compact(&n)),
        Err(e) => {
            let mut msg = String::from_str("JSON 解析错误: ");
            msg.append(e.as_str());
            Err(msg)
        },
    }
}

/// The view of an optional message.
pub open spec fn msg_view(o: Option<String>) -> Option<Seq<char>> {
    match o {
        Some(m) => Some(m@),
        None => None,
    }
}

/// Validates a JSON text.  This never fails as an operation: blank input
/// and parse failures are reported in the result, and statistics are
/// present exactly when the text is valid.
pub fn validate_json(json_str: &str) -> (r: JsonValidationResult)
    ensures
        is_blank(json_str@) ==> !r.is_valid && msg_view(r.error) == Some("JSON 字符串不能为空"@)
            && r.stats is None,
        !is_blank(json_str@) ==> match parse_of(json_str@) {
            Ok(n) => r.is_valid && r.error is None && (r.stats matches Some(st) && stats_match(
                st,
                n,
            )),
            Err(m) => !r.is_valid && msg_view(r.error) == Some(m) && r.stats is None,
        },
{
    if str_is_blank(json_str) {
        return JsonValidationResult {
            is_valid: false,
            error: Some(String::from_str("JSON 字符串不能为空")),
            stats: None,
        };
    }
    match parse_json(json_str) {
        Ok(n) => {
            let stats = calculate_json_stats(&n);
            JsonValidationResult { is_valid: true, error: None, stats: Some(stats) }
        },
        Err(e) => JsonValidationResult { is_valid: false, error: Some(e), stats: None },
    }
}

} // verus!
