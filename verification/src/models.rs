//! The model registry: metadata parsed out of per-model descriptor files, and
//! best-effort discovery over a set of descriptor contents. A descriptor is
//! scanned for `"field": "value"` patterns rather than parsed as full
//! structured data; a descriptor without a `key` field is skipped, and the
//! discovered models come back sorted by key.

use vstd::prelude::*;

use crate::text::find_char_from;
use crate::text::find_char;
use crate::text::find_sub_from;
use crate::text::find_pattern;

verus! {

broadcast use vstd::seq_lib::to_multiset_insert, vstd::seq_lib::to_multiset_build;

/// Information about an available model
#[derive(Debug, Clone, PartialEq, Eq)]
pub struct ModelInfo {
    pub key: String,
    pub size: String,
    pub description: String,
}

/// The three fields of a model, as plain character sequences.
pub open spec fn model_repr(m: ModelInfo) -> (Seq<char>, Seq<char>, Seq<char>) {
    (m.key@, m.size@, m.description@)
}

pub open spec fn model_reprs(s: Seq<ModelInfo>) -> Seq<(Seq<char>, Seq<char>, Seq<char>)> {
    s.map_values(|m: ModelInfo| model_repr(m))
}

/// The field name wrapped in double quotes, the pattern a descriptor scan
/// looks for.
pub open spec fn quoted(key: Seq<char>) -> Seq<char> {
    seq!['"'] + key + seq!['"']
}

/// The value extracted for `key` from a descriptor text: after the first
/// occurrence of the quoted field name, skip to the first colon, then to the
/// next double quote; the value runs to the quote after that. `None` when any
/// of those is missing.
pub open spec fn spec_extract(json: Seq<char>, key: Seq<char>) -> Option<Seq<char>> {
    match find_sub_from(json, quoted(key), 0) {
        None => None,
        Some(p) => {
            let colon = find_char_from(json, ':', p + quoted(key).len());
            if colon >= json.len() {
                None
            } else {
                let q1 = find_char_from(json, '"', colon + 1);
                if q1 >= json.len() {
                    None
                } else {
                    let q2 = find_char_from(json, '"', q1 + 1);
                    if q2 >= json.len() {
                        None
                    } else {
                        Some(json.subrange(q1 + 1, q2))
                    }
                }
            }
        },
    }
}

/// Extract a string value from JSON (simple implementation)
pub fn extract_json_string(json: &str, key: &str) -> (r: Option<String>)
    ensures
        match r {
            Some(v) => spec_extract(json@, key@) == Some(v@),
            None => spec_extract(json@, key@) is None,
        },
{
    let mut pat = String::new();
    pat.append("\"");
    pat.append(key);
    pat.append("\"");
    proof {
        reveal_strlit("\"");
        assert(pat@ =~= quoted(key@));
    }
    let p = match find_pattern(json, pat.as_str(), 0) {
        Some(p) => p,
        None => {
            return None;
        },
    };
    let n = json.unicode_len();
    let after = p + pat.as_str().unicode_len();
    let colon = find_char(json, ':', after);
    if colon >= n {
        return None;
    }
    let q1 = find_char(json, '"', colon + 1);
    if q1 >= n {
        return None;
    }
    let q2 = find_char(json, '"', q1 + 1);
    if q2 >= n {
        return None;
    }
    Some(json.substring_char(q1 + 1, q2).to_owned())
}

/// The model a descriptor text describes: `None` without a `key` field; a
/// missing `size` or `description` falls back to a fixed placeholder.
pub open spec fn spec_parse_model(s: Seq<char>) -> Option<(Seq<char>, Seq<char>, Seq<char>)> {
    match spec_extract(s, "key"@) {
        None => None,
        Some(k) => Some(
            (
                k,
                match spec_extract(s, "size"@) {
                    Some(v) => v,
                    None => "Unknown"@,
                },
                match spec_extract(s, "description"@) {
                    Some(v) => v,
                    None => "No description"@,
                },
            ),
        ),
    }
}

/// Simple JSON parser for model metadata
pub fn parse_model_json(content: &str) -> (r: Option<ModelInfo>)
    ensures
        match r {
            Some(m) => spec_parse_model(content@) == Some(model_repr(m)),
            None => spec_parse_model(content@) is None,
        },
{
    let key = match extract_json_string(content, "key") {
        Some(k) => k,
        None => {
            return None;
        },
    };
    let size = match extract_json_string(content, "size") {
        Some(v) => v,
        None => "Unknown".to_owned(),
    };
    let description = match extract_json_string(content, "description") {
        Some(v) => v,
        None => "No description".to_owned(),
    };
    Some(ModelInfo { key, size, description })
}

/// Lexicographic order on character sequences by code point, compared from
/// index `i` on; the order the discovered models are sorted in.
pub open spec fn lex_le_from(a: Seq<char>, b: Seq<char>, i: int) -> bool
    recommends
        0 <= i,
    decreases a.len() - i,
{
    if i >= a.len() {
        true
    } else if i >= b.len() {
        false
    } else if a[i] as int == b[i] as int {
        lex_le_from(a, b, i + 1)
    } else {
        (a[i] as int) < (b[i] as int)
    }
}

pub open spec fn lex_le(a: Seq<char>, b: Seq<char>) -> bool {
    lex_le_from(a, b, 0)
}

proof fn lemma_lex_total_from(a: Seq<char>, b: Seq<char>, i: int)
    ensures
        lex_le_from(a, b, i) || lex_le_from(b, a, i),
    decreases a.len() - i,
{
    if i >= a.len() {
    } else if i >= b.len() {
    } else if a[i] as int == b[i] as int {
        lemma_lex_total_from(a, b, i + 1);
    } else {
    }
}

/// Totality of the sort order: of any two keys, one precedes the other.
pub proof fn lemma_lex_le_total(a: Seq<char>, b: Seq<char>)
    ensures
        lex_le(a, b) || lex_le(b, a),
{
    lemma_lex_total_from(a, b, 0);
}

proof fn lemma_lex_trans_from(a: Seq<char>, b: Seq<char>, c: Seq<char>, i: int)
    requires
        lex_le_from(a, b, i),
        lex_le_from(b, c, i),
    ensures
        lex_le_from(a, c, i),
    decreases a.len() - i,
{
    if i >= a.len() {
    } else {
        assert(i < b.len());
        assert(i < c.len());
        if a[i] as int == b[i] as int && b[i] as int == c[i] as int {
            lemma_lex_trans_from(a, b, c, i + 1);
        }
    }
}

/// Transitivity of the sort order.
pub proof fn lemma_lex_le_trans(a: Seq<char>, b: Seq<char>, c: Seq<char>)
    requires
        lex_le(a, b),
        lex_le(b, c),
    ensures
        lex_le(a, c),
{
    lemma_lex_trans_from(a, b, c, 0);
}

/// Compare two strings in the sort order of the registry.
pub fn str_le(a: &str, b: &str) -> (r: bool)
    ensures
        r == lex_le(a@, b@),
{
    let na = a.unicode_len();
    let nb = b.unicode_len();
    let mut i: usize = 0;
    loop
        invariant
            i <= na,
            i <= nb,
            na == a@.len(),
            nb == b@.len(),
            lex_le(a@, b@) == lex_le_from(a@, b@, i as int),
        decreases na - i,
    {
        if i >= na {
            return true;
        }
        if i >= nb {
            return false;
        }
        let ca = a.get_char(i) as u32;
        let cb = b.get_char(i) as u32;
        if ca == cb {
            i = i + 1;
        } else {
            return ca < cb;
        }
    }
}

/// The registry's output order: ascending by key.
pub open spec fn sorted_by_key(s: Seq<ModelInfo>) -> bool {
    forall|i: int, j: int| 0 <= i < j < s.len() ==> lex_le(s[i].key@, s[j].key@)
}

/// Where a model lands among already-sorted ones: after every model whose key
/// precedes or equals its own, before the rest — so models with equal keys
/// keep their input order.
pub open spec fn spec_insert(
    s: Seq<(Seq<char>, Seq<char>, Seq<char>)>,
    t: (Seq<char>, Seq<char>, Seq<char>),
) -> Seq<(Seq<char>, Seq<char>, Seq<char>)>
    decreases s.len(),
{
    if s.len() == 0 {
        seq![t]
    } else if lex_le(s[0].0, t.0) {
        seq![s[0]] + spec_insert(s.drop_first(), t)
    } else {
        seq![t] + s
    }
}

/// The models sorted by key: each inserted in turn into the sorted models
/// before it.
pub open spec fn spec_sort(s: Seq<(Seq<char>, Seq<char>, Seq<char>)>) -> Seq<
    (Seq<char>, Seq<char>, Seq<char>),
>
    decreases s.len(),
{
    if s.len() == 0 {
        s
    } else {
        spec_insert(spec_sort(s.drop_last()), s.last())
    }
}

proof fn lemma_spec_insert_at(
    s: Seq<(Seq<char>, Seq<char>, Seq<char>)>,
    t: (Seq<char>, Seq<char>, Seq<char>),
    k: int,
)
    requires
        0 <= k <= s.len(),
        forall|j: int| 0 <= j < k ==> lex_le(s[j].0, t.0),
        k < s.len() ==> !lex_le(s[k].0, t.0),
    ensures
        spec_insert(s, t) == s.insert(k, t),
    decreases s.len(),
{
    if k == 0 {
        if s.len() == 0 {
            assert(spec_insert(s, t) =~= s.insert(0, t));
        } else {
            assert(spec_insert(s, t) =~= s.insert(0, t));
        }
    } else {
        lemma_spec_insert_at(s.drop_first(), t, k - 1);
        assert(seq![s[0]] + s.drop_first().insert(k - 1, t) =~= s.insert(k, t));
    }
}

proof fn lemma_model_reprs_insert(s: Seq<ModelInfo>, i: int, m: ModelInfo)
    requires
        0 <= i <= s.len(),
    ensures
        model_reprs(s.insert(i, m)) =~= model_reprs(s).insert(i, model_repr(m)),
{
    assert forall|x: int| 0 <= x < s.len() + 1 implies model_reprs(s.insert(i, m))[x]
        == model_reprs(s).insert(i, model_repr(m))[x] by {
        if x < i {
        } else if x == i {
        } else {
        }
    }
}

/// Insert a model into a key-sorted vector, keeping it sorted; the insertion
/// step of discovery.
fn insert_sorted(out: &mut Vec<ModelInfo>, m: ModelInfo)
    requires
        sorted_by_key(old(out)@),
    ensures
        sorted_by_key(final(out)@),
        model_reprs(final(out)@) == spec_insert(model_reprs(old(out)@), model_repr(m)),
        model_reprs(final(out)@).to_multiset() == model_reprs(old(out)@).to_multiset().insert(
            model_repr(m),
        ),
{
    let ghost pre = out@;
    let n = out.len();
    let mut k: usize = 0;
    loop
        invariant
            k <= n,
            n == out@.len(),
            out@ == pre,
            sorted_by_key(pre),
            forall|j: int| 0 <= j < k ==> lex_le(pre[j].key@, m.key@),
        ensures
            k <= n,
            out@ == pre,
            forall|j: int| 0 <= j < k ==> lex_le(pre[j].key@, m.key@),
            k < n ==> !lex_le(pre[k as int].key@, m.key@),
        decreases n - k,
    {
        if k >= n {
            break;
        }
        if !str_le(out[k].key.as_str(), m.key.as_str()) {
            break;
        }
        k = k + 1;
    }
    out.insert(k, m);
    proof {
        let post = out@;
        assert(post == pre.insert(k as int, m));
        if (k as int) < pre.len() {
            lemma_lex_le_total(pre[k as int].key@, m.key@);
        }
        assert forall|i: int, j: int| 0 <= i < j < post.len() implies lex_le(
            post[i].key@,
            post[j].key@,
        ) by {
            if j < k {
            } else if i < k && j == k {
            } else if i < k && j > k {
            } else if i == k && j > k {
                if k as int + 1 <= j - 1 {
                    lemma_lex_le_trans(m.key@, pre[k as int].key@, pre[j - 1].key@);
                }
            } else {
            }
        }
        lemma_model_reprs_insert(pre, k as int, m);
        assert forall|j: int| 0 <= j < k implies lex_le(model_reprs(pre)[j].0, model_repr(m).0) by {
            assert(model_reprs(pre)[j] == model_repr(pre[j]));
        }
        if (k as int) < pre.len() {
            assert(model_reprs(pre)[k as int] == model_repr(pre[k as int]));
        }
        lemma_spec_insert_at(model_reprs(pre), model_repr(m), k as int);
    }
}

/// All views of a set of descriptor contents.
pub open spec fn content_views(cs: Seq<String>) -> Seq<Seq<char>> {
    cs.map_values(|s: String| s@)
}

/// The models parsed out of a sequence of descriptor contents, in input
/// order, descriptors without a `key` field skipped.
pub open spec fn parsed_models(cs: Seq<Seq<char>>) -> Seq<(Seq<char>, Seq<char>, Seq<char>)>
    decreases cs.len(),
{
    if cs.len() == 0 {
        Seq::empty()
    } else {
        let rest = parsed_models(cs.drop_last());
        match spec_parse_model(cs.last()) {
            Some(t) => rest.push(t),
            None => rest,
        }
    }
}

/// Discover the models described by a set of descriptor file contents: parse
/// each, skip the malformed, and return the rest sorted by key. The result
/// holds exactly the parsed models, duplicates included; models with equal
/// keys keep their input order.
pub fn discover_models_from(contents: &Vec<String>) -> (r: Vec<ModelInfo>)
    ensures
        sorted_by_key(r@),
        model_reprs(r@) == spec_sort(parsed_models(content_views(contents@))),
        model_reprs(r@).to_multiset() == parsed_models(content_views(contents@)).to_multiset(),
{
    let ghost cvs = content_views(contents@);
    let mut out: Vec<ModelInfo> = Vec::new();
    proof {
        assert(cvs.take(0) =~= Seq::<Seq<char>>::empty());
        assert(model_reprs(out@) =~= Seq::<(Seq<char>, Seq<char>, Seq<char>)>::empty());
    }
    let mut i: usize = 0;
    while i < contents.len()
        invariant
            i <= contents@.len(),
            cvs == content_views(contents@),
            sorted_by_key(out@),
            model_reprs(out@) == spec_sort(parsed_models(cvs.take(i as int))),
            model_reprs(out@).to_multiset() == parsed_models(cvs.take(i as int)).to_multiset(),
        decreases contents@.len() - i,
    {
        proof {
            assert(cvs.take(i + 1).drop_last() =~= cvs.take(i as int));
            assert(cvs.take(i + 1).last() == contents@[i as int]@);
        }
        match parse_model_json(contents[i].as_str()) {
            Some(m) => {
                proof {
                    let t = model_repr(m);
                    let prev = parsed_models(cvs.take(i as int));
                    assert(parsed_models(cvs.take(i + 1)) == prev.push(t));
                    assert(prev.push(t).drop_last() =~= prev);
                    assert(spec_sort(prev.push(t)) == spec_insert(spec_sort(prev), t));
                }
                insert_sorted(&mut out, m);
            },
            None => {},
        }
        i = i + 1;
    }
    proof {
        assert(cvs.take(contents@.len() as int) =~= cvs);
    }
    out
}

} // verus!
