//! The object encoding: one JSON object per line. Parsing and the escaping of
//! strings are serde_json's; the library picks members, derives values and frames
//! the output object.
use vstd::prelude::*;
use crate::text::{
    before_first, char_views, chars_equal, chars_of, concat_sep, index_of, lemma_first_index,
    push_all, slice_chars, string_of, truncate_chars, truncate_spec,
};
use crate::codec::{col_pos_spec, find_col, is_first_col, join_spec, lemma_col_pos};
use crate::edge::{edge_key, edge_key_spec, opt_view, resolve_endpoint, resolve_spec};
use crate::table::Translation;
use serde_json::Value;

verus! {

/// Why a line yields no object.
#[derive(Clone, Copy, Debug, PartialEq, Eq, Structural)]
pub enum JsonLineError {
    /// The line is not valid JSON.
    Malformed,
    /// The line is valid JSON but not an object.
    NotObject,
}

/// What the transforms read of a member's value.
#[derive(Debug)]
pub enum MemberValue {
    Str(String),
    Null,
    Bool(bool),
    /// A number, in its canonical text.
    Number(String),
    /// An array or an object.
    Complex,
}

/// The view of a member's value.
pub enum MemberValueView {
    Str(Seq<char>),
    Null,
    Bool(bool),
    Number(Seq<char>),
    Complex,
}

impl View for MemberValue {
    type V = MemberValueView;

    open spec fn view(&self) -> MemberValueView {
        match self {
            MemberValue::Str(s) => MemberValueView::Str(s@),
            MemberValue::Null => MemberValueView::Null,
            MemberValue::Bool(b) => MemberValueView::Bool(*b),
            MemberValue::Number(t) => MemberValueView::Number(t@),
            MemberValue::Complex => MemberValueView::Complex,
        }
    }
}

/// One member of an object: its name, its value, and the value's compact JSON text.
#[derive(Debug)]
pub struct JsonMember {
    pub name: String,
    pub value: MemberValue,
    pub raw: String,
}

/// The view of a member.
pub struct MemberView {
    pub name: Seq<char>,
    pub value: MemberValueView,
    pub raw: Seq<char>,
}

impl View for JsonMember {
    type V = MemberView;

    open spec fn view(&self) -> MemberView {
        MemberView { name: self.name@, value: self.value@, raw: self.raw@ }
    }
}

pub open spec fn members_view(ms: Seq<JsonMember>) -> Seq<MemberView> {
    ms.map_values(|m: JsonMember| m@)
}

/// The members serde_json reads from a line, in their order, or why there are none.
pub uninterp spec fn parsed_object(line: Seq<char>) -> Result<Seq<MemberView>, JsonLineError>;

/// A lowercase hexadecimal digit.
pub open spec fn hex_digit(d: int) -> char {
    seq!['0', '1', '2', '3', '4', '5', '6', '7', '8', '9', 'a', 'b', 'c', 'd', 'e', 'f'][d]
}

/// How one character is written inside a JSON string literal: quote and backslash
/// escaped, the control characters as `\b \t \n \f \r` or `\u00xx`, the rest as is.
pub open spec fn json_escape(c: char) -> Seq<char> {
    if c == '"' {
        seq!['\\', '"']
    } else if c == '\\' {
        seq!['\\', '\\']
    } else if c == '\u{8}' {
        seq!['\\', 'b']
    } else if c == '\t' {
        seq!['\\', 't']
    } else if c == '\n' {
        seq!['\\', 'n']
    } else if c == '\u{c}' {
        seq!['\\', 'f']
    } else if c == '\r' {
        seq!['\\', 'r']
    } else if (c as u32) < 0x20 {
        seq!['\\', 'u', '0', '0', hex_digit((c as u32) as int / 16), hex_digit((c as u32) as int % 16)]
    } else {
        seq![c]
    }
}

/// The characters of a string, each escaped.
pub open spec fn json_escaped(s: Seq<char>) -> Seq<char>
    decreases s.len(),
{
    if s.len() == 0 {
        seq![]
    } else {
        json_escaped(s.drop_last()) + json_escape(s.last())
    }
}

/// The JSON string literal serde_json writes for a string.
pub open spec fn json_quoted(s: Seq<char>) -> Seq<char> {
    seq!['"'] + json_escaped(s) + seq!['"']
}

/// Relies on `serde_json::from_str` (object members in input order, as the
/// `preserve_order` feature keeps them), `Value`'s `Display` for each member's compact
/// text, and `Number`'s `Display` for a number's text.
#[verifier::external_body]
fn parse_object_line(line: &str) -> (r: Result<Vec<JsonMember>, JsonLineError>)
    ensures
        match r {
            Ok(ms) => parsed_object(line@) == Ok::<Seq<MemberView>, JsonLineError>(members_view(ms@)),
            Err(e) => parsed_object(line@) == Err::<Seq<MemberView>, JsonLineError>(e),
        },
{
    let m = match serde_json::from_str::<Value>(line) {
        Ok(Value::Object(m)) => m,
        Ok(_) => return Err(JsonLineError::NotObject),
        Err(_) => return Err(JsonLineError::Malformed),
    };
    Ok(m.into_iter().map(|(name, v)| JsonMember { name, raw: v.to_string(), value: match v {
        Value::String(s) => MemberValue::Str(s),
        Value::Null => MemberValue::Null,
        Value::Bool(b) => MemberValue::Bool(b),
        Value::Number(n) => MemberValue::Number(n.to_string()),
        _ => MemberValue::Complex,
    } }).collect())
}

/// Relies on `serde_json::to_string` of a `str` (`format_escaped_str` with its escape
/// table): the string in quotes, each character escaped as `json_escape` says.
#[verifier::external_body]
fn json_quote(s: &str) -> (r: String)
    ensures
        r@ == json_quoted(s@),
{
    serde_json::to_string(s).unwrap_or_default()
}

/// The names of the members.
pub open spec fn member_names(ms: Seq<MemberView>) -> Seq<Seq<char>> {
    Seq::new(ms.len(), |i: int| ms[i].name)
}

/// The value of the first member called `name`, if any.
pub open spec fn member_get(ms: Seq<MemberView>, name: Seq<char>) -> Option<MemberValueView> {
    if member_names(ms).contains(name) {
        Some(ms[col_pos_spec(member_names(ms), name)].value)
    } else {
        None
    }
}

/// The compact text of an object with these members (name, value text), in order.
pub open spec fn object_text(ms: Seq<(Seq<char>, Seq<char>)>) -> Seq<char> {
    seq!['{'] + join_spec(Seq::new(ms.len(), |i: int| json_quoted(ms[i].0) + seq![':'] + ms[i].1), ',')
        + seq!['}']
}

/// The views of (name, value text) pairs.
pub open spec fn pairs_view(ps: Seq<(String, String)>) -> Seq<(Seq<char>, Seq<char>)> {
    ps.map_values(|p: (String, String)| (p.0@, p.1@))
}

/// Index of the first member called `name`.
fn find_member(ms: &Vec<JsonMember>, name: &Vec<char>) -> (r: Option<usize>)
    ensures
        match r {
            Some(i) => i < ms@.len() && member_names(members_view(ms@)).contains(name@)
                && col_pos_spec(member_names(members_view(ms@)), name@) == i,
            None => !member_names(members_view(ms@)).contains(name@),
        },
{
    let ghost names = member_names(members_view(ms@));
    let mut i: usize = 0;
    while i < ms.len()
        invariant
            i <= ms@.len(),
            names == member_names(members_view(ms@)),
            forall|j: int| 0 <= j < i ==> names[j] != name@,
        decreases ms@.len() - i,
    {
        let n = chars_of(ms[i].name.as_str());
        if chars_equal(&n, name) {
            proof {
                assert(is_first_col(names, name@, i as int));
                lemma_col_pos(names, name@, i as int);
            }
            return Some(i);
        }
        i += 1;
    }
    assert(!names.contains(name@));
    None
}

/// Frames the members as one compact JSON object.
pub fn render_object(ps: &Vec<(String, String)>) -> (r: String)
    ensures
        r@ == object_text(pairs_view(ps@)),
{
    let ghost items = Seq::new(ps@.len(), |i: int| json_quoted(ps@[i].0@) + seq![':'] + ps@[i].1@);
    let mut body: Vec<char> = Vec::new();
    let mut i: usize = 0;
    while i < ps.len()
        invariant
            i <= ps@.len(),
            items == Seq::new(ps@.len(), |i: int| json_quoted(ps@[i].0@) + seq![':'] + ps@[i].1@),
            body@ == join_spec(items.subrange(0, i as int), ','),
        decreases ps@.len() - i,
    {
        assert(items.subrange(0, i + 1).drop_last() =~= items.subrange(0, i as int));
        if i > 0 {
            body.push(',');
        }
        let name = chars_of(json_quote(ps[i].0.as_str()).as_str());
        let value = chars_of(ps[i].1.as_str());
        let item = concat_sep(&name, ':', &value);
        push_all(&mut body, &item);
        i += 1;
    }
    assert(items.subrange(0, ps@.len() as int) =~= items);
    let mut out: Vec<char> = Vec::new();
    out.push('{');
    push_all(&mut out, &body);
    out.push('}');
    let ghost ms = pairs_view(ps@);
    assert(items =~= Seq::new(ms.len(), |i: int| json_quoted(ms[i].0) + seq![':'] + ms[i].1));
    string_of(&out)
}

/// The attribute text of a member value: strings as they are, booleans and numbers in
/// their canonical text, arrays and objects as empty, absent or null values as the default.
pub open spec fn smart_to_string_spec(v: Option<MemberValueView>, default: Seq<char>) -> Seq<char> {
    match v {
        Some(MemberValueView::Str(s)) => s,
        Some(MemberValueView::Bool(b)) => if b {
            "true"@
        } else {
            "false"@
        },
        Some(MemberValueView::Number(t)) => t,
        Some(MemberValueView::Complex) => seq![],
        _ => default,
    }
}

/// Members whose names are not excluded, as (name, value text), in order.
pub open spec fn kept_members(ms: Seq<MemberView>, excluded: Seq<Seq<char>>) -> Seq<(Seq<char>, Seq<char>)>
    decreases ms.len(),
{
    if ms.len() == 0 {
        seq![]
    } else {
        let prev = kept_members(ms.drop_last(), excluded);
        if excluded.contains(ms.last().name) {
            prev
        } else {
            prev.push((ms.last().name, ms.last().raw))
        }
    }
}

/// The member called `name` as it stands, if there is one.
pub open spec fn member_as_is(ms: Seq<MemberView>, name: Seq<char>) -> Seq<(Seq<char>, Seq<char>)> {
    if member_names(ms).contains(name) {
        seq![(name, ms[col_pos_spec(member_names(ms), name)].raw)]
    } else {
        seq![]
    }
}

/// The value the attribute is read from: the value member if one is named and present,
/// else the attribute member.
pub open spec fn attr_value(ms: Seq<MemberView>, smart_attr: Seq<char>, smart_value: Seq<char>) -> Option<
    MemberValueView,
> {
    if smart_value.len() > 0 && member_get(ms, smart_value) is Some {
        member_get(ms, smart_value)
    } else {
        member_get(ms, smart_attr)
    }
}

/// The sharding attribute of an object vertex.
pub open spec fn vertex_object_attr(
    ms: Seq<MemberView>,
    smart_attr: Seq<char>,
    smart_value: Seq<char>,
    n: i32,
    default: Seq<char>,
) -> Seq<char> {
    truncate_spec(smart_to_string_spec(attr_value(ms, smart_attr, smart_value), default), n)
}

/// The key source of an object vertex, when it is a string.
pub open spec fn vertex_object_key_source(ms: Seq<MemberView>, key_value: Seq<char>) -> Option<Seq<char>> {
    match member_get(ms, if key_value.len() > 0 { key_value } else { "_key"@ }) {
        Some(MemberValueView::Str(k)) => Some(k),
        _ => None,
    }
}

/// The new key of an object vertex: a composite key is kept (a mismatching prefix is only
/// reported); a plain one gets the attribute prefix unless the attribute is empty.
pub open spec fn vertex_object_key(ms: Seq<MemberView>, key_value: Seq<char>, att: Seq<char>) -> Seq<char> {
    match vertex_object_key_source(ms, key_value) {
        Some(k) => if k.contains(':') || att.len() == 0 {
            k
        } else {
            att + seq![':'] + k
        },
        None => seq![],
    }
}

/// The members of a rewritten object vertex: the key (when written), the attribute,
/// then the other members in their order.
pub open spec fn vertex_object_spec(
    ms: Seq<MemberView>,
    smart_attr: Seq<char>,
    smart_value: Seq<char>,
    n: i32,
    default: Seq<char>,
    write_key: bool,
    key_value: Seq<char>,
) -> Seq<(Seq<char>, Seq<char>)> {
    let att = vertex_object_attr(ms, smart_attr, smart_value, n, default);
    let key = vertex_object_key(ms, key_value, att);
    let head = if (write_key || key.len() > 0) && smart_attr != "_key"@ {
        seq![("_key"@, json_quoted(key))]
    } else {
        seq![]
    };
    head + seq![(smart_attr, json_quoted(att))] + kept_members(ms, seq!["_key"@, smart_attr])
}

/// A rewritten object vertex.
pub struct VertexObject {
    /// The members, as (name, value text), in output order.
    pub members: Vec<(String, String)>,
    /// The attribute was a boolean or a number and was converted to its text.
    pub coerced: bool,
    /// The attribute was an array or an object and was taken as empty.
    pub complex: bool,
    /// The key was already composite with a prefix other than the attribute.
    pub mismatch: bool,
    /// The sharding attribute.
    pub attribute: String,
    /// The key written (empty when the key source is not a string).
    pub key: String,
}

/// The attribute text of a member value (see `smart_to_string_spec`).
pub fn smart_to_string(val: Option<&MemberValue>, smart_default: &str) -> (r: String)
    ensures
        r@ == smart_to_string_spec(
            match val {
                Some(v) => Some(v@),
                None => None,
            },
            smart_default@,
        ),
{
    match val {
        Some(MemberValue::Str(s)) => s.clone(),
        Some(MemberValue::Bool(b)) => if *b {
            String::from_str("true")
        } else {
            String::from_str("false")
        },
        Some(MemberValue::Number(t)) => t.clone(),
        Some(MemberValue::Complex) => String::new(),
        _ => String::from_str(smart_default),
    }
}

/// Appends the members whose names are not excluded.
fn push_kept(out: &mut Vec<(String, String)>, ms: &Vec<JsonMember>, excluded: &Vec<Vec<char>>)
    ensures
        pairs_view(final(out)@) == pairs_view(old(out)@) + kept_members(
            members_view(ms@),
            char_views(excluded@),
        ),
{
    let ghost o0 = pairs_view(out@);
    let mut i: usize = 0;
    while i < ms.len()
        invariant
            i <= ms@.len(),
            pairs_view(out@) == o0 + kept_members(
                members_view(ms@).subrange(0, i as int),
                char_views(excluded@),
            ),
        decreases ms@.len() - i,
    {
        let ghost prev = pairs_view(out@);
        assert(members_view(ms@).subrange(0, i + 1).drop_last() =~= members_view(ms@).subrange(0, i as int));
        let name = chars_of(ms[i].name.as_str());
        if find_col(excluded, &name).is_none() {
            out.push((ms[i].name.clone(), ms[i].raw.clone()));
            assert(pairs_view(out@) =~= prev.push((ms@[i as int].name@, ms@[i as int].raw@)));
        }
        assert(members_view(ms@).subrange(0, i + 1).last() == ms@[i as int]@);
        i += 1;
    }
    assert(members_view(ms@).subrange(0, ms@.len() as int) =~= members_view(ms@));
}

/// Appends the member called `name` as it stands, if there is one.
fn push_as_is(out: &mut Vec<(String, String)>, ms: &Vec<JsonMember>, name: &Vec<char>)
    ensures
        pairs_view(final(out)@) == pairs_view(old(out)@) + member_as_is(members_view(ms@), name@),
{
    let ghost o0 = pairs_view(out@);
    match find_member(ms, name) {
        Some(i) => {
            out.push((string_of(name), ms[i].raw.clone()));
            assert(pairs_view(out@) =~= o0 + member_as_is(members_view(ms@), name@));
        },
        None => {
            assert(pairs_view(out@) =~= o0 + member_as_is(members_view(ms@), name@));
        },
    }
}

/// Appends a member whose value is the string `v`.
fn push_string_member(out: &mut Vec<(String, String)>, name: &Vec<char>, v: &Vec<char>)
    ensures
        pairs_view(final(out)@) == pairs_view(old(out)@).push((name@, json_quoted(v@))),
{
    let ghost o0 = pairs_view(out@);
    let text = string_of(v);
    let quoted = json_quote(text.as_str());
    out.push((string_of(name), quoted));
    assert(pairs_view(out@) =~= o0.push((name@, json_quoted(v@))));
}

/// Rewrites the members of an object vertex.
pub fn vertex_object(
    ms: &Vec<JsonMember>,
    smart_attr: &str,
    smart_value: &str,
    smart_index: i32,
    smart_default: &str,
    write_key: bool,
    key_value: &str,
) -> (r: VertexObject)
    ensures
        pairs_view(r.members@) == vertex_object_spec(
            members_view(ms@),
            smart_attr@,
            smart_value@,
            smart_index,
            smart_default@,
            write_key,
            key_value@,
        ),
        r.coerced == (attr_value(members_view(ms@), smart_attr@, smart_value@) matches Some(
            v,
        ) && (v is Bool || v is Number)),
        r.complex == (attr_value(members_view(ms@), smart_attr@, smart_value@) matches Some(
            v,
        ) && v is Complex),
        r.mismatch == (vertex_object_key_source(members_view(ms@), key_value@) matches Some(k) && k.contains(
            ':',
        ) && before_first(k, ':') != vertex_object_attr(
            members_view(ms@),
            smart_attr@,
            smart_value@,
            smart_index,
            smart_default@,
        )),
        r.attribute@ == vertex_object_attr(
            members_view(ms@),
            smart_attr@,
            smart_value@,
            smart_index,
            smart_default@,
        ),
        r.key@ == vertex_object_key(
            members_view(ms@),
            key_value@,
            vertex_object_attr(members_view(ms@), smart_attr@, smart_value@, smart_index, smart_default@),
        ),
{
    let ghost mv = members_view(ms@);
    let attr = chars_of(smart_attr);
    let value = chars_of(smart_value);
    let from_value = if value.len() > 0 {
        find_member(ms, &value)
    } else {
        None
    };
    let found = match from_value {
        Some(i) => Some(i),
        None => find_member(ms, &attr),
    };
    let val = match found {
        Some(i) => Some(&ms[i].value),
        None => None,
    };
    let coerced = match val {
        Some(MemberValue::Bool(_)) | Some(MemberValue::Number(_)) => true,
        _ => false,
    };
    let complex = match val {
        Some(MemberValue::Complex) => true,
        _ => false,
    };
    let raw_att = chars_of(smart_to_string(val, smart_default).as_str());
    let att = truncate_chars(&raw_att, smart_index);
    let kv = chars_of(key_value);
    let key_name = chars_of("_key");
    let key_source = if kv.len() > 0 { &kv } else { &key_name };
    let mut mismatch = false;
    let key: Vec<char> = match find_member(ms, key_source) {
        Some(i) => match &ms[i].value {
            MemberValue::Str(k) => {
                let k = chars_of(k.as_str());
                match index_of(&k, ':') {
                    Some(c) => {
                        proof {
                            lemma_first_index(k@, ':', c as int);
                        }
                        let prefix = slice_chars(&k, 0, c);
                        mismatch = !chars_equal(&prefix, &att);
                        k
                    },
                    None => if att.len() == 0 {
                        k
                    } else {
                        concat_sep(&att, ':', &k)
                    },
                }
            },
            _ => Vec::new(),
        },
        None => Vec::new(),
    };
    let mut members: Vec<(String, String)> = Vec::new();
    if (write_key || key.len() > 0) && !chars_equal(&attr, &key_name) {
        push_string_member(&mut members, &key_name, &key);
    }
    push_string_member(&mut members, &attr, &att);
    let mut excluded: Vec<Vec<char>> = Vec::new();
    excluded.push(key_name);
    excluded.push(attr);
    assert(char_views(excluded@) =~= seq!["_key"@, smart_attr@]);
    push_kept(&mut members, ms, &excluded);
    proof {
        let att_s = vertex_object_attr(mv, smart_attr@, smart_value@, smart_index, smart_default@);
        let key_s = vertex_object_key(mv, key_value@, att_s);
        assert(key@ == key_s);
        let head = if (write_key || key_s.len() > 0) && smart_attr@ != "_key"@ {
            seq![("_key"@, json_quoted(key_s))]
        } else {
            seq![]
        };
        assert(pairs_view(members@) =~= head + seq![(smart_attr@, json_quoted(att_s))] + kept_members(
            mv,
            seq!["_key"@, smart_attr@],
        ));
    }
    let attribute = string_of(&att);
    let key = string_of(&key);
    VertexObject { members, coerced, complex, mismatch, attribute, key }
}

/// A rewritten object-encoded vertex line.
pub struct VertexObjectLine {
    /// The output line, without a line break.
    pub line: String,
    /// The attribute was a boolean or a number and was converted to its text.
    pub coerced: bool,
    /// The attribute was an array or an object and was taken as empty.
    pub complex: bool,
    /// The key was already composite with a prefix other than the attribute.
    pub mismatch: bool,
    /// The sharding attribute.
    pub attribute: String,
    /// The key written (empty when the key source is not a string).
    pub key: String,
}

/// Transforms one object-encoded vertex line: the key member first (when there is a
/// key or `write_key` is set), then the attribute member, then the other members.
pub fn transform_vertex_jsonl(
    line: &str,
    smart_attr: &str,
    smart_value: &str,
    smart_index: i32,
    smart_default: &str,
    write_key: bool,
    key_value: &str,
) -> (r: Result<VertexObjectLine, JsonLineError>)
    ensures
        match parsed_object(line@) {
            Err(e) => r == Err::<VertexObjectLine, JsonLineError>(e),
            Ok(ms) => r matches Ok(o) && o.attribute@ == vertex_object_attr(
                ms,
                smart_attr@,
                smart_value@,
                smart_index,
                smart_default@,
            ) && o.line@ == object_text(
                vertex_object_spec(
                    ms,
                    smart_attr@,
                    smart_value@,
                    smart_index,
                    smart_default@,
                    write_key,
                    key_value@,
                ),
            ),
        },
{
    let ms = match parse_object_line(line) {
        Ok(ms) => ms,
        Err(e) => {
            return Err(e);
        },
    };
    let o = vertex_object(&ms, smart_attr, smart_value, smart_index, smart_default, write_key, key_value);
    Ok(
        VertexObjectLine {
            line: render_object(&o.members),
            coerced: o.coerced,
            complex: o.complex,
            mismatch: o.mismatch,
            attribute: o.attribute,
            key: o.key,
        },
    )
}

/// For an endpoint member: whether it is present, its resolved reference when it is a
/// string, and the attribute derived for it.
pub open spec fn endpoint_spec(
    ms: Seq<MemberView>,
    field: Seq<char>,
    coll: Seq<char>,
    n: i32,
    table: Map<Seq<char>, Seq<char>>,
) -> (bool, Option<Seq<char>>, Option<Seq<char>>) {
    match member_get(ms, field) {
        None => (false, None, None),
        Some(MemberValueView::Str(v)) => {
            let r = resolve_spec(v, coll, n, table);
            (true, Some(r.0), r.1)
        },
        Some(_) => (true, None, None),
    }
}

/// A member rewritten to a string, or left as it stands.
pub open spec fn rewritten_or_as_is(ms: Seq<MemberView>, name: Seq<char>, v: Option<Seq<char>>) -> Seq<
    (Seq<char>, Seq<char>),
> {
    match v {
        Some(t) => seq![(name, json_quoted(t))],
        None => member_as_is(ms, name),
    }
}

/// The members of a rewritten object edge: `_key`, `_from`, `_to`, then the others in
/// their order.
pub open spec fn edge_object_spec(
    ms: Seq<MemberView>,
    from_coll: Seq<char>,
    to_coll: Seq<char>,
    n: i32,
    table: Map<Seq<char>, Seq<char>>,
) -> Seq<(Seq<char>, Seq<char>)> {
    let f = endpoint_spec(ms, "_from"@, from_coll, n, table);
    let t = endpoint_spec(ms, "_to"@, to_coll, n, table);
    let nk = match member_get(ms, "_key"@) {
        Some(MemberValueView::Str(k)) => edge_key_spec(k, f.2, t.2),
        _ => None,
    };
    rewritten_or_as_is(ms, "_key"@, nk) + rewritten_or_as_is(ms, "_from"@, f.1) + rewritten_or_as_is(
        ms,
        "_to"@,
        t.1,
    ) + kept_members(ms, seq!["_key"@, "_from"@, "_to"@])
}

/// Resolves the endpoint member `field` of an object edge.
pub fn fix_json_vertex(
    ms: &Vec<JsonMember>,
    field: &Vec<char>,
    default_coll: &Vec<char>,
    smart_index: i32,
    table: &Translation,
) -> (r: (bool, Option<Vec<char>>, Option<Vec<char>>))
    requires
        table.wf(),
    ensures
        (r.0, opt_view(r.1), opt_view(r.2)) == endpoint_spec(
            members_view(ms@),
            field@,
            default_coll@,
            smart_index,
            table@,
        ),
{
    match find_member(ms, field) {
        None => (false, None, None),
        Some(i) => match &ms[i].value {
            MemberValue::Str(v) => {
                let v = chars_of(v.as_str());
                let (q, a) = resolve_endpoint(&v, default_coll, smart_index, table);
                (true, Some(q), a)
            },
            _ => (true, None, None),
        },
    }
}

/// Appends a member rewritten to a string, or as it stands.
fn push_rewritten_or_as_is(
    out: &mut Vec<(String, String)>,
    ms: &Vec<JsonMember>,
    name: &Vec<char>,
    v: &Option<Vec<char>>,
)
    ensures
        pairs_view(final(out)@) == pairs_view(old(out)@) + rewritten_or_as_is(
            members_view(ms@),
            name@,
            opt_view(*v),
        ),
{
    match v {
        Some(t) => {
            let ghost o0 = pairs_view(out@);
            push_string_member(out, name, t);
            assert(pairs_view(out@) =~= o0 + seq![(name@, json_quoted(t@))]);
        },
        None => push_as_is(out, ms, name),
    }
}

/// Rewrites the members of an object edge.
pub fn edge_object(
    ms: &Vec<JsonMember>,
    from_coll: &str,
    to_coll: &str,
    smart_index: i32,
    table: &Translation,
) -> (r: Vec<(String, String)>)
    requires
        table.wf(),
    ensures
        pairs_view(r@) == edge_object_spec(members_view(ms@), from_coll@, to_coll@, smart_index, table@),
{
    let ghost mv = members_view(ms@);
    let from_name = chars_of("_from");
    let to_name = chars_of("_to");
    let key_name = chars_of("_key");
    let fc = chars_of(from_coll);
    let tc = chars_of(to_coll);
    let (_, new_from, from_attr) = fix_json_vertex(ms, &from_name, &fc, smart_index, table);
    let (_, new_to, to_attr) = fix_json_vertex(ms, &to_name, &tc, smart_index, table);
    let new_key = match find_member(ms, &key_name) {
        Some(i) => match &ms[i].value {
            MemberValue::Str(k) => {
                let k = chars_of(k.as_str());
                edge_key(&k, &from_attr, &to_attr)
            },
            _ => None,
        },
        None => None,
    };
    let mut out: Vec<(String, String)> = Vec::new();
    let ghost o0 = pairs_view(out@);
    push_rewritten_or_as_is(&mut out, ms, &key_name, &new_key);
    push_rewritten_or_as_is(&mut out, ms, &from_name, &new_from);
    push_rewritten_or_as_is(&mut out, ms, &to_name, &new_to);
    let mut excluded: Vec<Vec<char>> = Vec::new();
    excluded.push(key_name);
    excluded.push(from_name);
    excluded.push(to_name);
    assert(char_views(excluded@) =~= seq!["_key"@, "_from"@, "_to"@]);
    push_kept(&mut out, ms, &excluded);
    assert(o0 =~= seq![]);
    assert(pairs_view(out@) =~= edge_object_spec(mv, from_coll@, to_coll@, smart_index, table@));
    out
}

/// Transforms one object-encoded edge line: resolves `_from` and `_to`, rewrites a plain
/// `_key` into `from:key:to` when both gave an attribute, and writes `_key`, `_from`,
/// `_to` first.
pub fn transform_edge_jsonl(
    line: &str,
    from_coll: &str,
    to_coll: &str,
    smart_index: i32,
    table: &Translation,
) -> (r: Result<String, JsonLineError>)
    requires
        table.wf(),
    ensures
        match parsed_object(line@) {
            Err(e) => r == Err::<String, JsonLineError>(e),
            Ok(ms) => r matches Ok(o) && o@ == object_text(
                edge_object_spec(ms, from_coll@, to_coll@, smart_index, table@),
            ),
        },
{
    let ms = match parse_object_line(line) {
        Ok(ms) => ms,
        Err(e) => {
            return Err(e);
        },
    };
    let out = edge_object(&ms, from_coll, to_coll, smart_index, table);
    Ok(render_object(&out))
}

/// For object vertices too, when truncation is on and the attribute text is at least
/// that long, the attribute is its first `n` characters.
pub proof fn lemma_object_truncation(
    ms: Seq<MemberView>,
    smart_attr: Seq<char>,
    smart_value: Seq<char>,
    n: i32,
    default: Seq<char>,
)
    requires
        n > 0,
        smart_to_string_spec(attr_value(ms, smart_attr, smart_value), default).len() >= n,
    ensures
        vertex_object_attr(ms, smart_attr, smart_value, n, default) == smart_to_string_spec(
            attr_value(ms, smart_attr, smart_value),
            default,
        ).subrange(0, n as int),
{
    let raw = smart_to_string_spec(attr_value(ms, smart_attr, smart_value), default);
    if raw.len() == n {
        assert(raw.subrange(0, n as int) =~= raw);
    }
}

/// An object vertex whose key is a plain string gets the key `attribute:key` when its
/// attribute is not empty; that is the key the output holds, next to the attribute.
pub proof fn lemma_object_key_composite(
    ms: Seq<MemberView>,
    smart_attr: Seq<char>,
    smart_value: Seq<char>,
    n: i32,
    default: Seq<char>,
    write_key: bool,
    key_value: Seq<char>,
)
    requires
        smart_attr != "_key"@,
        vertex_object_key_source(ms, key_value) matches Some(k) && !k.contains(':'),
        vertex_object_attr(ms, smart_attr, smart_value, n, default).len() > 0,
    ensures
        ({
            let att = vertex_object_attr(ms, smart_attr, smart_value, n, default);
            let k = vertex_object_key_source(ms, key_value).unwrap();
            let out = vertex_object_spec(ms, smart_attr, smart_value, n, default, write_key, key_value);
            &&& out[0] == ("_key"@, json_quoted(att + seq![':'] + k))
            &&& out[1] == (smart_attr, json_quoted(att))
        }),
{
}

} // verus!
