//! The edge resolver: rewrites `_from` / `_to` references into
//! `collection/attribute:key` and edge keys into `from:key:to`.
use vstd::prelude::*;
use crate::text::{
    after_first, before_first, char_views, chars_of, concat_sep, has_char, index_of, is_first,
    lemma_cut_at_first, lemma_first_exists, lemma_first_index, slice_chars, string_of,
};
use crate::codec::{
    col_pos_spec, field_spec, find_col, is_clean_field, join_chars, join_spec, lemma_col_pos,
    lemma_field_clean, lemma_field_round_trip, lemma_split_clean, lemma_split_join, quotes_before,
    split_chars, split_spec, unquote_chars, unquote_spec, write_field,
};
use crate::vertex::{header_names, map_fields, pad_fields, pad_spec, set_field, write_all};
use crate::table::Translation;

verus! {

/// A reference with a collection: unchanged when it holds a `/`, else prefixed
/// with the default collection.
pub open spec fn qualified(v: Seq<char>, coll: Seq<char>) -> Seq<char> {
    if v.contains('/') {
        v
    } else {
        coll + seq!['/'] + v
    }
}

/// The collection of a reference: what precedes its first `/`, or the default
/// collection for a bare key.
pub open spec fn ref_collection(v: Seq<char>, coll: Seq<char>) -> Seq<char> {
    if v.contains('/') {
        before_first(v, '/')
    } else {
        coll
    }
}

/// The key of a reference: what follows its first `/`, or the bare key itself.
pub open spec fn ref_key(v: Seq<char>, coll: Seq<char>) -> Seq<char> {
    if v.contains('/') {
        after_first(v, '/')
    } else {
        v
    }
}

/// The resolved reference, and the attribute derived for it if any. A key that holds
/// a colon is already composite; a key longer than a positive `n` gives its first `n`
/// characters; else the table is consulted.
pub open spec fn resolve_spec(v: Seq<char>, coll: Seq<char>, n: i32, table: Map<Seq<char>, Seq<char>>) -> (
    Seq<char>,
    Option<Seq<char>>,
) {
    let q = qualified(v, coll);
    let c = ref_collection(v, coll);
    let k = ref_key(v, coll);
    if k.contains(':') {
        (q, None)
    } else if n > 0 && k.len() > n {
        let a = k.subrange(0, n as int);
        (c + seq!['/'] + a + seq![':'] + k, Some(a))
    } else if table.contains_key(q) {
        let a = table[q];
        (c + seq!['/'] + a + seq![':'] + k, Some(a))
    } else {
        (q, None)
    }
}

/// The new edge key: `from:key:to` when both endpoints gave an attribute and the key
/// is not composite yet.
pub open spec fn edge_key_spec(key: Seq<char>, fa: Option<Seq<char>>, ta: Option<Seq<char>>) -> Option<
    Seq<char>,
> {
    match (fa, ta) {
        (Some(f), Some(t)) => if key.contains(':') {
            None
        } else {
            Some(f + seq![':'] + key + seq![':'] + t)
        },
        _ => None,
    }
}

/// The view of an optional character vector.
pub open spec fn opt_view(o: Option<Vec<char>>) -> Option<Seq<char>> {
    match o {
        Some(v) => Some(v@),
        None => None,
    }
}

/// Where an edge row is read and written.
#[derive(Clone, Copy, Debug)]
pub struct EdgeColumns {
    /// Number of columns of the header.
    pub ncols: usize,
    /// Column of `_from`.
    pub from_pos: usize,
    /// Column of `_to`.
    pub to_pos: usize,
    /// Column of `_key`, if the header has one.
    pub key_pos: Option<usize>,
}

impl EdgeColumns {
    /// The positions lie inside the header and are distinct.
    pub open spec fn wf(&self) -> bool {
        &&& self.from_pos < self.ncols
        &&& self.to_pos < self.ncols
        &&& self.from_pos != self.to_pos
        &&& (self.key_pos matches Some(k) ==> k < self.ncols && k != self.from_pos && k != self.to_pos)
    }
}

/// The rewritten fields of a padded edge row.
pub open spec fn edge_fields_spec(
    p: Seq<Seq<char>>,
    cols: EdgeColumns,
     sep: char,
    quo: char,
    from_coll: Seq<char>,
    to_coll: Seq<char>,
    n: i32,
    table: Map<Seq<char>, Seq<char>>,
) -> Seq<Seq<char>> {
    let f = resolve_spec(unquote_spec(p[cols.from_pos as int], quo), from_coll, n, table);
    let t = resolve_spec(unquote_spec(p[cols.to_pos as int], quo), to_coll, n, table);
    let resolved = p.update(cols.from_pos as int, field_spec(f.0, sep, quo)).update(
        cols.to_pos as int,
        field_spec(t.0, sep, quo),
    );
    match cols.key_pos {
        Some(k) => match edge_key_spec(unquote_spec(p[k as int], quo), f.1, t.1) {
            Some(nk) => resolved.update(k as int, field_spec(nk, sep, quo)),
            None => resolved,
        },
        None => resolved,
    }
}

/// The rewritten line for a tabular edge row.
pub open spec fn edge_line_spec(
    line: Seq<char>,
    sep: char,
    quo: char,
    cols: EdgeColumns,
    from_coll: Seq<char>,
    to_coll: Seq<char>,
    n: i32,
    table: Map<Seq<char>, Seq<char>>,
) -> Seq<char> {
    join_spec(
        edge_fields_spec(
            pad_spec(split_spec(line, sep, quo), cols.ncols as int),
            cols,
            sep,
            quo,
            from_coll,
            to_coll,
            n,
            table,
        ),
        sep,
    )
}

/// Resolves one endpoint reference (its logical value) against the default collection,
/// the truncation length and the table.
pub fn resolve_endpoint(v: &Vec<char>, coll: &Vec<char>, smart_index: i32, table: &Translation) -> (r: (
    Vec<char>,
    Option<Vec<char>>,
))
    requires
        table.wf(),
    ensures
        r.0@ == resolve_spec(v@, coll@, smart_index, table@).0,
        opt_view(r.1) == resolve_spec(v@, coll@, smart_index, table@).1,
{
    let (c, k, q) = match index_of(v, '/') {
        Some(slash) => {
            proof {
                lemma_first_index(v@, '/', slash as int);
            }
            let vlen = v.len();
            assert(v@[slash as int] == '/');
            let c = slice_chars(v, 0, slash);
            let k = slice_chars(v, slash + 1, vlen);
            let q = slice_chars(v, 0, vlen);
            assert(v@.subrange(0, vlen as int) =~= v@);
            (c, k, q)
        },
        None => {
            let c = slice_chars(coll, 0, coll.len());
            let k = slice_chars(v, 0, v.len());
            assert(coll@.subrange(0, coll@.len() as int) =~= coll@);
            assert(v@.subrange(0, v@.len() as int) =~= v@);
            (c, k, concat_sep(coll, '/', v))
        },
    };
    assert(c@ == ref_collection(v@, coll@) && k@ == ref_key(v@, coll@));
    assert(q@ == qualified(v@, coll@));
    if has_char(&k, ':') {
        return (q, None);
    }
    if smart_index > 0 && k.len() > smart_index as usize {
        let a = slice_chars(&k, 0, smart_index as usize);
        let head = concat_sep(&c, '/', &a);
        let out = concat_sep(&head, ':', &k);
        return (out, Some(a));
    }
    match table.lookup_chars(&q) {
        Some(a) => {
            let head = concat_sep(&c, '/', &a);
            let out = concat_sep(&head, ':', &k);
            (out, Some(a))
        },
        None => (q, None),
    }
}

/// The new edge key, if one is due.
pub fn edge_key(key: &Vec<char>, fa: &Option<Vec<char>>, ta: &Option<Vec<char>>) -> (r: Option<Vec<char>>)
    ensures
        opt_view(r) == edge_key_spec(key@, opt_view(*fa), opt_view(*ta)),
{
    match (fa, ta) {
        (Some(f), Some(t)) => {
            if has_char(key, ':') {
                None
            } else {
                let head = concat_sep(f, ':', key);
                Some(concat_sep(&head, ':', t))
            }
        },
        _ => None,
    }
}

/// Rewrites the fields of a padded edge row.
pub fn edge_fields(
    parts: &mut Vec<Vec<char>>,
    sep: char,
    quo: char,
    cols: &EdgeColumns,
    from_coll: &Vec<char>,
    to_coll: &Vec<char>,
    smart_index: i32,
    table: &Translation,
)
    requires
        cols.wf(),
        old(parts)@.len() >= cols.ncols,
        table.wf(),
    ensures
        char_views(final(parts)@) == edge_fields_spec(
            char_views(old(parts)@),
            *cols,
            sep,
            quo,
            from_coll@,
            to_coll@,
            smart_index,
            table@,
        ),
{
    let ghost p = char_views(parts@);
    let fv = unquote_chars(&parts[cols.from_pos], quo);
    let tv = unquote_chars(&parts[cols.to_pos], quo);
    let (fr, fa) = resolve_endpoint(&fv, from_coll, smart_index, table);
    let (tr, ta) = resolve_endpoint(&tv, to_coll, smart_index, table);
    set_field(parts, cols.from_pos, write_field(&fr, sep, quo));
    set_field(parts, cols.to_pos, write_field(&tr, sep, quo));
    if let Some(k) = cols.key_pos {
        let kv = unquote_chars(&parts[k], quo);
        assert(char_views(parts@)[k as int] == parts@[k as int]@);
        assert(kv@ == unquote_spec(p[k as int], quo));
        match edge_key(&kv, &fa, &ta) {
            Some(nk) => {
                set_field(parts, k, write_field(&nk, sep, quo));
            },
            None => {},
        }
    }
}

/// Transforms one tabular edge row: resolves `_from` and `_to` and, when both gave an
/// attribute, rewrites a non-composite `_key` into `from:key:to`.
pub fn transform_edge_csv(
    line: &str,
    sep: char,
    quo: char,
    cols: &EdgeColumns,
    from_coll: &str,
    to_coll: &str,
    smart_index: i32,
    table: &Translation,
) -> (r: String)
    requires
        cols.wf(),
        table.wf(),
    ensures
        r@ == edge_line_spec(line@, sep, quo, *cols, from_coll@, to_coll@, smart_index, table@),
{
    let cs = chars_of(line);
    let mut parts = split_chars(&cs, sep, quo);
    pad_fields(&mut parts, cols.ncols);
    let fc = chars_of(from_coll);
    let tc = chars_of(to_coll);
    edge_fields(&mut parts, sep, quo, cols, &fc, &tc, smart_index, table);
    let out = join_chars(&parts, sep);
    string_of(&out)
}

/// The views of (position, name) rename pairs.
pub open spec fn renames_view(r: Seq<(usize, String)>) -> Seq<(usize, Seq<char>)> {
    r.map_values(|p: (usize, String)| (p.0, p.1@))
}

/// The names after each rename in turn; a position past the end is ignored.
pub open spec fn apply_renames(names: Seq<Seq<char>>, renames: Seq<(usize, Seq<char>)>) -> Seq<Seq<char>>
    decreases renames.len(),
{
    if renames.len() == 0 {
        names
    } else {
        let prev = apply_renames(names, renames.drop_last());
        let (i, name) = renames.last();
        if i < prev.len() {
            prev.update(i as int, name)
        } else {
            prev
        }
    }
}

/// The column names of an edge file once the renames are applied.
pub open spec fn edge_header_names(
    line: Seq<char>,
    sep: char,
    quo: char,
    renames: Seq<(usize, Seq<char>)>,
) -> Seq<Seq<char>> {
    apply_renames(header_names(line, sep, quo), renames)
}

/// The columns of an edge file with these names, when `_from` and `_to` are there.
pub open spec fn edge_columns_spec(names: Seq<Seq<char>>) -> Option<EdgeColumns> {
    if names.contains("_from"@) && names.contains("_to"@) {
        Some(
            EdgeColumns {
                ncols: names.len() as usize,
                from_pos: col_pos_spec(names, "_from"@) as usize,
                to_pos: col_pos_spec(names, "_to"@) as usize,
                key_pos: if names.contains("_key"@) {
                    Some(col_pos_spec(names, "_key"@) as usize)
                } else {
                    None
                },
            },
        )
    } else {
        None
    }
}

/// What the header of a tabular edge file becomes.
pub struct EdgeHeader {
    /// The output header line, without a line break.
    pub line: String,
    /// Where rows are read and written; `None` when `_from` or `_to` is missing.
    pub columns: Option<EdgeColumns>,
}

/// Reads the header of a tabular edge file, applies the column renames, and locates
/// `_from`, `_to` and `_key`.
pub fn edge_header_csv(header_line: &str, sep: char, quo: char, renames: &Vec<(usize, String)>) -> (r:
    EdgeHeader)
    ensures
        r.line@ == join_spec(
            write_all(edge_header_names(header_line@, sep, quo, renames_view(renames@)), sep, quo),
            sep,
        ),
        r.columns == edge_columns_spec(edge_header_names(header_line@, sep, quo, renames_view(renames@))),
        r.columns matches Some(c) ==> c.wf(),
{
    let cs = chars_of(header_line);
    let raw = split_chars(&cs, sep, quo);
    let mut names = map_fields(&raw, sep, quo, false);
    let ghost h0 = char_views(names@);
    let mut i: usize = 0;
    while i < renames.len()
        invariant
            i <= renames@.len(),
            char_views(names@) == apply_renames(h0, renames_view(renames@).subrange(0, i as int)),
        decreases renames@.len() - i,
    {
        assert(renames_view(renames@).subrange(0, i + 1).drop_last() =~= renames_view(renames@).subrange(
            0,
            i as int,
        ));
        let (pos, name) = (renames[i].0, &renames[i].1);
        if pos < names.len() {
            set_field(&mut names, pos, chars_of(name.as_str()));
        }
        i += 1;
    }
    assert(renames_view(renames@).subrange(0, renames@.len() as int) =~= renames_view(renames@));
    let quoted = map_fields(&names, sep, quo, true);
    let out = join_chars(&quoted, sep);
    let from_name = chars_of("_from");
    let to_name = chars_of("_to");
    let key_name = chars_of("_key");
    proof {
        reveal_strlit("_from");
        reveal_strlit("_to");
        reveal_strlit("_key");
        assert(from_name@.len() == 5 && to_name@.len() == 3 && key_name@.len() == 4);
    }
    let columns = match (find_col(&names, &from_name), find_col(&names, &to_name)) {
        (Some(f), Some(t)) => {
            proof {
                lemma_col_pos(char_views(names@), from_name@, f as int);
                lemma_col_pos(char_views(names@), to_name@, t as int);
                assert(char_views(names@)[f as int] != char_views(names@)[t as int]);
            }
            let key_pos = match find_col(&names, &key_name) {
                Some(k) => {
                    proof {
                        lemma_col_pos(char_views(names@), key_name@, k as int);
                        assert(char_views(names@)[k as int] != char_views(names@)[f as int]);
                        assert(char_views(names@)[k as int] != char_views(names@)[t as int]);
                    }
                    Some(k)
                },
                None => None,
            };
            Some(EdgeColumns { ncols: names.len(), from_pos: f, to_pos: t, key_pos })
        },
        _ => None,
    };
    EdgeHeader { line: string_of(&out), columns }
}

/// A qualified reference is its collection, a `/`, then its key. The collection holds
/// no `/` unless it is a default collection that does.
pub proof fn lemma_qualified_parts(v: Seq<char>, coll: Seq<char>)
    ensures
        ({
            let q = qualified(v, coll);
            &&& q.contains('/')
            &&& q == ref_collection(v, coll) + seq!['/'] + ref_key(v, coll)
            &&& (v.contains('/') ==> !ref_collection(v, coll).contains('/'))
            &&& (!v.contains('/') ==> ref_collection(v, coll) == coll && ref_key(v, coll) == v)
        }),
{
    let q = qualified(v, coll);
    if !v.contains('/') {
        assert(q[coll.len() as int] == '/');
        assert(q == ref_collection(v, coll) + seq!['/'] + ref_key(v, coll));
    } else {
        lemma_first_exists(v, '/');
        let c = ref_collection(v, coll);
        assert(q =~= c + seq!['/'] + ref_key(v, coll));
        assert forall|j: int| 0 <= j < c.len() implies c[j] != '/' by {
            assert(c[j] == v[j]);
        }
    }
}

/// Every resolved endpoint is the collection, a `/`, then the rest: a bare key takes the
/// default collection as it is, and a reference with a `/` is cut at its first `/` (its
/// collection then holds no `/`). When an attribute was derived, the rest is
/// `attribute:key` with a key free of colons; otherwise the reference is the qualified
/// input, untouched.
pub proof fn lemma_endpoint_shape(v: Seq<char>, coll: Seq<char>, n: i32, table: Map<Seq<char>, Seq<char>>)
    ensures
        ({
            let q = qualified(v, coll);
            let r = resolve_spec(v, coll, n, table);
            let c = ref_collection(v, coll);
            let k = ref_key(v, coll);
            &&& (v.contains('/') || !coll.contains('/') ==> !c.contains('/'))
            &&& (!v.contains('/') ==> c == coll && k == v)
            &&& q == c + seq!['/'] + k
            &&& (r.1 matches Some(a) ==> r.0 == c + seq!['/'] + a + seq![':'] + k && !k.contains(':'))
            &&& (r.1 is None ==> r.0 == q)
        }),
{
    lemma_qualified_parts(v, coll);
}

/// Resolving a reference that resolution produced changes nothing and derives no
/// attribute, when the default collection holds no `/`.
pub proof fn lemma_resolve_again(v: Seq<char>, coll: Seq<char>, n: i32, table: Map<Seq<char>, Seq<char>>)
    requires
        !coll.contains('/'),
    ensures
        ({
            let r = resolve_spec(v, coll, n, table);
            resolve_spec(r.0, coll, n, table) == (r.0, None::<Seq<char>>) || (r.1 is None
                && resolve_spec(r.0, coll, n, table) == r)
        }),
{
    let q = qualified(v, coll);
    let r = resolve_spec(v, coll, n, table);
    let c = ref_collection(v, coll);
    let k = ref_key(v, coll);
    lemma_qualified_parts(v, coll);
    assert(!c.contains('/'));
    let w = r.0;
    assert(w.contains('/')) by {
        lemma_qualified_parts(v, coll);
        if r.1 is Some {
            assert(w[c.len() as int] == '/');
        }
    }
    assert(qualified(w, coll) == w);
    match r.1 {
        Some(a) => {
            assert(w == c + seq!['/'] + (a + seq![':'] + k));
            assert(w[c.len() as int] == '/');
            assert forall|j: int| 0 <= j < c.len() implies w[j] != '/' by {
                assert(w[j] == c[j]);
            }
            assert(is_first(w, '/', c.len() as int));
            lemma_first_index(w, '/', c.len() as int);
            assert(ref_key(w, coll) =~= a + seq![':'] + k);
            assert(ref_key(w, coll)[a.len() as int] == ':');
        },
        None => {
            assert(w == q);
            assert(w[c.len() as int] == '/');
            assert forall|j: int| 0 <= j < c.len() implies w[j] != '/' by {
                assert(w[j] == c[j]);
            }
            assert(is_first(w, '/', c.len() as int));
            lemma_first_index(w, '/', c.len() as int);
            assert(ref_collection(w, coll) =~= c);
            assert(ref_key(w, coll) =~= k);
        },
    }
}

/// Resolving an edge row twice gives what resolving it once gave, when the default
/// collections hold no `/`.
pub proof fn lemma_edge_idempotent(
    p: Seq<Seq<char>>,
    cols: EdgeColumns,
    sep: char,
    quo: char,
    from_coll: Seq<char>,
    to_coll: Seq<char>,
    n: i32,
    table: Map<Seq<char>, Seq<char>>,
)
    requires
        cols.wf(),
        p.len() >= cols.ncols,
        !from_coll.contains('/'),
        !to_coll.contains('/'),
    ensures
        ({
            let once = edge_fields_spec(p, cols, sep, quo, from_coll, to_coll, n, table);
            edge_fields_spec(once, cols, sep, quo, from_coll, to_coll, n, table) == once
        }),
{
    let out = edge_fields_spec(p, cols, sep, quo, from_coll, to_coll, n, table);
    let fv = unquote_spec(p[cols.from_pos as int], quo);
    let tv = unquote_spec(p[cols.to_pos as int], quo);
    let f = resolve_spec(fv, from_coll, n, table);
    let t = resolve_spec(tv, to_coll, n, table);
    lemma_field_round_trip(f.0, sep, quo);
    lemma_field_round_trip(t.0, sep, quo);
    lemma_resolve_again(fv, from_coll, n, table);
    lemma_resolve_again(tv, to_coll, n, table);
    assert(out[cols.from_pos as int] == field_spec(f.0, sep, quo));
    assert(out[cols.to_pos as int] == field_spec(t.0, sep, quo));
    let f2 = resolve_spec(unquote_spec(out[cols.from_pos as int], quo), from_coll, n, table);
    let t2 = resolve_spec(unquote_spec(out[cols.to_pos as int], quo), to_coll, n, table);
    assert(f2.0 == f.0);
    assert(t2.0 == t.0);
    let out2 = edge_fields_spec(out, cols, sep, quo, from_coll, to_coll, n, table);
    match cols.key_pos {
        Some(kp) => {
            let resolved = out.update(cols.from_pos as int, field_spec(f2.0, sep, quo)).update(
                cols.to_pos as int,
                field_spec(t2.0, sep, quo),
            );
            assert(resolved =~= out);
            if f2.1 is Some && t2.1 is Some {
                assert(f.1 is None && t.1 is None);
                assert(f2 == f && t2 == t);
                assert(false);
            }
            assert(edge_key_spec(unquote_spec(out[kp as int], quo), f2.1, t2.1) is None);
        },
        None => {
            assert(out2 =~= out);
        },
    }
}

/// Resolving a tabular edge line a second time, with the same collections, truncation
/// and table, gives the same line. The separator must differ from the quote character,
/// the line must hold an even number of quote characters, and the default collections
/// must hold no `/`.
pub proof fn lemma_edge_line_idempotent(
    line: Seq<char>,
    sep: char,
    quo: char,
    cols: EdgeColumns,
    from_coll: Seq<char>,
    to_coll: Seq<char>,
    n: i32,
    table: Map<Seq<char>, Seq<char>>,
)
    requires
        cols.wf(),
        sep != quo,
        quotes_before(line, quo, line.len() as int) % 2 == 0,
        !from_coll.contains('/'),
        !to_coll.contains('/'),
    ensures
        edge_line_spec(
            edge_line_spec(line, sep, quo, cols, from_coll, to_coll, n, table),
            sep,
            quo,
            cols,
            from_coll,
            to_coll,
            n,
            table,
        ) == edge_line_spec(line, sep, quo, cols, from_coll, to_coll, n, table),
{
    let raw_fields = split_spec(line, sep, quo);
    let p = pad_spec(raw_fields, cols.ncols as int);
    lemma_split_clean(line, sep, quo);
    assert forall|j: int| 0 <= j < p.len() implies is_clean_field(#[trigger] p[j], sep, quo) by {
        if j >= raw_fields.len() {
            assert(p[j] =~= Seq::<char>::empty());
        }
    }
    let f = resolve_spec(unquote_spec(p[cols.from_pos as int], quo), from_coll, n, table);
    let t = resolve_spec(unquote_spec(p[cols.to_pos as int], quo), to_coll, n, table);
    lemma_field_clean(f.0, sep, quo);
    lemma_field_clean(t.0, sep, quo);
    if let Some(k) = cols.key_pos {
        if let Some(nk) = edge_key_spec(unquote_spec(p[k as int], quo), f.1, t.1) {
            lemma_field_clean(nk, sep, quo);
        }
    }
    let out = edge_fields_spec(p, cols, sep, quo, from_coll, to_coll, n, table);
    assert forall|j: int| 0 <= j < out.len() implies is_clean_field(#[trigger] out[j], sep, quo) by {
        assert(is_clean_field(p[j], sep, quo));
    }
    lemma_split_join(out, sep, quo);
    assert(pad_spec(out, cols.ncols as int) == out);
    lemma_edge_idempotent(p, cols, sep, quo, from_coll, to_coll, n, table);
}

/// `r` reads `collection/attribute:key`: a non-empty collection free of `/`, then a
/// non-empty part free of `:`, a colon, and a non-empty rest.
pub open spec fn is_resolved_form(r: Seq<char>) -> bool {
    &&& r.contains('/')
    &&& before_first(r, '/').len() > 0
    &&& after_first(r, '/').contains(':')
    &&& before_first(after_first(r, '/'), ':').len() > 0
    &&& after_first(after_first(r, '/'), ':').len() > 0
}

/// `r` reads `collection/key`: a non-empty collection free of `/`, then a non-empty key
/// free of `:`.
pub open spec fn is_unresolved_form(r: Seq<char>) -> bool {
    &&& r.contains('/')
    &&& before_first(r, '/').len() > 0
    &&& after_first(r, '/').len() > 0
    &&& !after_first(r, '/').contains(':')
}

/// A well-formed endpoint: a non-empty collection free of `/` (the default one for a bare
/// key), a non-empty key, which, when it holds a colon, has text on both sides of the first.
pub open spec fn is_well_formed_endpoint(v: Seq<char>, coll: Seq<char>) -> bool {
    let c = ref_collection(v, coll);
    let k = ref_key(v, coll);
    &&& c.len() > 0
    &&& !c.contains('/')
    &&& k.len() > 0
    &&& (k.contains(':') ==> before_first(k, ':').len() > 0 && after_first(k, ':').len() > 0)
}

/// Every endpoint resolved from a well-formed one, with table attributes that are
/// non-empty and free of `:`, reads `collection/attribute:key` when resolved or already
/// composite, and `collection/key` when no attribute is available; never anything else.
pub proof fn lemma_endpoint_forms(v: Seq<char>, coll: Seq<char>, n: i32, table: Map<Seq<char>, Seq<char>>)
    requires
        is_well_formed_endpoint(v, coll),
        forall|id: Seq<char>|
            #[trigger] table.contains_key(id) ==> table[id].len() > 0 && !table[id].contains(':'),
    ensures
        ({
            let r = resolve_spec(v, coll, n, table);
            &&& is_resolved_form(r.0) || is_unresolved_form(r.0)
            &&& (r.1 is Some ==> is_resolved_form(r.0))
        }),
{
    let r = resolve_spec(v, coll, n, table);
    let c = ref_collection(v, coll);
    let k = ref_key(v, coll);
    lemma_qualified_parts(v, coll);
    match r.1 {
        Some(a) => {
            assert(!a.contains(':')) by {
                if n > 0 && k.len() > n {
                    assert forall|j: int| 0 <= j < a.len() implies a[j] != ':' by {
                        assert(a[j] == k[j]);
                    }
                }
            }
            assert(r.0 =~= c + seq!['/'] + (a + seq![':'] + k));
            lemma_cut_at_first(c, '/', a + seq![':'] + k);
            lemma_cut_at_first(a, ':', k);
        },
        None => {
            lemma_cut_at_first(c, '/', k);
            if k.contains(':') {
                assert(r.0 == c + seq!['/'] + k);
            }
        },
    }
}

} // verus!
