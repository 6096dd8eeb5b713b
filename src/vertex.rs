//! The vertex transform for tabular records: derives the sharding attribute,
//! stores it, and rewrites the key into `attribute:key`.
use vstd::prelude::*;
use crate::text::{
    after_first, before_first, char_views, chars_equal, chars_of, concat_sep, first_index, index_of,
    is_first, lemma_first_exists, lemma_first_index, slice_chars, string_of, truncate_chars,
    truncate_spec,
};
use crate::codec::{
    col_pos_spec, field_spec, find_col, is_clean_field, is_first_col, join_chars, join_spec,
    lemma_col_pos, lemma_field_clean, lemma_field_round_trip, lemma_split_clean, lemma_split_join,
    quotes_before, split_chars, split_spec, unquote_chars, unquote_spec, write_field,
};

verus! {

/// Where the transform reads and writes in each row.
#[derive(Clone, Copy, Debug)]
pub struct VertexColumns {
    /// Number of columns of the (rewritten) header.
    pub ncols: usize,
    /// Column of the sharding attribute.
    pub smart_attr_pos: usize,
    /// Column the attribute value is taken from, if one is configured and present.
    pub smart_value_pos: Option<usize>,
    /// Column of the key.
    pub key_pos: usize,
    /// Column the key value is taken from, if one is configured and present.
    pub key_value_pos: Option<usize>,
}

impl VertexColumns {
    /// Every position lies inside the header.
    pub open spec fn wf(&self) -> bool {
        &&& self.smart_attr_pos < self.ncols
        &&& self.key_pos < self.ncols
        &&& (self.smart_value_pos matches Some(v) ==> v < self.ncols)
        &&& (self.key_value_pos matches Some(v) ==> v < self.ncols)
    }
}

/// `parts` extended with empty fields up to `n`.
pub open spec fn pad_spec(parts: Seq<Seq<char>>, n: int) -> Seq<Seq<char>> {
    if parts.len() >= n {
        parts
    } else {
        parts + Seq::new((n - parts.len()) as nat, |i: int| Seq::<char>::empty())
    }
}

/// The attribute value before truncation: from the value column if there is one,
/// else what the attribute column holds.
pub open spec fn vertex_raw_attr(p: Seq<Seq<char>>, cols: VertexColumns, quo: char) -> Seq<char> {
    match cols.smart_value_pos {
        Some(v) => unquote_spec(p[v as int], quo),
        None => unquote_spec(p[cols.smart_attr_pos as int], quo),
    }
}

/// The sharding attribute of the row.
pub open spec fn vertex_attr(
    p: Seq<Seq<char>>,
    cols: VertexColumns,
    quo: char,
    n: i32,
) -> Seq<char> {
    truncate_spec(vertex_raw_attr(p, cols, quo), n)
}

/// The attribute column is written when the value comes from another column or was truncated.
pub open spec fn vertex_attr_written(
    p: Seq<Seq<char>>,
    cols: VertexColumns,
    quo: char,
    n: i32,
) -> bool {
    cols.smart_value_pos is Some || vertex_attr(p, cols, quo, n) != vertex_raw_attr(p, cols, quo)
}

/// The row once the attribute is stored.
pub open spec fn vertex_stage(
    p: Seq<Seq<char>>,
    cols: VertexColumns,
    sep: char,
    quo: char,
    n: i32,
) -> Seq<Seq<char>> {
    if vertex_attr_written(p, cols, quo, n) {
        p.update(cols.smart_attr_pos as int, field_spec(vertex_attr(p, cols, quo, n), sep, quo))
    } else {
        p
    }
}

/// The key value the composite key is built from.
pub open spec fn vertex_key(
    p: Seq<Seq<char>>,
    cols: VertexColumns,
    sep: char,
    quo: char,
    n: i32,
) -> Seq<char> {
    let s = vertex_stage(p, cols, sep, quo, n);
    match cols.key_value_pos {
        Some(k) => unquote_spec(s[k as int], quo),
        None => unquote_spec(s[cols.key_pos as int], quo),
    }
}

/// The key is already composite, with a prefix other than the attribute.
pub open spec fn vertex_key_mismatch(
    p: Seq<Seq<char>>,
    cols: VertexColumns,
    sep: char,
    quo: char,
    n: i32,
) -> bool {
    let key = vertex_key(p, cols, sep, quo, n);
    key.contains(':') && before_first(key, ':') != vertex_attr(p, cols, quo, n)
}

/// The rewritten fields of a (padded) row.
pub open spec fn vertex_fields_spec(
    p: Seq<Seq<char>>,
    cols: VertexColumns,
    sep: char,
    quo: char,
    n: i32,
) -> Seq<
    Seq<char>,
> {
    let s = vertex_stage(p, cols, sep, quo, n);
    let att = vertex_attr(p, cols, quo, n);
    let key = vertex_key(p, cols, sep, quo, n);
    if !key.contains(':') {
        s.update(cols.key_pos as int, field_spec(att + seq![':'] + key, sep, quo))
    } else if vertex_key_mismatch(p, cols, sep, quo, n) {
        s.update(cols.key_pos as int, field_spec(att + seq![':'] + after_first(key, ':'), sep, quo))
    } else {
        s
    }
}

/// The rewritten line for a tabular vertex row.
pub open spec fn vertex_line_spec(
    line: Seq<char>,
    sep: char,
    quo: char,
    cols: VertexColumns,
    n: i32,
) -> Seq<
    char,
> {
    let p = pad_spec(split_spec(line, sep, quo), cols.ncols as int);
    join_spec(vertex_fields_spec(p, cols, sep, quo, n), sep)
}

/// The logical values of raw fields.
pub open spec fn unquote_all(fields: Seq<Seq<char>>, quo: char) -> Seq<Seq<char>> {
    Seq::new(fields.len(), |i: int| unquote_spec(fields[i], quo))
}

/// The values as they are written into a row.
pub open spec fn write_all(fields: Seq<Seq<char>>, sep: char, quo: char) -> Seq<Seq<char>> {
    Seq::new(fields.len(), |i: int| field_spec(fields[i], sep, quo))
}

/// The column names of a header line.
pub open spec fn header_names(line: Seq<char>, sep: char, quo: char) -> Seq<Seq<char>> {
    unquote_all(split_spec(line, sep, quo), quo)
}

/// `names` with `x` appended when it is not there.
pub open spec fn with_column(names: Seq<Seq<char>>, x: Seq<char>) -> Seq<Seq<char>> {
    if names.contains(x) {
        names
    } else {
        names.push(x)
    }
}

/// The position of `x` in `names`, if `x` is not empty and is there.
pub open spec fn optional_col(names: Seq<Seq<char>>, x: Seq<char>) -> Option<usize> {
    if x.len() > 0 && names.contains(x) {
        Some(col_pos_spec(names, x) as usize)
    } else {
        None
    }
}

/// The header names once the attribute column (and, when asked, the key column) exist.
pub open spec fn vertex_header_names(
    line: Seq<char>,
    sep: char,
    quo: char,
    smart_attr: Seq<char>,
    write_key: bool,
) -> Seq<Seq<char>> {
    let h1 = with_column(header_names(line, sep, quo), smart_attr);
    if write_key {
        with_column(h1, "_key"@)
    } else {
        h1
    }
}

/// The columns of a vertex file with that header.
pub open spec fn vertex_columns_spec(
    line: Seq<char>,
    sep: char,
    quo: char,
    smart_attr: Seq<char>,
    smart_value: Seq<char>,
    write_key: bool,
    key_value: Seq<char>,
) -> VertexColumns {
    let h1 = with_column(header_names(line, sep, quo), smart_attr);
    let h2 = vertex_header_names(line, sep, quo, smart_attr, write_key);
    VertexColumns {
        ncols: h2.len() as usize,
        smart_attr_pos: col_pos_spec(h1, smart_attr) as usize,
        smart_value_pos: optional_col(h1, smart_value),
        key_pos: col_pos_spec(h2, "_key"@) as usize,
        key_value_pos: optional_col(h2, key_value),
    }
}

/// What the header of a tabular vertex file becomes.
pub struct VertexHeader {
    /// The output header line, without a line break.
    pub line: String,
    /// Where each row is read and written.
    pub columns: VertexColumns,
    /// A value column was named but the header lacks it.
    pub value_column_missing: bool,
    /// A key value column was named but the header lacks it.
    pub key_value_column_missing: bool,
}

/// Position of `name` in `names`, appending it when it is not there.
fn ensure_column(names: &mut Vec<Vec<char>>, name: &Vec<char>) -> (r: usize)
    ensures
        char_views(final(names)@) == with_column(char_views(old(names)@), name@),
        r as int == col_pos_spec(char_views(final(names)@), name@),
        r < final(names)@.len(),
{
    match find_col(names, name) {
        Some(i) => {
            proof {
                lemma_col_pos(char_views(names@), name@, i as int);
            }
            i
        },
        None => {
            let ghost before = char_views(names@);
            names.push(slice_chars(name, 0, name.len()));
            assert(name@.subrange(0, name@.len() as int) =~= name@);
            assert(char_views(names@) =~= before.push(name@));
            let i = names.len() - 1;
            proof {
                assert(is_first_col(char_views(names@), name@, i as int));
                lemma_col_pos(char_views(names@), name@, i as int);
            }
            i
        },
    }
}

/// Position of `name` in `names` when `name` is not empty and is there.
fn optional_column(names: &Vec<Vec<char>>, name: &Vec<char>) -> (r: Option<usize>)
    ensures
        r == optional_col(char_views(names@), name@),
        r matches Some(i) ==> i < names@.len(),
{
    if name.len() == 0 {
        return None;
    }
    match find_col(names, name) {
        Some(i) => {
            proof {
                lemma_col_pos(char_views(names@), name@, i as int);
            }
            Some(i)
        },
        None => None,
    }
}

/// Unquotes every field, or writes every value as a field.
pub fn map_fields(fields: &Vec<Vec<char>>, sep: char, quo: char, quoting: bool) -> (r: Vec<
    Vec<char>,
>)
    ensures
        char_views(r@) == if quoting {
            write_all(char_views(fields@), sep, quo)
        } else {
            unquote_all(char_views(fields@), quo)
        },
{
    let mut r: Vec<Vec<char>> = Vec::new();
    let mut i: usize = 0;
    while i < fields.len()
        invariant
            i <= fields@.len(),
            r@.len() == i,
            forall|j: int|
                0 <= j < i ==> r@[j]@ == if quoting {
                    field_spec(fields@[j]@, sep, quo)
                } else {
                    unquote_spec(fields@[j]@, quo)
                },
        decreases fields@.len() - i,
    {
        if quoting {
            r.push(write_field(&fields[i], sep, quo));
        } else {
            r.push(unquote_chars(&fields[i], quo));
        }
        i += 1;
    }
    if quoting {
        assert(char_views(r@) =~= write_all(char_views(fields@), sep, quo));
    } else {
        assert(char_views(r@) =~= unquote_all(char_views(fields@), quo));
    }
    r
}

/// Reads the header of a tabular vertex file: appends the attribute column when it is
/// missing, and the key column when it is missing and `write_key` is set, and locates
/// the value columns. `None` when there is no key column and none is to be written.
pub fn vertex_header_csv(
    header_line: &str,
    sep: char,
    quo: char,
    smart_attr: &str,
    smart_value: &str,
    write_key: bool,
    key_value: &str,
) -> (r: Option<VertexHeader>)
    ensures
        match r {
            None => !write_key && !with_column(header_names(header_line@, sep, quo), smart_attr@).contains(
                "_key"@,
            ),
            Some(h) => {
                let names = vertex_header_names(header_line@, sep, quo, smart_attr@, write_key);
                &&& names.contains("_key"@)
                &&& h.columns == vertex_columns_spec(
                    header_line@,
                    sep,
                    quo,
                    smart_attr@,
                    smart_value@,
                    write_key,
                    key_value@,
                )
                &&& h.columns.wf()
                &&& h.line@ == join_spec(write_all(names, sep, quo), sep)
                &&& h.value_column_missing == (smart_value@.len() > 0 && h.columns.smart_value_pos is None)
                &&& h.key_value_column_missing == (key_value@.len() > 0 && h.columns.key_value_pos is None)
            },
        },
{
    let cs = chars_of(header_line);
    let raw = split_chars(&cs, sep, quo);
    let mut names = map_fields(&raw, sep, quo, false);
    let attr = chars_of(smart_attr);
    let smart_attr_pos = ensure_column(&mut names, &attr);
    let value = chars_of(smart_value);
    let smart_value_pos = optional_column(&names, &value);
    let key_name = chars_of("_key");
    let key_pos = if write_key {
        ensure_column(&mut names, &key_name)
    } else {
        match find_col(&names, &key_name) {
            Some(i) => {
                proof {
                    lemma_col_pos(char_views(names@), key_name@, i as int);
                }
                i
            },
            None => {
                return None;
            },
        }
    };
    let kv = chars_of(key_value);
    let key_value_pos = optional_column(&names, &kv);
    let quoted = map_fields(&names, sep, quo, true);
    let out = join_chars(&quoted, sep);
    let columns = VertexColumns {
        ncols: names.len(),
        smart_attr_pos,
        smart_value_pos,
        key_pos,
        key_value_pos,
    };
    Some(
        VertexHeader {
            line: string_of(&out),
            columns,
            value_column_missing: value.len() > 0 && smart_value_pos.is_none(),
            key_value_column_missing: kv.len() > 0 && key_value_pos.is_none(),
        },
    )
}

/// One rewritten vertex row.
pub struct VertexRow {
    /// The output line, without a line break.
    pub line: String,
    /// The sharding attribute the row was given.
    pub attribute: String,
    /// The key value the composite key was built from.
    pub key: String,
    /// The key was already composite with another prefix (its prefix was corrected).
    pub mismatch: bool,
}

/// Pads `parts` with empty fields up to `n`.
pub fn pad_fields(parts: &mut Vec<Vec<char>>, n: usize)
    ensures
        char_views(final(parts)@) == pad_spec(char_views(old(parts)@), n as int),
        final(parts)@.len() == if old(parts)@.len() >= n { old(parts)@.len() } else { n as nat },
{
    let ghost start = char_views(parts@);
    while parts.len() < n
        invariant
            start.len() <= parts@.len(),
            start.len() >= n ==> parts@.len() == start.len(),
            start.len() < n ==> parts@.len() <= n,
            char_views(parts@) == start + Seq::new(
                (parts@.len() - start.len()) as nat,
                |i: int| Seq::<char>::empty(),
            ),
        decreases n - parts@.len(),
    {
        let ghost before = char_views(parts@);
        parts.push(Vec::new());
        assert(char_views(parts@) =~= before.push(Seq::<char>::empty()));
        assert(char_views(parts@) =~= start + Seq::new(
            (parts@.len() - start.len()) as nat,
            |i: int| Seq::<char>::empty(),
        ));
    }
    proof {
        if start.len() >= n {
            assert(char_views(parts@) =~= start);
        }
    }
}

/// Replaces field `i`.
pub fn set_field(parts: &mut Vec<Vec<char>>, i: usize, v: Vec<char>)
    requires
        i < old(parts)@.len(),
    ensures
        char_views(final(parts)@) == char_views(old(parts)@).update(i as int, v@),
        final(parts)@.len() == old(parts)@.len(),
{
    let ghost v0 = v@;
    parts.set(i, v);
    assert(char_views(parts@) =~= char_views(old(parts)@).update(i as int, v0));
}

/// Rewrites the fields of a padded row; returns the attribute, the key value and
/// whether the key carried another prefix.
pub fn vertex_fields(
    parts: &mut Vec<Vec<char>>,
    sep: char,
    quo: char,
    cols: &VertexColumns,
    smart_index: i32,
) -> (r: (
    Vec<char>,
    Vec<char>,
    bool,
))
    requires
        cols.wf(),
        old(parts)@.len() >= cols.ncols,
    ensures
        char_views(final(parts)@) == vertex_fields_spec(
            char_views(old(parts)@),
            *cols,
            sep,
            quo,
            smart_index,
        ),
        r.0@ == vertex_attr(char_views(old(parts)@), *cols, quo, smart_index),
        r.1@ == vertex_key(char_views(old(parts)@), *cols, sep, quo, smart_index),
        r.2 == vertex_key_mismatch(char_views(old(parts)@), *cols, sep, quo, smart_index),
{
    let ghost p = char_views(parts@);
    let raw = match cols.smart_value_pos {
        Some(v) => unquote_chars(&parts[v], quo),
        None => unquote_chars(&parts[cols.smart_attr_pos], quo),
    };
    let att = truncate_chars(&raw, smart_index);
    if cols.smart_value_pos.is_some() || !chars_equal(&att, &raw) {
        let q = write_field(&att, sep, quo);
        set_field(parts, cols.smart_attr_pos, q);
    }
    assert(char_views(parts@) == vertex_stage(p, *cols, sep, quo, smart_index));
    let key = match cols.key_value_pos {
        Some(k) => unquote_chars(&parts[k], quo),
        None => unquote_chars(&parts[cols.key_pos], quo),
    };
    let mut mismatch = false;
    match index_of(&key, ':') {
        None => {
            let composite = concat_sep(&att, ':', &key);
            set_field(parts, cols.key_pos, write_field(&composite, sep, quo));
        },
        Some(c) => {
            proof {
                lemma_first_index(key@, ':', c as int);
            }
            let klen = key.len();
            assert(c < klen);
            let prefix = slice_chars(&key, 0, c);
            if !chars_equal(&prefix, &att) {
                mismatch = true;
                let suffix = slice_chars(&key, c + 1, klen);
                let composite = concat_sep(&att, ':', &suffix);
                set_field(parts, cols.key_pos, write_field(&composite, sep, quo));
            }
        },
    }
    (att, key, mismatch)
}

/// Transforms one tabular vertex row: splits it, pads it to the header's width,
/// stores the sharding attribute and rewrites the key into `attribute:key`.
pub fn transform_vertex_csv(
    line: &str,
    sep: char,
    quo: char,
    cols: &VertexColumns,
    smart_index: i32,
) -> (r:
    VertexRow)
    requires
        cols.wf(),
    ensures
        r.line@ == vertex_line_spec(line@, sep, quo, *cols, smart_index),
        r.attribute@ == vertex_attr(
            pad_spec(split_spec(line@, sep, quo), cols.ncols as int),
            *cols,
            quo,
            smart_index,
        ),
        r.key@ == vertex_key(
            pad_spec(split_spec(line@, sep, quo), cols.ncols as int),
            *cols,
            sep,
            quo,
            smart_index,
        ),
        r.mismatch == vertex_key_mismatch(
            pad_spec(split_spec(line@, sep, quo), cols.ncols as int),
            *cols,
            sep,
            quo,
            smart_index,
        ),
{
    let cs = chars_of(line);
    let mut parts = split_chars(&cs, sep, quo);
    pad_fields(&mut parts, cols.ncols);
    let (att, key, mismatch) = vertex_fields(&mut parts, sep, quo, cols, smart_index);
    let out = join_chars(&parts, sep);
    VertexRow { line: string_of(&out), attribute: string_of(&att), key: string_of(&key), mismatch }
}

/// When truncation is on and the raw attribute value is at least that long, the
/// attribute, and the value stored in the attribute column, are its first `n` characters.
pub proof fn lemma_vertex_truncation(
    p: Seq<Seq<char>>,
    cols: VertexColumns,
    sep: char,
    quo: char,
    n: i32,
)
    requires
        cols.wf(),
        p.len() >= cols.ncols,
        cols.key_pos != cols.smart_attr_pos,
        n > 0,
        vertex_raw_attr(p, cols, quo).len() >= n,
    ensures
        vertex_attr(p, cols, quo, n) == vertex_raw_attr(p, cols, quo).subrange(0, n as int),
        unquote_spec(vertex_fields_spec(p, cols, sep, quo, n)[cols.smart_attr_pos as int], quo)
            == vertex_raw_attr(p, cols, quo).subrange(0, n as int),
{
    let raw = vertex_raw_attr(p, cols, quo);
    let att = vertex_attr(p, cols, quo, n);
    if raw.len() == n {
        assert(raw.subrange(0, n as int) =~= raw);
    }
    lemma_field_round_trip(att, sep, quo);
}

/// `k` is the attribute, a colon, then at least the rest of the key.
pub open spec fn is_composite_of(k: Seq<char>, att: Seq<char>) -> bool {
    &&& k.len() > att.len()
    &&& k.subrange(0, att.len() as int) == att
    &&& k[att.len() as int] == ':'
}

/// Every rewritten vertex row has a composite key, `attribute:rest`, whose prefix is the
/// value of the attribute column; when the attribute holds no colon, the prefix is all
/// that precedes the key's first colon. The key column must differ from the attribute
/// column, and the key value must come from the key column itself.
pub proof fn lemma_vertex_key_composite(
    p: Seq<Seq<char>>,
    cols: VertexColumns,
    sep: char,
    quo: char,
    n: i32,
)
    requires
        cols.wf(),
        p.len() >= cols.ncols,
        cols.key_pos != cols.smart_attr_pos,
        cols.key_value_pos is None || cols.key_value_pos == Some(cols.key_pos),
    ensures
        ({
            let out = vertex_fields_spec(p, cols, sep, quo, n);
            let att = vertex_attr(p, cols, quo, n);
            let k = unquote_spec(out[cols.key_pos as int], quo);
            &&& is_composite_of(k, att)
            &&& unquote_spec(out[cols.smart_attr_pos as int], quo) == att
            &&& (!att.contains(':') ==> before_first(k, ':') == att)
        }),
{
    let out = vertex_fields_spec(p, cols, sep, quo, n);
    let s = vertex_stage(p, cols, sep, quo, n);
    let att = vertex_attr(p, cols, quo, n);
    let key = vertex_key(p, cols, sep, quo, n);
    let k = unquote_spec(out[cols.key_pos as int], quo);
    lemma_field_round_trip(att, sep, quo);
    if !key.contains(':') {
        lemma_field_round_trip(att + seq![':'] + key, sep, quo);
        assert(k == att + seq![':'] + key);
        assert(k.subrange(0, att.len() as int) =~= att);
    } else {
        lemma_first_exists(key, ':');
        let f = first_index(key, ':');
        if vertex_key_mismatch(p, cols, sep, quo, n) {
            lemma_field_round_trip(att + seq![':'] + after_first(key, ':'), sep, quo);
            assert(k == att + seq![':'] + after_first(key, ':'));
            assert(k.subrange(0, att.len() as int) =~= att);
        } else {
            assert(k == key);
            assert(before_first(key, ':') == att);
            assert(k.subrange(0, att.len() as int) =~= att);
        }
    }
    if !att.contains(':') {
        assert forall|j: int| 0 <= j < att.len() implies k[j] != ':' by {
            assert(k[j] == k.subrange(0, att.len() as int)[j]);
        }
        assert(is_first(k, ':', att.len() as int));
        lemma_first_index(k, ':', att.len() as int);
    }
}
/// Transforming a vertex row a second time, with the same columns and truncation,
/// changes nothing. The key column must differ from the attribute column and from the
/// value column, and the attribute must hold no colon.
pub proof fn lemma_vertex_idempotent(
    p: Seq<Seq<char>>,
    cols: VertexColumns,
    sep: char,
    quo: char,
    n: i32,
)
    requires
        cols.wf(),
        p.len() >= cols.ncols,
        cols.key_pos != cols.smart_attr_pos,
        cols.smart_value_pos != Some(cols.key_pos),
        !vertex_attr(p, cols, quo, n).contains(':'),
    ensures
        vertex_fields_spec(vertex_fields_spec(p, cols, sep, quo, n), cols, sep, quo, n) == vertex_fields_spec(
            p,
            cols,
            sep,
            quo,
            n,
        ),
{
    let out = vertex_fields_spec(p, cols, sep, quo, n);
    let s = vertex_stage(p, cols, sep, quo, n);
    let att = vertex_attr(p, cols, quo, n);
    let raw = vertex_raw_attr(p, cols, quo);
    let key = vertex_key(p, cols, sep, quo, n);
    let sap = cols.smart_attr_pos as int;
    let kp = cols.key_pos as int;
    lemma_field_round_trip(att, sep, quo);
    // The attribute is found again, and stored as it already is.
    assert(truncate_spec(att, n) == att);
    assert(out.len() == p.len());
    assert(out[sap] == s[sap]);
    assert forall|j: int| 0 <= j < out.len() && j != kp implies out[j] == s[j] by {}
    match cols.smart_value_pos {
        Some(v) => {
            if v as int != sap {
                assert(out[v as int] == p[v as int]);
            }
            assert(vertex_raw_attr(out, cols, quo) == raw || vertex_raw_attr(out, cols, quo) == att);
        },
        None => {},
    }
    assert(vertex_attr(out, cols, quo, n) == att);
    let s2 = vertex_stage(out, cols, sep, quo, n);
    assert(s2 =~= out);
    // The key is read again from an unchanged column, or from the rewritten key column.
    let key2 = vertex_key(out, cols, sep, quo, n);
    if !key.contains(':') {
        lemma_field_round_trip(att + seq![':'] + key, sep, quo);
    } else if vertex_key_mismatch(p, cols, sep, quo, n) {
        lemma_field_round_trip(att + seq![':'] + after_first(key, ':'), sep, quo);
    }
    let written = if !key.contains(':') {
        att + seq![':'] + key
    } else {
        att + seq![':'] + after_first(key, ':')
    };
    match cols.key_value_pos {
        Some(x) => {
            if x as int != kp {
                assert(key2 == key);
            }
        },
        None => {},
    }
    if key2 != key {
        assert(key.contains(':') ==> vertex_key_mismatch(p, cols, sep, quo, n));
        assert(key2 == written);
        assert(!att.contains(':'));
        assert forall|j: int| 0 <= j < att.len() implies key2[j] != ':' by {
            assert(key2[j] == att[j]);
        }
        assert(key2[att.len() as int] == ':');
        assert(is_first(key2, ':', att.len() as int));
        lemma_first_index(key2, ':', att.len() as int);
        assert(before_first(key2, ':') =~= att);
        assert(key2.contains(':'));
        assert(!vertex_key_mismatch(out, cols, sep, quo, n));
        assert(vertex_fields_spec(out, cols, sep, quo, n) == s2);
    }
}

/// The key value written into the key column, if the row's key is rewritten.
pub open spec fn vertex_written_key(
    p: Seq<Seq<char>>,
    cols: VertexColumns,
    sep: char,
    quo: char,
    n: i32,
) -> Option<
    Seq<char>,
> {
    let att = vertex_attr(p, cols, quo, n);
    let key = vertex_key(p, cols, sep, quo, n);
    if !key.contains(':') {
        Some(att + seq![':'] + key)
    } else if vertex_key_mismatch(p, cols, sep, quo, n) {
        Some(att + seq![':'] + after_first(key, ':'))
    } else {
        None
    }
}

/// A rewritten tabular vertex line splits back into the rewritten fields, when the
/// separator differs from the quote character and the line holds an even number of quotes.
pub proof fn lemma_vertex_line_fields(
    line: Seq<char>,
    sep: char,
    quo: char,
    cols: VertexColumns,
    n: i32,
)
    requires
        cols.wf(),
        sep != quo,
        quotes_before(line, quo, line.len() as int) % 2 == 0,
    ensures
        ({
            let p = pad_spec(split_spec(line, sep, quo), cols.ncols as int);
            let out = vertex_fields_spec(p, cols, sep, quo, n);
            &&& split_spec(vertex_line_spec(line, sep, quo, cols, n), sep, quo) == out
            &&& p.len() >= cols.ncols
            &&& out.len() == p.len()
        }),
{
    let start = split_spec(line, sep, quo);
    let p = pad_spec(start, cols.ncols as int);
    lemma_split_clean(line, sep, quo);
    assert forall|j: int| 0 <= j < p.len() implies is_clean_field(#[trigger] p[j], sep, quo) by {
        if j >= start.len() {
            assert(p[j] =~= Seq::<char>::empty());
        }
    }
    let out = vertex_fields_spec(p, cols, sep, quo, n);
    let att = vertex_attr(p, cols, quo, n);
    if vertex_attr_written(p, cols, quo, n) {
        lemma_field_clean(att, sep, quo);
    }
    if let Some(k) = vertex_written_key(p, cols, sep, quo, n) {
        lemma_field_clean(k, sep, quo);
    }
    assert forall|j: int| 0 <= j < out.len() implies is_clean_field(#[trigger] out[j], sep, quo) by {
        assert(is_clean_field(p[j], sep, quo));
    }
    lemma_split_join(out, sep, quo);
}

/// Transforming a tabular vertex line a second time, with the same columns and
/// truncation, gives the same line. The separator must differ from the quote character,
/// the line must hold an even number of quote characters, the key column must differ
/// from the attribute and value columns, and the attribute must hold no colon.
pub proof fn lemma_vertex_line_idempotent(
    line: Seq<char>,
    sep: char,
    quo: char,
    cols: VertexColumns,
    n: i32,
)
    requires
        cols.wf(),
        sep != quo,
        quotes_before(line, quo, line.len() as int) % 2 == 0,
        cols.key_pos != cols.smart_attr_pos,
        cols.smart_value_pos != Some(cols.key_pos),
        !vertex_attr(pad_spec(split_spec(line, sep, quo), cols.ncols as int), cols, quo, n).contains(':'),
    ensures
        vertex_line_spec(vertex_line_spec(line, sep, quo, cols, n), sep, quo, cols, n) == vertex_line_spec(
            line,
            sep,
            quo,
            cols,
            n,
        ),
{
    let p = pad_spec(split_spec(line, sep, quo), cols.ncols as int);
    let out = vertex_fields_spec(p, cols, sep, quo, n);
    lemma_vertex_line_fields(line, sep, quo, cols, n);
    assert(pad_spec(out, cols.ncols as int) == out);
    lemma_vertex_idempotent(p, cols, sep, quo, n);
}

/// In a written tabular vertex line, read back field by field, the key is the attribute,
/// a colon, then the rest, and the attribute column holds the attribute; when the
/// attribute holds no colon, it is all that precedes the key's first colon. The key column
/// must differ from the attribute column and the key value must come from the key column.
pub proof fn lemma_vertex_line_key_composite(
    line: Seq<char>,
    sep: char,
    quo: char,
    cols: VertexColumns,
    n: i32,
)
    requires
        cols.wf(),
        sep != quo,
        quotes_before(line, quo, line.len() as int) % 2 == 0,
        cols.key_pos != cols.smart_attr_pos,
        cols.key_value_pos is None || cols.key_value_pos == Some(cols.key_pos),
    ensures
        ({
            let f = split_spec(vertex_line_spec(line, sep, quo, cols, n), sep, quo);
            let att = vertex_attr(pad_spec(split_spec(line, sep, quo), cols.ncols as int), cols, quo, n);
            let k = unquote_spec(f[cols.key_pos as int], quo);
            &&& is_composite_of(k, att)
            &&& unquote_spec(f[cols.smart_attr_pos as int], quo) == att
            &&& (!att.contains(':') ==> before_first(k, ':') == att)
        }),
{
    let p = pad_spec(split_spec(line, sep, quo), cols.ncols as int);
    lemma_vertex_line_fields(line, sep, quo, cols, n);
    lemma_vertex_key_composite(p, cols, sep, quo, n);
}

/// In a written tabular vertex line, read back field by field: with truncation on and a
/// raw attribute at least that long, the attribute column holds its first `n` characters.
pub proof fn lemma_vertex_line_truncation(
    line: Seq<char>,
    sep: char,
    quo: char,
    cols: VertexColumns,
    n: i32,
)
    requires
        cols.wf(),
        sep != quo,
        quotes_before(line, quo, line.len() as int) % 2 == 0,
        cols.key_pos != cols.smart_attr_pos,
        n > 0,
        vertex_raw_attr(pad_spec(split_spec(line, sep, quo), cols.ncols as int), cols, quo).len() >= n,
    ensures
        ({
            let f = split_spec(vertex_line_spec(line, sep, quo, cols, n), sep, quo);
            let raw = vertex_raw_attr(pad_spec(split_spec(line, sep, quo), cols.ncols as int), cols, quo);
            unquote_spec(f[cols.smart_attr_pos as int], quo) == raw.subrange(0, n as int)
        }),
{
    let p = pad_spec(split_spec(line, sep, quo), cols.ncols as int);
    lemma_vertex_line_fields(line, sep, quo, cols, n);
    lemma_vertex_truncation(p, cols, sep, quo, n);
}

} // verus!


