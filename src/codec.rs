//! The tabular codec: a quote-aware tokenizer, unquoting, quoting of single
//! fields, and serialization of a row.
use vstd::prelude::*;
use crate::text::{
    char_views, chars_equal, chars_of, has_char, push_all, slice_chars, string_of, string_views,
};

verus! {

/// How many of the first `i` characters of `s` are `q`.
pub open spec fn quotes_before(s: Seq<char>, q: char, i: int) -> nat
    decreases i,
{
    if i <= 0 {
        0
    } else {
        quotes_before(s, q, i - 1) + if s[i - 1] == q { 1nat } else { 0nat }
    }
}

/// Position `i` of `line` separates two fields: it holds the separator (which is
/// not the quote character) outside of any quoted span.
pub open spec fn splits_at(line: Seq<char>, sep: char, quo: char, i: int) -> bool {
    &&& line[i] == sep
    &&& sep != quo
    &&& quotes_before(line, quo, i) % 2 == 0
}

/// The fields completed within the first `i` characters, and where the open field starts.
pub open spec fn split_state(line: Seq<char>, sep: char, quo: char, i: int) -> (Seq<Seq<char>>, int)
    decreases i,
{
    if i <= 0 {
        (seq![], 0)
    } else {
        let prev = split_state(line, sep, quo, i - 1);
        if splits_at(line, sep, quo, i - 1) {
            (prev.0.push(line.subrange(prev.1, i - 1)), i)
        } else {
            prev
        }
    }
}

/// The raw fields of `line`: the pieces between the separating positions.
pub open spec fn split_spec(line: Seq<char>, sep: char, quo: char) -> Seq<Seq<char>> {
    let st = split_state(line, sep, quo, line.len() as int);
    st.0.push(line.subrange(st.1, line.len() as int))
}

/// The logical content of `s`, read from `inq` (inside a quoted span or not).
/// Outside quotes characters are dropped and a quote opens a span; inside,
/// a doubled quote stands for one quote and a single quote closes the span.
pub open spec fn unquote_scan(s: Seq<char>, q: char, inq: bool) -> Seq<char>
    decreases s.len(),
{
    if s.len() == 0 {
        seq![]
    } else if !inq {
        unquote_scan(s.drop_first(), q, s[0] == q)
    } else if s[0] != q {
        seq![s[0]] + unquote_scan(s.drop_first(), q, true)
    } else if s.len() > 1 && s[1] == q {
        seq![q] + unquote_scan(s.subrange(2, s.len() as int), q, true)
    } else {
        unquote_scan(s.drop_first(), q, false)
    }
}

/// The logical value of a raw field.
pub open spec fn unquote_spec(s: Seq<char>, q: char) -> Seq<char> {
    if s.contains(q) {
        unquote_scan(s, q, false)
    } else {
        s
    }
}

/// `s` with every `q` doubled.
pub open spec fn double_quotes(s: Seq<char>, q: char) -> Seq<char>
    decreases s.len(),
{
    if s.len() == 0 {
        seq![]
    } else {
        double_quotes(s.drop_last(), q) + if s.last() == q {
            seq![q, q]
        } else {
            seq![s.last()]
        }
    }
}

/// The serialized form of a value: wrapped and doubled when it holds the quote character.
pub open spec fn quote_spec(s: Seq<char>, q: char) -> Seq<char> {
    if s.contains(q) {
        seq![q] + double_quotes(s, q) + seq![q]
    } else {
        s
    }
}

/// `s` wrapped in quotes, with every quote inside doubled.
pub open spec fn wrap_spec(s: Seq<char>, q: char) -> Seq<char> {
    seq![q] + double_quotes(s, q) + seq![q]
}

/// How a value is written as a field of a row: wrapped when it holds the quote
/// character or the separator, else as it is.
pub open spec fn field_spec(s: Seq<char>, sep: char, q: char) -> Seq<char> {
    if s.contains(q) || s.contains(sep) {
        wrap_spec(s, q)
    } else {
        s
    }
}

/// The fields joined by the separator, with none trailing.
pub open spec fn join_spec(fields: Seq<Seq<char>>, sep: char) -> Seq<char>
    decreases fields.len(),
{
    if fields.len() == 0 {
        seq![]
    } else if fields.len() == 1 {
        fields[0]
    } else {
        join_spec(fields.drop_last(), sep) + seq![sep] + fields.last()
    }
}

/// `i` is the first position of `x` in `v`.
pub open spec fn is_first_col(v: Seq<Seq<char>>, x: Seq<char>, i: int) -> bool {
    &&& 0 <= i < v.len()
    &&& v[i] == x
    &&& forall|j: int| 0 <= j < i ==> v[j] != x
}

/// The position of a column name in a header, or -1.
pub open spec fn col_pos_spec(v: Seq<Seq<char>>, x: Seq<char>) -> int {
    if v.contains(x) {
        choose|i: int| is_first_col(v, x, i)
    } else {
        -1
    }
}

pub proof fn lemma_col_pos(v: Seq<Seq<char>>, x: Seq<char>, i: int)
    requires
        is_first_col(v, x, i),
    ensures
        col_pos_spec(v, x) == i,
{
    assert(v.contains(x));
    let k = choose|k: int| is_first_col(v, x, k);
    assert(is_first_col(v, x, k));
    if k < i {
        assert(v[k] != x);
    } else if i < k {
        assert(v[i] != x);
    }
}

/// Doubling a sequence that starts with `c` doubles `c`, then the rest.
proof fn lemma_double_front(c: char, t: Seq<char>, q: char)
    ensures
        double_quotes(seq![c] + t, q) == (if c == q {
            seq![q, q]
        } else {
            seq![c]
        }) + double_quotes(t, q),
    decreases t.len(),
{
    let e = if c == q {
        seq![q, q]
    } else {
        seq![c]
    };
    if t.len() == 0 {
        assert((seq![c] + t).drop_last() =~= seq![]);
        assert((seq![c] + t).last() == c);
        assert(double_quotes(seq![], q) =~= seq![]);
        assert(double_quotes(t, q) =~= seq![]);
        assert(double_quotes(seq![c] + t, q) =~= e + double_quotes(t, q));
    } else {
        assert((seq![c] + t).drop_last() =~= seq![c] + t.drop_last());
        assert((seq![c] + t).last() == t.last());
        lemma_double_front(c, t.drop_last(), q);
        assert(double_quotes(seq![c] + t, q) == double_quotes(seq![c] + t.drop_last(), q) + (if t.last()
            == q {
            seq![q, q]
        } else {
            seq![t.last()]
        }));
        assert(double_quotes(seq![c] + t, q) =~= e + double_quotes(t, q));
    }
}

/// Reading a doubled sequence followed by a closing quote from inside a span gives it back.
proof fn lemma_unquote_doubled(t: Seq<char>, q: char)
    ensures
        unquote_scan(double_quotes(t, q) + seq![q], q, true) == t,
    decreases t.len(),
{
    let s = double_quotes(t, q) + seq![q];
    if t.len() == 0 {
        assert(double_quotes(t, q) =~= seq![]);
        assert(s =~= seq![q]);
        assert(s.drop_first() =~= seq![]);
        assert(unquote_scan(s.drop_first(), q, false) =~= seq![]);
        assert(t =~= seq![]);
    } else {
        let c = t[0];
        let rest = t.drop_first();
        assert(t =~= seq![c] + rest);
        lemma_double_front(c, rest, q);
        lemma_unquote_doubled(rest, q);
        if c == q {
            assert(s =~= seq![q, q] + (double_quotes(rest, q) + seq![q]));
            assert(s.subrange(2, s.len() as int) =~= double_quotes(rest, q) + seq![q]);
        } else {
            assert(s =~= seq![c] + (double_quotes(rest, q) + seq![q]));
            assert(s.drop_first() =~= double_quotes(rest, q) + seq![q]);
        }
        assert(unquote_scan(s, q, true) =~= t);
    }
}

/// Unquoting a wrapped value gives the value back.
pub proof fn lemma_wrap_round_trip(s: Seq<char>, q: char)
    ensures
        unquote_spec(wrap_spec(s, q), q) == s,
{
    let w = wrap_spec(s, q);
    assert(w[0] == q);
    assert(w.contains(q));
    assert(w.drop_first() =~= double_quotes(s, q) + seq![q]);
    lemma_unquote_doubled(s, q);
}

/// Unquoting the serialized form of any value gives the value back.
pub proof fn lemma_quote_round_trip(s: Seq<char>, q: char)
    ensures
        unquote_spec(quote_spec(s, q), q) == s,
{
    if s.contains(q) {
        lemma_wrap_round_trip(s, q);
    }
}

/// Unquoting a written field gives the value back.
pub proof fn lemma_field_round_trip(s: Seq<char>, sep: char, q: char)
    ensures
        unquote_spec(field_spec(s, sep, q), q) == s,
{
    if s.contains(q) || s.contains(sep) {
        lemma_wrap_round_trip(s, q);
    }
}

/// Splits a line into its raw fields (quotes kept).
pub fn split_chars(line: &Vec<char>, sep: char, quo: char) -> (r: Vec<Vec<char>>)
    ensures
        char_views(r@) == split_spec(line@, sep, quo),
{
    let n = line.len();
    let mut res: Vec<Vec<char>> = Vec::new();
    let mut start: usize = 0;
    let mut in_quote = false;
    let mut i: usize = 0;
    assert(char_views(res@) =~= seq![]);
    while i < n
        invariant
            n == line@.len(),
            start <= i <= n,
            in_quote == (quotes_before(line@, quo, i as int) % 2 == 1),
            split_state(line@, sep, quo, i as int) == (char_views(res@), start as int),
        decreases n - i,
    {
        let c = line[i];
        let ghost prev_views = char_views(res@);
        if c == quo {
            in_quote = !in_quote;
        } else if c == sep && !in_quote {
            let piece = slice_chars(line, start, i);
            res.push(piece);
            assert(char_views(res@) =~= prev_views.push(piece@));
            start = i + 1;
        }
        i += 1;
    }
    let last = slice_chars(line, start, n);
    let ghost prev_views = char_views(res@);
    res.push(last);
    assert(char_views(res@) =~= prev_views.push(last@));
    res
}

/// Splits `line` on `sep` outside of quoted spans; the fields keep their quotes.
/// A doubled quote inside a span does not end it; an unterminated span runs to the end.
pub fn split(line: &str, sep: char, quo: char) -> (r: Vec<String>)
    ensures
        string_views(r@) == split_spec(line@, sep, quo),
{
    let cs = chars_of(line);
    let parts = split_chars(&cs, sep, quo);
    let mut r: Vec<String> = Vec::new();
    let mut i: usize = 0;
    while i < parts.len()
        invariant
            i <= parts@.len(),
            r@.len() == i,
            forall|j: int| 0 <= j < i ==> r@[j]@ == parts@[j]@,
        decreases parts@.len() - i,
    {
        r.push(string_of(&parts[i]));
        i += 1;
    }
    assert(string_views(r@) =~= char_views(parts@));
    r
}

/// The logical value of a raw field.
pub fn unquote_chars(s: &Vec<char>, quo: char) -> (r: Vec<char>)
    ensures
        r@ == unquote_spec(s@, quo),
{
    if !has_char(s, quo) {
        return slice_chars(s, 0, s.len());
    }
    let n = s.len();
    let mut res: Vec<char> = Vec::new();
    let mut in_quote = false;
    let mut i: usize = 0;
    assert(s@.subrange(0, n as int) =~= s@);
    while i < n
        invariant
            n == s@.len(),
            i <= n,
            res@ + unquote_scan(s@.subrange(i as int, n as int), quo, in_quote) == unquote_scan(
                s@,
                quo,
                false,
            ),
        decreases n - i,
    {
        let ghost rest = s@.subrange(i as int, n as int);
        let ghost r0 = res@;
        assert(rest.drop_first() =~= s@.subrange(i + 1, n as int));
        let c = s[i];
        if !in_quote {
            in_quote = c == quo;
            i += 1;
        } else if c != quo {
            res.push(c);
            assert(res@ + unquote_scan(s@.subrange(i + 1, n as int), quo, true) =~= r0 + (seq![c]
                + unquote_scan(s@.subrange(i + 1, n as int), quo, true)));
            i += 1;
        } else if i + 1 < n && s[i + 1] == quo {
            assert(rest.subrange(2, rest.len() as int) =~= s@.subrange(i + 2, n as int));
            res.push(quo);
            assert(res@ + unquote_scan(s@.subrange(i + 2, n as int), quo, true) =~= r0 + (seq![
                quo,
            ] + unquote_scan(s@.subrange(i + 2, n as int), quo, true)));
            i += 2;
        } else {
            in_quote = false;
            i += 1;
        }
    }
    assert(unquote_scan(s@.subrange(n as int, n as int), quo, in_quote) =~= seq![]);
    assert(res@ =~= res@ + seq![]);
    res
}

/// Removes the quoting of a raw field: unchanged when it holds no quote character;
/// else what lies inside the quoted spans, with doubled quotes read as one.
pub fn unquote(s: &str, quo: char) -> (r: String)
    ensures
        r@ == unquote_spec(s@, quo),
{
    let cs = chars_of(s);
    let u = unquote_chars(&cs, quo);
    string_of(&u)
}

/// `s` wrapped in quotes, with every quote inside doubled.
pub fn wrap_chars(s: &Vec<char>, quo: char) -> (r: Vec<char>)
    ensures
        r@ == wrap_spec(s@, quo),
{
    let mut res: Vec<char> = Vec::new();
    res.push(quo);
    let mut i: usize = 0;
    assert(s@.subrange(0, 0) =~= seq![]);
    assert(res@ =~= seq![quo] + double_quotes(seq![], quo));
    while i < s.len()
        invariant
            i <= s@.len(),
            res@ == seq![quo] + double_quotes(s@.subrange(0, i as int), quo),
        decreases s@.len() - i,
    {
        let c = s[i];
        assert(s@.subrange(0, i + 1).drop_last() =~= s@.subrange(0, i as int));
        if c == quo {
            res.push(quo);
            res.push(quo);
        } else {
            res.push(c);
        }
        assert(res@ =~= seq![quo] + double_quotes(s@.subrange(0, i + 1), quo));
        i += 1;
    }
    assert(s@.subrange(0, s@.len() as int) =~= s@);
    res.push(quo);
    res
}

/// The serialized form of a value.
pub fn quote_chars(s: &Vec<char>, quo: char) -> (r: Vec<char>)
    ensures
        r@ == quote_spec(s@, quo),
{
    if !has_char(s, quo) {
        return slice_chars(s, 0, s.len());
    }
    wrap_chars(s, quo)
}

/// A value as it is written into a row: wrapped when it holds the quote character
/// or the separator.
pub fn write_field(s: &Vec<char>, sep: char, quo: char) -> (r: Vec<char>)
    ensures
        r@ == field_spec(s@, sep, quo),
{
    if has_char(s, quo) || has_char(s, sep) {
        wrap_chars(s, quo)
    } else {
        let r = slice_chars(s, 0, s.len());
        assert(s@.subrange(0, s@.len() as int) =~= s@);
        r
    }
}

/// Wraps `s` in the quote character, doubling each one inside, when it holds one;
/// else returns it unchanged.
pub fn quote_string(s: &str, quo: char) -> (r: String)
    ensures
        r@ == quote_spec(s@, quo),
{
    let cs = chars_of(s);
    let q = quote_chars(&cs, quo);
    string_of(&q)
}

/// Joins the fields with the separator.
pub fn join_chars(fields: &Vec<Vec<char>>, sep: char) -> (r: Vec<char>)
    ensures
        r@ == join_spec(char_views(fields@), sep),
{
    let mut res: Vec<char> = Vec::new();
    let mut i: usize = 0;
    while i < fields.len()
        invariant
            i <= fields@.len(),
            res@ == join_spec(char_views(fields@.subrange(0, i as int)), sep),
        decreases fields@.len() - i,
    {
        assert(char_views(fields@.subrange(0, i + 1)).drop_last() =~= char_views(
            fields@.subrange(0, i as int),
        ));
        if i > 0 {
            res.push(sep);
        }
        push_all(&mut res, &fields[i]);
        i += 1;
    }
    assert(fields@.subrange(0, fields@.len() as int) =~= fields@);
    res
}

/// Position of the first column named `name`, if any.
pub fn find_col(headers: &Vec<Vec<char>>, name: &Vec<char>) -> (r: Option<usize>)
    ensures
        match r {
            Some(i) => is_first_col(char_views(headers@), name@, i as int),
            None => !char_views(headers@).contains(name@),
        },
{
    let mut i: usize = 0;
    while i < headers.len()
        invariant
            i <= headers@.len(),
            forall|j: int| 0 <= j < i ==> char_views(headers@)[j] != name@,
        decreases headers@.len() - i,
    {
        if chars_equal(&headers[i], name) {
            return Some(i);
        }
        i += 1;
    }
    None
}

/// Finds the position of a column in a header; -1 if there is none.
pub fn find_col_pos(col_headers: &[String], header: &str) -> (r: i32)
    requires
        col_headers@.len() < i32::MAX,
    ensures
        r as int == col_pos_spec(string_views(col_headers@), header@),
{
    let name = chars_of(header);
    let mut i: usize = 0;
    while i < col_headers.len()
        invariant
            i <= col_headers@.len() < i32::MAX,
            name@ == header@,
            forall|j: int| 0 <= j < i ==> string_views(col_headers@)[j] != header@,
        decreases col_headers@.len() - i,
    {
        let h = chars_of(col_headers[i].as_str());
        if chars_equal(&h, &name) {
            proof {
                lemma_col_pos(string_views(col_headers@), header@, i as int);
            }
            return i as i32;
        }
        i += 1;
    }
    assert(!string_views(col_headers@).contains(header@));
    -1
}

} // verus!

verus! {

/// No position of `f` separates fields.
pub open spec fn no_split_point(f: Seq<char>, sep: char, quo: char) -> bool {
    forall|i: int| 0 <= i < f.len() ==> !splits_at(f, sep, quo, i)
}

/// A field that reads back as one field wherever it stands in a row: no position of it
/// separates fields, and it holds an even number of quote characters.
pub open spec fn is_clean_field(f: Seq<char>, sep: char, quo: char) -> bool {
    no_split_point(f, sep, quo) && quotes_before(f, quo, f.len() as int) % 2 == 0
}

/// Quote counts of one- and two-character sequences.
proof fn lemma_quotes_small(c: char, d: char, q: char)
    ensures
        quotes_before(seq![c], q, 1) == (if c == q { 1nat } else { 0nat }),
        quotes_before(seq![c, d], q, 1) == (if c == q { 1nat } else { 0nat }),
        quotes_before(seq![c, d], q, 2) == (if c == q { 1nat } else { 0nat }) + (if d == q {
            1nat
        } else {
            0nat
        }),
{
    assert(quotes_before(seq![c], q, 0) == 0);
    assert(quotes_before(seq![c, d], q, 0) == 0);
    assert(quotes_before(seq![c, d], q, 1) == quotes_before(seq![c, d], q, 0) + (if c == q {
        1nat
    } else {
        0nat
    }));
}

/// Quote counts depend only on the characters counted.
proof fn lemma_quotes_prefix(s: Seq<char>, t: Seq<char>, q: char, i: int)
    requires
        0 <= i <= s.len(),
        i <= t.len(),
        forall|j: int| 0 <= j < i ==> s[j] == t[j],
    ensures
        quotes_before(s, q, i) == quotes_before(t, q, i),
    decreases i,
{
    if i > 0 {
        lemma_quotes_prefix(s, t, q, i - 1);
    }
}

/// Quotes counted within a piece of `s` are those of `s` up to its end, less those before it.
proof fn lemma_quotes_sub(s: Seq<char>, q: char, a: int, b: int, j: int)
    requires
        0 <= a <= b <= s.len(),
        0 <= j <= b - a,
    ensures
        quotes_before(s.subrange(a, b), q, j) == quotes_before(s, q, a + j) - quotes_before(s, q, a),
    decreases j,
{
    if j > 0 {
        lemma_quotes_sub(s, q, a, b, j - 1);
        assert(s.subrange(a, b)[j - 1] == s[a + j - 1]);
    }
}

/// Quotes counted across a concatenation.
proof fn lemma_quotes_concat(a: Seq<char>, b: Seq<char>, q: char, j: int)
    requires
        0 <= j <= b.len(),
    ensures
        quotes_before(a + b, q, a.len() + j) == quotes_before(a, q, a.len() as int) + quotes_before(
            b,
            q,
            j,
        ),
    decreases j,
{
    if j > 0 {
        lemma_quotes_concat(a, b, q, j - 1);
        assert((a + b)[a.len() + j - 1] == b[j - 1]);
    } else {
        lemma_quotes_prefix(a + b, a, q, a.len() as int);
    }
}

/// The scan state depends only on the characters scanned.
proof fn lemma_split_state_prefix(s: Seq<char>, t: Seq<char>, sep: char, quo: char, i: int)
    requires
        0 <= i <= s.len(),
        i <= t.len(),
        forall|j: int| 0 <= j < i ==> s[j] == t[j],
    ensures
        split_state(s, sep, quo, i) == split_state(t, sep, quo, i),
        0 <= split_state(s, sep, quo, i).1 <= i,
    decreases i,
{
    if i > 0 {
        lemma_split_state_prefix(s, t, sep, quo, i - 1);
        lemma_quotes_prefix(s, t, quo, i - 1);
        let st = split_state(s, sep, quo, i - 1);
        assert(s.subrange(st.1, i - 1) =~= t.subrange(st.1, i - 1));
    }
}

/// Positions that separate nothing leave the scan state as it was.
proof fn lemma_split_state_skip(s: Seq<char>, sep: char, quo: char, k: int, i: int)
    requires
        0 <= k <= i,
        forall|j: int| k <= j < i ==> !splits_at(s, sep, quo, j),
    ensures
        split_state(s, sep, quo, i) == split_state(s, sep, quo, k),
    decreases i,
{
    if i > k {
        lemma_split_state_skip(s, sep, quo, k, i - 1);
    }
}

/// With an even number of quotes in all, every field a line splits into is clean, but
/// for the last, which has no separating position.
proof fn lemma_split_state_clean(s: Seq<char>, sep: char, quo: char, i: int)
    requires
        0 <= i <= s.len(),
    ensures
        ({
            let st = split_state(s, sep, quo, i);
            &&& 0 <= st.1 <= i
            &&& quotes_before(s, quo, st.1) % 2 == 0
            &&& forall|j: int| 0 <= j < st.0.len() ==> is_clean_field(#[trigger] st.0[j], sep, quo)
            &&& forall|j: int| st.1 <= j < i ==> !splits_at(s, sep, quo, j)
        }),
    decreases i,
{
    if i > 0 {
        lemma_split_state_clean(s, sep, quo, i - 1);
        let prev = split_state(s, sep, quo, i - 1);
        if splits_at(s, sep, quo, i - 1) {
            let piece = s.subrange(prev.1, i - 1);
            assert forall|j: int| 0 <= j < piece.len() implies !splits_at(piece, sep, quo, j) by {
                lemma_quotes_sub(s, quo, prev.1, i - 1, j);
                assert(piece[j] == s[prev.1 + j]);
                assert(!splits_at(s, sep, quo, prev.1 + j));
            }
            lemma_quotes_sub(s, quo, prev.1, i - 1, i - 1 - prev.1);
            assert(is_clean_field(piece, sep, quo));
        }
    }
}

/// The last field of a line has no separating position, and is clean when the line
/// holds an even number of quotes.
pub proof fn lemma_split_clean(s: Seq<char>, sep: char, quo: char)
    requires
        quotes_before(s, quo, s.len() as int) % 2 == 0,
    ensures
        forall|j: int|
            0 <= j < split_spec(s, sep, quo).len() ==> is_clean_field(
                #[trigger] split_spec(s, sep, quo)[j],
                sep,
                quo,
            ),
{
    let st = split_state(s, sep, quo, s.len() as int);
    lemma_split_state_clean(s, sep, quo, s.len() as int);
    let last = s.subrange(st.1, s.len() as int);
    assert forall|j: int| 0 <= j < last.len() implies !splits_at(last, sep, quo, j) by {
        lemma_quotes_sub(s, quo, st.1, s.len() as int, j);
        assert(last[j] == s[st.1 + j]);
        assert(!splits_at(s, sep, quo, st.1 + j));
    }
    lemma_quotes_sub(s, quo, st.1, s.len() as int, last.len() as int);
    assert(is_clean_field(last, sep, quo));
    assert forall|j: int| 0 <= j < split_spec(s, sep, quo).len() implies is_clean_field(
        #[trigger] split_spec(s, sep, quo)[j],
        sep,
        quo,
    ) by {
        if j < st.0.len() {
            assert(split_spec(s, sep, quo)[j] == st.0[j]);
        }
    }
}

/// Joined clean fields hold an even number of quotes (the separator not being one).
proof fn lemma_join_quotes(fs: Seq<Seq<char>>, sep: char, quo: char)
    requires
        sep != quo,
        forall|j: int| 0 <= j < fs.len() ==> is_clean_field(#[trigger] fs[j], sep, quo),
    ensures
        quotes_before(join_spec(fs, sep), quo, join_spec(fs, sep).len() as int) % 2 == 0,
    decreases fs.len(),
{
    if fs.len() == 1 {
        assert(is_clean_field(fs[0], sep, quo));
    } else if fs.len() > 1 {
        let init = fs.drop_last();
        assert forall|j: int| 0 <= j < init.len() implies is_clean_field(#[trigger] init[j], sep, quo) by {
            assert(init[j] == fs[j]);
        }
        lemma_join_quotes(init, sep, quo);
        let a = join_spec(init, sep) + seq![sep];
        lemma_quotes_small(sep, sep, quo);
        lemma_quotes_concat(join_spec(init, sep), seq![sep], quo, 1);
        lemma_quotes_concat(a, fs.last(), quo, fs.last().len() as int);
        assert(is_clean_field(fs[fs.len() - 1], sep, quo));
    } else {
        assert(join_spec(fs, sep) =~= seq![]);
    }
}

/// Splitting a row joined from clean fields gives the fields back.
pub proof fn lemma_split_join(fs: Seq<Seq<char>>, sep: char, quo: char)
    requires
        sep != quo,
        fs.len() > 0,
        forall|j: int| 0 <= j < fs.len() ==> is_clean_field(#[trigger] fs[j], sep, quo),
    ensures
        split_spec(join_spec(fs, sep), sep, quo) == fs,
    decreases fs.len(),
{
    let f = fs.last();
    assert(is_clean_field(fs[fs.len() - 1], sep, quo));
    if fs.len() == 1 {
        lemma_split_state_skip(f, sep, quo, 0, f.len() as int);
        assert(f.subrange(0, f.len() as int) =~= f);
        assert(seq![f] =~= fs);
    } else {
        let init = fs.drop_last();
        assert forall|j: int| 0 <= j < init.len() implies is_clean_field(#[trigger] init[j], sep, quo) by {
            assert(init[j] == fs[j]);
        }
        lemma_split_join(init, sep, quo);
        lemma_join_quotes(init, sep, quo);
        let jn = join_spec(init, sep);
        let a = jn + seq![sep];
        let w = a + f;
        assert(join_spec(fs, sep) == w);
        let st = split_state(jn, sep, quo, jn.len() as int);
        lemma_split_state_prefix(w, jn, sep, quo, jn.len() as int);
        lemma_quotes_prefix(w, jn, quo, jn.len() as int);
        assert(w[jn.len() as int] == sep);
        assert(splits_at(w, sep, quo, jn.len() as int));
        assert(w.subrange(st.1, jn.len() as int) =~= jn.subrange(st.1, jn.len() as int));
        assert(split_state(w, sep, quo, jn.len() + 1 as int).0 == init);
        lemma_quotes_small(sep, sep, quo);
        lemma_quotes_concat(jn, seq![sep], quo, 1);
        assert(quotes_before(a, quo, a.len() as int) % 2 == 0);
        assert forall|j: int| jn.len() + 1 <= j < w.len() implies !splits_at(w, sep, quo, j) by {
            lemma_quotes_concat(a, f, quo, j - a.len());
            assert(w[j] == f[j - a.len()]);
            assert(!splits_at(f, sep, quo, j - a.len()));
        }
        lemma_split_state_skip(w, sep, quo, jn.len() + 1 as int, w.len() as int);
        assert(w.subrange(jn.len() + 1 as int, w.len() as int) =~= f);
        assert(init.push(f) =~= fs);
    }
}

/// Inside a wrapped value, the count of quotes is one more than inside the doubled part.
proof fn lemma_wrapped_count(d: Seq<char>, q: char, i: int)
    requires
        1 <= i <= d.len() + 1,
    ensures
        quotes_before(seq![q] + (d + seq![q]), q, i) == 1 + quotes_before(d, q, i - 1),
{
    lemma_quotes_small(q, q, q);
    lemma_quotes_concat(seq![q], d + seq![q], q, i - 1);
    lemma_quotes_prefix(d + seq![q], d, q, i - 1);
}

/// Wrapping a sequence whose quotes come in pairs gives a field with no separating position.
proof fn lemma_wrapped_no_split(d: Seq<char>, sep: char, quo: char)
    requires
        sep != quo,
        forall|j: int| 0 <= j < d.len() && quotes_before(d, quo, j) % 2 == 1 ==> d[j] == quo,
    ensures
        no_split_point(seq![quo] + (d + seq![quo]), sep, quo),
{
    let w = seq![quo] + (d + seq![quo]);
    assert forall|i: int| 0 <= i < w.len() implies !splits_at(w, sep, quo, i) by {
        if 1 <= i <= d.len() {
            lemma_wrapped_count(d, quo, i);
            assert(w[i] == d[i - 1]);
        } else {
            assert(w[i] == quo);
        }
    }
}

/// Wrapping a sequence with an even number of quotes keeps the count even.
proof fn lemma_wrapped_even(d: Seq<char>, quo: char)
    requires
        quotes_before(d, quo, d.len() as int) % 2 == 0,
    ensures
        quotes_before(seq![quo] + (d + seq![quo]), quo, d.len() + 2 as int) % 2 == 0,
{
    let w = seq![quo] + (d + seq![quo]);
    lemma_wrapped_count(d, quo, d.len() + 1 as int);
    assert(w[d.len() + 1 as int] == quo);
    assert(quotes_before(w, quo, d.len() + 2 as int) == quotes_before(w, quo, d.len() + 1 as int) + 1);
}

/// A wrapped, doubled value is clean.
#[verifier::rlimit(40)]
proof fn lemma_wrapped_clean(x: Seq<char>, sep: char, quo: char)
    requires
        sep != quo,
    ensures
        is_clean_field(wrap_spec(x, quo), sep, quo),
{
    let d = double_quotes(x, quo);
    lemma_double_parity(x, quo);
    lemma_wrapped_no_split(d, sep, quo);
    lemma_wrapped_even(d, quo);
    assert(wrap_spec(x, quo) =~= seq![quo] + (d + seq![quo]));
}

/// Every written field is clean.
pub proof fn lemma_field_clean(x: Seq<char>, sep: char, quo: char)
    requires
        sep != quo,
    ensures
        is_clean_field(field_spec(x, sep, quo), sep, quo),
{
    if x.contains(quo) || x.contains(sep) {
        lemma_wrapped_clean(x, sep, quo);
    } else {
        assert forall|i: int| 0 <= i <= x.len() implies quotes_before(x, quo, i) == 0 by {
            lemma_no_quotes(x, quo, i);
        }
        assert forall|i: int| 0 <= i < x.len() implies !splits_at(x, sep, quo, i) by {
            if x[i] == sep {
                assert(x.contains(sep));
            }
        }
    }
}

proof fn lemma_no_quotes(x: Seq<char>, quo: char, i: int)
    requires
        !x.contains(quo),
        0 <= i <= x.len(),
    ensures
        quotes_before(x, quo, i) == 0,
    decreases i,
{
    if i > 0 {
        lemma_no_quotes(x, quo, i - 1);
        if x[i - 1] == quo {
            assert(x.contains(quo));
        }
    }
}

/// In a doubled sequence, quotes come in pairs: a position after an odd number of
/// quotes holds a quote, and the total is even.
proof fn lemma_double_parity(x: Seq<char>, quo: char)
    ensures
        ({
            let d = double_quotes(x, quo);
            &&& quotes_before(d, quo, d.len() as int) % 2 == 0
            &&& forall|j: int| 0 <= j < d.len() && quotes_before(d, quo, j) % 2 == 1 ==> d[j] == quo
        }),
    decreases x.len(),
{
    if x.len() > 0 {
        let init = x.drop_last();
        lemma_double_parity(init, quo);
        let d0 = double_quotes(init, quo);
        let c = x.last();
        let e = if c == quo {
            seq![quo, quo]
        } else {
            seq![c]
        };
        let d = double_quotes(x, quo);
        assert(d == d0 + e);
        lemma_quotes_small(c, c, quo);
        lemma_quotes_small(quo, quo, quo);
        assert(quotes_before(e, quo, 0) == 0);
        assert forall|j: int| 0 <= j < d.len() && quotes_before(d, quo, j) % 2 == 1 implies d[j] == quo by {
            if j < d0.len() {
                lemma_quotes_prefix(d, d0, quo, j);
                assert(d[j] == d0[j]);
            } else {
                lemma_quotes_concat(d0, e, quo, j - d0.len());
                assert(d[j] == e[j - d0.len()]);
            }
        }
        lemma_quotes_concat(d0, e, quo, e.len() as int);
    } else {
        assert(double_quotes(x, quo).len() == 0);
    }
}

} // verus!
