//! Edge specifications: `file:fromCollection:toCollection[:columnIndex:newName]*`.
use vstd::prelude::*;
use crate::text::{char_views, chars_of, slice_chars, string_of};
use crate::edge::renames_view;

verus! {

/// The pieces completed within the first `i` characters, and where the open piece starts.
pub open spec fn pieces_state(s: Seq<char>, c: char, i: int) -> (Seq<Seq<char>>, int)
    decreases i,
{
    if i <= 0 {
        (seq![], 0)
    } else {
        let prev = pieces_state(s, c, i - 1);
        if s[i - 1] == c {
            (prev.0.push(s.subrange(prev.1, i - 1)), i)
        } else {
            prev
        }
    }
}

/// `s` cut at every `c`.
pub open spec fn pieces(s: Seq<char>, c: char) -> Seq<Seq<char>> {
    let st = pieces_state(s, c, s.len() as int);
    st.0.push(s.subrange(st.1, s.len() as int))
}

/// The value of a sequence of decimal digits.
pub open spec fn digits_value(s: Seq<char>) -> int
    decreases s.len(),
{
    if s.len() == 0 {
        0
    } else {
        digits_value(s.drop_last()) * 10 + (s.last() as int - '0' as int)
    }
}

/// Every character of `d` is an ASCII digit.
pub open spec fn all_digits(d: Seq<char>) -> bool {
    forall|i: int| 0 <= i < d.len() ==> '0' <= #[trigger] d[i] <= '9'
}

/// What follows an optional leading `+`.
pub open spec fn unsigned_part(s: Seq<char>) -> Seq<char> {
    if s.len() > 0 && s[0] == '+' {
        s.drop_first()
    } else {
        s
    }
}

/// The unsigned integer a text denotes: an optional `+`, then one or more ASCII digits.
pub open spec fn decimal_spec(s: Seq<char>) -> Option<int> {
    let d = unsigned_part(s);
    if d.len() > 0 && all_digits(d) {
        Some(digits_value(d))
    } else {
        None
    }
}

/// A longer run of digits is worth at least as much as its prefix.
proof fn lemma_digits_grow(d: Seq<char>, i: int)
    requires
        0 <= i <= d.len(),
        forall|j: int| 0 <= j < d.len() ==> '0' <= #[trigger] d[j] <= '9',
    ensures
        digits_value(d) >= digits_value(d.subrange(0, i)),
    decreases d.len(),
{
    if i < d.len() {
        let init = d.drop_last();
        assert(init.subrange(0, i) =~= d.subrange(0, i));
        assert forall|j: int| 0 <= j < init.len() implies '0' <= #[trigger] init[j] <= '9' by {
            assert(init[j] == d[j]);
        }
        lemma_digits_grow(init, i);
        assert(digits_value(init) >= 0) by {
            lemma_digits_nonneg(init);
        }
        assert(digits_value(d) == digits_value(init) * 10 + (d.last() as int - '0' as int));
    } else {
        assert(d.subrange(0, i) =~= d);
    }
}

proof fn lemma_digits_nonneg(d: Seq<char>)
    requires
        forall|j: int| 0 <= j < d.len() ==> '0' <= #[trigger] d[j] <= '9',
    ensures
        digits_value(d) >= 0,
    decreases d.len(),
{
    if d.len() > 0 {
        let init = d.drop_last();
        assert forall|j: int| 0 <= j < init.len() implies '0' <= #[trigger] init[j] <= '9' by {
            assert(init[j] == d[j]);
        }
        lemma_digits_nonneg(init);
    }
}

/// Reads an unsigned index: an optional `+`, then ASCII digits whose value fits.
pub fn parse_index(s: &str) -> (r: Option<usize>)
    ensures
        r == match decimal_spec(s@) {
            Some(v) => if v <= usize::MAX {
                Some(v as usize)
            } else {
                None
            },
            None => None,
        },
{
    let cs = chars_of(s);
    let n = cs.len();
    let start: usize = if n > 0 && cs[0] == '+' { 1 } else { 0 };
    let ghost d = cs@.subrange(start as int, n as int);
    assert(d =~= unsigned_part(s@));
    if start >= n {
        return None;
    }
    let mut v: usize = 0;
    let mut i: usize = start;
    assert(cs@.subrange(start as int, start as int) =~= seq![]);
    while i < n
        invariant
            start <= i <= n,
            n == cs@.len(),
            cs@ == s@,
            d == cs@.subrange(start as int, n as int),
            d == unsigned_part(s@),
            forall|j: int| start <= j < i ==> '0' <= #[trigger] cs@[j] <= '9',
            v as int == digits_value(cs@.subrange(start as int, i as int)),
        decreases n - i,
    {
        let c = cs[i];
        if !('0' <= c && c <= '9') {
            assert(d[i - start] == c);
            assert(!all_digits(d));
            assert(decimal_spec(s@) is None);
            return None;
        }
        let dig: usize = (c as u32 - '0' as u32) as usize;
        let ghost pre = cs@.subrange(start as int, i + 1);
        assert(pre.drop_last() =~= cs@.subrange(start as int, i as int));
        assert(digits_value(pre) == v * 10 + dig);
        if v > (usize::MAX - dig) / 10 {
            proof {
                assert(v * 10 + dig > usize::MAX) by (nonlinear_arith)
                    requires
                        v > (usize::MAX - dig) / 10,
                        dig <= 9,
                ;
                if all_digits(d) {
                    assert(d.subrange(0, i + 1 - start) =~= pre);
                    lemma_digits_grow(d, i + 1 - start);
                    assert(digits_value(d) > usize::MAX);
                    assert(decimal_spec(s@) == Some(digits_value(d)));
                } else {
                    assert(decimal_spec(s@) is None);
                }
            }
            return None;
        }
        assert(v * 10 + dig <= usize::MAX) by (nonlinear_arith)
            requires
                v <= (usize::MAX - dig) / 10,
                dig <= 9,
        ;
        v = v * 10 + dig;
        i += 1;
    }
    assert(cs@.subrange(start as int, n as int) == d);
    assert forall|j: int| 0 <= j < d.len() implies '0' <= #[trigger] d[j] <= '9' by {
        assert(d[j] == cs@[start + j]);
    }
    assert(all_digits(d));
    assert(d.subrange(0, d.len() as int) =~= d);
    Some(v)
}

/// The rename pairs from piece `i` on; a pair whose position does not parse is skipped.
pub open spec fn renames_from(parts: Seq<Seq<char>>, i: int) -> Seq<(usize, Seq<char>)>
    decreases parts.len() - i,
{
    if i >= 0 && i + 1 < parts.len() {
        let rest = renames_from(parts, i + 2);
        match decimal_spec(parts[i]) {
            Some(v) => if v <= usize::MAX {
                seq![(v as usize, parts[i + 1])] + rest
            } else {
                rest
            },
            None => rest,
        }
    } else {
        seq![]
    }
}

/// An edge file with its default collections and header renames.
#[derive(Debug)]
pub struct EdgeCollection {
    pub file_name: String,
    pub from_vertex_coll: String,
    pub to_vertex_coll: String,
    pub column_renames: Vec<(usize, String)>,
}

/// The view of an edge collection: file, from-collection, to-collection, renames.
pub type CollectionView = (Seq<char>, Seq<char>, Seq<char>, Seq<(usize, Seq<char>)>);

/// The view of an edge collection.
pub open spec fn collection_view(e: EdgeCollection) -> CollectionView {
    (e.file_name@, e.from_vertex_coll@, e.to_vertex_coll@, renames_view(e.column_renames@))
}

/// The edge collection a specification describes, if it has at least three pieces.
pub open spec fn edge_collection_spec(s: Seq<char>) -> Option<CollectionView> {
    let p = pieces(s, ':');
    if p.len() < 3 {
        None
    } else {
        Some((p[0], p[1], p[2], renames_from(p, 3)))
    }
}

/// The edge collections of the valid specifications, in order.
pub open spec fn edge_collections_spec(list: Seq<Seq<char>>) -> Seq<CollectionView>
    decreases list.len(),
{
    if list.len() == 0 {
        seq![]
    } else {
        let prev = edge_collections_spec(list.drop_last());
        match edge_collection_spec(list.last()) {
            Some(e) => prev.push(e),
            None => prev,
        }
    }
}

/// Cuts `s` at every `c`.
pub fn split_pieces(s: &Vec<char>, c: char) -> (r: Vec<Vec<char>>)
    ensures
        char_views(r@) == pieces(s@, c),
{
    let n = s.len();
    let mut res: Vec<Vec<char>> = Vec::new();
    let mut start: usize = 0;
    let mut i: usize = 0;
    assert(char_views(res@) =~= seq![]);
    while i < n
        invariant
            n == s@.len(),
            start <= i <= n,
            pieces_state(s@, c, i as int) == (char_views(res@), start as int),
        decreases n - i,
    {
        if s[i] == c {
            let ghost prev = char_views(res@);
            let piece = slice_chars(s, start, i);
            res.push(piece);
            assert(char_views(res@) =~= prev.push(piece@));
            start = i + 1;
        }
        i += 1;
    }
    let ghost prev = char_views(res@);
    let last = slice_chars(s, start, n);
    res.push(last);
    assert(char_views(res@) =~= prev.push(last@));
    res
}

/// Parses one edge specification; `None` when it has fewer than three pieces.
pub fn parse_edge_collection(spec: &str) -> (r: Option<EdgeCollection>)
    ensures
        match r {
            Some(e) => edge_collection_spec(spec@) == Some(collection_view(e)),
            None => edge_collection_spec(spec@) is None,
        },
{
    let cs = chars_of(spec);
    let parts = split_pieces(&cs, ':');
    let ghost pv = char_views(parts@);
    if parts.len() < 3 {
        return None;
    }
    let mut renames: Vec<(usize, String)> = Vec::new();
    let mut idx: usize = 3;
    assert(renames_view(renames@) =~= seq![]);
    while parts.len() - idx > 1
        invariant
            3 <= idx <= parts@.len(),
            pv == char_views(parts@),
            renames_view(renames@) + renames_from(pv, idx as int) == renames_from(pv, 3),
        decreases parts@.len() - idx,
    {
        let ghost r0 = renames_view(renames@);
        let text = string_of(&parts[idx]);
        match parse_index(text.as_str()) {
            Some(col_index) => {
                renames.push((col_index, string_of(&parts[idx + 1])));
                assert(renames_view(renames@) =~= r0 + seq![(col_index, pv[idx + 1])]);
                assert(renames_view(renames@) + renames_from(pv, idx + 2) =~= r0 + renames_from(
                    pv,
                    idx as int,
                ));
            },
            None => {},
        }
        idx += 2;
    }
    assert(renames_from(pv, idx as int) =~= seq![]);
    assert(renames_view(renames@) =~= renames_view(renames@) + renames_from(pv, idx as int));
    Some(
        EdgeCollection {
            file_name: string_of(&parts[0]),
            from_vertex_coll: string_of(&parts[1]),
            to_vertex_coll: string_of(&parts[2]),
            column_renames: renames,
        },
    )
}

/// Parses the edge specifications, skipping those with fewer than three pieces.
pub fn parse_edge_collections(edges_list: Vec<String>) -> (r: Vec<EdgeCollection>)
    ensures
        r@.map_values(|e: EdgeCollection| collection_view(e)) == edge_collections_spec(
            edges_list@.map_values(|s: String| s@),
        ),
{
    let ghost lv = edges_list@.map_values(|s: String| s@);
    let mut out: Vec<EdgeCollection> = Vec::new();
    let mut i: usize = 0;
    while i < edges_list.len()
        invariant
            i <= edges_list@.len(),
            lv == edges_list@.map_values(|s: String| s@),
            out@.map_values(|e: EdgeCollection| collection_view(e)) == edge_collections_spec(
                lv.subrange(0, i as int),
            ),
        decreases edges_list@.len() - i,
    {
        let ghost prev = out@.map_values(|e: EdgeCollection| collection_view(e));
        assert(lv.subrange(0, i + 1).drop_last() =~= lv.subrange(0, i as int));
        match parse_edge_collection(edges_list[i].as_str()) {
            Some(e) => {
                let ghost ev = collection_view(e);
                out.push(e);
                assert(out@.map_values(|e: EdgeCollection| collection_view(e)) =~= prev.push(ev));
            },
            None => {},
        }
        i += 1;
    }
    assert(lv.subrange(0, edges_list@.len() as int) =~= lv);
    out
}

} // verus!
