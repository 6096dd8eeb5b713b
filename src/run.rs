//! Whole edge files and runs over several of them, with the status codes the
//! command reports.
use vstd::prelude::*;
use crate::text::string_views;
use crate::codec::join_spec;
use crate::vertex::{
    transform_vertex_csv, vertex_columns_spec, vertex_header_csv, vertex_header_names,
    vertex_line_spec, write_all,
};
use crate::edge::{
    edge_columns_spec, edge_header_csv, edge_header_names, edge_line_spec, transform_edge_csv,
};
use crate::json::{edge_object_spec, object_text, parsed_object, transform_edge_jsonl};
use crate::collections::{collection_view, CollectionView, EdgeCollection};
use crate::table::Translation;

verus! {

/// Success.
pub const EXIT_OK: i32 = 0;
/// An input file could not be opened.
pub const EXIT_CANNOT_OPEN_INPUT: i32 = 1;
/// An output file could not be created.
pub const EXIT_CANNOT_CREATE_OUTPUT: i32 = 2;
/// The header line is missing or unusable.
pub const EXIT_BAD_HEADER: i32 = 3;
/// An edge file lacks a `_from` or a `_to` column.
pub const EXIT_NO_FROM_TO: i32 = 4;
/// Writing an edge file out failed.
pub const EXIT_FLUSH_FAILED: i32 = 5;

/// The encoding of the records.
#[derive(Clone, Copy, Debug, PartialEq, Eq, Structural)]
pub enum DataType {
    /// Tabular, with a header line.
    CSV,
    /// One JSON object per line.
    JSONL,
}

/// The lines of a tabular edge file once rewritten, or the status that stops it.
pub open spec fn edge_file_csv_spec(
    lines: Seq<Seq<char>>,
    sep: char,
    quo: char,
    coll: CollectionView,
    n: i32,
    table: Map<Seq<char>, Seq<char>>,
) -> Result<Seq<Seq<char>>, i32> {
    if lines.len() == 0 {
        Err(EXIT_BAD_HEADER)
    } else {
        let names = edge_header_names(lines[0], sep, quo, coll.3);
        match edge_columns_spec(names) {
            None => Err(EXIT_NO_FROM_TO),
            Some(c) => Ok(
                seq![join_spec(write_all(names, sep, quo), sep)] + Seq::new(
                    (lines.len() - 1) as nat,
                    |i: int| edge_line_spec(lines[i + 1], sep, quo, c, coll.1, coll.2, n, table),
                ),
            ),
        }
    }
}

/// The lines of an object-encoded edge file once rewritten; lines that hold no object are dropped.
pub open spec fn edge_file_jsonl_spec(
    lines: Seq<Seq<char>>,
    coll: CollectionView,
    n: i32,
    table: Map<Seq<char>, Seq<char>>,
) -> Seq<Seq<char>>
    decreases lines.len(),
{
    if lines.len() == 0 {
        seq![]
    } else {
        let prev = edge_file_jsonl_spec(lines.drop_last(), coll, n, table);
        match parsed_object(lines.last()) {
            Ok(ms) => prev.push(object_text(edge_object_spec(ms, coll.1, coll.2, n, table))),
            Err(_) => prev,
        }
    }
}

/// One edge file, in either encoding.
pub open spec fn edge_file_spec(
    data_type: DataType,
    lines: Seq<Seq<char>>,
    sep: char,
    quo: char,
    coll: CollectionView,
    n: i32,
    table: Map<Seq<char>, Seq<char>>,
) -> Result<Seq<Seq<char>>, i32> {
    match data_type {
        DataType::CSV => edge_file_csv_spec(lines, sep, quo, coll, n, table),
        DataType::JSONL => Ok(edge_file_jsonl_spec(lines, coll, n, table)),
    }
}

/// The views of the files' lines.
pub open spec fn files_view(v: Seq<Vec<String>>) -> Seq<Seq<Seq<char>>> {
    v.map_values(|f: Vec<String>| string_views(f@))
}

/// The outputs of the files from `i` on, up to the first that fails, and the run's status.
pub open spec fn do_edges_from(
    data_type: DataType,
    sep: char,
    quo: char,
    colls: Seq<CollectionView>,
    n: i32,
    table: Map<Seq<char>, Seq<char>>,
    inputs: Seq<Seq<Seq<char>>>,
    i: int,
) -> (Seq<Seq<Seq<char>>>, i32)
    decreases colls.len() - i,
{
    if i < 0 || i >= colls.len() || i >= inputs.len() {
        (seq![], EXIT_OK)
    } else {
        match edge_file_spec(data_type, inputs[i], sep, quo, colls[i], n, table) {
            Err(code) => (seq![], code),
            Ok(out) => {
                let rest = do_edges_from(data_type, sep, quo, colls, n, table, inputs, i + 1);
                (seq![out] + rest.0, rest.1)
            },
        }
    }
}

/// Transforms the lines of one tabular edge file: the header, then each row.
pub fn transform_edges_csv(
    lines: &Vec<String>,
    edge_coll: &EdgeCollection,
    sep: char,
    quo: char,
    smart_index: i32,
    translation: &Translation,
) -> (r: Result<Vec<String>, i32>)
    requires
        translation.wf(),
    ensures
        ({
            let expected = edge_file_csv_spec(
                string_views(lines@),
                sep,
                quo,
                collection_view(*edge_coll),
                smart_index,
                translation@,
            );
            match r {
                Ok(out) => expected == Ok::<Seq<Seq<char>>, i32>(string_views(out@)),
                Err(code) => expected == Err::<Seq<Seq<char>>, i32>(code),
            }
        }),
{
    let ghost lv = string_views(lines@);
    if lines.len() == 0 {
        return Err(EXIT_BAD_HEADER);
    }
    let header = edge_header_csv(lines[0].as_str(), sep, quo, &edge_coll.column_renames);
    let cols = match header.columns {
        Some(c) => c,
        None => {
            return Err(EXIT_NO_FROM_TO);
        },
    };
    let mut out: Vec<String> = Vec::new();
    out.push(header.line);
    let mut i: usize = 1;
    while i < lines.len()
        invariant
            1 <= i <= lines@.len(),
            lv == string_views(lines@),
            cols.wf(),
            translation.wf(),
            out@.len() == i,
            string_views(out@)[0] == join_spec(
                write_all(edge_header_names(lv[0], sep, quo, collection_view(*edge_coll).3), sep, quo),
                sep,
            ),
            forall|j: int|
                1 <= j < i ==> #[trigger] out@[j]@ == edge_line_spec(
                    lv[j],
                    sep,
                    quo,
                    cols,
                    edge_coll.from_vertex_coll@,
                    edge_coll.to_vertex_coll@,
                    smart_index,
                    translation@,
                ),
        decreases lines@.len() - i,
    {
        let row = transform_edge_csv(
            lines[i].as_str(),
            sep,
            quo,
            &cols,
            edge_coll.from_vertex_coll.as_str(),
            edge_coll.to_vertex_coll.as_str(),
            smart_index,
            translation,
        );
        out.push(row);
        i += 1;
    }
    let ghost names = edge_header_names(lv[0], sep, quo, collection_view(*edge_coll).3);
    assert(string_views(out@) =~= seq![join_spec(write_all(names, sep, quo), sep)] + Seq::new(
        (lv.len() - 1) as nat,
        |k: int|
            edge_line_spec(
                lv[k + 1],
                sep,
                quo,
                cols,
                edge_coll.from_vertex_coll@,
                edge_coll.to_vertex_coll@,
                smart_index,
                translation@,
            ),
    ));
    Ok(out)
}

/// Transforms the lines of one object-encoded edge file; lines that hold no object are dropped.
pub fn transform_edges_jsonl(
    lines: &Vec<String>,
    edge_coll: &EdgeCollection,
    smart_index: i32,
    translation: &Translation,
) -> (r: Vec<String>)
    requires
        translation.wf(),
    ensures
        string_views(r@) == edge_file_jsonl_spec(
            string_views(lines@),
            collection_view(*edge_coll),
            smart_index,
            translation@,
        ),
{
    let ghost lv = string_views(lines@);
    let mut out: Vec<String> = Vec::new();
    let mut i: usize = 0;
    while i < lines.len()
        invariant
            i <= lines@.len(),
            lv == string_views(lines@),
            translation.wf(),
            string_views(out@) == edge_file_jsonl_spec(
                lv.subrange(0, i as int),
                collection_view(*edge_coll),
                smart_index,
                translation@,
            ),
        decreases lines@.len() - i,
    {
        let ghost prev = string_views(out@);
        assert(lv.subrange(0, i + 1).drop_last() =~= lv.subrange(0, i as int));
        assert(lv.subrange(0, i + 1).last() == lines@[i as int]@);
        match transform_edge_jsonl(
            lines[i].as_str(),
            edge_coll.from_vertex_coll.as_str(),
            edge_coll.to_vertex_coll.as_str(),
            smart_index,
            translation,
        ) {
            Ok(line) => {
                let ghost l = line@;
                out.push(line);
                assert(string_views(out@) =~= prev.push(l));
            },
            Err(_) => {},
        }
        i += 1;
    }
    assert(lv.subrange(0, lines@.len() as int) =~= lv);
    out
}

/// Transforms the edge files in order, each from its lines (`inputs[i]` for
/// `edge_collections[i]`), and stops at the first that fails. Returns the rewritten
/// lines of the files that succeeded and the status: `EXIT_OK`, or the failing file's.
pub fn do_edges(
    data_type: DataType,
    sep: char,
    quo: char,
    edge_collections: &Vec<EdgeCollection>,
    smart_index: i32,
    translation: &Translation,
    inputs: &Vec<Vec<String>>,
) -> (r: (Vec<Vec<String>>, i32))
    requires
        translation.wf(),
    ensures
        files_view(r.0@) == do_edges_from(
            data_type,
            sep,
            quo,
            edge_collections@.map_values(|e: EdgeCollection| collection_view(e)),
            smart_index,
            translation@,
            files_view(inputs@),
            0,
        ).0,
        r.1 == do_edges_from(
            data_type,
            sep,
            quo,
            edge_collections@.map_values(|e: EdgeCollection| collection_view(e)),
            smart_index,
            translation@,
            files_view(inputs@),
            0,
        ).1,
{
    let ghost colls = edge_collections@.map_values(|e: EdgeCollection| collection_view(e));
    let ghost iv = files_view(inputs@);
    let mut outs: Vec<Vec<String>> = Vec::new();
    let mut i: usize = 0;
    assert(files_view(outs@) =~= seq![]);
    let ghost all = do_edges_from(data_type, sep, quo, colls, smart_index, translation@, iv, 0);
    assert(files_view(outs@) + all.0 =~= all.0);
    while i < edge_collections.len() && i < inputs.len()
        invariant
            i <= edge_collections@.len(),
            translation.wf(),
            colls == edge_collections@.map_values(|e: EdgeCollection| collection_view(e)),
            iv == files_view(inputs@),
            all == do_edges_from(data_type, sep, quo, colls, smart_index, translation@, iv, 0),
            files_view(outs@) + do_edges_from(
                data_type,
                sep,
                quo,
                colls,
                smart_index,
                translation@,
                iv,
                i as int,
            ).0 == all.0,
            do_edges_from(data_type, sep, quo, colls, smart_index, translation@, iv, i as int).1
                == all.1,
        decreases edge_collections@.len() - i,
    {
        let ghost prev = files_view(outs@);
        let ghost rest = do_edges_from(data_type, sep, quo, colls, smart_index, translation@, iv, i + 1);
        let res = match data_type {
            DataType::CSV => {
                transform_edges_csv(&inputs[i], &edge_collections[i], sep, quo, smart_index, translation)
            },
            DataType::JSONL => {
                Ok(transform_edges_jsonl(&inputs[i], &edge_collections[i], smart_index, translation))
            },
        };
        match res {
            Err(code) => {
                assert(files_view(outs@) =~= files_view(outs@) + seq![]);
                return (outs, code);
            },
            Ok(out) => {
                let ghost ov = string_views(out@);
                outs.push(out);
                assert(files_view(outs@) =~= prev.push(ov));
                assert(prev + (seq![ov] + rest.0) =~= prev.push(ov) + rest.0);
            },
        }
        i += 1;
    }
    assert(files_view(outs@) =~= files_view(outs@) + seq![]);
    (outs, EXIT_OK)
}

/// The lines of a tabular vertex file once rewritten, or the status that stops it: the
/// rewritten header once, then one rewritten row per line, in order.
pub open spec fn vertex_file_csv_spec(
    lines: Seq<Seq<char>>,
    sep: char,
    quo: char,
    smart_attr: Seq<char>,
    smart_value: Seq<char>,
    write_key: bool,
    key_value: Seq<char>,
    n: i32,
) -> Result<Seq<Seq<char>>, i32> {
    if lines.len() == 0 {
        Err(EXIT_BAD_HEADER)
    } else {
        let names = vertex_header_names(lines[0], sep, quo, smart_attr, write_key);
        if !names.contains("_key"@) {
            Err(EXIT_BAD_HEADER)
        } else {
            let c = vertex_columns_spec(lines[0], sep, quo, smart_attr, smart_value, write_key, key_value);
            Ok(
                seq![join_spec(write_all(names, sep, quo), sep)] + Seq::new(
                    (lines.len() - 1) as nat,
                    |i: int| vertex_line_spec(lines[i + 1], sep, quo, c, n),
                ),
            )
        }
    }
}

/// Transforms the lines of one tabular vertex file: the header, then each row.
pub fn transform_vertices_csv(
    lines: &Vec<String>,
    sep: char,
    quo: char,
    smart_attr: &str,
    smart_value: &str,
    write_key: bool,
    key_value: &str,
    smart_index: i32,
) -> (r: Result<Vec<String>, i32>)
    ensures
        ({
            let expected = vertex_file_csv_spec(
                string_views(lines@),
                sep,
                quo,
                smart_attr@,
                smart_value@,
                write_key,
                key_value@,
                smart_index,
            );
            match r {
                Ok(out) => expected == Ok::<Seq<Seq<char>>, i32>(string_views(out@)),
                Err(code) => expected == Err::<Seq<Seq<char>>, i32>(code),
            }
        }),
{
    let ghost lv = string_views(lines@);
    if lines.len() == 0 {
        return Err(EXIT_BAD_HEADER);
    }
    let header = match vertex_header_csv(
        lines[0].as_str(),
        sep,
        quo,
        smart_attr,
        smart_value,
        write_key,
        key_value,
    ) {
        Some(h) => h,
        None => {
            return Err(EXIT_BAD_HEADER);
        },
    };
    let cols = header.columns;
    let mut out: Vec<String> = Vec::new();
    out.push(header.line);
    let mut i: usize = 1;
    while i < lines.len()
        invariant
            1 <= i <= lines@.len(),
            lv == string_views(lines@),
            cols.wf(),
            out@.len() == i,
            string_views(out@)[0] == join_spec(
                write_all(vertex_header_names(lv[0], sep, quo, smart_attr@, write_key), sep, quo),
                sep,
            ),
            forall|j: int|
                1 <= j < i ==> #[trigger] out@[j]@ == vertex_line_spec(lv[j], sep, quo, cols, smart_index),
        decreases lines@.len() - i,
    {
        let row = transform_vertex_csv(lines[i].as_str(), sep, quo, &cols, smart_index);
        out.push(row.line);
        i += 1;
    }
    let ghost names = vertex_header_names(lv[0], sep, quo, smart_attr@, write_key);
    assert(string_views(out@) =~= seq![join_spec(write_all(names, sep, quo), sep)] + Seq::new(
        (lv.len() - 1) as nat,
        |k: int| vertex_line_spec(lv[k + 1], sep, quo, cols, smart_index),
    ));
    Ok(out)
}

} // verus!
