//! Ingestion of the approved-responses table: tab-delimited text with a
//! header row naming the columns, one approved response per data row.
//!
//! The record splitting (delimiters, quoting, malformed rows) is done by
//! the csv crate behind one trusted reader; everything after it — locating
//! the columns, skipping placeholder rows, trimming and cleaning the
//! fields — is verified, and the loader's contract states the exact result
//! for every input.

use crate::grammar::VCmessage;
use crate::strutil::{replace_all, replace_spec, str_eq, trim_spec, trim_str};
use vstd::prelude::*;
use vstd::string::StrSliceExecFns;

verus! {

/// The texts of one record's fields, or nothing for a record the reader
/// reported as malformed.
pub type RowView = Option<Seq<Seq<char>>>;

/// The five cleaned field texts of one approved response: category, kind,
/// description, placeholder-URL message, real-URL message.
pub type FieldTexts = (Seq<char>, Seq<char>, Seq<char>, Seq<char>, Seq<char>);

pub open spec fn field_views(v: Vec<String>) -> Seq<Seq<char>> {
    v@.map_values(|s: String| s@)
}

pub open spec fn opt_view(o: Option<Vec<String>>) -> RowView {
    match o {
        Option::Some(v) => Option::Some(field_views(v)),
        Option::None => Option::None,
    }
}

pub open spec fn rows_view_of(r: Seq<Option<Vec<String>>>) -> Seq<RowView> {
    r.map_values(|o: Option<Vec<String>>| opt_view(o))
}

/// What the tab-delimited reader yields for the given bytes: one entry per
/// record, each its fields' texts or nothing where the record was
/// malformed.  The result depends on the bytes alone.
pub uninterp spec fn tsv_rows(data: Seq<u8>) -> Seq<Option<Seq<Seq<char>>>>;

/// Relies on csv::ReaderBuilder and csv::StringRecord: splits the bytes
/// into tab-delimited records, allowing varying field counts; a record the
/// reader reports as malformed becomes nothing.
#[verifier::external_body]
fn read_tsv_records(data: &[u8]) -> (r: Vec<Option<Vec<String>>>)
    ensures
        rows_view_of(r@) == tsv_rows(data@),
{
    let mut out: Vec<Option<Vec<String>>> = Vec::new();
    let reader = csv::ReaderBuilder::new()
        .delimiter(b'\t')
        .flexible(true)
        .has_headers(false)
        .from_reader(data);
    for rec in reader.into_records() {
        out.push(rec.ok().map(|row| row.iter().map(|f| f.to_string()).collect()));
    }
    out
}

/// No usable rows: the data had no records, no readable header, a needed
/// column missing from the header, or every data row skipped.
#[derive(Clone, Copy, Debug, PartialEq, Eq, Structural)]
pub struct LoadError;

/// First column at or after `from` whose header text equals `name`.
pub open spec fn find_col(header: Seq<Seq<char>>, name: Seq<char>, from: int) -> Option<int>
    decreases header.len() - from,
{
    if from < 0 || from >= header.len() {
        Option::None
    } else if header[from] == name {
        Option::Some(from)
    } else {
        find_col(header, name, from + 1)
    }
}

/// A message field cleaned for use: trimmed, the continuation placeholder
/// removed, trimmed again.
pub open spec fn clean_of(raw: Seq<char>) -> Seq<char> {
    trim_spec(replace_spec(trim_spec(raw), "{{conversation_continuer}}"@, ""@))
}

/// A data row contributes a message exactly when it reaches all five
/// columns and its real-URL message is neither the placeholder "N/A" nor
/// blank.
pub open spec fn row_usable(row: Seq<Seq<char>>, ci: int, ki: int, di: int, mi: int, ui: int) -> bool {
    &&& 0 <= ci < row.len()
    &&& 0 <= ki < row.len()
    &&& 0 <= di < row.len()
    &&& 0 <= mi < row.len()
    &&& 0 <= ui < row.len()
    &&& !(row[ui] == "N/A"@)
    &&& trim_spec(row[ui]).len() != 0
}

pub open spec fn row_output(row: Seq<Seq<char>>, ci: int, ki: int, di: int, mi: int, ui: int) -> FieldTexts {
    (trim_spec(row[ci]), trim_spec(row[ki]), trim_spec(row[di]), clean_of(row[mi]), clean_of(
        row[ui],
    ))
}

/// The messages the data rows yield, in order: malformed and unusable rows
/// are skipped, usable ones cleaned.
pub open spec fn process_rows(rows: Seq<RowView>, ci: int, ki: int, di: int, mi: int, ui: int) -> Seq<
    FieldTexts,
>
    decreases rows.len(),
{
    if rows.len() == 0 {
        Seq::empty()
    } else {
        process_rows(rows.drop_last(), ci, ki, di, mi, ui) + (match rows.last() {
            Option::None => Seq::<FieldTexts>::empty(),
            Option::Some(row) => if row_usable(row, ci, ki, di, mi, ui) {
                seq![row_output(row, ci, ki, di, mi, ui)]
            } else {
                Seq::<FieldTexts>::empty()
            },
        })
    }
}

pub open spec fn vc_view(m: VCmessage) -> FieldTexts {
    (m.category@, m.kind@, m.description@, m.mlr_message@, m.message@)
}

/// What loading yields for the given records: nothing unless there is a
/// readable header row naming all five columns and at least one usable
/// data row; otherwise the cleaned messages of the usable rows, in order.
pub open spec fn load_spec(rows: Seq<RowView>) -> Option<Seq<FieldTexts>> {
    if rows.len() == 0 {
        Option::None
    } else {
        match rows[0] {
            Option::None => Option::None,
            Option::Some(h) => {
                let ci = find_col(h, "Category"@, 0);
                let ki = find_col(h, "Kind"@, 0);
                let di = find_col(h, "Description"@, 0);
                let mi = find_col(h, "VC Agent Message"@, 0);
                let ui = find_col(h, "VC Agent Message - URLs"@, 0);
                match (ci, ki, di, mi, ui) {
                    (
                        Option::Some(c),
                        Option::Some(k),
                        Option::Some(d),
                        Option::Some(m),
                        Option::Some(u),
                    ) => {
                        let out = process_rows(rows.skip(1), c, k, d, m, u);
                        if out.len() == 0 {
                            Option::None
                        } else {
                            Option::Some(out)
                        }
                    },
                    _ => Option::None,
                }
            },
        }
    }
}

fn clean_exec(s: &str) -> (r: String)
    ensures
        r@ == clean_of(s@),
{
    let t = trim_str(s);
    let u = replace_all(t.as_str(), "{{conversation_continuer}}", "");
    trim_str(u.as_str())
}

fn find_col_exec(header: &Vec<String>, name: &str) -> (r: Option<usize>)
    ensures
        match r {
            Option::Some(i) => find_col(field_views(*header), name@, 0) == Option::Some(i as int),
            Option::None => find_col(field_views(*header), name@, 0) is None,
        },
{
    let ghost hv = field_views(*header);
    let mut i: usize = 0;
    while i < header.len()
        invariant
            i <= header@.len(),
            hv == field_views(*header),
            hv.len() == header@.len(),
            find_col(hv, name@, 0) == find_col(hv, name@, i as int),
        decreases header@.len() - i,
    {
        proof {
            assert(hv[i as int] == header@[i as int]@);
        }
        if str_eq(header[i].as_str(), name) {
            return Some(i);
        }
        i = i + 1;
    }
    None
}

proof fn lemma_map_push<A, B>(s: Seq<A>, f: spec_fn(A) -> B, x: A)
    ensures
        (s.push(x)).map_values(f) =~= s.map_values(f).push(f(x)),
{
}

/// Loads the approved responses from tab-delimited bytes.
///
/// Succeeds exactly when a readable header names all five columns and at
/// least one data row is usable; the result is then the usable rows'
/// cleaned messages, in order.
pub fn load_pemazyre_responses(data: &[u8]) -> (r: Result<Vec<VCmessage>, LoadError>)
    ensures
        match r {
            Ok(v) => v@.len() > 0 && Option::Some(v@.map_values(|m: VCmessage| vc_view(m)))
                == load_spec(tsv_rows(data@)),
            Err(_) => load_spec(tsv_rows(data@)) is None,
        },
{
    let rows = read_tsv_records(data);
    let ghost rv = tsv_rows(data@);
    proof {
        assert(rv == rows_view_of(rows@));
        assert(rv.len() == rows@.len());
    }
    if rows.len() == 0 {
        return Err(LoadError);
    }
    proof {
        assert(rv[0] == opt_view(rows@[0]));
    }
    let header = match &rows[0] {
        Some(h) => h,
        None => {
            return Err(LoadError);
        },
    };
    let ci = match find_col_exec(header, "Category") {
        Some(i) => i,
        None => {
            return Err(LoadError);
        },
    };
    let ki = match find_col_exec(header, "Kind") {
        Some(i) => i,
        None => {
            return Err(LoadError);
        },
    };
    let di = match find_col_exec(header, "Description") {
        Some(i) => i,
        None => {
            return Err(LoadError);
        },
    };
    let mi = match find_col_exec(header, "VC Agent Message") {
        Some(i) => i,
        None => {
            return Err(LoadError);
        },
    };
    let ui = match find_col_exec(header, "VC Agent Message - URLs") {
        Some(i) => i,
        None => {
            return Err(LoadError);
        },
    };
    let mut out: Vec<VCmessage> = Vec::new();
    let mut i: usize = 1;
    proof {
        assert(rv.subrange(1, 1) =~= Seq::<RowView>::empty());
        assert(out@.map_values(|m: VCmessage| vc_view(m)) =~= process_rows(
            rv.subrange(1, 1),
            ci as int,
            ki as int,
            di as int,
            mi as int,
            ui as int,
        ));
    }
    while i < rows.len()
        invariant
            1 <= i <= rows@.len(),
            rv == rows_view_of(rows@),
            rv.len() == rows@.len(),
            out@.map_values(|m: VCmessage| vc_view(m)) == process_rows(
                rv.subrange(1, i as int),
                ci as int,
                ki as int,
                di as int,
                mi as int,
                ui as int,
            ),
        decreases rows@.len() - i,
    {
        let ghost pre_map = out@.map_values(|m: VCmessage| vc_view(m));
        let ghost prev_out = out@;
        proof {
            assert(rv[i as int] == opt_view(rows@[i as int]));
            assert(rv.subrange(1, i + 1) =~= rv.subrange(1, i as int).push(rv[i as int]));
            assert(rv.subrange(1, i + 1).drop_last() =~= rv.subrange(1, i as int));
        }
        match &rows[i] {
            None => {
                proof {
                    assert(pre_map + Seq::<FieldTexts>::empty() =~= pre_map);
                }
            },
            Some(row) => {
                proof {
                    assert(rv[i as int] == Option::Some(field_views(*row)));
                }
                let ghost rview = field_views(*row);
                proof {
                    assert(rview.len() == row@.len());
                }
                if ci < row.len() && ki < row.len() && di < row.len() && mi < row.len() && ui
                    < row.len() {
                    proof {
                        assert(rview[ui as int] == row@[ui as int]@);
                        assert(rview[ci as int] == row@[ci as int]@);
                        assert(rview[ki as int] == row@[ki as int]@);
                        assert(rview[di as int] == row@[di as int]@);
                        assert(rview[mi as int] == row@[mi as int]@);
                    }
                    let raw_msg = &row[ui];
                    let trimmed = trim_str(raw_msg.as_str());
                    let is_na = str_eq(raw_msg.as_str(), "N/A");
                    let is_blank = trimmed.as_str().unicode_len() == 0;
                    if !is_na && !is_blank {
                        let category = trim_str(row[ci].as_str());
                        let kind = trim_str(row[ki].as_str());
                        let description = trim_str(row[di].as_str());
                        let mlr_message = clean_exec(row[mi].as_str());
                        let message = clean_exec(raw_msg.as_str());
                        let m = VCmessage { category, kind, description, mlr_message, message };
                        proof {
                            assert(row_usable(
                                rview,
                                ci as int,
                                ki as int,
                                di as int,
                                mi as int,
                                ui as int,
                            ));
                            assert(vc_view(m) == row_output(
                                rview,
                                ci as int,
                                ki as int,
                                di as int,
                                mi as int,
                                ui as int,
                            ));
                        }
                        out.push(m);
                        proof {
                            assert(out@ =~= prev_out.push(m));
                            lemma_map_push(prev_out, |m0: VCmessage| vc_view(m0), m);
                            assert(pre_map.push(vc_view(m)) =~= pre_map + seq![
                                row_output(
                                    rview,
                                    ci as int,
                                    ki as int,
                                    di as int,
                                    mi as int,
                                    ui as int,
                                ),
                            ]);
                        }
                    } else {
                        proof {
                            assert(!row_usable(
                                rview,
                                ci as int,
                                ki as int,
                                di as int,
                                mi as int,
                                ui as int,
                            ));
                            assert(pre_map + Seq::<FieldTexts>::empty() =~= pre_map);
                        }
                    }
                } else {
                    proof {
                        assert(!row_usable(
                            rview,
                            ci as int,
                            ki as int,
                            di as int,
                            mi as int,
                            ui as int,
                        ));
                        assert(pre_map + Seq::<FieldTexts>::empty() =~= pre_map);
                    }
                }
            },
        }
        i = i + 1;
    }
    proof {
        assert(rv.subrange(1, rv.len() as int) =~= rv.skip(1));
    }
    if out.len() == 0 {
        return Err(LoadError);
    }
    proof {
        assert(out@.map_values(|m: VCmessage| vc_view(m)).len() == out@.len());
    }
    Ok(out)
}

} // verus!
