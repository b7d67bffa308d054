//! Output: the fixed-width console report lines, and the delimited table
//! encoding of the trend table with its decoder.

use vstd::prelude::*;
use crate::decimal::{
    all_digits, dec_val, dec_chars, int_dec_chars, parse_u64_dec, u64_to_dec,
    i64_to_dec, lemma_dec_val_nonneg, lemma_dec_chars_digits, lemma_dec_val_of_dec_chars,
};
use crate::trend::{TrendCell, TrendTable};
use crate::summary::{GenreStat, SummaryTable};

verus! {

pub open spec fn spaces(n: int) -> Seq<char> {
    Seq::new(n as nat, |i: int| ' ')
}

/// A field left-aligned in a column of the given width.
pub open spec fn pad_to(s: Seq<char>, w: int) -> Seq<char> {
    if s.len() >= w {
        s
    } else {
        s + spaces(w - s.len())
    }
}

/// Left-pads a string with spaces to the given width.
fn pad_right(s: &str, w: usize) -> (r: String)
    ensures
        r@ == pad_to(s@, w as int),
{
    let mut r = s.to_owned();
    let mut k = s.unicode_len();
    if k >= w {
        return r;
    }
    proof {
        assert(r@ =~= s@ + spaces(0));
    }
    while k < w
        invariant
            s@.len() <= k <= w,
            r@ == s@ + spaces(k - s@.len()),
        decreases w - k,
    {
        let ghost pre = r@;
        r.append(" ");
        proof {
            reveal_strlit(" ");
            assert(r@ =~= s@ + spaces(k + 1 - s@.len()));
        }
        k = k + 1;
    }
    r
}

/// One report row: genre, count, start year and end year, each left-aligned,
/// separated by single spaces.
pub open spec fn stat_line_spec(e: GenreStat) -> Seq<char> {
    pad_to(e.genre@, 20) + seq![' '] + pad_to(dec_chars(e.count as nat), 10) + seq![' '] + pad_to(
        int_dec_chars(e.start_year as int),
        10,
    ) + seq![' '] + pad_to(int_dec_chars(e.end_year as int), 10)
}

/// The report's column header row.
pub open spec fn header_line_spec() -> Seq<char> {
    pad_to("Genre"@, 20) + seq![' '] + pad_to("Count"@, 10) + seq![' '] + pad_to("Start Year"@, 10)
        + seq![' '] + pad_to("End Year"@, 10)
}

/// The rule under the report header.
pub open spec fn rule_line_spec() -> Seq<char> {
    Seq::new(50, |i: int| '-')
}

/// Renders one summary entry as a report row.
pub fn format_stat_line(e: &GenreStat) -> (r: String)
    ensures
        r@ == stat_line_spec(*e),
{
    let mut line = pad_right(e.genre.as_str(), 20);
    let cnt = u64_to_dec(e.count as u64);
    let sy = i64_to_dec(e.start_year as i64);
    let ey = i64_to_dec(e.end_year as i64);
    let c1 = pad_right(cnt.as_str(), 10);
    let c2 = pad_right(sy.as_str(), 10);
    let c3 = pad_right(ey.as_str(), 10);
    line.append(" ");
    line.append(c1.as_str());
    line.append(" ");
    line.append(c2.as_str());
    line.append(" ");
    line.append(c3.as_str());
    proof {
        reveal_strlit(" ");
        assert(dec_chars(e.count as u64 as nat) == dec_chars(e.count as nat));
        assert(line@ =~= stat_line_spec(*e));
    }
    line
}

/// Renders the report's header row.
pub fn format_header_line() -> (r: String)
    ensures
        r@ == header_line_spec(),
{
    let mut line = pad_right("Genre", 20);
    let c1 = pad_right("Count", 10);
    let c2 = pad_right("Start Year", 10);
    let c3 = pad_right("End Year", 10);
    line.append(" ");
    line.append(c1.as_str());
    line.append(" ");
    line.append(c2.as_str());
    line.append(" ");
    line.append(c3.as_str());
    proof {
        reveal_strlit(" ");
        assert(line@ =~= header_line_spec());
    }
    line
}

/// Renders the rule under the report header.
pub fn format_rule_line() -> (r: String)
    ensures
        r@ == rule_line_spec(),
{
    let mut r = String::new();
    let mut k: usize = 0;
    proof {
        assert(r@ =~= Seq::new(0, |i: int| '-'));
    }
    while k < 50
        invariant
            0 <= k <= 50,
            r@ == Seq::new(k as nat, |i: int| '-'),
        decreases 50 - k,
    {
        r.append("-");
        proof {
            reveal_strlit("-");
            assert(r@ =~= Seq::new((k + 1) as nat, |i: int| '-'));
        }
        k = k + 1;
    }
    r
}

/// The console report: header, rule, then one row per summary entry, in the
/// summary table's order.
pub fn summary_report_lines(stats: &SummaryTable) -> (r: Vec<String>)
    ensures
        r@.len() == stats.entries@.len() + 2,
        r@[0]@ == header_line_spec(),
        r@[1]@ == rule_line_spec(),
        forall|k: int|
            0 <= k < stats.entries@.len() ==> r@[k + 2]@ == stat_line_spec(
                #[trigger] stats.entries@[k],
            ),
{
    let mut r: Vec<String> = Vec::new();
    r.push(format_header_line());
    r.push(format_rule_line());
    let mut i: usize = 0;
    while i < stats.entries.len()
        invariant
            0 <= i <= stats.entries@.len(),
            r@.len() == i + 2,
            r@[0]@ == header_line_spec(),
            r@[1]@ == rule_line_spec(),
            forall|k: int|
                0 <= k < i ==> r@[k + 2]@ == stat_line_spec(#[trigger] stats.entries@[k]),
        decreases stats.entries@.len() - i,
    {
        let line = format_stat_line(&stats.entries[i]);
        r.push(line);
        i = i + 1;
    }
    r
}

/// What the csv crate's writer produces for a row list: fields delimited by
/// commas and quoted as the format requires, each record ended by a newline.
pub uninterp spec fn csv_bytes_of(rows: Seq<Seq<Seq<char>>>) -> Seq<u8>;

/// Relies on csv::Writer over an in-memory buffer: writing a record never
/// fails on an in-memory sink with flexible record lengths, and the bytes
/// produced depend on the rows alone.
#[verifier::external_body]
fn csv_encode_rows(rows: &Vec<Vec<String>>) -> (r: Vec<u8>)
    ensures
        r@ == csv_bytes_of(rows.deep_view()),
{
    let mut w = csv::WriterBuilder::new().flexible(true).from_writer(Vec::new());
    for row in rows.iter() {
        w.write_record(row).expect("csv write to a buffer cannot fail");
    }
    w.into_inner().expect("csv flush to a buffer cannot fail")
}

/// What the csv crate's reader yields for a byte buffer read without header
/// handling: the records, each a field list, or nothing when the bytes do not
/// form a well-formed table. The records depend on the bytes alone.
pub uninterp spec fn csv_rows_of(bytes: Seq<u8>) -> Option<Seq<Seq<Seq<char>>>>;

/// Relies on csv::Reader over an in-memory buffer, with no header handling.
#[verifier::external_body]
fn csv_decode_rows(bytes: &Vec<u8>) -> (r: Option<Vec<Vec<String>>>)
    ensures
        r.deep_view() == csv_rows_of(bytes@),
{
    let mut rd = csv::ReaderBuilder::new().has_headers(false).from_reader(bytes.as_slice());
    let mut rows: Vec<Vec<String>> = Vec::new();
    for rec in rd.records() {
        match rec {
            Ok(sr) => rows.push(sr.iter().map(String::from).collect()),
            Err(_) => return None,
        }
    }
    Some(rows)
}

/// The three output fields of one cell: year, genre, count.
pub open spec fn cell_fields(c: TrendCell) -> Seq<Seq<char>> {
    seq![int_dec_chars(c.year as int), c.genre@, dec_chars(c.count as nat)]
}

/// The output table's header fields.
pub open spec fn header_fields() -> Seq<Seq<char>> {
    seq!["Year"@, "Genre"@, "Count"@]
}

/// The output table's rows: the header, then one row per cell in table order.
pub open spec fn table_rows(cells: Seq<TrendCell>) -> Seq<Seq<Seq<char>>> {
    seq![header_fields()] + cells.map_values(|c: TrendCell| cell_fields(c))
}

/// Serializes the trend table: header row, then one row per (year, genre)
/// cell, fields rendered in decimal.
pub fn encode_genre_trends(trend: &TrendTable) -> (r: Vec<u8>)
    ensures
        r@ == csv_bytes_of(table_rows(trend.cells@)),
{
    let cells = &trend.cells;
    let mut rows: Vec<Vec<String>> = Vec::new();
    let mut hdr: Vec<String> = Vec::new();
    hdr.push("Year".to_owned());
    hdr.push("Genre".to_owned());
    hdr.push("Count".to_owned());
    proof {
        assert(hdr.deep_view().len() == 3);
        assert(hdr.deep_view()[0] == hdr@[0]@);
        assert(hdr.deep_view()[1] == hdr@[1]@);
        assert(hdr.deep_view()[2] == hdr@[2]@);
        assert(hdr.deep_view() =~= header_fields());
    }
    rows.push(hdr);
    proof {
        assert(rows.deep_view() =~= seq![header_fields()] + cells@.take(0).map_values(
            |c: TrendCell| cell_fields(c),
        ));
    }
    let mut i: usize = 0;
    while i < cells.len()
        invariant
            0 <= i <= cells@.len(),
            rows.deep_view() == seq![header_fields()] + cells@.take(i as int).map_values(
                |c: TrendCell| cell_fields(c),
            ),
        decreases cells@.len() - i,
    {
        let ghost pre = rows.deep_view();
        let mut row: Vec<String> = Vec::new();
        row.push(i64_to_dec(cells[i].year as i64));
        row.push(cells[i].genre.clone());
        row.push(u64_to_dec(cells[i].count as u64));
        proof {
            assert(dec_chars(cells@[i as int].count as u64 as nat) == dec_chars(
                cells@[i as int].count as nat,
            ));
            assert(row.deep_view() =~= cell_fields(cells@[i as int]));
        }
        rows.push(row);
        proof {
            assert(rows.deep_view() =~= pre.push(cell_fields(cells@[i as int])));
            assert(rows.deep_view() =~= seq![header_fields()] + cells@.take(i + 1).map_values(
                |c: TrendCell| cell_fields(c),
            ));
        }
        i = i + 1;
    }
    proof {
        assert(cells@.take(cells@.len() as int) =~= cells@);
    }
    csv_encode_rows(&rows)
}

/// What parsing one output field as a signed 32-bit decimal yields: an
/// optional minus sign, then digits, value in range.
pub open spec fn parse_i32_spec(s: Seq<char>) -> Option<i32> {
    if s.len() > 0 && s[0] == '-' {
        let d = s.drop_first();
        if d.len() > 0 && all_digits(d) && 0 - dec_val(d) >= i32::MIN {
            Some((0 - dec_val(d)) as i32)
        } else {
            None
        }
    } else {
        if s.len() > 0 && all_digits(s) && dec_val(s) <= i32::MAX {
            Some(dec_val(s) as i32)
        } else {
            None
        }
    }
}

/// What parsing one output field as an unsigned count yields.
pub open spec fn parse_usize_spec(s: Seq<char>) -> Option<usize> {
    if s.len() > 0 && all_digits(s) && dec_val(s) <= usize::MAX {
        Some(dec_val(s) as usize)
    } else {
        None
    }
}

/// Parses a signed 32-bit decimal field.
pub fn parse_i32_dec(s: &str) -> (r: Option<i32>)
    ensures
        r == parse_i32_spec(s@),
{
    let n = s.unicode_len();
    if n > 0 && s.get_char(0) == '-' {
        let d = s.substring_char(1, n);
        proof {
            assert(d@ =~= s@.drop_first());
            if d@.len() > 0 && all_digits(d@) {
                lemma_dec_val_nonneg(d@);
            }
        }
        match parse_u64_dec(d) {
            Some(v) => {
                if v <= 2147483648u64 {
                    Some((-(v as i64)) as i32)
                } else {
                    None
                }
            },
            None => None,
        }
    } else {
        proof {
            if s@.len() > 0 && all_digits(s@) {
                lemma_dec_val_nonneg(s@);
            }
        }
        match parse_u64_dec(s) {
            Some(v) => {
                if v <= i32::MAX as u64 {
                    Some(v as i32)
                } else {
                    None
                }
            },
            None => None,
        }
    }
}

/// Parses an unsigned count field.
pub fn parse_usize_dec(s: &str) -> (r: Option<usize>)
    ensures
        r == parse_usize_spec(s@),
{
    proof {
        if s@.len() > 0 && all_digits(s@) {
            lemma_dec_val_nonneg(s@);
        }
    }
    match parse_u64_dec(s) {
        Some(v) => {
            if v <= usize::MAX as u64 {
                Some(v as usize)
            } else {
                None
            }
        },
        None => None,
    }
}

/// What one record contributes to the decoded table: its (year, genre, count)
/// triple, or nothing when it does not have exactly three well-formed fields.
pub open spec fn cell_triple_of_row(r: Seq<Seq<char>>) -> Option<(i32, Seq<char>, usize)> {
    if r.len() == 3 {
        match (parse_i32_spec(r[0]), parse_usize_spec(r[2])) {
            (Some(y), Some(c)) => Some((y, r[1], c)),
            _ => None,
        }
    } else {
        None
    }
}

/// The triples decoded from a record list; nothing when any record fails.
pub open spec fn parse_cells_spec(rows: Seq<Seq<Seq<char>>>) -> Option<
    Seq<(i32, Seq<char>, usize)>,
>
    decreases rows.len(),
{
    if rows.len() == 0 {
        Some(Seq::empty())
    } else {
        match (parse_cells_spec(rows.drop_last()), cell_triple_of_row(rows.last())) {
            (Some(cs), Some(t)) => Some(cs.push(t)),
            _ => None,
        }
    }
}

/// What decoding an output byte buffer yields: the triples of its data rows,
/// or nothing when the bytes do not form a table led by the header row.
pub open spec fn decode_table_spec(bytes: Seq<u8>) -> Option<Seq<(i32, Seq<char>, usize)>> {
    match csv_rows_of(bytes) {
        Some(rs) => {
            if rs.len() >= 1 && rs[0] == header_fields() {
                parse_cells_spec(rs.drop_first())
            } else {
                None
            }
        },
        None => None,
    }
}

/// The (year, genre, count) triples of a cell sequence.
pub open spec fn cell_triples(cells: Seq<TrendCell>) -> Seq<(i32, Seq<char>, usize)> {
    cells.map_values(|c: TrendCell| (c.year, c.genre@, c.count))
}

proof fn lemma_parse_cells_none(rows: Seq<Seq<Seq<char>>>, k: int)
    requires
        0 <= k < rows.len(),
        cell_triple_of_row(rows[k]) is None,
    ensures
        parse_cells_spec(rows) is None,
    decreases rows.len(),
{
    if rows.len() > 0 {
        if k == rows.len() - 1 {
            assert(rows.last() == rows[k]);
        } else {
            assert(rows.drop_last()[k] == rows[k]);
            lemma_parse_cells_none(rows.drop_last(), k);
        }
    }
}

/// Reads an output byte buffer back into trend table cells: the bytes must
/// form a table whose first record is the header, and every following record
/// must carry a year, a genre and a count.
pub fn decode_genre_trends(bytes: &Vec<u8>) -> (r: Option<Vec<TrendCell>>)
    ensures
        match r {
            Some(cells) => decode_table_spec(bytes@) == Some(cell_triples(cells@)),
            None => decode_table_spec(bytes@) is None,
        },
{
    let rows = match csv_decode_rows(bytes) {
        Some(rs) => rs,
        None => {
            return None;
        },
    };
    let ghost rsv = rows.deep_view();
    if rows.len() == 0 {
        return None;
    }
    let y_hdr = "Year".to_owned();
    let g_hdr = "Genre".to_owned();
    let c_hdr = "Count".to_owned();
    let first = &rows[0];
    proof {
        assert(rsv[0] == first.deep_view());
    }
    if first.len() != 3 {
        proof {
            assert(rsv[0].len() == first@.len());
            assert(rsv[0] != header_fields());
        }
        return None;
    }
    if !(first[0] == y_hdr && first[1] == g_hdr && first[2] == c_hdr) {
        proof {
            assert(rsv[0][0] == first@[0]@);
            assert(rsv[0][1] == first@[1]@);
            assert(rsv[0][2] == first@[2]@);
        }
        return None;
    }
    proof {
        assert(rsv[0][0] == first@[0]@);
        assert(rsv[0][1] == first@[1]@);
        assert(rsv[0][2] == first@[2]@);
        assert(rsv[0] =~= header_fields());
    }
    let ghost data = rsv.drop_first();
    let mut cells: Vec<TrendCell> = Vec::new();
    proof {
        assert(data.take(0) =~= Seq::<Seq<Seq<char>>>::empty());
        assert(cell_triples(cells@) =~= Seq::<(i32, Seq<char>, usize)>::empty());
    }
    let mut i: usize = 1;
    while i < rows.len()
        invariant
            1 <= i <= rows@.len(),
            rsv == rows.deep_view(),
            rsv.len() == rows@.len(),
            data == rsv.drop_first(),
            csv_rows_of(bytes@) == Some(rsv),
            rsv[0] == header_fields(),
            parse_cells_spec(data.take(i - 1)) == Some(cell_triples(cells@)),
        decreases rows@.len() - i,
    {
        let ghost prev = cell_triples(cells@);
        let row = &rows[i];
        proof {
            assert(rsv[i as int] == row.deep_view());
            assert(data[i - 1] == rsv[i as int]);
            assert(data.take(i as int).drop_last() =~= data.take(i - 1));
            assert(data.take(i as int).last() == data[i - 1]);
        }
        if row.len() != 3 {
            proof {
                assert(rsv[i as int].len() == row@.len());
                assert(cell_triple_of_row(data[i - 1]) is None);
                lemma_parse_cells_none(data, i - 1);
            }
            return None;
        }
        proof {
            assert(rsv[i as int][0] == row@[0]@);
            assert(rsv[i as int][1] == row@[1]@);
            assert(rsv[i as int][2] == row@[2]@);
        }
        let year = match parse_i32_dec(row[0].as_str()) {
            Some(y) => y,
            None => {
                proof {
                    assert(cell_triple_of_row(data[i - 1]) is None);
                    lemma_parse_cells_none(data, i - 1);
                }
                return None;
            },
        };
        let count = match parse_usize_dec(row[2].as_str()) {
            Some(c) => c,
            None => {
                proof {
                    assert(cell_triple_of_row(data[i - 1]) is None);
                    lemma_parse_cells_none(data, i - 1);
                }
                return None;
            },
        };
        let cell = TrendCell { year, genre: row[1].clone(), count };
        cells.push(cell);
        proof {
            assert(cell_triple_of_row(data[i - 1]) == Some(
                (cell.year, cell.genre@, cell.count),
            ));
            assert(cell_triples(cells@) =~= prev.push((cell.year, cell.genre@, cell.count)));
        }
        i = i + 1;
    }
    proof {
        assert(data.take(rows@.len() - 1) =~= data);
    }
    Some(cells)
}

proof fn lemma_cell_fields_round_trip(c: TrendCell)
    ensures
        cell_triple_of_row(cell_fields(c)) == Some((c.year, c.genre@, c.count)),
{
    let fs = cell_fields(c);
    assert(fs.len() == 3);
    lemma_dec_chars_digits(c.count as nat);
    lemma_dec_val_of_dec_chars(c.count as nat);
    assert(fs[2] == dec_chars(c.count as nat));
    assert(parse_usize_spec(fs[2]) == Some(c.count));
    let y = c.year as int;
    if y >= 0 {
        lemma_dec_chars_digits(y as nat);
        lemma_dec_val_of_dec_chars(y as nat);
        assert(fs[0] == dec_chars(y as nat));
        assert(fs[0][0] != '-') by {
            assert(crate::decimal::is_digit(fs[0][0]));
        }
        assert(parse_i32_spec(fs[0]) == Some(c.year));
    } else {
        lemma_dec_chars_digits((-y) as nat);
        lemma_dec_val_of_dec_chars((-y) as nat);
        assert(fs[0] == seq!['-'] + dec_chars((-y) as nat));
        assert(fs[0][0] == '-');
        assert(fs[0].drop_first() =~= dec_chars((-y) as nat));
        assert(parse_i32_spec(fs[0]) == Some(c.year));
    }
}

/// Law: the rows of an encoded trend table decode back to exactly the table's
/// (year, genre, count) triples, in order; the encoded table always begins
/// with the header record.
pub proof fn lemma_table_rows_round_trip(cells: Seq<TrendCell>)
    ensures
        table_rows(cells).len() >= 1,
        table_rows(cells)[0] == header_fields(),
        parse_cells_spec(table_rows(cells).drop_first()) == Some(cell_triples(cells)),
{
    let m = cells.map_values(|c: TrendCell| cell_fields(c));
    assert(table_rows(cells).drop_first() =~= m);
    lemma_parse_cells_of_map(cells);
}

proof fn lemma_parse_cells_of_map(cells: Seq<TrendCell>)
    ensures
        parse_cells_spec(cells.map_values(|c: TrendCell| cell_fields(c))) == Some(
            cell_triples(cells),
        ),
    decreases cells.len(),
{
    let m = cells.map_values(|c: TrendCell| cell_fields(c));
    if cells.len() == 0 {
        assert(m.len() == 0);
        assert(cell_triples(cells) =~= Seq::<(i32, Seq<char>, usize)>::empty());
    } else {
        let rest = cells.drop_last();
        lemma_parse_cells_of_map(rest);
        assert(m.drop_last() =~= rest.map_values(|c: TrendCell| cell_fields(c)));
        assert(m.last() == cell_fields(cells.last()));
        lemma_cell_fields_round_trip(cells.last());
        assert(cell_triples(cells) =~= cell_triples(rest).push(
            (cells.last().year, cells.last().genre@, cells.last().count),
        ));
    }
}

} // verus!
