use vstd::prelude::*;
use crate::frame::{column_of, DataFrame};
use crate::number::{is_float_literal, is_float_text, number_error, NumberError};
use crate::text::{
    chars_of, lemma_split_nonempty, lines_of, pieces, split_chars, split_lines, split_on,
    string_of, trim, trimmed,
};

verus! {

/// Why a text could not be read as a table.
#[derive(Debug, Clone, Copy, PartialEq, Eq)]
pub enum CsvError {
    /// The text has no header line.
    NoColumns,
    /// The field at the given line and column (both counted from 1, the
    /// header being line 1) is no number.
    InvalidNumber(usize, usize, NumberError),
    /// The data line with the given number holds another number of fields
    /// than the header.
    RowWidthMismatch(usize),
}

impl CsvError {
    /// A sentence that describes the error.
    pub fn message(&self) -> (r: String)
        ensures
            r@ == self.message_spec(),
    {
        match self {
            CsvError::NoColumns => String::from_str("CSV input has no columns"),
            CsvError::InvalidNumber(line, column, e) => {
                let mut s = String::from_str("Invalid float literal at line ");
                s.append(string_of(decimal(*line).as_slice()).as_str());
                s.append(", column ");
                s.append(string_of(decimal(*column).as_slice()).as_str());
                s.append(": ");
                s.append(e.message().as_str());
                s
            },
            CsvError::RowWidthMismatch(line) => {
                let mut s = String::from_str("Mismatch in column count at line ");
                s.append(string_of(decimal(*line).as_slice()).as_str());
                s
            },
        }
    }

    pub open spec fn message_spec(&self) -> Seq<char> {
        match self {
            CsvError::NoColumns => "CSV input has no columns"@,
            CsvError::InvalidNumber(line, column, e) => "Invalid float literal at line "@
                + decimal_of(*line as nat) + ", column "@ + decimal_of(*column as nat) + ": "@
                + e.message_spec(),
            CsvError::RowWidthMismatch(line) => "Mismatch in column count at line "@ + decimal_of(
                *line as nat,
            ),
        }
    }
}

/// The decimal digit of `d`, which is below ten.
pub open spec fn digit_char(d: nat) -> char {
    seq!['0', '1', '2', '3', '4', '5', '6', '7', '8', '9'][d as int]
}

/// The decimal numeral of `n`, without leading zeros.
pub open spec fn decimal_of(n: nat) -> Seq<char>
    decreases n,
{
    if n < 10 {
        seq![digit_char(n)]
    } else {
        decimal_of(n / 10).push(digit_char(n % 10))
    }
}

/// The decimal numeral of `n`.
pub fn decimal(n: usize) -> (r: Vec<char>)
    ensures
        r@ == decimal_of(n as nat),
    decreases n,
{
    let digits = vec!['0', '1', '2', '3', '4', '5', '6', '7', '8', '9'];
    assert(digits@ == seq!['0', '1', '2', '3', '4', '5', '6', '7', '8', '9']);
    if n < 10 {
        vec![digits[n]]
    } else {
        let mut r = decimal(n / 10);
        r.push(digits[n % 10]);
        r
    }
}

/// The cell texts of a data line: its comma-separated fields, trimmed.
pub open spec fn fields_of(line: Seq<char>) -> Seq<Seq<char>> {
    split_on(line, ',').map_values(|f: Seq<char>| trim(f))
}

/// Position of the first text that is no float literal.
pub open spec fn first_invalid(ts: Seq<Seq<char>>) -> Option<int>
    decreases ts.len(),
{
    if ts.len() == 0 {
        None
    } else {
        match first_invalid(ts.drop_last()) {
            Some(j) => Some(j),
            None => if is_float_literal(ts.last()) {
                None
            } else {
                Some(ts.len() - 1)
            },
        }
    }
}

/// What reading the data line numbered `lineno` gives, for a header of
/// `width` fields: its cell texts, or the first error in it.
pub open spec fn row_outcome(line: Seq<char>, width: nat, lineno: int) -> Result<
    Seq<Seq<char>>,
    CsvError,
> {
    let ts = fields_of(line);
    match first_invalid(ts) {
        Some(j) => Err(CsvError::InvalidNumber(lineno as usize, (j + 1) as usize, number_error(ts[j]))),
        None => if ts.len() == width {
            Ok(ts)
        } else {
            Err(CsvError::RowWidthMismatch(lineno as usize))
        },
    }
}

/// What reading the data lines `ls` in order gives: all their rows, or the
/// error of the first line that fails. Data line `k` is line `k + 2`.
pub open spec fn rows_outcome(ls: Seq<Seq<char>>, width: nat) -> Result<
    Seq<Seq<Seq<char>>>,
    CsvError,
>
    decreases ls.len(),
{
    if ls.len() == 0 {
        Ok(seq![])
    } else {
        match rows_outcome(ls.drop_last(), width) {
            Err(e) => Err(e),
            Ok(rows) => match row_outcome(ls.last(), width, ls.len() + 1 as int) {
                Ok(t) => Ok(rows.push(t)),
                Err(e) => Err(e),
            },
        }
    }
}

/// What reading `input` as a table gives: the header's fields and the rows
/// of cell texts, or the first error.
pub open spec fn csv_outcome(input: Seq<char>) -> Result<
    (Seq<Seq<char>>, Seq<Seq<Seq<char>>>),
    CsvError,
> {
    let ls = lines_of(input);
    if ls.len() == 0 {
        Err(CsvError::NoColumns)
    } else {
        let header = split_on(ls[0], ',');
        match rows_outcome(ls.drop_first(), header.len()) {
            Ok(rows) => Ok((header, rows)),
            Err(e) => Err(e),
        }
    }
}

/// The character sequences of a sequence of strings.
pub open spec fn texts(v: Seq<String>) -> Seq<Seq<char>> {
    v.map_values(|s: String| s@)
}

/// The rows of a table of texts, as character sequences.
pub open spec fn text_rows(rows: Seq<Seq<String>>) -> Seq<Seq<Seq<char>>> {
    rows.map_values(|r: Seq<String>| texts(r))
}

/// A parse result seen through the views of its table.
pub open spec fn outcome_view(r: Result<DataFrame<String>, CsvError>) -> Result<
    (Seq<Seq<char>>, Seq<Seq<Seq<char>>>),
    CsvError,
> {
    match r {
        Ok(f) => Ok((f.titles(), text_rows(f.rows()))),
        Err(e) => Err(e),
    }
}

proof fn lemma_first_invalid_prefix(ts: Seq<Seq<char>>, k: int)
    requires
        0 <= k <= ts.len(),
        first_invalid(ts.take(k)) is Some,
    ensures
        first_invalid(ts) == first_invalid(ts.take(k)),
    decreases ts.len(),
{
    if k == ts.len() {
        assert(ts.take(k) =~= ts);
    } else {
        assert(ts.drop_last().take(k) =~= ts.take(k));
        lemma_first_invalid_prefix(ts.drop_last(), k);
    }
}

proof fn lemma_rows_error_prefix(ls: Seq<Seq<char>>, width: nat, k: int)
    requires
        0 <= k <= ls.len(),
        rows_outcome(ls.take(k), width) is Err,
    ensures
        rows_outcome(ls, width) == rows_outcome(ls.take(k), width),
    decreases ls.len(),
{
    if k == ls.len() {
        assert(ls.take(k) =~= ls);
    } else {
        assert(ls.drop_last().take(k) =~= ls.take(k));
        lemma_rows_error_prefix(ls.drop_last(), width, k);
    }
}

/// A data line of exactly `width` fields, each of which, trimmed, is a
/// number.
pub open spec fn well_formed_line(line: Seq<char>, width: nat) -> bool {
    fields_of(line).len() == width && forall|j: int|
        0 <= j < width ==> is_float_literal(#[trigger] fields_of(line)[j])
}

proof fn lemma_all_valid(ts: Seq<Seq<char>>)
    requires
        forall|j: int| 0 <= j < ts.len() ==> is_float_literal(#[trigger] ts[j]),
    ensures
        first_invalid(ts) is None,
    decreases ts.len(),
{
    if ts.len() > 0 {
        lemma_all_valid(ts.drop_last());
    }
}

proof fn lemma_rows_ok(ls: Seq<Seq<char>>, width: nat)
    requires
        forall|k: int| 0 <= k < ls.len() ==> well_formed_line(#[trigger] ls[k], width),
    ensures
        rows_outcome(ls, width) == Ok::<_, CsvError>(ls.map_values(|l: Seq<char>| fields_of(l))),
    decreases ls.len(),
{
    if ls.len() > 0 {
        lemma_rows_ok(ls.drop_last(), width);
        lemma_all_valid(fields_of(ls.last()));
        assert(ls.map_values(|l: Seq<char>| fields_of(l)) =~= ls.drop_last().map_values(
            |l: Seq<char>| fields_of(l),
        ).push(fields_of(ls.last())));
    } else {
        assert(ls.map_values(|l: Seq<char>| fields_of(l)) =~= Seq::<Seq<Seq<char>>>::empty());
    }
}

/// The trimmed fields of each data line of `input`.
pub open spec fn data_fields(input: Seq<char>) -> Seq<Seq<Seq<char>>> {
    lines_of(input).drop_first().map_values(|l: Seq<char>| fields_of(l))
}

/// Field `i` of each data line of `input`, trimmed.
pub open spec fn field_column(input: Seq<char>, i: int) -> Seq<Seq<char>> {
    lines_of(input).drop_first().map_values(|l: Seq<char>| fields_of(l)[i])
}

/// Input whose data lines all hold as many fields as the header, each a
/// number, reads as the table of the header's fields and, for each data
/// line in order, its trimmed fields: column `i` holds the `i`-th field of
/// every data line.
pub proof fn lemma_well_formed_input(input: Seq<char>)
    requires
        lines_of(input).len() >= 1,
        forall|k: int|
            1 <= k < lines_of(input).len() ==> well_formed_line(
                #[trigger] lines_of(input)[k],
                split_on(lines_of(input)[0], ',').len(),
            ),
    ensures
        csv_outcome(input) == Ok::<_, CsvError>(
            (split_on(lines_of(input)[0], ','), data_fields(input)),
        ),
        forall|i: int|
            0 <= i < split_on(lines_of(input)[0], ',').len() ==> #[trigger] column_of(
                data_fields(input),
                i,
            ) == field_column(input, i),
{
    let ls = lines_of(input);
    let n = split_on(ls[0], ',').len();
    assert forall|k: int| 0 <= k < ls.drop_first().len() implies well_formed_line(
        #[trigger] ls.drop_first()[k],
        n,
    ) by {
        assert(ls.drop_first()[k] == ls[k + 1]);
    }
    lemma_rows_ok(ls.drop_first(), n);
    assert forall|i: int| 0 <= i < n implies #[trigger] column_of(data_fields(input), i)
        == field_column(input, i) by {
        assert(column_of(data_fields(input), i) =~= field_column(input, i));
    }
}

/// Reading fails with `NoColumns` exactly when the input is empty.
pub proof fn lemma_no_columns(input: Seq<char>)
    ensures
        csv_outcome(input) == Err::<(Seq<Seq<char>>, Seq<Seq<Seq<char>>>), _>(CsvError::NoColumns)
            <==> input.len() == 0,
{
    let p = split_on(input, '\n');
    if input.len() > 0 {
        lemma_split_nonempty(input.drop_last(), '\n');
        assert(lines_of(input).len() >= 1);
        let ls = lines_of(input);
        let header = split_on(ls[0], ',');
        if rows_outcome(ls.drop_first(), header.len()) is Err {
            lemma_rows_never_no_columns(ls.drop_first(), header.len());
        }
    } else {
        assert(lines_of(input) =~= Seq::<Seq<char>>::empty());
    }
}

proof fn lemma_rows_never_no_columns(ls: Seq<Seq<char>>, width: nat)
    ensures
        rows_outcome(ls, width) != Err::<Seq<Seq<Seq<char>>>, _>(CsvError::NoColumns),
    decreases ls.len(),
{
    if ls.len() > 0 {
        lemma_rows_never_no_columns(ls.drop_last(), width);
    }
}

/// The data lines before line `k` are well formed: reading gets that far.
pub open spec fn reaches_line(input: Seq<char>, k: int) -> bool {
    &&& 1 <= k < lines_of(input).len()
    &&& forall|m: int|
        1 <= m < k ==> well_formed_line(
            #[trigger] lines_of(input)[m],
            split_on(lines_of(input)[0], ',').len(),
        )
}

proof fn lemma_failing_line(input: Seq<char>, k: int, e: CsvError)
    requires
        reaches_line(input, k),
        row_outcome(
            lines_of(input)[k],
            split_on(lines_of(input)[0], ',').len(),
            k + 1,
        ) == Err::<Seq<Seq<char>>, _>(e),
    ensures
        csv_outcome(input) == Err::<(Seq<Seq<char>>, Seq<Seq<Seq<char>>>), _>(e),
{
    let ls = lines_of(input);
    let n = split_on(ls[0], ',').len();
    let data = ls.drop_first();
    let before = data.take(k - 1);
    assert forall|m: int| 0 <= m < before.len() implies well_formed_line(
        #[trigger] before[m],
        n,
    ) by {
        assert(before[m] == ls[m + 1]);
    }
    lemma_rows_ok(before, n);
    assert(data.take(k).drop_last() =~= before);
    assert(data.take(k).last() == ls[k]);
    lemma_rows_error_prefix(data, n, k);
}

/// Where reading reaches line `k` and that line holds only numbers but
/// another number of fields than the header, reading fails there with a
/// width error that names line `k + 1` (lines counted from 1), whatever
/// lines follow.
pub proof fn lemma_width_mismatch(input: Seq<char>, k: int)
    requires
        reaches_line(input, k),
        forall|j: int|
            0 <= j < fields_of(lines_of(input)[k]).len() ==> is_float_literal(
                #[trigger] fields_of(lines_of(input)[k])[j],
            ),
        fields_of(lines_of(input)[k]).len() != split_on(lines_of(input)[0], ',').len(),
    ensures
        csv_outcome(input) == Err::<(Seq<Seq<char>>, Seq<Seq<Seq<char>>>), _>(
            CsvError::RowWidthMismatch((k + 1) as usize),
        ),
{
    lemma_all_valid(fields_of(lines_of(input)[k]));
    lemma_failing_line(input, k, CsvError::RowWidthMismatch((k + 1) as usize));
}

/// Where reading reaches line `k` and field `j` of that line is the first
/// that is no number, reading fails there with an error that names line
/// `k + 1` and column `j + 1` (both counted from 1), whatever follows.
pub proof fn lemma_invalid_number(input: Seq<char>, k: int, j: int)
    requires
        reaches_line(input, k),
        0 <= j < fields_of(lines_of(input)[k]).len(),
        forall|m: int| 0 <= m < j ==> is_float_literal(#[trigger] fields_of(lines_of(input)[k])[m]),
        !is_float_literal(fields_of(lines_of(input)[k])[j]),
    ensures
        csv_outcome(input) == Err::<(Seq<Seq<char>>, Seq<Seq<Seq<char>>>), _>(
            CsvError::InvalidNumber(
                (k + 1) as usize,
                (j + 1) as usize,
                number_error(fields_of(lines_of(input)[k])[j]),
            ),
        ),
{
    let ts = fields_of(lines_of(input)[k]);
    lemma_all_valid(ts.take(j));
    assert(ts.take(j + 1).drop_last() =~= ts.take(j));
    lemma_first_invalid_prefix(ts, j + 1);
    lemma_failing_line(
        input,
        k,
        CsvError::InvalidNumber((k + 1) as usize, (j + 1) as usize, number_error(ts[j])),
    );
}

/// Reads one data line, numbered `lineno`, against a header of `width`
/// fields.
fn parse_row(line: &[char], width: usize, lineno: usize) -> (r: Result<Vec<String>, CsvError>)
    ensures
        match r {
            Ok(v) => row_outcome(line@, width as nat, lineno as int) == Ok::<_, CsvError>(texts(v@)),
            Err(e) => row_outcome(line@, width as nat, lineno as int) == Err::<Seq<Seq<char>>, _>(e),
        },
{
    let fs = split_chars(line, ',');
    let ghost ts = fields_of(line@);
    let mut cells: Vec<String> = Vec::new();
    let mut j: usize = 0;
    while j < fs.len()
        invariant
            j <= fs@.len(),
            pieces(fs@) == split_on(line@, ','),
            ts == fields_of(line@),
            first_invalid(ts.take(j as int)) is None,
            texts(cells@) == ts.take(j as int),
        decreases fs@.len() - j,
    {
        let t = trimmed(fs[j].as_slice());
        assert(t@ == ts[j as int]);
        assert(ts.take(j + 1).drop_last() =~= ts.take(j as int));
        if !is_float_text(t.as_slice()) {
            let err = if t.len() == 0 {
                NumberError::Empty
            } else {
                NumberError::Invalid
            };
            proof {
                lemma_first_invalid_prefix(ts, j + 1);
            }
            return Err(CsvError::InvalidNumber(lineno, j + 1, err));
        }
        let ghost before = cells@;
        cells.push(string_of(t.as_slice()));
        assert(texts(cells@) =~= texts(before).push(t@));
        assert(texts(cells@) =~= ts.take(j + 1));
        j = j + 1;
    }
    assert(ts.take(j as int) =~= ts);
    if cells.len() != width {
        Err(CsvError::RowWidthMismatch(lineno))
    } else {
        Ok(cells)
    }
}

/// Reads `input` as a table: a header line of comma-separated column names,
/// then one line of comma-separated numbers per row. Stops at the first
/// error.
pub fn parse_csv(input: &str) -> (r: Result<DataFrame<String>, CsvError>)
    ensures
        outcome_view(r) == csv_outcome(input@),
{
    let cs = chars_of(input);
    let ls = split_lines(cs.as_slice());
    if ls.len() == 0 {
        return Err(CsvError::NoColumns);
    }
    let hdr = split_chars(ls[0].as_slice(), ',');
    let mut columns: Vec<String> = Vec::new();
    let mut h: usize = 0;
    while h < hdr.len()
        invariant
            h <= hdr@.len(),
            texts(columns@) == pieces(hdr@).take(h as int),
        decreases hdr@.len() - h,
    {
        let ghost before = columns@;
        columns.push(string_of(hdr[h].as_slice()));
        assert(texts(columns@) =~= texts(before).push(hdr@[h as int]@));
        assert(texts(columns@) =~= pieces(hdr@).take(h + 1));
        h = h + 1;
    }
    assert(pieces(hdr@).take(h as int) =~= pieces(hdr@));
    let width = hdr.len();
    let ghost data_lines = lines_of(input@).drop_first();
    let mut data: Vec<Vec<String>> = Vec::new();
    let mut i: usize = 1;
    assert(data_lines.take(0) =~= Seq::<Seq<char>>::empty());
    assert(text_rows(data@.map_values(|v: Vec<String>| v@)) =~= Seq::<Seq<Seq<char>>>::empty());
    while i < ls.len()
        invariant
            1 <= i <= ls@.len(),
            pieces(ls@) == lines_of(input@),
            data_lines == lines_of(input@).drop_first(),
            texts(columns@) == split_on(lines_of(input@)[0], ','),
            width == columns@.len(),
            rows_outcome(data_lines.take(i - 1), width as nat) == Ok::<_, CsvError>(text_rows(data@.map_values(|v: Vec<String>| v@))),
            forall|k: int| 0 <= k < data@.len() ==> #[trigger] data@[k]@.len() == columns@.len(),
        decreases ls@.len() - i,
    {
        let ghost prefix = data_lines.take(i as int);
        assert(prefix.drop_last() =~= data_lines.take(i - 1));
        assert(prefix.last() == ls@[i as int]@);
        match parse_row(ls[i].as_slice(), width, i + 1) {
            Ok(row) => {
                let ghost before = data@;
                data.push(row);
                assert(text_rows(data@.map_values(|v: Vec<String>| v@)) =~= text_rows(before.map_values(|v: Vec<String>| v@)).push(texts(row@)));
            },
            Err(e) => {
                proof {
                    lemma_rows_error_prefix(data_lines, width as nat, i as int);
                }
                return Err(e);
            },
        }
        i = i + 1;
    }
    assert(data_lines.take(i - 1) =~= data_lines);
    let f = DataFrame::from_parts(columns, data);
    Ok(f)
}

} // verus!
