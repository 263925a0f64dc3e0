use vstd::prelude::*;
use crate::error::MatrixError;
use crate::error::ParseFault;
use crate::matrix::cell_has_slot;
use crate::matrix::cell_is_held;
use crate::matrix::slot_names_a_cell;
use crate::matrix::offset_in_bounds;
use crate::matrix::Grid;
use crate::matrix::Matrix;
use crate::text::lines;
use crate::text::rows_of;
use crate::text::split;
use crate::text::split_bytes;
use crate::text::split_has_pieces;
use crate::text::split_lines;
use crate::text::free_of;
use crate::text::join;
use crate::text::rows_round_trip;
use crate::text::writable;
use crate::text::RETURN;
use crate::text::unlines;
use crate::text::views;
use crate::text::NEWLINE;
use crate::text::SPACE;

verus! {

/// `parse` may be called on every token.
///
/// A parser turns the text of one value into the bit pattern of the double
/// it denotes, or refuses it.
pub open spec fn parses_all<P: Fn(&[u8]) -> Option<u64>>(parse: P) -> bool {
    forall|token: &[u8]| call_requires(parse, (token,))
}

/// `r` is an answer of `parse` to the text `token`.
pub open spec fn reads<P: Fn(&[u8]) -> Option<u64>>(parse: P, token: Seq<u8>, r: Option<u64>) -> bool {
    exists|s: &[u8]| s@ == token && #[trigger] call_ensures(parse, (s,), r)
}

/// `parse` has taken the text `token` for a number.
pub open spec fn takes<P: Fn(&[u8]) -> Option<u64>>(parse: P, token: Seq<u8>) -> bool {
    exists|value: u64| #[trigger] reads(parse, token, Some(value))
}

/// The number of values that the first row holds, which every row has to
/// hold; none where there is no row.
pub open spec fn width(rows: Seq<Seq<Seq<u8>>>) -> nat {
    if rows.len() == 0 {
        0
    } else {
        rows[0].len()
    }
}

/// The grid `m` is a reading of the rows: there is one row of `m` for each,
/// all of them are as wide as the first, and each element is an answer of
/// `parse` to the text at its place.
pub open spec fn accepted<P: Fn(&[u8]) -> Option<u64>>(parse: P, rows: Seq<Seq<Seq<u8>>>, m: Grid) -> bool {
    &&& m.wf()
    &&& m.rows == rows.len()
    &&& m.cols == width(rows)
    &&& forall|i: int| 0 <= i < rows.len() ==> (#[trigger] rows[i]).len() == width(rows)
    &&& forall|i: int, j: int| m.has(i, j) ==> reads(parse, rows[i][j], Some(#[trigger] m.at(i, j)))
}

/// Every row before `line` is as wide as the first and holds only what
/// `parse` has taken for numbers.
pub open spec fn clean_before<P: Fn(&[u8]) -> Option<u64>>(parse: P, rows: Seq<Seq<Seq<u8>>>, line: int) -> bool {
    forall|i: int|
        0 <= i < line ==> (#[trigger] rows[i]).len() == width(rows) && forall|j: int|
            0 <= j < rows[i].len() ==> takes(parse, #[trigger] rows[i][j])
}

/// The error `e` is the first fault of the rows, going through the lines in
/// order, and through a line by its width first and then value by value.
pub open spec fn rejected<P: Fn(&[u8]) -> Option<u64>>(parse: P, rows: Seq<Seq<Seq<u8>>>, e: MatrixError) -> bool {
    match e {
        MatrixError::ParseError { line, token, fault } => {
            &&& line < rows.len()
            &&& clean_before(parse, rows, line as int)
            &&& match fault {
                ParseFault::RaggedRow => {
                    &&& rows[line as int].len() != width(rows)
                    &&& token == if rows[line as int].len() < width(rows) {
                        rows[line as int].len()
                    } else {
                        width(rows)
                    }
                },
                ParseFault::NotANumber => {
                    &&& rows[line as int].len() == width(rows)
                    &&& token < width(rows)
                    &&& forall|j: int| 0 <= j < token ==> takes(parse, #[trigger] rows[line as int][j])
                    &&& reads(parse, rows[line as int][token as int], None)
                },
            }
        },
        _ => false,
    }
}

/// `show` may be called on every element.
///
/// A printer turns the bit pattern of a double into the text that denotes
/// it.
pub open spec fn shows_all<S: Fn(u64) -> Vec<u8>>(show: S) -> bool {
    forall|value: u64| call_requires(show, (value,))
}

/// `token` is a text that `show` gives for `value`.
pub open spec fn shows<S: Fn(u64) -> Vec<u8>>(show: S, value: u64, token: Seq<u8>) -> bool {
    exists|buffer: Vec<u8>| buffer@ == token && #[trigger] call_ensures(show, (value,), buffer)
}

/// The rows are a picture of the grid `m`: there is one row for each row of
/// `m`, each as wide as `m`, and each holds at every place a text that
/// `show` gives for the element there.
pub open spec fn pictures<S: Fn(u64) -> Vec<u8>>(show: S, m: Grid, rows: Seq<Seq<Seq<u8>>>) -> bool {
    &&& rows.len() == m.rows
    &&& forall|i: int| 0 <= i < rows.len() ==> (#[trigger] rows[i]).len() == m.cols
    &&& forall|i: int, j: int| m.has(i, j) ==> shows(show, m.at(i, j), #[trigger] rows[i][j])
}

/// `text` is the grid `m` written out with `show`.
pub open spec fn written<S: Fn(u64) -> Vec<u8>>(show: S, m: Grid, text: Seq<u8>) -> bool {
    exists|rows: Seq<Seq<Seq<u8>>>| #[trigger] pictures(show, m, rows) && text == unlines(rows)
}

impl Matrix {
    /// Writes the matrix as text: one line per row, ended by a `NEWLINE`,
    /// with the text that `show` gives for each element and a single `SPACE`
    /// between neighbours.
    pub fn to_text<S: Fn(u64) -> Vec<u8>>(&self, show: S) -> (text: Vec<u8>)
        requires
            shows_all(show),
        ensures
            written(show, self@, text@),
    {
        let height: usize = self.rows();
        let wide: usize = self.cols();
        let mut text: Vec<u8> = Vec::new();
        let ghost mut rows: Seq<Seq<Seq<u8>>> = Seq::empty();
        let mut i: usize = 0;
        while i < height
            invariant
                i <= height,
                height == self@.rows,
                wide == self@.cols,
                shows_all(show),
                rows.len() == i,
                text@ == unlines(rows),
                forall|r: int| 0 <= r < i ==> (#[trigger] rows[r]).len() == wide,
                forall|r: int, c: int|
                    0 <= r < i && 0 <= c < wide ==> shows(show, self@.at(r, c), #[trigger] rows[r][c]),
            decreases height - i,
        {
            let ghost mut row: Seq<Seq<u8>> = Seq::empty();
            let ghost above = text@;
            let mut j: usize = 0;
            assert(text@ =~= above + join(row, SPACE));
            while j < wide
                invariant
                    j <= wide,
                    i < height,
                    height == self@.rows,
                    wide == self@.cols,
                    shows_all(show),
                    row.len() == j,
                    text@ == above + join(row, SPACE),
                    forall|c: int| 0 <= c < j ==> shows(show, self@.at(i as int, c), #[trigger] row[c]),
                decreases wide - j,
            {
                if j > 0 {
                    text.push(SPACE);
                }
                let token: Vec<u8> = show(self.get(i, j));
                text.extend_from_slice(token.as_slice());
                proof {
                    let longer = row.push(token@);
                    assert(longer.drop_last() =~= row);
                    assert(text@ =~= above + join(longer, SPACE));
                    assert(shows(show, self@.at(i as int, j as int), token@));
                    row = longer;
                }
                j += 1;
            }
            text.push(NEWLINE);
            proof {
                let longer = rows.push(row);
                assert(longer.drop_last() =~= rows);
                assert(text@ =~= unlines(longer));
                rows = longer;
            }
            i += 1;
        }
        assert(pictures(show, self@, rows));
        text
    }

    /// Reads a matrix from text: one row per line, the values of a row
    /// separated by single `SPACE` bytes. The text of each value is handed
    /// to `parse`.
    ///
    /// Fails with `ParseError` at the first line that is not as wide as the
    /// first line or holds a value that `parse` refuses.
    pub fn from_text<P: Fn(&[u8]) -> Option<u64>>(text: &[u8], parse: P) -> (r: Result<Matrix, MatrixError>)
        requires
            parses_all(parse),
        ensures
            match r {
                Ok(m) => accepted(parse, rows_of(text@), m@),
                Err(e) => rejected(parse, rows_of(text@), e),
            },
    {
        let found: Vec<Vec<u8>> = split_lines(text);
        let count: usize = found.len();
        let ghost rows = rows_of(text@);
        assert(rows.len() == count);
        let mut cols: usize = 0;
        let mut data: Vec<u64> = Vec::new();
        let mut i: usize = 0;
        while i < count
            invariant
                i <= count,
                count == found.len(),
                rows == rows_of(text@),
                views(found@) == lines(text@),
                parses_all(parse),
                i == 0 ==> cols == 0,
                i > 0 ==> cols == width(rows) && cols > 0,
                data.len() == i * cols,
                clean_before(parse, rows, i as int),
                forall|slot: int|
                    0 <= slot < data.len() ==> reads(
                        parse,
                        rows[slot / cols as int][slot % cols as int],
                        Some(#[trigger] data@[slot]),
                    ),
            decreases count - i,
        {
            let tokens: Vec<Vec<u8>> = split_bytes(found[i].as_slice(), SPACE);
            let have: usize = tokens.len();
            proof {
                assert(views(found@)[i as int] == found@[i as int]@);
                assert(rows[i as int] == split(found@[i as int]@, SPACE));
                split_has_pieces(found@[i as int]@, SPACE);
                assert(views(tokens@).len() == tokens@.len());
            }
            if i == 0 {
                cols = have;
                assert(i * cols == 0) by (nonlinear_arith)
                    requires
                        i == 0,
                ;
            } else if have != cols {
                let token: usize = if have < cols {
                    have
                } else {
                    cols
                };
                return Err(MatrixError::ParseError { line: i, token, fault: ParseFault::RaggedRow });
            }
            let mut j: usize = 0;
            while j < cols
                invariant
                    j <= cols,
                    i < count,
                    count == found.len(),
                    rows == rows_of(text@),
                    rows.len() == count,
                    parses_all(parse),
                    cols == width(rows),
                    cols > 0,
                    cols == tokens.len(),
                    views(tokens@) == rows[i as int],
                    data.len() == i * cols + j,
                    clean_before(parse, rows, i as int),
                    forall|k: int| 0 <= k < j ==> takes(parse, #[trigger] rows[i as int][k]),
                    forall|slot: int|
                        0 <= slot < data.len() ==> reads(
                            parse,
                            rows[slot / cols as int][slot % cols as int],
                            Some(#[trigger] data@[slot]),
                        ),
                decreases cols - j,
            {
                let token: &[u8] = tokens[j].as_slice();
                assert(token@ == rows[i as int][j as int]) by {
                    assert(views(tokens@)[j as int] == tokens@[j as int]@);
                }
                match parse(token) {
                    Some(value) => {
                        let ghost before = data@;
                        data.push(value);
                        proof {
                            let shape = Grid { rows: (i + 1) as nat, cols: cols as nat, cells: Seq::empty() };
                            cell_has_slot(shape, i as int, j as int);
                            assert(reads(parse, rows[i as int][j as int], Some(value)));
                            assert forall|slot: int| 0 <= slot < data.len() implies reads(
                                parse,
                                rows[slot / cols as int][slot % cols as int],
                                Some(#[trigger] data@[slot]),
                            ) by {
                                if slot < before.len() {
                                    assert(data@[slot] == before[slot]);
                                }
                            }
                        }
                    },
                    None => {
                        assert(reads(parse, rows[i as int][j as int], None));
                        return Err(
                            MatrixError::ParseError { line: i, token: j, fault: ParseFault::NotANumber },
                        );
                    },
                }
                j += 1;
            }
            proof {
                assert(i * cols + cols == (i + 1) * cols) by (nonlinear_arith);
            }
            i += 1;
        }
        proof {
            let m = Grid { rows: count as nat, cols: cols as nat, cells: data@ };
            assert forall|r: int, c: int| m.has(r, c) implies reads(
                parse,
                rows[r][c],
                Some(#[trigger] m.at(r, c)),
            ) by {
                offset_in_bounds(m, r, c);
                cell_has_slot(m, r, c);
            }
        }
        Matrix::new(count, cols, data)
    }
}

/// `show` and `parse` agree on the elements of `m`: every text that `show`
/// gives for an element holds no `SPACE` and no `NEWLINE`, does not end in a
/// `RETURN`, and is answered by `parse` with that element and nothing else.
pub open spec fn codec_agrees<S: Fn(u64) -> Vec<u8>, P: Fn(&[u8]) -> Option<u64>>(
    show: S,
    parse: P,
    m: Grid,
) -> bool {
    forall|value: u64, token: Seq<u8>|
        m.holds(value) && #[trigger] shows(show, value, token) ==> {
            &&& free_of(token, SPACE)
            &&& free_of(token, NEWLINE)
            &&& !(token.len() > 0 && token.last() == RETURN)
            &&& forall|r: Option<u64>| #[trigger] reads(parse, token, r) ==> r == Some(value)
        }
}

/// A matrix that is written as text and read back is the same matrix: the
/// reading cannot fail, and it can give no other grid.
///
/// Text has no way to tell how wide a matrix without rows is, or how many
/// rows a matrix without columns has, so the law speaks of the matrices that
/// have both rows and columns, or neither.
pub proof fn text_round_trip<S: Fn(u64) -> Vec<u8>, P: Fn(&[u8]) -> Option<u64>>(
    show: S,
    parse: P,
    m: Grid,
    text: Seq<u8>,
)
    requires
        m.wf(),
        m.rows == 0 <==> m.cols == 0,
        codec_agrees(show, parse, m),
        written(show, m, text),
    ensures
        forall|e: MatrixError| !rejected(parse, rows_of(text), e),
        forall|back: Grid| accepted(parse, rows_of(text), back) ==> back == m,
{
    let rows = choose|rows: Seq<Seq<Seq<u8>>>| #[trigger] pictures(show, m, rows) && text == unlines(rows);
    assert forall|i: int, j: int| m.has(i, j) implies {
        &&& free_of(#[trigger] rows[i][j], SPACE)
        &&& free_of(rows[i][j], NEWLINE)
        &&& !(rows[i][j].len() > 0 && rows[i][j].last() == RETURN)
        &&& forall|r: Option<u64>| #[trigger] reads(parse, rows[i][j], r) ==> r == Some(m.at(i, j))
    } by {
        cell_is_held(m, i, j);
        assert(shows(show, m.at(i, j), rows[i][j]));
    }
    assert(writable(rows)) by {
        assert forall|i: int| 0 <= i < rows.len() implies {
            &&& (#[trigger] rows[i]).len() >= 1
            &&& !(rows[i].last().len() > 0 && rows[i].last().last() == RETURN)
            &&& forall|j: int|
                0 <= j < rows[i].len() ==> free_of(#[trigger] rows[i][j], SPACE) && free_of(
                    rows[i][j],
                    NEWLINE,
                )
        } by {
            assert(m.has(i, m.cols - 1));
            assert forall|j: int| 0 <= j < rows[i].len() implies free_of(#[trigger] rows[i][j], SPACE)
                && free_of(rows[i][j], NEWLINE) by {
                assert(m.has(i, j));
            }
        }
    }
    rows_round_trip(rows);
    assert forall|e: MatrixError| !rejected(parse, rows_of(text), e) by {
        if rejected(parse, rows, e) {
            match e {
                MatrixError::ParseError { line, token, fault } => {
                    match fault {
                        ParseFault::RaggedRow => {
                            assert(rows[0].len() == m.cols);
                            assert(rows[line as int].len() == m.cols);
                        },
                        ParseFault::NotANumber => {
                            assert(rows[0].len() == m.cols);
                            assert(m.has(line as int, token as int));
                            assert(reads(parse, rows[line as int][token as int], None));
                        },
                    }
                },
                _ => {},
            }
        }
    }
    assert forall|back: Grid| accepted(parse, rows_of(text), back) implies back == m by {
        if rows.len() > 0 {
            assert(rows[0].len() == m.cols);
        }
        assert(back.rows == m.rows);
        assert(back.cols == m.cols);
        assert forall|slot: int| 0 <= slot < m.cells.len() implies back.cells[slot] == m.cells[slot] by {
            slot_names_a_cell(m, slot);
            let i = slot / m.cols as int;
            let j = slot % m.cols as int;
            assert(m.has(i, j));
            assert(back.has(i, j));
            assert(m.at(i, j) == m.cells[slot]);
            assert(back.at(i, j) == back.cells[slot]);
            assert(reads(parse, rows[i][j], Some(back.at(i, j))));
        }
        assert(back.cells =~= m.cells);
    }
}

} // verus!
