use vstd::prelude::*;

verus! {

/// The byte that ends a line.
pub const NEWLINE: u8 = 10;

/// The byte that may stand before a `NEWLINE` as part of the line end.
pub const RETURN: u8 = 13;

/// The byte that separates the values of a line.
pub const SPACE: u8 = 32;

/// The byte that separates two matrices stored in one text.
pub const DELIMITER: u8 = 88;

/// The pieces of `s` between occurrences of `sep`. There is one piece more
/// than there are separators, so the empty text has one empty piece.
pub open spec fn split(s: Seq<u8>, sep: u8) -> Seq<Seq<u8>>
    decreases s.len(),
{
    if s.len() == 0 {
        seq![Seq::empty()]
    } else {
        let front = split(s.drop_last(), sep);
        if s.last() == sep {
            front.push(Seq::empty())
        } else {
            front.update(front.len() - 1, front.last().push(s.last()))
        }
    }
}

/// The pieces put back together with `sep` between neighbours.
pub open spec fn join(pieces: Seq<Seq<u8>>, sep: u8) -> Seq<u8>
    decreases pieces.len(),
{
    if pieces.len() == 0 {
        Seq::empty()
    } else if pieces.len() == 1 {
        pieces[0]
    } else {
        join(pieces.drop_last(), sep) + seq![sep] + pieces.last()
    }
}

/// A line without the `RETURN` that may end it.
pub open spec fn strip_return(line: Seq<u8>) -> Seq<u8> {
    if line.len() > 0 && line.last() == RETURN {
        line.drop_last()
    } else {
        line
    }
}

/// The lines of a text. A line ends at a `NEWLINE`, and a `RETURN` right
/// before it belongs to the line end. What follows the last `NEWLINE` is a
/// line of its own unless it is empty.
pub open spec fn lines(text: Seq<u8>) -> Seq<Seq<u8>> {
    let pieces = split(text, NEWLINE);
    if pieces.last().len() == 0 {
        ended_lines(pieces)
    } else {
        ended_lines(pieces).push(pieces.last())
    }
}

/// The lines that a `NEWLINE` ends, given the pieces between the `NEWLINE`
/// bytes of a text: all pieces but the last, each without its `RETURN`.
pub open spec fn ended_lines(pieces: Seq<Seq<u8>>) -> Seq<Seq<u8>> {
    Seq::new((pieces.len() - 1) as nat, |i: int| strip_return(pieces[i]))
}

/// The values of each line of a text: a line holds one value more than it
/// holds `SPACE` bytes.
pub open spec fn rows_of(text: Seq<u8>) -> Seq<Seq<Seq<u8>>> {
    lines(text).map_values(|line: Seq<u8>| split(line, SPACE))
}

/// The text of the given rows: the values of a row with one `SPACE` between
/// neighbours, and a `NEWLINE` after each row.
pub open spec fn unlines(rows: Seq<Seq<Seq<u8>>>) -> Seq<u8>
    decreases rows.len(),
{
    if rows.len() == 0 {
        Seq::empty()
    } else {
        unlines(rows.drop_last()) + join(rows.last(), SPACE) + seq![NEWLINE]
    }
}

/// The contents of each buffer of a list.
pub open spec fn views(list: Seq<Vec<u8>>) -> Seq<Seq<u8>> {
    list.map_values(|piece: Vec<u8>| piece@)
}

/// Whether a byte is ASCII white space.
pub open spec fn is_blank(byte: u8) -> bool {
    byte == 9 || byte == 10 || byte == 11 || byte == 12 || byte == 13 || byte == 32
}

/// The number of blank bytes `s` starts with.
pub open spec fn leading_blanks(s: Seq<u8>) -> nat
    decreases s.len(),
{
    if s.len() > 0 && is_blank(s[0]) {
        1 + leading_blanks(s.drop_first())
    } else {
        0
    }
}

/// The number of blank bytes `s` ends with.
pub open spec fn trailing_blanks(s: Seq<u8>) -> nat
    decreases s.len(),
{
    if s.len() > 0 && is_blank(s.last()) {
        1 + trailing_blanks(s.drop_last())
    } else {
        0
    }
}

/// `s` without the blank bytes at its start and at its end.
pub open spec fn trim(s: Seq<u8>) -> Seq<u8> {
    let tail = s.skip(leading_blanks(s) as int);
    tail.take(tail.len() - trailing_blanks(tail))
}

/// Cuts `s` at every `sep`.
pub fn split_bytes(s: &[u8], sep: u8) -> (pieces: Vec<Vec<u8>>)
    ensures
        views(pieces@) == split(s@, sep),
{
    let mut done: Vec<Vec<u8>> = Vec::new();
    let mut piece: Vec<u8> = Vec::new();
    let mut i: usize = 0;
    assert(s@.take(0) =~= Seq::<u8>::empty());
    assert(views(done@).push(piece@) =~= split(s@.take(0), sep));
    while i < s.len()
        invariant
            i <= s.len(),
            views(done@).push(piece@) == split(s@.take(i as int), sep),
        decreases s.len() - i,
    {
        let byte: u8 = s[i];
        let ghost before = views(done@).push(piece@);
        proof {
            let upto = s@.take(i + 1);
            assert(upto.drop_last() =~= s@.take(i as int));
            assert(upto.last() == byte);
        }
        if byte == sep {
            done.push(piece);
            piece = Vec::new();
            assert(views(done@).push(piece@) =~= before.push(Seq::empty()));
        } else {
            piece.push(byte);
            assert(views(done@).push(piece@) =~= before.update(
                before.len() - 1,
                before.last().push(byte),
            ));
        }
        i += 1;
    }
    assert(s@.take(i as int) =~= s@);
    done.push(piece);
    assert(views(done@) =~= split(s@, sep));
    done
}

/// Whether `byte` occurs nowhere in `s`.
pub open spec fn free_of(s: Seq<u8>, byte: u8) -> bool {
    forall|i: int| 0 <= i < s.len() ==> s[i] != byte
}

/// Whether the rows can be written as text and read back: every row holds
/// at least one value, no value holds a `SPACE` or a `NEWLINE`, and the last
/// value of a row does not end in a `RETURN`.
pub open spec fn writable(rows: Seq<Seq<Seq<u8>>>) -> bool {
    forall|i: int|
        0 <= i < rows.len() ==> {
            &&& (#[trigger] rows[i]).len() >= 1
            &&& !(rows[i].last().len() > 0 && rows[i].last().last() == RETURN)
            &&& forall|j: int|
                0 <= j < rows[i].len() ==> free_of(#[trigger] rows[i][j], SPACE) && free_of(
                    rows[i][j],
                    NEWLINE,
                )
        }
}

/// A text without separator is its own single piece.
pub proof fn split_of_free(t: Seq<u8>, sep: u8)
    requires
        free_of(t, sep),
    ensures
        split(t, sep) == seq![t],
    decreases t.len(),
{
    if t.len() == 0 {
        assert(t =~= Seq::<u8>::empty());
    } else {
        split_of_free(t.drop_last(), sep);
        assert(t.drop_last().push(t.last()) =~= t);
        assert(split(t, sep) =~= seq![t]);
    }
}

/// Text without separator that follows `s` only lengthens the last piece of
/// `s`.
pub proof fn split_of_append(s: Seq<u8>, t: Seq<u8>, sep: u8)
    requires
        free_of(t, sep),
    ensures
        split(s, sep).len() >= 1,
        split(s + t, sep) == split(s, sep).update(split(s, sep).len() - 1, split(s, sep).last() + t),
    decreases t.len(),
{
    split_has_pieces(s, sep);
    let pieces = split(s, sep);
    if t.len() == 0 {
        assert(s + t =~= s);
        assert(pieces.last() + t =~= pieces.last());
        assert(pieces.update(pieces.len() - 1, pieces.last()) =~= pieces);
    } else {
        split_of_append(s, t.drop_last(), sep);
        assert((s + t).drop_last() =~= s + t.drop_last());
        assert((s + t).last() == t.last());
        assert((pieces.last() + t.drop_last()).push(t.last()) =~= pieces.last() + t);
        assert(split(s + t, sep) =~= pieces.update(pieces.len() - 1, pieces.last() + t));
    }
}

/// A byte that is neither the separator nor part of any piece is not part
/// of the joined text.
pub proof fn join_is_free(pieces: Seq<Seq<u8>>, sep: u8, byte: u8)
    requires
        byte != sep,
        forall|j: int| 0 <= j < pieces.len() ==> free_of(#[trigger] pieces[j], byte),
    ensures
        free_of(join(pieces, sep), byte),
    decreases pieces.len(),
{
    if pieces.len() > 1 {
        join_is_free(pieces.drop_last(), sep, byte);
    }
}

/// Joining pieces that hold no separator and splitting the result gives the
/// pieces back.
pub proof fn split_of_join(pieces: Seq<Seq<u8>>, sep: u8)
    requires
        pieces.len() >= 1,
        forall|j: int| 0 <= j < pieces.len() ==> free_of(#[trigger] pieces[j], sep),
    ensures
        split(join(pieces, sep), sep) == pieces,
    decreases pieces.len(),
{
    if pieces.len() == 1 {
        split_of_free(pieces[0], sep);
        assert(seq![pieces[0]] =~= pieces);
    } else {
        let front = pieces.drop_last();
        split_of_join(front, sep);
        let head = join(front, sep) + seq![sep];
        assert(head.drop_last() =~= join(front, sep));
        assert(split(head, sep) == front.push(Seq::empty()));
        split_of_append(head, pieces.last(), sep);
        assert(Seq::<u8>::empty() + pieces.last() =~= pieces.last());
        assert(split(join(pieces, sep), sep) =~= pieces);
    }
}

/// The last byte of a joined row is the last byte of its last value, or the
/// separator where that value is empty.
proof fn join_ends(pieces: Seq<Seq<u8>>, sep: u8)
    requires
        pieces.len() >= 1,
        join(pieces, sep).len() > 0,
    ensures
        join(pieces, sep).last() == if pieces.last().len() > 0 {
            pieces.last().last()
        } else {
            sep
        },
{
}

/// The text of each row, and an empty piece after the last `NEWLINE`.
spec fn row_texts(rows: Seq<Seq<Seq<u8>>>) -> Seq<Seq<u8>> {
    Seq::new(
        rows.len() + 1,
        |i: int|
            if i < rows.len() {
                join(rows[i], SPACE)
            } else {
                Seq::empty()
            },
    )
}

proof fn split_of_unlines(rows: Seq<Seq<Seq<u8>>>)
    requires
        writable(rows),
    ensures
        split(unlines(rows), NEWLINE) == row_texts(rows),
    decreases rows.len(),
{
    if rows.len() == 0 {
        assert(split(unlines(rows), NEWLINE) =~= row_texts(rows));
    } else {
        let front = rows.drop_last();
        split_of_unlines(front);
        let row = join(rows.last(), SPACE);
        join_is_free(rows.last(), SPACE, NEWLINE);
        split_of_append(unlines(front), row, NEWLINE);
        assert(Seq::<u8>::empty() + row =~= row);
        let text = unlines(front) + row + seq![NEWLINE];
        assert(text.drop_last() =~= unlines(front) + row);
        assert(split(text, NEWLINE) =~= row_texts(rows));
    }
}

/// Rows that are written out as text and read back are the same rows.
pub proof fn rows_round_trip(rows: Seq<Seq<Seq<u8>>>)
    requires
        writable(rows),
    ensures
        rows_of(unlines(rows)) == rows,
{
    split_of_unlines(rows);
    let found = lines(unlines(rows));
    assert(found.len() == rows.len());
    assert forall|i: int| 0 <= i < rows.len() implies split(#[trigger] found[i], SPACE) == rows[i] by {
        let row = join(rows[i], SPACE);
        if row.len() > 0 {
            join_ends(rows[i], SPACE);
        }
        assert(found[i] == row);
        split_of_join(rows[i], SPACE);
    }
    assert(rows_of(unlines(rows)) =~= rows);
}

/// A text always has at least one piece.
pub proof fn split_has_pieces(s: Seq<u8>, sep: u8)
    ensures
        split(s, sep).len() >= 1,
    decreases s.len(),
{
    if s.len() > 0 {
        split_has_pieces(s.drop_last(), sep);
    }
}

/// Cuts a text into its lines.
pub fn split_lines(text: &[u8]) -> (found: Vec<Vec<u8>>)
    ensures
        views(found@) == lines(text@),
{
    let mut done: Vec<Vec<u8>> = Vec::new();
    let mut piece: Vec<u8> = Vec::new();
    let mut i: usize = 0;
    proof {
        assert(text@.take(0) =~= Seq::<u8>::empty());
        assert(views(done@) =~= ended_lines(split(text@.take(0), NEWLINE)));
    }
    while i < text.len()
        invariant
            i <= text.len(),
            split(text@.take(i as int), NEWLINE).len() >= 1,
            views(done@) == ended_lines(split(text@.take(i as int), NEWLINE)),
            piece@ == split(text@.take(i as int), NEWLINE).last(),
        decreases text.len() - i,
    {
        let byte: u8 = text[i];
        let ghost before = split(text@.take(i as int), NEWLINE);
        let ghost after = split(text@.take(i + 1), NEWLINE);
        proof {
            let upto = text@.take(i + 1);
            assert(upto.drop_last() =~= text@.take(i as int));
            assert(upto.last() == byte);
        }
        if byte == NEWLINE {
            let n: usize = piece.len();
            if n > 0 && piece[n - 1] == RETURN {
                piece.pop();
            }
            assert(piece@ =~= strip_return(before.last()));
            let ghost ended = views(done@);
            let ghost line = piece@;
            done.push(piece);
            piece = Vec::new();
            proof {
                assert(views(done@) =~= ended.push(line));
                assert(after == before.push(Seq::empty()));
                assert forall|k: int| 0 <= k < after.len() - 1 implies ended.push(line)[k]
                    == strip_return(after[k]) by {
                    if k < before.len() - 1 {
                        assert(ended[k] == strip_return(before[k]));
                    }
                }
                assert(views(done@) =~= ended_lines(after));
            }
        } else {
            piece.push(byte);
            assert(views(done@) =~= ended_lines(after));
        }
        i += 1;
    }
    assert(text@.take(i as int) =~= text@);
    if piece.len() > 0 {
        done.push(piece);
        assert(views(done@) =~= lines(text@));
    }
    done
}

fn blank(byte: u8) -> (r: bool)
    ensures
        r == is_blank(byte),
{
    byte == 9 || byte == 10 || byte == 11 || byte == 12 || byte == 13 || byte == 32
}

/// Copies `s` without the blank bytes at its start and at its end.
pub fn trim_bytes(s: &[u8]) -> (kept: Vec<u8>)
    ensures
        kept@ == trim(s@),
{
    let n: usize = s.len();
    let mut start: usize = 0;
    assert(s@.skip(0) =~= s@);
    while start < n && blank(s[start])
        invariant
            start <= n,
            n == s@.len(),
            leading_blanks(s@) == start + leading_blanks(s@.skip(start as int)),
        decreases n - start,
    {
        proof {
            let rest = s@.skip(start as int);
            assert(rest[0] == s@[start as int]);
            assert(rest.drop_first() =~= s@.skip(start + 1));
        }
        start += 1;
    }
    proof {
        let rest = s@.skip(start as int);
        if start < n {
            assert(rest[0] == s@[start as int]);
        }
        assert(leading_blanks(rest) == 0);
    }
    let ghost tail = s@.skip(start as int);
    let mut end: usize = n;
    assert(s@.subrange(start as int, n as int) =~= tail);
    while end > start && blank(s[end - 1])
        invariant
            start <= end <= n,
            n == s@.len(),
            tail == s@.skip(start as int),
            trailing_blanks(tail) == (n - end) + trailing_blanks(s@.subrange(start as int, end as int)),
        decreases end,
    {
        proof {
            let part = s@.subrange(start as int, end as int);
            assert(part.last() == s@[end - 1]);
            assert(part.drop_last() =~= s@.subrange(start as int, end - 1));
        }
        end -= 1;
    }
    proof {
        let part = s@.subrange(start as int, end as int);
        if end > start {
            assert(part.last() == s@[end - 1]);
        }
        assert(trailing_blanks(part) == 0);
        assert(tail.take(tail.len() - trailing_blanks(tail)) =~= part);
    }
    let mut kept: Vec<u8> = Vec::new();
    let mut i: usize = start;
    while i < end
        invariant
            start <= i <= end <= n,
            n == s@.len(),
            kept@ == s@.subrange(start as int, i as int),
        decreases end - i,
    {
        kept.push(s[i]);
        assert(kept@ =~= s@.subrange(start as int, i + 1));
        i += 1;
    }
    kept
}

/// Takes apart a text that stores two matrices with a `DELIMITER` between
/// them: the first two pieces, each without the blanks around it. A text
/// without a `DELIMITER` stores no pair.
pub fn split_pair(text: &[u8]) -> (r: Option<(Vec<u8>, Vec<u8>)>)
    ensures
        split(text@, DELIMITER).len() < 2 ==> r is None,
        split(text@, DELIMITER).len() >= 2 ==> r is Some && r->Some_0.0@ == trim(
            split(text@, DELIMITER)[0],
        ) && r->Some_0.1@ == trim(split(text@, DELIMITER)[1]),
{
    let pieces: Vec<Vec<u8>> = split_bytes(text, DELIMITER);
    if pieces.len() < 2 {
        None
    } else {
        let first: Vec<u8> = trim_bytes(pieces[0].as_slice());
        let second: Vec<u8> = trim_bytes(pieces[1].as_slice());
        Some((first, second))
    }
}

} // verus!
