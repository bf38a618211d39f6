//! Text form of a grid of small integers: the cells in flat order, written
//! in decimal and separated by single spaces.

use crate::array3d::Array3d;
use crate::error::ParseError;
use crate::text::{
    chars_of, int_text, is_space, lemma_int_text, lemma_int_text_no_feed, lemma_scan_tokens_word,
    no_feed, parse_int, push_int, ranges_match, read_int, scan_tokens, token_ranges_in, tokens,
};
use vstd::prelude::*;
use vstd::string::StringExecFns;

verus! {

/// The text of a sequence of cells: each value written in decimal, with one
/// space between neighbours and none at either end.
pub open spec fn cells_text(cells: Seq<i8>) -> Seq<char>
    decreases cells.len(),
{
    if cells.len() == 0 {
        Seq::empty()
    } else if cells.len() == 1 {
        int_text(cells[0] as int)
    } else {
        cells_text(cells.drop_last()) + seq![' '] + int_text(cells.last() as int)
    }
}

/// The cell value that a token reads as, if any.
pub open spec fn read_cell(token: Seq<char>) -> Option<int> {
    parse_int(token, true, i8::MIN as int, i8::MAX as int)
}

/// What a text reads as, for a grid of `n` cells.
///
/// The text reads as a grid exactly when it holds `n` tokens and every one
/// of them reads as a cell value; the tokens are then the cells in flat
/// order. The tokens are read one after the other, as far as there are
/// cells for them: if one of these does not read as a cell value, the text
/// is rejected with `InvalidNumber`. Otherwise a text with fewer than `n`
/// tokens is rejected with `TooFewCells`, and one with more with
/// `TooManyCells`.
pub open spec fn parse_cells(s: Seq<char>, n: nat) -> Result<Seq<i8>, ParseError> {
    let toks = tokens(s);
    let used = if toks.len() < n {
        toks.len()
    } else {
        n
    };
    if exists|i: int| 0 <= i < used && read_cell(#[trigger] toks[i]) is None {
        Err(ParseError::InvalidNumber)
    } else if toks.len() < n {
        Err(ParseError::TooFewCells)
    } else if toks.len() > n {
        Err(ParseError::TooManyCells)
    } else {
        Ok(Seq::new(n, |i: int| read_cell(toks[i])->0 as i8))
    }
}

/// A text reads as a grid exactly when it holds one token per cell and
/// every token reads as a cell value.
pub proof fn lemma_parse_cells_ok(s: Seq<char>, n: nat)
    ensures
        parse_cells(s, n) is Ok <==> tokens(s).len() == n && forall|i: int|
            0 <= i < n ==> read_cell(#[trigger] tokens(s)[i]) is Some,
        parse_cells(s, n) matches Ok(cells) ==> cells.len() == n && forall|i: int|
            0 <= i < n ==> read_cell(tokens(s)[i]) == Some(#[trigger] cells[i] as int),
{
    let toks = tokens(s);
    if parse_cells(s, n) is Ok {
        let cells = parse_cells(s, n)->Ok_0;
        assert forall|i: int| 0 <= i < n implies read_cell(toks[i]) == Some(
            #[trigger] cells[i] as int,
        ) by {
            assert(read_cell(toks[i]) is Some);
        }
    }
}

/// The texts of the single cells, in order.
pub open spec fn cell_texts(cells: Seq<i8>) -> Seq<Seq<char>> {
    Seq::new(cells.len(), |i: int| int_text(cells[i] as int))
}

/// The text of a non-empty sequence of cells scans into the texts of its
/// cells: all but the last closed, the last still open.
proof fn lemma_scan_cells_text(cells: Seq<i8>)
    requires
        cells.len() > 0,
    ensures
        scan_tokens(cells_text(cells)) == (
            cell_texts(cells).drop_last(),
            int_text(cells.last() as int),
        ),
    decreases cells.len(),
{
    let last = int_text(cells.last() as int);
    lemma_int_text(cells.last() as int, true, i8::MIN as int, i8::MAX as int);
    if cells.len() == 1 {
        assert(cells.last() == cells[0]);
        lemma_scan_tokens_word(Seq::empty(), last);
        assert(Seq::<char>::empty() + last =~= last);
        assert(cell_texts(cells).drop_last() =~= Seq::<Seq<char>>::empty());
    } else {
        let head = cells.drop_last();
        lemma_scan_cells_text(head);
        let t = cells_text(head);
        let spaced = t + seq![' '];
        assert(spaced.drop_last() =~= t);
        assert(spaced.last() == ' ');
        assert(is_space(' '));
        lemma_int_text(head.last() as int, true, i8::MIN as int, i8::MAX as int);
        assert(scan_tokens(spaced) == (
            cell_texts(head).drop_last().push(int_text(head.last() as int)),
            Seq::<char>::empty(),
        ));
        lemma_scan_tokens_word(spaced, last);
        assert(Seq::<char>::empty() + last =~= last);
        assert(cell_texts(head).drop_last().push(int_text(head.last() as int)) =~= cell_texts(
            cells,
        ).drop_last());
    }
}

/// The tokens of the text of a sequence of cells are the texts of its cells.
pub proof fn lemma_tokens_of_cells_text(cells: Seq<i8>)
    ensures
        tokens(cells_text(cells)) == cell_texts(cells),
{
    if cells.len() == 0 {
        assert(tokens(cells_text(cells)) =~= cell_texts(cells));
    } else {
        lemma_scan_cells_text(cells);
        lemma_int_text(cells.last() as int, true, i8::MIN as int, i8::MAX as int);
        assert(cell_texts(cells).drop_last().push(int_text(cells.last() as int)) =~= cell_texts(
            cells,
        ));
    }
}

/// Round trip: the text of any sequence of cells reads back as exactly that
/// sequence, cell for cell.
pub proof fn lemma_cells_round_trip(cells: Seq<i8>)
    ensures
        parse_cells(cells_text(cells), cells.len()) == Ok::<Seq<i8>, ParseError>(cells),
{
    lemma_tokens_of_cells_text(cells);
    let toks = tokens(cells_text(cells));
    assert forall|i: int| 0 <= i < cells.len() implies read_cell(#[trigger] toks[i]) == Some(
        cells[i] as int,
    ) by {
        lemma_int_text(cells[i] as int, true, i8::MIN as int, i8::MAX as int);
    }
    assert(Seq::new(cells.len(), |i: int| read_cell(toks[i])->0 as i8) =~= cells);
}

/// The text of a sequence of cells holds no line feed.
pub proof fn lemma_cells_text_no_feed(cells: Seq<i8>)
    ensures
        no_feed(cells_text(cells)),
    decreases cells.len(),
{
    if cells.len() == 0 {
    } else if cells.len() == 1 {
        lemma_int_text_no_feed(cells[0] as int);
    } else {
        lemma_cells_text_no_feed(cells.drop_last());
        lemma_int_text_no_feed(cells.last() as int);
    }
}

/// Appends the text of `cells` to `out`.
pub fn push_cells(out: &mut String, cells: &[i8])
    ensures
        final(out)@ == old(out)@ + cells_text(cells@),
{
    let n: usize = cells.len();
    let mut i: usize = 0;
    while i < n
        invariant
            i <= n,
            n == cells@.len(),
            out@ == old(out)@ + cells_text(cells@.take(i as int)),
        decreases n - i,
    {
        proof {
            reveal_strlit(" ");
            assert(cells@.take(i + 1).drop_last() =~= cells@.take(i as int));
            assert(cells@.take(i + 1).last() == cells@[i as int]);
        }
        let ghost before = out@;
        if i > 0 {
            out.append(" ");
        }
        push_int(out, cells[i] as i128);
        proof {
            if i == 0 {
                assert(cells@.take(1)[0] == cells@[0]);
                assert(cells_text(cells@.take(0)) =~= Seq::<char>::empty());
                assert(out@ =~= old(out)@ + cells_text(cells@.take(1)));
            } else {
                assert(out@ =~= old(out)@ + cells_text(cells@.take(i + 1)));
            }
        }
        i += 1;
    }
    proof {
        assert(cells@.take(n as int) =~= cells@);
    }
}

/// Reads the tokens of the part `chars[from..to]` of a text, which must be
/// exactly `n`, as cell values.
pub fn read_cells_in(chars: &Vec<char>, from: usize, to: usize, n: usize) -> (r: Result<
    Vec<i8>,
    ParseError,
>)
    requires
        from <= to <= chars@.len(),
    ensures
        match parse_cells(chars@.subrange(from as int, to as int), n as nat) {
            Ok(cells) => r matches Ok(v) && v@ == cells,
            Err(e) => r == Err::<Vec<i8>, ParseError>(e),
        },
{
    let ranges: Vec<(usize, usize)> = token_ranges_in(chars, from, to);
    let ghost toks = tokens(chars@.subrange(from as int, to as int));
    let mut cells: Vec<i8> = Vec::new();
    let mut i: usize = 0;
    while i < n && i < ranges.len()
        invariant
            i <= n,
            i <= ranges@.len(),
            from <= to <= chars@.len(),
            toks == tokens(chars@.subrange(from as int, to as int)),
            ranges_match(chars@, ranges@, toks),
            cells@.len() == i,
            forall|k: int| 0 <= k < i ==> read_cell(#[trigger] toks[k]) == Some(cells@[k] as int),
        decreases n - i,
    {
        let range: (usize, usize) = ranges[i];
        assert(chars@.subrange(range.0 as int, range.1 as int) == toks[i as int]);
        match read_int(chars, range.0, range.1, true, -128, 127) {
            Some(v) => {
                cells.push(v as i8);
            },
            None => {
                assert(read_cell(toks[i as int]) is None);
                return Err(ParseError::InvalidNumber);
            },
        }
        i += 1;
    }
    if i < n {
        return Err(ParseError::TooFewCells);
    }
    if ranges.len() > n {
        return Err(ParseError::TooManyCells);
    }
    proof {
        assert(cells@ =~= Seq::new(n as nat, |k: int| read_cell(toks[k])->0 as i8));
    }
    Ok(cells)
}

impl<const W: usize, const H: usize, const D: usize> Array3d<i8, W, H, D> {
    /// Writes the grid as text: the cells in flat order, in decimal, with a
    /// single space between neighbours.
    pub fn as_string(&self) -> (out: String)
        ensures
            out@ == cells_text(self@),
    {
        let mut out: String = String::new();
        push_cells(&mut out, self.as_flat_slice());
        assert(out@ =~= cells_text(self@));
        out
    }

    /// Reads a grid back from text: its whitespace-separated tokens, which
    /// must be exactly `W * H * D`, are the cells in flat order.
    pub fn from_string(string: &str) -> (r: Result<Self, ParseError>)
        requires
            Self::dims_ok(),
        ensures
            match parse_cells(string@, Self::spec_len() as nat) {
                Ok(cells) => r matches Ok(g) && g.wf() && g@ == cells,
                Err(e) => r == Err::<Self, ParseError>(e),
            },
    {
        let chars: Vec<char> = chars_of(string);
        proof {
            assert(chars@.subrange(0, chars@.len() as int) =~= chars@);
        }
        match read_cells_in(&chars, 0, chars.len(), Self::len()) {
            Ok(cells) => match Self::from_flat(cells) {
                Some(g) => Ok(g),
                None => Err(ParseError::TooFewCells),
            },
            Err(e) => Err(e),
        }
    }
}

} // verus!
