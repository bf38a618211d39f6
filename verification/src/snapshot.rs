//! The text snapshot of a model, and the short reports of its sums and
//! counters.
//!
//! A snapshot has seven lines. Each of the first six starts with a value and
//! goes on with a label that readers skip: the side length, the two coupling
//! constants, and the three move counters. The seventh line holds the grid,
//! one storage code per site in flat order. The coupling constants are no
//! concern of the lattice: they pass through as the tokens that stand in the
//! text. The state of the random number generator is not part of a snapshot.

use crate::array3d::Array3d;
use crate::error::{ConfigError, ParseError};
use crate::grid_text::{
    cells_text, lemma_cells_round_trip, lemma_cells_text_no_feed, parse_cells, push_cells,
    read_cells_in,
};
use crate::lattice::{lemma_side, sites_fit, SiteGrid};
use crate::model::Model;
use crate::site::{lemma_site_code_round_trip, Site};
use crate::text::{
    chars_of, int_text, is_space, lemma_first_token, lemma_int_text, lemma_nat_text_plain,
    lemma_scan_lines_line, line_ranges, lines, nat_text, no_feed, parse_int, plain_token, push_int,
    push_nat, ranges_match, read_int, scan_lines, token_ranges_in, tokens,
};
use vstd::prelude::*;
use vstd::string::{StrSliceExecFns, StringExecFns};

verus! {

/// What a snapshot holds.
pub struct SnapshotFields {
    /// The token that stands for the nearest-neighbour coupling.
    pub j_1: Seq<char>,
    /// The token that stands for the next-nearest-neighbour coupling.
    pub j_2: Seq<char>,
    /// The favourable moves counted.
    pub good_moves: u32,
    /// The unfavourable moves counted.
    pub bad_moves: u32,
    /// The rejected moves counted.
    pub rejected_moves: u32,
    /// The sites, in flat order.
    pub sites: Seq<Site>,
}

/// The storage codes of a sequence of sites.
pub open spec fn codes_of(sites: Seq<Site>) -> Seq<i8> {
    Seq::new(sites.len(), |i: int| sites[i].spin() as i8)
}

/// Whether every code stands for a site.
pub open spec fn codes_valid(codes: Seq<i8>) -> bool {
    forall|i: int| 0 <= i < codes.len() ==> Site::spec_from_raw(#[trigger] codes[i]) is Some
}

/// The sites that a sequence of valid codes stands for.
pub open spec fn sites_of(codes: Seq<i8>) -> Seq<Site> {
    Seq::new(codes.len(), |i: int| Site::spec_from_raw(codes[i])->0)
}

/// The text of a snapshot.
pub open spec fn snapshot_text(
    side: nat,
    j_1: Seq<char>,
    j_2: Seq<char>,
    counters: (u32, u32, u32),
    sites: Seq<Site>,
) -> Seq<char> {
    nat_text(side) + " model size\n"@ + j_1 + " j_1\n"@ + j_2 + " j_2\n"@ + nat_text(
        counters.0 as nat,
    ) + " good moves\n"@ + nat_text(counters.1 as nat) + " bad moves\n"@ + nat_text(
        counters.2 as nat,
    ) + " rejected moves\n"@ + cells_text(codes_of(sites)) + "\n"@
}

/// The value at the start of line `k`: its first token.
pub open spec fn first_token(ls: Seq<Seq<char>>, k: int) -> Result<Seq<char>, ParseError> {
    if k >= ls.len() {
        Err(ParseError::MissingLine)
    } else if tokens(ls[k]).len() == 0 {
        Err(ParseError::MissingValue)
    } else {
        Ok(tokens(ls[k])[0])
    }
}

/// The number at the start of line `k`, if it is one between zero and `hi`.
pub open spec fn number_field(ls: Seq<Seq<char>>, k: int, hi: int) -> Result<int, ParseError> {
    match first_token(ls, k) {
        Err(e) => Err(e),
        Ok(token) => match parse_int(token, false, 0, hi) {
            Some(v) => Ok(v),
            None => Err(ParseError::InvalidNumber),
        },
    }
}

/// The sites that the grid line of a snapshot reads as, for a lattice of
/// side `s`: one code per site, each code standing for a site that fits its
/// point. A lattice of odd or zero side has no such sites.
pub open spec fn parse_sites(line: Seq<char>, s: int) -> Result<Seq<Site>, ParseError> {
    match parse_cells(line, (s * s * s) as nat) {
        Err(e) => Err(e),
        Ok(codes) => if codes_valid(codes) && s > 0 && s % 2 == 0 && sites_fit(sites_of(codes), s) {
            Ok(sites_of(codes))
        } else {
            Err(ParseError::InvalidSite)
        },
    }
}

/// What a text reads as, for a model of side `s`. The fields are read in the
/// order of their lines, and the first fault decides the error.
pub open spec fn parse_snapshot(text: Seq<char>, s: int) -> Result<SnapshotFields, ParseError> {
    let ls = lines(text);
    let side = number_field(ls, 0, usize::MAX as int);
    let j_1 = first_token(ls, 1);
    let j_2 = first_token(ls, 2);
    let good = number_field(ls, 3, u32::MAX as int);
    let bad = number_field(ls, 4, u32::MAX as int);
    let rejected = number_field(ls, 5, u32::MAX as int);
    if side is Err {
        Err(side->Err_0)
    } else if side->Ok_0 != s {
        Err(ParseError::SizeMismatch)
    } else if j_1 is Err {
        Err(j_1->Err_0)
    } else if j_2 is Err {
        Err(j_2->Err_0)
    } else if good is Err {
        Err(good->Err_0)
    } else if bad is Err {
        Err(bad->Err_0)
    } else if rejected is Err {
        Err(rejected->Err_0)
    } else if ls.len() <= 6 {
        Err(ParseError::MissingLine)
    } else {
        match parse_sites(ls[6], s) {
            Err(e) => Err(e),
            Ok(sites) => Ok(
                SnapshotFields {
                    j_1: j_1->Ok_0,
                    j_2: j_2->Ok_0,
                    good_moves: good->Ok_0 as u32,
                    bad_moves: bad->Ok_0 as u32,
                    rejected_moves: rejected->Ok_0 as u32,
                    sites,
                },
            ),
        }
    }
}

/// The text of the report of the two sums.
pub open spec fn neighbours_report(nearest: int, next_nearest: int) -> Seq<char> {
    "nearest neighbours sum: "@ + int_text(nearest) + "\nnext nearest neighbours sum: "@
        + int_text(next_nearest) + "\n"@
}

/// The text of the report of the three counters.
pub open spec fn counters_report(counters: (u32, u32, u32)) -> Seq<char> {
    "good moves: "@ + nat_text(counters.0 as nat) + "\nbad moves: "@ + nat_text(counters.1 as nat)
        + "\nrejected moves: "@ + nat_text(counters.2 as nat) + "\n"@
}

/// Whether `label` can follow a value on its line: a space, then text
/// without line feeds, then the line feed that ends the line.
pub open spec fn is_label(label: Seq<char>) -> bool {
    &&& label.len() >= 2
    &&& label[0] == ' '
    &&& label.last() == '\n'
    &&& no_feed(label.drop_last())
}

/// The labels that a snapshot writes after its values are labels.
proof fn lemma_labels()
    ensures
        is_label(" model size\n"@),
        is_label(" j_1\n"@),
        is_label(" j_2\n"@),
        is_label(" good moves\n"@),
        is_label(" bad moves\n"@),
        is_label(" rejected moves\n"@),
        "\n"@ == seq!['\n'],
{
    reveal_strlit(" model size\n");
    reveal_strlit(" j_1\n");
    reveal_strlit(" j_2\n");
    reveal_strlit(" good moves\n");
    reveal_strlit(" bad moves\n");
    reveal_strlit(" rejected moves\n");
    reveal_strlit("\n");
    assert(" model size\n"@ =~= seq![' ', 'm', 'o', 'd', 'e', 'l', ' ', 's', 'i', 'z', 'e', '\n']);
    assert(" j_1\n"@ =~= seq![' ', 'j', '_', '1', '\n']);
    assert(" j_2\n"@ =~= seq![' ', 'j', '_', '2', '\n']);
    assert(" good moves\n"@ =~= seq![' ', 'g', 'o', 'o', 'd', ' ', 'm', 'o', 'v', 'e', 's', '\n']);
    assert(" bad moves\n"@ =~= seq![' ', 'b', 'a', 'd', ' ', 'm', 'o', 'v', 'e', 's', '\n']);
    assert(" rejected moves\n"@ =~= seq![
        ' ',
        'r',
        'e',
        'j',
        'e',
        'c',
        't',
        'e',
        'd',
        ' ',
        'm',
        'o',
        'v',
        'e',
        's',
        '\n',
    ]);
    assert("\n"@ =~= seq!['\n']);
}

/// A value and its label, written after a text that ends in a line feed (or
/// is empty), add one line, and the value is the first token of that line.
proof fn lemma_add_field(
    prefix: Seq<char>,
    done: Seq<Seq<char>>,
    value: Seq<char>,
    label: Seq<char>,
)
    requires
        scan_lines(prefix) == (done, Seq::<char>::empty()),
        plain_token(value),
        is_label(label),
    ensures
        scan_lines(prefix + value + label) == (
            done.push(value + label.drop_last()),
            Seq::<char>::empty(),
        ),
        first_token(done.push(value + label.drop_last()), done.len() as int) == Ok::<
            Seq<char>,
            ParseError,
        >(value),
{
    let body = label.drop_last();
    let line = value + body;
    assert(no_feed(line)) by {
        assert forall|i: int| 0 <= i < line.len() implies #[trigger] line[i] != '\n' by {
            if i < value.len() {
                assert(!is_space(value[i]));
            } else {
                assert(line[i] == body[i - value.len()]);
            }
        }
    }
    lemma_scan_lines_line(prefix, line);
    assert(prefix + value + label =~= prefix + line + seq!['\n']);
    assert(Seq::<char>::empty() + line =~= line);
    assert(is_space(' '));
    lemma_first_token(value, body);
}

/// Round trip of the snapshot: the text written for a lattice that obeys the
/// sublattice rule reads back as the same sites, the same counters and the
/// same two coupling tokens, whenever the coupling tokens are tokens.
pub proof fn lemma_snapshot_round_trip(
    side: nat,
    j_1: Seq<char>,
    j_2: Seq<char>,
    counters: (u32, u32, u32),
    sites: Seq<Site>,
)
    requires
        0 < side <= usize::MAX,
        side % 2 == 0,
        sites.len() == side * side * side,
        sites_fit(sites, side as int),
        plain_token(j_1),
        plain_token(j_2),
    ensures
        parse_snapshot(snapshot_text(side, j_1, j_2, counters, sites), side as int) == Ok::<
            SnapshotFields,
            ParseError,
        >(
            SnapshotFields {
                j_1,
                j_2,
                good_moves: counters.0,
                bad_moves: counters.1,
                rejected_moves: counters.2,
                sites,
            },
        ),
{
    lemma_labels();
    let v0 = nat_text(side);
    let v3 = nat_text(counters.0 as nat);
    let v4 = nat_text(counters.1 as nat);
    let v5 = nat_text(counters.2 as nat);
    lemma_nat_text_plain(side);
    lemma_nat_text_plain(counters.0 as nat);
    lemma_nat_text_plain(counters.1 as nat);
    lemma_nat_text_plain(counters.2 as nat);
    let l0 = " model size\n"@;
    let l1 = " j_1\n"@;
    let l2 = " j_2\n"@;
    let l3 = " good moves\n"@;
    let l4 = " bad moves\n"@;
    let l5 = " rejected moves\n"@;
    let e = Seq::<char>::empty();
    let d0 = Seq::<Seq<char>>::empty();
    let head0 = e + v0 + l0;
    lemma_add_field(e, d0, v0, l0);
    let d1 = d0.push(v0 + l0.drop_last());
    let head1 = head0 + j_1 + l1;
    lemma_add_field(head0, d1, j_1, l1);
    let d2 = d1.push(j_1 + l1.drop_last());
    let head2 = head1 + j_2 + l2;
    lemma_add_field(head1, d2, j_2, l2);
    let d3 = d2.push(j_2 + l2.drop_last());
    let head3 = head2 + v3 + l3;
    lemma_add_field(head2, d3, v3, l3);
    let d4 = d3.push(v3 + l3.drop_last());
    let head4 = head3 + v4 + l4;
    lemma_add_field(head3, d4, v4, l4);
    let d5 = d4.push(v4 + l4.drop_last());
    let head5 = head4 + v5 + l5;
    lemma_add_field(head4, d5, v5, l5);
    let d6 = d5.push(v5 + l5.drop_last());
    let codes = codes_of(sites);
    let grid = cells_text(codes);
    lemma_cells_text_no_feed(codes);
    lemma_scan_lines_line(head5, grid);
    assert(e + grid =~= grid);
    let text = snapshot_text(side, j_1, j_2, counters, sites);
    assert(e + v0 =~= v0);
    assert(text =~= head5 + grid + seq!['\n']);
    let ls = lines(text);
    assert(ls == d6.push(grid).push(e));
    assert(ls.len() == 8);
    assert(ls[0] == v0 + l0.drop_last());
    assert(ls[1] == j_1 + l1.drop_last());
    assert(ls[2] == j_2 + l2.drop_last());
    assert(ls[3] == v3 + l3.drop_last());
    assert(ls[4] == v4 + l4.drop_last());
    assert(ls[5] == v5 + l5.drop_last());
    assert(ls[6] == grid);
    assert(first_token(ls, 0) == Ok::<Seq<char>, ParseError>(v0)) by {
        assert(d1[0] == ls[0]);
    }
    assert(first_token(ls, 1) == Ok::<Seq<char>, ParseError>(j_1)) by {
        assert(d2[1] == ls[1]);
    }
    assert(first_token(ls, 2) == Ok::<Seq<char>, ParseError>(j_2)) by {
        assert(d3[2] == ls[2]);
    }
    assert(first_token(ls, 3) == Ok::<Seq<char>, ParseError>(v3)) by {
        assert(d4[3] == ls[3]);
    }
    assert(first_token(ls, 4) == Ok::<Seq<char>, ParseError>(v4)) by {
        assert(d5[4] == ls[4]);
    }
    assert(first_token(ls, 5) == Ok::<Seq<char>, ParseError>(v5)) by {
        assert(d6[5] == ls[5]);
    }
    lemma_int_text(side as int, false, 0, usize::MAX as int);
    lemma_int_text(counters.0 as int, false, 0, u32::MAX as int);
    lemma_int_text(counters.1 as int, false, 0, u32::MAX as int);
    lemma_int_text(counters.2 as int, false, 0, u32::MAX as int);
    lemma_cells_round_trip(codes);
    assert(codes.len() == ((side as int) * (side as int) * (side as int)) as nat);
    assert forall|i: int| 0 <= i < codes.len() implies Site::spec_from_raw(#[trigger] codes[i])
        == Some(sites[i]) by {
        lemma_site_code_round_trip(sites[i], sites[i]);
    }
    assert(sites_of(codes) =~= sites);
}

/// Finds the first token of line `k`.
fn find_field(chars: &Vec<char>, line_list: &Vec<(usize, usize)>, k: usize) -> (r: Result<
    (usize, usize),
    ParseError,
>)
    requires
        ranges_match(chars@, line_list@, lines(chars@)),
    ensures
        match first_token(lines(chars@), k as int) {
            Ok(token) => r matches Ok(range) && range.0 <= range.1 <= chars@.len()
                && chars@.subrange(range.0 as int, range.1 as int) == token,
            Err(e) => r == Err::<(usize, usize), ParseError>(e),
        },
{
    if k >= line_list.len() {
        return Err(ParseError::MissingLine);
    }
    let line: (usize, usize) = line_list[k];
    let found: Vec<(usize, usize)> = token_ranges_in(chars, line.0, line.1);
    if found.len() == 0 {
        return Err(ParseError::MissingValue);
    }
    Ok(found[0])
}

/// Reads the number at the start of line `k`.
fn read_field(chars: &Vec<char>, line_list: &Vec<(usize, usize)>, k: usize, hi: u64) -> (r: Result<
    u64,
    ParseError,
>)
    requires
        ranges_match(chars@, line_list@, lines(chars@)),
    ensures
        match number_field(lines(chars@), k as int, hi as int) {
            Ok(v) => r == Ok::<u64, ParseError>(v as u64),
            Err(e) => r == Err::<u64, ParseError>(e),
        },
{
    match find_field(chars, line_list, k) {
        Err(e) => Err(e),
        Ok(range) => match read_int(chars, range.0, range.1, false, 0, hi as i128) {
            Some(v) => Ok(v as u64),
            None => Err(ParseError::InvalidNumber),
        },
    }
}

/// Decodes the storage codes of a grid line.
fn decode_sites(codes: &Vec<i8>) -> (r: Option<Vec<Site>>)
    ensures
        r is Some <==> codes_valid(codes@),
        r matches Some(v) ==> v@ == sites_of(codes@),
{
    let n: usize = codes.len();
    let mut sites: Vec<Site> = Vec::new();
    let mut i: usize = 0;
    while i < n
        invariant
            i <= n,
            n == codes@.len(),
            sites@.len() == i,
            forall|k: int| 0 <= k < i ==> Site::spec_from_raw(#[trigger] codes@[k]) == Some(sites@[k]),
        decreases n - i,
    {
        match Site::from_raw(codes[i]) {
            Some(site) => {
                sites.push(site);
            },
            None => {
                return None;
            },
        }
        i += 1;
    }
    proof {
        assert(sites@ =~= sites_of(codes@));
    }
    Some(sites)
}

/// Encodes the sites of a grid as storage codes.
fn encode_sites(sites: &[Site]) -> (codes: Vec<i8>)
    ensures
        codes@ == codes_of(sites@),
{
    let n: usize = sites.len();
    let mut codes: Vec<i8> = Vec::new();
    let mut i: usize = 0;
    while i < n
        invariant
            i <= n,
            n == sites@.len(),
            codes@.len() == i,
            forall|k: int| 0 <= k < i ==> #[trigger] codes@[k] == sites@[k].spin(),
        decreases n - i,
    {
        codes.push(sites[i].to_raw());
        i += 1;
    }
    proof {
        assert(codes@ =~= codes_of(sites@));
    }
    codes
}

impl<const S: usize> Model<S> {
    /// Writes the snapshot of the model. `j_1` and `j_2` are the texts of
    /// the two coupling constants; they are written as they are.
    pub fn safe_to_txt(&self, j_1: &str, j_2: &str) -> (out: String)
        requires
            self.wf(),
        ensures
            out@ == snapshot_text(S as nat, j_1@, j_2@, self.counters(), self.sites()),
    {
        let mut out: String = String::new();
        push_nat(&mut out, S as u128);
        out.append(" model size\n");
        out.append(j_1);
        out.append(" j_1\n");
        out.append(j_2);
        out.append(" j_2\n");
        push_nat(&mut out, self.good_moves() as u128);
        out.append(" good moves\n");
        push_nat(&mut out, self.bad_moves() as u128);
        out.append(" bad moves\n");
        push_nat(&mut out, self.rejected_moves() as u128);
        out.append(" rejected moves\n");
        let codes: Vec<i8> = encode_sites(self.grid().as_flat_slice());
        push_cells(&mut out, codes.as_slice());
        out.append("\n");
        out
    }

    /// Reads a model back from the text of a snapshot. Returns the model
    /// and the tokens that stand for the two coupling constants. The sums
    /// are computed by a full scan; the random number generator is seeded
    /// afresh by the operating system. A text that reads as a model is
    /// refused with `NoEntropy` if the system gives no entropy; every other
    /// error is a fault of the text.
    pub fn from_txt(text: &str) -> (r: Result<(Self, String, String), ParseError>)
        requires
            Self::fits(),
        ensures
            match parse_snapshot(text@, S as int) {
                Ok(fields) => match r {
                    Ok(got) => {
                        &&& got.0.wf()
                        &&& got.0.sites() == fields.sites
                        &&& got.0.counters() == (
                            fields.good_moves,
                            fields.bad_moves,
                            fields.rejected_moves,
                        )
                        &&& got.0.waiting() is None
                        &&& got.1@ == fields.j_1
                        &&& got.2@ == fields.j_2
                    },
                    Err(found) => found == ParseError::NoEntropy,
                },
                Err(e) => r matches Err(found) && found == e && e != ParseError::NoEntropy,
            },
    {
        let chars: Vec<char> = chars_of(text);
        let line_list: Vec<(usize, usize)> = line_ranges(&chars);
        let side: u64 = match read_field(&chars, &line_list, 0, usize::MAX as u64) {
            Ok(v) => v,
            Err(e) => {
                return Err(e);
            },
        };
        if side != S as u64 {
            return Err(ParseError::SizeMismatch);
        }
        let j_1: (usize, usize) = match find_field(&chars, &line_list, 1) {
            Ok(range) => range,
            Err(e) => {
                return Err(e);
            },
        };
        let j_2: (usize, usize) = match find_field(&chars, &line_list, 2) {
            Ok(range) => range,
            Err(e) => {
                return Err(e);
            },
        };
        let good: u64 = match read_field(&chars, &line_list, 3, u32::MAX as u64) {
            Ok(v) => v,
            Err(e) => {
                return Err(e);
            },
        };
        let bad: u64 = match read_field(&chars, &line_list, 4, u32::MAX as u64) {
            Ok(v) => v,
            Err(e) => {
                return Err(e);
            },
        };
        let rejected: u64 = match read_field(&chars, &line_list, 5, u32::MAX as u64) {
            Ok(v) => v,
            Err(e) => {
                return Err(e);
            },
        };
        if line_list.len() <= 6 {
            return Err(ParseError::MissingLine);
        }
        let grid_line: (usize, usize) = line_list[6];
        if S % 2 != 0 || S == 0 {
            proof {
                Self::lemma_no_sites(lines(chars@)[6]);
            }
            return match Self::cells_of_line(&chars, grid_line) {
                Err(e) => Err(e),
                Ok(_) => Err(ParseError::InvalidSite),
            };
        }
        proof {
            lemma_side(S as int);
            assert(S * S * S == (S as int) * (S as int) * (S as int));
        }
        let codes: Vec<i8> = match Self::cells_of_line(&chars, grid_line) {
            Ok(v) => v,
            Err(e) => {
                return Err(e);
            },
        };
        let sites: Vec<Site> = match decode_sites(&codes) {
            Some(v) => v,
            None => {
                return Err(ParseError::InvalidSite);
            },
        };
        let grid: SiteGrid<S> = match Array3d::from_flat(sites) {
            Some(g) => g,
            None => {
                return Err(ParseError::InvalidSite);
            },
        };
        let model: Self = match Self::from_parts(grid, good as u32, bad as u32, rejected as u32, None) {
            Ok(m) => m,
            Err(ConfigError::NoEntropy) => {
                return Err(ParseError::NoEntropy);
            },
            Err(_) => {
                return Err(ParseError::InvalidSite);
            },
        };
        let first: String = String::from_str(text.substring_char(j_1.0, j_1.1));
        let second: String = String::from_str(text.substring_char(j_2.0, j_2.1));
        Ok((model, first, second))
    }

    /// Reads the codes of the grid line.
    fn cells_of_line(chars: &Vec<char>, line: (usize, usize)) -> (r: Result<Vec<i8>, ParseError>)
        requires
            line.0 <= line.1 <= chars@.len(),
            S * S * S <= usize::MAX,
        ensures
            match parse_cells(
                chars@.subrange(line.0 as int, line.1 as int),
                ((S as int) * (S as int) * (S as int)) as nat,
            ) {
                Ok(cells) => r matches Ok(v) && v@ == cells,
                Err(e) => r == Err::<Vec<i8>, ParseError>(e),
            },
    {
        assert(S * S <= S * S * S || S == 0) by (nonlinear_arith);
        assert(S * S * S == (S as int) * (S as int) * (S as int));
        let n: usize = S * S * S;
        read_cells_in(chars, line.0, line.1, n)
    }

    /// No grid line reads as the sites of a lattice of odd or zero side.
    proof fn lemma_no_sites(line: Seq<char>)
        requires
            S % 2 != 0 || S == 0,
        ensures
            parse_sites(line, S as int) is Err,
            parse_cells(line, ((S as int) * (S as int) * (S as int)) as nat) is Ok ==> parse_sites(
                line,
                S as int,
            ) == Err::<Seq<Site>, ParseError>(ParseError::InvalidSite),
            parse_cells(line, ((S as int) * (S as int) * (S as int)) as nat) matches Err(e)
                ==> parse_sites(line, S as int) == Err::<Seq<Site>, ParseError>(e),
    {
    }

    /// The report of the two sums that the model keeps, one per line.
    pub fn neighbours_text(&self) -> (out: String)
        ensures
            out@ == neighbours_report(self.kept_nearest(), self.kept_next_nearest()),
    {
        let mut out: String = String::new();
        out.append("nearest neighbours sum: ");
        push_int(&mut out, self.nearest_neighbours() as i128);
        out.append("\nnext nearest neighbours sum: ");
        push_int(&mut out, self.next_nearest_neighbours() as i128);
        out.append("\n");
        out
    }

    /// The report of the three move counters, one per line.
    pub fn counters_text(&self) -> (out: String)
        ensures
            out@ == counters_report(self.counters()),
    {
        let mut out: String = String::new();
        out.append("good moves: ");
        push_nat(&mut out, self.good_moves() as u128);
        out.append("\nbad moves: ");
        push_nat(&mut out, self.bad_moves() as u128);
        out.append("\nrejected moves: ");
        push_nat(&mut out, self.rejected_moves() as u128);
        out.append("\n");
        out
    }
}

} // verus!
