//! Decimal integers and whitespace-separated tokens, as text.
//!
//! Everything here is stated over sequences of characters: how an integer is
//! written, which strings read back as which integer, and how a text falls
//! apart into tokens and lines.

use vstd::prelude::*;
use vstd::string::StringExecFns;

verus! {

/// The characters that separate tokens: the Unicode `White_Space` set.
pub open spec fn is_space(c: char) -> bool {
    let u = c as u32;
    ||| 0x09 <= u <= 0x0D
    ||| u == 0x20
    ||| u == 0x85
    ||| u == 0xA0
    ||| u == 0x1680
    ||| 0x2000 <= u <= 0x200A
    ||| u == 0x2028
    ||| u == 0x2029
    ||| u == 0x202F
    ||| u == 0x205F
    ||| u == 0x3000
}

/// Whether `c` is one of the ten decimal digits.
pub open spec fn is_digit(c: char) -> bool {
    0x30 <= c as u32 <= 0x39
}

/// The value of a decimal digit.
pub open spec fn digit_value(c: char) -> nat {
    (c as u32 - 0x30) as nat
}

/// The digit that writes `d`, for `d` below ten.
pub open spec fn digit_char(d: nat) -> char {
    ((0x30 + d) as u32) as char
}

/// The decimal digits of `n`, most significant first, without leading zeros
/// (the number zero is written as the single digit `0`).
pub open spec fn nat_text(n: nat) -> Seq<char>
    decreases n,
{
    if n < 10 {
        seq![digit_char(n)]
    } else {
        nat_text(n / 10).push(digit_char(n % 10))
    }
}

/// How an integer is written: a minus sign for negative numbers, then the
/// digits of its magnitude.
pub open spec fn int_text(v: int) -> Seq<char> {
    if v < 0 {
        seq!['-'] + nat_text((-v) as nat)
    } else {
        nat_text(v as nat)
    }
}

/// The number that a string of digits writes (leading zeros allowed).
pub open spec fn digits_value(s: Seq<char>) -> nat
    decreases s.len(),
{
    if s.len() == 0 {
        0
    } else {
        digits_value(s.drop_last()) * 10 + digit_value(s.last())
    }
}

/// Whether every character of `s` is a decimal digit.
pub open spec fn all_digits(s: Seq<char>) -> bool {
    forall|i: int| 0 <= i < s.len() ==> is_digit(#[trigger] s[i])
}

/// Whether no character of `s` separates tokens.
pub open spec fn no_space(s: Seq<char>) -> bool {
    forall|i: int| 0 <= i < s.len() ==> !is_space(#[trigger] s[i])
}

/// Whether no character of `s` is a line feed.
pub open spec fn no_feed(s: Seq<char>) -> bool {
    forall|i: int| 0 <= i < s.len() ==> #[trigger] s[i] != '\n'
}

/// Whether `t` can stand as one token: it is not empty and holds no
/// separator.
pub open spec fn plain_token(t: Seq<char>) -> bool {
    t.len() > 0 && no_space(t)
}

/// Whether `s` starts with a minus sign that is accepted as a sign.
pub open spec fn has_minus(s: Seq<char>, signed: bool) -> bool {
    signed && s.len() > 0 && s[0] == '-'
}

/// What follows the sign of `s`, or all of `s` when it has no sign.
pub open spec fn unsigned_part(s: Seq<char>, signed: bool) -> Seq<char> {
    if s.len() > 0 && (s[0] == '+' || has_minus(s, signed)) {
        s.drop_first()
    } else {
        s
    }
}

/// The integer that `s` reads as, when it is one within `lo..=hi`.
///
/// The accepted form is an optional sign followed by at least one digit and
/// nothing else: `+` is always accepted, `-` only when `signed`. Anything
/// else (empty text, a lone sign, an inner space, a value out of range) reads
/// as nothing.
pub open spec fn parse_int(s: Seq<char>, signed: bool, lo: int, hi: int) -> Option<int> {
    let negative = has_minus(s, signed);
    let body = unsigned_part(s, signed);
    let magnitude = digits_value(body) as int;
    let value = if negative {
        -magnitude
    } else {
        magnitude
    };
    if body.len() > 0 && all_digits(body) && lo <= value <= hi {
        Some(value)
    } else {
        None
    }
}

/// Scanning state after reading a text left to right: the tokens already
/// closed by a separator, and the token still open at the end (empty when the
/// text ends in a separator or is empty).
pub open spec fn scan_tokens(s: Seq<char>) -> (Seq<Seq<char>>, Seq<char>)
    decreases s.len(),
{
    if s.len() == 0 {
        (Seq::empty(), Seq::empty())
    } else {
        let (done, open) = scan_tokens(s.drop_last());
        if is_space(s.last()) {
            if open.len() > 0 {
                (done.push(open), Seq::empty())
            } else {
                (done, open)
            }
        } else {
            (done, open.push(s.last()))
        }
    }
}

/// The tokens of a text: its maximal runs of characters that are not
/// separators, in order.
pub open spec fn tokens(s: Seq<char>) -> Seq<Seq<char>> {
    let (done, open) = scan_tokens(s);
    if open.len() > 0 {
        done.push(open)
    } else {
        done
    }
}

/// Scanning state for lines: the lines already closed by a line feed, and the
/// text after the last line feed.
pub open spec fn scan_lines(s: Seq<char>) -> (Seq<Seq<char>>, Seq<char>)
    decreases s.len(),
{
    if s.len() == 0 {
        (Seq::empty(), Seq::empty())
    } else {
        let (done, open) = scan_lines(s.drop_last());
        if s.last() == '\n' {
            (done.push(open), Seq::empty())
        } else {
            (done, open.push(s.last()))
        }
    }
}

/// The lines of a text: the pieces between line feeds. A text with `k` line
/// feeds has `k + 1` lines, some of which may be empty.
pub open spec fn lines(s: Seq<char>) -> Seq<Seq<char>> {
    let (done, open) = scan_lines(s);
    done.push(open)
}

/// Whether `ranges` mark, in order, where each of `toks` stands in `chars`.
pub open spec fn ranges_match(
    chars: Seq<char>,
    ranges: Seq<(usize, usize)>,
    toks: Seq<Seq<char>>,
) -> bool {
    &&& ranges.len() == toks.len()
    &&& forall|k: int|
        0 <= k < ranges.len() ==> {
            &&& (#[trigger] ranges[k]).0 <= ranges[k].1 <= chars.len()
            &&& chars.subrange(ranges[k].0 as int, ranges[k].1 as int) == toks[k]
        }
}

/// Largest magnitude that `read_int` keeps track of exactly; every range it
/// is asked for must lie within it.
pub const READ_LIMIT: i128 = 1_000_000_000_000_000_000_000_000_000_000;

/// Appending a digit to a digit string.
pub proof fn lemma_digits_value_push(s: Seq<char>, c: char)
    ensures
        digits_value(s.push(c)) == digits_value(s) * 10 + digit_value(c),
        all_digits(s) && is_digit(c) ==> all_digits(s.push(c)),
{
    assert(s.push(c).drop_last() =~= s);
}

/// A text without separators stays inside the token that is open.
pub proof fn lemma_scan_tokens_word(s: Seq<char>, t: Seq<char>)
    requires
        no_space(t),
    ensures
        scan_tokens(s + t) == (scan_tokens(s).0, scan_tokens(s).1 + t),
    decreases t.len(),
{
    if t.len() == 0 {
        assert(s + t =~= s);
        assert(scan_tokens(s).1 + t =~= scan_tokens(s).1);
    } else {
        let t0 = t.drop_last();
        assert((s + t).drop_last() =~= s + t0);
        assert((s + t).last() == t.last());
        assert(!is_space(t[t.len() - 1]));
        assert(no_space(t0)) by {
            assert forall|i: int| 0 <= i < t0.len() implies !is_space(#[trigger] t0[i]) by {
                assert(t0[i] == t[i]);
            }
        }
        lemma_scan_tokens_word(s, t0);
        assert(scan_tokens(s).1 + t =~= (scan_tokens(s).1 + t0).push(t.last()));
    }
}

/// The digits of a number are digits, and read back as the number.
pub proof fn lemma_nat_text(n: nat)
    ensures
        nat_text(n).len() > 0,
        all_digits(nat_text(n)),
        digits_value(nat_text(n)) == n,
    decreases n,
{
    if n < 10 {
        let s = nat_text(n);
        assert(s.drop_last() =~= Seq::<char>::empty());
        assert(digits_value(s.drop_last()) == 0);
        assert(digit_value(digit_char(n)) == n);
        assert(is_digit(s[0]));
    } else {
        lemma_nat_text(n / 10);
        lemma_digits_value_push(nat_text(n / 10), digit_char(n % 10));
        assert(digit_value(digit_char(n % 10)) == n % 10);
        assert(is_digit(digit_char(n % 10)));
    }
}

/// What is written for an integer is one token, and reads back as that
/// integer in every range that holds it.
pub proof fn lemma_int_text(v: int, signed: bool, lo: int, hi: int)
    requires
        lo <= v <= hi,
        v < 0 ==> signed,
    ensures
        int_text(v).len() > 0,
        no_space(int_text(v)),
        parse_int(int_text(v), signed, lo, hi) == Some(v),
{
    let s = int_text(v);
    if v < 0 {
        let m = (-v) as nat;
        lemma_nat_text(m);
        assert(s.drop_first() =~= nat_text(m));
        assert(s[0] == '-');
        assert forall|i: int| 0 <= i < s.len() implies !is_space(#[trigger] s[i]) by {
            if i > 0 {
                assert(s[i] == nat_text(m)[i - 1]);
                assert(is_digit(nat_text(m)[i - 1]));
            }
        }
    } else {
        lemma_nat_text(v as nat);
        assert(is_digit(s[0]));
        assert(s[0] != '+' && s[0] != '-');
        assert forall|i: int| 0 <= i < s.len() implies !is_space(#[trigger] s[i]) by {
            assert(is_digit(s[i]));
        }
    }
}

/// A text without line feeds stays inside the line that is open.
pub proof fn lemma_scan_lines_text(s: Seq<char>, t: Seq<char>)
    requires
        no_feed(t),
    ensures
        scan_lines(s + t) == (scan_lines(s).0, scan_lines(s).1 + t),
    decreases t.len(),
{
    if t.len() == 0 {
        assert(s + t =~= s);
        assert(scan_lines(s).1 + t =~= scan_lines(s).1);
    } else {
        let t0 = t.drop_last();
        assert((s + t).drop_last() =~= s + t0);
        assert((s + t).last() == t.last());
        assert(t[t.len() - 1] != '\n');
        assert(no_feed(t0)) by {
            assert forall|i: int| 0 <= i < t0.len() implies #[trigger] t0[i] != '\n' by {
                assert(t0[i] == t[i]);
            }
        }
        lemma_scan_lines_text(s, t0);
        assert(scan_lines(s).1 + t =~= (scan_lines(s).1 + t0).push(t.last()));
    }
}

/// A line without line feeds, followed by a line feed, adds one line.
pub proof fn lemma_scan_lines_line(s: Seq<char>, line: Seq<char>)
    requires
        no_feed(line),
    ensures
        scan_lines(s + line + seq!['\n']) == (
            scan_lines(s).0.push(scan_lines(s).1 + line),
            Seq::<char>::empty(),
        ),
{
    lemma_scan_lines_text(s, line);
    let t = s + line + seq!['\n'];
    assert(t.drop_last() =~= s + line);
    assert(t.last() == '\n');
}

/// Tokens that a separator has closed stay as they are when the text goes
/// on.
pub proof fn lemma_scan_tokens_grows(s: Seq<char>, t: Seq<char>)
    ensures
        scan_tokens(s).0.len() <= scan_tokens(s + t).0.len(),
        forall|k: int|
            0 <= k < scan_tokens(s).0.len() ==> #[trigger] scan_tokens(s + t).0[k] == scan_tokens(
                s,
            ).0[k],
    decreases t.len(),
{
    if t.len() == 0 {
        assert(s + t =~= s);
    } else {
        let t0 = t.drop_last();
        assert((s + t).drop_last() =~= s + t0);
        lemma_scan_tokens_grows(s, t0);
    }
}

/// A token at the start of a text, closed by a separator or by the end of
/// the text, is the first token of the text.
pub proof fn lemma_first_token(w: Seq<char>, rest: Seq<char>)
    requires
        plain_token(w),
        rest.len() > 0 ==> is_space(rest[0]),
    ensures
        tokens(w + rest).len() > 0,
        tokens(w + rest)[0] == w,
{
    lemma_scan_tokens_word(Seq::empty(), w);
    assert(Seq::<char>::empty() + w =~= w);
    if rest.len() == 0 {
        assert(w + rest =~= w);
    } else {
        let closed = w.push(rest[0]);
        assert(closed.drop_last() =~= w);
        assert(scan_tokens(closed).0 =~= seq![w]);
        assert(w + rest =~= closed + rest.drop_first());
        lemma_scan_tokens_grows(closed, rest.drop_first());
        assert(scan_tokens(w + rest).0[0] == scan_tokens(closed).0[0]);
    }
}

/// What is written for a number holds neither a separator nor a line feed.
pub proof fn lemma_nat_text_plain(n: nat)
    ensures
        plain_token(nat_text(n)),
        no_feed(nat_text(n)),
{
    lemma_nat_text(n);
    let s = nat_text(n);
    assert forall|i: int| 0 <= i < s.len() implies !is_space(#[trigger] s[i]) && s[i] != '\n' by {
        assert(is_digit(s[i]));
    }
}

/// What is written for an integer holds no line feed.
pub proof fn lemma_int_text_no_feed(v: int)
    ensures
        no_feed(int_text(v)),
{
    let s = int_text(v);
    if v < 0 {
        lemma_nat_text_plain((-v) as nat);
        assert forall|i: int| 0 <= i < s.len() implies #[trigger] s[i] != '\n' by {
            if i > 0 {
                assert(s[i] == nat_text((-v) as nat)[i - 1]);
            }
        }
    } else {
        lemma_nat_text_plain(v as nat);
    }
}

/// Every token is a token: it is not empty and holds no separator.
pub proof fn lemma_tokens_plain(s: Seq<char>)
    ensures
        no_space(scan_tokens(s).1),
        forall|k: int| 0 <= k < scan_tokens(s).0.len() ==> plain_token(#[trigger] scan_tokens(s).0[k]),
        forall|k: int| 0 <= k < tokens(s).len() ==> plain_token(#[trigger] tokens(s)[k]),
    decreases s.len(),
{
    if s.len() > 0 {
        lemma_tokens_plain(s.drop_last());
    }
}

/// The characters of a string, in order.
pub fn chars_of(s: &str) -> (v: Vec<char>)
    ensures
        v@ == s@,
{
    let mut v: Vec<char> = Vec::new();
    let mut it = s.chars();
    for c in iter: it
        invariant
            v@ == s@.take(iter.index()),
            iter.seq() == s@,
    {
        v.push(c);
    }
    v
}

/// Tests whether `c` separates tokens.
pub fn is_space_char(c: char) -> (b: bool)
    ensures
        b == is_space(c),
{
    let u: u32 = c as u32;
    (0x09 <= u && u <= 0x0D) || u == 0x20 || u == 0x85 || u == 0xA0 || u == 0x1680 || (0x2000 <= u
        && u <= 0x200A) || u == 0x2028 || u == 0x2029 || u == 0x202F || u == 0x205F || u == 0x3000
}

/// The one-character string that writes the digit `d`.
fn digit_str(d: u8) -> (s: &'static str)
    requires
        d < 10,
    ensures
        s@ == seq![digit_char(d as nat)],
{
    proof {
        reveal_strlit("0");
        reveal_strlit("1");
        reveal_strlit("2");
        reveal_strlit("3");
        reveal_strlit("4");
        reveal_strlit("5");
        reveal_strlit("6");
        reveal_strlit("7");
        reveal_strlit("8");
        reveal_strlit("9");
    }
    let s: &'static str = if d == 0 {
        "0"
    } else if d == 1 {
        "1"
    } else if d == 2 {
        "2"
    } else if d == 3 {
        "3"
    } else if d == 4 {
        "4"
    } else if d == 5 {
        "5"
    } else if d == 6 {
        "6"
    } else if d == 7 {
        "7"
    } else if d == 8 {
        "8"
    } else {
        "9"
    };
    assert(s@ =~= seq![digit_char(d as nat)]);
    s
}

/// Appends the decimal digits of `n` to `out`.
pub fn push_nat(out: &mut String, n: u128)
    ensures
        final(out)@ == old(out)@ + nat_text(n as nat),
    decreases n,
{
    if n >= 10 {
        push_nat(out, n / 10);
    }
    let d: u8 = (n % 10) as u8;
    out.append(digit_str(d));
    assert(final(out)@ =~= old(out)@ + nat_text(n as nat));
}

/// Appends how `v` is written to `out`.
pub fn push_int(out: &mut String, v: i128)
    ensures
        final(out)@ == old(out)@ + int_text(v as int),
{
    if v < 0 {
        proof {
            reveal_strlit("-");
        }
        out.append("-");
        let m: u128 = if v == i128::MIN {
            0x8000_0000_0000_0000_0000_0000_0000_0000u128
        } else {
            (-v) as u128
        };
        push_nat(out, m);
        assert(final(out)@ =~= old(out)@ + int_text(v as int));
    } else {
        push_nat(out, v as u128);
    }
}

/// Reads the integer written in `chars[from..to]`, if it is one within
/// `lo..=hi`: an optional sign, then digits only.
pub fn read_int(
    chars: &Vec<char>,
    from: usize,
    to: usize,
    signed: bool,
    lo: i128,
    hi: i128,
) -> (r: Option<i128>)
    requires
        from <= to <= chars@.len(),
        -READ_LIMIT <= lo,
        hi <= READ_LIMIT,
    ensures
        r matches Some(v) ==> parse_int(chars@.subrange(from as int, to as int), signed, lo as int, hi as int)
            == Some(v as int),
        r is None ==> parse_int(chars@.subrange(from as int, to as int), signed, lo as int, hi as int)
            is None,
{
    let ghost s = chars@.subrange(from as int, to as int);
    let mut i: usize = from;
    let mut negative: bool = false;
    if from < to {
        let c: char = chars[from];
        assert(s[0] == c);
        if c == '+' {
            i = from + 1;
        } else if signed && c == '-' {
            negative = true;
            i = from + 1;
        }
    }
    let start: usize = i;
    let ghost body = chars@.subrange(start as int, to as int);
    assert(body =~= unsigned_part(s, signed));
    assert(negative == has_minus(s, signed));
    if i >= to {
        return None;
    }
    let mut acc: i128 = 0;
    let mut big: bool = false;
    while i < to
        invariant
            start <= i <= to <= chars@.len(),
            body == chars@.subrange(start as int, to as int),
            body == unsigned_part(chars@.subrange(from as int, to as int), signed),
            all_digits(chars@.subrange(start as int, i as int)),
            0 <= acc <= READ_LIMIT,
            !big ==> acc == digits_value(chars@.subrange(start as int, i as int)),
            big ==> digits_value(chars@.subrange(start as int, i as int)) > READ_LIMIT,
        decreases to - i,
    {
        let c: char = chars[i];
        let u: u32 = c as u32;
        if u < 0x30 || u > 0x39 {
            assert(body[i - start] == c);
            return None;
        }
        let d: i128 = (u - 0x30) as i128;
        proof {
            let before = chars@.subrange(start as int, i as int);
            assert(chars@.subrange(start as int, i + 1) =~= before.push(c));
            lemma_digits_value_push(before, c);
        }
        if !big {
            acc = acc * 10 + d;
            if acc > READ_LIMIT {
                big = true;
                acc = 0;
            }
        }
        i += 1;
    }
    assert(chars@.subrange(start as int, i as int) == body);
    if big {
        return None;
    }
    let v: i128 = if negative {
        -acc
    } else {
        acc
    };
    if lo <= v && v <= hi {
        Some(v)
    } else {
        None
    }
}

/// Finds the tokens of the part `chars[from..to]` of a text: for each token,
/// in order, the positions in `chars` where it starts and ends.
pub fn token_ranges_in(chars: &Vec<char>, from: usize, to: usize) -> (ranges: Vec<(usize, usize)>)
    requires
        from <= to <= chars@.len(),
    ensures
        ranges_match(chars@, ranges@, tokens(chars@.subrange(from as int, to as int))),
        forall|k: int| 0 <= k < ranges@.len() ==> from <= (#[trigger] ranges@[k]).0 && ranges@[k].1 <= to,
{
    let mut ranges: Vec<(usize, usize)> = Vec::new();
    let mut start: usize = from;
    let mut inside: bool = false;
    let mut i: usize = from;
    while i < to
        invariant
            from <= i <= to <= chars@.len(),
            ranges_match(
                chars@,
                ranges@,
                scan_tokens(chars@.subrange(from as int, i as int)).0,
            ),
            forall|k: int|
                0 <= k < ranges@.len() ==> from <= (#[trigger] ranges@[k]).0 && ranges@[k].1 <= i,
            inside <==> scan_tokens(chars@.subrange(from as int, i as int)).1.len() > 0,
            inside ==> from <= start <= i && scan_tokens(chars@.subrange(from as int, i as int)).1
                == chars@.subrange(start as int, i as int),
        decreases to - i,
    {
        let c: char = chars[i];
        let ghost before = chars@.subrange(from as int, i as int);
        let ghost after = chars@.subrange(from as int, i + 1);
        let ghost old_ranges = ranges@;
        proof {
            assert(after.drop_last() =~= before);
            assert(after.last() == c);
        }
        if is_space_char(c) {
            if inside {
                ranges.push((start, i));
                inside = false;
            }
        } else {
            if !inside {
                start = i;
                inside = true;
            }
        }
        proof {
            let done = scan_tokens(after).0;
            if inside {
                assert(chars@.subrange(start as int, i + 1) =~= chars@.subrange(
                    start as int,
                    i as int,
                ).push(c));
            }
            assert forall|k: int| 0 <= k < ranges@.len() implies {
                &&& (#[trigger] ranges@[k]).0 <= ranges@[k].1 <= chars@.len()
                &&& chars@.subrange(ranges@[k].0 as int, ranges@[k].1 as int) == done[k]
                &&& from <= ranges@[k].0 && ranges@[k].1 <= i + 1
            } by {
                if k < old_ranges.len() {
                    assert(ranges@[k] == old_ranges[k]);
                }
            }
        }
        i += 1;
    }
    if inside {
        let ghost old_ranges = ranges@;
        ranges.push((start, to));
        proof {
            let toks = tokens(chars@.subrange(from as int, to as int));
            assert forall|k: int| 0 <= k < ranges@.len() implies {
                &&& (#[trigger] ranges@[k]).0 <= ranges@[k].1 <= chars@.len()
                &&& chars@.subrange(ranges@[k].0 as int, ranges@[k].1 as int) == toks[k]
                &&& from <= ranges@[k].0 && ranges@[k].1 <= to
            } by {
                if k < old_ranges.len() {
                    assert(ranges@[k] == old_ranges[k]);
                }
            }
        }
    }
    ranges
}

/// Finds the tokens of a text: for each token, in order, the positions where
/// it starts and ends.
pub fn token_ranges(chars: &Vec<char>) -> (ranges: Vec<(usize, usize)>)
    ensures
        ranges_match(chars@, ranges@, tokens(chars@)),
{
    proof {
        assert(chars@.subrange(0, chars@.len() as int) =~= chars@);
    }
    token_ranges_in(chars, 0, chars.len())
}

/// Finds the lines of a text: for each line, in order, the positions where
/// it starts and ends (the line feed that ends it is not part of it).
pub fn line_ranges(chars: &Vec<char>) -> (ranges: Vec<(usize, usize)>)
    ensures
        ranges_match(chars@, ranges@, lines(chars@)),
{
    let n: usize = chars.len();
    let mut ranges: Vec<(usize, usize)> = Vec::new();
    let mut start: usize = 0;
    let mut i: usize = 0;
    while i < n
        invariant
            n == chars@.len(),
            start <= i <= n,
            ranges_match(chars@, ranges@, scan_lines(chars@.take(i as int)).0),
            scan_lines(chars@.take(i as int)).1 == chars@.subrange(start as int, i as int),
        decreases n - i,
    {
        let c: char = chars[i];
        let ghost before = chars@.take(i as int);
        let ghost after = chars@.take(i + 1);
        let ghost old_ranges = ranges@;
        proof {
            assert(after.drop_last() =~= before);
            assert(after.last() == c);
            assert(chars@.subrange(start as int, i + 1) =~= chars@.subrange(
                start as int,
                i as int,
            ).push(c));
        }
        if c == '\n' {
            ranges.push((start, i));
            start = i + 1;
            proof {
                assert(chars@.subrange(start as int, i + 1) =~= Seq::<char>::empty());
            }
        }
        proof {
            let done = scan_lines(after).0;
            assert forall|k: int| 0 <= k < ranges@.len() implies {
                &&& (#[trigger] ranges@[k]).0 <= ranges@[k].1 <= chars@.len()
                &&& chars@.subrange(ranges@[k].0 as int, ranges@[k].1 as int) == done[k]
            } by {
                if k < old_ranges.len() {
                    assert(ranges@[k] == old_ranges[k]);
                }
            }
        }
        i += 1;
    }
    let ghost old_ranges = ranges@;
    ranges.push((start, n));
    proof {
        assert(chars@.take(n as int) =~= chars@);
        let all = lines(chars@);
        assert forall|k: int| 0 <= k < ranges@.len() implies {
            &&& (#[trigger] ranges@[k]).0 <= ranges@[k].1 <= chars@.len()
            &&& chars@.subrange(ranges@[k].0 as int, ranges@[k].1 as int) == all[k]
        } by {
            if k < old_ranges.len() {
                assert(ranges@[k] == old_ranges[k]);
            }
        }
    }
    ranges
}

} // verus!
