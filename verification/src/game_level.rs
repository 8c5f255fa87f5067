//! The tile-grid level: parsing the textual tile data, building the brick
//! entities, and tracking their destruction.
//!
//! A level source is plain text: one line per row, each a whitespace
//! separated list of small nonnegative integers (tile codes).  All rows
//! must have the same length and at least one row must be present.

use vstd::prelude::*;
use vstd::string::StringSliceAdditionalSpecFns;
use crate::errors::LoadError;
use crate::game_object::{Colour, GameObject, draw_command_of};
use crate::renderer::{DrawCommand, SpriteRenderer};
use crate::resource_manager::{ResourceManager, lookup_spec};
use crate::units::DIM_LIMIT;
use crate::vector::Vector2;

verus! {

/// What a tile code means.
#[derive(Clone, Copy, PartialEq, Eq, Structural, Debug)]
pub enum TileKind {
    Empty,
    Solid,
    Blue,
    Green,
    Tan,
    Orange,
    White,
}

/// The kind a tile code maps to: zero is empty, one is solid, two through
/// five are the coloured bricks, and anything higher is white.
pub open spec fn tile_kind_from(n: u8) -> TileKind {
    if n == 0 {
        TileKind::Empty
    } else if n == 1 {
        TileKind::Solid
    } else if n == 2 {
        TileKind::Blue
    } else if n == 3 {
        TileKind::Green
    } else if n == 4 {
        TileKind::Tan
    } else if n == 5 {
        TileKind::Orange
    } else {
        TileKind::White
    }
}

/// The fixed colour of each tile kind, in thousandths.
pub open spec fn tile_colour(k: TileKind) -> Colour {
    match k {
        TileKind::Empty => Colour { r: 0, g: 0, b: 0 },
        TileKind::Solid => Colour { r: 800, g: 800, b: 700 },
        TileKind::Blue => Colour { r: 200, g: 600, b: 1000 },
        TileKind::Green => Colour { r: 0, g: 700, b: 0 },
        TileKind::Tan => Colour { r: 800, g: 800, b: 400 },
        TileKind::Orange => Colour { r: 1000, g: 500, b: 0 },
        TileKind::White => Colour { r: 1000, g: 1000, b: 1000 },
    }
}

impl core::convert::From<u8> for TileKind {
    /// Maps a tile code to its kind.
    fn from(n: u8) -> (r: TileKind)
        ensures
            r == tile_kind_from(n),
    {
        match n {
            0 => TileKind::Empty,
            1 => TileKind::Solid,
            2 => TileKind::Blue,
            3 => TileKind::Green,
            4 => TileKind::Tan,
            5 => TileKind::Orange,
            _ => TileKind::White,
        }
    }
}

impl vstd::std_specs::convert::FromSpecImpl<u8> for TileKind {
    open spec fn obeys_from_spec() -> bool {
        true
    }

    open spec fn from_spec(n: u8) -> TileKind {
        tile_kind_from(n)
    }
}

impl TileKind {
    /// Parses one token into a kind: the token must be a decimal integer
    /// between 0 and 255, optionally preceded by a plus sign.
    pub fn try_from(s: &str) -> (r: Result<TileKind, LoadError>)
        ensures
            match r {
                Ok(k) => token_code(s.spec_bytes()) matches Some(n) && k == tile_kind_from(n),
                Err(e) => token_code(s.spec_bytes()) is None && e == LoadError::ParseError,
            },
    {
        match parse_token(s.as_bytes()) {
            Some(n) => Ok(TileKind::from(n)),
            None => Err(LoadError::ParseError),
        }
    }

    /// The kind's fixed colour.
    pub fn colour(&self) -> (r: Colour)
        ensures
            r == tile_colour(*self),
    {
        match *self {
            TileKind::Empty => Colour { r: 0, g: 0, b: 0 },
            TileKind::Solid => Colour { r: 800, g: 800, b: 700 },
            TileKind::Blue => Colour { r: 200, g: 600, b: 1000 },
            TileKind::Green => Colour { r: 0, g: 700, b: 0 },
            TileKind::Tan => Colour { r: 800, g: 800, b: 400 },
            TileKind::Orange => Colour { r: 1000, g: 500, b: 0 },
            TileKind::White => Colour { r: 1000, g: 1000, b: 1000 },
        }
    }

    /// Whether bricks of this kind are indestructible.
    pub fn is_solid(&self) -> (r: bool)
        ensures
            r == (*self matches TileKind::Solid),
    {
        match *self {
            TileKind::Solid => true,
            _ => false,
        }
    }

    /// The name of the texture bricks of this kind are drawn with; empty
    /// tiles produce no brick and have none.
    pub fn texture_name(&self) -> (r: &'static str)
        requires
            !(*self matches TileKind::Empty),
        ensures
            r@ == texture_name_spec(*self),
    {
        match *self {
            TileKind::Solid => "block_solid",
            _ => "block",
        }
    }
}

/// The texture name of a non-empty tile kind.
pub open spec fn texture_name_spec(k: TileKind) -> Seq<char> {
    match k {
        TileKind::Solid => "block_solid"@,
        _ => "block"@,
    }
}

/// An ASCII decimal digit.
pub open spec fn is_digit(b: u8) -> bool {
    48 <= b <= 57
}

/// The number a digit string denotes.
pub open spec fn digits_value(d: Seq<u8>) -> int
    decreases d.len(),
{
    if d.len() == 0 {
        0
    } else {
        digits_value(d.drop_last()) * 10 + (d.last() - 48)
    }
}

/// Whether every byte of `d` is a digit.
pub open spec fn all_digits(d: Seq<u8>) -> bool {
    forall|i: int| 0 <= i < d.len() ==> is_digit(#[trigger] d[i])
}

/// A token's digits: what remains after the optional leading plus sign.
pub open spec fn token_digits(t: Seq<u8>) -> Seq<u8> {
    if t.len() > 0 && t[0] == 43 {
        t.skip(1)
    } else {
        t
    }
}

/// The code a token denotes: after an optional leading plus sign there must
/// be at least one digit and nothing else, and the value must fit a byte.
pub open spec fn token_code(t: Seq<u8>) -> Option<u8> {
    let d = token_digits(t);
    if d.len() >= 1 && all_digits(d) && digits_value(d) <= 255 {
        Some(digits_value(d) as u8)
    } else {
        None
    }
}

/// A digit string's value only grows as digits are appended, and is never
/// negative.
proof fn lemma_digits_value_mono(d: Seq<u8>, i: int)
    requires
        0 <= i <= d.len(),
        all_digits(d),
    ensures
        0 <= digits_value(d.take(i)),
        digits_value(d.take(i)) <= digits_value(d),
    decreases d.len() - i,
{
    if i == d.len() {
        assert(d.take(i) =~= d);
        lemma_digits_value_nonneg(d);
    } else {
        lemma_digits_value_mono(d, i + 1);
        lemma_digits_value_nonneg(d.take(i));
        assert(d.take(i + 1).drop_last() =~= d.take(i));
        assert(d.take(i + 1).last() == d[i]);
        assert(digits_value(d.take(i + 1)) == digits_value(d.take(i)) * 10 + (d[i] - 48));
        assert(digits_value(d.take(i)) * 10 >= digits_value(d.take(i))) by (nonlinear_arith)
            requires
                digits_value(d.take(i)) >= 0,
        ;
    }
}

/// A digit string's value is nonnegative.
proof fn lemma_digits_value_nonneg(d: Seq<u8>)
    requires
        all_digits(d),
    ensures
        0 <= digits_value(d),
    decreases d.len(),
{
    if d.len() > 0 {
        assert(all_digits(d.drop_last()));
        lemma_digits_value_nonneg(d.drop_last());
        assert(digits_value(d.drop_last()) * 10 >= 0) by (nonlinear_arith)
            requires
                digits_value(d.drop_last()) >= 0,
        ;
    }
}

/// Parses a token into its code.
fn parse_token(t: &[u8]) -> (r: Option<u8>)
    ensures
        r == token_code(t@),
{
    let n = t.len();
    let start: usize = if n > 0 && t[0] == 43 {
        1
    } else {
        0
    };
    let ghost d = token_digits(t@);
    proof {
        assert(d =~= t@.skip(start as int));
    }
    if start >= n {
        return None;
    }
    let mut acc: u32 = 0;
    let mut i = start;
    while i < n
        invariant
            start <= i <= n,
            n == t@.len(),
            d == token_digits(t@),
            d == t@.skip(start as int),
            d.len() == n - start,
            all_digits(d.take(i - start)),
            acc <= 255,
            acc as int == digits_value(d.take(i - start)),
        decreases n - i,
    {
        let c = t[i];
        if c < 48 || c > 57 {
            proof {
                assert(d[i - start] == t@[i as int]);
                assert(!is_digit(d[i - start]));
                assert(!all_digits(d));
            }
            return None;
        }
        proof {
            assert(d.take(i - start + 1).drop_last() =~= d.take(i - start));
            assert(d.take(i - start + 1).last() == d[i - start]);
            assert(d[i - start] == t@[i as int]);
        }
        acc = acc * 10 + ((c - 48) as u32);
        proof {
            assert(digits_value(d.take(i - start + 1)) == digits_value(d.take(i - start)) * 10 + (
            d[i - start] - 48));
            assert(acc as int == digits_value(d.take(i - start + 1)));
        }
        if acc > 255 {
            proof {
                if all_digits(d) {
                    lemma_digits_value_mono(d, i - start + 1);
                }
            }
            return None;
        }
        i = i + 1;
    }
    proof {
        assert(d.take(n - start) =~= d);
    }
    Some(acc as u8)
}

/// ASCII whitespace within a line: space, tab, vertical tab, form feed and
/// carriage return (so text with CRLF line endings parses the same as text
/// with bare newlines).
pub open spec fn is_space(b: u8) -> bool {
    b == 32 || b == 9 || b == 11 || b == 12 || b == 13
}

/// The length of the first line of `s`: the bytes before the first newline,
/// or all of `s` when it has none.
pub open spec fn first_line_len(s: Seq<u8>) -> int
    decreases s.len(),
{
    if s.len() == 0 || s[0] == 10 {
        0
    } else {
        1 + first_line_len(s.skip(1))
    }
}

/// `s` split at every newline byte.
pub open spec fn line_split(s: Seq<u8>) -> Seq<Seq<u8>>
    decreases s.len(),
{
    let k = first_line_len(s);
    if 0 <= k < s.len() {
        seq![s.take(k)] + line_split(s.skip(k + 1))
    } else {
        seq![s]
    }
}

/// `first_line_len` is the position of the first newline, or the length.
proof fn lemma_first_line_len_is(s: Seq<u8>, e: int)
    requires
        0 <= e <= s.len(),
        forall|j: int| 0 <= j < e ==> s[j] != 10,
        e == s.len() || s[e] == 10,
    ensures
        first_line_len(s) == e,
    decreases s.len(),
{
    if s.len() == 0 || s[0] == 10 {
        assert(e == 0);
    } else {
        assert(e >= 1);
        let t = s.skip(1);
        assert(forall|j: int| 0 <= j < e - 1 ==> t[j] == s[j + 1] && #[trigger] t[j] != 10);
        assert(e - 1 == t.len() || t[e - 1] == s[e]);
        lemma_first_line_len_is(t, e - 1);
    }
}

/// The length of the first token of `s`: the bytes before the first
/// whitespace, or all of `s` when it has none.
pub open spec fn token_len(s: Seq<u8>) -> int
    decreases s.len(),
{
    if s.len() == 0 || is_space(s[0]) {
        0
    } else {
        1 + token_len(s.skip(1))
    }
}

/// `token_len` is the position of the first whitespace byte, or the length.
proof fn lemma_token_len_is(s: Seq<u8>, e: int)
    requires
        0 <= e <= s.len(),
        forall|j: int| 0 <= j < e ==> !is_space(#[trigger] s[j]),
        e == s.len() || is_space(s[e]),
    ensures
        token_len(s) == e,
    decreases s.len(),
{
    if s.len() == 0 || is_space(s[0]) {
        assert(e == 0);
    } else {
        assert(e >= 1);
        let t = s.skip(1);
        assert(forall|j: int| 0 <= j < e - 1 ==> t[j] == s[j + 1] && !is_space(#[trigger] t[j]));
        assert(e - 1 == t.len() || t[e - 1] == s[e]);
        lemma_token_len_is(t, e - 1);
    }
}

/// The whitespace-separated tokens of a line.
pub open spec fn tokens_split(line: Seq<u8>) -> Seq<Seq<u8>>
    decreases line.len(),
{
    if line.len() == 0 {
        Seq::empty()
    } else if is_space(line[0]) {
        tokens_split(line.skip(1))
    } else {
        let k = token_len(line);
        if 1 <= k <= line.len() {
            seq![line.take(k)] + tokens_split(line.skip(k))
        } else {
            seq![line]
        }
    }
}

/// Prepends a parsed prefix onto an optional remainder.
pub open spec fn opt_cons8(prefix: Seq<u8>, rest: Option<Seq<u8>>) -> Option<Seq<u8>> {
    match rest {
        Option::None => Option::None,
        Option::Some(r) => Option::Some(prefix + r),
    }
}

/// The codes of a token list: one byte per token, or nothing if any token
/// is invalid.
pub open spec fn codes_of_tokens(ts: Seq<Seq<u8>>) -> Option<Seq<u8>>
    decreases ts.len(),
{
    if ts.len() == 0 {
        Option::Some(Seq::empty())
    } else {
        match token_code(ts[0]) {
            Option::None => Option::None,
            Option::Some(c) => opt_cons8(seq![c], codes_of_tokens(ts.skip(1))),
        }
    }
}

/// The tile codes of one line.
pub open spec fn row_codes(line: Seq<u8>) -> Option<Seq<u8>> {
    codes_of_tokens(tokens_split(line))
}

/// A source with a final newline reads the same as one without it, as
/// reading it line by line would.
pub open spec fn trim_source(s: Seq<u8>) -> Seq<u8> {
    if s.len() > 0 && s.last() == 10 {
        s.drop_last()
    } else {
        s
    }
}

/// The lines of a level source: the empty source has none.
pub open spec fn source_lines(s: Seq<u8>) -> Seq<Seq<u8>> {
    if s.len() == 0 {
        Seq::empty()
    } else {
        line_split(trim_source(s))
    }
}

/// Prepends parsed rows onto an optional remainder.
pub open spec fn opt_cons_rows(prefix: Seq<Seq<u8>>, rest: Option<Seq<Seq<u8>>>) -> Option<
    Seq<Seq<u8>>,
> {
    match rest {
        Option::None => Option::None,
        Option::Some(r) => Option::Some(prefix + r),
    }
}

/// The rows of codes of a list of lines, or nothing if any line has an
/// invalid token.
pub open spec fn rows_codes(lines: Seq<Seq<u8>>) -> Option<Seq<Seq<u8>>>
    decreases lines.len(),
{
    if lines.len() == 0 {
        Option::Some(Seq::empty())
    } else {
        match row_codes(lines[0]) {
            Option::None => Option::None,
            Option::Some(r) => opt_cons_rows(seq![r], rows_codes(lines.skip(1))),
        }
    }
}

/// The tile rows a level source denotes, or nothing on a bad token.
pub open spec fn tile_rows(s: Seq<u8>) -> Option<Seq<Seq<u8>>> {
    rows_codes(source_lines(s))
}

/// Whether a byte is line-internal whitespace.
fn is_space_byte(b: u8) -> (r: bool)
    ensures
        r == is_space(b),
{
    b == 32 || b == 9 || b == 11 || b == 12 || b == 13
}

/// Parses one line into its tile codes.
fn parse_row(line: &[u8]) -> (r: Result<Vec<u8>, LoadError>)
    ensures
        match r {
            Ok(v) => row_codes(line@) == Option::Some(v@) && v@.len() <= line@.len(),
            Err(e) => row_codes(line@) is None && e == LoadError::ParseError,
        },
{
    let n = line.len();
    let mut out: Vec<u8> = Vec::new();
    let mut k: usize = 0;
    proof {
        assert(line@.skip(0) =~= line@);
        if let Option::Some(r0) = codes_of_tokens(tokens_split(line@)) {
            assert(Seq::<u8>::empty() + r0 =~= r0);
        }
    }
    while k < n
        invariant
            0 <= k <= n,
            n == line@.len(),
            out@.len() <= k,
            row_codes(line@) == opt_cons8(out@, codes_of_tokens(tokens_split(line@.skip(k as int)))),
        decreases n - k,
    {
        if is_space_byte(line[k]) {
            proof {
                assert(line@.skip(k as int).skip(1) =~= line@.skip(k + 1));
                assert(tokens_split(line@.skip(k as int)) == tokens_split(line@.skip(k + 1)));
            }
            k = k + 1;
        } else {
            let mut e: usize = k + 1;
            while e < n && !is_space_byte(line[e])
                invariant
                    k < e <= n,
                    n == line@.len(),
                    forall|j: int| k < j < e ==> !is_space(#[trigger] line@[j]),
                decreases n - e,
            {
                e = e + 1;
            }
            let ghost rest = line@.skip(k as int);
            proof {
                assert(forall|j: int| 0 <= j < e - k ==> rest[j] == line@[j + k]
                    && !is_space(#[trigger] rest[j]));
                assert(e - k == rest.len() || is_space(rest[e - k]));
                lemma_token_len_is(rest, e - k);
                assert(rest.take(e - k) =~= line@.subrange(k as int, e as int));
                assert(rest.skip(e - k) =~= line@.skip(e as int));
                assert(tokens_split(rest) == seq![line@.subrange(k as int, e as int)]
                    + tokens_split(line@.skip(e as int)));
            }
            let ghost out0 = out@;
            match parse_token(&line[k..e]) {
                Some(c) => {
                    out.push(c);
                    proof {
                        let tok = line@.subrange(k as int, e as int);
                        let ts = tokens_split(rest);
                        assert(ts[0] == tok);
                        assert(ts.skip(1) =~= tokens_split(line@.skip(e as int)));
                        assert(codes_of_tokens(ts) == opt_cons8(
                            seq![c],
                            codes_of_tokens(tokens_split(line@.skip(e as int))),
                        ));
                        if let Option::Some(r1) = codes_of_tokens(
                            tokens_split(line@.skip(e as int)),
                        ) {
                            assert(out0 + (seq![c] + r1) =~= out@ + r1);
                        }
                    }
                    k = e;
                },
                None => {
                    proof {
                        let ts = tokens_split(rest);
                        assert(token_code(ts[0]) is None);
                        assert(codes_of_tokens(ts) is None);
                    }
                    return Err(LoadError::ParseError);
                },
            }
        }
    }
    proof {
        assert(line@.skip(n as int) =~= Seq::<u8>::empty());
        assert(tokens_split(Seq::<u8>::empty()) =~= Seq::<Seq<u8>>::empty());
        assert(out@ + Seq::<u8>::empty() =~= out@);
    }
    Ok(out)
}


/// The rows of a vector of byte rows, as a sequence of sequences.
pub open spec fn rows_view(v: Vec<Vec<u8>>) -> Seq<Seq<u8>> {
    Seq::new(v@.len() as nat, |j: int| v@[j]@)
}

/// Reads the tile grid from a level source: one row per line, one code per
/// token.  Fails with `ParseError` on an invalid token and with
/// `EmptyLevelError` when the source is empty; the shape of the rows is the
/// caller's business.
#[verifier::rlimit(100)]
pub fn read_tile_data(source: &[u8]) -> (r: Result<Vec<Vec<u8>>, LoadError>)
    requires
        source@.len() < usize::MAX,
    ensures
        match r {
            Ok(rows) => tile_rows(source@) == Option::Some(rows_view(rows)) && rows@.len() >= 1
                && rows@.len() <= source@.len() + 1 && (forall|j: int|
                0 <= j < rows@.len() ==> (#[trigger] rows@[j])@.len() <= source@.len()),
            Err(e) => (e == LoadError::ParseError && tile_rows(source@) is None) || (e
                == LoadError::EmptyLevelError && source@.len() == 0),
        },
{
    let n0 = source.len();
    if n0 == 0 {
        return Err(LoadError::EmptyLevelError);
    }
    let n = if source[n0 - 1] == 10 {
        n0 - 1
    } else {
        n0
    };
    let ghost trimmed = trim_source(source@);
    proof {
        assert(trimmed =~= source@.take(n as int));
    }
    let mut rows: Vec<Vec<u8>> = Vec::new();
    let mut i: usize = 0;
    proof {
        assert(trimmed.skip(0) =~= trimmed);
        assert(source_lines(source@) == line_split(trimmed));
        if let Option::Some(r0) = rows_codes(line_split(trimmed)) {
            assert(Seq::<Seq<u8>>::empty() + r0 =~= r0);
        }
        assert(rows_view(rows) =~= Seq::<Seq<u8>>::empty());
    }
    while i <= n
        invariant
            0 <= i <= n + 1,
            n <= source@.len(),
            source@.len() == n0,
            n0 >= 1,
            n0 < usize::MAX,
            n == trimmed.len(),
            trimmed == trim_source(source@),
            trimmed == source@.take(n as int),
            rows@.len() <= i,
            forall|j: int| 0 <= j < rows@.len() ==> (#[trigger] rows@[j])@.len() <= source@.len(),
            i <= n ==> tile_rows(source@) == opt_cons_rows(
                rows_view(rows),
                rows_codes(line_split(trimmed.skip(i as int))),
            ),
            i == n + 1 ==> tile_rows(source@) == Option::Some(rows_view(rows)) && rows@.len() >= 1,
        decreases n + 1 - i,
    {
        let mut e: usize = i;
        while e < n && source[e] != 10
            invariant
                i <= e <= n,
                n <= source@.len(),
                n < usize::MAX,
                forall|j: int| i <= j < e ==> source@[j] != 10,
            decreases n - e,
        {
            e = e + 1;
        }
        let ghost rest = trimmed.skip(i as int);
        let ghost line = source@.subrange(i as int, e as int);
        proof {
            assert(forall|j: int|
                0 <= j < e - i ==> rest[j] == source@[j + i] && #[trigger] rest[j] != 10);
            assert(e - i == rest.len() || rest[e - i] == 10);
            lemma_first_line_len_is(rest, e - i);
            assert(rest.take(e - i) =~= line);
        }
        let ghost rows0 = rows_view(rows);
        match parse_row(&source[i..e]) {
            Ok(row) => {
                let ghost rowv = row@;
                rows.push(row);
                proof {
                    assert(rows_view(rows) =~= rows0.push(rowv));
                    if e < n {
                        assert(line_split(rest) == seq![rest.take(e - i)] + line_split(
                            rest.skip(e - i + 1),
                        ));
                        assert(rest.skip(e - i + 1) =~= trimmed.skip(e + 1));
                        let ls = line_split(rest);
                        assert(ls[0] == line);
                        assert(ls.skip(1) =~= line_split(trimmed.skip(e + 1)));
                        assert(rows_codes(ls) == opt_cons_rows(
                            seq![rowv],
                            rows_codes(line_split(trimmed.skip(e + 1))),
                        ));
                        if let Option::Some(r1) = rows_codes(line_split(trimmed.skip(e + 1))) {
                            assert(rows0 + (seq![rowv] + r1) =~= rows0.push(rowv) + r1);
                        }
                    } else {
                        assert(first_line_len(rest) == rest.len());
                        assert(line_split(rest) =~= seq![rest]);
                        assert(rest =~= line);
                        let ls = line_split(rest);
                        assert(ls[0] == line);
                        assert(ls.skip(1) =~= Seq::<Seq<u8>>::empty());
                        assert(rows_codes(ls.skip(1)) == Option::Some(Seq::<Seq<u8>>::empty()));
                        assert(rows_codes(ls) == Option::Some(seq![rowv] + Seq::<Seq<u8>>::empty()));
                        assert(rows0 + (seq![rowv] + Seq::<Seq<u8>>::empty()) =~= rows0.push(rowv));
                    }
                }
                i = e + 1;
            },
            Err(_) => {
                proof {
                    let ls = line_split(rest);
                    assert(ls[0] == line);
                    assert(rows_codes(ls) is None);
                }
                return Err(LoadError::ParseError);
            },
        }
    }
    Ok(rows)
}


/// The handle of a resolved texture, or zero where there is none; bricks
/// that would need it are rejected before it is ever used.
pub open spec fn handle_or_zero(o: Option<u64>) -> u64 {
    match o {
        Option::Some(h) => h,
        Option::None => 0,
    }
}

/// One brick of the grid: positioned at its cell, one cell large, coloured
/// and textured by its kind, at rest, not destroyed.
pub open spec fn brick_at(code: u8, x: int, y: int, uw: int, uh: int, sh: u64, bh: u64) -> GameObject {
    let k = tile_kind_from(code);
    let solid = k matches TileKind::Solid;
    GameObject {
        position: Vector2 { x: (x * uw) as i64, y: (y * uh) as i64 },
        size: Vector2 { x: uw as i64, y: uh as i64 },
        velocity: Vector2 { x: 0i64, y: 0i64 },
        colour: tile_colour(k),
        rotation: 0i64,
        is_solid: solid,
        is_destroyed: false,
        sprite: (if solid {
            sh
        } else {
            bh
        }),
    }
}

/// The bricks of one row from column `x` on, in column order; empty tiles
/// produce none.
pub open spec fn row_bricks(row: Seq<u8>, y: int, x: int, uw: int, uh: int, sh: u64, bh: u64) -> Seq<
    GameObject,
>
    decreases row.len() - x,
{
    if 0 <= x < row.len() {
        let rest = row_bricks(row, y, x + 1, uw, uh, sh, bh);
        if (tile_kind_from(row[x]) matches TileKind::Empty) {
            rest
        } else {
            seq![brick_at(row[x], x, y, uw, uh, sh, bh)] + rest
        }
    } else {
        Seq::empty()
    }
}

/// The bricks of the grid from row `y` on, row-major.
pub open spec fn grid_bricks(rows: Seq<Seq<u8>>, y: int, uw: int, uh: int, sh: u64, bh: u64) -> Seq<
    GameObject,
>
    decreases rows.len() - y,
{
    if 0 <= y < rows.len() {
        row_bricks(rows[y], y, 0, uw, uh, sh, bh) + grid_bricks(rows, y + 1, uw, uh, sh, bh)
    } else {
        Seq::empty()
    }
}

/// Whether all rows have the first row's length.
pub open spec fn rows_rectangular(rows: Seq<Seq<u8>>) -> bool {
    forall|j: int| 0 <= j < rows.len() ==> (#[trigger] rows[j]).len() == rows[0].len()
}

/// Whether the grid holds a solid tile.
pub open spec fn grid_has_solid(rows: Seq<Seq<u8>>) -> bool {
    exists|y: int, x: int|
        0 <= y < rows.len() && 0 <= x < rows[y].len() && tile_kind_from(
            #[trigger] rows[y][x],
        ) matches TileKind::Solid
}

/// Whether the grid holds a brick tile that is neither empty nor solid.
pub open spec fn grid_has_regular(rows: Seq<Seq<u8>>) -> bool {
    exists|y: int, x: int|
        0 <= y < rows.len() && 0 <= x < rows[y].len() && !(tile_kind_from(
            #[trigger] rows[y][x],
        ) matches TileKind::Empty) && !(tile_kind_from(rows[y][x]) matches TileKind::Solid)
}

/// Whether some tile of the grid needs a texture the registry cannot
/// resolve.
pub open spec fn missing_texture(rows: Seq<Seq<u8>>, textures: Seq<(String, u64)>) -> bool {
    ||| grid_has_solid(rows) && lookup_spec(textures, "block_solid"@) is None
    ||| grid_has_regular(rows) && lookup_spec(textures, "block"@) is None
}

/// One unit of the level grid: the drawable extent divided evenly among the
/// cells, rounded down.
pub open spec fn unit_size(total: int, count: int) -> int {
    if count > 0 {
        total / count
    } else {
        0
    }
}

/// Magnitude and state bounds every loaded brick satisfies.
pub open spec fn brick_wf(b: GameObject) -> bool {
    &&& 0 <= b.position.x <= DIM_LIMIT
    &&& 0 <= b.position.y <= DIM_LIMIT
    &&& 0 <= b.size.x <= DIM_LIMIT
    &&& 0 <= b.size.y <= DIM_LIMIT
    &&& b.velocity == (Vector2 { x: 0i64, y: 0i64 })
    &&& (b.is_solid ==> !b.is_destroyed)
}

/// See `brick_wf`.
pub open spec fn level_bricks_wf(bricks: Seq<GameObject>) -> bool {
    forall|j: int| 0 <= j < bricks.len() ==> brick_wf(#[trigger] bricks[j])
}

/// Whether every brick is solid or destroyed.
pub open spec fn completed_spec(bricks: Seq<GameObject>) -> bool {
    forall|j: int|
        0 <= j < bricks.len() ==> (#[trigger] bricks[j]).is_solid || bricks[j].is_destroyed
}

/// The draw commands of the live bricks from index `i` on, in storage
/// order, skipping destroyed bricks.
pub open spec fn live_commands(bricks: Seq<GameObject>, i: int) -> Seq<DrawCommand>
    decreases bricks.len() - i,
{
    if 0 <= i < bricks.len() {
        (if !bricks[i].is_destroyed {
            seq![draw_command_of(bricks[i])]
        } else {
            Seq::empty()
        }) + live_commands(bricks, i + 1)
    } else {
        Seq::empty()
    }
}

/// An ordered set of brick entities built once from a tile grid; after
/// construction only the `is_destroyed` flags ever change.
#[derive(Debug)]
pub struct GameLevel {
    pub bricks: Vec<GameObject>,
}

impl GameLevel {
    /// Builds a level from its textual tile grid, for a drawable area
    /// `level_width` by `level_height` subunits.  Each tile becomes one
    /// brick of one grid cell, positioned row-major from the top-left
    /// corner; empty tiles produce no brick.  Fails with `ParseError` on an
    /// invalid token, `EmptyLevelError` on an empty source, `ShapeError` on
    /// rows of unequal length, and `MissingResourceError` when a needed
    /// texture is not in the registry.
    #[verifier::rlimit(100)]
    pub fn new(
        source: &str,
        level_width: i64,
        level_height: i64,
        resources: &ResourceManager,
    ) -> (r: Result<GameLevel, LoadError>)
        requires
            0 < level_width <= DIM_LIMIT,
            0 < level_height <= DIM_LIMIT,
            source.spec_bytes().len() <= 100_000_000,
        ensures
            ({
                let rt = tile_rows(source.spec_bytes());
                let sh = handle_or_zero(lookup_spec(resources.textures@, "block_solid"@));
                let bh = handle_or_zero(lookup_spec(resources.textures@, "block"@));
                match r {
                    Ok(level) => rt matches Some(rows) && rows.len() >= 1 && rows_rectangular(rows)
                        && !missing_texture(rows, resources.textures@) && level.bricks@
                        == grid_bricks(
                        rows,
                        0,
                        unit_size(level_width as int, rows[0].len() as int),
                        unit_size(level_height as int, rows.len() as int),
                        sh,
                        bh,
                    ) && level_bricks_wf(level.bricks@),
                    Err(e) => match e {
                        LoadError::ParseError => rt is None,
                        LoadError::EmptyLevelError => source.spec_bytes().len() == 0,
                        LoadError::ShapeError => rt matches Some(rows) && rows.len() >= 1
                            && !rows_rectangular(rows),
                        LoadError::MissingResourceError => rt matches Some(rows) && rows.len() >= 1
                            && rows_rectangular(rows) && missing_texture(
                            rows,
                            resources.textures@,
                        ),
                    },
                }
            }),
    {
        let bytes = source.as_bytes();
        let tile_data = match read_tile_data(bytes) {
            Ok(t) => t,
            Err(e) => {
                return Err(e);
            },
        };
        let ghost rows = rows_view(tile_data);
        let height = tile_data.len();
        let width = tile_data[0].len();
        let mut j: usize = 1;
        while j < height
            invariant
                1 <= j <= height,
                height == tile_data@.len(),
                rows == rows_view(tile_data),
                tile_rows(source.spec_bytes()) == Option::Some(rows),
                rows.len() >= 1,
                width == rows[0].len(),
                forall|t: int| 0 <= t < j ==> (#[trigger] rows[t]).len() == rows[0].len(),
            decreases height - j,
        {
            if tile_data[j].len() != width {
                proof {
                    assert(rows[j as int].len() != rows[0].len());
                }
                return Err(LoadError::ShapeError);
            }
            j = j + 1;
        }
        proof {
            assert(rows_rectangular(rows));
        }
        let unit_w: i64 = if width > 0 {
            level_width / (width as i64)
        } else {
            0
        };
        let unit_h: i64 = level_height / (height as i64);
        proof {
            if width > 0 {
                vstd::arithmetic::div_mod::lemma_div_pos_is_pos(
                    level_width as int,
                    width as int,
                );
                vstd::arithmetic::div_mod::lemma_div_nonincreasing(
                    level_width as int,
                    width as int,
                );
                vstd::arithmetic::div_mod::lemma_remainder_lower(
                    level_width as int,
                    width as int,
                );
            }
            vstd::arithmetic::div_mod::lemma_div_pos_is_pos(level_height as int, height as int);
            vstd::arithmetic::div_mod::lemma_div_nonincreasing(level_height as int, height as int);
            vstd::arithmetic::div_mod::lemma_remainder_lower(level_height as int, height as int);
            assert(0 <= unit_w <= DIM_LIMIT);
            assert(0 <= unit_h <= DIM_LIMIT);
            assert(unit_w as int == unit_size(level_width as int, rows[0].len() as int));
            assert(unit_h as int == unit_size(level_height as int, rows.len() as int));
            if width > 0 {
                assert((level_width as int) / (width as int) * (width as int) <= level_width);
                assert((unit_w as int) * (width as int) <= level_width);
            }
            assert((level_height as int) / (height as int) * (height as int) <= level_height);
            assert((unit_h as int) * (height as int) <= level_height);
        }
        let ghost sh = handle_or_zero(lookup_spec(resources.textures@, "block_solid"@));
        let ghost bh = handle_or_zero(lookup_spec(resources.textures@, "block"@));
        let mut bricks: Vec<GameObject> = Vec::new();
        let mut y: usize = 0;
        proof {
            assert(bricks@ + grid_bricks(rows, 0, unit_w as int, unit_h as int, sh, bh)
                =~= grid_bricks(rows, 0, unit_w as int, unit_h as int, sh, bh));
        }
        while y < height
            invariant
                0 <= y <= height,
                height == rows.len(),
                rows == rows_view(tile_data),
                tile_rows(source.spec_bytes()) == Option::Some(rows),
                rows.len() >= 1,
                height == tile_data@.len(),
                height <= 100_000_001,
                rows_rectangular(rows),
                width == rows[0].len(),
                width <= 100_000_000,
                0 < level_width <= DIM_LIMIT,
                0 < level_height <= DIM_LIMIT,
                0 <= unit_w <= DIM_LIMIT,
                0 <= unit_h <= DIM_LIMIT,
                width > 0 ==> (unit_w as int) * (width as int) <= level_width,
                (unit_h as int) * (height as int) <= level_height,
                sh == handle_or_zero(lookup_spec(resources.textures@, "block_solid"@)),
                bh == handle_or_zero(lookup_spec(resources.textures@, "block"@)),
                bricks@ + grid_bricks(rows, y as int, unit_w as int, unit_h as int, sh, bh)
                    == grid_bricks(rows, 0, unit_w as int, unit_h as int, sh, bh),
                level_bricks_wf(bricks@),
                lookup_spec(resources.textures@, "block_solid"@) is None ==> (forall|t: int, x: int|
                    0 <= t < y && 0 <= x < rows[t].len() ==> !(tile_kind_from(
                        #[trigger] rows[t][x],
                    ) matches TileKind::Solid)),
                lookup_spec(resources.textures@, "block"@) is None ==> (forall|t: int, x: int|
                    0 <= t < y && 0 <= x < rows[t].len() ==> (tile_kind_from(
                        #[trigger] rows[t][x],
                    ) matches TileKind::Empty) || (tile_kind_from(rows[t][x])
                        matches TileKind::Solid)),
            decreases height - y,
        {
            let row_len = tile_data[y].len();
            proof {
                assert(rows[y as int].len() == row_len);
                assert(row_len == width);
            }
            let mut x: usize = 0;
            proof {
                assert(grid_bricks(rows, y as int, unit_w as int, unit_h as int, sh, bh)
                    == row_bricks(rows[y as int], y as int, 0, unit_w as int, unit_h as int, sh, bh)
                    + grid_bricks(rows, y + 1, unit_w as int, unit_h as int, sh, bh));
            }
            while x < row_len
                invariant
                    0 <= x <= row_len,
                    0 <= y < height,
                    height == rows.len(),
                    rows == rows_view(tile_data),
                    tile_rows(source.spec_bytes()) == Option::Some(rows),
                    rows.len() >= 1,
                    height == tile_data@.len(),
                    rows_rectangular(rows),
                    width == rows[0].len(),
                    width <= 100_000_000,
                    row_len == rows[y as int].len(),
                    row_len == width,
                    y < 100_000_001,
                    0 < level_width <= DIM_LIMIT,
                    0 < level_height <= DIM_LIMIT,
                    0 <= unit_w <= DIM_LIMIT,
                    0 <= unit_h <= DIM_LIMIT,
                    width > 0 ==> (unit_w as int) * (width as int) <= level_width,
                    (unit_h as int) * (height as int) <= level_height,
                    sh == handle_or_zero(lookup_spec(resources.textures@, "block_solid"@)),
                    bh == handle_or_zero(lookup_spec(resources.textures@, "block"@)),
                    bricks@ + row_bricks(
                        rows[y as int],
                        y as int,
                        x as int,
                        unit_w as int,
                        unit_h as int,
                        sh,
                        bh,
                    ) + grid_bricks(rows, y + 1, unit_w as int, unit_h as int, sh, bh)
                        == grid_bricks(rows, 0, unit_w as int, unit_h as int, sh, bh),
                    level_bricks_wf(bricks@),
                    lookup_spec(resources.textures@, "block_solid"@) is None ==> (forall|
                        t: int,
                        u: int,
                    |
                        (0 <= t < y && 0 <= u < rows[t].len()) || (t == y && 0 <= u < x)
                            ==> !(tile_kind_from(#[trigger] rows[t][u]) matches TileKind::Solid)),
                    lookup_spec(resources.textures@, "block"@) is None ==> (forall|t: int, u: int|
                        (0 <= t < y && 0 <= u < rows[t].len()) || (t == y && 0 <= u < x)
                            ==> (tile_kind_from(#[trigger] rows[t][u]) matches TileKind::Empty) || (
                        tile_kind_from(rows[t][u]) matches TileKind::Solid)),
                decreases row_len - x,
            {
                let code = tile_data[y][x];
                proof {
                    assert(rows[y as int][x as int] == code);
                    assert(row_bricks(
                        rows[y as int],
                        y as int,
                        x as int,
                        unit_w as int,
                        unit_h as int,
                        sh,
                        bh,
                    ) == (if (tile_kind_from(code) matches TileKind::Empty) {
                        Seq::<GameObject>::empty()
                    } else {
                        seq![
                            brick_at(
                                code,
                                x as int,
                                y as int,
                                unit_w as int,
                                unit_h as int,
                                sh,
                                bh,
                            ),
                        ]
                    }) + row_bricks(
                        rows[y as int],
                        y as int,
                        x + 1,
                        unit_w as int,
                        unit_h as int,
                        sh,
                        bh,
                    ));
                }
                let kind = TileKind::from(code);
                if !matches!(kind, TileKind::Empty) {
                    let sprite = match resources.texture(kind.texture_name()) {
                        Some(h) => h,
                        None => {
                            proof {
                                let kk = tile_kind_from(code);
                                assert(rows[y as int][x as int] == code);
                                if (kk matches TileKind::Solid) {
                                    assert(grid_has_solid(rows));
                                    assert(lookup_spec(
                                        resources.textures@,
                                        "block_solid"@,
                                    ) is None);
                                } else {
                                    assert(grid_has_regular(rows));
                                    assert(lookup_spec(resources.textures@, "block"@) is None);
                                }
                            }
                            return Err(LoadError::MissingResourceError);
                        },
                    };
                    proof {
                        assert((x as int) * (unit_w as int) <= (unit_w as int) * (width as int)
                            - (unit_w as int)) by (nonlinear_arith)
                            requires
                                0 <= x as int <= width as int - 1,
                                0 <= unit_w as int,
                        ;
                        assert((y as int) * (unit_h as int) <= (unit_h as int) * (height as int)
                            - (unit_h as int)) by (nonlinear_arith)
                            requires
                                0 <= y as int <= height as int - 1,
                                0 <= unit_h as int,
                        ;
                        assert(0 <= (x as int) * (unit_w as int)) by (nonlinear_arith)
                            requires
                                0 <= x as int && 0 <= unit_w as int,
                        ;
                        assert(0 <= (y as int) * (unit_h as int)) by (nonlinear_arith)
                            requires
                                0 <= y as int && 0 <= unit_h as int,
                        ;
                    }
                    let px = (x as i64) * unit_w;
                    let py = (y as i64) * unit_h;
                    let brick = GameObject {
                        position: Vector2 { x: px, y: py },
                        size: Vector2 { x: unit_w, y: unit_h },
                        velocity: Vector2 { x: 0, y: 0 },
                        colour: kind.colour(),
                        rotation: 0,
                        is_solid: kind.is_solid(),
                        is_destroyed: false,
                        sprite,
                    };
                    let ghost bricks0 = bricks@;
                    bricks.push(brick);
                    proof {
                        let head = brick_at(
                            code,
                            x as int,
                            y as int,
                            unit_w as int,
                            unit_h as int,
                            sh,
                            bh,
                        );
                        assert(brick == head);
                        assert(bricks0 + (seq![head] + row_bricks(
                            rows[y as int],
                            y as int,
                            x + 1,
                            unit_w as int,
                            unit_h as int,
                            sh,
                            bh,
                        )) =~= bricks0.push(head) + row_bricks(
                            rows[y as int],
                            y as int,
                            x + 1,
                            unit_w as int,
                            unit_h as int,
                            sh,
                            bh,
                        ));
                        assert((bricks0 + (seq![head] + row_bricks(
                            rows[y as int],
                            y as int,
                            x + 1,
                            unit_w as int,
                            unit_h as int,
                            sh,
                            bh,
                        ))) + grid_bricks(rows, y + 1, unit_w as int, unit_h as int, sh, bh)
                            =~= (bricks0 + (seq![head] + row_bricks(
                            rows[y as int],
                            y as int,
                            x as int,
                            unit_w as int,
                            unit_h as int,
                            sh,
                            bh,
                        ).skip(1))) + grid_bricks(rows, y + 1, unit_w as int, unit_h as int, sh, bh));
                    }
                } else {
                    proof {
                        assert(Seq::<GameObject>::empty() + row_bricks(
                            rows[y as int],
                            y as int,
                            x + 1,
                            unit_w as int,
                            unit_h as int,
                            sh,
                            bh,
                        ) =~= row_bricks(
                            rows[y as int],
                            y as int,
                            x + 1,
                            unit_w as int,
                            unit_h as int,
                            sh,
                            bh,
                        ));
                    }
                }
                x = x + 1;
            }
            proof {
                assert(row_bricks(
                    rows[y as int],
                    y as int,
                    row_len as int,
                    unit_w as int,
                    unit_h as int,
                    sh,
                    bh,
                ) =~= Seq::<GameObject>::empty());
                assert(bricks@ + Seq::<GameObject>::empty() =~= bricks@);
            }
            y = y + 1;
        }
        proof {
            assert(grid_bricks(rows, height as int, unit_w as int, unit_h as int, sh, bh)
                =~= Seq::<GameObject>::empty());
            assert(bricks@ + Seq::<GameObject>::empty() =~= bricks@);
            assert(!missing_texture(rows, resources.textures@));
        }
        Ok(GameLevel { bricks })
    }

    /// Whether the level is finished: every brick is solid or destroyed
    /// (vacuously true for an all-solid level).
    pub fn is_completed(&self) -> (r: bool)
        ensures
            r == completed_spec(self.bricks@),
    {
        let mut j: usize = 0;
        while j < self.bricks.len()
            invariant
                0 <= j <= self.bricks@.len(),
                forall|t: int|
                    0 <= t < j ==> (#[trigger] self.bricks@[t]).is_solid
                        || self.bricks@[t].is_destroyed,
            decreases self.bricks@.len() - j,
        {
            let b = self.bricks[j];
            if !b.is_solid && !b.is_destroyed {
                return false;
            }
            j = j + 1;
        }
        true
    }

    /// Clears every brick's destroyed flag; count, order and everything
    /// else are kept.
    pub fn reset(&mut self)
        ensures
            final(self).bricks@.len() == old(self).bricks@.len(),
            forall|t: int|
                0 <= t < old(self).bricks@.len() ==> final(self).bricks@[t] == (GameObject {
                    is_destroyed: false,
                    ..old(self).bricks@[t]
                }),
    {
        let mut j: usize = 0;
        while j < self.bricks.len()
            invariant
                0 <= j <= self.bricks@.len(),
                self.bricks@.len() == old(self).bricks@.len(),
                forall|t: int|
                    0 <= t < j ==> self.bricks@[t] == (GameObject {
                        is_destroyed: false,
                        ..old(self).bricks@[t]
                    }),
                forall|t: int| j <= t < self.bricks@.len() ==> self.bricks@[t] == old(
                    self,
                ).bricks@[t],
            decreases self.bricks@.len() - j,
        {
            let mut b = self.bricks[j];
            b.is_destroyed = false;
            self.bricks[j] = b;
            j = j + 1;
        }
    }

    /// Records one sprite per live brick, in storage order.
    pub fn draw(&self, renderer: &mut SpriteRenderer)
        ensures
            final(renderer).commands@ == old(renderer).commands@ + live_commands(self.bricks@, 0),
    {
        let mut j: usize = 0;
        proof {
            assert(old(renderer).commands@ + Seq::<DrawCommand>::empty() =~= old(
                renderer,
            ).commands@);
        }
        while j < self.bricks.len()
            invariant
                0 <= j <= self.bricks@.len(),
                renderer.commands@ + live_commands(self.bricks@, j as int) == old(
                    renderer,
                ).commands@ + live_commands(self.bricks@, 0),
            decreases self.bricks@.len() - j,
        {
            let b = self.bricks[j];
            let ghost cmds0 = renderer.commands@;
            if !b.is_destroyed {
                b.draw(renderer);
            }
            proof {
                if !b.is_destroyed {
                    assert(cmds0.push(draw_command_of(b)) + live_commands(self.bricks@, j + 1)
                        =~= cmds0 + (seq![draw_command_of(b)] + live_commands(
                        self.bricks@,
                        j + 1,
                    )));
                } else {
                    assert(Seq::<DrawCommand>::empty() + live_commands(self.bricks@, j + 1)
                        =~= live_commands(self.bricks@, j + 1));
                }
            }
            j = j + 1;
        }
        proof {
            assert(live_commands(self.bricks@, self.bricks@.len() as int)
                =~= Seq::<DrawCommand>::empty());
            assert(renderer.commands@ + Seq::<DrawCommand>::empty() =~= renderer.commands@);
        }
    }

    /// How many bricks the level holds, destroyed ones included.
    pub fn brick_count(&self) -> (r: usize)
        ensures
            r == self.bricks@.len(),
    {
        self.bricks.len()
    }

    /// The brick at `j`.
    pub fn brick(&self, j: usize) -> (r: GameObject)
        requires
            j < self.bricks@.len(),
        ensures
            r == self.bricks@[j as int],
    {
        self.bricks[j]
    }
}

} // verus!
