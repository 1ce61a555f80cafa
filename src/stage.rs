use vstd::prelude::*;
use vstd::string::StringSliceAdditionalSpecFns;

use crate::components::BlockType;
use crate::constants::{EDITOR_COLS, EDITOR_ROWS};
use crate::levels::{grid_shape, grid_view, Grid};
use crate::storage::{digits_value, is_digit};
use crate::text::{ascii_chars, ascii_to_string, decimal, is_ascii_bytes, lemma_decimal_ascii_digits, lemma_decimal_value, push_decimal};

verus! {

/// The URL-safe base64 digit for a six-bit value.
pub open spec fn b64_digit(v: int) -> u8 {
    if v < 26 {
        (65 + v) as u8
    } else if v < 52 {
        (97 + v - 26) as u8
    } else if v < 62 {
        (48 + v - 52) as u8
    } else if v == 62 {
        45u8
    } else {
        95u8
    }
}

/// The six-bit value of a URL-safe base64 digit, if it is one.
pub open spec fn b64_value(c: u8) -> Option<int> {
    if 65 <= c <= 90 {
        Some(c - 65)
    } else if 97 <= c <= 122 {
        Some(c - 97 + 26)
    } else if 48 <= c <= 57 {
        Some(c - 48 + 52)
    } else if c == 45 {
        Some(62)
    } else if c == 95 {
        Some(63)
    } else {
        None
    }
}

/// URL-safe base64 without padding: each group of three bytes becomes four
/// digits; a final group of one or two bytes becomes two or three digits.
pub open spec fn b64_encode_spec(b: Seq<u8>) -> Seq<u8>
    decreases b.len(),
{
    if b.len() == 0 {
        Seq::empty()
    } else if b.len() == 1 {
        seq![b64_digit(b[0] as int / 4), b64_digit((b[0] as int % 4) * 16)]
    } else if b.len() == 2 {
        seq![
            b64_digit(b[0] as int / 4),
            b64_digit((b[0] as int % 4) * 16 + b[1] as int / 16),
            b64_digit((b[1] as int % 16) * 4),
        ]
    } else {
        seq![
            b64_digit(b[0] as int / 4),
            b64_digit((b[0] as int % 4) * 16 + b[1] as int / 16),
            b64_digit((b[1] as int % 16) * 4 + b[2] as int / 64),
            b64_digit(b[2] as int % 64),
        ] + b64_encode_spec(b.subrange(3, b.len() as int))
    }
}

/// The bytes of one group of up to four digits, with missing digits read as
/// zero: one byte for a group of one or two digits, two for three, three for
/// four.
pub open spec fn b64_group(s: Seq<u8>) -> Option<Seq<u8>> {
    let n = s.len();
    let d = |i: int| if i < n { b64_value(s[i]) } else { Some(0) };
    if d(0) is None || d(1) is None || d(2) is None || d(3) is None {
        None
    } else {
        let v0 = d(0)->0;
        let v1 = d(1)->0;
        let v2 = d(2)->0;
        let v3 = d(3)->0;
        let b0 = (v0 * 4 + v1 / 16) as u8;
        let b1 = ((v1 % 16) * 16 + v2 / 4) as u8;
        let b2 = ((v2 % 4) * 64 + v3) as u8;
        Some(
            if n > 3 {
                seq![b0, b1, b2]
            } else if n > 2 {
                seq![b0, b1]
            } else {
                seq![b0]
            },
        )
    }
}

/// Decoding of URL-safe base64 without padding, four digits at a time; any
/// other character makes the whole text invalid.
pub open spec fn b64_decode_spec(s: Seq<u8>) -> Option<Seq<u8>>
    decreases s.len(),
{
    if s.len() == 0 {
        Some(Seq::empty())
    } else if s.len() <= 4 {
        b64_group(s)
    } else {
        match b64_group(s.subrange(0, 4)) {
            None => None,
            Some(g) => match b64_decode_spec(s.subrange(4, s.len() as int)) {
                None => None,
                Some(rest) => Some(g + rest),
            },
        }
    }
}

proof fn lemma_digit_value(v: int)
    requires
        0 <= v < 64,
    ensures
        b64_value(b64_digit(v)) == Some(v),
        b64_digit(v) < 128,
{
}

proof fn lemma_b64_ascii(b: Seq<u8>)
    ensures
        is_ascii_bytes(b64_encode_spec(b)),
        b64_encode_spec(b).len() == if b.len() % 3 == 0 {
            b.len() / 3 * 4
        } else {
            b.len() / 3 * 4 + b.len() % 3 + 1
        },
    decreases b.len(),
{
    if b.len() >= 3 {
        lemma_b64_ascii(b.subrange(3, b.len() as int));
    }
    if b.len() > 0 {
        lemma_digit_value(b[0] as int / 4);
        if b.len() == 1 {
            lemma_digit_value((b[0] as int % 4) * 16);
        } else {
            lemma_digit_value((b[0] as int % 4) * 16 + b[1] as int / 16);
            if b.len() == 2 {
                lemma_digit_value((b[1] as int % 16) * 4);
            } else {
                lemma_digit_value((b[1] as int % 16) * 4 + b[2] as int / 64);
                lemma_digit_value(b[2] as int % 64);
            }
        }
    }
}

/// Decoding what was encoded gives back the bytes.
pub proof fn lemma_b64_round_trip(b: Seq<u8>)
    ensures
        b64_decode_spec(b64_encode_spec(b)) == Some(b),
    decreases b.len(),
{
    let e = b64_encode_spec(b);
    if b.len() == 0 {
    } else if b.len() == 1 {
        lemma_digit_value(b[0] as int / 4);
        lemma_digit_value((b[0] as int % 4) * 16);
        assert(b64_group(e).unwrap() =~= b);
    } else if b.len() == 2 {
        lemma_digit_value(b[0] as int / 4);
        lemma_digit_value((b[0] as int % 4) * 16 + b[1] as int / 16);
        lemma_digit_value((b[1] as int % 16) * 4);
        assert(b64_group(e).unwrap() =~= b);
    } else {
        let rest = b.subrange(3, b.len() as int);
        lemma_digit_value(b[0] as int / 4);
        lemma_digit_value((b[0] as int % 4) * 16 + b[1] as int / 16);
        lemma_digit_value((b[1] as int % 16) * 4 + b[2] as int / 64);
        lemma_digit_value(b[2] as int % 64);
        lemma_b64_round_trip(rest);
        lemma_b64_ascii(rest);
        let head = e.subrange(0, 4);
        assert(b64_group(head).unwrap() =~= b.subrange(0, 3));
        assert(e.subrange(4, e.len() as int) =~= b64_encode_spec(rest));
        if e.len() <= 4 {
            assert(rest.len() == 0);
            assert(e =~= head);
        }
        assert(b.subrange(0, 3) + rest =~= b);
    }
}

fn digit(v: u8) -> (c: u8)
    requires
        v < 64,
    ensures
        c == b64_digit(v as int),
{
    if v < 26 {
        65 + v
    } else if v < 52 {
        97 + v - 26
    } else if v < 62 {
        48 + v - 52
    } else if v == 62 {
        45
    } else {
        95
    }
}

fn digit_value(c: u8) -> (r: Option<u8>)
    ensures
        r matches Some(v) ==> b64_value(c) == Some(v as int),
        r is None ==> b64_value(c) is None,
{
    if 65 <= c && c <= 90 {
        Some(c - 65)
    } else if 97 <= c && c <= 122 {
        Some(c - 97 + 26)
    } else if 48 <= c && c <= 57 {
        Some(c - 48 + 52)
    } else if c == 45 {
        Some(62)
    } else if c == 95 {
        Some(63)
    } else {
        None
    }
}

/// Encodes bytes as URL-safe base64 without padding.
pub fn base64_encode(input: &[u8]) -> (r: String)
    ensures
        r@ == ascii_chars(b64_encode_spec(input@)),
{
    let n = input.len();
    let mut out: Vec<u8> = Vec::new();
    let mut i: usize = 0;
    assert(input@.subrange(0, n as int) =~= input@);
    assert(out@ + b64_encode_spec(input@) =~= b64_encode_spec(input@));
    while i < n
        invariant
            n == input@.len(),
            i <= n,
            out@ + b64_encode_spec(input@.subrange(i as int, n as int)) == b64_encode_spec(input@),
        decreases n - i,
    {
        let ghost rest = input@.subrange(i as int, n as int);
        let b0 = input[i];
        out.push(digit(b0 / 4));
        if n - i == 1 {
            out.push(digit((b0 % 4) * 16));
            i = n;
            assert(out@ =~= b64_encode_spec(input@));
        } else {
            let b1 = input[i + 1];
            out.push(digit((b0 % 4) * 16 + b1 / 16));
            if n - i == 2 {
                out.push(digit((b1 % 16) * 4));
                i = n;
                assert(out@ =~= b64_encode_spec(input@));
            } else {
                let b2 = input[i + 2];
                out.push(digit((b1 % 16) * 4 + b2 / 64));
                out.push(digit(b2 % 64));
                assert(rest.subrange(3, rest.len() as int) =~= input@.subrange(i + 3, n as int));
                i = i + 3;
                assert(out@ + b64_encode_spec(input@.subrange(i as int, n as int)) =~= b64_encode_spec(input@));
            }
        }
    }
    assert(input@.subrange(n as int, n as int) =~= Seq::<u8>::empty());
    assert(out@ =~= b64_encode_spec(input@));
    proof {
        lemma_b64_ascii(input@);
    }
    ascii_to_string(out)
}

/// Decodes URL-safe base64 without padding; `None` when a character is not a
/// base64 digit.
pub fn base64_decode(input: &str) -> (r: Option<Vec<u8>>)
    ensures
        r matches Some(v) ==> b64_decode_spec(input.spec_bytes()) == Some(v@),
        r is None ==> b64_decode_spec(input.spec_bytes()) is None,
{
    let s = input.as_bytes();
    let n = s.len();
    let mut out: Vec<u8> = Vec::new();
    let mut i: usize = 0;
    assert(s@.subrange(0, n as int) =~= s@);
    proof {
        match b64_decode_spec(s@) {
            Some(r0) => {
                assert(out@ + r0 =~= r0);
            },
            None => {},
        }
    }
    while i < n
        invariant
            n == s@.len(),
            s@ == input.spec_bytes(),
            i <= n,
            b64_decode_spec(s@) == match b64_decode_spec(s@.subrange(i as int, n as int)) {
                Some(rest) => Some(out@ + rest),
                None => None::<Seq<u8>>,
            },
        decreases n - i,
    {
        let ghost rest = s@.subrange(i as int, n as int);
        let remaining = n - i;
        let ghost grp = if remaining <= 4 { rest } else { rest.subrange(0, 4) };
        assert(grp.len() == if remaining <= 4 { remaining as int } else { 4 });
        let v0 = match digit_value(s[i]) {
            Some(v) => v,
            None => {
                assert(grp[0] == s@[i as int]);
                return None;
            },
        };
        let v1 = if remaining > 1 {
            match digit_value(s[i + 1]) {
                Some(v) => v,
                None => {
                    assert(grp[1] == s@[i + 1]);
                    return None;
                },
            }
        } else {
            0
        };
        let v2 = if remaining > 2 {
            match digit_value(s[i + 2]) {
                Some(v) => v,
                None => {
                    assert(grp[2] == s@[i + 2]);
                    return None;
                },
            }
        } else {
            0
        };
        let v3 = if remaining > 3 {
            match digit_value(s[i + 3]) {
                Some(v) => v,
                None => {
                    assert(grp[3] == s@[i + 3]);
                    return None;
                },
            }
        } else {
            0
        };
        assert(grp.len() > 1 ==> grp[1] == s@[i + 1]);
        assert(grp.len() > 2 ==> grp[2] == s@[i + 2]);
        assert(grp.len() > 3 ==> grp[3] == s@[i + 3]);
        assert(grp[0] == s@[i as int]);
        let ghost before = out@;
        out.push(v0 * 4 + v1 / 16);
        if remaining > 2 {
            out.push((v1 % 16) * 16 + v2 / 4);
        }
        if remaining > 3 {
            out.push((v2 % 4) * 64 + v3);
        }
        assert(b64_group(grp) == Some(out@.subrange(before.len() as int, out@.len() as int)));
        if remaining <= 4 {
            i = n;
            assert(out@ =~= before + b64_group(grp).unwrap());
            assert(s@.subrange(i as int, n as int) =~= Seq::<u8>::empty());
        } else {
            assert(rest.subrange(4, rest.len() as int) =~= s@.subrange(i + 4, n as int));
            i = i + 4;
            assert(before + b64_group(grp).unwrap() =~= out@);
            proof {
                match b64_decode_spec(s@.subrange(i as int, n as int)) {
                    Some(r2) => {
                        assert(before + (b64_group(grp).unwrap() + r2) =~= out@ + r2);
                    },
                    None => {},
                }
            }
        }
    }
    assert(s@.subrange(i as int, n as int) =~= Seq::<u8>::empty());
    assert(out@ + Seq::<u8>::empty() =~= out@);
    Some(out)
}


// The grid text: a JSON array of rows, each an array of cells; a cell is
// `null`, `"Normal"`, `"Steel"`, `"Explosive"` or
// `{"Durable":{"hits_remaining":N}}`, with no spaces.

pub open spec fn lit_null() -> Seq<u8> {
    seq![110u8, 117, 108, 108]
}

pub open spec fn lit_normal() -> Seq<u8> {
    seq![34u8, 78, 111, 114, 109, 97, 108, 34]
}

pub open spec fn lit_steel() -> Seq<u8> {
    seq![34u8, 83, 116, 101, 101, 108, 34]
}

pub open spec fn lit_explosive() -> Seq<u8> {
    seq![34u8, 69, 120, 112, 108, 111, 115, 105, 118, 101, 34]
}

/// `{"Durable":{"hits_remaining":`
pub open spec fn lit_durable_open() -> Seq<u8> {
    seq![
        123u8, 34, 68, 117, 114, 97, 98, 108, 101, 34, 58, 123, 34, 104, 105, 116, 115, 95, 114,
        101, 109, 97, 105, 110, 105, 110, 103, 34, 58,
    ]
}

pub open spec fn lit_durable_close() -> Seq<u8> {
    seq![125u8, 125]
}

pub open spec fn cell_json(c: Option<BlockType>) -> Seq<u8> {
    match c {
        None => lit_null(),
        Some(BlockType::Normal) => lit_normal(),
        Some(BlockType::Steel) => lit_steel(),
        Some(BlockType::Explosive) => lit_explosive(),
        Some(BlockType::Durable { hits_remaining }) => lit_durable_open() + decimal(
            hits_remaining as nat,
        ) + lit_durable_close(),
    }
}

/// Cells joined by commas.
pub open spec fn cells_json(cs: Seq<Option<BlockType>>) -> Seq<u8>
    decreases cs.len(),
{
    if cs.len() == 0 {
        Seq::empty()
    } else if cs.len() == 1 {
        cell_json(cs[0])
    } else {
        cells_json(cs.drop_last()) + seq![44u8] + cell_json(cs.last())
    }
}

pub open spec fn row_json(cs: Seq<Option<BlockType>>) -> Seq<u8> {
    seq![91u8] + cells_json(cs) + seq![93u8]
}

/// Rows joined by commas.
pub open spec fn rows_json(rs: Seq<Seq<Option<BlockType>>>) -> Seq<u8>
    decreases rs.len(),
{
    if rs.len() == 0 {
        Seq::empty()
    } else if rs.len() == 1 {
        row_json(rs[0])
    } else {
        rows_json(rs.drop_last()) + seq![44u8] + row_json(rs.last())
    }
}

/// The text of a grid.
pub open spec fn grid_json(g: Seq<Seq<Option<BlockType>>>) -> Seq<u8> {
    seq![91u8] + rows_json(g) + seq![93u8]
}

pub open spec fn starts_with(b: Seq<u8>, pos: int, lit: Seq<u8>) -> bool {
    0 <= pos && pos + lit.len() <= b.len() && b.subrange(pos, pos + lit.len()) == lit
}

pub open spec fn byte_at(b: Seq<u8>, pos: int, c: u8) -> bool {
    0 <= pos < b.len() && b[pos] == c
}

/// End of the run of decimal digits starting at `pos`.
pub open spec fn digit_run_end(b: Seq<u8>, pos: int) -> int
    decreases b.len() - pos,
{
    if 0 <= pos < b.len() && is_digit(b[pos]) {
        digit_run_end(b, pos + 1)
    } else {
        pos
    }
}

/// A number at `pos`: a run of digits without a leading zero whose value fits.
pub open spec fn parse_decimal_spec(b: Seq<u8>, pos: int) -> Option<(u32, int)> {
    let e = digit_run_end(b, pos);
    if e <= pos || (b[pos] == 48 && e - pos > 1) || digits_value(b.subrange(pos, e)) > u32::MAX {
        None
    } else {
        Some((digits_value(b.subrange(pos, e)) as u32, e))
    }
}

/// A cell at `pos`, and where it ends.
pub open spec fn parse_cell_spec(b: Seq<u8>, pos: int) -> Option<(Option<BlockType>, int)> {
    if starts_with(b, pos, lit_null()) {
        Some((None, pos + 4))
    } else if starts_with(b, pos, lit_normal()) {
        Some((Some(BlockType::Normal), pos + 8))
    } else if starts_with(b, pos, lit_steel()) {
        Some((Some(BlockType::Steel), pos + 7))
    } else if starts_with(b, pos, lit_explosive()) {
        Some((Some(BlockType::Explosive), pos + 11))
    } else if starts_with(b, pos, lit_durable_open()) {
        match parse_decimal_spec(b, pos + 29) {
            Some((h, e)) => if starts_with(b, e, lit_durable_close()) {
                Some((Some(BlockType::Durable { hits_remaining: h }), e + 2))
            } else {
                None
            },
            None => None,
        }
    } else {
        None
    }
}

/// `k` cells separated by commas at `pos`.
pub open spec fn parse_cells_spec(b: Seq<u8>, pos: int, k: nat) -> Option<(Seq<Option<BlockType>>, int)>
    decreases k,
{
    if k == 0 {
        Some((Seq::empty(), pos))
    } else if k == 1 {
        match parse_cell_spec(b, pos) {
            Some((c, e)) => Some((seq![c], e)),
            None => None,
        }
    } else {
        match parse_cells_spec(b, pos, (k - 1) as nat) {
            Some((cs, p)) => if byte_at(b, p, 44) {
                match parse_cell_spec(b, p + 1) {
                    Some((c, e)) => Some((cs.push(c), e)),
                    None => None,
                }
            } else {
                None
            },
            None => None,
        }
    }
}

/// A bracketed row of exactly as many cells as the editor grid has columns.
pub open spec fn parse_row_spec(b: Seq<u8>, pos: int) -> Option<(Seq<Option<BlockType>>, int)> {
    if byte_at(b, pos, 91) {
        match parse_cells_spec(b, pos + 1, EDITOR_COLS as nat) {
            Some((cs, e)) => if byte_at(b, e, 93) {
                Some((cs, e + 1))
            } else {
                None
            },
            None => None,
        }
    } else {
        None
    }
}

/// `k` rows separated by commas at `pos`.
pub open spec fn parse_rows_spec(b: Seq<u8>, pos: int, k: nat) -> Option<(Seq<Seq<Option<BlockType>>>, int)>
    decreases k,
{
    if k == 0 {
        Some((Seq::empty(), pos))
    } else if k == 1 {
        match parse_row_spec(b, pos) {
            Some((r, e)) => Some((seq![r], e)),
            None => None,
        }
    } else {
        match parse_rows_spec(b, pos, (k - 1) as nat) {
            Some((rs, p)) => if byte_at(b, p, 44) {
                match parse_row_spec(b, p + 1) {
                    Some((r, e)) => Some((rs.push(r), e)),
                    None => None,
                }
            } else {
                None
            },
            None => None,
        }
    }
}

/// The grid a text stands for: a bracketed list of exactly as many rows as
/// the editor grid has, and nothing after it.
pub open spec fn grid_decode_spec(b: Seq<u8>) -> Option<Seq<Seq<Option<BlockType>>>> {
    if byte_at(b, 0, 91) {
        match parse_rows_spec(b, 1, EDITOR_ROWS as nat) {
            Some((rs, e)) => if byte_at(b, e, 93) && e + 1 == b.len() {
                Some(rs)
            } else {
                None
            },
            None => None,
        }
    } else {
        None
    }
}

proof fn lemma_digit_run(b: Seq<u8>, pos: int, k: int)
    requires
        0 <= pos,
        0 <= k,
        pos + k <= b.len(),
        forall|i: int| pos <= i < pos + k ==> is_digit(#[trigger] b[i]),
        pos + k == b.len() || !is_digit(b[pos + k]),
    ensures
        digit_run_end(b, pos) == pos + k,
    decreases k,
{
    if k > 0 {
        lemma_digit_run(b, pos + 1, k - 1);
    }
}

proof fn lemma_parse_decimal_canonical(b: Seq<u8>, pos: int, v: u32)
    requires
        starts_with(b, pos, decimal(v as nat)),
        pos + decimal(v as nat).len() == b.len() || !is_digit(b[pos + decimal(v as nat).len()]),
    ensures
        parse_decimal_spec(b, pos) == Some((v, pos + decimal(v as nat).len())),
{
    let d = decimal(v as nat);
    lemma_decimal_ascii_digits(v as nat);
    lemma_decimal_value(v as nat);
    assert forall|i: int| pos <= i < pos + d.len() implies is_digit(#[trigger] b[i]) by {
        assert(b[i] == d[i - pos]);
    }
    lemma_digit_run(b, pos, d.len() as int);
    assert(b.subrange(pos, pos + d.len()) == d);
    assert(b[pos] == d[0]);
}

proof fn lemma_parse_cell_canonical(b: Seq<u8>, pos: int, c: Option<BlockType>)
    requires
        starts_with(b, pos, cell_json(c)),
    ensures
        parse_cell_spec(b, pos) == Some((c, pos + cell_json(c).len())),
{
    let j = cell_json(c);
    assert(b[pos] == j[0]);
    match c {
        None => {},
        Some(BlockType::Normal) => {
            assert(b[pos] == 34 && b[pos + 1] == j[1]);
            assert(!starts_with(b, pos, lit_steel())) by {
                if starts_with(b, pos, lit_steel()) {
                    assert(b[pos + 1] == lit_steel()[1]);
                }
            }
        },
        Some(BlockType::Steel) => {
            assert(b[pos + 1] == j[1]);
            assert(!starts_with(b, pos, lit_normal())) by {
                if starts_with(b, pos, lit_normal()) {
                    assert(b[pos + 1] == lit_normal()[1]);
                }
            }
        },
        Some(BlockType::Explosive) => {
            assert(b[pos + 1] == j[1]);
            assert(!starts_with(b, pos, lit_normal())) by {
                if starts_with(b, pos, lit_normal()) {
                    assert(b[pos + 1] == lit_normal()[1]);
                }
            }
            assert(!starts_with(b, pos, lit_steel())) by {
                if starts_with(b, pos, lit_steel()) {
                    assert(b[pos + 1] == lit_steel()[1]);
                }
            }
        },
        Some(BlockType::Durable { hits_remaining }) => {
            let d = decimal(hits_remaining as nat);
            lemma_decimal_ascii_digits(hits_remaining as nat);
            assert(b.subrange(pos, pos + 29) =~= lit_durable_open()) by {
                assert(j.subrange(0, 29) =~= lit_durable_open());
                assert(b.subrange(pos, pos + 29) =~= j.subrange(0, 29));
            }
            assert(b.subrange(pos + 29, pos + (29 + d.len() as int)) =~= d) by {
                assert(b.subrange(pos + 29, pos + (29 + d.len() as int)) =~= j.subrange(29, (29 + d.len() as int)));
                assert(j.subrange(29, (29 + d.len() as int)) =~= d);
            }
            let e = pos + (29 + d.len() as int);
            assert(b[e] == j[(29 + d.len() as int)]);
            assert(b[e] == 125);
            lemma_parse_decimal_canonical(b, pos + 29, hits_remaining);
            assert(b.subrange(e, e + 2) =~= lit_durable_close()) by {
                assert(b.subrange(e, e + 2) =~= j.subrange((29 + d.len() as int), (31 + d.len() as int)));
            }
        },
    }
}

proof fn lemma_parse_cells_canonical(b: Seq<u8>, pos: int, cs: Seq<Option<BlockType>>)
    requires
        cs.len() >= 1,
        starts_with(b, pos, cells_json(cs)),
    ensures
        parse_cells_spec(b, pos, cs.len()) == Some((cs, pos + cells_json(cs).len())),
    decreases cs.len(),
{
    if cs.len() == 1 {
        lemma_parse_cell_canonical(b, pos, cs[0]);
        assert(seq![cs[0]] =~= cs);
    } else {
        let init = cs.drop_last();
        let ij = cells_json(init);
        let j = cells_json(cs);
        assert(j == ij + seq![44u8] + cell_json(cs.last()));
        assert(b.subrange(pos, pos + ij.len()) =~= ij) by {
            assert(b.subrange(pos, pos + ij.len()) =~= j.subrange(0, ij.len() as int));
        }
        lemma_parse_cells_canonical(b, pos, init);
        let p = pos + ij.len();
        assert(b[p] == j[ij.len() as int]);
        let cj = cell_json(cs.last());
        assert(b.subrange(p + 1, p + (1 + cj.len() as int)) =~= cj) by {
            assert(b.subrange(p + 1, p + (1 + cj.len() as int)) =~= j.subrange((ij.len() as int + 1), j.len() as int));
        }
        lemma_parse_cell_canonical(b, p + 1, cs.last());
        assert(init.push(cs.last()) =~= cs);
    }
}

proof fn lemma_parse_row_canonical(b: Seq<u8>, pos: int, cs: Seq<Option<BlockType>>)
    requires
        cs.len() == EDITOR_COLS,
        starts_with(b, pos, row_json(cs)),
    ensures
        parse_row_spec(b, pos) == Some((cs, pos + row_json(cs).len())),
{
    let j = row_json(cs);
    let cj = cells_json(cs);
    assert(b[pos] == j[0]);
    assert(b.subrange(pos + 1, pos + (1 + cj.len() as int)) =~= cj) by {
        assert(b.subrange(pos + 1, pos + (1 + cj.len() as int)) =~= j.subrange(1, (1 + cj.len() as int)));
    }
    lemma_parse_cells_canonical(b, pos + 1, cs);
    assert(b[pos + (1 + cj.len() as int)] == j[(1 + cj.len() as int)]);
}

proof fn lemma_parse_rows_canonical(b: Seq<u8>, pos: int, rs: Seq<Seq<Option<BlockType>>>)
    requires
        rs.len() >= 1,
        forall|r: int| 0 <= r < rs.len() ==> (#[trigger] rs[r]).len() == EDITOR_COLS,
        starts_with(b, pos, rows_json(rs)),
    ensures
        parse_rows_spec(b, pos, rs.len()) == Some((rs, pos + rows_json(rs).len())),
    decreases rs.len(),
{
    if rs.len() == 1 {
        lemma_parse_row_canonical(b, pos, rs[0]);
        assert(seq![rs[0]] =~= rs);
    } else {
        let init = rs.drop_last();
        let ij = rows_json(init);
        let j = rows_json(rs);
        assert(b.subrange(pos, pos + ij.len()) =~= ij) by {
            assert(b.subrange(pos, pos + ij.len()) =~= j.subrange(0, ij.len() as int));
        }
        assert forall|r: int| 0 <= r < init.len() implies (#[trigger] init[r]).len() == EDITOR_COLS by {
            assert(init[r] == rs[r]);
        }
        lemma_parse_rows_canonical(b, pos, init);
        let p = pos + ij.len();
        assert(b[p] == j[ij.len() as int]);
        let rj = row_json(rs.last());
        assert(b.subrange(p + 1, p + (1 + rj.len() as int)) =~= rj) by {
            assert(b.subrange(p + 1, p + (1 + rj.len() as int)) =~= j.subrange((ij.len() as int + 1), j.len() as int));
        }
        lemma_parse_row_canonical(b, p + 1, rs.last());
        assert(init.push(rs.last()) =~= rs);
    }
}

/// Reading the text of a grid of the editor's shape gives back that grid.
pub proof fn lemma_grid_text_round_trip(g: Seq<Seq<Option<BlockType>>>)
    requires
        grid_shape(g, EDITOR_ROWS as int, EDITOR_COLS as int),
    ensures
        grid_decode_spec(grid_json(g)) == Some(g),
{
    let b = grid_json(g);
    let rj = rows_json(g);
    assert(b.subrange(1, (1 + rj.len() as int)) =~= rj);
    lemma_parse_rows_canonical(b, 1, g);
    assert(b[(1 + rj.len() as int)] == 93);
}


/// The stage code read back: base64 decoding, then the grid text.
pub open spec fn stage_decode_spec(code: Seq<u8>) -> Option<Seq<Seq<Option<BlockType>>>> {
    match b64_decode_spec(code) {
        Some(text) => grid_decode_spec(text),
        None => None,
    }
}

/// The stage code of a grid: its text, in base64.
pub open spec fn stage_code(g: Seq<Seq<Option<BlockType>>>) -> Seq<char> {
    ascii_chars(b64_encode_spec(grid_json(g)))
}

/// Reading the stage code of an editor grid gives back the same grid, every
/// cell, empty or not, with the hit count of each Durable block.
pub proof fn lemma_stage_round_trip(g: Seq<Seq<Option<BlockType>>>)
    requires
        grid_shape(g, EDITOR_ROWS as int, EDITOR_COLS as int),
    ensures
        stage_decode_spec(vstd::utf8::encode_utf8(stage_code(g))) == Some(g),
{
    let e = b64_encode_spec(grid_json(g));
    let chars = ascii_chars(e);
    lemma_b64_ascii(grid_json(g));
    assert(vstd::utf8::is_ascii_chars(chars)) by {
        assert forall|i: int| 0 <= i < chars.len() implies '\0' <= #[trigger] chars[i] <= '\u{7f}' by {
            assert(e[i] < 128);
        }
    }
    vstd::utf8::is_ascii_chars_encode_utf8(chars);
    assert(vstd::utf8::encode_utf8(chars) =~= e) by {
        assert forall|i: int| 0 <= i < e.len() implies vstd::utf8::encode_utf8(chars)[i] == e[i] by {
            assert(chars[i] as u8 == vstd::utf8::encode_utf8(chars)[i]);
            assert(e[i] < 128);
        }
    }
    lemma_b64_round_trip(grid_json(g));
    lemma_grid_text_round_trip(g);
}

fn push_slice(out: &mut Vec<u8>, lit: &[u8])
    ensures
        final(out)@ == old(out)@ + lit@,
{
    let mut i: usize = 0;
    while i < lit.len()
        invariant
            i <= lit@.len(),
            out@ == old(out)@ + lit@.take(i as int),
        decreases lit@.len() - i,
    {
        out.push(lit[i]);
        i = i + 1;
        assert(out@ =~= old(out)@ + lit@.take(i as int));
    }
    assert(lit@.take(i as int) =~= lit@);
}

fn starts_with_at(b: &[u8], pos: usize, lit: &[u8]) -> (r: bool)
    ensures
        r == starts_with(b@, pos as int, lit@),
{
    if pos > b.len() || lit.len() > b.len() - pos {
        return false;
    }
    let mut i: usize = 0;
    while i < lit.len()
        invariant
            pos + lit@.len() <= b@.len(),
            b@.len() <= usize::MAX,
            i <= lit@.len(),
            forall|k: int| 0 <= k < i ==> b@[pos + k] == lit@[k],
        decreases lit@.len() - i,
    {
        if b[pos + i] != lit[i] {
            assert(b@.subrange(pos as int, pos + lit@.len())[i as int] != lit@[i as int]);
            return false;
        }
        i = i + 1;
    }
    assert(b@.subrange(pos as int, pos + lit@.len()) =~= lit@);
    true
}

fn push_cell(out: &mut Vec<u8>, c: Option<BlockType>)
    ensures
        final(out)@ == old(out)@ + cell_json(c),
{
    match c {
        None => {
            let lit: [u8; 4] = [110, 117, 108, 108];
            assert(lit@ =~= lit_null());
            push_slice(out, lit.as_slice());
        },
        Some(BlockType::Normal) => {
            let lit: [u8; 8] = [34, 78, 111, 114, 109, 97, 108, 34];
            assert(lit@ =~= lit_normal());
            push_slice(out, lit.as_slice());
        },
        Some(BlockType::Steel) => {
            let lit: [u8; 7] = [34, 83, 116, 101, 101, 108, 34];
            assert(lit@ =~= lit_steel());
            push_slice(out, lit.as_slice());
        },
        Some(BlockType::Explosive) => {
            let lit: [u8; 11] = [34, 69, 120, 112, 108, 111, 115, 105, 118, 101, 34];
            assert(lit@ =~= lit_explosive());
            push_slice(out, lit.as_slice());
        },
        Some(BlockType::Durable { hits_remaining }) => {
            let open: [u8; 29] = [
                123, 34, 68, 117, 114, 97, 98, 108, 101, 34, 58, 123, 34, 104, 105, 116, 115, 95,
                114, 101, 109, 97, 105, 110, 105, 110, 103, 34, 58,
            ];
            assert(open@ =~= lit_durable_open());
            push_slice(out, open.as_slice());
            push_decimal(out, hits_remaining);
            out.push(125);
            out.push(125);
            assert(out@ =~= old(out)@ + cell_json(c));
        },
    }
}

fn push_row(out: &mut Vec<u8>, row: &Vec<Option<BlockType>>)
    ensures
        final(out)@ == old(out)@ + row_json(row@),
{
    out.push(91);
    let ghost start = out@;
    let mut i: usize = 0;
    while i < row.len()
        invariant
            i <= row@.len(),
            out@ == start + cells_json(row@.take(i as int)),
        decreases row@.len() - i,
    {
        let ghost prev = out@;
        if i > 0 {
            out.push(44);
        }
        push_cell(out, row[i]);
        proof {
            let t = row@.take(i + 1);
            assert(t.drop_last() =~= row@.take(i as int));
            if i == 0 {
                assert(out@ =~= start + cells_json(t));
            } else {
                assert(out@ =~= start + cells_json(t));
            }
        }
        i = i + 1;
    }
    assert(row@.take(i as int) =~= row@);
    out.push(93);
    assert(out@ =~= old(out)@ + row_json(row@));
}

/// The text of a grid.
pub fn grid_text(grid: &Grid) -> (r: Vec<u8>)
    ensures
        r@ == grid_json(grid_view(*grid)),
{
    let mut out: Vec<u8> = Vec::new();
    out.push(91);
    let ghost start = out@;
    let ghost gv = grid_view(*grid);
    let mut i: usize = 0;
    while i < grid.len()
        invariant
            gv == grid_view(*grid),
            i <= grid@.len(),
            out@ == start + rows_json(gv.take(i as int)),
        decreases grid@.len() - i,
    {
        if i > 0 {
            out.push(44);
        }
        push_row(&mut out, &grid[i]);
        proof {
            let t = gv.take(i + 1);
            assert(t.drop_last() =~= gv.take(i as int));
            assert(t.last() == grid@[i as int]@);
            assert(out@ =~= start + rows_json(t));
        }
        i = i + 1;
    }
    assert(gv.take(i as int) =~= gv);
    out.push(93);
    assert(out@ =~= grid_json(gv));
    out
}

/// The shareable stage code of a grid.
pub fn encode_stage(grid: &Grid) -> (r: String)
    ensures
        r@ == stage_code(grid_view(*grid)),
{
    let text = grid_text(grid);
    base64_encode(text.as_slice())
}

fn parse_decimal(b: &[u8], pos: usize) -> (r: Option<(u32, usize)>)
    requires
        pos <= b@.len(),
    ensures
        match r {
            Some((v, e)) => parse_decimal_spec(b@, pos as int) == Some((v, e as int)),
            None => parse_decimal_spec(b@, pos as int) is None,
        },
{
    let mut e = pos;
    while e < b.len() && 48 <= b[e] && b[e] <= 57
        invariant
            pos <= e <= b@.len(),
            digit_run_end(b@, pos as int) == digit_run_end(b@, e as int),
            forall|k: int| pos <= k < e ==> is_digit(#[trigger] b@[k]),
        decreases b@.len() - e,
    {
        e = e + 1;
    }
    assert(digit_run_end(b@, e as int) == e as int);
    if e == pos || (b[pos] == 48 && e - pos > 1) {
        return None;
    }
    let mut v: u64 = 0;
    let mut i = pos;
    while i < e
        invariant
            pos <= i <= e <= b@.len(),
            digit_run_end(b@, pos as int) == e as int,
            forall|k: int| pos <= k < e ==> is_digit(#[trigger] b@[k]),
            v == digits_value(b@.subrange(pos as int, i as int)),
            v <= u32::MAX,
        decreases e - i,
    {
        assert(b@.subrange(pos as int, i + 1).drop_last() =~= b@.subrange(pos as int, i as int));
        assert(is_digit(b@[i as int]));
        let nv = v * 10 + (b[i] - 48) as u64;
        assert(digits_value(b@.subrange(pos as int, i + 1)) == nv);
        if nv > 0xffff_ffff {
            proof {
                lemma_digits_prefix_grows(b@.subrange(pos as int, e as int), (i + 1 - pos) as int);
                assert(b@.subrange(pos as int, e as int).subrange(0, (i + 1 - pos) as int) =~= b@.subrange(pos as int, i + 1));
                assert(digits_value(b@.subrange(pos as int, e as int)) > u32::MAX);
                assert(digit_run_end(b@, pos as int) == e);
                assert(parse_decimal_spec(b@, pos as int) is None);
            }
            return None;
        }
        v = nv;
        i = i + 1;
    }
    Some((v as u32, e))
}

/// The value of digits never shrinks as more digits follow.
proof fn lemma_digits_prefix_grows(d: Seq<u8>, k: int)
    requires
        0 <= k <= d.len(),
    ensures
        digits_value(d) >= digits_value(d.subrange(0, k)),
    decreases d.len() - k,
{
    if k < d.len() {
        lemma_digits_prefix_grows(d, k + 1);
        assert(d.subrange(0, k + 1).drop_last() =~= d.subrange(0, k));
    } else {
        assert(d.subrange(0, k) =~= d);
    }
}

fn parse_cell(b: &[u8], pos: usize) -> (r: Option<(Option<BlockType>, usize)>)
    requires
        pos <= b@.len(),
    ensures
        match r {
            Some((c, e)) => parse_cell_spec(b@, pos as int) == Some((c, e as int)) && e <= b@.len(),
            None => parse_cell_spec(b@, pos as int) is None,
        },
{
    let null: [u8; 4] = [110, 117, 108, 108];
    let normal: [u8; 8] = [34, 78, 111, 114, 109, 97, 108, 34];
    let steel: [u8; 7] = [34, 83, 116, 101, 101, 108, 34];
    let explosive: [u8; 11] = [34, 69, 120, 112, 108, 111, 115, 105, 118, 101, 34];
    let open: [u8; 29] = [
        123, 34, 68, 117, 114, 97, 98, 108, 101, 34, 58, 123, 34, 104, 105, 116, 115, 95, 114, 101,
        109, 97, 105, 110, 105, 110, 103, 34, 58,
    ];
    let close: [u8; 2] = [125, 125];
    let n = b.len();
    assert(null@ =~= lit_null());
    assert(normal@ =~= lit_normal());
    assert(steel@ =~= lit_steel());
    assert(explosive@ =~= lit_explosive());
    assert(open@ =~= lit_durable_open());
    assert(close@ =~= lit_durable_close());
    if starts_with_at(b, pos, null.as_slice()) {
        Some((None, pos + 4))
    } else if starts_with_at(b, pos, normal.as_slice()) {
        Some((Some(BlockType::Normal), pos + 8))
    } else if starts_with_at(b, pos, steel.as_slice()) {
        Some((Some(BlockType::Steel), pos + 7))
    } else if starts_with_at(b, pos, explosive.as_slice()) {
        Some((Some(BlockType::Explosive), pos + 11))
    } else if starts_with_at(b, pos, open.as_slice()) {
        match parse_decimal(b, pos + 29) {
            Some((h, e)) => {
                if starts_with_at(b, e, close.as_slice()) {
                    Some((Some(BlockType::Durable { hits_remaining: h }), e + 2))
                } else {
                    None
                }
            },
            None => None,
        }
    } else {
        None
    }
}

proof fn lemma_cells_fail(b: Seq<u8>, pos: int, k: nat, m: nat)
    requires
        1 <= k <= m,
        parse_cells_spec(b, pos, k) is None,
    ensures
        parse_cells_spec(b, pos, m) is None,
    decreases m - k,
{
    if k < m {
        lemma_cells_fail(b, pos, k + 1, m);
    }
}

proof fn lemma_rows_fail(b: Seq<u8>, pos: int, k: nat, m: nat)
    requires
        1 <= k <= m,
        parse_rows_spec(b, pos, k) is None,
    ensures
        parse_rows_spec(b, pos, m) is None,
    decreases m - k,
{
    if k < m {
        lemma_rows_fail(b, pos, k + 1, m);
    }
}

fn parse_row(b: &[u8], pos: usize) -> (r: Option<(Vec<Option<BlockType>>, usize)>)
    requires
        pos <= b@.len(),
    ensures
        match r {
            Some((cs, e)) => parse_row_spec(b@, pos as int) == Some((cs@, e as int)) && e <= b@.len(),
            None => parse_row_spec(b@, pos as int) is None,
        },
{
    if !(pos < b.len() && b[pos] == 91) {
        return None;
    }
    let mut cells: Vec<Option<BlockType>> = Vec::new();
    let mut cur = pos + 1;
    let mut k: usize = 0;
    while k < EDITOR_COLS
        invariant
            pos < b@.len(),
            k <= EDITOR_COLS,
            cur <= b@.len(),
            parse_cells_spec(b@, pos + 1, k as nat) == Some((cells@, cur as int)),
        decreases EDITOR_COLS - k,
    {
        if k > 0 {
            if !(cur < b.len() && b[cur] == 44) {
                proof {
                    lemma_cells_fail(b@, pos + 1, (k + 1) as nat, EDITOR_COLS as nat);
                }
                return None;
            }
            cur = cur + 1;
        }
        match parse_cell(b, cur) {
            Some((c, e)) => {
                cells.push(c);
                cur = e;
                if k == 0 {
                    assert(cells@ =~= seq![c]);
                }
            },
            None => {
                proof {
                    lemma_cells_fail(b@, pos + 1, (k + 1) as nat, EDITOR_COLS as nat);
                }
                return None;
            },
        }
        k = k + 1;
    }
    if cur < b.len() && b[cur] == 93 {
        Some((cells, cur + 1))
    } else {
        None
    }
}

/// Reads a grid text: exactly as many rows as the editor grid, each of
/// exactly as many cells, in the form `grid_text` writes.
pub fn decode_grid_text(b: &[u8]) -> (r: Option<Grid>)
    ensures
        match r {
            Some(g) => grid_decode_spec(b@) == Some(grid_view(g)),
            None => grid_decode_spec(b@) is None,
        },
{
    if !(0 < b.len() && b[0] == 91) {
        return None;
    }
    let mut rows: Grid = Vec::new();
    let mut cur: usize = 1;
    let mut k: usize = 0;
    while k < EDITOR_ROWS
        invariant
            0 < b@.len(),
            k <= EDITOR_ROWS,
            cur <= b@.len(),
            parse_rows_spec(b@, 1, k as nat) == Some((grid_view(rows), cur as int)),
        decreases EDITOR_ROWS - k,
    {
        if k > 0 {
            if !(cur < b.len() && b[cur] == 44) {
                proof {
                    lemma_rows_fail(b@, 1, (k + 1) as nat, EDITOR_ROWS as nat);
                }
                return None;
            }
            cur = cur + 1;
        }
        match parse_row(b, cur) {
            Some((row, e)) => {
                let ghost before = grid_view(rows);
                let ghost rv = row@;
                rows.push(row);
                cur = e;
                assert(grid_view(rows) =~= before.push(rv));
                if k == 0 {
                    assert(grid_view(rows) =~= seq![rv]);
                }
            },
            None => {
                proof {
                    lemma_rows_fail(b@, 1, (k + 1) as nat, EDITOR_ROWS as nat);
                }
                return None;
            },
        }
        k = k + 1;
    }
    if cur < b.len() && b[cur] == 93 && cur + 1 == b.len() {
        Some(rows)
    } else {
        None
    }
}

/// Reads a stage code back into a grid; `None` when it is not the code of an
/// editor grid.
pub fn decode_stage(encoded: &str) -> (r: Option<Grid>)
    ensures
        match r {
            Some(g) => stage_decode_spec(encoded.spec_bytes()) == Some(grid_view(g)),
            None => stage_decode_spec(encoded.spec_bytes()) is None,
        },
{
    match base64_decode(encoded) {
        Some(text) => decode_grid_text(text.as_slice()),
        None => None,
    }
}

/// A cell holding a block that can be destroyed: any but Steel.
pub open spec fn clearable(c: Option<BlockType>) -> bool {
    match c {
        Some(t) => !(t is Steel),
        None => false,
    }
}

/// Whether the grid holds a block that can be destroyed (any but Steel).
pub fn editor_has_clearable_blocks(grid: &Grid) -> (r: bool)
    ensures
        r == exists|row: int, col: int|
            0 <= row < grid@.len() && 0 <= col < grid@[row]@.len() && clearable(#[trigger] grid@[row]@[col]),
{
    let mut i: usize = 0;
    while i < grid.len()
        invariant
            i <= grid@.len(),
            forall|row: int, col: int|
                0 <= row < i && 0 <= col < grid@[row]@.len() ==> !clearable(#[trigger] grid@[row]@[col]),
        decreases grid@.len() - i,
    {
        let row = &grid[i];
        let mut j: usize = 0;
        while j < row.len()
            invariant
                i < grid@.len(),
                row@ == grid@[i as int]@,
                j <= row@.len(),
                forall|col: int| 0 <= col < j ==> !clearable(#[trigger] row@[col]),
            decreases row@.len() - j,
        {
            match row[j] {
                Some(BlockType::Steel) => {},
                Some(_) => {
                    assert(grid@[i as int]@[j as int] == row@[j as int]);
                    return true;
                },
                None => {},
            }
            j = j + 1;
        }
        i = i + 1;
    }
    false
}


/// The stage editor: the grid being edited and the block type (or eraser)
/// that a click places.
pub struct EditorState {
    pub selected_tool: Option<BlockType>,
    pub grid: Grid,
}

impl EditorState {
    pub open spec fn wf(&self) -> bool {
        grid_shape(grid_view(self.grid), EDITOR_ROWS as int, EDITOR_COLS as int)
    }

    /// An empty grid, with Normal blocks selected.
    pub fn default() -> (e: EditorState)
        ensures
            e.wf(),
            e.selected_tool == Some(BlockType::Normal),
            forall|r: int, c: int| 0 <= r < EDITOR_ROWS && 0 <= c < EDITOR_COLS ==> grid_view(e.grid)[r][c] is None,
    {
        let mut grid: Grid = Vec::new();
        let mut r: usize = 0;
        while r < EDITOR_ROWS
            invariant
                r <= EDITOR_ROWS,
                grid@.len() == r,
                forall|q: int| 0 <= q < r ==> (#[trigger] grid@[q])@.len() == EDITOR_COLS,
                forall|q: int, c: int| 0 <= q < r && 0 <= c < EDITOR_COLS ==> grid@[q]@[c] is None,
            decreases EDITOR_ROWS - r,
        {
            let mut row: Vec<Option<BlockType>> = Vec::new();
            let mut c: usize = 0;
            while c < EDITOR_COLS
                invariant
                    c <= EDITOR_COLS,
                    row@.len() == c,
                    forall|k: int| 0 <= k < c ==> row@[k] is None,
                decreases EDITOR_COLS - c,
            {
                row.push(None);
                c = c + 1;
            }
            grid.push(row);
            r = r + 1;
        }
        EditorState { selected_tool: Some(BlockType::Normal), grid }
    }

    /// A click on a cell places the selected tool there.
    pub fn editor_grid_input(&mut self, row: usize, col: usize)
        requires
            old(self).wf(),
            row < EDITOR_ROWS,
            col < EDITOR_COLS,
        ensures
            final(self).wf(),
            final(self).selected_tool == old(self).selected_tool,
            grid_view(final(self).grid) == grid_view(old(self).grid).update(
                row as int,
                grid_view(old(self).grid)[row as int].update(col as int, old(self).selected_tool),
            ),
    {
        let ghost g0 = grid_view(self.grid);
        let mut new_row: Vec<Option<BlockType>> = Vec::new();
        let mut c: usize = 0;
        while c < self.grid[row].len()
            invariant
                row < self.grid@.len(),
                c <= self.grid@[row as int]@.len(),
                new_row@ == self.grid@[row as int]@.take(c as int),
            decreases self.grid@[row as int]@.len() - c,
        {
            new_row.push(self.grid[row][c]);
            c = c + 1;
            assert(new_row@ =~= self.grid@[row as int]@.take(c as int));
        }
        assert(new_row@ =~= self.grid@[row as int]@);
        assert(new_row@.len() == EDITOR_COLS) by {
            assert(grid_view(self.grid)[row as int] == self.grid@[row as int]@);
        }
        new_row.set(col, self.selected_tool);
        self.grid.set(row, new_row);
        proof {
            let g1 = grid_view(self.grid);
            assert(g1 =~= g0.update(row as int, g0[row as int].update(col as int, self.selected_tool)));
        }
    }

    /// Picks the tool that later clicks place.
    pub fn editor_tool_select(&mut self, tool: Option<BlockType>)
        ensures
            final(self).selected_tool == tool,
            final(self).grid == old(self).grid,
    {
        self.selected_tool = tool;
    }
}

} // verus!
