use vstd::prelude::*;
use vstd::string::StringSliceAdditionalSpecFns;

use crate::text::{ascii_chars, ascii_to_string, decimal, is_ascii_bytes, lemma_decimal_ascii_digits, lemma_decimal_value, push_decimal};

verus! {

pub open spec fn is_space(c: u8) -> bool {
    c == 32 || (9 <= c && c <= 13)
}

pub open spec fn is_digit(c: u8) -> bool {
    48 <= c <= 57
}

/// The comma-separated fields of a text, read byte by byte: a comma starts a
/// new field, any other byte extends the last one.
pub open spec fn fields(b: Seq<u8>) -> Seq<Seq<u8>>
    decreases b.len(),
{
    if b.len() == 0 {
        seq![Seq::empty()]
    } else {
        let prev = fields(b.drop_last());
        if b.last() == 44 {
            prev.push(Seq::empty())
        } else {
            prev.update(prev.len() - 1, prev.last().push(b.last()))
        }
    }
}

/// A two-byte UTF-8 whitespace character: U+0085 or U+00A0.
pub open spec fn is_space2(a: u8, b: u8) -> bool {
    a == 0xc2 && (b == 0x85 || b == 0xa0)
}

/// A three-byte UTF-8 whitespace character: U+1680, U+2000 to U+200A,
/// U+2028, U+2029, U+202F, U+205F or U+3000.
pub open spec fn is_space3(a: u8, b: u8, c: u8) -> bool {
    ||| (a == 0xe1 && b == 0x9a && c == 0x80)
    ||| (a == 0xe2 && b == 0x80 && ((0x80 <= c && c <= 0x8a) || c == 0xa8 || c == 0xa9 || c == 0xaf))
    ||| (a == 0xe2 && b == 0x81 && c == 0x9f)
    ||| (a == 0xe3 && b == 0x80 && c == 0x80)
}

/// Length of the whitespace character (Unicode White_Space) that `f` starts
/// with, or zero.
pub open spec fn space_len_front(f: Seq<u8>) -> int {
    if f.len() >= 1 && is_space(f[0]) {
        1
    } else if f.len() >= 2 && is_space2(f[0], f[1]) {
        2
    } else if f.len() >= 3 && is_space3(f[0], f[1], f[2]) {
        3
    } else {
        0
    }
}

/// Length of the whitespace character that `f` ends with, or zero.
pub open spec fn space_len_back(f: Seq<u8>) -> int {
    let n = f.len() as int;
    if n >= 1 && is_space(f[n - 1]) {
        1
    } else if n >= 2 && is_space2(f[n - 2], f[n - 1]) {
        2
    } else if n >= 3 && is_space3(f[n - 3], f[n - 2], f[n - 1]) {
        3
    } else {
        0
    }
}

/// The text without its leading whitespace.
pub open spec fn trim_start(f: Seq<u8>) -> Seq<u8>
    decreases f.len(),
{
    if space_len_front(f) > 0 {
        trim_start(f.subrange(space_len_front(f), f.len() as int))
    } else {
        f
    }
}

/// The text without its trailing whitespace.
pub open spec fn trim_end(f: Seq<u8>) -> Seq<u8>
    decreases f.len(),
{
    if space_len_back(f) > 0 {
        trim_end(f.subrange(0, f.len() - space_len_back(f)))
    } else {
        f
    }
}

/// Value of a run of decimal digits.
pub open spec fn digits_value(d: Seq<u8>) -> nat
    decreases d.len(),
{
    if d.len() == 0 {
        0
    } else {
        digits_value(d.drop_last()) * 10 + (d.last() - 48) as nat
    }
}

pub open spec fn all_digits(d: Seq<u8>) -> bool {
    forall|i: int| 0 <= i < d.len() ==> is_digit(#[trigger] d[i])
}

/// A run of decimal digits read as an unsigned 32-bit number, if it is one.
pub open spec fn parse_digits(d: Seq<u8>) -> Option<u32> {
    if d.len() > 0 && all_digits(d) && digits_value(d) <= u32::MAX {
        Some(digits_value(d) as u32)
    } else {
        None
    }
}

pub open spec fn strip_plus(t: Seq<u8>) -> Seq<u8> {
    if t.len() > 0 && t[0] == 43 {
        t.drop_first()
    } else {
        t
    }
}

/// A field read as an unsigned 32-bit number: surrounding whitespace is
/// ignored, an optional `+` may lead, then at least one decimal digit, and the
/// value must fit.
pub open spec fn parse_field(f: Seq<u8>) -> Option<u32> {
    parse_digits(strip_plus(trim_end(trim_start(f))))
}

/// The numbers among the fields, in order, skipping fields that are not one.
pub open spec fn field_values(fs: Seq<Seq<u8>>) -> Seq<u32>
    decreases fs.len(),
{
    if fs.len() == 0 {
        Seq::empty()
    } else {
        let prev = field_values(fs.drop_last());
        match parse_field(fs.last()) {
            Some(v) => prev.push(v),
            None => prev,
        }
    }
}

/// The three scores of a stored record: the first three numbers of its
/// comma-separated fields, zero for each one missing.
pub open spec fn scores_of(b: Seq<u8>) -> Seq<u32> {
    let v = field_values(fields(b));
    seq![
        if v.len() > 0 { v[0] } else { 0 },
        if v.len() > 1 { v[1] } else { 0 },
        if v.len() > 2 { v[2] } else { 0 },
    ]
}

/// The stored record of three scores: their decimal forms joined by commas.
pub open spec fn scores_record(s: Seq<u32>) -> Seq<u8> {
    decimal(s[0] as nat) + seq![44u8] + decimal(s[1] as nat) + seq![44u8] + decimal(s[2] as nat)
}

proof fn lemma_fields_nonempty(b: Seq<u8>)
    ensures
        fields(b).len() >= 1,
    decreases b.len(),
{
    if b.len() > 0 {
        lemma_fields_nonempty(b.drop_last());
    }
}

fn space_front(b: &[u8], s: usize, e: usize) -> (k: usize)
    requires
        s <= e <= b@.len(),
    ensures
        k == space_len_front(b@.subrange(s as int, e as int)),
{
    let n = e - s;
    if n >= 1 && (b[s] == 32 || (9 <= b[s] && b[s] <= 13)) {
        1
    } else if n >= 2 && b[s] == 0xc2 && (b[s + 1] == 0x85 || b[s + 1] == 0xa0) {
        2
    } else if n >= 3 && ((b[s] == 0xe1 && b[s + 1] == 0x9a && b[s + 2] == 0x80) || (b[s] == 0xe2
        && b[s + 1] == 0x80 && ((0x80 <= b[s + 2] && b[s + 2] <= 0x8a) || b[s + 2] == 0xa8 || b[s
        + 2] == 0xa9 || b[s + 2] == 0xaf)) || (b[s] == 0xe2 && b[s + 1] == 0x81 && b[s + 2] == 0x9f)
        || (b[s] == 0xe3 && b[s + 1] == 0x80 && b[s + 2] == 0x80)) {
        3
    } else {
        0
    }
}

fn space_back(b: &[u8], s: usize, e: usize) -> (k: usize)
    requires
        s <= e <= b@.len(),
    ensures
        k == space_len_back(b@.subrange(s as int, e as int)),
{
    let n = e - s;
    if n >= 1 && (b[e - 1] == 32 || (9 <= b[e - 1] && b[e - 1] <= 13)) {
        1
    } else if n >= 2 && b[e - 2] == 0xc2 && (b[e - 1] == 0x85 || b[e - 1] == 0xa0) {
        2
    } else if n >= 3 && ((b[e - 3] == 0xe1 && b[e - 2] == 0x9a && b[e - 1] == 0x80) || (b[e - 3]
        == 0xe2 && b[e - 2] == 0x80 && ((0x80 <= b[e - 1] && b[e - 1] <= 0x8a) || b[e - 1] == 0xa8
        || b[e - 1] == 0xa9 || b[e - 1] == 0xaf)) || (b[e - 3] == 0xe2 && b[e - 2] == 0x81 && b[e
        - 1] == 0x9f) || (b[e - 3] == 0xe3 && b[e - 2] == 0x80 && b[e - 1] == 0x80)) {
        3
    } else {
        0
    }
}

fn trim_bounds(b: &[u8], start: usize, end: usize) -> (r: (usize, usize))
    requires
        start <= end <= b@.len(),
    ensures
        start <= r.0 <= r.1 <= end,
        b@.subrange(r.0 as int, r.1 as int) == trim_end(trim_start(b@.subrange(start as int, end as int))),
{
    let mut s = start;
    let mut done = false;
    while !done
        invariant
            start <= s <= end <= b@.len(),
            trim_start(b@.subrange(start as int, end as int)) == trim_start(
                b@.subrange(s as int, end as int),
            ),
            done ==> space_len_front(b@.subrange(s as int, end as int)) == 0,
        decreases 2 * (end - s) + if done { 0int } else { 1int },
    {
        let k = space_front(b, s, end);
        if k == 0 {
            done = true;
        } else {
            assert(b@.subrange(s as int, end as int).subrange(k as int, end - s) =~= b@.subrange(
                s + k,
                end as int,
            ));
            s = s + k;
        }
    }
    let mut e = end;
    done = false;
    while !done
        invariant
            start <= s <= e <= end <= b@.len(),
            trim_start(b@.subrange(start as int, end as int)) == b@.subrange(s as int, end as int),
            trim_end(b@.subrange(s as int, end as int)) == trim_end(
                b@.subrange(s as int, e as int),
            ),
            done ==> space_len_back(b@.subrange(s as int, e as int)) == 0,
        decreases 2 * (e - s) + if done { 0int } else { 1int },
    {
        let k = space_back(b, s, e);
        if k == 0 {
            done = true;
        } else {
            assert(b@.subrange(s as int, e as int).subrange(0, e - s - k) =~= b@.subrange(
                s as int,
                e - k,
            ));
            e = e - k;
        }
    }
    (s, e)
}

/// Reads the field `b[start..end]` as a number.
fn parse_field_at(b: &[u8], start: usize, end: usize) -> (r: Option<u32>)
    requires
        start <= end <= b@.len(),
    ensures
        r == parse_field(b@.subrange(start as int, end as int)),
{
    let (s0, e) = trim_bounds(b, start, end);
    let ghost t = b@.subrange(s0 as int, e as int);
    let s = if s0 < e && b[s0] == 43 {
        s0 + 1
    } else {
        s0
    };
    let ghost d = b@.subrange(s as int, e as int);
    assert(d =~= strip_plus(t));
    if s == e {
        return None;
    }
    let mut v: u64 = 0;
    let mut i = s;
    let mut digits_only = true;
    let mut too_big = false;
    while i < e
        invariant
            s <= i <= e <= b@.len(),
            d == b@.subrange(s as int, e as int),
            digits_only == (forall|k: int| s <= k < i ==> is_digit(#[trigger] b@[k])),
            digits_only && !too_big ==> v == digits_value(b@.subrange(s as int, i as int)),
            digits_only && too_big ==> digits_value(b@.subrange(s as int, i as int)) > u32::MAX,
            v <= u32::MAX,
        decreases e - i,
    {
        let c = b[i];
        let ghost pre = b@.subrange(s as int, i as int);
        assert(b@.subrange(s as int, i + 1).drop_last() =~= pre);
        if c < 48 || c > 57 {
            digits_only = false;
        } else if digits_only && !too_big {
            let nv = v * 10 + (c - 48) as u64;
            if nv > 0xffff_ffff {
                too_big = true;
            } else {
                v = nv;
            }
        }
        i = i + 1;
    }
    assert(b@.subrange(s as int, i as int) == d);
    if digits_only && !too_big {
        assert forall|k: int| 0 <= k < d.len() implies is_digit(#[trigger] d[k]) by {
            assert(d[k] == b@[s + k]);
        }
        assert(all_digits(d));
        assert(parse_field(b@.subrange(start as int, end as int)) == Some(v as u32));
        Some(v as u32)
    } else {
        proof {
            if !digits_only {
                let k = choose|k: int| s <= k < e && !is_digit(#[trigger] b@[k]);
                assert(!is_digit(d[k - s]));
            }
            assert(trim_end(trim_start(b@.subrange(start as int, end as int))) == t);
            if digits_only {
                assert(digits_value(d) > u32::MAX);
            } else {
                assert(!all_digits(d));
            }
            assert(parse_field(b@.subrange(start as int, end as int)) is None);
        }
        None
    }
}

/// Reads a stored score record: the first three numbers among its
/// comma-separated fields, zero for each one missing or unreadable.
pub fn parse_scores(csv: &str) -> (r: [u32; 3])
    ensures
        r@ == scores_of(csv.spec_bytes()),
{
    let b = csv.as_bytes();
    let n = b.len();
    let mut vals: Vec<u32> = Vec::new();
    let mut start: usize = 0;
    let mut i: usize = 0;
    let ghost mut done: Seq<Seq<u8>> = Seq::empty();
    assert(b@.take(0) =~= Seq::<u8>::empty());
    assert(done.push(b@.subrange(0, 0)) =~= seq![Seq::<u8>::empty()]);
    while i < n
        invariant
            n == b@.len(),
            start <= i <= n,
            fields(b@.take(i as int)) == done.push(b@.subrange(start as int, i as int)),
            vals@ == field_values(done),
        decreases n - i,
    {
        assert(b@.take(i + 1).drop_last() =~= b@.take(i as int));
        if b[i] == 44 {
            let p = parse_field_at(b, start, i);
            let ghost f = b@.subrange(start as int, i as int);
            assert(done.push(f).drop_last() =~= done);
            match p {
                Some(v) => vals.push(v),
                None => {},
            }
            proof {
                done = done.push(f);
            }
            start = i + 1;
            assert(b@.subrange(start as int, i + 1) =~= Seq::<u8>::empty());
        } else {
            let ghost prev = done.push(b@.subrange(start as int, i as int));
            assert(b@.subrange(start as int, i as int).push(b@[i as int]) =~= b@.subrange(
                start as int,
                i + 1,
            ));
            assert(prev.update(prev.len() - 1, prev.last().push(b@[i as int])) =~= done.push(
                b@.subrange(start as int, i + 1),
            ));
        }
        i = i + 1;
    }
    assert(b@.take(n as int) =~= b@);
    let last = parse_field_at(b, start, n);
    let ghost f = b@.subrange(start as int, n as int);
    assert(done.push(f).drop_last() =~= done);
    match last {
        Some(v) => vals.push(v),
        None => {},
    }
    assert(vals@ == field_values(fields(b@)));
    let a = if vals.len() > 0 {
        vals[0]
    } else {
        0
    };
    let c = if vals.len() > 1 {
        vals[1]
    } else {
        0
    };
    let d = if vals.len() > 2 {
        vals[2]
    } else {
        0
    };
    let r = [a, c, d];
    assert(r@ =~= scores_of(csv.spec_bytes()));
    r
}

/// The text stored for a top-three table.
pub fn save_scores(scores: &[u32; 3]) -> (r: String)
    ensures
        r@ == ascii_chars(scores_record(scores@)),
{
    let mut out: Vec<u8> = Vec::new();
    push_decimal(&mut out, scores[0]);
    out.push(44);
    push_decimal(&mut out, scores[1]);
    out.push(44);
    push_decimal(&mut out, scores[2]);
    assert(out@ =~= scores_record(scores@));
    proof {
        lemma_decimal_ascii_digits(scores@[0] as nat);
        lemma_decimal_ascii_digits(scores@[1] as nat);
        lemma_decimal_ascii_digits(scores@[2] as nat);
        assert(is_ascii_bytes(out@));
    }
    ascii_to_string(out)
}

/// Scores from the stored record, or all zero when nothing is stored.
pub fn load_scores(stored: Option<&str>) -> (r: [u32; 3])
    ensures
        r@ == match stored {
            Some(s) => scores_of(s.spec_bytes()),
            None => seq![0u32, 0u32, 0u32],
        },
{
    match stored {
        Some(s) => parse_scores(s),
        None => {
            let r = [0u32, 0, 0];
            assert(r@ =~= seq![0u32, 0u32, 0u32]);
            r
        },
    }
}


proof fn lemma_fields_no_comma(q: Seq<u8>)
    requires
        forall|i: int| 0 <= i < q.len() ==> q[i] != 44,
    ensures
        fields(q) == seq![q],
    decreases q.len(),
{
    if q.len() > 0 {
        lemma_fields_no_comma(q.drop_last());
        assert(q.drop_last().push(q.last()) =~= q);
        assert(seq![q.drop_last()].update(0, q.drop_last().push(q.last())) =~= seq![q]);
    } else {
        assert(q =~= Seq::<u8>::empty());
    }
}

proof fn lemma_fields_after_comma(p: Seq<u8>, q: Seq<u8>)
    requires
        forall|i: int| 0 <= i < q.len() ==> q[i] != 44,
    ensures
        fields(p + seq![44u8] + q) == fields(p).push(q),
    decreases q.len(),
{
    let t = p + seq![44u8] + q;
    if q.len() == 0 {
        assert(t.drop_last() =~= p);
        assert(q =~= Seq::<u8>::empty());
    } else {
        lemma_fields_after_comma(p, q.drop_last());
        assert(t.drop_last() =~= p + seq![44u8] + q.drop_last());
        let prev = fields(p).push(q.drop_last());
        assert(q.drop_last().push(q.last()) =~= q);
        assert(t.last() == q.last());
        assert(prev.update(prev.len() - 1, prev.last().push(q.last())) =~= fields(p).push(q));
    }
}

proof fn lemma_parse_decimal_field(v: u32)
    ensures
        parse_field(decimal(v as nat)) == Some(v),
{
    let d = decimal(v as nat);
    lemma_decimal_ascii_digits(v as nat);
    lemma_decimal_value(v as nat);
    assert(space_len_front(d) == 0);
    assert(space_len_back(d) == 0);
    assert(trim_start(d) == d);
    assert(trim_end(d) == d);
    assert(strip_plus(d) == d);
    assert(all_digits(d));
}

/// Reading back the stored record of a table gives the same three scores.
pub proof fn lemma_scores_record_round_trip(s: Seq<u32>)
    requires
        s.len() == 3,
    ensures
        scores_of(scores_record(s)) == s,
{
    let d0 = decimal(s[0] as nat);
    let d1 = decimal(s[1] as nat);
    let d2 = decimal(s[2] as nat);
    lemma_decimal_ascii_digits(s[0] as nat);
    lemma_decimal_ascii_digits(s[1] as nat);
    lemma_decimal_ascii_digits(s[2] as nat);
    lemma_fields_no_comma(d0);
    lemma_fields_after_comma(d0, d1);
    lemma_fields_after_comma(d0 + seq![44u8] + d1, d2);
    let fs = fields(scores_record(s));
    assert(scores_record(s) == (d0 + seq![44u8] + d1) + seq![44u8] + d2);
    assert(fs =~= seq![d0, d1, d2]);
    lemma_parse_decimal_field(s[0]);
    lemma_parse_decimal_field(s[1]);
    lemma_parse_decimal_field(s[2]);
    assert(fs.drop_last() =~= seq![d0, d1]);
    assert(fs.drop_last().drop_last() =~= seq![d0]);
    assert(fs.drop_last().drop_last().drop_last() =~= Seq::<Seq<u8>>::empty());
    assert(field_values(Seq::<Seq<u8>>::empty()) =~= Seq::<u32>::empty());
    assert(field_values(fs.drop_last().drop_last()) =~= seq![s[0]]);
    assert(field_values(fs.drop_last()) =~= seq![s[0], s[1]]);
    assert(field_values(fs) =~= seq![s[0], s[1], s[2]]);
    assert(scores_of(scores_record(s)) =~= s);
}

} // verus!
