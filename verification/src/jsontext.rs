//! Byte-level JSON primitives: decimal integers, escaped strings and literal
//! tokens, with an exact specification of the canonical text each value
//! prints to, and parsers proved to invert the printers on that text.

use vstd::prelude::*;

verus! {

/// The bytes of an ASCII character sequence.
pub open spec fn ascii_bytes(s: Seq<char>) -> Seq<u8> {
    s.map_values(|c: char| c as u8)
}

/// Appends the bytes of an ASCII string slice.
pub fn push_lit(out: &mut Vec<u8>, t: &str)
    requires
        vstd::string::is_ascii(t),
    ensures
        final(out)@ == old(out)@ + ascii_bytes(t@),
{
    broadcast use vstd::string::is_ascii_spec_bytes;

    let b = t.as_bytes();
    proof {
        assert(b@ =~= ascii_bytes(t@));
    }
    let n = b.len();
    let mut k: usize = 0;
    while k < n
        invariant
            n == b@.len(),
            k <= n,
            out@ == old(out)@ + b@.subrange(0, k as int),
        decreases n - k,
    {
        out.push(b[k]);
        proof {
            assert(out@ =~= old(out)@ + b@.subrange(0, k as int + 1));
        }
        k = k + 1;
    }
    proof {
        assert(b@.subrange(0, n as int) =~= b@);
    }
}

// ---------------------------------------------------------------------------
// Decimal integers
// ---------------------------------------------------------------------------

pub open spec fn is_digit(b: u8) -> bool {
    48 <= b && b <= 57
}

/// The decimal digit bytes of `n`, most significant first.
pub open spec fn dec_digits(n: nat) -> Seq<u8>
    decreases n,
{
    if n < 10 {
        seq![(48 + n) as u8]
    } else {
        dec_digits(n / 10).push((48 + n % 10) as u8)
    }
}

pub open spec fn pow10(k: nat) -> nat
    decreases k,
{
    if k == 0 {
        1
    } else {
        10 * pow10((k - 1) as nat)
    }
}

/// The value of a digit byte sequence read in base ten.
pub open spec fn digits_val(ds: Seq<u8>) -> nat
    decreases ds.len(),
{
    if ds.len() == 0 {
        0
    } else {
        digits_val(ds.drop_last()) * 10 + (ds.last() - 48) as nat
    }
}

/// Appends the decimal digits of `n`.
pub fn emit_u64(out: &mut Vec<u8>, n: u64)
    ensures
        final(out)@ == old(out)@ + dec_digits(n as nat),
    decreases n,
{
    if n < 10 {
        out.push(48 + n as u8);
        proof {
            assert(final(out)@ =~= old(out)@ + dec_digits(n as nat));
        }
    } else {
        emit_u64(out, n / 10);
        out.push(48 + (n % 10) as u8);
        proof {
            assert(final(out)@ =~= old(out)@ + dec_digits(n as nat));
        }
    }
}

/// Reads a run of digit bytes, accumulating their value left to right.
pub open spec fn parse_digits(s: Seq<u8>, i: int, acc: nat) -> (nat, int)
    decreases s.len() - i,
{
    if 0 <= i < s.len() && is_digit(s[i]) {
        parse_digits(s, i + 1, acc * 10 + (s[i] - 48) as nat)
    } else {
        (acc, i)
    }
}

/// A decimal unsigned integer: at least one digit, value at most `u64::MAX`.
pub open spec fn spec_parse_u64(s: Seq<u8>, i: int) -> Option<(u64, int)> {
    if 0 <= i < s.len() && is_digit(s[i]) {
        let (v, end) = parse_digits(s, i, 0);
        if v <= u64::MAX {
            Some(((v as u64), end))
        } else {
            None
        }
    } else {
        None
    }
}

pub proof fn lemma_dec_digits_shape(n: nat)
    ensures
        dec_digits(n).len() >= 1,
        forall|k: int| 0 <= k < dec_digits(n).len() ==> is_digit(#[trigger] dec_digits(n)[k]),
    decreases n,
{
    if n >= 10 {
        lemma_dec_digits_shape(n / 10);
    }
}

/// Reading a digit sequence head first: the head carries the highest weight.
pub proof fn lemma_digits_val_head(ds: Seq<u8>)
    requires
        ds.len() >= 1,
        forall|k: int| 0 <= k < ds.len() ==> is_digit(ds[k]),
    ensures
        digits_val(ds) == (ds[0] - 48) * pow10((ds.len() - 1) as nat) + digits_val(
            ds.drop_first(),
        ),
    decreases ds.len(),
{
    if ds.len() == 1 {
        assert(pow10(0) == 1);
        assert(digits_val(ds.drop_first()) == 0);
        assert(digits_val(ds.drop_last()) == 0);
        assert(ds.last() == ds[0]);
        assert((ds[0] - 48) * 1 == ds[0] - 48) by (nonlinear_arith);
        assert(digits_val(ds) == (ds[0] - 48) * pow10((ds.len() - 1) as nat) + digits_val(
            ds.drop_first(),
        ));
    } else {
        lemma_digits_val_head(ds.drop_last());
        assert(ds.drop_last()[0] == ds[0]);
        assert(ds.drop_last().len() == ds.len() - 1);
        assert(ds.drop_last().drop_first() =~= ds.drop_first().drop_last());
        assert(ds.drop_first().last() == ds.last());
        let w = pow10((ds.len() - 2) as nat);
        let d0: int = ds[0] - 48;
        let c: int = ds.last() - 48;
        let v = digits_val(ds.drop_first().drop_last());
        assert(is_digit(ds[0]) && is_digit(ds.last()));
        assert(forall|k: int| 0 <= k < ds.drop_last().len() ==> is_digit(ds.drop_last()[k]));
        assert(pow10((ds.len() - 1) as nat) == 10 * w);
        assert(digits_val(ds) == digits_val(ds.drop_last()) * 10 + c);
        assert(digits_val(ds.drop_last()) == d0 * w + v);
        assert(digits_val(ds.drop_first()) == v * 10 + c);
        assert((d0 * w + v) * 10 + c == d0 * (10 * w) + (v * 10 + c)) by (nonlinear_arith);
        assert(digits_val(ds) == d0 * (10 * w) + (v * 10 + c));
        assert(digits_val(ds) == (ds[0] - 48) * pow10((ds.len() - 1) as nat) + digits_val(
            ds.drop_first(),
        ));
    }
}

pub proof fn lemma_digits_val_dec(n: nat)
    ensures
        digits_val(dec_digits(n)) == n,
    decreases n,
{
    if n < 10 {
        assert(dec_digits(n) == seq![(48 + n) as u8]);
        assert(dec_digits(n).drop_last() =~= Seq::<u8>::empty());
        assert(digits_val(dec_digits(n).drop_last()) == 0);
        assert((48 + n) as u8 == 48 + n);
    } else {
        lemma_digits_val_dec(n / 10);
        lemma_dec_digits_shape(n);
        assert(dec_digits(n).drop_last() =~= dec_digits(n / 10));
        assert(dec_digits(n).last() == (48 + n % 10) as u8);
        assert((48 + n % 10) as u8 == 48 + n % 10);
        assert(((48 + n % 10) as u8 - 48) as nat == n % 10);
        assert(digits_val(dec_digits(n)) == digits_val(dec_digits(n / 10)) * 10 + ((48 + n % 10)
            as u8 - 48) as nat);
        vstd::arithmetic::div_mod::lemma_fundamental_div_mod(n as int, 10);
        assert(n == (n / 10) * 10 + n % 10);
        assert(digits_val(dec_digits(n)) == (n / 10) * 10 + n % 10);
    }
}

/// `parse_digits` consumes exactly a maximal digit run and yields its value.
pub proof fn lemma_parse_digits_run(s: Seq<u8>, i: int, m: int, acc: nat)
    requires
        0 <= i < m <= s.len(),
        forall|k: int| i <= k < m ==> is_digit(s[k]),
        m == s.len() || !is_digit(s[m]),
    ensures
        parse_digits(s, i, acc) == ((acc * pow10((m - i) as nat) + digits_val(
            s.subrange(i, m),
        )), m),
    decreases m - i,
{
    let d: nat = (s[i] - 48) as nat;
    let run = s.subrange(i, m);
    lemma_digits_val_head(run);
    assert(run.drop_first() =~= s.subrange(i + 1, m));
    if i + 1 == m {
        assert(parse_digits(s, i + 1, acc * 10 + d) == ((acc * 10 + d), m));
        assert(pow10(0) == 1);
        assert(pow10(1) == 10);
        assert(acc * pow10(1) == acc * 10) by (nonlinear_arith)
            requires
                pow10(1) == 10,
        ;
        assert(digits_val(run) == d * pow10(0) + digits_val(run.drop_first()));
        assert(digits_val(run.drop_first()) == 0);
        assert(d * 1 == d) by (nonlinear_arith);
        assert(digits_val(run) == d);
    } else {
        lemma_parse_digits_run(s, i + 1, m, acc * 10 + d);
        let w: nat = pow10((m - i - 1) as nat);
        assert(pow10((m - i) as nat) == 10 * w);
        assert((acc * 10 + d) * w == acc * (10 * w) + d * w) by (nonlinear_arith);
        assert(digits_val(run) == d * w + digits_val(s.subrange(i + 1, m)));
    }
}

/// The parser inverts the printer on a printed integer followed by anything
/// that is not a digit.
pub proof fn lemma_parse_u64_print(n: u64, s: Seq<u8>, i: int)
    requires
        0 <= i,
        i + dec_digits(n as nat).len() <= s.len(),
        s.subrange(i, i + dec_digits(n as nat).len() as int) == dec_digits(n as nat),
        i + dec_digits(n as nat).len() == s.len() || !is_digit(
            s[i + dec_digits(n as nat).len()],
        ),
    ensures
        spec_parse_u64(s, i) == Some((n, i + dec_digits(n as nat).len() as int)),
{
    let ds = dec_digits(n as nat);
    let m = i + ds.len() as int;
    lemma_dec_digits_shape(n as nat);
    assert forall|k: int| i <= k < m implies is_digit(s[k]) by {
        assert(s[k] == ds[k - i]);
    }
    assert(is_digit(s[i]));
    lemma_parse_digits_run(s, i, m, 0);
    lemma_digits_val_dec(n as nat);
    assert(s.subrange(i, m) =~= ds);
    assert(0 * pow10((m - i) as nat) == 0) by (nonlinear_arith);
}

// ---------------------------------------------------------------------------
// Strings
// ---------------------------------------------------------------------------

pub open spec fn hex_digit(n: u8) -> u8 {
    if n < 10 {
        (48 + n) as u8
    } else {
        (87 + n) as u8
    }
}

/// The escape sequence a byte prints as inside a JSON string.
pub open spec fn esc_byte(b: u8) -> Seq<u8> {
    if b == 34 {
        seq![92u8, 34u8]
    } else if b == 92 {
        seq![92u8, 92u8]
    } else if b == 8 {
        seq![92u8, 98u8]
    } else if b == 9 {
        seq![92u8, 116u8]
    } else if b == 10 {
        seq![92u8, 110u8]
    } else if b == 12 {
        seq![92u8, 102u8]
    } else if b == 13 {
        seq![92u8, 114u8]
    } else if b < 32 {
        seq![92u8, 117u8, 48u8, 48u8, hex_digit(b / 16), hex_digit(b % 16)]
    } else {
        seq![b]
    }
}

/// The body of a JSON string: every byte escaped as needed.
pub open spec fn str_body_bytes(s: Seq<u8>) -> Seq<u8>
    decreases s.len(),
{
    if s.len() == 0 {
        Seq::empty()
    } else {
        esc_byte(s[0]) + str_body_bytes(s.drop_first())
    }
}

/// A complete JSON string: quoted and escaped.
pub open spec fn str_bytes(s: Seq<u8>) -> Seq<u8> {
    seq![34u8] + str_body_bytes(s) + seq![34u8]
}

pub proof fn lemma_str_body_snoc(s: Seq<u8>, b: u8)
    ensures
        str_body_bytes(s.push(b)) == str_body_bytes(s) + esc_byte(b),
    decreases s.len(),
{
    if s.len() == 0 {
        assert(s.push(b).drop_first() =~= s);
        assert(str_body_bytes(s.push(b)) =~= str_body_bytes(s) + esc_byte(b));
    } else {
        assert(s.push(b).drop_first() =~= s.drop_first().push(b));
        lemma_str_body_snoc(s.drop_first(), b);
        assert(str_body_bytes(s.push(b)) =~= str_body_bytes(s) + esc_byte(b));
    }
}

fn hex_digit_e(n: u8) -> (r: u8)
    requires
        n < 16,
    ensures
        r == hex_digit(n),
{
    if n < 10 {
        48 + n
    } else {
        87 + n
    }
}

/// Appends the quoted, escaped form of `s`.
pub fn emit_str(out: &mut Vec<u8>, s: &Vec<u8>)
    ensures
        final(out)@ == old(out)@ + str_bytes(s@),
{
    out.push(34);
    let n = s.len();
    let mut k: usize = 0;
    while k < n
        invariant
            n == s@.len(),
            k <= n,
            out@ == old(out)@ + seq![34u8] + str_body_bytes(s@.take(k as int)),
        decreases n - k,
    {
        let b = s[k];
        proof {
            lemma_str_body_snoc(s@.take(k as int), b);
            assert(s@.take(k as int + 1) =~= s@.take(k as int).push(b));
        }
        if b == 34 {
            out.push(92);
            out.push(34);
        } else if b == 92 {
            out.push(92);
            out.push(92);
        } else if b == 8 {
            out.push(92);
            out.push(98);
        } else if b == 9 {
            out.push(92);
            out.push(116);
        } else if b == 10 {
            out.push(92);
            out.push(110);
        } else if b == 12 {
            out.push(92);
            out.push(102);
        } else if b == 13 {
            out.push(92);
            out.push(114);
        } else if b < 32 {
            out.push(92);
            out.push(117);
            out.push(48);
            out.push(48);
            out.push(hex_digit_e(b / 16));
            out.push(hex_digit_e(b % 16));
        } else {
            out.push(b);
        }
        proof {
            assert(out@ =~= old(out)@ + seq![34u8] + str_body_bytes(s@.take(k as int + 1)));
        }
        k = k + 1;
    }
    out.push(34);
    proof {
        assert(s@.take(n as int) =~= s@);
        assert(final(out)@ =~= old(out)@ + str_bytes(s@));
    }
}

/// The byte an escape character after a backslash stands for.
pub open spec fn unesc_char(e: u8) -> Option<u8> {
    if e == 34 {
        Some(34u8)
    } else if e == 92 {
        Some(92u8)
    } else if e == 47 {
        Some(47u8)
    } else if e == 98 {
        Some(8u8)
    } else if e == 116 {
        Some(9u8)
    } else if e == 110 {
        Some(10u8)
    } else if e == 102 {
        Some(12u8)
    } else if e == 114 {
        Some(13u8)
    } else {
        None
    }
}

/// The value of a hexadecimal digit byte.
pub open spec fn hex_val(b: u8) -> Option<u8> {
    if 48 <= b && b <= 57 {
        Some((b - 48) as u8)
    } else if 97 <= b && b <= 102 {
        Some((b - 87) as u8)
    } else if 65 <= b && b <= 70 {
        Some((b - 55) as u8)
    } else {
        None
    }
}

/// The rest of a JSON string body from position `i`, with `acc` already read;
/// consumes the closing quote.
pub open spec fn spec_parse_str_body(s: Seq<u8>, i: int, acc: Seq<u8>) -> Option<(Seq<u8>, int)>
    decreases s.len() - i,
{
    if !(0 <= i < s.len()) {
        None
    } else if s[i] == 34 {
        Some((acc, i + 1))
    } else if s[i] == 92 {
        if i + 1 < s.len() {
            let e = s[i + 1];
            if e == 117 {
                if i + 5 < s.len() {
                    match (hex_val(s[i + 2]), hex_val(s[i + 3]), hex_val(s[i + 4]), hex_val(
                        s[i + 5],
                    )) {
                        (Some(h0), Some(h1), Some(h2), Some(h3)) => {
                            if h0 == 0 && h1 == 0 {
                                spec_parse_str_body(
                                    s,
                                    i + 6,
                                    acc.push((h2 * 16 + h3) as u8),
                                )
                            } else {
                                None
                            }
                        },
                        _ => None,
                    }
                } else {
                    None
                }
            } else {
                match unesc_char(e) {
                    Some(b) => spec_parse_str_body(s, i + 2, acc.push(b)),
                    None => None,
                }
            }
        } else {
            None
        }
    } else if s[i] < 32 {
        None
    } else {
        spec_parse_str_body(s, i + 1, acc.push(s[i]))
    }
}

/// A complete JSON string starting at `i`.
pub open spec fn spec_parse_str(s: Seq<u8>, i: int) -> Option<(Seq<u8>, int)> {
    if 0 <= i < s.len() && s[i] == 34 {
        spec_parse_str_body(s, i + 1, Seq::empty())
    } else {
        None
    }
}

/// The string-body parser inverts the escaper.
pub proof fn lemma_parse_str_body_print(b: Seq<u8>, s: Seq<u8>, i: int, acc: Seq<u8>)
    requires
        0 <= i,
        i + str_body_bytes(b).len() + 1 <= s.len(),
        s.subrange(i, i + str_body_bytes(b).len() + 1) == str_body_bytes(b) + seq![34u8],
    ensures
        spec_parse_str_body(s, i, acc) == Some(
            (acc + b, i + str_body_bytes(b).len() + 1),
        ),
    decreases b.len(),
{
    let body = str_body_bytes(b);
    let stop = i + body.len() + 1;
    if b.len() == 0 {
        assert(s[i] == s.subrange(i, stop)[0]);
        assert(s[i] == 34);
        assert(acc + b =~= acc);
    } else {
        let b0 = b[0];
        let e = esc_byte(b0);
        let rest_body = str_body_bytes(b.drop_first());
        assert(body == e + rest_body);
        assert forall|k: int| 0 <= k < e.len() implies s[i + k] == e[k] by {
            assert(s[i + k] == s.subrange(i, stop)[k]);
            assert(body[k] == e[k]);
        }
        assert forall|q: int|
            0 <= q < rest_body.len() + 1 implies s.subrange(i + e.len(), stop)[q] == (rest_body
            + seq![34u8])[q] by {
            assert(s.subrange(i, stop)[e.len() + q] == (body + seq![34u8])[e.len() + q]);
        }
        assert(s.subrange(i + e.len(), stop) =~= rest_body + seq![34u8]);
        assert(s[i + 0] == e[0]);
        assert(s[i] == e[0]);
        if e.len() >= 2 {
            assert(s[i + 1] == e[1]);
        }
        if e.len() == 6 {
            assert(s[i + 2] == e[2]);
            assert(s[i + 3] == e[3]);
            assert(s[i + 4] == e[4]);
            assert(s[i + 5] == e[5]);
        }
        lemma_parse_str_body_print(b.drop_first(), s, i + e.len() as int, acc.push(b0));
        assert(acc.push(b0) + b.drop_first() =~= acc + b);
        if b0 == 34 || b0 == 92 || b0 == 8 || b0 == 9 || b0 == 10 || b0 == 12 || b0 == 13 {
            assert(s[i] == 92);
            assert(unesc_char(s[i + 1]) == Some(b0));
            assert(spec_parse_str_body(s, i, acc) == spec_parse_str_body(
                s,
                i + 2,
                acc.push(b0),
            ));
        } else if b0 < 32 {
            assert(s[i] == 92 && s[i + 1] == 117);
            assert(s[i + 2] == 48 && s[i + 3] == 48);
            assert(s[i + 4] == hex_digit(b0 / 16) && s[i + 5] == hex_digit(b0 % 16));
            assert(hex_val(hex_digit(b0 / 16)) == Some(b0 / 16));
            assert(hex_val(hex_digit(b0 % 16)) == Some(b0 % 16));
            assert((b0 / 16) * 16 + b0 % 16 == b0);
            assert(spec_parse_str_body(s, i, acc) == spec_parse_str_body(
                s,
                i + 6,
                acc.push(b0),
            ));
        } else {
            assert(s[i] == b0);
            assert(s[i] != 34 && s[i] != 92 && !(s[i] < 32));
            assert(spec_parse_str_body(s, i, acc) == spec_parse_str_body(
                s,
                i + 1,
                acc.push(b0),
            ));
        }
    }
}

/// The string parser inverts the printer.
pub proof fn lemma_parse_str_print(b: Seq<u8>, s: Seq<u8>, i: int)
    requires
        0 <= i,
        i + str_bytes(b).len() <= s.len(),
        s.subrange(i, i + str_bytes(b).len() as int) == str_bytes(b),
    ensures
        spec_parse_str(s, i) == Some((b, i + str_bytes(b).len() as int)),
{
    let body = str_body_bytes(b);
    let sb = str_bytes(b);
    assert(s[i] == s.subrange(i, i + sb.len() as int)[0]);
    assert(s[i] == 34);
    assert forall|q: int|
        0 <= q < body.len() + 1 implies s.subrange(i + 1, i + 1 + body.len() + 1)[q] == (body
        + seq![34u8])[q] by {
        assert(s.subrange(i, i + sb.len() as int)[1 + q] == sb[1 + q]);
    }
    assert(s.subrange(i + 1, i + 1 + body.len() + 1) =~= body + seq![34u8]);
    lemma_parse_str_body_print(b, s, i + 1, Seq::empty());
    assert(Seq::<u8>::empty() + b =~= b);
}

// ---------------------------------------------------------------------------
// Literal tokens
// ---------------------------------------------------------------------------

/// Consumes the exact byte sequence `t` at position `i`.
pub open spec fn spec_expect(s: Seq<u8>, i: int, t: Seq<u8>) -> Option<int> {
    if 0 <= i && i + t.len() <= s.len() && s.subrange(i, i + t.len() as int) == t {
        Some(i + t.len() as int)
    } else {
        None
    }
}

/// Consumes the bytes of the ASCII literal `t` at position `i`.
pub fn expect_lit(s: &Vec<u8>, i: usize, t: &str) -> (r: Option<usize>)
    requires
        vstd::string::is_ascii(t),
    ensures
        match r {
            Some(end) => spec_expect(s@, i as int, ascii_bytes(t@)) == Some(end as int) && i
                <= end <= s@.len(),
            None => spec_expect(s@, i as int, ascii_bytes(t@)) is None,
        },
{
    broadcast use vstd::string::is_ascii_spec_bytes;

    let tb = t.as_bytes();
    proof {
        assert(tb@ =~= ascii_bytes(t@));
    }
    let n = tb.len();
    let slen = s.len();
    if i > slen || n > slen - i {
        proof {
            assert(spec_expect(s@, i as int, ascii_bytes(t@)) is None);
        }
        return None;
    }
    let mut k: usize = 0;
    while k < n
        invariant
            n == tb@.len(),
            k <= n,
            slen == s@.len(),
            i + n <= slen,
            tb@ == ascii_bytes(t@),
            forall|q: int| 0 <= q < k ==> s@[i + q] == tb@[q],
        decreases n - k,
    {
        if s[i + k] != tb[k] {
            proof {
                assert(s@.subrange(i as int, i + n as int)[k as int] != tb@[k as int]);
            }
            return None;
        }
        k = k + 1;
    }
    proof {
        assert(s@.subrange(i as int, i + n as int) =~= tb@);
    }
    Some(i + n)
}

/// Parses a decimal unsigned integer at position `i`.
pub fn parse_u64(s: &Vec<u8>, i: usize) -> (r: Option<(u64, usize)>)
    ensures
        match r {
            Some(v) => spec_parse_u64(s@, i as int) == Some((v.0, v.1 as int)) && i < v.1
                <= s@.len(),
            None => spec_parse_u64(s@, i as int) is None,
        },
{
    let n = s.len();
    if i >= n || s[i] < 48 || s[i] > 57 {
        return None;
    }
    let mut cur: usize = i;
    let mut val: u64 = 0;
    let mut big: bool = false;
    let ghost mut acc: nat = 0nat;
    while cur < n && s[cur] >= 48 && s[cur] <= 57
        invariant
            n == s@.len(),
            i <= cur <= n,
            parse_digits(s@, i as int, 0) == parse_digits(s@, cur as int, acc),
            if big {
                acc > u64::MAX
            } else {
                acc == val
            },
        decreases n - cur,
    {
        let d = s[cur] - 48;
        let ghost acc0: nat = acc;
        proof {
            acc = acc * 10 + (s@[cur as int] - 48) as nat;
        }
        if big || val > (u64::MAX - d as u64) / 10 {
            proof {
                if big {
                    assert(acc >= acc0 * 10);
                    assert(acc > u64::MAX);
                } else {
                    assert(acc0 == val);
                    assert(val * 10 + d > u64::MAX) by (nonlinear_arith)
                        requires
                            val > (u64::MAX - d as u64) / 10,
                            d < 10,
                    ;
                    assert(acc > u64::MAX);
                }
            }
            big = true;
        } else {
            proof {
                assert(val * 10 + d <= u64::MAX) by (nonlinear_arith)
                    requires
                        val <= (u64::MAX - d as u64) / 10,
                        d < 10,
                ;
            }
            val = val * 10 + d as u64;
        }
        cur = cur + 1;
    }
    proof {
        assert(parse_digits(s@, cur as int, acc) == (acc, cur as int));
    }
    if big {
        None
    } else {
        Some((val, cur))
    }
}


/// Consumes the exact byte sequence `t` at position `i`.
pub fn expect_bytes(s: &Vec<u8>, i: usize, t: &Vec<u8>) -> (r: Option<usize>)
    ensures
        match r {
            Some(end) => spec_expect(s@, i as int, t@) == Some(end as int) && i < end
                <= s@.len() || (t@.len() == 0 && spec_expect(s@, i as int, t@) == Some(
                end as int,
            ) && end == i),
            None => spec_expect(s@, i as int, t@) is None,
        },
{
    let n = t.len();
    let slen = s.len();
    if i > slen || n > slen - i {
        return None;
    }
    let mut k: usize = 0;
    while k < n
        invariant
            n == t@.len(),
            k <= n,
            slen == s@.len(),
            i + n <= slen,
            forall|q: int| 0 <= q < k ==> s@[i + q] == t@[q],
        decreases n - k,
    {
        if s[i + k] != t[k] {
            proof {
                if spec_expect(s@, i as int, t@) is Some {
                    assert(s@.subrange(i as int, i + n as int)[k as int] == t@[k as int]);
                }
            }
            return None;
        }
        k = k + 1;
    }
    proof {
        assert(s@.subrange(i as int, i + n as int) =~= t@);
    }
    Some(i + n)
}

fn hex_val_e(b: u8) -> (r: Option<u8>)
    ensures
        r == hex_val(b),
        r matches Some(v) ==> v < 16,
{
    if 48 <= b && b <= 57 {
        Some(b - 48)
    } else if 97 <= b && b <= 102 {
        Some(b - 87)
    } else if 65 <= b && b <= 70 {
        Some(b - 55)
    } else {
        None
    }
}

fn unesc_char_e(e: u8) -> (r: Option<u8>)
    ensures
        r == unesc_char(e),
{
    if e == 34 {
        Some(34)
    } else if e == 92 {
        Some(92)
    } else if e == 47 {
        Some(47)
    } else if e == 98 {
        Some(8)
    } else if e == 116 {
        Some(9)
    } else if e == 110 {
        Some(10)
    } else if e == 102 {
        Some(12)
    } else if e == 114 {
        Some(13)
    } else {
        None
    }
}

/// Parses a quoted, escaped JSON string at position `i`.
pub fn parse_str(s: &Vec<u8>, i: usize) -> (r: Option<(Vec<u8>, usize)>)
    ensures
        match r {
            Some(v) => spec_parse_str(s@, i as int) == Some((v.0@, v.1 as int)) && i < v.1
                <= s@.len(),
            None => spec_parse_str(s@, i as int) is None,
        },
{
    let n = s.len();
    if i >= n || s[i] != 34 {
        return None;
    }
    let mut cur: usize = i + 1;
    let mut out: Vec<u8> = Vec::new();
    loop
        invariant
            n == s@.len(),
            i + 1 <= cur <= n,
            spec_parse_str(s@, i as int) == spec_parse_str_body(s@, cur as int, out@),
        decreases n - cur,
    {
        if cur >= n {
            return None;
        }
        let b = s[cur];
        if b == 34 {
            return Some((out, cur + 1));
        }
        if b == 92 {
            if cur + 1 >= n {
                return None;
            }
            let e = s[cur + 1];
            if e == 117 {
                if n - cur <= 5 {
                    return None;
                }
                let h0 = hex_val_e(s[cur + 2]);
                let h1 = hex_val_e(s[cur + 3]);
                let h2 = hex_val_e(s[cur + 4]);
                let h3 = hex_val_e(s[cur + 5]);
                match (h0, h1, h2, h3) {
                    (Some(v0), Some(v1), Some(v2), Some(v3)) => {
                        if v0 == 0 && v1 == 0 {
                            out.push(v2 * 16 + v3);
                            cur = cur + 6;
                        } else {
                            return None;
                        }
                    },
                    _ => {
                        return None;
                    },
                }
            } else {
                match unesc_char_e(e) {
                    Some(u) => {
                        out.push(u);
                        cur = cur + 2;
                    },
                    None => {
                        return None;
                    },
                }
            }
        } else if b < 32 {
            return None;
        } else {
            out.push(b);
            cur = cur + 1;
        }
    }
}

} // verus!
