//! The JSON text of the wire frames, on bytes.
//!
//! Frames carry flat JSON objects whose members appear in a fixed order, with
//! no whitespace: the compact form that a serializer emits for the schema.
//! Each value here has exactly one text, so each reader below accepts exactly
//! the texts that the matching writer produces.
use vstd::prelude::*;
use vstd::utf8::*;

verus! {

broadcast use vstd::seq::group_seq_axioms;

pub open spec fn is_digit(c: u8) -> bool {
    48 <= c <= 57
}

/// Decimal digits of `n`, without leading zeros.
pub open spec fn uint_text(n: nat) -> Seq<u8>
    decreases n,
{
    if n < 10 {
        seq![(48 + n) as u8]
    } else {
        uint_text(n / 10).push((48 + n % 10) as u8)
    }
}

/// Decimal text of a signed integer: a minus sign before the magnitude when negative.
pub open spec fn int_text(i: int) -> Seq<u8> {
    if i < 0 {
        seq![45u8] + uint_text((-i) as nat)
    } else {
        uint_text(i as nat)
    }
}

/// Lower-case hexadecimal digit of `d < 16`.
pub open spec fn hex_digit(d: int) -> u8 {
    if d < 10 {
        (48 + d) as u8
    } else {
        (87 + d) as u8
    }
}

/// How one byte of a string's UTF-8 appears between the quotes: quote and
/// backslash escaped, control bytes as their short escape or `\u00xx`,
/// everything else as itself.
pub open spec fn escape_byte(c: u8) -> Seq<u8> {
    if c == 34 {
        seq![92u8, 34u8]
    } else if c == 92 {
        seq![92u8, 92u8]
    } else if c == 8 {
        seq![92u8, 98u8]
    } else if c == 12 {
        seq![92u8, 102u8]
    } else if c == 10 {
        seq![92u8, 110u8]
    } else if c == 13 {
        seq![92u8, 114u8]
    } else if c == 9 {
        seq![92u8, 116u8]
    } else if c < 32 {
        seq![92u8, 117u8, 48u8, 48u8, hex_digit(c as int / 16), hex_digit(c as int % 16)]
    } else {
        seq![c]
    }
}

/// The escaped form of a byte string.
pub open spec fn escaped(s: Seq<u8>) -> Seq<u8>
    decreases s.len(),
{
    if s.len() == 0 {
        seq![]
    } else {
        escaped(s.drop_last()) + escape_byte(s.last())
    }
}

/// A JSON string literal holding the bytes `s`.
pub open spec fn str_text(s: Seq<u8>) -> Seq<u8> {
    seq![34u8] + escaped(s) + seq![34u8]
}

/// A JSON string literal holding the text `s`.
pub open spec fn string_text(s: Seq<char>) -> Seq<u8> {
    str_text(encode_utf8(s))
}

/// `"key":`, the start of an object member.
pub open spec fn key_text(key: Seq<char>) -> Seq<u8> {
    string_text(key) + seq![58u8]
}

/// `b` holds `t` at `pos`, followed by `rest` up to its end.
pub open spec fn starts(b: Seq<u8>, pos: int, t: Seq<u8>, rest: Seq<u8>) -> bool {
    0 <= pos <= b.len() && b.subrange(pos, b.len() as int) == t + rest
}

/// The value of a run of decimal digits.
pub open spec fn digits_value(s: Seq<u8>) -> nat
    decreases s.len(),
{
    if s.len() == 0 {
        0
    } else {
        digits_value(s.drop_last()) * 10 + (s.last() - 48) as nat
    }
}

pub open spec fn all_digits(s: Seq<u8>) -> bool {
    forall|k: int| 0 <= k < s.len() ==> is_digit(#[trigger] s[k])
}

proof fn lemma_uint_text(n: nat)
    ensures
        all_digits(uint_text(n)),
        digits_value(uint_text(n)) == n,
        1 <= uint_text(n).len(),
        uint_text(n)[0] != 45,
    decreases n,
{
    if n >= 10 {
        lemma_uint_text(n / 10);
        let t = uint_text(n);
        let d = (48 + n % 10) as u8;
        assert(t == uint_text(n / 10).push(d));
        assert(t.drop_last() =~= uint_text(n / 10));
        assert(t.last() == d);
        assert(n == (n / 10) * 10 + n % 10) by (nonlinear_arith);
        assert(digits_value(t) == digits_value(t.drop_last()) * 10 + (t.last() - 48) as nat);
        assert forall|k: int| 0 <= k < t.len() implies is_digit(#[trigger] t[k]) by {
            if k < t.len() - 1 {
                assert(t[k] == uint_text(n / 10)[k]);
            }
        }
    } else {
        let t = uint_text(n);
        assert(t.drop_last() =~= Seq::<u8>::empty());
        assert(t.last() == (48 + n) as u8);
        assert(digits_value(t) == digits_value(t.drop_last()) * 10 + (t.last() - 48) as nat);
        assert(digits_value(Seq::<u8>::empty()) == 0);
    }
}

proof fn lemma_uint_text_len(n: nat)
    requires
        n <= u32::MAX,
    ensures
        uint_text(n).len() <= 10,
{
    reveal_with_fuel(pow10, 11);
    assert(pow10(10) == 10000000000);
    lemma_text_len_bound(n, 10);
}

proof fn lemma_text_len_bound(m: nat, k: nat)
    requires
        m < pow10(k),
        k >= 1,
    ensures
        uint_text(m).len() <= k,
    decreases m,
{
    if m >= 10 {
        assert(k >= 2) by {
            if k == 1 {
                assert(pow10(0) == 1);
                assert(pow10(1) == 10 * pow10(0));
            }
        }
        assert(pow10(k) == 10 * pow10((k - 1) as nat));
        assert(m / 10 < pow10((k - 1) as nat)) by (nonlinear_arith)
            requires
                m < 10 * pow10((k - 1) as nat),
        ;
        lemma_text_len_bound(m / 10, (k - 1) as nat);
    }
}

pub open spec fn pow10(k: nat) -> nat
    decreases k,
{
    if k == 0 {
        1
    } else {
        10 * pow10((k - 1) as nat)
    }
}

proof fn lemma_prefix_value(s: Seq<u8>, j: int)
    requires
        all_digits(s),
        0 <= j <= s.len(),
    ensures
        digits_value(s.subrange(0, j)) <= digits_value(s),
    decreases s.len(),
{
    if j < s.len() {
        lemma_prefix_value(s.drop_last(), j);
        assert(s.drop_last().subrange(0, j) =~= s.subrange(0, j));
    } else {
        assert(s.subrange(0, j) =~= s);
    }
}

proof fn lemma_escaped_concat(a: Seq<u8>, b: Seq<u8>)
    ensures
        escaped(a + b) == escaped(a) + escaped(b),
    decreases b.len(),
{
    if b.len() == 0 {
        assert(a + b =~= a);
        assert(escaped(a) + escaped(b) =~= escaped(a));
    } else {
        lemma_escaped_concat(a, b.drop_last());
        assert((a + b).drop_last() =~= a + b.drop_last());
        assert((a + b).last() == b.last());
    }
}

proof fn lemma_escaped_unit(c: u8)
    ensures
        escaped(seq![c]) == escape_byte(c),
{
    assert(seq![c].drop_last() =~= Seq::<u8>::empty());
    assert(escaped(Seq::<u8>::empty()) =~= Seq::<u8>::empty());
    assert(Seq::<u8>::empty() + escape_byte(c) =~= escape_byte(c));
}

proof fn lemma_escape_first(c: u8)
    ensures
        escape_byte(c).len() >= 1,
        escape_byte(c)[0] != 34,
        escape_byte(c)[0] >= 32,
{
}

/// Appends the bytes of `s`.
pub fn write_bytes(out: &mut Vec<u8>, s: &[u8])
    ensures
        final(out)@ == old(out)@ + s@,
{
    let mut i: usize = 0;
    while i < s.len()
        invariant
            i <= s@.len(),
            out@ == old(out)@ + s@.subrange(0, i as int),
        decreases s@.len() - i,
    {
        out.push(s[i]);
        assert(old(out)@ + s@.subrange(0, i + 1) =~= (old(out)@ + s@.subrange(0, i as int)).push(
            s@[i as int],
        ));
        i = i + 1;
    }
    assert(s@.subrange(0, s@.len() as int) =~= s@);
}

/// Appends the decimal digits of `n`.
pub fn write_uint(out: &mut Vec<u8>, n: u64)
    ensures
        final(out)@ == old(out)@ + uint_text(n as nat),
    decreases n,
{
    if n >= 10 {
        write_uint(out, n / 10);
    }
    out.push((48 + n % 10) as u8);
    proof {
        if n >= 10 {
            assert(out@ =~= old(out)@ + uint_text(n as nat));
        } else {
            assert(out@ =~= old(out)@ + uint_text(n as nat));
        }
    }
}

/// Appends the decimal text of `i`.
pub fn write_int(out: &mut Vec<u8>, i: i32)
    ensures
        final(out)@ == old(out)@ + int_text(i as int),
{
    if i < 0 {
        out.push(45u8);
        let m: i64 = -(i as i64);
        write_uint(out, m as u64);
        assert(out@ =~= old(out)@ + int_text(i as int));
    } else {
        write_uint(out, i as u64);
    }
}

fn hex_digit_exec(d: u8) -> (r: u8)
    requires
        d < 16,
    ensures
        r == hex_digit(d as int),
{
    if d < 10 {
        48 + d
    } else {
        87 + d
    }
}

fn write_escape(out: &mut Vec<u8>, c: u8)
    ensures
        final(out)@ == old(out)@ + escape_byte(c),
{
    if c == 34 || c == 92 {
        out.push(92u8);
        out.push(c);
    } else if c == 8 {
        out.push(92u8);
        out.push(98u8);
    } else if c == 12 {
        out.push(92u8);
        out.push(102u8);
    } else if c == 10 {
        out.push(92u8);
        out.push(110u8);
    } else if c == 13 {
        out.push(92u8);
        out.push(114u8);
    } else if c == 9 {
        out.push(92u8);
        out.push(116u8);
    } else if c < 32 {
        out.push(92u8);
        out.push(117u8);
        out.push(48u8);
        out.push(48u8);
        out.push(hex_digit_exec(c / 16));
        out.push(hex_digit_exec(c % 16));
    } else {
        out.push(c);
    }
    assert(out@ =~= old(out)@ + escape_byte(c));
}

/// Appends a JSON string literal holding the bytes `s`.
pub fn write_str(out: &mut Vec<u8>, s: &[u8])
    ensures
        final(out)@ == old(out)@ + str_text(s@),
{
    out.push(34u8);
    let ghost start = out@;
    let mut i: usize = 0;
    while i < s.len()
        invariant
            i <= s@.len(),
            out@ == start + escaped(s@.subrange(0, i as int)),
        decreases s@.len() - i,
    {
        write_escape(out, s[i]);
        assert(s@.subrange(0, i + 1).drop_last() =~= s@.subrange(0, i as int));
        assert(out@ =~= start + escaped(s@.subrange(0, i + 1)));
        i = i + 1;
    }
    out.push(34u8);
    assert(s@.subrange(0, s@.len() as int) =~= s@);
    assert(out@ =~= old(out)@ + str_text(s@));
}

/// Appends a JSON string literal holding the text `s`.
pub fn write_string(out: &mut Vec<u8>, s: &str)
    ensures
        final(out)@ == old(out)@ + string_text(s@),
{
    write_str(out, s.as_bytes());
}

/// Appends `"key":`.
pub fn write_key(out: &mut Vec<u8>, key: &str)
    ensures
        final(out)@ == old(out)@ + key_text(key@),
{
    write_string(out, key);
    out.push(58u8);
    assert(out@ =~= old(out)@ + key_text(key@));
}

/// Reads a run of digits at `pos` as an unsigned number in its one decimal text.
pub fn read_uint(b: &[u8], pos: usize) -> (r: Option<(u64, usize)>)
    ensures
        r matches Some((v, e)) ==> pos <= e <= b@.len() && b@.subrange(pos as int, e as int)
            == uint_text(v as nat) && v <= u32::MAX,
        forall|n: nat, rest: Seq<u8>|
            #[trigger] starts(b@, pos as int, uint_text(n), rest) && n <= u32::MAX && (rest.len()
                == 0 || !is_digit(rest[0])) ==> r == Some((n as u64, (pos + uint_text(n).len()) as usize)),
{
    if pos >= b.len() {
        proof {
            assert forall|n: nat, rest: Seq<u8>|
                #[trigger] starts(b@, pos as int, uint_text(n), rest) implies false by {
                lemma_uint_text(n);
                assert(b@.subrange(pos as int, b@.len() as int).len() == 0);
            }
        }
        return None;
    }
    let mut i: usize = pos;
    let mut v: u64 = 0;
    while i < b.len() && 48 <= b[i] && b[i] <= 57 && v <= 4294967295
        invariant
            pos <= i <= b@.len(),
            pos < b@.len(),
            v == digits_value(b@.subrange(pos as int, i as int)),
            all_digits(b@.subrange(pos as int, i as int)),
        decreases b@.len() - i,
    {
        proof {
            assert(b@.subrange(pos as int, i + 1).drop_last() =~= b@.subrange(pos as int, i as int));
        }
        v = v * 10 + (b[i] - 48) as u64;
        i = i + 1;
    }
    let ghost run = b@.subrange(pos as int, i as int);
    proof {
        assert forall|n: nat, rest: Seq<u8>|
            #[trigger] starts(b@, pos as int, uint_text(n), rest) && n <= u32::MAX && (rest.len()
                == 0 || !is_digit(rest[0])) implies i == pos + uint_text(n).len() && v == n && run
                == uint_text(n) by {
            let t = uint_text(n);
            lemma_uint_text(n);
            lemma_uint_text_len(n);
            assert(b@.subrange(pos as int, b@.len() as int) == t + rest);
            assert forall|k: int| 0 <= k < t.len() implies b@[pos + k] == t[k] by {
                assert(b@.subrange(pos as int, b@.len() as int)[k] == (t + rest)[k]);
            }
            if i < pos + t.len() {
                assert(is_digit(b@[i as int])) by {
                    assert(b@[i as int] == t[i - pos]);
                }
                assert(v > u32::MAX);
                assert(run =~= t.subrange(0, i - pos));
                lemma_prefix_value(t, i - pos);
            } else if i > pos + t.len() {
                assert(run[t.len() as int] == b@[pos + t.len()]);
                assert(rest.len() > 0);
                assert(b@.subrange(pos as int, b@.len() as int)[t.len() as int] == rest[0]);
            }
            assert(run =~= t);
        }
    }
    if v > 4294967295 || i == pos {
        return None;
    }
    let mut canon: Vec<u8> = Vec::new();
    write_uint(&mut canon, v);
    assert(canon@ == uint_text(v as nat));
    if !bytes_equal(canon.as_slice(), b, pos, i) {
        return None;
    }
    Some((v, i))
}

/// Whether `b[from..to]` equals `t`.
pub fn bytes_equal(t: &[u8], b: &[u8], from: usize, to: usize) -> (r: bool)
    requires
        from <= to <= b@.len(),
    ensures
        r == (t@ == b@.subrange(from as int, to as int)),
{
    if t.len() != to - from {
        return false;
    }
    let mut k: usize = 0;
    while k < t.len()
        invariant
            t@.len() == to - from,
            from <= to <= b@.len(),
            k <= t@.len(),
            forall|j: int| 0 <= j < k ==> t@[j] == b@[from + j],
        decreases t@.len() - k,
    {
        if t[k] != b[from + k] {
            return false;
        }
        k = k + 1;
    }
    assert(t@ =~= b@.subrange(from as int, to as int));
    true
}

/// Reads a signed number at `pos` in its one decimal text.
pub fn read_int(b: &[u8], pos: usize) -> (r: Option<(i32, usize)>)
    ensures
        r matches Some((v, e)) ==> pos <= e <= b@.len() && b@.subrange(pos as int, e as int)
            == int_text(v as int),
        forall|n: i32, rest: Seq<u8>|
            #[trigger] starts(b@, pos as int, int_text(n as int), rest) && (rest.len() == 0
                || !is_digit(rest[0])) ==> r == Some((n, (pos + int_text(n as int).len()) as usize)),
{
    if pos < b.len() && b[pos] == 45 {
        proof {
            assert forall|n: i32, rest: Seq<u8>|
                #[trigger] starts(b@, pos as int, int_text(n as int), rest) && (rest.len() == 0
                    || !is_digit(rest[0])) implies n < 0 && starts(b@, pos + 1, uint_text((-n) as nat), rest) by {
                if n >= 0 {
                    lemma_uint_text(n as nat);
                    assert(b@.subrange(pos as int, b@.len() as int)[0] == uint_text(n as nat)[0]);
                } else {
                    let t = uint_text((-n) as nat);
                    assert(b@.subrange(pos + 1, b@.len() as int) =~= b@.subrange(pos as int, b@.len() as int).subrange(1, b@.len() - pos));
                    assert(int_text(n as int) + rest =~= seq![45u8] + (t + rest));
                    assert((seq![45u8] + (t + rest)).subrange(1, b@.len() - pos) =~= t + rest);
                }
            }
        }
        match read_uint(b, pos + 1) {
            Some((m, e)) => {
                if m == 0 || m > 2147483648 {
                    proof {
                        assert forall|n: i32, rest: Seq<u8>|
                            #[trigger] starts(b@, pos as int, int_text(n as int), rest) && (rest.len() == 0
                                || !is_digit(rest[0])) implies false by {
                            assert(starts(b@, pos + 1, uint_text((-n) as nat), rest));
                        }
                    }
                    return None;
                }
                let v: i32 = if m == 2147483648 {
                    -2147483648i32
                } else {
                    -(m as i32)
                };
                proof {
                    assert(b@.subrange(pos as int, e as int) =~= seq![45u8] + b@.subrange(pos + 1, e as int));
                    assert forall|n: i32, rest: Seq<u8>|
                        #[trigger] starts(b@, pos as int, int_text(n as int), rest) && (rest.len() == 0
                            || !is_digit(rest[0])) implies n == v && e == pos + int_text(n as int).len() by {
                        assert(starts(b@, pos + 1, uint_text((-n) as nat), rest));
                    }
                }
                Some((v, e))
            },
            None => {
                proof {
                    assert forall|n: i32, rest: Seq<u8>|
                        #[trigger] starts(b@, pos as int, int_text(n as int), rest) && (rest.len() == 0
                            || !is_digit(rest[0])) implies false by {
                        assert(starts(b@, pos + 1, uint_text((-n) as nat), rest));
                    }
                }
                None
            },
        }
    } else {
        proof {
            assert forall|n: i32, rest: Seq<u8>|
                #[trigger] starts(b@, pos as int, int_text(n as int), rest) implies n >= 0 by {
                if n < 0 {
                    lemma_uint_text((-n) as nat);
                    assert((int_text(n as int) + rest)[0] == 45u8);
                    assert(b@.subrange(pos as int, b@.len() as int).len() == (int_text(n as int) + rest).len());
                    assert(pos < b@.len());
                    assert(b@.subrange(pos as int, b@.len() as int)[0] == 45u8);
                    assert(b@[pos as int] == 45u8);
                }
            }
        }
        match read_uint(b, pos) {
            Some((m, e)) => {
                if m > 2147483647 {
                    proof {
                        assert forall|n: i32, rest: Seq<u8>|
                            #[trigger] starts(b@, pos as int, int_text(n as int), rest) && (rest.len() == 0
                                || !is_digit(rest[0])) implies false by {
                            assert(starts(b@, pos as int, uint_text(n as nat), rest));
                        }
                    }
                    return None;
                }
                proof {
                    assert forall|n: i32, rest: Seq<u8>|
                        #[trigger] starts(b@, pos as int, int_text(n as int), rest) && (rest.len() == 0
                            || !is_digit(rest[0])) implies n == m as i32 && e == pos + int_text(n as int).len() by {
                        assert(starts(b@, pos as int, uint_text(n as nat), rest));
                    }
                }
                Some((m as i32, e))
            },
            None => {
                proof {
                    assert forall|n: i32, rest: Seq<u8>|
                        #[trigger] starts(b@, pos as int, int_text(n as int), rest) && (rest.len() == 0
                            || !is_digit(rest[0])) implies false by {
                        assert(starts(b@, pos as int, uint_text(n as nat), rest));
                    }
                }
                None
            },
        }
    }
}


/// Splitting what follows a position.
pub proof fn lemma_starts_split(b: Seq<u8>, pos: int, t: Seq<u8>, u: Seq<u8>, rest: Seq<u8>)
    requires
        starts(b, pos, t + u, rest),
    ensures
        starts(b, pos, t, u + rest),
        starts(b, pos + t.len(), u, rest),
{
    assert(t + u + rest =~= t + (u + rest));
    let whole = b.subrange(pos, b.len() as int);
    assert(b.subrange(pos + t.len(), b.len() as int) =~= whole.subrange(t.len() as int, whole.len() as int));
    assert((t + (u + rest)).subrange(t.len() as int, (t + (u + rest)).len() as int) =~= u + rest);
}

/// The bytes that a position is followed by.
pub proof fn lemma_starts_bytes(b: Seq<u8>, pos: int, t: Seq<u8>, rest: Seq<u8>)
    requires
        starts(b, pos, t, rest),
    ensures
        pos + t.len() <= b.len(),
        b.subrange(pos, pos + t.len()) == t,
        forall|k: int| 0 <= k < t.len() ==> b[pos + k] == t[k],
        rest.len() == 0 ==> pos + t.len() == b.len(),
        rest.len() > 0 ==> pos + t.len() < b.len() && b[pos + t.len()] == rest[0],
{
    let whole = b.subrange(pos, b.len() as int);
    assert(whole.len() == t.len() + rest.len());
    assert forall|k: int| 0 <= k < t.len() implies b[pos + k] == t[k] by {
        assert(whole[k] == (t + rest)[k]);
    }
    assert(b.subrange(pos, pos + t.len()) =~= t);
    if rest.len() > 0 {
        assert(whole[t.len() as int] == (t + rest)[t.len() as int]);
    }
}

/// Whether `b[pos]` is the byte `c`.
pub fn expect_byte(b: &[u8], pos: usize, c: u8) -> (r: bool)
    ensures
        r == (pos < b@.len() && b@[pos as int] == c),
{
    pos < b.len() && b[pos] == c
}

fn hex_value(c: u8) -> (r: Option<u8>)
    ensures
        r matches Some(d) ==> d < 16 && hex_digit(d as int) == c,
        forall|d: u8| d < 16 && #[trigger] hex_digit(d as int) == c ==> r == Some(d),
{
    if 48 <= c && c <= 57 {
        Some(c - 48)
    } else if 97 <= c && c <= 102 {
        Some(c - 87)
    } else {
        None
    }
}

/// Reads one escaped unit of a string body at `i`.
fn read_unit(b: &[u8], i: usize) -> (r: Option<(u8, usize)>)
    requires
        i < b@.len(),
    ensures
        r matches Some((v, j)) ==> i < j <= b@.len() && b@.subrange(i as int, j as int)
            == escape_byte(v),
        forall|v: u8, rest: Seq<u8>|
            #[trigger] starts(b@, i as int, escape_byte(v), rest) ==> r == Some(
                (v, (i + escape_byte(v).len()) as usize),
            ),
{
    let c = b[i];
    proof {
        assert forall|v: u8, rest: Seq<u8>| #[trigger] starts(b@, i as int, escape_byte(v), rest) implies
            b@[i as int] == escape_byte(v)[0] && (escape_byte(v).len() >= 2 ==> i + 1 < b@.len() && b@[i + 1] == escape_byte(v)[1])
            && (escape_byte(v).len() == 6 ==> i + 6 <= b@.len() && b@[i + 2] == 48 && b@[i + 3] == 48
                && b@[i + 4] == escape_byte(v)[4] && b@[i + 5] == escape_byte(v)[5]) by {
            lemma_starts_bytes(b@, i as int, escape_byte(v), rest);
        }
    }
    if c == 92 {
        if i + 1 >= b.len() {
            return None;
        }
        let e = b[i + 1];
        let short: Option<u8> = if e == 34 || e == 92 {
            Some(e)
        } else if e == 98 {
            Some(8u8)
        } else if e == 102 {
            Some(12u8)
        } else if e == 110 {
            Some(10u8)
        } else if e == 114 {
            Some(13u8)
        } else if e == 116 {
            Some(9u8)
        } else {
            None
        };
        if let Some(v) = short {
            assert(b@.subrange(i as int, i + 2) =~= escape_byte(v));
            return Some((v, i + 2));
        }
        if e != 117 || b.len() - i < 6 || b[i + 2] != 48 || b[i + 3] != 48 {
            return None;
        }
        match (hex_value(b[i + 4]), hex_value(b[i + 5])) {
            (Some(h), Some(l)) => {
                if h > 1 {
                    proof {
                        assert forall|v: u8, rest: Seq<u8>| #[trigger] starts(b@, i as int, escape_byte(v), rest)
                            implies false by {
                            if escape_byte(v).len() == 6 {
                                assert(v / 16 < 2);
                                assert(hex_digit((v / 16) as u8 as int) == b@[i + 4]);
                            }
                        }
                    }
                    return None;
                }
                let v: u8 = h * 16 + l;
                assert(v / 16 == h && v % 16 == l) by (nonlinear_arith)
                    requires
                        v == h * 16 + l,
                        l < 16,
                        h <= 1,
                ;
                if v == 8 || v == 9 || v == 10 || v == 12 || v == 13 {
                    proof {
                        assert forall|w: u8, rest: Seq<u8>| #[trigger] starts(b@, i as int, escape_byte(w), rest)
                            implies false by {
                            if escape_byte(w).len() == 6 {
                                assert(hex_digit((w / 16) as u8 as int) == b@[i + 4]);
                                assert(hex_digit((w % 16) as u8 as int) == b@[i + 5]);
                                assert(w == (w / 16) * 16 + w % 16);
                            }
                        }
                    }
                    return None;
                }
                assert(b@.subrange(i as int, i + 6) =~= escape_byte(v));
                proof {
                    assert forall|w: u8, rest: Seq<u8>| #[trigger] starts(b@, i as int, escape_byte(w), rest)
                        implies w == v by {
                        assert(escape_byte(w).len() == 6);
                        assert(hex_digit((w / 16) as u8 as int) == b@[i + 4]);
                        assert(hex_digit((w % 16) as u8 as int) == b@[i + 5]);
                        assert(w == (w / 16) * 16 + w % 16);
                    }
                }
                Some((v, i + 6))
            },
            _ => {
                proof {
                    assert forall|w: u8, rest: Seq<u8>| #[trigger] starts(b@, i as int, escape_byte(w), rest)
                        implies false by {
                        if escape_byte(w).len() == 6 {
                            assert(hex_digit((w / 16) as u8 as int) == b@[i + 4]);
                            assert(hex_digit((w % 16) as u8 as int) == b@[i + 5]);
                        }
                    }
                }
                None
            },
        }
    } else if c == 34 || c < 32 {
        None
    } else {
        assert(b@.subrange(i as int, i + 1) =~= escape_byte(c));
        Some((c, i + 1))
    }
}

proof fn lemma_str_step(b: Seq<u8>, pos: int, s: Seq<u8>, rest: Seq<u8>, out: Seq<u8>, i: int)
    requires
        starts(b, pos, str_text(s), rest),
        out.len() <= s.len(),
        out == s.subrange(0, out.len() as int),
        pos + 1 <= i <= b.len(),
        b.subrange(pos + 1, i) == escaped(out),
    ensures
        out.len() < s.len() ==> starts(
            b,
            i,
            escape_byte(s[out.len() as int]),
            escaped(s.subrange(out.len() as int + 1, s.len() as int)) + seq![34u8] + rest,
        ),
        out.len() == s.len() ==> i < b.len() && b[i] == 34 && i + 1 == pos + str_text(s).len(),
{
    let k = out.len() as int;
    lemma_escaped_concat(s.subrange(0, k), s.subrange(k, s.len() as int));
    assert(s.subrange(0, k) + s.subrange(k, s.len() as int) =~= s);
    let tail = escaped(s.subrange(k, s.len() as int));
    let t = seq![34u8] + escaped(out);
    assert(str_text(s) =~= t + (tail + seq![34u8]));
    lemma_starts_split(b, pos, t, tail + seq![34u8], rest);
    assert(pos + t.len() == i);
    if k < s.len() {
        lemma_escaped_concat(seq![s[k]], s.subrange(k + 1, s.len() as int));
        assert(seq![s[k]] + s.subrange(k + 1, s.len() as int) =~= s.subrange(k, s.len() as int));
        lemma_escaped_unit(s[k]);
        let u = escaped(s.subrange(k + 1, s.len() as int));
        assert(tail + seq![34u8] =~= escape_byte(s[k]) + (u + seq![34u8]));
        lemma_starts_split(b, i, escape_byte(s[k]), u + seq![34u8], rest);
    } else {
        assert(s.subrange(k, s.len() as int) =~= Seq::<u8>::empty());
        assert(tail =~= Seq::<u8>::empty());
        assert(tail + seq![34u8] =~= seq![34u8]);
        lemma_starts_bytes(b, i, seq![34u8], rest);
        assert(b[i + 0] == seq![34u8][0]);
    }
}

/// Reads a string literal at `pos`, returning the bytes it holds.
pub fn read_str(b: &[u8], pos: usize) -> (r: Option<(Vec<u8>, usize)>)
    ensures
        r matches Some((v, e)) ==> pos < e <= b@.len() && b@.subrange(pos as int, e as int)
            == str_text(v@),
        forall|s: Seq<u8>, rest: Seq<u8>|
            #[trigger] starts(b@, pos as int, str_text(s), rest) ==> (r matches Some((v, e)) && v@
                == s && e == pos + str_text(s).len()),
{
    proof {
        assert forall|s: Seq<u8>, rest: Seq<u8>| #[trigger] starts(b@, pos as int, str_text(s), rest)
            implies pos < b@.len() && b@[pos as int] == 34 by {
            lemma_starts_bytes(b@, pos as int, str_text(s), rest);
            assert(str_text(s)[0] == 34);
            assert(b@[pos + 0] == str_text(s)[0]);
        }
    }
    if pos >= b.len() || b[pos] != 34 {
        return None;
    }
    let mut out: Vec<u8> = Vec::new();
    let mut i: usize = pos + 1;
    assert(b@.subrange(pos + 1, i as int) =~= escaped(out@));
    loop
        invariant
            pos + 1 <= i <= b@.len(),
            b@[pos as int] == 34,
            b@.subrange(pos + 1, i as int) == escaped(out@),
            forall|s: Seq<u8>, rest: Seq<u8>|
                #[trigger] starts(b@, pos as int, str_text(s), rest) ==> out@.len() <= s.len()
                    && out@ == s.subrange(0, out@.len() as int),
        decreases b@.len() - i,
    {
        proof {
            assert forall|s: Seq<u8>, rest: Seq<u8>| #[trigger] starts(b@, pos as int, str_text(s), rest)
                implies i < b@.len() by {
                lemma_str_step(b@, pos as int, s, rest, out@, i as int);
                if out@.len() < s.len() {
                    lemma_starts_bytes(b@, i as int, escape_byte(s[out@.len() as int]),
                        escaped(s.subrange(out@.len() as int + 1, s.len() as int)) + seq![34u8] + rest);
                    lemma_escape_first(s[out@.len() as int]);
                }
            }
        }
        if i >= b.len() {
            return None;
        }
        if b[i] == 34 {
            proof {
                assert(b@.subrange(pos as int, i + 1) =~= str_text(out@));
                assert forall|s: Seq<u8>, rest: Seq<u8>| #[trigger] starts(b@, pos as int, str_text(s), rest)
                    implies out@ == s && i + 1 == pos + str_text(s).len() by {
                    lemma_str_step(b@, pos as int, s, rest, out@, i as int);
                    if out@.len() < s.len() {
                        lemma_starts_bytes(b@, i as int, escape_byte(s[out@.len() as int]),
                            escaped(s.subrange(out@.len() as int + 1, s.len() as int)) + seq![34u8] + rest);
                        lemma_escape_first(s[out@.len() as int]);
                    }
                    assert(out@ =~= s);
                }
            }
            return Some((out, i + 1));
        }
        match read_unit(b, i) {
            None => {
                proof {
                    assert forall|s: Seq<u8>, rest: Seq<u8>| #[trigger] starts(b@, pos as int, str_text(s), rest)
                        implies false by {
                        lemma_str_step(b@, pos as int, s, rest, out@, i as int);
                    }
                }
                return None;
            },
            Some((v, j)) => {
                proof {
                    assert forall|s: Seq<u8>, rest: Seq<u8>| #[trigger] starts(b@, pos as int, str_text(s), rest)
                        implies out@.len() < s.len() && v == s[out@.len() as int] by {
                        lemma_str_step(b@, pos as int, s, rest, out@, i as int);
                    }
                }
                let ghost prev = out@;
                out.push(v);
                proof {
                    assert(out@.drop_last() =~= prev);
                    assert(b@.subrange(pos + 1, j as int) =~= b@.subrange(pos + 1, i as int) + b@.subrange(i as int, j as int));
                    assert forall|s: Seq<u8>, rest: Seq<u8>| #[trigger] starts(b@, pos as int, str_text(s), rest)
                        implies out@.len() <= s.len() && out@ == s.subrange(0, out@.len() as int) by {
                        assert(out@ =~= s.subrange(0, out@.len() as int));
                    }
                }
                i = j;
            },
        }
    }
}

/// Reads `"key":` at `pos`.
pub fn read_key(b: &[u8], pos: usize, key: &str) -> (r: Option<usize>)
    ensures
        r matches Some(e) ==> pos <= e <= b@.len() && b@.subrange(pos as int, e as int) == key_text(key@),
        forall|rest: Seq<u8>| #[trigger] starts(b@, pos as int, key_text(key@), rest) ==> r == Some(
            (pos + key_text(key@).len()) as usize,
        ),
{
    let k = key.as_bytes();
    proof {
        assert forall|rest: Seq<u8>| #[trigger] starts(b@, pos as int, key_text(key@), rest) implies
            starts(b@, pos as int, str_text(k@), seq![58u8] + rest) && starts(b@, pos + str_text(k@).len(), seq![58u8], rest) by {
            lemma_starts_split(b@, pos as int, str_text(k@), seq![58u8], rest);
        }
    }
    match read_str(b, pos) {
        Some((s, e)) => {
            if !bytes_equal(s.as_slice(), k, 0, k.len()) {
                proof {
                    assert(k@.subrange(0, k@.len() as int) =~= k@);
                }
                return None;
            }
            assert(k@.subrange(0, k@.len() as int) =~= k@);
            if e >= b.len() || b[e] != 58 {
                proof {
                    assert forall|rest: Seq<u8>| #[trigger] starts(b@, pos as int, key_text(key@), rest) implies false by {
                        assert(starts(b@, pos as int, str_text(k@), seq![58u8] + rest));
                        assert(e == pos + str_text(k@).len());
                        lemma_starts_bytes(b@, pos + str_text(k@).len(), seq![58u8], rest);
                        assert(b@[e + 0] == seq![58u8][0]);
                    }
                }
                return None;
            }
            assert(b@.subrange(pos as int, e + 1) =~= b@.subrange(pos as int, e as int) + seq![58u8]);
            Some(e + 1)
        },
        None => None,
    }
}

/// Relies on `String::from_utf8`: it succeeds exactly on valid UTF-8 and then
/// holds the text those bytes encode.
#[verifier::external_body]
pub(crate) fn string_from_utf8(bytes: Vec<u8>) -> (r: Option<String>)
    ensures
        r is Some <==> valid_utf8(bytes@),
        r matches Some(s) ==> s@ == decode_utf8(bytes@),
{
    String::from_utf8(bytes).ok()
}

/// Reads a string literal at `pos` whose bytes are valid UTF-8, as text.
pub fn read_string(b: &[u8], pos: usize) -> (r: Option<(String, usize)>)
    ensures
        r matches Some((v, e)) ==> pos < e <= b@.len() && b@.subrange(pos as int, e as int)
            == string_text(v@),
        forall|s: Seq<char>, rest: Seq<u8>|
            #[trigger] starts(b@, pos as int, string_text(s), rest) ==> (r matches Some((v, e)) && v@
                == s && e == pos + string_text(s).len()),
{
    match read_str(b, pos) {
        Some((bytes, e)) => {
            let ghost raw = bytes@;
            match string_from_utf8(bytes) {
                Some(s) => {
                    proof {
                        decode_utf8_encode_utf8(raw);
                        assert forall|t: Seq<char>, rest: Seq<u8>| #[trigger] starts(b@, pos as int, string_text(t), rest)
                            implies s@ == t by {
                            encode_utf8_decode_utf8(t);
                        }
                    }
                    Some((s, e))
                },
                None => {
                    proof {
                        assert forall|t: Seq<char>, rest: Seq<u8>| #[trigger] starts(b@, pos as int, string_text(t), rest)
                            implies false by {
                            encode_utf8_valid_utf8(t);
                        }
                    }
                    None
                },
            }
        },
        None => None,
    }
}

/// The bytes of `b` from `start` on.
pub fn bytes_from(b: &[u8], start: usize) -> (r: Vec<u8>)
    requires
        start <= b@.len(),
    ensures
        r@ == b@.subrange(start as int, b@.len() as int),
{
    let mut out: Vec<u8> = Vec::new();
    let mut i: usize = start;
    while i < b.len()
        invariant
            start <= i <= b@.len(),
            out@ == b@.subrange(start as int, i as int),
        decreases b@.len() - i,
    {
        out.push(b[i]);
        assert(out@ =~= b@.subrange(start as int, i + 1));
        i = i + 1;
    }
    out
}

/// `,"key":N`
pub open spec fn umember(key: Seq<char>, n: u16) -> Seq<u8> {
    seq![44u8] + key_text(key) + uint_text(n as nat)
}

/// `,"key":I`
pub open spec fn imember(key: Seq<char>, i: i32) -> Seq<u8> {
    seq![44u8] + key_text(key) + int_text(i as int)
}

/// `,"key":"text"`
pub open spec fn smember(key: Seq<char>, t: Seq<char>) -> Seq<u8> {
    seq![44u8] + key_text(key) + string_text(t)
}

/// JSON `true` or `false`.
pub open spec fn bool_text(b: bool) -> Seq<u8> {
    if b {
        seq![116u8, 114u8, 117u8, 101u8]
    } else {
        seq![102u8, 97u8, 108u8, 115u8, 101u8]
    }
}

/// `,"key":true` or `,"key":false`
pub open spec fn bmember(key: Seq<char>, b: bool) -> Seq<u8> {
    seq![44u8] + key_text(key) + bool_text(b)
}

/// `b` from `pos` on is exactly `t`.
pub proof fn lemma_starts_exact(b: Seq<u8>, pos: int, t: Seq<u8>)
    requires
        0 <= pos <= b.len(),
        b.subrange(pos, b.len() as int) == t,
    ensures
        starts(b, pos, t, Seq::<u8>::empty()),
{
    assert(t + Seq::<u8>::empty() =~= t);
}

/// Where the parts of a member `,"key":value` stand.
pub proof fn lemma_member_layout(b: Seq<u8>, pos: int, k: Seq<u8>, u: Seq<u8>, rest: Seq<u8>)
    requires
        starts(b, pos, seq![44u8] + k + u, rest),
    ensures
        pos < b.len(),
        b[pos] == 44,
        starts(b, pos + 1, k, u + rest),
        starts(b, pos + 1 + k.len(), u, rest),
{
    lemma_starts_split(b, pos, seq![44u8] + k, u, rest);
    lemma_starts_split(b, pos, seq![44u8], k, u + rest);
    lemma_starts_bytes(b, pos, seq![44u8], k + (u + rest));
    assert(b[pos + 0] == seq![44u8][0]);
}

/// Reads the member `,"key":N` with `N` fitting in 16 bits.
pub fn read_umember(b: &[u8], pos: usize, key: &str) -> (r: Option<(u16, usize)>)
    ensures
        r matches Some((v, e)) ==> pos <= e <= b@.len() && b@.subrange(pos as int, e as int) == umember(key@, v),
        forall|n: u16, rest: Seq<u8>|
            #[trigger] starts(b@, pos as int, umember(key@, n), rest) && (rest.len() == 0 || !is_digit(rest[0]))
                ==> r == Some((n, (pos + umember(key@, n).len()) as usize)),
{
    proof {
        assert forall|n: u16, rest: Seq<u8>| #[trigger] starts(b@, pos as int, umember(key@, n), rest) implies
            pos < b@.len() && b@[pos as int] == 44 && starts(b@, pos + 1, key_text(key@), uint_text(n as nat) + rest)
            && starts(b@, pos + 1 + key_text(key@).len(), uint_text(n as nat), rest) by {
            lemma_member_layout(b@, pos as int, key_text(key@), uint_text(n as nat), rest);
        }
    }
    if pos >= b.len() || b[pos] != 44 {
        return None;
    }
    match read_key(b, pos + 1, key) {
        Some(e) => match read_uint(b, e) {
            Some((v, f)) => {
                if v > 65535 {
                    return None;
                }
                assert(b@.subrange(pos as int, f as int) =~= seq![44u8] + b@.subrange(pos + 1, e as int)
                    + b@.subrange(e as int, f as int));
                Some((v as u16, f))
            },
            None => None,
        },
        None => None,
    }
}

/// Reads the member `,"key":I`.
pub fn read_imember(b: &[u8], pos: usize, key: &str) -> (r: Option<(i32, usize)>)
    ensures
        r matches Some((v, e)) ==> pos <= e <= b@.len() && b@.subrange(pos as int, e as int) == imember(key@, v),
        forall|n: i32, rest: Seq<u8>|
            #[trigger] starts(b@, pos as int, imember(key@, n), rest) && (rest.len() == 0 || !is_digit(rest[0]))
                ==> r == Some((n, (pos + imember(key@, n).len()) as usize)),
{
    proof {
        assert forall|n: i32, rest: Seq<u8>| #[trigger] starts(b@, pos as int, imember(key@, n), rest) implies
            pos < b@.len() && b@[pos as int] == 44 && starts(b@, pos + 1, key_text(key@), int_text(n as int) + rest)
            && starts(b@, pos + 1 + key_text(key@).len(), int_text(n as int), rest) by {
            lemma_member_layout(b@, pos as int, key_text(key@), int_text(n as int), rest);
        }
    }
    if pos >= b.len() || b[pos] != 44 {
        return None;
    }
    match read_key(b, pos + 1, key) {
        Some(e) => match read_int(b, e) {
            Some((v, f)) => {
                assert(b@.subrange(pos as int, f as int) =~= seq![44u8] + b@.subrange(pos + 1, e as int)
                    + b@.subrange(e as int, f as int));
                Some((v, f))
            },
            None => None,
        },
        None => None,
    }
}

/// Reads the member `,"key":"text"`.
pub fn read_smember(b: &[u8], pos: usize, key: &str) -> (r: Option<(String, usize)>)
    ensures
        r matches Some((v, e)) ==> pos <= e <= b@.len() && b@.subrange(pos as int, e as int) == smember(key@, v@),
        forall|t: Seq<char>, rest: Seq<u8>|
            #[trigger] starts(b@, pos as int, smember(key@, t), rest) ==> (r matches Some((v, e)) && v@ == t
                && e == pos + smember(key@, t).len()),
{
    proof {
        assert forall|t: Seq<char>, rest: Seq<u8>| #[trigger] starts(b@, pos as int, smember(key@, t), rest) implies
            pos < b@.len() && b@[pos as int] == 44 && starts(b@, pos + 1, key_text(key@), string_text(t) + rest)
            && starts(b@, pos + 1 + key_text(key@).len(), string_text(t), rest) by {
            lemma_member_layout(b@, pos as int, key_text(key@), string_text(t), rest);
        }
    }
    if pos >= b.len() || b[pos] != 44 {
        return None;
    }
    match read_key(b, pos + 1, key) {
        Some(e) => match read_string(b, e) {
            Some((v, f)) => {
                assert(b@.subrange(pos as int, f as int) =~= seq![44u8] + b@.subrange(pos + 1, e as int)
                    + b@.subrange(e as int, f as int));
                Some((v, f))
            },
            None => None,
        },
        None => None,
    }
}

/// Every byte is ASCII.
pub open spec fn all_ascii(b: Seq<u8>) -> bool {
    forall|i: int| 0 <= i < b.len() ==> #[trigger] b[i] < 128
}

/// ASCII bytes are valid UTF-8.
pub proof fn lemma_ascii_valid(b: Seq<u8>)
    requires
        all_ascii(b),
    ensures
        valid_utf8(b),
    decreases b.len(),
{
    if b.len() > 0 {
        let c = b[0];
        assert(c < 128);
        assert((c & 0x7f) as u32 <= 0x7f) by (bit_vector);
        assert(valid_first_scalar(b));
        let rest = b.subrange(1, b.len() as int);
        assert(pop_first_scalar(b) =~= rest);
        assert(all_ascii(rest)) by {
            assert forall|i: int| 0 <= i < rest.len() implies #[trigger] rest[i] < 128 by {
                assert(rest[i] == b[i + 1]);
            }
        }
        lemma_ascii_valid(rest);
    }
}

/// Bytes that need no escaping are left as they are.
proof fn lemma_escaped_high(b: Seq<u8>)
    requires
        forall|i: int| 0 <= i < b.len() ==> #[trigger] b[i] >= 128,
    ensures
        escaped(b) == b,
    decreases b.len(),
{
    if b.len() > 0 {
        lemma_escaped_high(b.drop_last());
        assert(b.last() >= 128);
        assert(escape_byte(b.last()) == seq![b.last()]);
        assert(b.drop_last() + seq![b.last()] =~= b);
    }
}

/// An escape of an ASCII byte is ASCII.
proof fn lemma_escape_ascii(c: u8)
    requires
        c < 128,
    ensures
        all_ascii(escape_byte(c)),
{
    assert(c as int / 16 < 16);
    assert(hex_digit(c as int / 16) < 128);
    assert(hex_digit(c as int % 16) < 128);
}

/// Escaping the UTF-8 of a text gives valid UTF-8.
pub proof fn lemma_escaped_valid(s: Seq<char>)
    ensures
        valid_utf8(escaped(encode_utf8(s))),
    decreases s.len(),
{
    if s.len() == 0 {
        assert(escaped(encode_utf8(s)) =~= Seq::<u8>::empty());
    } else {
        char_is_scalar(s[0]);
        let v = s[0] as u32;
        let e = encode_scalar(v);
        let rest = encode_utf8(s.drop_first());
        assert(encode_utf8(s) == e + rest);
        lemma_escaped_concat(e, rest);
        lemma_escaped_valid(s.drop_first());
        if has_width_1_encoding(v) {
            let b = leading_byte_width_1(v);
            assert(b < 128) by (bit_vector)
                requires
                    b == (v & 0x7f) as u8,
            ;
            assert(e == seq![b]);
            lemma_escaped_unit(b);
            lemma_escape_ascii(b);
            lemma_ascii_valid(escape_byte(b));
        } else {
            let l2 = leading_byte_width_2(v);
            let l3 = leading_byte_width_3(v);
            let l4 = leading_byte_width_4(v);
            let c1 = last_continuation_byte(v);
            let c2 = second_last_continuation_byte(v);
            let c3 = third_last_continuation_byte(v);
            assert(l2 >= 128 && l3 >= 128 && l4 >= 128 && c1 >= 128 && c2 >= 128 && c3 >= 128) by (bit_vector)
                requires
                    l2 == 0xC0 | ((v >> 6) & 0x1F) as u8,
                    l3 == 0xE0 | ((v >> 12) & 0x0F) as u8,
                    l4 == 0xF0 | ((v >> 18) & 0x7) as u8,
                    c1 == 0x80 | (v & 0x3F) as u8,
                    c2 == 0x80 | ((v >> 6) & 0x3F) as u8,
                    c3 == 0x80 | ((v >> 12) & 0x3F) as u8,
            ;
            assert forall|i: int| 0 <= i < e.len() implies #[trigger] e[i] >= 128 by {}
            lemma_escaped_high(e);
            let one = seq![s[0]];
            assert(one[0] == s[0]);
            assert(one.drop_first() =~= Seq::<char>::empty());
            assert(encode_utf8(Seq::<char>::empty()) =~= Seq::<u8>::empty());
            assert(encode_utf8(one) == encode_scalar(one[0] as u32) + encode_utf8(one.drop_first()));
            assert(encode_utf8(one) =~= e);
            encode_utf8_valid_utf8(one);
        }
        valid_utf8_concat(escaped(e), escaped(rest));
    }
}

/// A string literal holding a text is valid UTF-8.
pub proof fn lemma_string_text_valid(s: Seq<char>)
    ensures
        valid_utf8(string_text(s)),
{
    lemma_escaped_valid(s);
    lemma_ascii_valid(seq![34u8]);
    valid_utf8_concat(seq![34u8], escaped(encode_utf8(s)));
    valid_utf8_concat(seq![34u8] + escaped(encode_utf8(s)), seq![34u8]);
}

/// `"key":` is valid UTF-8.
pub proof fn lemma_key_text_valid(k: Seq<char>)
    ensures
        valid_utf8(key_text(k)),
{
    lemma_string_text_valid(k);
    lemma_ascii_valid(seq![58u8]);
    valid_utf8_concat(string_text(k), seq![58u8]);
}

/// Decimal text is ASCII.
pub proof fn lemma_number_ascii(n: nat, i: int)
    ensures
        all_ascii(uint_text(n)),
        all_ascii(int_text(i)),
{
    lemma_uint_text(n);
    assert forall|k: int| 0 <= k < uint_text(n).len() implies #[trigger] uint_text(n)[k] < 128 by {
        assert(is_digit(uint_text(n)[k]));
    }
    if i < 0 {
        let m = (-i) as nat;
        lemma_uint_text(m);
        assert forall|k: int| 0 <= k < int_text(i).len() implies #[trigger] int_text(i)[k] < 128 by {
            if k > 0 {
                assert(int_text(i)[k] == uint_text(m)[k - 1]);
                assert(is_digit(uint_text(m)[k - 1]));
            }
        }
    } else {
        lemma_uint_text(i as nat);
        assert forall|k: int| 0 <= k < int_text(i).len() implies #[trigger] int_text(i)[k] < 128 by {
            assert(is_digit(uint_text(i as nat)[k]));
        }
    }
}

} // verus!
