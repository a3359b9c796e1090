//! The JSON grammar of flat objects, as frames may write them.
//!
//! A frame's object may have its members in any order, whitespace between
//! tokens, and any of JSON's string escapes. Member values are strings,
//! integers, `true`, `false` or `null`; an integer has at most ten digits
//! (every number a frame carries fits in 32 bits). The spec functions below
//! read a text the way the grammar does, and the executable readers are
//! proved to read exactly as they do.
use vstd::prelude::*;
use vstd::utf8::*;
use crate::json::{digits_value, is_digit, pow10};

verus! {

broadcast use vstd::seq::group_seq_axioms;

/// JSON whitespace.
pub open spec fn is_ws(c: u8) -> bool {
    c == 32 || c == 9 || c == 10 || c == 13
}

/// The first position at or after `i` that is not whitespace.
pub open spec fn skip_ws(b: Seq<u8>, i: int) -> int
    decreases b.len() - i,
{
    if 0 <= i < b.len() && is_ws(b[i]) {
        skip_ws(b, i + 1)
    } else {
        i
    }
}

/// The value of a hexadecimal digit of either case.
pub open spec fn hex_value(c: u8) -> Option<u32> {
    if 48 <= c <= 57 {
        Some((c - 48) as u32)
    } else if 97 <= c <= 102 {
        Some((c - 87) as u32)
    } else if 65 <= c <= 70 {
        Some((c - 55) as u32)
    } else {
        None
    }
}

/// The code unit written by the four hexadecimal digits at `i`.
pub open spec fn hex4(b: Seq<u8>, i: int) -> Option<u32> {
    if 0 <= i && i + 4 <= b.len() {
        match (hex_value(b[i]), hex_value(b[i + 1]), hex_value(b[i + 2]), hex_value(b[i + 3])) {
            (Some(a), Some(c), Some(d), Some(e)) => Some((a * 4096 + c * 256 + d * 16 + e) as u32),
            _ => None,
        }
    } else {
        None
    }
}

/// The byte a one-letter escape stands for.
pub open spec fn short_escape(e: u8) -> Option<u8> {
    if e == 34 || e == 92 || e == 47 {
        Some(e)
    } else if e == 98 {
        Some(8)
    } else if e == 102 {
        Some(12)
    } else if e == 110 {
        Some(10)
    } else if e == 114 {
        Some(13)
    } else if e == 116 {
        Some(9)
    } else {
        None
    }
}

/// The rest of a string literal from `i`, after the bytes `acc` already
/// read: the bytes it holds and the position after its closing quote. A
/// `\u` escape stands for the UTF-8 of its code point; surrogates are not read.
pub open spec fn string_body(b: Seq<u8>, i: int, acc: Seq<u8>) -> Option<(Seq<u8>, int)>
    decreases b.len() - i,
{
    if i < 0 || i >= b.len() {
        None
    } else if b[i] == 34 {
        Some((acc, i + 1))
    } else if b[i] < 32 {
        None
    } else if b[i] == 92 {
        if i + 1 >= b.len() {
            None
        } else if b[i + 1] == 117 {
            match hex4(b, i + 2) {
                Some(cp) => if 0xD800 <= cp <= 0xDFFF {
                    None
                } else {
                    string_body(b, i + 6, acc + encode_scalar(cp))
                },
                None => None,
            }
        } else {
            match short_escape(b[i + 1]) {
                Some(v) => string_body(b, i + 2, acc.push(v)),
                None => None,
            }
        }
    } else {
        string_body(b, i + 1, acc.push(b[i]))
    }
}

/// A string literal at `i`: the bytes it holds and the position after it.
pub open spec fn string_at(b: Seq<u8>, i: int) -> Option<(Seq<u8>, int)> {
    if 0 <= i < b.len() && b[i] == 34 {
        string_body(b, i + 1, Seq::empty())
    } else {
        None
    }
}

/// The end of the run of digits from `i`.
pub open spec fn digit_end(b: Seq<u8>, i: int) -> int
    decreases b.len() - i,
{
    if 0 <= i < b.len() && is_digit(b[i]) {
        digit_end(b, i + 1)
    } else {
        i
    }
}

/// An unsigned integer at `i`: `0`, or a nonzero digit and at most nine more.
pub open spec fn unsigned_at(b: Seq<u8>, i: int) -> Option<(nat, int)> {
    if 0 <= i < b.len() && b[i] == 48 {
        Some((0, i + 1))
    } else if 0 <= i < b.len() && is_digit(b[i]) && digit_end(b, i) - i <= 10 {
        Some((digits_value(b.subrange(i, digit_end(b, i))), digit_end(b, i)))
    } else {
        None
    }
}

/// An integer at `i`, with an optional minus sign.
pub open spec fn integer_at(b: Seq<u8>, i: int) -> Option<(int, int)> {
    if 0 <= i < b.len() && b[i] == 45 {
        match unsigned_at(b, i + 1) {
            Some((v, e)) => Some((-v, e)),
            None => None,
        }
    } else {
        match unsigned_at(b, i) {
            Some((v, e)) => Some((v as int, e)),
            None => None,
        }
    }
}

/// A member value.
pub enum JsonScalar {
    Str(Seq<u8>),
    Int(int),
    Bool(bool),
    Null,
}

/// Whether `b` holds the literal `lit` at `i`.
pub open spec fn literal_at(b: Seq<u8>, i: int, lit: Seq<u8>) -> bool {
    0 <= i && i + lit.len() <= b.len() && b.subrange(i, i + lit.len()) == lit
}

pub open spec fn true_text() -> Seq<u8> {
    seq![116u8, 114u8, 117u8, 101u8]
}

pub open spec fn false_text() -> Seq<u8> {
    seq![102u8, 97u8, 108u8, 115u8, 101u8]
}

pub open spec fn null_text() -> Seq<u8> {
    seq![110u8, 117u8, 108u8, 108u8]
}

/// A member value at `i` and the position after it.
pub open spec fn value_at(b: Seq<u8>, i: int) -> Option<(JsonScalar, int)> {
    if i < 0 || i >= b.len() {
        None
    } else if b[i] == 34 {
        match string_at(b, i) {
            Some((s, e)) => Some((JsonScalar::Str(s), e)),
            None => None,
        }
    } else if b[i] == 45 || is_digit(b[i]) {
        match integer_at(b, i) {
            Some((v, e)) => Some((JsonScalar::Int(v), e)),
            None => None,
        }
    } else if literal_at(b, i, true_text()) {
        Some((JsonScalar::Bool(true), i + 4))
    } else if literal_at(b, i, false_text()) {
        Some((JsonScalar::Bool(false), i + 5))
    } else if literal_at(b, i, null_text()) {
        Some((JsonScalar::Null, i + 4))
    } else {
        None
    }
}

/// One member at `i` (a key, a colon, a value, with whitespace between):
/// the member and the position after the value's trailing whitespace.
pub open spec fn member_at(b: Seq<u8>, i: int) -> Option<((Seq<u8>, JsonScalar), int)> {
    match string_at(b, i) {
        Some((k, e)) => {
            let c = skip_ws(b, e);
            if 0 <= c < b.len() && b[c] == 58 {
                match value_at(b, skip_ws(b, c + 1)) {
                    Some((v, f)) => Some(((k, v), skip_ws(b, f))),
                    None => None,
                }
            } else {
                None
            }
        },
        None => None,
    }
}

/// The members from `i` on, after those in `acc`, up to the closing brace:
/// all members and the position after the brace.
pub open spec fn members_from(b: Seq<u8>, i: int, acc: Seq<(Seq<u8>, JsonScalar)>) -> Option<
    (Seq<(Seq<u8>, JsonScalar)>, int),
>
    decreases b.len() - i,
{
    match member_at(b, i) {
        Some((m, j)) => {
            if 0 <= j < b.len() && b[j] == 125 {
                Some((acc.push(m), j + 1))
            } else if 0 <= j < b.len() && b[j] == 44 && 0 <= i < skip_ws(b, j + 1) <= b.len() {
                members_from(b, skip_ws(b, j + 1), acc.push(m))
            } else {
                None
            }
        },
        None => None,
    }
}

/// The members of the object that `b` is, with whitespace around it.
pub open spec fn object_members(b: Seq<u8>) -> Option<Seq<(Seq<u8>, JsonScalar)>> {
    let o = skip_ws(b, 0);
    if 0 <= o < b.len() && b[o] == 123 {
        let f = skip_ws(b, o + 1);
        let r = if 0 <= f < b.len() && b[f] == 125 {
            Some((Seq::<(Seq<u8>, JsonScalar)>::empty(), f + 1))
        } else {
            members_from(b, f, Seq::empty())
        };
        match r {
            Some((ms, e)) => if skip_ws(b, e) == b.len() {
                Some(ms)
            } else {
                None
            },
            None => None,
        }
    } else {
        None
    }
}

proof fn lemma_skip_ws_bounds(b: Seq<u8>, i: int)
    requires
        0 <= i <= b.len(),
    ensures
        i <= skip_ws(b, i) <= b.len(),
    decreases b.len() - i,
{
    if i < b.len() && is_ws(b[i]) {
        lemma_skip_ws_bounds(b, i + 1);
    }
}

proof fn lemma_digit_end_ge(b: Seq<u8>, i: int)
    ensures
        digit_end(b, i) >= i,
    decreases b.len() - i,
{
    if 0 <= i < b.len() && is_digit(b[i]) {
        lemma_digit_end_ge(b, i + 1);
    }
}

proof fn lemma_pow10_bound(k: nat)
    requires
        k <= 10,
    ensures
        pow10(k) <= 10000000000,
    decreases 10 - k,
{
    if k == 10 {
        reveal_with_fuel(pow10, 11);
    } else {
        lemma_pow10_bound(k + 1);
        assert(pow10(k + 1) == 10 * pow10(k));
    }
}

/// Skips whitespace from `i`.
pub fn skip_whitespace(b: &[u8], i: usize) -> (r: usize)
    requires
        i <= b@.len(),
    ensures
        r == skip_ws(b@, i as int),
        i <= r <= b@.len(),
{
    let mut j = i;
    while j < b.len() && (b[j] == 32 || b[j] == 9 || b[j] == 10 || b[j] == 13)
        invariant
            i <= j <= b@.len(),
            skip_ws(b@, i as int) == skip_ws(b@, j as int),
        decreases b@.len() - j,
    {
        j = j + 1;
    }
    j
}

fn hex_digit_value(c: u8) -> (r: Option<u32>)
    ensures
        r == hex_value(c),
{
    if 48 <= c && c <= 57 {
        Some((c - 48) as u32)
    } else if 97 <= c && c <= 102 {
        Some((c - 87) as u32)
    } else if 65 <= c && c <= 70 {
        Some((c - 55) as u32)
    } else {
        None
    }
}

fn read_hex4(b: &[u8], i: usize) -> (r: Option<u32>)
    ensures
        r == hex4(b@, i as int),
        r matches Some(cp) ==> cp <= 0xFFFF,
{
    if i > b.len() || b.len() - i < 4 {
        return None;
    }
    match (hex_digit_value(b[i]), hex_digit_value(b[i + 1]), hex_digit_value(b[i + 2]), hex_digit_value(b[i + 3])) {
        (Some(a), Some(c), Some(d), Some(e)) => {
            assert(a < 16 && c < 16 && d < 16 && e < 16);
            Some(a * 4096 + c * 256 + d * 16 + e)
        },
        _ => None,
    }
}

fn short_escape_byte(e: u8) -> (r: Option<u8>)
    ensures
        r == short_escape(e),
{
    if e == 34 || e == 92 || e == 47 {
        Some(e)
    } else if e == 98 {
        Some(8)
    } else if e == 102 {
        Some(12)
    } else if e == 110 {
        Some(10)
    } else if e == 114 {
        Some(13)
    } else if e == 116 {
        Some(9)
    } else {
        None
    }
}

/// Appends the UTF-8 of a code point of the basic plane that is not a surrogate.
fn push_scalar(out: &mut Vec<u8>, cp: u32)
    requires
        cp <= 0xFFFF,
        !(0xD800 <= cp <= 0xDFFF),
    ensures
        final(out)@ == old(out)@ + encode_scalar(cp),
{
    if cp <= 0x7F {
        out.push((cp & 0x7F) as u8);
    } else if cp <= 0x7FF {
        out.push(0xC0 | ((cp >> 6) & 0x1F) as u8);
        out.push(0x80 | (cp & 0x3F) as u8);
    } else {
        out.push(0xE0 | ((cp >> 12) & 0x0F) as u8);
        out.push(0x80 | ((cp >> 6) & 0x3F) as u8);
        out.push(0x80 | (cp & 0x3F) as u8);
    }
    assert(out@ =~= old(out)@ + encode_scalar(cp));
}

/// Reads a string literal at `i`, with any escapes: the bytes it holds and
/// the position after it.
pub fn read_string_literal(b: &[u8], i: usize) -> (r: Option<(Vec<u8>, usize)>)
    ensures
        string_at(b@, i as int) == match r {
            Some((v, e)) => Some((v@, e as int)),
            None => None::<(Seq<u8>, int)>,
        },
        r matches Some((v, e)) ==> i < e <= b@.len(),
{
    if i >= b.len() || b[i] != 34 {
        return None;
    }
    let mut out: Vec<u8> = Vec::new();
    let mut j: usize = i + 1;
    loop
        invariant
            i < j <= b@.len(),
            string_at(b@, i as int) == string_body(b@, j as int, out@),
        decreases b@.len() - j,
    {
        if j >= b.len() {
            return None;
        }
        let c = b[j];
        if c == 34 {
            return Some((out, j + 1));
        }
        if c < 32 {
            return None;
        }
        if c == 92 {
            if j + 1 >= b.len() {
                return None;
            }
            let e = b[j + 1];
            if e == 117 {
                match read_hex4(b, j + 2) {
                    Some(cp) => {
                        if 0xD800 <= cp && cp <= 0xDFFF {
                            return None;
                        }
                        if b.len() - j < 6 {
                            return None;
                        }
                        push_scalar(&mut out, cp);
                        j = j + 6;
                    },
                    None => return None,
                }
            } else {
                match short_escape_byte(e) {
                    Some(v) => {
                        out.push(v);
                        j = j + 2;
                    },
                    None => return None,
                }
            }
        } else {
            out.push(c);
            j = j + 1;
        }
    }
}

/// Reads an integer at `i`.
pub fn read_integer(b: &[u8], i: usize) -> (r: Option<(i64, usize)>)
    ensures
        integer_at(b@, i as int) == match r {
            Some((v, e)) => Some((v as int, e as int)),
            None => None::<(int, int)>,
        },
        r matches Some((v, e)) ==> i < e <= b@.len(),
{
    if i < b.len() && b[i] == 45 {
        match read_unsigned(b, i + 1) {
            Some((v, e)) => Some((-(v as i64), e)),
            None => None,
        }
    } else {
        match read_unsigned(b, i) {
            Some((v, e)) => Some((v as i64, e)),
            None => None,
        }
    }
}

fn read_unsigned(b: &[u8], i: usize) -> (r: Option<(u64, usize)>)
    ensures
        unsigned_at(b@, i as int) == match r {
            Some((v, e)) => Some((v as nat, e as int)),
            None => None::<(nat, int)>,
        },
        r matches Some((v, e)) ==> i < e <= b@.len() && v < 10000000000,
{
    if i >= b.len() {
        return None;
    }
    if b[i] == 48 {
        return Some((0, i + 1));
    }
    if !(48 <= b[i] && b[i] <= 57) {
        return None;
    }
    let mut j: usize = i;
    let mut v: u64 = 0;
    proof {
        assert(b@.subrange(i as int, i as int) =~= Seq::<u8>::empty());
    }
    while j < b.len() && 48 <= b[j] && b[j] <= 57 && j - i < 11
        invariant
            i <= j <= b@.len(),
            j - i <= 11,
            digit_end(b@, i as int) == digit_end(b@, j as int),
            v == digits_value(b@.subrange(i as int, j as int)),
            v < pow10((j - i) as nat),
        decreases b@.len() - j,
    {
        proof {
            lemma_pow10_bound((j - i) as nat);
            assert(b@.subrange(i as int, j + 1).drop_last() =~= b@.subrange(i as int, j as int));
            assert(pow10((j - i + 1) as nat) == 10 * pow10((j - i) as nat));
        }
        v = v * 10 + (b[j] - 48) as u64;
        j = j + 1;
    }
    if j - i > 10 {
        proof {
            lemma_digit_end_ge(b@, j as int);
        }
        return None;
    }
    proof {
        lemma_pow10_bound((j - i) as nat);
    }
    Some((v, j))
}

/// A member value, read.
#[derive(Clone, Debug)]
pub enum JsonValue {
    Str(Vec<u8>),
    Int(i64),
    Bool(bool),
    Null,
}

impl View for JsonValue {
    type V = JsonScalar;

    open spec fn view(&self) -> JsonScalar {
        match self {
            JsonValue::Str(s) => JsonScalar::Str(s@),
            JsonValue::Int(i) => JsonScalar::Int(*i as int),
            JsonValue::Bool(v) => JsonScalar::Bool(*v),
            JsonValue::Null => JsonScalar::Null,
        }
    }
}

fn literal_here(b: &[u8], i: usize, lit: &[u8]) -> (r: bool)
    ensures
        r == literal_at(b@, i as int, lit@),
{
    if i > b.len() || b.len() - i < lit.len() {
        return false;
    }
    let n: usize = b.len();
    let mut k: usize = 0;
    while k < lit.len()
        invariant
            n == b@.len(),
            i + lit@.len() <= n,
            k <= lit@.len(),
            forall|m: int| 0 <= m < k ==> b@[i + m] == lit@[m],
        decreases lit@.len() - k,
    {
        assert(i + k < b@.len());
        if b[i + k] != lit[k] {
            assert(b@.subrange(i as int, i + lit@.len())[k as int] != lit@[k as int]);
            return false;
        }
        k = k + 1;
    }
    assert(b@.subrange(i as int, i + lit@.len()) =~= lit@);
    true
}

/// Reads a member value at `i`.
pub fn read_value(b: &[u8], i: usize) -> (r: Option<(JsonValue, usize)>)
    ensures
        value_at(b@, i as int) == match r {
            Some((v, e)) => Some((v@, e as int)),
            None => None::<(JsonScalar, int)>,
        },
        r matches Some((v, e)) ==> i < e <= b@.len(),
{
    if i >= b.len() {
        return None;
    }
    let c = b[i];
    if c == 34 {
        match read_string_literal(b, i) {
            Some((s, e)) => Some((JsonValue::Str(s), e)),
            None => None,
        }
    } else if c == 45 || (48 <= c && c <= 57) {
        match read_integer(b, i) {
            Some((v, e)) => Some((JsonValue::Int(v), e)),
            None => None,
        }
    } else {
        let t: [u8; 4] = [116u8, 114u8, 117u8, 101u8];
        let f: [u8; 5] = [102u8, 97u8, 108u8, 115u8, 101u8];
        let n: [u8; 4] = [110u8, 117u8, 108u8, 108u8];
        assert(t@ =~= true_text());
        assert(f@ =~= false_text());
        assert(n@ =~= null_text());
        if literal_here(b, i, &t) {
            Some((JsonValue::Bool(true), i + 4))
        } else if literal_here(b, i, &f) {
            Some((JsonValue::Bool(false), i + 5))
        } else if literal_here(b, i, &n) {
            Some((JsonValue::Null, i + 4))
        } else {
            None
        }
    }
}

pub open spec fn members_view(v: Seq<(Vec<u8>, JsonValue)>) -> Seq<(Seq<u8>, JsonScalar)> {
    v.map_values(|m: (Vec<u8>, JsonValue)| (m.0@, m.1@))
}

fn read_member(b: &[u8], i: usize) -> (r: Option<((Vec<u8>, JsonValue), usize)>)
    ensures
        member_at(b@, i as int) == match r {
            Some((m, e)) => Some(((m.0@, m.1@), e as int)),
            None => None::<((Seq<u8>, JsonScalar), int)>,
        },
        r matches Some((m, e)) ==> i < e <= b@.len(),
{
    let (k, e) = match read_string_literal(b, i) {
        Some(x) => x,
        None => return None,
    };
    let c = skip_whitespace(b, e);
    if c >= b.len() || b[c] != 58 {
        return None;
    }
    let vstart = skip_whitespace(b, c + 1);
    let (v, f) = match read_value(b, vstart) {
        Some(x) => x,
        None => return None,
    };
    let end = skip_whitespace(b, f);
    Some(((k, v), end))
}

fn read_members(b: &[u8], start: usize) -> (r: Option<(Vec<(Vec<u8>, JsonValue)>, usize)>)
    requires
        start <= b@.len(),
    ensures
        members_from(b@, start as int, Seq::empty()) == match r {
            Some((ms, e)) => Some((members_view(ms@), e as int)),
            None => None::<(Seq<(Seq<u8>, JsonScalar)>, int)>,
        },
        r matches Some((ms, e)) ==> e <= b@.len(),
{
    let mut out: Vec<(Vec<u8>, JsonValue)> = Vec::new();
    let mut i = start;
    assert(members_view(out@) =~= Seq::<(Seq<u8>, JsonScalar)>::empty());
    loop
        invariant
            i <= b@.len(),
            members_from(b@, start as int, Seq::empty()) == members_from(b@, i as int, members_view(out@)),
        decreases b@.len() - i,
    {
        let (m, j) = match read_member(b, i) {
            Some(x) => x,
            None => return None,
        };
        let ghost mv = (m.0@, m.1@);
        let ghost before = members_view(out@);
        out.push(m);
        assert(members_view(out@) =~= before.push(mv));
        if j < b.len() && b[j] == 125 {
            return Some((out, j + 1));
        }
        if j < b.len() && b[j] == 44 {
            let n = skip_whitespace(b, j + 1);
            i = n;
        } else {
            return None;
        }
    }
}

/// Reads the object that `b` is, with whitespace around it: its members, in order.
pub fn read_object(b: &[u8]) -> (r: Option<Vec<(Vec<u8>, JsonValue)>>)
    ensures
        object_members(b@) == match r {
            Some(ms) => Some(members_view(ms@)),
            None => None::<Seq<(Seq<u8>, JsonScalar)>>,
        },
{
    let o = skip_whitespace(b, 0);
    if o >= b.len() || b[o] != 123 {
        return None;
    }
    let f = skip_whitespace(b, o + 1);
    let (ms, e) = if f < b.len() && b[f] == 125 {
        let empty: Vec<(Vec<u8>, JsonValue)> = Vec::new();
        assert(members_view(empty@) =~= Seq::<(Seq<u8>, JsonScalar)>::empty());
        (empty, f + 1)
    } else {
        match read_members(b, f) {
            Some(x) => x,
            None => return None,
        }
    };
    if skip_whitespace(b, e) != b.len() {
        return None;
    }
    Some(ms)
}

/// The value of the last member named `k`.
pub open spec fn lookup(ms: Seq<(Seq<u8>, JsonScalar)>, k: Seq<u8>) -> Option<JsonScalar>
    decreases ms.len(),
{
    if ms.len() == 0 {
        None
    } else if ms.last().0 == k {
        Some(ms.last().1)
    } else {
        lookup(ms.drop_last(), k)
    }
}

/// No two members have the same name.
pub open spec fn distinct_keys(ms: Seq<(Seq<u8>, JsonScalar)>) -> bool {
    forall|i: int, j: int| 0 <= i < j < ms.len() ==> ms[i].0 != ms[j].0
}

/// Every member's name is one of `allowed`.
pub open spec fn keys_within(ms: Seq<(Seq<u8>, JsonScalar)>, allowed: Seq<Seq<u8>>) -> bool {
    forall|i: int| 0 <= i < ms.len() ==> allowed.contains(#[trigger] ms[i].0)
}

/// The UTF-8 of each allowed name.
pub open spec fn names_bytes(names: Seq<&str>) -> Seq<Seq<u8>> {
    names.map_values(|n: &str| encode_utf8(n@))
}

/// The index of the last member named `key`.
pub fn find_member(ms: &Vec<(Vec<u8>, JsonValue)>, key: &str) -> (r: Option<usize>)
    ensures
        r matches Some(i) ==> i < ms@.len() && lookup(members_view(ms@), encode_utf8(key@)) == Some(ms@[i as int].1@),
        r is None ==> lookup(members_view(ms@), encode_utf8(key@)) is None,
{
    let k = key.as_bytes();
    let ghost view = members_view(ms@);
    let mut i = ms.len();
    assert(view.subrange(0, i as int) =~= view);
    while i > 0
        invariant
            i <= ms@.len(),
            view == members_view(ms@),
            k@ == encode_utf8(key@),
            lookup(view, k@) == lookup(view.subrange(0, i as int), k@),
        decreases i,
    {
        let ghost sub = view.subrange(0, i as int);
        assert(sub.drop_last() =~= view.subrange(0, i - 1));
        assert(sub.last() == (ms@[i - 1].0@, ms@[i - 1].1@));
        assert(k@.subrange(0, k@.len() as int) =~= k@);
        if crate::json::bytes_equal(ms[i - 1].0.as_slice(), k, 0, k.len()) {
            return Some(i - 1);
        }
        i = i - 1;
    }
    None
}

fn name_allowed(k: &Vec<u8>, allowed: &[&str]) -> (r: bool)
    ensures
        r == names_bytes(allowed@).contains(k@),
{
    let mut a: usize = 0;
    while a < allowed.len()
        invariant
            a <= allowed@.len(),
            forall|j: int| 0 <= j < a ==> names_bytes(allowed@)[j] != k@,
        decreases allowed@.len() - a,
    {
        let bytes = allowed[a].as_bytes();
        assert(bytes@.subrange(0, bytes@.len() as int) =~= bytes@);
        if crate::json::bytes_equal(k.as_slice(), bytes, 0, bytes.len()) {
            assert(names_bytes(allowed@)[a as int] == k@);
            return true;
        }
        a = a + 1;
    }
    false
}

/// Whether the member names are distinct and all among `allowed`.
pub fn check_keys(ms: &Vec<(Vec<u8>, JsonValue)>, allowed: &[&str]) -> (r: bool)
    ensures
        r == (distinct_keys(members_view(ms@)) && keys_within(members_view(ms@), names_bytes(allowed@))),
{
    let ghost view = members_view(ms@);
    let mut i: usize = 0;
    while i < ms.len()
        invariant
            i <= ms@.len(),
            view == members_view(ms@),
            forall|x: int, y: int| 0 <= x < y < i ==> view[x].0 != view[y].0,
            forall|x: int| 0 <= x < i ==> names_bytes(allowed@).contains(#[trigger] view[x].0),
        decreases ms@.len() - i,
    {
        assert(view[i as int].0 == ms@[i as int].0@);
        if !name_allowed(&ms[i].0, allowed) {
            assert(ms@[i as int].0@ == view[i as int].0);
            assert(!names_bytes(allowed@).contains(view[i as int].0));
            assert(!keys_within(members_view(ms@), names_bytes(allowed@)));
            return false;
        }
        let mut j: usize = 0;
        while j < i
            invariant
                j <= i < ms@.len(),
                view == members_view(ms@),
                forall|y: int| 0 <= y < j ==> view[y].0 != view[i as int].0,
            decreases i - j,
        {
            let other = ms[j].0.as_slice();
            assert(other@ == view[j as int].0);
            if crate::json::bytes_equal(other, ms[i].0.as_slice(), 0, ms[i].0.len()) {
                assert(ms@[i as int].0@.subrange(0, ms@[i as int].0@.len() as int) =~= ms@[i as int].0@);
                assert(view[j as int].0 == view[i as int].0);
                assert(!distinct_keys(members_view(ms@)));
                return false;
            }
            assert(ms@[i as int].0@.subrange(0, ms@[i as int].0@.len() as int) =~= ms@[i as int].0@);
            j = j + 1;
        }
        i = i + 1;
    }
    true
}

} // verus!
