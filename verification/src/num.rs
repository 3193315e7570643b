//! Decimal numbers as byte text: parsing (as Rust's integer `from_str`
//! accepts them) and rendering (most significant digit first).

use vstd::prelude::*;

verus! {

/// ASCII decimal digit.
pub open spec fn is_digit(b: u8) -> bool {
    48 <= b && b <= 57
}

pub open spec fn all_digits(s: Seq<u8>) -> bool {
    forall|i: int| 0 <= i < s.len() ==> is_digit(#[trigger] s[i])
}

/// Value of a digit string, most significant digit first.
pub open spec fn dec_val(s: Seq<u8>) -> int
    decreases s.len(),
{
    if s.len() == 0 {
        0
    } else {
        dec_val(s.drop_last()) * 10 + (s.last() - 48)
    }
}

pub proof fn lemma_dec_val_nonneg(s: Seq<u8>)
    requires
        all_digits(s),
    ensures
        dec_val(s) >= 0,
    decreases s.len(),
{
    if s.len() > 0 {
        assert(all_digits(s.drop_last()));
        lemma_dec_val_nonneg(s.drop_last());
    }
}

/// Appending digits never shrinks the value: the value of a digit string is
/// at least the value of any of its prefixes.
pub proof fn lemma_dec_val_prefix(s: Seq<u8>, i: int)
    requires
        all_digits(s),
        0 <= i <= s.len(),
    ensures
        dec_val(s) >= dec_val(s.subrange(0, i)),
    decreases s.len() - i,
{
    if i < s.len() {
        lemma_dec_val_prefix(s, i + 1);
        let p = s.subrange(0, i + 1);
        assert(p.drop_last() =~= s.subrange(0, i));
        assert(all_digits(p.drop_last()));
        lemma_dec_val_nonneg(p.drop_last());
        assert(p.last() == s[i]);
        assert(is_digit(s[i]));
        assert(dec_val(p) == dec_val(p.drop_last()) * 10 + (p.last() - 48));
        assert(dec_val(p) >= dec_val(p.drop_last()));
    } else {
        assert(s.subrange(0, i) =~= s);
    }
}

/// A possible leading `+` sign, accepted by Rust's unsigned `from_str`.
pub open spec fn uint_body(s: Seq<u8>) -> Seq<u8> {
    if s.len() > 0 && s[0] == 43 {
        s.drop_first()
    } else {
        s
    }
}

/// Unsigned decimal parse, bounded by `max`: `Some` exactly when the input
/// is an optional `+` sign, then one or more digits, whose value is at most
/// `max`.
pub open spec fn parse_uint_spec(s: Seq<u8>, max: int) -> Option<int> {
    let b = uint_body(s);
    if b.len() > 0 && all_digits(b) && dec_val(b) <= max {
        Some(dec_val(b))
    } else {
        None
    }
}

pub open spec fn parse_u16_spec(s: Seq<u8>) -> Option<u16> {
    match parse_uint_spec(s, 65535) {
        Some(v) => Some(v as u16),
        None => None,
    }
}

pub open spec fn parse_u32_spec(s: Seq<u8>) -> Option<u32> {
    match parse_uint_spec(s, 4294967295) {
        Some(v) => Some(v as u32),
        None => None,
    }
}

/// Signed decimal parse into the `i32` range, as Rust's `i32::from_str`
/// accepts it: an optional `-` or `+` sign, then one or more digits.
pub open spec fn parse_i32_spec(s: Seq<u8>) -> Option<i32> {
    if s.len() > 0 && s[0] == 45 {
        let b = s.drop_first();
        if b.len() > 0 && all_digits(b) && dec_val(b) <= 2147483648 {
            Some((-dec_val(b)) as i32)
        } else {
            None
        }
    } else {
        match parse_uint_spec(s, 2147483647) {
            Some(v) => Some(v as i32),
            None => None,
        }
    }
}

/// Parses the digit run `s[from..]` into a value bounded by `max`.
fn parse_digits(s: &[u8], from: usize, max: u64) -> (r: Option<u64>)
    requires
        from <= s@.len(),
        max <= 4294967295,
    ensures
        ({
            let body = s@.skip(from as int);
            match r {
                Some(v) => body.len() > 0 && all_digits(body) && dec_val(body) == v && v <= max,
                None => !(body.len() > 0 && all_digits(body) && dec_val(body) <= max),
            }
        }),
{
    let ghost body = s@.skip(from as int);
    let n = s.len();
    if from == n {
        return None;
    }
    let mut i = from;
    let mut acc: u64 = 0;
    while i < n
        invariant
            from <= i <= n,
            n == s@.len(),
            from < n,
            max <= 4294967295,
            body == s@.skip(from as int),
            all_digits(s@.subrange(from as int, i as int)),
            acc == dec_val(s@.subrange(from as int, i as int)),
            acc <= max,
        decreases n - i,
    {
        let b = s[i];
        if b < 48 || b > 57 {
            assert(body[i - from] == s@[i as int]);
            assert(!all_digits(body));
            return None;
        }
        let d = (b - 48) as u64;
        let v = acc * 10 + d;
        let ghost p = s@.subrange(from as int, i + 1);
        assert(p.drop_last() =~= s@.subrange(from as int, i as int));
        assert(dec_val(p) == v);
        if v > max {
            proof {
                if all_digits(body) {
                    assert(p =~= body.subrange(0, i + 1 - from));
                    lemma_dec_val_prefix(body, i + 1 - from);
                    assert(dec_val(body) > max);
                }
            }
            return None;
        }
        acc = v;
        i = i + 1;
    }
    assert(s@.subrange(from as int, n as int) =~= body);
    Some(acc)
}

/// Unsigned bounded parse of a whole token, sign included.
fn parse_uint_bytes(s: &[u8], max: u64) -> (r: Option<u64>)
    requires
        max <= 4294967295,
    ensures
        match r {
            Some(v) => parse_uint_spec(s@, max as int) == Some(v as int),
            None => parse_uint_spec(s@, max as int) is None,
        },
{
    let start: usize = if s.len() > 0 && s[0] == 43 {
        1
    } else {
        0
    };
    proof {
        assert(s@.skip(start as int) =~= uint_body(s@));
    }
    parse_digits(s, start, max)
}

pub fn parse_u16_bytes(s: &[u8]) -> (r: Option<u16>)
    ensures
        r == parse_u16_spec(s@),
{
    match parse_uint_bytes(s, 65535) {
        Some(v) => Some(v as u16),
        None => None,
    }
}

pub fn parse_u32_bytes(s: &[u8]) -> (r: Option<u32>)
    ensures
        r == parse_u32_spec(s@),
{
    match parse_uint_bytes(s, 4294967295) {
        Some(v) => Some(v as u32),
        None => None,
    }
}

pub fn parse_i32_bytes(s: &[u8]) -> (r: Option<i32>)
    ensures
        r == parse_i32_spec(s@),
{
    if s.len() > 0 && s[0] == 45 {
        proof {
            assert(s@.skip(1) =~= s@.drop_first());
        }
        match parse_digits(s, 1, 2147483648) {
            Some(v) => {
                let m = -(v as i64);
                Some(m as i32)
            },
            None => None,
        }
    } else {
        match parse_uint_bytes(s, 2147483647) {
            Some(v) => Some(v as i32),
            None => None,
        }
    }
}

/// Decimal rendering of a non-negative value, most significant digit first.
pub open spec fn dec_u(n: int) -> Seq<u8>
    recommends
        n >= 0,
    decreases n,
{
    if n < 10 {
        seq![(48 + n) as u8]
    } else {
        dec_u(n / 10).push((48 + n % 10) as u8)
    }
}

/// Decimal rendering of a signed value: a `-` sign, then the magnitude.
pub open spec fn dec_i(n: int) -> Seq<u8> {
    if n < 0 {
        seq![45u8] + dec_u(-n)
    } else {
        dec_u(n)
    }
}

pub fn u32_dec(n: u32) -> (r: Vec<u8>)
    ensures
        r@ == dec_u(n as int),
    decreases n,
{
    if n < 10 {
        let mut v = Vec::new();
        v.push((48 + n) as u8);
        proof {
            assert(v@ =~= dec_u(n as int));
        }
        v
    } else {
        let mut r = u32_dec(n / 10);
        r.push((48 + (n % 10)) as u8);
        r
    }
}

pub fn i32_dec(n: i32) -> (r: Vec<u8>)
    ensures
        r@ == dec_i(n as int),
{
    if n >= 0 {
        u32_dec(n as u32)
    } else {
        let m = (-(n as i64)) as u32;
        let mut v = Vec::new();
        v.push(45u8);
        let mut d = u32_dec(m);
        v.append(&mut d);
        proof {
            assert(v@ =~= dec_i(n as int));
        }
        v
    }
}

} // verus!
