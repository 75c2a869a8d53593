use vstd::prelude::*;

verus! {

/// Whether byte `b` is a space or a tab.
pub open spec fn is_blank(b: u8) -> bool {
    b == 32 || b == 9
}

/// `s` without its leading blanks.
pub open spec fn trim_start(s: Seq<u8>) -> Seq<u8>
    decreases s.len(),
{
    if s.len() > 0 && is_blank(s[0]) {
        trim_start(s.drop_first())
    } else {
        s
    }
}

/// `s` without its trailing blanks.
pub open spec fn trim_end(s: Seq<u8>) -> Seq<u8>
    decreases s.len(),
{
    if s.len() > 0 && is_blank(s.last()) {
        trim_end(s.drop_last())
    } else {
        s
    }
}

/// `s` without the blanks around it.
pub open spec fn trim(s: Seq<u8>) -> Seq<u8> {
    trim_end(trim_start(s))
}

/// Whether byte `b` is a decimal digit.
pub open spec fn is_digit(b: u8) -> bool {
    48 <= b <= 57
}

/// Whether every byte of `s` is a decimal digit.
pub open spec fn all_digits(s: Seq<u8>) -> bool {
    forall|i: int| 0 <= i < s.len() ==> is_digit(#[trigger] s[i])
}

/// The value of a string of decimal digits.
pub open spec fn decimal_value(s: Seq<u8>) -> nat
    decreases s.len(),
{
    if s.len() == 0 {
        0
    } else {
        decimal_value(s.drop_last()) * 10 + (s.last() - 48) as nat
    }
}

/// The integer that `s` denotes: an optional sign and at least one decimal
/// digit, with blanks around them allowed.
pub open spec fn integer_of_text(s: Seq<u8>) -> Option<int> {
    let t = trim(s);
    if t.len() > 0 && (t[0] == 45 || t[0] == 43) {
        let d = t.drop_first();
        if d.len() > 0 && all_digits(d) {
            if t[0] == 45 {
                Some(-(decimal_value(d) as int))
            } else {
                Some(decimal_value(d) as int)
            }
        } else {
            None
        }
    } else if t.len() > 0 && all_digits(t) {
        Some(decimal_value(t) as int)
    } else {
        None
    }
}

/// The integer that `s` denotes, where it lies in `min ..= max`.
pub open spec fn integer_in_range(s: Seq<u8>, min: int, max: int) -> Option<int> {
    match integer_of_text(s) {
        Some(v) => if min <= v <= max {
            Some(v)
        } else {
            None
        },
        None => None,
    }
}

/// The states of the recogniser of real-number text: 0 start, 1 after the
/// sign, 2 in the integer digits, 3 after a point with no digit before it,
/// 4 in the fraction, 5 after the exponent mark, 6 after the exponent's sign,
/// 7 in the exponent digits, 8 rejected.
pub open spec fn real_step(state: u8, b: u8) -> u8 {
    if state == 0 && (b == 45 || b == 43) {
        1
    } else if (state == 0 || state == 1 || state == 2) && is_digit(b) {
        2
    } else if (state == 0 || state == 1) && b == 46 {
        3
    } else if state == 2 && b == 46 {
        4
    } else if (state == 3 || state == 4) && is_digit(b) {
        4
    } else if (state == 2 || state == 4) && (b == 101 || b == 69) {
        5
    } else if state == 5 && (b == 45 || b == 43) {
        6
    } else if (state == 5 || state == 6 || state == 7) && is_digit(b) {
        7
    } else {
        8
    }
}

/// The state of the recogniser after reading `s`.
pub open spec fn real_state(s: Seq<u8>) -> u8
    decreases s.len(),
{
    if s.len() == 0 {
        0
    } else {
        real_step(real_state(s.drop_last()), s.last())
    }
}

/// Whether `s`, blanks around it aside, is a decimal real number: an
/// optional sign, digits with at most one point and at least one digit, and
/// an optional exponent.
pub open spec fn is_real_text(s: Seq<u8>) -> bool {
    let st = real_state(trim(s));
    st == 2 || st == 4 || st == 7
}

/// Whether byte `b` is a hexadecimal digit, in either case.
pub open spec fn is_hex_byte(b: u8) -> bool {
    (48 <= b <= 57) || (65 <= b <= 70) || (97 <= b <= 102)
}

/// The value of the hexadecimal digit byte `b`.
pub open spec fn hex_byte_value(b: u8) -> nat {
    if 48 <= b <= 57 {
        (b - 48) as nat
    } else if 65 <= b <= 70 {
        (b - 55) as nat
    } else {
        (b - 87) as nat
    }
}

/// The bytes that hexadecimal text `s` denotes, two digits to a byte, where
/// it has an even number of digits and nothing else (blanks around it aside).
pub open spec fn binary_of_text(s: Seq<u8>) -> Option<Seq<u8>> {
    let t = trim(s);
    if t.len() % 2 == 0 && forall|i: int| 0 <= i < t.len() ==> is_hex_byte(#[trigger] t[i]) {
        Some(
            Seq::new(
                t.len() / 2,
                |i: int| (hex_byte_value(t[2 * i]) * 16 + hex_byte_value(t[2 * i + 1])) as u8,
            ),
        )
    } else {
        None
    }
}

/// The part of `b` from `from` up to `to`.
pub fn copy_range(b: &[u8], from: usize, to: usize) -> (r: Vec<u8>)
    requires
        from <= to <= b@.len(),
    ensures
        r@ == b@.subrange(from as int, to as int),
{
    let mut r: Vec<u8> = Vec::new();
    let mut i: usize = from;
    while i < to
        invariant
            from <= i <= to,
            to <= b@.len(),
            r@ == b@.subrange(from as int, i as int),
        decreases to - i,
    {
        r.push(b[i]);
        assert(r@ =~= b@.subrange(from as int, i + 1 as int));
        i = i + 1;
    }
    r
}

/// The bounds of the part of `b[from..to]` without the blanks around it.
pub fn trim_bounds(b: &[u8], from: usize, to: usize) -> (r: (usize, usize))
    requires
        from <= to <= b@.len(),
    ensures
        from <= r.0 <= r.1 <= to,
        b@.subrange(r.0 as int, r.1 as int) == trim(b@.subrange(from as int, to as int)),
{
    let ghost s = b@.subrange(from as int, to as int);
    let mut lo: usize = from;
    while lo < to && (b[lo] == 32 || b[lo] == 9)
        invariant
            from <= lo <= to,
            to <= b@.len(),
            trim_start(b@.subrange(lo as int, to as int)) == trim_start(s),
        decreases to - lo,
    {
        assert(b@.subrange(lo as int, to as int).drop_first() =~= b@.subrange(lo + 1 as int, to as int));
        lo = lo + 1;
    }
    assert(trim_start(s) == b@.subrange(lo as int, to as int));
    let mut hi: usize = to;
    while hi > lo && (b[hi - 1] == 32 || b[hi - 1] == 9)
        invariant
            from <= lo <= hi <= to,
            to <= b@.len(),
            trim_end(b@.subrange(lo as int, hi as int)) == trim(s),
        decreases hi,
    {
        assert(b@.subrange(lo as int, hi as int).drop_last() =~= b@.subrange(lo as int, hi - 1 as int));
        hi = hi - 1;
    }
    (lo, hi)
}

/// A bound above every magnitude that a 64-bit integer can have; decimal
/// reading stops counting beyond it.
pub const MAGNITUDE_CAP: u128 = 0x1_0000_0000_0000_0000;

/// The integer that `b[from..to]` denotes where it lies in `min ..= max`.
#[verifier::loop_isolation(false)]
pub fn parse_integer(b: &[u8], from: usize, to: usize, min: i64, max: i64) -> (r: Option<i64>)
    requires
        from <= to <= b@.len(),
    ensures
        r matches Some(v) ==> integer_in_range(b@.subrange(from as int, to as int), min as int, max as int) == Some(v as int),
        r is None ==> integer_in_range(b@.subrange(from as int, to as int), min as int, max as int) is None,
{
    let ghost s = b@.subrange(from as int, to as int);
    let (lo, hi) = trim_bounds(b, from, to);
    let ghost t = b@.subrange(lo as int, hi as int);
    if lo == hi {
        return None;
    }
    let negative = b[lo] == 45;
    let signed = b[lo] == 45 || b[lo] == 43;
    let start: usize = if signed { lo + 1 } else { lo };
    let ghost d = b@.subrange(start as int, hi as int);
    proof {
        if signed {
            assert(t.drop_first() =~= d);
        } else {
            assert(t =~= d);
        }
    }
    if start == hi {
        return None;
    }
    let mut acc: u128 = 0;
    let mut i: usize = start;
    while i < hi
        invariant
            start <= i <= hi,
            hi <= b@.len(),
            all_digits(b@.subrange(start as int, i as int)),
            decimal_value(b@.subrange(start as int, i as int)) <= MAGNITUDE_CAP ==> acc as nat
                == decimal_value(b@.subrange(start as int, i as int)),
            decimal_value(b@.subrange(start as int, i as int)) > MAGNITUDE_CAP ==> acc
                == MAGNITUDE_CAP + 1,
        decreases hi - i,
    {
        let c = b[i];
        if c < 48 || c > 57 {
            proof {
                assert(d[i - start] == c);
            }
            return None;
        }
        let ghost p = b@.subrange(start as int, i as int);
        let ghost q = b@.subrange(start as int, i + 1 as int);
        proof {
            assert(q.drop_last() =~= p);
            assert(q.last() == c);
            assert(decimal_value(q) == decimal_value(p) * 10 + (c - 48) as nat);
        }
        if acc <= MAGNITUDE_CAP {
            let next = acc * 10 + (c - 48) as u128;
            if next <= MAGNITUDE_CAP {
                acc = next;
            } else {
                acc = MAGNITUDE_CAP + 1;
            }
        } else {
            proof {
                assert(decimal_value(q) >= decimal_value(p)) by (nonlinear_arith)
                    requires
                        decimal_value(q) == decimal_value(p) * 10 + (c - 48) as nat,
                ;
            }
        }
        proof {
            assert forall|j: int| 0 <= j < q.len() implies is_digit(#[trigger] q[j]) by {
                if j < p.len() {
                    assert(q[j] == p[j]);
                }
            }
        }
        i = i + 1;
    }
    if acc > MAGNITUDE_CAP {
        return None;
    }
    let magnitude = acc as i128;
    let v: i128 = if negative { -magnitude } else { magnitude };
    if v < min as i128 || v > max as i128 {
        return None;
    }
    Some(v as i64)
}

/// Whether `b[from..to]` is the text of a real number.
pub fn check_real_text(b: &[u8], from: usize, to: usize) -> (r: bool)
    requires
        from <= to <= b@.len(),
    ensures
        r == is_real_text(b@.subrange(from as int, to as int)),
{
    let (lo, hi) = trim_bounds(b, from, to);
    let mut state: u8 = 0;
    let mut i: usize = lo;
    while i < hi
        invariant
            lo <= i <= hi,
            hi <= b@.len(),
            state == real_state(b@.subrange(lo as int, i as int)),
        decreases hi - i,
    {
        let c = b[i];
        let digit = 48 <= c && c <= 57;
        state = if state == 0 && (c == 45 || c == 43) {
            1
        } else if (state == 0 || state == 1 || state == 2) && digit {
            2
        } else if (state == 0 || state == 1) && c == 46 {
            3
        } else if state == 2 && c == 46 {
            4
        } else if (state == 3 || state == 4) && digit {
            4
        } else if (state == 2 || state == 4) && (c == 101 || c == 69) {
            5
        } else if state == 5 && (c == 45 || c == 43) {
            6
        } else if (state == 5 || state == 6 || state == 7) && digit {
            7
        } else {
            8
        };
        proof {
            let q = b@.subrange(lo as int, i + 1 as int);
            assert(q.drop_last() =~= b@.subrange(lo as int, i as int));
        }
        i = i + 1;
    }
    state == 2 || state == 4 || state == 7
}

/// The value of hexadecimal digit byte `c`, if it is one.
pub fn hex_byte_to_value(c: u8) -> (r: Option<u8>)
    ensures
        r.is_some() == is_hex_byte(c),
        r matches Some(v) ==> v as nat == hex_byte_value(c) && v < 16,
{
    if 48 <= c && c <= 57 {
        Some(c - 48)
    } else if 65 <= c && c <= 70 {
        Some(c - 55)
    } else if 97 <= c && c <= 102 {
        Some(c - 87)
    } else {
        None
    }
}

/// The bytes that the hexadecimal text `b[from..to]` denotes.
#[verifier::loop_isolation(false)]
pub fn parse_binary(b: &[u8], from: usize, to: usize) -> (r: Option<Vec<u8>>)
    requires
        from <= to <= b@.len(),
    ensures
        r matches Some(v) ==> binary_of_text(b@.subrange(from as int, to as int)) == Some(v@),
        r is None ==> binary_of_text(b@.subrange(from as int, to as int)) is None,
{
    let (lo, hi) = trim_bounds(b, from, to);
    let ghost t = b@.subrange(lo as int, hi as int);
    if (hi - lo) % 2 != 0 {
        return None;
    }
    let mut out: Vec<u8> = Vec::new();
    let mut k: usize = 0;
    let n = (hi - lo) / 2;
    while k < n
        invariant
            n == t.len() / 2,
            t.len() % 2 == 0,
            t == b@.subrange(lo as int, hi as int),
            lo <= hi <= b@.len(),
            k <= n,
            out@.len() == k,
            forall|j: int| 0 <= j < 2 * k ==> is_hex_byte(#[trigger] t[j]),
            forall|j: int|
                0 <= j < k ==> out@[j] == (hex_byte_value(t[2 * j]) * 16 + hex_byte_value(
                    t[2 * j + 1],
                )) as u8,
        decreases n - k,
    {
        let hi_digit = hex_byte_to_value(b[lo + 2 * k]);
        let lo_digit = hex_byte_to_value(b[lo + 2 * k + 1]);
        proof {
            assert(t[2 * k as int] == b@[lo + 2 * k]);
            assert(t[2 * k + 1 as int] == b@[lo + 2 * k + 1]);
        }
        match (hi_digit, lo_digit) {
            (Some(x), Some(y)) => {
                out.push(x * 16 + y);
            },
            _ => {
                return None;
            },
        }
        k = k + 1;
    }
    proof {
        assert(out@ =~= Seq::new(
            t.len() / 2,
            |i: int| (hex_byte_value(t[2 * i]) * 16 + hex_byte_value(t[2 * i + 1])) as u8,
        ));
    }
    Some(out)
}

} // verus!
