use vstd::prelude::*;

verus! {

/// The character of the hexadecimal digit `d`, in upper case.
pub open spec fn hex_digit_char(d: nat) -> char {
    if d < 10 {
        ((d + 48) as u8) as char
    } else {
        ((d + 55) as u8) as char
    }
}

/// Whether `c` is a hexadecimal digit, in either case.
pub open spec fn is_hex_char(c: char) -> bool {
    ('0' <= c && c <= '9') || ('A' <= c && c <= 'F') || ('a' <= c && c <= 'f')
}

/// The value of the hexadecimal digit `c`.
pub open spec fn hex_char_value(c: char) -> nat {
    if '0' <= c && c <= '9' {
        (c as int - 48) as nat
    } else if 'A' <= c && c <= 'F' {
        (c as int - 55) as nat
    } else {
        (c as int - 87) as nat
    }
}

/// The value of a string of hexadecimal digits, most significant first.
pub open spec fn hex_value(s: Seq<char>) -> nat
    decreases s.len(),
{
    if s.len() == 0 {
        0
    } else {
        hex_value(s.drop_last()) * 16 + hex_char_value(s.last())
    }
}

/// The text of a handle: upper-case hexadecimal without leading zeros
/// (zero is the single digit `0`).
pub open spec fn hex_text(n: nat) -> Seq<char>
    decreases n,
{
    if n < 16 {
        seq![hex_digit_char(n)]
    } else {
        hex_text(n / 16).push(hex_digit_char(n % 16))
    }
}

/// Whether `s` is the text of a handle: one to sixteen hexadecimal digits.
pub open spec fn is_handle_text(s: Seq<char>) -> bool {
    1 <= s.len() <= 16 && forall|i: int| 0 <= i < s.len() ==> is_hex_char(#[trigger] s[i])
}

/// The handle that `s` denotes, if it is the text of one.
pub open spec fn handle_of_text(s: Seq<char>) -> Option<u64> {
    if is_handle_text(s) {
        Some(hex_value(s) as u64)
    } else {
        None
    }
}

/// Sixteen to the power `k`.
pub open spec fn pow16(k: nat) -> nat
    decreases k,
{
    if k == 0 {
        1
    } else {
        16 * pow16((k - 1) as nat)
    }
}

proof fn lemma_hex_value_bound(s: Seq<char>)
    requires
        forall|i: int| 0 <= i < s.len() ==> is_hex_char(#[trigger] s[i]),
    ensures
        hex_value(s) < pow16(s.len()),
    decreases s.len(),
{
    if s.len() > 0 {
        let t = s.drop_last();
        assert forall|i: int| 0 <= i < t.len() implies is_hex_char(#[trigger] t[i]) by {
            assert(t[i] == s[i]);
        }
        lemma_hex_value_bound(t);
        assert(hex_char_value(s.last()) < 16);
    }
}

proof fn lemma_pow16_16()
    ensures
        pow16(16) == 0x1_0000_0000_0000_0000,
{
    reveal_with_fuel(pow16, 17);
}

proof fn lemma_digit_round_trip(d: nat)
    requires
        d < 16,
    ensures
        is_hex_char(hex_digit_char(d)),
        hex_char_value(hex_digit_char(d)) == d,
{
}

proof fn lemma_hex_text_round_trip(n: nat)
    ensures
        forall|i: int| 0 <= i < hex_text(n).len() ==> is_hex_char(#[trigger] hex_text(n)[i]),
        hex_value(hex_text(n)) == n,
        1 <= hex_text(n).len(),
        n < pow16((hex_text(n).len() - 1) as nat) * 16,
        hex_text(n).len() > 1 ==> pow16((hex_text(n).len() - 1) as nat) <= n,
    decreases n,
{
    if n < 16 {
        lemma_digit_round_trip(n);
        assert(hex_text(n).drop_last() =~= Seq::<char>::empty());
        assert(hex_value(hex_text(n)) == hex_value(Seq::<char>::empty()) * 16 + hex_char_value(hex_text(n).last()));
    } else {
        let q = n / 16;
        let s = hex_text(q);
        lemma_hex_text_round_trip(q);
        lemma_digit_round_trip(n % 16);
        assert(hex_text(n).drop_last() =~= s);
        let t = hex_text(n);
        assert(t.last() == hex_digit_char(n % 16));
        assert(hex_value(t) == hex_value(s) * 16 + hex_char_value(t.last()));
        assert(hex_value(t) == n);
        assert forall|i: int| 0 <= i < t.len() implies is_hex_char(#[trigger] t[i]) by {
            if i < s.len() {
                assert(t[i] == s[i]);
            }
        }
        let k = (s.len() - 1) as nat;
        assert(pow16(k + 1) == 16 * pow16(k));
        if s.len() > 1 {
            assert(pow16(k) <= q);
        }
        assert(pow16(k + 1) <= n) by (nonlinear_arith)
            requires
                pow16(k + 1) == 16 * pow16(k),
                k == 0 || pow16(k) <= q,
                k == 0 ==> pow16(k) == 1,
                q == n / 16,
                n >= 16,
        ;
        assert(n < pow16(k + 1) * 16) by (nonlinear_arith)
            requires
                q < pow16(k) * 16,
                pow16(k + 1) == 16 * pow16(k),
                q == n / 16,
        ;
    }
}

proof fn lemma_pow16_monotone(a: nat, b: nat)
    requires
        a <= b,
    ensures
        pow16(a) <= pow16(b),
    decreases b,
{
    if a < b {
        lemma_pow16_monotone(a, (b - 1) as nat);
    }
}

/// Handle formatting and parsing are inverse: reading back the text written for
/// any 64-bit handle gives that handle.
pub proof fn lemma_handle_round_trip(h: u64)
    ensures
        is_handle_text(hex_text(h as nat)),
        handle_of_text(hex_text(h as nat)) == Some(h),
{
    lemma_hex_text_round_trip(h as nat);
    let t = hex_text(h as nat);
    if t.len() > 16 {
        lemma_pow16_monotone(16, (t.len() - 1) as nat);
        lemma_pow16_16();
    }
}

/// The one-character text of the hexadecimal digit `d`.
pub(crate) fn hex_digit_str(d: u64) -> (r: &'static str)
    requires
        d < 16,
    ensures
        r@ == seq![hex_digit_char(d as nat)],
{
    match d {
        0 => {
            proof { reveal_strlit("0"); }
            "0"
        },
        1 => {
            proof { reveal_strlit("1"); }
            "1"
        },
        2 => {
            proof { reveal_strlit("2"); }
            "2"
        },
        3 => {
            proof { reveal_strlit("3"); }
            "3"
        },
        4 => {
            proof { reveal_strlit("4"); }
            "4"
        },
        5 => {
            proof { reveal_strlit("5"); }
            "5"
        },
        6 => {
            proof { reveal_strlit("6"); }
            "6"
        },
        7 => {
            proof { reveal_strlit("7"); }
            "7"
        },
        8 => {
            proof { reveal_strlit("8"); }
            "8"
        },
        9 => {
            proof { reveal_strlit("9"); }
            "9"
        },
        10 => {
            proof { reveal_strlit("A"); }
            "A"
        },
        11 => {
            proof { reveal_strlit("B"); }
            "B"
        },
        12 => {
            proof { reveal_strlit("C"); }
            "C"
        },
        13 => {
            proof { reveal_strlit("D"); }
            "D"
        },
        14 => {
            proof { reveal_strlit("E"); }
            "E"
        },
        _ => {
            proof { reveal_strlit("F"); }
            "F"
        },
    }
}

/// Appends the handle text of `n` to `out`.
pub fn append_handle(out: &mut String, n: u64)
    ensures
        final(out)@ == old(out)@ + hex_text(n as nat),
    decreases n,
{
    if n >= 16 {
        append_handle(out, n / 16);
    }
    out.append(hex_digit_str(n % 16));
    proof {
        if n >= 16 {
            assert(hex_text(n as nat) == hex_text((n / 16) as nat).push(hex_digit_char((n % 16) as nat)));
        }
    }
}

/// The text of handle `h`: upper-case hexadecimal without leading zeros.
pub fn as_handle(h: u64) -> (r: String)
    ensures
        r@ == hex_text(h as nat),
{
    let mut out = String::new();
    append_handle(&mut out, h);
    out
}

/// The value of the hexadecimal digit `c`, if it is one.
pub fn hex_char_to_value(c: char) -> (r: Option<u8>)
    ensures
        r.is_some() == is_hex_char(c),
        r.is_some() ==> r.unwrap() as nat == hex_char_value(c) && r.unwrap() < 16,
{
    if '0' <= c && c <= '9' {
        Some((c as u32 - 48) as u8)
    } else if 'A' <= c && c <= 'F' {
        Some((c as u32 - 55) as u8)
    } else if 'a' <= c && c <= 'f' {
        Some((c as u32 - 87) as u8)
    } else {
        None
    }
}

/// Reads a handle from its text: one to sixteen hexadecimal digits, in either
/// case, with nothing around them.
pub fn parse_handle(s: &str) -> (r: Option<u64>)
    ensures
        r == handle_of_text(s@),
{
    let n = s.unicode_len();
    if n == 0 || n > 16 {
        return None;
    }
    let mut acc: u64 = 0;
    let mut i: usize = 0;
    while i < n
        invariant
            n == s@.len(),
            1 <= n <= 16,
            i <= n,
            forall|j: int| 0 <= j < i ==> is_hex_char(#[trigger] s@[j]),
            acc as nat == hex_value(s@.subrange(0, i as int)),
            acc < pow16(i as nat),
        decreases n - i,
    {
        let c = s.get_char(i);
        match hex_char_to_value(c) {
            None => {
                return None;
            },
            Some(d) => {
                proof {
                    let t = s@.subrange(0, i as int + 1);
                    assert(t.drop_last() =~= s@.subrange(0, i as int));
                    assert(t.last() == c);
                    lemma_pow16_monotone(i as nat + 1, 16);
                    lemma_pow16_16();
                    assert(acc * 16 + d < pow16(i as nat + 1)) by (nonlinear_arith)
                        requires
                            acc < pow16(i as nat),
                            d < 16,
                            pow16(i as nat + 1) == 16 * pow16(i as nat),
                    ;
                }
                acc = acc * 16 + d as u64;
                i = i + 1;
            },
        }
    }
    proof {
        assert(s@.subrange(0, n as int) =~= s@);
    }
    Some(acc)
}

} // verus!
