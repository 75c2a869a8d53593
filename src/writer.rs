use vstd::prelude::*;
use crate::code_pair::{CodePair, CodePairValue, PairView, ValueView};
use crate::handle::{append_handle, hex_digit_char, hex_digit_str, hex_text};

verus! {

/// The decimal digits of `n`, without leading zeros.
pub open spec fn decimal_text(n: nat) -> Seq<char>
    decreases n,
{
    if n < 10 {
        seq![hex_digit_char(n)]
    } else {
        decimal_text(n / 10).push(hex_digit_char(n % 10))
    }
}

/// The decimal text of `v`, with a minus sign where it is negative.
pub open spec fn signed_text(v: int) -> Seq<char> {
    if v < 0 {
        seq!['-'] + decimal_text((-v) as nat)
    } else {
        decimal_text(v as nat)
    }
}

/// `n` spaces.
pub open spec fn spaces(n: nat) -> Seq<char> {
    Seq::new(n, |i: int| ' ')
}

/// `s` right-justified in a field of `w` characters; longer text stands as
/// it is.
pub open spec fn pad_left(s: Seq<char>, w: nat) -> Seq<char> {
    if s.len() < w {
        spaces((w - s.len()) as nat) + s
    } else {
        s
    }
}

/// Bytes as upper-case hexadecimal, two digits to a byte.
pub open spec fn binary_text(d: Seq<u8>) -> Seq<char>
    decreases d.len(),
{
    if d.len() == 0 {
        Seq::empty()
    } else {
        binary_text(d.drop_last()) + seq![
            hex_digit_char((d.last() / 16) as nat),
            hex_digit_char((d.last() % 16) as nat),
        ]
    }
}

/// The code line of a pair: right-justified in three characters up to 999.
pub open spec fn code_text(code: u16) -> Seq<char> {
    if code <= 999 {
        pad_left(decimal_text(code as nat), 3)
    } else {
        decimal_text(code as nat)
    }
}

/// The value line of a pair: 16-bit integers and flags in six characters,
/// 32-bit integers in nine, handles and binary chunks in hexadecimal, text
/// and real numbers as they stand.
pub open spec fn value_text(v: ValueView) -> Seq<char> {
    match v {
        ValueView::Boolean(x) => pad_left(signed_text(x as int), 6),
        ValueView::Short(x) => pad_left(signed_text(x as int), 6),
        ValueView::Integer(x) => pad_left(signed_text(x as int), 9),
        ValueView::Long(x) => signed_text(x as int),
        ValueView::Double(t) => t,
        ValueView::Str(t) => t,
        ValueView::Binary(d) => binary_text(d),
        ValueView::Handle(h) => hex_text(h as nat),
    }
}

/// The end of a line: a carriage return and a line feed.
pub open spec fn line_break() -> Seq<char> {
    seq!['\r', '\n']
}

/// The two lines of a pair, each ended by a carriage return and a line feed.
pub open spec fn pair_text(p: PairView) -> Seq<char> {
    code_text(p.code) + line_break() + value_text(p.value) + line_break()
}

/// The text of a sequence of pairs, one after another.
pub open spec fn pairs_text(ps: Seq<PairView>) -> Seq<char>
    decreases ps.len(),
{
    if ps.len() == 0 {
        Seq::empty()
    } else {
        pairs_text(ps.drop_last()) + pair_text(ps.last())
    }
}

/// Appends the decimal digits of `n` to `out`.
pub fn append_decimal(out: &mut String, n: u64)
    ensures
        final(out)@ == old(out)@ + decimal_text(n as nat),
    decreases n,
{
    if n >= 10 {
        append_decimal(out, n / 10);
    }
    out.append(hex_digit_str(n % 10));
    proof {
        if n >= 10 {
            assert(decimal_text(n as nat) == decimal_text((n / 10) as nat).push(
                hex_digit_char((n % 10) as nat),
            ));
        }
    }
}

/// Appends `s` to `out`, right-justified in a field of `w` characters.
pub fn append_padded(out: &mut String, s: &String, w: usize)
    ensures
        final(out)@ == old(out)@ + pad_left(s@, w as nat),
{
    let n = s.as_str().unicode_len();
    let ghost start = out@;
    if n < w {
        let mut i: usize = 0;
        while i < w - n
            invariant
                i <= w - n,
                out@ == start + spaces(i as nat),
            decreases w - n - i,
        {
            proof {
                reveal_strlit(" ");
            }
            out.append(" ");
            assert(out@ =~= start + spaces((i + 1) as nat));
            i = i + 1;
        }
    }
    out.append(s.as_str());
    assert(out@ =~= start + pad_left(s@, w as nat));
}

/// The decimal text of `v`.
pub fn signed_string(v: i64) -> (r: String)
    ensures
        r@ == signed_text(v as int),
{
    let mut t = String::new();
    if v < 0 {
        proof {
            reveal_strlit("-");
        }
        t.append("-");
        let m: u64 = (-(v as i128)) as u64;
        append_decimal(&mut t, m);
    } else {
        append_decimal(&mut t, v as u64);
    }
    assert(t@ =~= signed_text(v as int));
    t
}

/// Appends bytes as upper-case hexadecimal to `out`.
pub fn append_binary(out: &mut String, d: &Vec<u8>)
    ensures
        final(out)@ == old(out)@ + binary_text(d@),
{
    let ghost start = out@;
    let mut i: usize = 0;
    while i < d.len()
        invariant
            i <= d@.len(),
            out@ == start + binary_text(d@.take(i as int)),
        decreases d@.len() - i,
    {
        let x = d[i];
        out.append(hex_digit_str((x / 16) as u64));
        out.append(hex_digit_str((x % 16) as u64));
        proof {
            let t = d@.take(i + 1 as int);
            assert(t.drop_last() =~= d@.take(i as int));
            assert(out@ =~= start + binary_text(t));
        }
        i = i + 1;
    }
    assert(d@.take(i as int) =~= d@);
}

/// Appends the two lines of `pair` to `out`.
pub fn append_pair(out: &mut String, pair: &CodePair)
    ensures
        final(out)@ == old(out)@ + pair_text(pair@),
{
    let ghost start = out@;
    proof {
        reveal_strlit("\r\n");
    }
    let mut code = String::new();
    append_decimal(&mut code, pair.code as u64);
    if pair.code <= 999 {
        append_padded(out, &code, 3);
    } else {
        out.append(code.as_str());
    }
    out.append("\r\n");
    let ghost mid = out@;
    match &pair.value {
        CodePairValue::Boolean(x) => {
            let t = signed_string(*x as i64);
            append_padded(out, &t, 6);
        },
        CodePairValue::Short(x) => {
            let t = signed_string(*x as i64);
            append_padded(out, &t, 6);
        },
        CodePairValue::Integer(x) => {
            let t = signed_string(*x as i64);
            append_padded(out, &t, 9);
        },
        CodePairValue::Long(x) => {
            let t = signed_string(*x);
            out.append(t.as_str());
        },
        CodePairValue::Double(t) => {
            out.append(t.as_str());
        },
        CodePairValue::Str(t) => {
            out.append(t.as_str());
        },
        CodePairValue::Binary(d) => {
            append_binary(out, d);
        },
        CodePairValue::Handle(h) => {
            append_handle(out, *h);
        },
    }
    assert(out@ =~= mid + value_text(pair@.value));
    out.append("\r\n");
    assert(out@ =~= start + pair_text(pair@));
}

/// The ASCII text of `pairs`, two lines to a pair.
pub fn write_pairs(pairs: &Vec<CodePair>) -> (r: String)
    ensures
        r@ == pairs_text(pairs@.map_values(|p: CodePair| p@)),
{
    let mut out = String::new();
    let ghost views = pairs@.map_values(|p: CodePair| p@);
    let mut i: usize = 0;
    while i < pairs.len()
        invariant
            i <= pairs@.len(),
            views == pairs@.map_values(|p: CodePair| p@),
            out@ == pairs_text(views.take(i as int)),
        decreases pairs@.len() - i,
    {
        append_pair(&mut out, &pairs[i]);
        proof {
            let t = views.take(i + 1 as int);
            assert(t.drop_last() =~= views.take(i as int));
            assert(t.last() == pairs@[i as int]@);
        }
        i = i + 1;
    }
    assert(views.take(i as int) =~= views);
    out
}

} // verus!
