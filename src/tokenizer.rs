use vstd::prelude::*;
use crate::code_pair::{
    CodePair,
    CodePairValue,
    DxfError,
    PairView,
    ValueKind,
    ValueView,
    expected_kind,
    kind_of_code,
};
use crate::handle::{handle_of_text, parse_handle};
use crate::text::{
    binary_of_text,
    check_real_text,
    integer_in_range,
    is_real_text,
    parse_binary,
    parse_integer,
    trim,
    trim_bounds,
};

verus! {

/// The text that a sequence of bytes reads as, where each malformed UTF-8
/// sequence stands as one replacement character.
pub uninterp spec fn utf8_text(b: Seq<u8>) -> Seq<char>;

/// Relies on `String::from_utf8_lossy`: the text depends on the bytes alone.
#[verifier::external_body]
fn text_of_bytes(b: &[u8]) -> (r: String)
    ensures
        r@ == utf8_text(b@),
{
    String::from_utf8_lossy(b).into_owned()
}

/// Where the line that starts at `pos` ends: the first carriage return or
/// line feed from `pos` on, or the end of the input.
pub open spec fn line_end(b: Seq<u8>, pos: nat) -> nat
    decreases b.len() - pos,
{
    if pos >= b.len() {
        b.len()
    } else if b[pos as int] == 13 || b[pos as int] == 10 {
        pos
    } else {
        line_end(b, pos + 1)
    }
}

/// Where the next line starts after a line that ends at `e`: a carriage
/// return, a line feed and the pair of both each end a line.
pub open spec fn next_line_start(b: Seq<u8>, e: nat) -> nat {
    if e >= b.len() {
        b.len()
    } else if b[e as int] == 13 && e + 1 < b.len() && b[e + 1 as int] == 10 {
        e + 2
    } else {
        e + 1
    }
}

/// The value that a value line `line` gives for a code of kind `kind`, if it
/// is well formed. Text is kept as it stands; numbers, handles and binary
/// chunks may have blanks around them.
pub open spec fn value_of_line(kind: ValueKind, line: Seq<u8>) -> Option<ValueView> {
    match kind {
        ValueKind::Str => Some(ValueView::Str(utf8_text(line))),
        ValueKind::Double => if is_real_text(line) {
            Some(ValueView::Double(utf8_text(trim(line))))
        } else {
            None
        },
        ValueKind::Short => match integer_in_range(line, -32768, 32767) {
            Some(v) => Some(ValueView::Short(v as i16)),
            None => None,
        },
        ValueKind::Boolean => match integer_in_range(line, -32768, 32767) {
            Some(v) => Some(ValueView::Boolean(v as i16)),
            None => None,
        },
        ValueKind::Integer => match integer_in_range(line, -0x8000_0000, 0x7fff_ffff) {
            Some(v) => Some(ValueView::Integer(v as i32)),
            None => None,
        },
        ValueKind::Long => match integer_in_range(
            line,
            -0x8000_0000_0000_0000,
            0x7fff_ffff_ffff_ffff,
        ) {
            Some(v) => Some(ValueView::Long(v as i64)),
            None => None,
        },
        ValueKind::Handle => match handle_of_text(utf8_text(trim(line))) {
            Some(h) => Some(ValueView::Handle(h)),
            None => None,
        },
        ValueKind::Binary => match binary_of_text(line) {
            Some(d) => Some(ValueView::Binary(d)),
            None => None,
        },
    }
}

/// The error for a malformed value line of kind `kind` that starts at `pos`.
pub open spec fn malformed_value(kind: ValueKind, pos: nat) -> DxfError {
    match kind {
        ValueKind::Double => DxfError::MalformedFloat(pos as usize),
        ValueKind::Handle => DxfError::MalformedHandle(pos as usize),
        ValueKind::Binary => DxfError::MalformedBinary(pos as usize),
        _ => DxfError::MalformedInteger(pos as usize),
    }
}

/// One step of the tokenizer, as a value.
pub enum StepView {
    Pair(PairView, nat),
    Failed(DxfError),
    End,
}

/// One step of the tokenizer at offset `pos`: the end of the input, a pair
/// and the offset after it, or an error.
pub open spec fn tokenizer_step(b: Seq<u8>, pos: nat) -> StepView {
    if pos >= b.len() {
        StepView::End
    } else {
        let e1 = line_end(b, pos);
        let v0 = next_line_start(b, e1);
        match integer_in_range(b.subrange(pos as int, e1 as int), 0, 65535) {
            None => StepView::Failed(DxfError::MalformedInteger(pos as usize)),
            Some(c) => if v0 >= b.len() {
                StepView::Failed(DxfError::UnexpectedEof(b.len() as usize))
            } else {
                let e2 = line_end(b, v0);
                let kind = kind_of_code(c as u16);
                match value_of_line(kind, b.subrange(v0 as int, e2 as int)) {
                    Some(v) => StepView::Pair(
                        PairView { code: c as u16, value: v },
                        next_line_start(b, e2),
                    ),
                    None => StepView::Failed(malformed_value(kind, v0)),
                }
            },
        }
    }
}

/// One step of the tokenizer.
pub enum PairStep {
    Pair(CodePair, usize),
    Failed(DxfError),
    End,
}

impl View for PairStep {
    type V = StepView;

    open spec fn view(&self) -> StepView {
        match self {
            PairStep::Pair(p, n) => StepView::Pair(p@, *n as nat),
            PairStep::Failed(e) => StepView::Failed(*e),
            PairStep::End => StepView::End,
        }
    }
}

proof fn lemma_line_end_bounds(b: Seq<u8>, pos: nat)
    requires
        pos <= b.len(),
    ensures
        pos <= line_end(b, pos) <= b.len(),
    decreases b.len() - pos,
{
    if pos < b.len() && !(b[pos as int] == 13 || b[pos as int] == 10) {
        lemma_line_end_bounds(b, pos + 1);
    }
}

/// Where the line that starts at `pos` ends.
pub fn find_line_end(b: &[u8], pos: usize) -> (r: usize)
    requires
        pos <= b@.len(),
    ensures
        r as nat == line_end(b@, pos as nat),
        pos <= r <= b@.len(),
{
    let mut i = pos;
    proof {
        lemma_line_end_bounds(b@, pos as nat);
    }
    while i < b.len() && b[i] != 13 && b[i] != 10
        invariant
            pos <= i <= b@.len(),
            line_end(b@, i as nat) == line_end(b@, pos as nat),
        decreases b@.len() - i,
    {
        i = i + 1;
    }
    i
}

/// Where the next line starts after a line that ends at `e`.
pub fn find_next_line(b: &[u8], e: usize) -> (r: usize)
    requires
        e <= b@.len(),
    ensures
        r as nat == next_line_start(b@, e as nat),
{
    if e >= b.len() {
        b.len()
    } else if b[e] == 13 && e + 1 < b.len() && b[e + 1] == 10 {
        e + 2
    } else {
        e + 1
    }
}

/// Reads the value line `b[from..to]` for a code of kind `kind`.
pub fn read_value(b: &[u8], from: usize, to: usize, kind: ValueKind) -> (r: Option<CodePairValue>)
    requires
        from <= to <= b@.len(),
    ensures
        r matches Some(v) ==> value_of_line(kind, b@.subrange(from as int, to as int)) == Some(v@),
        r is None ==> value_of_line(kind, b@.subrange(from as int, to as int)) is None,
{
    let ghost line = b@.subrange(from as int, to as int);
    match kind {
        ValueKind::Str => {
            let t = text_of_bytes(crate::text::copy_range(b, from, to).as_slice());
            Some(CodePairValue::Str(t))
        },
        ValueKind::Double => {
            if check_real_text(b, from, to) {
                let (lo, hi) = trim_bounds(b, from, to);
                let t = text_of_bytes(crate::text::copy_range(b, lo, hi).as_slice());
                Some(CodePairValue::Double(t))
            } else {
                None
            }
        },
        ValueKind::Short => match parse_integer(b, from, to, -32768, 32767) {
            Some(v) => Some(CodePairValue::Short(v as i16)),
            None => None,
        },
        ValueKind::Boolean => match parse_integer(b, from, to, -32768, 32767) {
            Some(v) => Some(CodePairValue::Boolean(v as i16)),
            None => None,
        },
        ValueKind::Integer => match parse_integer(b, from, to, -0x8000_0000, 0x7fff_ffff) {
            Some(v) => Some(CodePairValue::Integer(v as i32)),
            None => None,
        },
        ValueKind::Long => match parse_integer(
            b,
            from,
            to,
            -0x8000_0000_0000_0000,
            0x7fff_ffff_ffff_ffff,
        ) {
            Some(v) => Some(CodePairValue::Long(v)),
            None => None,
        },
        ValueKind::Handle => {
            let (lo, hi) = trim_bounds(b, from, to);
            let t = text_of_bytes(crate::text::copy_range(b, lo, hi).as_slice());
            match parse_handle(t.as_str()) {
                Some(h) => Some(CodePairValue::Handle(h)),
                None => None,
            }
        },
        ValueKind::Binary => match parse_binary(b, from, to) {
            Some(d) => Some(CodePairValue::Binary(d)),
            None => None,
        },
    }
}

/// Reads the pair that starts at offset `pos`: the end of the input where
/// nothing is left, a pair and the offset after it, or the error that
/// stopped it. Each pair read moves the offset forward.
pub fn next_pair(b: &[u8], pos: usize) -> (r: PairStep)
    requires
        pos <= b@.len(),
    ensures
        r@ == tokenizer_step(b@, pos as nat),
        r matches PairStep::Pair(_, n) ==> pos < n <= b@.len(),
{
    if pos >= b.len() {
        return PairStep::End;
    }
    let e1 = find_line_end(b, pos);
    let v0 = find_next_line(b, e1);
    let code = match parse_integer(b, pos, e1, 0, 65535) {
        None => {
            return PairStep::Failed(DxfError::MalformedInteger(pos));
        },
        Some(c) => c as u16,
    };
    if v0 >= b.len() {
        return PairStep::Failed(DxfError::UnexpectedEof(b.len()));
    }
    let e2 = find_line_end(b, v0);
    let next = find_next_line(b, e2);
    let kind = expected_kind(code);
    match read_value(b, v0, e2, kind) {
        Some(value) => PairStep::Pair(CodePair { code, value }, next),
        None => {
            let e = match kind {
                ValueKind::Double => DxfError::MalformedFloat(v0),
                ValueKind::Handle => DxfError::MalformedHandle(v0),
                ValueKind::Binary => DxfError::MalformedBinary(v0),
                _ => DxfError::MalformedInteger(v0),
            };
            PairStep::Failed(e)
        },
    }
}

/// The sentinel that opens a binary drawing.
pub open spec fn binary_sentinel() -> Seq<u8> {
    seq![
        65u8, 117, 116, 111, 67, 65, 68, 32, 66, 105, 110, 97, 114, 121, 32, 68, 88, 70, 13, 10,
        26, 0,
    ]
}

/// Whether input `b` is a binary drawing.
pub open spec fn is_binary(b: Seq<u8>) -> bool {
    b.len() >= 22 && b.subrange(0, 22) == binary_sentinel()
}

/// The pairs read from offset `pos` on, comments (code 999) left out, or
/// the first error.
pub open spec fn pairs_from(b: Seq<u8>, pos: nat) -> Result<Seq<PairView>, DxfError>
    decreases b.len() - pos,
{
    match tokenizer_step(b, pos) {
        StepView::End => Ok(Seq::empty()),
        StepView::Failed(e) => Err(e),
        StepView::Pair(p, n) => if pos < n <= b.len() {
            match pairs_from(b, n) {
                Ok(rest) => Ok(
                    if p.code == 999 {
                        rest
                    } else {
                        seq![p] + rest
                    },
                ),
                Err(e) => Err(e),
            }
        } else {
            Ok(Seq::empty())
        },
    }
}

/// The pairs of an ASCII drawing, or the first error. A binary drawing is
/// refused at the first byte after its sentinel.
pub open spec fn pairs_of(b: Seq<u8>) -> Result<Seq<PairView>, DxfError> {
    if is_binary(b) {
        Err(DxfError::UnexpectedByte(22))
    } else {
        pairs_from(b, 0)
    }
}

/// Whether `b` starts with the binary sentinel.
pub fn starts_binary(b: &[u8]) -> (r: bool)
    ensures
        r == is_binary(b@),
{
    let sentinel: Vec<u8> = vec![
        65u8, 117, 116, 111, 67, 65, 68, 32, 66, 105, 110, 97, 114, 121, 32, 68, 88, 70, 13, 10,
        26, 0,
    ];
    assert(sentinel@ =~= binary_sentinel());
    if b.len() < 22 {
        return false;
    }
    let mut i: usize = 0;
    while i < 22
        invariant
            i <= 22,
            22 <= b@.len(),
            sentinel@ == binary_sentinel(),
            b@.subrange(0, i as int) == sentinel@.subrange(0, i as int),
        decreases 22 - i,
    {
        if b[i] != sentinel[i] {
            assert(b@.subrange(0, 22)[i as int] != binary_sentinel()[i as int]);
            return false;
        }
        assert(b@.subrange(0, i + 1 as int) =~= sentinel@.subrange(0, i + 1 as int));
        i = i + 1;
    }
    assert(sentinel@.subrange(0, 22) =~= sentinel@);
    true
}

/// What each pair of a vector holds.
pub open spec fn views_of(v: Seq<CodePair>) -> Seq<PairView> {
    v.map_values(|p: CodePair| p@)
}

/// Reads all pairs of an ASCII drawing, comments (code 999) left out. The
/// reading ends at the end of the input; the first malformed pair stops it
/// with its error.
#[verifier::loop_isolation(false)]
pub fn read_pairs(b: &[u8]) -> (r: Result<Vec<CodePair>, DxfError>)
    ensures
        match pairs_of(b@) {
            Ok(ps) => r matches Ok(v) && views_of(v@) == ps,
            Err(e) => r == Err::<Vec<CodePair>, DxfError>(e),
        },
{
    if starts_binary(b) {
        return Err(DxfError::UnexpectedByte(22));
    }
    let mut out: Vec<CodePair> = Vec::new();
    let mut pos: usize = 0;
    loop
        invariant
            pos <= b@.len(),
            !is_binary(b@),
            pairs_from(b@, 0) == match pairs_from(b@, pos as nat) {
                Ok(rest) => Ok::<Seq<PairView>, DxfError>(views_of(out@) + rest),
                Err(e) => Err(e),
            },
        decreases b@.len() - pos,
    {
        match next_pair(b, pos) {
            PairStep::End => {
                assert(views_of(out@) + Seq::<PairView>::empty() =~= views_of(out@));
                return Ok(out);
            },
            PairStep::Failed(e) => {
                return Err(e);
            },
            PairStep::Pair(p, n) => {
                let ghost before = out@;
                if p.code != 999 {
                    out.push(p);
                    proof {
                        assert(views_of(out@) =~= views_of(before).push(p@));
                        match pairs_from(b@, n as nat) {
                            Ok(rest) => {
                                assert(views_of(out@) + rest =~= views_of(before) + (seq![p@] + rest));
                            },
                            Err(_) => {},
                        }
                    }
                }
                pos = n;
            },
        }
    }
}

/// The tokenizer is total: at every offset of every input, a step either
/// ends the input, fails, or yields a pair together with an offset strictly
/// further on and still within the input. So reading all pairs never
/// diverges.
pub proof fn lemma_tokenizer_total(b: Seq<u8>, pos: nat)
    ensures
        tokenizer_step(b, pos) is End || tokenizer_step(b, pos) is Failed || (tokenizer_step(
            b,
            pos,
        ) matches StepView::Pair(_, n) && pos < n <= b.len()),
        pos >= b.len() ==> tokenizer_step(b, pos) is End,
{
    if pos < b.len() {
        lemma_line_end_bounds(b, pos);
        let e1 = line_end(b, pos);
        let v0 = next_line_start(b, e1);
        if v0 < b.len() {
            lemma_line_end_bounds(b, v0);
        }
    }
}

} // verus!
