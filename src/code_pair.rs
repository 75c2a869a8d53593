use vstd::prelude::*;

verus! {

/// The kind of value that a group code carries.
#[derive(Clone, Copy, Debug, PartialEq, Eq, Structural, Hash)]
pub enum ValueKind {
    Boolean,
    Short,
    Integer,
    Long,
    Double,
    Str,
    Binary,
    Handle,
}

/// The canonical value kind of group code `code`.
pub open spec fn kind_of_code(code: u16) -> ValueKind {
    if code == 1004 {
        ValueKind::Binary
    } else if code == 1005 {
        ValueKind::Handle
    } else if code <= 9 {
        ValueKind::Str
    } else if (10 <= code <= 59) || (110 <= code <= 149) || (210 <= code <= 239) || (1010
        <= code <= 1059) {
        ValueKind::Double
    } else if (60 <= code <= 79) || (170 <= code <= 179) || (270 <= code <= 289) || (370 <= code
        <= 389) || (400 <= code <= 409) || (1060 <= code <= 1070) {
        ValueKind::Short
    } else if (90 <= code <= 99) || (420 <= code <= 429) || (440 <= code <= 459) || code == 1071 {
        ValueKind::Integer
    } else if (160 <= code <= 169) || code >= 1079 {
        ValueKind::Long
    } else if 290 <= code <= 299 {
        ValueKind::Boolean
    } else if 310 <= code <= 319 {
        ValueKind::Binary
    } else if (320 <= code <= 369) || (390 <= code <= 399) || (480 <= code <= 481) {
        ValueKind::Handle
    } else {
        ValueKind::Str
    }
}

/// The canonical value kind of group code `code`.
pub fn expected_kind(code: u16) -> (r: ValueKind)
    ensures
        r == kind_of_code(code),
{
    if code == 1004 {
        ValueKind::Binary
    } else if code == 1005 {
        ValueKind::Handle
    } else if code <= 9 {
        ValueKind::Str
    } else if (10 <= code && code <= 59) || (110 <= code && code <= 149) || (210 <= code && code
        <= 239) || (1010 <= code && code <= 1059) {
        ValueKind::Double
    } else if (60 <= code && code <= 79) || (170 <= code && code <= 179) || (270 <= code && code
        <= 289) || (370 <= code && code <= 389) || (400 <= code && code <= 409) || (1060 <= code
        && code <= 1070) {
        ValueKind::Short
    } else if (90 <= code && code <= 99) || (420 <= code && code <= 429) || (440 <= code && code
        <= 459) || code == 1071 {
        ValueKind::Integer
    } else if (160 <= code && code <= 169) || code >= 1079 {
        ValueKind::Long
    } else if 290 <= code && code <= 299 {
        ValueKind::Boolean
    } else if 310 <= code && code <= 319 {
        ValueKind::Binary
    } else if (320 <= code && code <= 369) || (390 <= code && code <= 399) || (480 <= code && code
        <= 481) {
        ValueKind::Handle
    } else {
        ValueKind::Str
    }
}

/// A typed value. A real number is held as its decimal text; a flag keeps
/// the integer it was written as (any value but zero is true).
#[derive(Clone, Debug, PartialEq)]
pub enum CodePairValue {
    Boolean(i16),
    Short(i16),
    Integer(i32),
    Long(i64),
    Double(String),
    Str(String),
    Binary(Vec<u8>),
    Handle(u64),
}

/// The kind of a value.
pub open spec fn kind_of_value(v: CodePairValue) -> ValueKind {
    match v {
        CodePairValue::Boolean(_) => ValueKind::Boolean,
        CodePairValue::Short(_) => ValueKind::Short,
        CodePairValue::Integer(_) => ValueKind::Integer,
        CodePairValue::Long(_) => ValueKind::Long,
        CodePairValue::Double(_) => ValueKind::Double,
        CodePairValue::Str(_) => ValueKind::Str,
        CodePairValue::Binary(_) => ValueKind::Binary,
        CodePairValue::Handle(_) => ValueKind::Handle,
    }
}

/// What a value holds, with text as characters and bytes as a sequence.
pub enum ValueView {
    Boolean(i16),
    Short(i16),
    Integer(i32),
    Long(i64),
    Double(Seq<char>),
    Str(Seq<char>),
    Binary(Seq<u8>),
    Handle(u64),
}

impl View for CodePairValue {
    type V = ValueView;

    open spec fn view(&self) -> ValueView {
        match self {
            CodePairValue::Boolean(b) => ValueView::Boolean(*b),
            CodePairValue::Short(v) => ValueView::Short(*v),
            CodePairValue::Integer(v) => ValueView::Integer(*v),
            CodePairValue::Long(v) => ValueView::Long(*v),
            CodePairValue::Double(t) => ValueView::Double(t@),
            CodePairValue::Str(t) => ValueView::Str(t@),
            CodePairValue::Binary(b) => ValueView::Binary(b@),
            CodePairValue::Handle(h) => ValueView::Handle(*h),
        }
    }
}

/// What a pair holds.
pub struct PairView {
    pub code: u16,
    pub value: ValueView,
}

/// A group code with its value.
#[derive(Clone, Debug, PartialEq)]
pub struct CodePair {
    pub code: u16,
    pub value: CodePairValue,
}

impl View for CodePair {
    type V = PairView;

    open spec fn view(&self) -> PairView {
        PairView { code: self.code, value: self.value@ }
    }
}

/// What each pair of a sequence holds.
pub open spec fn pairs_view(s: Seq<CodePair>) -> Seq<PairView> {
    s.map_values(|p: CodePair| p@)
}

/// Whether a pair's value has the kind that its code calls for.
pub open spec fn is_canonical_pair(p: CodePair) -> bool {
    kind_of_value(p.value) == kind_of_code(p.code)
}

/// The errors of reading and writing.
#[derive(Clone, Debug, PartialEq)]
pub enum DxfError {
    /// The input ended in the middle of a pair; the byte offset where it ended.
    UnexpectedEof(usize),
    /// A code or an integer value that is not a decimal number in range; the
    /// byte offset of its line.
    MalformedInteger(usize),
    /// A real value that is not a decimal number; the byte offset of its line.
    MalformedFloat(usize),
    /// A handle value that is not one to sixteen hexadecimal digits; the byte
    /// offset of its line.
    MalformedHandle(usize),
    /// A binary chunk that is not an even number of hexadecimal digits; the
    /// byte offset of its line.
    MalformedBinary(usize),
    /// A binary stream, which this reader does not take; the offset of the
    /// first byte after its sentinel.
    UnexpectedByte(usize),
    /// A pair whose value is not of the kind that was asked for.
    WrongValueType(u16),
}

impl CodePair {
    /// A text pair.
    pub fn new_str(code: u16, s: &str) -> (r: CodePair)
        ensures
            r@ == (PairView { code, value: ValueView::Str(s@) }),
    {
        CodePair { code, value: CodePairValue::Str(s.to_owned()) }
    }

    /// A text pair with a copy of `s`.
    pub fn new_string(code: u16, s: &String) -> (r: CodePair)
        ensures
            r@ == (PairView { code, value: ValueView::Str(s@) }),
    {
        CodePair { code, value: CodePairValue::Str(s.clone()) }
    }

    /// A real-number pair, given as its decimal text.
    pub fn new_real_text(code: u16, s: &String) -> (r: CodePair)
        ensures
            r@ == (PairView { code, value: ValueView::Double(s@) }),
    {
        CodePair { code, value: CodePairValue::Double(s.clone()) }
    }

    /// A 16-bit integer pair.
    pub fn new_i16(code: u16, v: i16) -> (r: CodePair)
        ensures
            r == (CodePair { code, value: CodePairValue::Short(v) }),
    {
        CodePair { code, value: CodePairValue::Short(v) }
    }

    /// A 32-bit integer pair.
    pub fn new_i32(code: u16, v: i32) -> (r: CodePair)
        ensures
            r == (CodePair { code, value: CodePairValue::Integer(v) }),
    {
        CodePair { code, value: CodePairValue::Integer(v) }
    }

    /// A handle pair.
    pub fn new_handle(code: u16, h: u64) -> (r: CodePair)
        ensures
            r == (CodePair { code, value: CodePairValue::Handle(h) }),
    {
        CodePair { code, value: CodePairValue::Handle(h) }
    }

    /// A copy of this pair.
    pub fn duplicate(&self) -> (r: CodePair)
        ensures
            r@ == self@,
    {
        let value = match &self.value {
            CodePairValue::Boolean(b) => CodePairValue::Boolean(*b),
            CodePairValue::Short(v) => CodePairValue::Short(*v),
            CodePairValue::Integer(v) => CodePairValue::Integer(*v),
            CodePairValue::Long(v) => CodePairValue::Long(*v),
            CodePairValue::Double(t) => CodePairValue::Double(t.clone()),
            CodePairValue::Str(t) => CodePairValue::Str(t.clone()),
            CodePairValue::Binary(d) => CodePairValue::Binary(
                crate::text::copy_range(d.as_slice(), 0, d.len()),
            ),
            CodePairValue::Handle(h) => CodePairValue::Handle(*h),
        };
        proof {
            if let CodePairValue::Binary(d) = &self.value {
                assert(d@.subrange(0, d@.len() as int) =~= d@);
            }
        }
        CodePair { code: self.code, value }
    }

    /// The text of a string value.
    pub fn assert_string(&self) -> (r: Result<String, DxfError>)
        ensures
            self.value matches CodePairValue::Str(s) ==> r matches Ok(t) && t@ == s@,
            !(self.value is Str) ==> r == Err::<String, DxfError>(
                DxfError::WrongValueType(self.code),
            ),
    {
        match &self.value {
            CodePairValue::Str(s) => Ok(s.clone()),
            _ => Err(DxfError::WrongValueType(self.code)),
        }
    }

    /// The text of a real value.
    pub fn assert_real_text(&self) -> (r: Result<String, DxfError>)
        ensures
            self.value matches CodePairValue::Double(s) ==> r matches Ok(t) && t@ == s@,
            !(self.value is Double) ==> r == Err::<String, DxfError>(
                DxfError::WrongValueType(self.code),
            ),
    {
        match &self.value {
            CodePairValue::Double(s) => Ok(s.clone()),
            _ => Err(DxfError::WrongValueType(self.code)),
        }
    }

    /// A 16-bit integer value.
    pub fn assert_i16(&self) -> (r: Result<i16, DxfError>)
        ensures
            r == (match self.value {
                CodePairValue::Short(v) => Ok(v),
                _ => Err(DxfError::WrongValueType(self.code)),
            }),
    {
        match &self.value {
            CodePairValue::Short(v) => Ok(*v),
            _ => Err(DxfError::WrongValueType(self.code)),
        }
    }

    /// A 32-bit integer value.
    pub fn assert_i32(&self) -> (r: Result<i32, DxfError>)
        ensures
            r == (match self.value {
                CodePairValue::Integer(v) => Ok(v),
                _ => Err(DxfError::WrongValueType(self.code)),
            }),
    {
        match &self.value {
            CodePairValue::Integer(v) => Ok(*v),
            _ => Err(DxfError::WrongValueType(self.code)),
        }
    }

    /// A handle value.
    pub fn assert_handle(&self) -> (r: Result<u64, DxfError>)
        ensures
            r == (match self.value {
                CodePairValue::Handle(v) => Ok(v),
                _ => Err(DxfError::WrongValueType(self.code)),
            }),
    {
        match &self.value {
            CodePairValue::Handle(v) => Ok(*v),
            _ => Err(DxfError::WrongValueType(self.code)),
        }
    }
}

/// A 16-bit flag as a boolean: any value but zero is true.
pub fn as_bool(v: i16) -> (r: bool)
    ensures
        r == (v != 0),
{
    v != 0
}

/// A boolean as a 16-bit flag.
pub fn as_i16(b: bool) -> (r: i16)
    ensures
        r == (if b { 1i16 } else { 0i16 }),
{
    if b {
        1
    } else {
        0
    }
}

/// Whether the bits of `mask` are all set in `flags`.
pub fn flag_is_set(flags: i16, mask: i16) -> (r: bool)
    ensures
        r == (flags & mask == mask),
{
    flags & mask == mask
}

/// Sets (`on`) or clears the bits of `mask` in `flags`, leaving the others.
pub fn set_flag(flags: &mut i16, mask: i16, on: bool)
    ensures
        *final(flags) == if on {
            *old(flags) | mask
        } else {
            *old(flags) & !mask
        },
{
    if on {
        *flags = *flags | mask;
    } else {
        *flags = *flags & !mask;
    }
}

} // verus!
