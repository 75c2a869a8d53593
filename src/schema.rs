use vstd::prelude::*;
use crate::version::AcadVersion;

verus! {

/// The pieces of a comma-separated list read so far, and the piece that is
/// still open.
pub open spec fn split_state(s: Seq<char>) -> (Seq<Seq<char>>, Seq<char>)
    decreases s.len(),
{
    if s.len() == 0 {
        (Seq::empty(), Seq::empty())
    } else {
        let (done, open) = split_state(s.drop_last());
        if s.last() == ',' {
            (done.push(open), Seq::empty())
        } else {
            (done, open.push(s.last()))
        }
    }
}

/// The pieces of comma-separated text, in order; text without a comma is one
/// piece.
pub open spec fn split_commas(s: Seq<char>) -> Seq<Seq<char>> {
    split_state(s).0.push(split_state(s).1)
}

/// Splits a schema record's list of on-wire type names (`TypeString`) at its
/// commas.
pub fn split_type_strings(s: &str) -> (r: Vec<String>)
    ensures
        r@.map_values(|t: String| t@) == split_commas(s@),
{
    let n = s.unicode_len();
    let mut parts: Vec<String> = Vec::new();
    let mut start: usize = 0;
    let mut i: usize = 0;
    while i < n
        invariant
            n == s@.len(),
            start <= i <= n,
            parts@.map_values(|t: String| t@) == split_state(s@.subrange(0, i as int)).0,
            s@.subrange(start as int, i as int) == split_state(s@.subrange(0, i as int)).1,
        decreases n - i,
    {
        let c = s.get_char(i);
        let ghost pre = s@.subrange(0, i as int);
        let ghost next = s@.subrange(0, i + 1 as int);
        proof {
            assert(next.drop_last() =~= pre);
            assert(next.last() == c);
        }
        if c == ',' {
            let ghost before = parts@;
            parts.push(s.substring_char(start, i).to_owned());
            proof {
                assert(parts@.map_values(|t: String| t@) =~= before.map_values(|t: String| t@).push(
                    s@.subrange(start as int, i as int),
                ));
                assert(s@.subrange(i + 1 as int, i + 1 as int) =~= Seq::<char>::empty());
            }
            start = i + 1;
        } else {
            proof {
                assert(s@.subrange(start as int, i + 1 as int) =~= s@.subrange(
                    start as int,
                    i as int,
                ).push(c));
            }
        }
        i = i + 1;
    }
    let ghost before = parts@;
    parts.push(s.substring_char(start, n).to_owned());
    proof {
        assert(s@.subrange(0, n as int) =~= s@);
        assert(parts@.map_values(|t: String| t@) =~= before.map_values(|t: String| t@).push(
            s@.subrange(start as int, n as int),
        ));
    }
    parts
}

/// The release that a schema names (`R2004`), if it is one.
pub open spec fn version_of_name(s: Seq<char>) -> Option<AcadVersion> {
    if s == "R9"@ {
        Some(AcadVersion::R9)
    } else if s == "R10"@ {
        Some(AcadVersion::R10)
    } else if s == "R11"@ {
        Some(AcadVersion::R11)
    } else if s == "R12"@ {
        Some(AcadVersion::R12)
    } else if s == "R13"@ {
        Some(AcadVersion::R13)
    } else if s == "R14"@ {
        Some(AcadVersion::R14)
    } else if s == "R2000"@ {
        Some(AcadVersion::R2000)
    } else if s == "R2004"@ {
        Some(AcadVersion::R2004)
    } else if s == "R2007"@ {
        Some(AcadVersion::R2007)
    } else if s == "R2010"@ {
        Some(AcadVersion::R2010)
    } else if s == "R2013"@ {
        Some(AcadVersion::R2013)
    } else {
        None
    }
}

fn name_is(s: &String, lit: &str) -> (r: bool)
    ensures
        r == (s@ == lit@),
{
    let l = String::from_str(lit);
    s.eq(&l)
}

/// The release that a schema names, if it is one.
pub fn parse_version_name(s: &str) -> (r: Option<AcadVersion>)
    ensures
        r == version_of_name(s@),
{
    let t = s.to_owned();
    if name_is(&t, "R9") {
        Some(AcadVersion::R9)
    } else if name_is(&t, "R10") {
        Some(AcadVersion::R10)
    } else if name_is(&t, "R11") {
        Some(AcadVersion::R11)
    } else if name_is(&t, "R12") {
        Some(AcadVersion::R12)
    } else if name_is(&t, "R13") {
        Some(AcadVersion::R13)
    } else if name_is(&t, "R14") {
        Some(AcadVersion::R14)
    } else if name_is(&t, "R2000") {
        Some(AcadVersion::R2000)
    } else if name_is(&t, "R2004") {
        Some(AcadVersion::R2004)
    } else if name_is(&t, "R2007") {
        Some(AcadVersion::R2007)
    } else if name_is(&t, "R2010") {
        Some(AcadVersion::R2010)
    } else if name_is(&t, "R2013") {
        Some(AcadVersion::R2013)
    } else {
        None
    }
}

/// The last release a schema record admits: the one it names, or the latest
/// release where it names none (or one that is not known).
pub fn max_version_or_latest(s: &str) -> (r: AcadVersion)
    ensures
        r == match version_of_name(s@) {
            Some(v) => v,
            None => AcadVersion::R2013,
        },
{
    match parse_version_name(s) {
        Some(v) => v,
        None => AcadVersion::R2013,
    }
}

/// The release that a header's `$ACADVER` text names, if it is one. R11
/// and R12 share their text; it reads as R12.
pub open spec fn version_of_acadver(s: Seq<char>) -> Option<AcadVersion> {
    if s == "AC1004"@ {
        Some(AcadVersion::R9)
    } else if s == "AC1006"@ {
        Some(AcadVersion::R10)
    } else if s == "AC1009"@ {
        Some(AcadVersion::R12)
    } else if s == "AC1012"@ {
        Some(AcadVersion::R13)
    } else if s == "AC1014"@ {
        Some(AcadVersion::R14)
    } else if s == "AC1015"@ {
        Some(AcadVersion::R2000)
    } else if s == "AC1018"@ {
        Some(AcadVersion::R2004)
    } else if s == "AC1021"@ {
        Some(AcadVersion::R2007)
    } else if s == "AC1024"@ {
        Some(AcadVersion::R2010)
    } else if s == "AC1027"@ {
        Some(AcadVersion::R2013)
    } else {
        None
    }
}

/// The `$ACADVER` text of release `v`.
pub open spec fn acadver_of_version(v: AcadVersion) -> Seq<char> {
    match v {
        AcadVersion::R9 => "AC1004"@,
        AcadVersion::R10 => "AC1006"@,
        AcadVersion::R11 => "AC1009"@,
        AcadVersion::R12 => "AC1009"@,
        AcadVersion::R13 => "AC1012"@,
        AcadVersion::R14 => "AC1014"@,
        AcadVersion::R2000 => "AC1015"@,
        AcadVersion::R2004 => "AC1018"@,
        AcadVersion::R2007 => "AC1021"@,
        AcadVersion::R2010 => "AC1024"@,
        AcadVersion::R2013 => "AC1027"@,
    }
}

/// The release that a header's `$ACADVER` text names, if it is one.
pub fn parse_acadver(s: &String) -> (r: Option<AcadVersion>)
    ensures
        r == version_of_acadver(s@),
{
    if name_is(s, "AC1004") {
        Some(AcadVersion::R9)
    } else if name_is(s, "AC1006") {
        Some(AcadVersion::R10)
    } else if name_is(s, "AC1009") {
        Some(AcadVersion::R12)
    } else if name_is(s, "AC1012") {
        Some(AcadVersion::R13)
    } else if name_is(s, "AC1014") {
        Some(AcadVersion::R14)
    } else if name_is(s, "AC1015") {
        Some(AcadVersion::R2000)
    } else if name_is(s, "AC1018") {
        Some(AcadVersion::R2004)
    } else if name_is(s, "AC1021") {
        Some(AcadVersion::R2007)
    } else if name_is(s, "AC1024") {
        Some(AcadVersion::R2010)
    } else if name_is(s, "AC1027") {
        Some(AcadVersion::R2013)
    } else {
        None
    }
}

/// The `$ACADVER` text of release `v`.
pub fn acadver_text(v: AcadVersion) -> (r: &'static str)
    ensures
        r@ == acadver_of_version(v),
{
    match v {
        AcadVersion::R9 => "AC1004",
        AcadVersion::R10 => "AC1006",
        AcadVersion::R11 => "AC1009",
        AcadVersion::R12 => "AC1009",
        AcadVersion::R13 => "AC1012",
        AcadVersion::R14 => "AC1014",
        AcadVersion::R2000 => "AC1015",
        AcadVersion::R2004 => "AC1018",
        AcadVersion::R2007 => "AC1021",
        AcadVersion::R2010 => "AC1024",
        AcadVersion::R2013 => "AC1027",
    }
}

} // verus!
