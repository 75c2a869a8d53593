use vstd::prelude::*;

verus! {

/// The AutoCAD releases a drawing can target, in release order.
#[derive(Clone, Copy, Debug, PartialEq, Eq, Structural, Hash)]
pub enum AcadVersion {
    R9,
    R10,
    R11,
    R12,
    R13,
    R14,
    R2000,
    R2004,
    R2007,
    R2010,
    R2013,
}

/// Position of a release in the total order of releases.
pub open spec fn version_rank(v: AcadVersion) -> nat {
    match v {
        AcadVersion::R9 => 0,
        AcadVersion::R10 => 1,
        AcadVersion::R11 => 2,
        AcadVersion::R12 => 3,
        AcadVersion::R13 => 4,
        AcadVersion::R14 => 5,
        AcadVersion::R2000 => 6,
        AcadVersion::R2004 => 7,
        AcadVersion::R2007 => 8,
        AcadVersion::R2010 => 9,
        AcadVersion::R2013 => 10,
    }
}

impl AcadVersion {
    /// The position of this release in release order.
    pub fn rank(&self) -> (r: u8)
        ensures
            r as nat == version_rank(*self),
    {
        match self {
            AcadVersion::R9 => 0,
            AcadVersion::R10 => 1,
            AcadVersion::R11 => 2,
            AcadVersion::R12 => 3,
            AcadVersion::R13 => 4,
            AcadVersion::R14 => 5,
            AcadVersion::R2000 => 6,
            AcadVersion::R2004 => 7,
            AcadVersion::R2007 => 8,
            AcadVersion::R2010 => 9,
            AcadVersion::R2013 => 10,
        }
    }

    /// Whether this release is `other` or a later one.
    pub fn at_least(&self, other: AcadVersion) -> (r: bool)
        ensures
            r == (version_rank(*self) >= version_rank(other)),
    {
        self.rank() >= other.rank()
    }
}

/// Whether a drawing of release `v` may hold an item declared for the releases
/// `min ..= max`.
pub open spec fn version_in_range(v: AcadVersion, min: AcadVersion, max: AcadVersion) -> bool {
    version_rank(min) <= version_rank(v) && version_rank(v) <= version_rank(max)
}

/// Whether a drawing of release `v` may hold an item declared for the releases
/// `min ..= max`.
pub fn is_version_in_range(v: AcadVersion, min: AcadVersion, max: AcadVersion) -> (r: bool)
    ensures
        r == version_in_range(v, min, max),
{
    min.rank() <= v.rank() && v.rank() <= max.rank()
}

} // verus!
