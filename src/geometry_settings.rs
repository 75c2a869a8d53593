use vstd::prelude::*;
use crate::code_pair::{CodePair, DxfError, PairView, ValueView, pairs_view};
use crate::pair_stream::PairStream;

verus! {

/// How one kind of geometry is drawn in a section view: one entry of the
/// nested lists of a section's settings. Real numbers are held as their
/// decimal text.
#[derive(Clone, Debug, PartialEq)]
pub struct SectionGeometrySettings {
    pub section_type: i32,
    pub geometry_count: i32,
    pub bit_flags: i32,
    pub color: i16,
    pub layer_name: String,
    pub line_type_name: String,
    pub line_type_scale: String,
    pub plot_style_name: String,
    pub line_weight: i16,
    pub face_transparency: i16,
    pub edge_transparency: i16,
    pub hatch_pattern_type: i16,
    pub hatch_pattern_name: String,
    pub hatch_angle: String,
    pub hatch_scale: String,
    pub hatch_spacing: String,
}

/// What a set of geometry settings holds.
pub struct GeometryView {
    pub section_type: i32,
    pub geometry_count: i32,
    pub bit_flags: i32,
    pub color: i16,
    pub layer_name: Seq<char>,
    pub line_type_name: Seq<char>,
    pub line_type_scale: Seq<char>,
    pub plot_style_name: Seq<char>,
    pub line_weight: i16,
    pub face_transparency: i16,
    pub edge_transparency: i16,
    pub hatch_pattern_type: i16,
    pub hatch_pattern_name: Seq<char>,
    pub hatch_angle: Seq<char>,
    pub hatch_scale: Seq<char>,
    pub hatch_spacing: Seq<char>,
}

impl View for SectionGeometrySettings {
    type V = GeometryView;

    open spec fn view(&self) -> GeometryView {
        GeometryView {
            section_type: self.section_type,
            geometry_count: self.geometry_count,
            bit_flags: self.bit_flags,
            color: self.color,
            layer_name: self.layer_name@,
            line_type_name: self.line_type_name@,
            line_type_scale: self.line_type_scale@,
            plot_style_name: self.plot_style_name@,
            line_weight: self.line_weight,
            face_transparency: self.face_transparency,
            edge_transparency: self.edge_transparency,
            hatch_pattern_type: self.hatch_pattern_type,
            hatch_pattern_name: self.hatch_pattern_name@,
            hatch_angle: self.hatch_angle@,
            hatch_scale: self.hatch_scale@,
            hatch_spacing: self.hatch_spacing@,
        }
    }
}

/// The settings of a new entry: all numbers zero, all names empty, scales one.
pub open spec fn default_geometry() -> GeometryView {
    GeometryView {
        section_type: 0,
        geometry_count: 0,
        bit_flags: 0,
        color: 0,
        layer_name: Seq::empty(),
        line_type_name: Seq::empty(),
        line_type_scale: seq!['1'],
        plot_style_name: Seq::empty(),
        line_weight: 0,
        face_transparency: 0,
        edge_transparency: 0,
        hatch_pattern_type: 0,
        hatch_pattern_name: Seq::empty(),
        hatch_angle: seq!['0'],
        hatch_scale: seq!['1'],
        hatch_spacing: seq!['0'],
    }
}

impl Default for SectionGeometrySettings {
    fn default() -> (r: Self)
        ensures
            r@ == default_geometry(),
    {
        proof {
            reveal_strlit("0");
            reveal_strlit("1");
        }
        let one = String::from_str("1");
        let zero = String::from_str("0");
        assert(one@ =~= seq!['1']);
        assert(zero@ =~= seq!['0']);
        let r = SectionGeometrySettings {
            section_type: 0,
            geometry_count: 0,
            bit_flags: 0,
            color: 0,
            layer_name: String::new(),
            line_type_name: String::new(),
            line_type_scale: one.clone(),
            plot_style_name: String::new(),
            line_weight: 0,
            face_transparency: 0,
            edge_transparency: 0,
            hatch_pattern_type: 0,
            hatch_pattern_name: String::new(),
            hatch_angle: zero.clone(),
            hatch_scale: one,
            hatch_spacing: zero,
        };
        assert(r@.layer_name =~= Seq::<char>::empty());
        assert(r@.line_type_name =~= Seq::<char>::empty());
        assert(r@.plot_style_name =~= Seq::<char>::empty());
        assert(r@.hatch_pattern_name =~= Seq::<char>::empty());
        r
    }
}

/// Whether `code` sets a field of geometry settings.
pub open spec fn is_geometry_code(code: u16) -> bool {
    code == 1 || code == 2 || code == 6 || code == 8 || (40 <= code <= 43) || code == 63 || (70
        <= code <= 72) || (90 <= code <= 92) || code == 370
}

/// The code that closes one entry of geometry settings.
pub const GEOMETRY_END_CODE: u16 = 3;

/// The settings after reading pair `p`, whose code sets one of their fields;
/// the pair's code where its value is not of the field's kind.
pub open spec fn apply_geometry_pair(g: GeometryView, p: PairView) -> Result<GeometryView, u16> {
    match p.value {
        ValueView::Str(t) => if p.code == 1 {
            Ok(GeometryView { plot_style_name: t, ..g })
        } else if p.code == 2 {
            Ok(GeometryView { hatch_pattern_name: t, ..g })
        } else if p.code == 6 {
            Ok(GeometryView { line_type_name: t, ..g })
        } else if p.code == 8 {
            Ok(GeometryView { layer_name: t, ..g })
        } else {
            Err(p.code)
        },
        ValueView::Double(t) => if p.code == 40 {
            Ok(GeometryView { line_type_scale: t, ..g })
        } else if p.code == 41 {
            Ok(GeometryView { hatch_angle: t, ..g })
        } else if p.code == 42 {
            Ok(GeometryView { hatch_scale: t, ..g })
        } else if p.code == 43 {
            Ok(GeometryView { hatch_spacing: t, ..g })
        } else {
            Err(p.code)
        },
        ValueView::Short(v) => if p.code == 63 {
            Ok(GeometryView { color: v, ..g })
        } else if p.code == 70 {
            Ok(GeometryView { face_transparency: v, ..g })
        } else if p.code == 71 {
            Ok(GeometryView { edge_transparency: v, ..g })
        } else if p.code == 72 {
            Ok(GeometryView { hatch_pattern_type: v, ..g })
        } else if p.code == 370 {
            Ok(GeometryView { line_weight: v, ..g })
        } else {
            Err(p.code)
        },
        ValueView::Integer(v) => if p.code == 90 {
            Ok(GeometryView { section_type: v, ..g })
        } else if p.code == 91 {
            Ok(GeometryView { geometry_count: v, ..g })
        } else if p.code == 92 {
            Ok(GeometryView { bit_flags: v, ..g })
        } else {
            Err(p.code)
        },
        _ => Err(p.code),
    }
}

/// Reading of geometry settings `g` over the pairs `s`: the settings at the
/// end and how many pairs were taken, or the code of the first pair whose
/// value had the wrong kind. Reading stops after the closing code, or before
/// a pair that sets none of the fields.
pub open spec fn geometry_run(g: GeometryView, s: Seq<PairView>) -> Result<(GeometryView, nat), u16>
    decreases s.len(),
{
    if s.len() == 0 {
        Ok((g, 0))
    } else if s[0].code == GEOMETRY_END_CODE {
        Ok((g, 1))
    } else if is_geometry_code(s[0].code) {
        match apply_geometry_pair(g, s[0]) {
            Ok(g2) => match geometry_run(g2, s.drop_first()) {
                Ok((g3, k)) => Ok((g3, k + 1)),
                Err(c) => Err(c),
            },
            Err(c) => Err(c),
        }
    } else {
        Ok((g, 0))
    }
}

/// Reading of one entry of geometry settings at the front of `s`: none where
/// the first pair sets no field, else the entry and how many pairs it took.
pub open spec fn geometry_read(s: Seq<PairView>) -> Result<Option<(GeometryView, nat)>, u16> {
    if s.len() == 0 || !is_geometry_code(s[0].code) {
        Ok(None)
    } else {
        match geometry_run(default_geometry(), s) {
            Ok((g, k)) => Ok(Some((g, k))),
            Err(c) => Err(c),
        }
    }
}

/// Whether `code` sets a field of geometry settings.
pub fn is_geometry_field_code(code: u16) -> (r: bool)
    ensures
        r == is_geometry_code(code),
{
    code == 1 || code == 2 || code == 6 || code == 8 || (40 <= code && code <= 43) || code == 63
        || (70 <= code && code <= 72) || (90 <= code && code <= 92) || code == 370
}

impl SectionGeometrySettings {
    /// Applies one pair to these settings. Gives `Ok(false)`, with nothing
    /// changed, where the pair's code sets none of the fields.
    pub fn apply_pair(&mut self, pair: &CodePair) -> (r: Result<bool, DxfError>)
        ensures
            !is_geometry_code(pair.code) ==> r == Ok::<bool, DxfError>(false) && final(self)@
                == old(self)@,
            is_geometry_code(pair.code) ==> match apply_geometry_pair(old(self)@, pair@) {
                Ok(g) => r == Ok::<bool, DxfError>(true) && final(self)@ == g,
                Err(c) => r == Err::<bool, DxfError>(DxfError::WrongValueType(c)),
            },
    {
        match pair.code {
            1 => {
                self.plot_style_name = pair.assert_string()?;
            },
            2 => {
                self.hatch_pattern_name = pair.assert_string()?;
            },
            6 => {
                self.line_type_name = pair.assert_string()?;
            },
            8 => {
                self.layer_name = pair.assert_string()?;
            },
            40 => {
                self.line_type_scale = pair.assert_real_text()?;
            },
            41 => {
                self.hatch_angle = pair.assert_real_text()?;
            },
            42 => {
                self.hatch_scale = pair.assert_real_text()?;
            },
            43 => {
                self.hatch_spacing = pair.assert_real_text()?;
            },
            63 => {
                self.color = pair.assert_i16()?;
            },
            70 => {
                self.face_transparency = pair.assert_i16()?;
            },
            71 => {
                self.edge_transparency = pair.assert_i16()?;
            },
            72 => {
                self.hatch_pattern_type = pair.assert_i16()?;
            },
            370 => {
                self.line_weight = pair.assert_i16()?;
            },
            90 => {
                self.section_type = pair.assert_i32()?;
            },
            91 => {
                self.geometry_count = pair.assert_i32()?;
            },
            92 => {
                self.bit_flags = pair.assert_i32()?;
            },
            _ => {
                return Ok(false);
            },
        }
        Ok(true)
    }
}

/// The pairs written for geometry settings `g`, closed by the end marker.
pub open spec fn geometry_pairs(g: GeometryView) -> Seq<PairView> {
    seq![
        PairView { code: 90, value: ValueView::Integer(g.section_type) },
        PairView { code: 91, value: ValueView::Integer(g.geometry_count) },
        PairView { code: 92, value: ValueView::Integer(g.bit_flags) },
        PairView { code: 63, value: ValueView::Short(g.color) },
        PairView { code: 8, value: ValueView::Str(g.layer_name) },
        PairView { code: 6, value: ValueView::Str(g.line_type_name) },
        PairView { code: 40, value: ValueView::Double(g.line_type_scale) },
        PairView { code: 1, value: ValueView::Str(g.plot_style_name) },
        PairView { code: 370, value: ValueView::Short(g.line_weight) },
        PairView { code: 70, value: ValueView::Short(g.face_transparency) },
        PairView { code: 71, value: ValueView::Short(g.edge_transparency) },
        PairView { code: 72, value: ValueView::Short(g.hatch_pattern_type) },
        PairView { code: 2, value: ValueView::Str(g.hatch_pattern_name) },
        PairView { code: 41, value: ValueView::Double(g.hatch_angle) },
        PairView { code: 42, value: ValueView::Double(g.hatch_scale) },
        PairView { code: 43, value: ValueView::Double(g.hatch_spacing) },
        PairView { code: 3, value: ValueView::Str("SectionGeometrySettingsEnd"@) },
    ]
}

impl SectionGeometrySettings {
    /// Reads one entry of geometry settings from the front of `iter`. Gives
    /// `None`, taking nothing, where the stream is empty or its first pair
    /// sets no field. Otherwise it reads up to and including the closing code
    /// 3, or up to a pair that sets no field, which is left in the stream.
    #[verifier::loop_isolation(false)]
    pub fn read(iter: &mut PairStream) -> (r: Result<Option<SectionGeometrySettings>, DxfError>)
        ensures
            match geometry_read(pairs_view(old(iter)@)) {
                Ok(None) => r matches Ok(None) && final(iter)@ == old(iter)@,
                Ok(Some((g, k))) => r matches Ok(Some(x)) && x@ == g && k <= old(iter)@.len()
                    && final(iter)@ == old(iter)@.skip(k as int),
                Err(c) => r == Err::<Option<SectionGeometrySettings>, DxfError>(
                    DxfError::WrongValueType(c),
                ),
            },
    {
        let ghost s0 = old(iter)@;
        match iter.next_pair() {
            None => {
                return Ok(None);
            },
            Some(pair) => {
                let starts = is_geometry_field_code(pair.code);
                iter.put_back(pair);
                assert(iter@ =~= s0);
                if !starts {
                    return Ok(None);
                }
            },
        }
        let mut gs = SectionGeometrySettings::default();
        let ghost mut taken: nat = 0;
        proof {
            assert(pairs_view(s0)[0] == s0[0]@);
            assert(pairs_view(s0).len() == s0.len());
            assert(s0.skip(0) =~= s0);
            match geometry_run(default_geometry(), pairs_view(s0)) {
                Ok((g, k)) => {},
                Err(c) => {},
            }
        }
        loop
            invariant
                taken <= s0.len(),
                iter@ == s0.skip(taken as int),
                geometry_run(default_geometry(), pairs_view(s0)) == match geometry_run(
                    gs@,
                    pairs_view(iter@),
                ) {
                    Ok((g, k)) => Ok::<(GeometryView, nat), u16>((g, k + taken)),
                    Err(c) => Err(c),
                },
                s0.len() > 0 && is_geometry_code(s0[0].code),
                geometry_read(pairs_view(s0)) == match geometry_run(
                    default_geometry(),
                    pairs_view(s0),
                ) {
                    Ok((g, k)) => Ok::<Option<(GeometryView, nat)>, u16>(Some((g, k))),
                    Err(c) => Err(c),
                },
            decreases iter@.len(),
        {
            let ghost cur = iter@;
            proof {
                assert(pairs_view(cur).len() == cur.len());
                if cur.len() > 0 {
                    assert(pairs_view(cur)[0] == cur[0]@);
                    assert(pairs_view(cur).drop_first() =~= pairs_view(cur.drop_first()));
                }
            }
            match iter.next_pair() {
                None => {
                    return Ok(Some(gs));
                },
                Some(pair) => {
                    proof {
                        assert(pair@ == pairs_view(cur)[0]);
                        assert(iter@ =~= s0.skip(taken + 1 as int));
                    }
                    if pair.code == GEOMETRY_END_CODE {
                        return Ok(Some(gs));
                    }
                    match gs.apply_pair(&pair) {
                        Err(e) => {
                            return Err(e);
                        },
                        Ok(false) => {
                            iter.put_back(pair);
                            assert(iter@ =~= cur);
                            return Ok(Some(gs));
                        },
                        Ok(true) => {
                            proof {
                                taken = taken + 1;
                            }
                        },
                    }
                },
            }
        }
    }

    /// Appends the pairs of these settings to `out`.
    pub fn write(&self, out: &mut Vec<CodePair>)
        ensures
            pairs_view(final(out)@) == pairs_view(old(out)@) + geometry_pairs(self@),
    {
        let ghost start = old(out)@;
        out.push(CodePair::new_i32(90, self.section_type));
        out.push(CodePair::new_i32(91, self.geometry_count));
        out.push(CodePair::new_i32(92, self.bit_flags));
        out.push(CodePair::new_i16(63, self.color));
        out.push(CodePair::new_string(8, &self.layer_name));
        out.push(CodePair::new_string(6, &self.line_type_name));
        out.push(CodePair::new_real_text(40, &self.line_type_scale));
        out.push(CodePair::new_string(1, &self.plot_style_name));
        out.push(CodePair::new_i16(370, self.line_weight));
        out.push(CodePair::new_i16(70, self.face_transparency));
        out.push(CodePair::new_i16(71, self.edge_transparency));
        out.push(CodePair::new_i16(72, self.hatch_pattern_type));
        out.push(CodePair::new_string(2, &self.hatch_pattern_name));
        out.push(CodePair::new_real_text(41, &self.hatch_angle));
        out.push(CodePair::new_real_text(42, &self.hatch_scale));
        out.push(CodePair::new_real_text(43, &self.hatch_spacing));
        out.push(CodePair::new_str(3, "SectionGeometrySettingsEnd"));
        assert(pairs_view(out@) =~= pairs_view(start) + geometry_pairs(self@));
    }
}

} // verus!
