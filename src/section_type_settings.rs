use vstd::prelude::*;
use crate::code_pair::{CodePair, DxfError, PairView, ValueView, pairs_view, as_bool, as_i16};
use crate::geometry_settings::{
    SectionGeometrySettings,
    GeometryView,
    geometry_read,
    geometry_run,
    geometry_pairs,
    is_geometry_code,
    GEOMETRY_END_CODE,
};
use crate::pair_stream::PairStream;

verus! {

/// The settings of one type of section (live, 2D, 3D) of a section object:
/// which objects it cuts, where the result goes, and how each kind of
/// geometry is drawn.
#[derive(Clone, Debug, PartialEq)]
pub struct SectionTypeSettings {
    pub section_type: i32,
    pub is_generation_option: bool,
    pub source_object_handles: Vec<u64>,
    pub destination_object_handle: u64,
    pub destination_file_name: String,
    pub geometry_settings: Vec<SectionGeometrySettings>,
}

/// What section type settings hold.
pub struct SettingsView {
    pub section_type: i32,
    pub is_generation_option: bool,
    pub source_object_handles: Seq<u64>,
    pub destination_object_handle: u64,
    pub destination_file_name: Seq<char>,
    pub geometry_settings: Seq<GeometryView>,
}

impl View for SectionTypeSettings {
    type V = SettingsView;

    open spec fn view(&self) -> SettingsView {
        SettingsView {
            section_type: self.section_type,
            is_generation_option: self.is_generation_option,
            source_object_handles: self.source_object_handles@,
            destination_object_handle: self.destination_object_handle,
            destination_file_name: self.destination_file_name@,
            geometry_settings: self.geometry_settings@.map_values(
                |g: SectionGeometrySettings| g@,
            ),
        }
    }
}

/// New settings: all numbers zero, nothing listed, no file name.
pub open spec fn default_settings() -> SettingsView {
    SettingsView {
        section_type: 0,
        is_generation_option: false,
        source_object_handles: Seq::empty(),
        destination_object_handle: 0,
        destination_file_name: Seq::empty(),
        geometry_settings: Seq::empty(),
    }
}

impl Default for SectionTypeSettings {
    fn default() -> (r: Self)
        ensures
            r@ == default_settings(),
    {
        let r = SectionTypeSettings {
            section_type: 0,
            is_generation_option: false,
            source_object_handles: Vec::new(),
            destination_object_handle: 0,
            destination_file_name: String::new(),
            geometry_settings: Vec::new(),
        };
        assert(r@.geometry_settings =~= Seq::<GeometryView>::empty());
        assert(r@.source_object_handles =~= Seq::<u64>::empty());
        assert(r@.destination_file_name =~= Seq::<char>::empty());
        r
    }
}

/// The code that opens the list of geometry settings.
pub const GEOMETRY_LIST_CODE: u16 = 2;

/// Whether `code` is one of the settings' own codes, other than the one that
/// opens the list of geometry settings.
pub open spec fn is_settings_code(code: u16) -> bool {
    code == 1 || code == 3 || (90 <= code <= 93) || code == 330 || code == 331
}

/// Whether `code` is one of the settings' own codes, other than the one that
/// opens the list of geometry settings.
pub fn is_settings_field_code(code: u16) -> (r: bool)
    ensures
        r == is_settings_code(code),
{
    code == 1 || code == 3 || (90 <= code && code <= 93) || code == 330 || code == 331
}

/// The settings after reading pair `p`, whose code is one of the settings'
/// own; the pair's code where its value is not of the field's kind. The end
/// marker (3) and the two counts (92, 93) change nothing.
pub open spec fn apply_settings_pair(t: SettingsView, p: PairView) -> Result<SettingsView, u16> {
    if p.code == 1 {
        match p.value {
            ValueView::Str(s) => Ok(SettingsView { destination_file_name: s, ..t }),
            _ => Err(p.code),
        }
    } else if p.code == 90 {
        match p.value {
            ValueView::Integer(v) => Ok(SettingsView { section_type: v, ..t }),
            _ => Err(p.code),
        }
    } else if p.code == 91 {
        match p.value {
            ValueView::Integer(v) => Ok(SettingsView { is_generation_option: (v as i16) != 0, ..t }),
            _ => Err(p.code),
        }
    } else if p.code == 330 {
        match p.value {
            ValueView::Handle(h) => Ok(
                SettingsView { source_object_handles: t.source_object_handles.push(h), ..t },
            ),
            _ => Err(p.code),
        }
    } else if p.code == 331 {
        match p.value {
            ValueView::Handle(h) => Ok(SettingsView { destination_object_handle: h, ..t }),
            _ => Err(p.code),
        }
    } else {
        Ok(t)
    }
}

/// A reading result with `n` more pairs counted as taken.
pub open spec fn after_taken(r: Result<(SettingsView, nat), u16>, n: nat) -> Result<
    (SettingsView, nat),
    u16,
> {
    match r {
        Ok((t, k)) => Ok((t, k + n)),
        Err(c) => Err(c),
    }
}

/// Reading of settings `t` over the pairs `s`: the settings at the end and how
/// many pairs were taken, or the code of the first pair whose value had the
/// wrong kind. In the list of geometry settings (`in_list`) entries are read
/// one after another; out of it, reading stops before a pair of code 0 or one
/// that is not a settings code.
pub open spec fn settings_run(t: SettingsView, in_list: bool, s: Seq<PairView>) -> Result<
    (SettingsView, nat),
    u16,
>
    decreases s.len(), (if in_list { 1nat } else { 0nat }),
{
    if in_list {
        match geometry_read(s) {
            Ok(None) => settings_run(t, false, s),
            Ok(Some((g, k))) => if 0 < k <= s.len() {
                after_taken(
                    settings_run(
                        SettingsView { geometry_settings: t.geometry_settings.push(g), ..t },
                        true,
                        s.skip(k as int),
                    ),
                    k,
                )
            } else {
                Ok((t, 0))
            },
            Err(c) => Err(c),
        }
    } else if s.len() == 0 || s[0].code == 0 {
        Ok((t, 0))
    } else if s[0].code == GEOMETRY_LIST_CODE {
        after_taken(settings_run(t, true, s.drop_first()), 1)
    } else if is_settings_code(s[0].code) {
        match apply_settings_pair(t, s[0]) {
            Ok(t2) => after_taken(settings_run(t2, false, s.drop_first()), 1),
            Err(c) => Err(c),
        }
    } else {
        Ok((t, 0))
    }
}

/// Reading of section type settings at the front of `s`: none where `s` is
/// empty or starts with code 0, else the settings and how many pairs they
/// took.
pub open spec fn settings_read(s: Seq<PairView>) -> Result<Option<(SettingsView, nat)>, u16> {
    if s.len() == 0 || s[0].code == 0 {
        Ok(None)
    } else {
        match settings_run(default_settings(), false, s) {
            Ok((t, k)) => Ok(Some((t, k))),
            Err(c) => Err(c),
        }
    }
}

proof fn lemma_geometry_run_len(g: GeometryView, s: Seq<PairView>)
    ensures
        geometry_run(g, s) matches Ok((g2, k)) ==> k <= s.len() && (s.len() > 0 && is_geometry_code(
            s[0].code,
        ) ==> k > 0),
    decreases s.len(),
{
    if s.len() > 0 && s[0].code != GEOMETRY_END_CODE && is_geometry_code(s[0].code) {
        match crate::geometry_settings::apply_geometry_pair(g, s[0]) {
            Ok(g2) => lemma_geometry_run_len(g2, s.drop_first()),
            Err(_) => {},
        }
    }
}

/// One entry read at the front of a stream takes at least one pair and no
/// more than the stream holds.
proof fn lemma_geometry_read_len(s: Seq<PairView>)
    ensures
        geometry_read(s) matches Ok(Some((g, k))) ==> 0 < k <= s.len(),
{
    lemma_geometry_run_len(crate::geometry_settings::default_geometry(), s);
}

impl SectionTypeSettings {
    /// Applies one pair whose code is one of the settings' own, other than
    /// the code that opens the list of geometry settings.
    pub fn apply_pair(&mut self, pair: &CodePair) -> (r: Result<(), DxfError>)
        requires
            is_settings_code(pair.code),
        ensures
            match apply_settings_pair(old(self)@, pair@) {
                Ok(t) => r is Ok && final(self)@ == t,
                Err(c) => r == Err::<(), DxfError>(DxfError::WrongValueType(c)),
            },
    {
        match pair.code {
            1 => {
                self.destination_file_name = pair.assert_string()?;
            },
            90 => {
                self.section_type = pair.assert_i32()?;
            },
            91 => {
                let v = pair.assert_i32()?;
                self.is_generation_option = as_bool(v as i16);
            },
            330 => {
                let h = pair.assert_handle()?;
                self.source_object_handles.push(h);
            },
            331 => {
                self.destination_object_handle = pair.assert_handle()?;
            },
            _ => {},
        }
        Ok(())
    }
}

/// The pairs written for a list of geometry settings, one entry after another.
pub open spec fn geometry_list_pairs(gs: Seq<GeometryView>) -> Seq<PairView>
    decreases gs.len(),
{
    if gs.len() == 0 {
        Seq::empty()
    } else {
        geometry_list_pairs(gs.drop_last()) + geometry_pairs(gs.last())
    }
}

/// The pairs written for the source object handles.
pub open spec fn source_handle_pairs(hs: Seq<u64>) -> Seq<PairView> {
    hs.map_values(|h: u64| PairView { code: 330, value: ValueView::Handle(h) })
}

/// The first pairs written for settings `t`: the start marker, the section
/// type, the generation option and the count of source objects.
pub open spec fn settings_head_pairs(t: SettingsView) -> Seq<PairView> {
    seq![
        PairView { code: 1, value: ValueView::Str("SectionTypeSettings"@) },
        PairView { code: 90, value: ValueView::Integer(t.section_type) },
        PairView {
            code: 91,
            value: ValueView::Integer(if t.is_generation_option { 1 } else { 0 }),
        },
        PairView { code: 92, value: ValueView::Integer(t.source_object_handles.len() as i32) },
    ]
}

/// The pairs written for settings `t` between the source objects and the
/// list of geometry settings.
pub open spec fn settings_middle_pairs(t: SettingsView) -> Seq<PairView> {
    seq![
        PairView { code: 331, value: ValueView::Handle(t.destination_object_handle) },
        PairView { code: 1, value: ValueView::Str(t.destination_file_name) },
        PairView { code: 93, value: ValueView::Integer(t.geometry_settings.len() as i32) },
        PairView { code: 2, value: ValueView::Str("SectionGeometrySettings"@) },
    ]
}

/// The pair that closes section type settings.
pub open spec fn settings_end_pair() -> PairView {
    PairView { code: 3, value: ValueView::Str("SectionTypeSettingsEnd"@) }
}

/// The pairs written for settings `t`: a start marker, the fields with the
/// counts of the two lists, the list of geometry settings, an end marker.
pub open spec fn settings_pairs(t: SettingsView) -> Seq<PairView> {
    settings_head_pairs(t) + source_handle_pairs(t.source_object_handles) + settings_middle_pairs(t)
        + geometry_list_pairs(t.geometry_settings) + seq![settings_end_pair()]
}

impl SectionTypeSettings {
    /// Reads section type settings from the front of `iter`. Gives `None`,
    /// taking nothing, where the stream is empty or starts with code 0.
    /// Otherwise it reads up to a pair of code 0, or up to one that is not a
    /// settings code, which is left in the stream for the caller.
    #[verifier::loop_isolation(false)]
    pub fn read(iter: &mut PairStream) -> (r: Result<Option<SectionTypeSettings>, DxfError>)
        ensures
            match settings_read(pairs_view(old(iter)@)) {
                Ok(None) => r matches Ok(None) && final(iter)@ == old(iter)@,
                Ok(Some((t, k))) => r matches Ok(Some(x)) && x@ == t && k <= old(iter)@.len()
                    && final(iter)@ == old(iter)@.skip(k as int),
                Err(c) => r == Err::<Option<SectionTypeSettings>, DxfError>(
                    DxfError::WrongValueType(c),
                ),
            },
    {
        let ghost s0 = old(iter)@;
        proof {
            assert(pairs_view(s0).len() == s0.len());
            if s0.len() > 0 {
                assert(pairs_view(s0)[0] == s0[0]@);
            }
        }
        // look at the first pair and go on only where it is not code 0
        match iter.next_pair() {
            None => {
                return Ok(None);
            },
            Some(pair) => {
                let at_end = pair.code == 0;
                iter.put_back(pair);
                assert(iter@ =~= s0);
                if at_end {
                    return Ok(None);
                }
            },
        }
        let mut ss = SectionTypeSettings::default();
        let ghost mut taken: nat = 0;
        proof {
            assert(s0.skip(0) =~= s0);
            match settings_run(default_settings(), false, pairs_view(s0)) {
                Ok((t, k)) => {},
                Err(c) => {},
            }
        }
        loop
            invariant
                taken <= s0.len(),
                iter@ == s0.skip(taken as int),
                settings_run(default_settings(), false, pairs_view(s0)) == after_taken(
                    settings_run(ss@, false, pairs_view(iter@)),
                    taken,
                ),
                settings_read(pairs_view(s0)) == match settings_run(
                    default_settings(),
                    false,
                    pairs_view(s0),
                ) {
                    Ok((t, k)) => Ok::<Option<(SettingsView, nat)>, u16>(Some((t, k))),
                    Err(c) => Err(c),
                },
            decreases iter@.len(),
        {
            let ghost cur = iter@;
            proof {
                assert(pairs_view(cur).len() == cur.len());
                if cur.len() > 0 {
                    assert(pairs_view(cur)[0] == cur[0]@);
                    assert(pairs_view(cur).drop_first() =~= pairs_view(cur.drop_first()));
                }
            }
            let pair = match iter.next_pair() {
                None => {
                    return Ok(Some(ss));
                },
                Some(pair) => pair,
            };
            proof {
                assert(iter@ =~= s0.skip(taken + 1 as int));
            }
            if pair.code == 0 {
                iter.put_back(pair);
                assert(iter@ =~= cur);
                return Ok(Some(ss));
            } else if pair.code == GEOMETRY_LIST_CODE {
                // the entries follow, each closed by its own end marker
                proof {
                    taken = taken + 1;
                }
                loop
                    invariant
                        taken <= s0.len(),
                        iter@ == s0.skip(taken as int),
                        settings_run(default_settings(), false, pairs_view(s0)) == after_taken(
                            settings_run(ss@, true, pairs_view(iter@)),
                            taken,
                        ),
                        iter@.len() < cur.len(),
                    decreases iter@.len(),
                {
                    let ghost before = iter@;
                    let ghost t_before = ss@;
                    proof {
                        lemma_geometry_read_len(pairs_view(before));
                        assert(pairs_view(before).len() == before.len());
                    }
                    match SectionGeometrySettings::read(iter) {
                        Err(e) => {
                            return Err(e);
                        },
                        Ok(None) => {
                            break ;
                        },
                        Ok(Some(gs)) => {
                            let ghost k = choose|k: nat|
                                geometry_read(pairs_view(before)) == Ok::<
                                    Option<(GeometryView, nat)>,
                                    u16,
                                >(Some((gs@, k)));
                            ss.geometry_settings.push(gs);
                            proof {
                                assert(ss@.geometry_settings =~= t_before.geometry_settings.push(gs@));
                                assert(ss@ == SettingsView { geometry_settings: t_before.geometry_settings.push(gs@), ..t_before });
                                assert(pairs_view(before).skip(k as int) =~= pairs_view(iter@));
                                taken = taken + k;
                                assert(iter@ =~= s0.skip(taken as int));
                            }
                        },
                    }
                }
            } else if is_settings_field_code(pair.code) {
                ss.apply_pair(&pair)?;
                proof {
                    taken = taken + 1;
                }
            } else {
                // not a code of these settings: leave it for the caller
                iter.put_back(pair);
                assert(iter@ =~= cur);
                return Ok(Some(ss));
            }
        }
    }

    /// Appends the pairs of these settings to `out`.
    pub fn write(&self, out: &mut Vec<CodePair>)
        ensures
            pairs_view(final(out)@) == pairs_view(old(out)@) + settings_pairs(self@),
    {
        let ghost start = old(out)@;
        out.push(CodePair::new_str(1, "SectionTypeSettings"));
        out.push(CodePair::new_i32(90, self.section_type));
        out.push(CodePair::new_i32(91, as_i16(self.is_generation_option) as i32));
        out.push(CodePair::new_i32(92, #[verifier::truncate] (self.source_object_handles.len() as i32)));
        let ghost head = out@;
        assert(pairs_view(head) =~= pairs_view(start) + settings_head_pairs(self@));
        let mut i: usize = 0;
        while i < self.source_object_handles.len()
            invariant
                i <= self.source_object_handles@.len(),
                pairs_view(out@) == pairs_view(head) + source_handle_pairs(
                    self.source_object_handles@.take(i as int),
                ),
            decreases self.source_object_handles@.len() - i,
        {
            let ghost prev = out@;
            out.push(CodePair::new_handle(330, self.source_object_handles[i]));
            proof {
                assert(pairs_view(out@) =~= pairs_view(prev).push(out@.last()@));
                assert(source_handle_pairs(self.source_object_handles@.take(i + 1 as int)) =~= source_handle_pairs(self.source_object_handles@.take(i as int)).push(out@.last()@));
                assert(self.source_object_handles@.take(i + 1 as int) =~= self.source_object_handles@.take(
                    i as int,
                ).push(self.source_object_handles@[i as int]));
                assert(pairs_view(out@) =~= pairs_view(head) + source_handle_pairs(
                    self.source_object_handles@.take(i + 1 as int),
                ));
            }
            i = i + 1;
        }
        assert(self.source_object_handles@.take(i as int) =~= self.source_object_handles@);
        out.push(CodePair::new_handle(331, self.destination_object_handle));
        out.push(CodePair::new_string(1, &self.destination_file_name));
        out.push(CodePair::new_i32(93, #[verifier::truncate] (self.geometry_settings.len() as i32)));
        out.push(CodePair::new_str(2, "SectionGeometrySettings"));
        let ghost mid = out@;
        assert(pairs_view(mid) =~= pairs_view(head) + source_handle_pairs(
            self.source_object_handles@,
        ) + settings_middle_pairs(self@));
        let ghost gviews = self@.geometry_settings;
        let mut j: usize = 0;
        while j < self.geometry_settings.len()
            invariant
                j <= gviews.len(),
                gviews.len() == self.geometry_settings@.len(),
                gviews == self@.geometry_settings,
                pairs_view(out@) == pairs_view(mid) + geometry_list_pairs(gviews.take(j as int)),
            decreases gviews.len() - j,
        {
            self.geometry_settings[j].write(out);
            proof {
                let t = gviews.take(j + 1 as int);
                assert(t.drop_last() =~= gviews.take(j as int));
                assert(t.last() == self.geometry_settings@[j as int]@);
                assert(pairs_view(out@) =~= pairs_view(mid) + geometry_list_pairs(t));
            }
            j = j + 1;
        }
        assert(gviews.take(j as int) =~= gviews);
        let ghost before_end = out@;
        out.push(CodePair::new_str(3, "SectionTypeSettingsEnd"));
        assert(pairs_view(out@) =~= pairs_view(before_end).push(settings_end_pair()));
        assert(pairs_view(out@) =~= pairs_view(start) + settings_pairs(self@));
    }
}

proof fn lemma_geometry_round_trip(g: GeometryView, rest: Seq<PairView>)
    ensures
        geometry_read(geometry_pairs(g) + rest) == Ok::<Option<(GeometryView, nat)>, u16>(
            Some((g, 17)),
        ),
{
    let s = geometry_pairs(g) + rest;
    let w = geometry_pairs(g);
    assert(w.len() == 17);
    assert forall|i: int| 0 <= i < 17 implies s.skip(i)[0] == #[trigger] w[i] by {
        assert(s.skip(i)[0] == s[i]);
    }
    assert forall|i: int| 0 <= i < 16 implies (#[trigger] s.skip(i)).drop_first() == s.skip(i + 1) by {
        assert(s.skip(i).drop_first() =~= s.skip(i + 1));
    }
    assert(s.skip(0) == s) by {
        assert(s.skip(0) =~= s);
    }
    reveal_with_fuel(geometry_run, 18);
}

proof fn lemma_geometry_list_front(gs: Seq<GeometryView>)
    requires
        gs.len() > 0,
    ensures
        geometry_list_pairs(gs) == geometry_pairs(gs[0]) + geometry_list_pairs(gs.drop_first()),
    decreases gs.len(),
{
    if gs.len() == 1 {
        assert(gs.drop_last() =~= Seq::<GeometryView>::empty());
        assert(gs.drop_first() =~= Seq::<GeometryView>::empty());
        assert(geometry_list_pairs(gs) =~= geometry_pairs(gs[0]) + geometry_list_pairs(
            gs.drop_first(),
        ));
    } else {
        let init = gs.drop_last();
        lemma_geometry_list_front(init);
        assert(init.drop_first() =~= gs.drop_first().drop_last());
        assert(gs.drop_first().last() == gs.last());
        assert(init[0] == gs[0]);
        assert(geometry_list_pairs(gs) =~= geometry_pairs(gs[0]) + geometry_list_pairs(
            gs.drop_first(),
        ));
    }
}

proof fn lemma_geometry_list_round_trip(t: SettingsView, gs: Seq<GeometryView>, tail: Seq<PairView>)
    requires
        tail.len() > 0,
        !is_geometry_code(tail[0].code),
    ensures
        settings_run(t, true, geometry_list_pairs(gs) + tail) == after_taken(
            settings_run(
                SettingsView { geometry_settings: t.geometry_settings + gs, ..t },
                true,
                tail,
            ),
            geometry_list_pairs(gs).len(),
        ),
    decreases gs.len(),
{
    if gs.len() == 0 {
        assert(geometry_list_pairs(gs) + tail =~= tail);
        assert(t.geometry_settings + gs =~= t.geometry_settings);
        assert(SettingsView { geometry_settings: t.geometry_settings + gs, ..t } == t);
        match settings_run(t, true, tail) {
            Ok((a, b)) => {},
            Err(_) => {},
        }
    } else {
        lemma_geometry_list_front(gs);
        let later = geometry_list_pairs(gs.drop_first()) + tail;
        let s = geometry_list_pairs(gs) + tail;
        assert(s =~= geometry_pairs(gs[0]) + later);
        lemma_geometry_round_trip(gs[0], later);
        assert(s.skip(17) =~= later);
        let t1 = SettingsView { geometry_settings: t.geometry_settings.push(gs[0]), ..t };
        lemma_geometry_list_round_trip(t1, gs.drop_first(), tail);
        assert(t1.geometry_settings + gs.drop_first() =~= t.geometry_settings + gs);
    }
}

proof fn lemma_handles_round_trip(t: SettingsView, hs: Seq<u64>, tail: Seq<PairView>)
    ensures
        settings_run(t, false, source_handle_pairs(hs) + tail) == after_taken(
            settings_run(
                SettingsView { source_object_handles: t.source_object_handles + hs, ..t },
                false,
                tail,
            ),
            hs.len(),
        ),
    decreases hs.len(),
{
    if hs.len() == 0 {
        assert(source_handle_pairs(hs) + tail =~= tail);
        assert(t.source_object_handles + hs =~= t.source_object_handles);
        assert(SettingsView { source_object_handles: t.source_object_handles + hs, ..t } == t);
        match settings_run(t, false, tail) {
            Ok((a, b)) => {},
            Err(_) => {},
        }
    } else {
        let s = source_handle_pairs(hs) + tail;
        assert(s.drop_first() =~= source_handle_pairs(hs.drop_first()) + tail);
        assert(s[0] == PairView { code: 330, value: ValueView::Handle(hs[0]) });
        let t1 = SettingsView { source_object_handles: t.source_object_handles.push(hs[0]), ..t };
        lemma_handles_round_trip(t1, hs.drop_first(), tail);
        assert(t1.source_object_handles + hs.drop_first() =~= t.source_object_handles + hs);
    }
}

proof fn lemma_settings_step(t: SettingsView, s: Seq<PairView>, t2: SettingsView)
    requires
        s.len() > 0,
        s[0].code != 0,
        s[0].code != GEOMETRY_LIST_CODE,
        is_settings_code(s[0].code),
        apply_settings_pair(t, s[0]) == Ok::<SettingsView, u16>(t2),
    ensures
        settings_run(t, false, s) == after_taken(settings_run(t2, false, s.drop_first()), 1),
{
}

/// Reading back what was written: the pairs written for any section type
/// settings, followed by the end of the stream or a pair of code 0, read as
/// those same settings, taking exactly the pairs written.
#[verifier::rlimit(50)]
pub proof fn lemma_settings_round_trip(t: SettingsView, rest: Seq<PairView>)
    requires
        rest.len() == 0 || rest[0].code == 0,
    ensures
        settings_read(settings_pairs(t) + rest) == Ok::<Option<(SettingsView, nat)>, u16>(
            Some((t, settings_pairs(t).len())),
        ),
{
    let head = settings_head_pairs(t);
    let hp = source_handle_pairs(t.source_object_handles);
    let mid = settings_middle_pairs(t);
    let gp = geometry_list_pairs(t.geometry_settings);
    let end = seq![settings_end_pair()] + rest;
    let x = settings_pairs(t) + rest;
    let after_mid = gp + end;
    let after_hp = mid + after_mid;
    let after_head = hp + after_hp;
    assert(x =~= head + after_head);
    let n = x.len();
    // the fields before the source objects
    let t1 = SettingsView { destination_file_name: "SectionTypeSettings"@, ..default_settings() };
    let t2 = SettingsView { section_type: t.section_type, ..t1 };
    let t3 = SettingsView { is_generation_option: t.is_generation_option, ..t2 };
    let x1 = x.drop_first();
    let x2 = x1.drop_first();
    let x3 = x2.drop_first();
    assert(x[0] == head[0]);
    assert(x1[0] == head[1]);
    assert(x2[0] == head[2]);
    assert(x3[0] == head[3]);
    assert(x3.drop_first() =~= after_head);
    assert(((if t.is_generation_option { 1i32 } else { 0i32 }) as i16 != 0) == t.is_generation_option);
    lemma_settings_step(default_settings(), x, t1);
    lemma_settings_step(t1, x1, t2);
    lemma_settings_step(t2, x2, t3);
    lemma_settings_step(t3, x3, t3);
    // the source objects
    lemma_handles_round_trip(t3, t.source_object_handles, after_hp);
    let t4 = SettingsView {
        source_object_handles: t3.source_object_handles + t.source_object_handles,
        ..t3
    };
    // the fields after them, up to the list of geometry settings
    let t5 = SettingsView { destination_object_handle: t.destination_object_handle, ..t4 };
    let t6 = SettingsView { destination_file_name: t.destination_file_name, ..t5 };
    let y1 = after_hp.drop_first();
    let y2 = y1.drop_first();
    let y3 = y2.drop_first();
    assert(after_hp[0] == mid[0]);
    assert(y1[0] == mid[1]);
    assert(y2[0] == mid[2]);
    assert(y3[0] == mid[3]);
    assert(y3.drop_first() =~= after_mid);
    lemma_settings_step(t4, after_hp, t5);
    lemma_settings_step(t5, y1, t6);
    lemma_settings_step(t6, y2, t6);
    assert(settings_run(t6, false, y3) == after_taken(settings_run(t6, true, after_mid), 1));
    // the list of geometry settings
    lemma_geometry_list_round_trip(t6, t.geometry_settings, end);
    let t7 = SettingsView { geometry_settings: t6.geometry_settings + t.geometry_settings, ..t6 };
    assert(t7.geometry_settings =~= t.geometry_settings);
    assert(t4.source_object_handles =~= t.source_object_handles);
    assert(t7 == t);
    // the end marker, then nothing more to read
    assert(end.drop_first() =~= rest);
    assert(geometry_read(end) == Ok::<Option<(GeometryView, nat)>, u16>(None));
    lemma_settings_step(t, end, t);
    assert(settings_run(t, false, rest) == Ok::<(SettingsView, nat), u16>((t, 0)));
    assert(settings_run(t, true, end) == Ok::<(SettingsView, nat), u16>((t, 1)));
    assert(x.len() == settings_pairs(t).len() + rest.len());
    assert(settings_pairs(t).len() == 4 + hp.len() + 4 + gp.len() + 1);
    assert(hp.len() == t.source_object_handles.len());
}

} // verus!
