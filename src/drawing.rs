use vstd::prelude::*;
use crate::code_pair::{CodePair, CodePairValue, DxfError, PairView, ValueView, pairs_view};
use crate::pair_stream::PairStream;
use crate::section;
use crate::section::{
    Object,
    ObjectKind,
    ObjectView,
    is_text,
    kind_names,
    objects_view,
    read_objects_section,
    section_run,
    value_is_text,
};
use crate::tokenizer::{pairs_of, read_pairs};
use crate::schema::{acadver_of_version, acadver_text, parse_acadver, version_of_acadver};
use crate::version::{AcadVersion, version_in_range, version_rank};

verus! {

/// A drawing: the release it targets and its objects, in order.
#[derive(Clone, Debug, PartialEq)]
pub struct Drawing {
    pub version: AcadVersion,
    pub objects: Vec<Object>,
}

/// Reading of a drawing's pairs `s` after the objects `os`: the objects of
/// every OBJECTS section, in order. A `(0, SECTION)` followed by
/// `(2, OBJECTS)` starts such a section; reading ends at `(0, EOF)` or at the
/// end of the pairs; every other pair is passed over.
pub open spec fn drawing_run(kinds: Seq<Seq<char>>, os: Seq<ObjectView>, s: Seq<PairView>) -> Result<
    Seq<ObjectView>,
    u16,
>
    decreases s.len(),
{
    if s.len() == 0 {
        Ok(os)
    } else if s[0].code == 0 && is_text(s[0].value, "EOF"@) {
        Ok(os)
    } else if s.len() > 1 && s[0].code == 0 && is_text(s[0].value, "SECTION"@) && s[1].code == 2
        && is_text(s[1].value, "OBJECTS"@) {
        match section_run(kinds, Seq::empty(), s.skip(2)) {
            Ok((os2, k)) => if k <= s.len() - 2 {
                drawing_run(kinds, os + os2, s.skip(2 + k as int))
            } else {
                Ok(os + os2)
            },
            Err(c) => Err(c),
        }
    } else {
        drawing_run(kinds, os, s.drop_first())
    }
}

/// The objects that an ASCII drawing `b` holds, of the types that `kinds`
/// names, or the error that stops reading.
pub open spec fn drawing_objects(kinds: Seq<Seq<char>>, b: Seq<u8>) -> Result<Seq<ObjectView>, DxfError> {
    match pairs_of(b) {
        Err(e) => Err(e),
        Ok(ps) => match drawing_run(kinds, Seq::empty(), ps) {
            Ok(os) => Ok(os),
            Err(c) => Err(DxfError::WrongValueType(c)),
        },
    }
}

/// The release that the first `$ACADVER` header variable of `ps` names:
/// a `(9, $ACADVER)` pair followed by a `(1, text)` pair whose text is that of
/// a release.
pub open spec fn header_version(ps: Seq<PairView>) -> Option<AcadVersion>
    decreases ps.len(),
{
    if ps.len() < 2 {
        None
    } else {
        let here = if ps[0].code == 9 && is_text(ps[0].value, "$ACADVER"@) && ps[1].code == 1 {
            match ps[1].value {
                ValueView::Str(t) => version_of_acadver(t),
                _ => None,
            }
        } else {
            None
        };
        if here is Some {
            here
        } else {
            header_version(ps.drop_first())
        }
    }
}

/// The release of an ASCII drawing `b`: the one its header names, else
/// `fallback`.
pub open spec fn drawing_version(b: Seq<u8>, fallback: AcadVersion) -> AcadVersion {
    match pairs_of(b) {
        Ok(ps) => match header_version(ps) {
            Some(v) => v,
            None => fallback,
        },
        Err(_) => fallback,
    }
}

/// Whether some entry of `kinds` names type `name` and admits release `v`.
pub open spec fn kind_allows(kinds: Seq<ObjectKind>, name: Seq<char>, v: AcadVersion) -> bool {
    exists|i: int|
        0 <= i < kinds.len() && (#[trigger] kinds[i]).object_type@ == name && version_in_range(
            v,
            kinds[i].min_version,
            kinds[i].max_version,
        )
}

/// The pairs written for object `o`: its type, its handle, its owner's
/// handle and its other pairs.
pub open spec fn object_pairs(o: ObjectView) -> Seq<PairView> {
    seq![
        PairView { code: 0, value: ValueView::Str(o.object_type) },
        PairView { code: 5, value: ValueView::Handle(o.handle) },
        PairView { code: 330, value: ValueView::Handle(o.owner_handle) },
    ] + o.pairs
}

/// The pairs written for objects `os` at release `v`: an object whose type
/// the release cannot hold is left out.
pub open spec fn objects_pairs(kinds: Seq<ObjectKind>, v: AcadVersion, os: Seq<ObjectView>) -> Seq<
    PairView,
>
    decreases os.len(),
{
    if os.len() == 0 {
        Seq::empty()
    } else {
        objects_pairs(kinds, v, os.drop_last()) + if kind_allows(kinds, os.last().object_type, v) {
            object_pairs(os.last())
        } else {
            Seq::empty()
        }
    }
}

/// The pairs of the OBJECTS section at release `v`.
pub open spec fn objects_section_pairs(
    kinds: Seq<ObjectKind>,
    v: AcadVersion,
    os: Seq<ObjectView>,
) -> Seq<PairView> {
    seq![
        PairView { code: 0, value: ValueView::Str("SECTION"@) },
        PairView { code: 2, value: ValueView::Str("OBJECTS"@) },
    ] + objects_pairs(kinds, v, os) + seq![PairView { code: 0, value: ValueView::Str("ENDSEC"@) }]
}

/// The HEADER section written for release `v`: the `$ACADVER` variable.
pub open spec fn header_pairs(v: AcadVersion) -> Seq<PairView> {
    seq![
        PairView { code: 0, value: ValueView::Str("SECTION"@) },
        PairView { code: 2, value: ValueView::Str("HEADER"@) },
        PairView { code: 9, value: ValueView::Str("$ACADVER"@) },
        PairView { code: 1, value: ValueView::Str(acadver_of_version(v)) },
        PairView { code: 0, value: ValueView::Str("ENDSEC"@) },
    ]
}

/// The pairs written for a drawing of release `v` with objects `os`: the
/// HEADER section, the OBJECTS section from R13 on, then the end of file.
pub open spec fn drawing_pairs(kinds: Seq<ObjectKind>, v: AcadVersion, os: Seq<ObjectView>) -> Seq<
    PairView,
> {
    header_pairs(v) + (if version_rank(v) >= version_rank(AcadVersion::R13) {
        objects_section_pairs(kinds, v, os)
    } else {
        Seq::empty()
    }) + seq![PairView { code: 0, value: ValueView::Str("EOF"@) }]
}

impl Drawing {
    /// Reads an ASCII drawing: its release from the `$ACADVER` header
    /// variable (`fallback` where there is none), and its objects of the types
    /// that `kinds` names.
    #[verifier::loop_isolation(false)]
    pub fn read(b: &[u8], kinds: &Vec<ObjectKind>, fallback: AcadVersion) -> (r: Result<
        Drawing,
        DxfError,
    >)
        ensures
            match drawing_objects(kind_names(kinds@), b@) {
                Ok(os) => r matches Ok(d) && objects_view(d.objects@) == os && d.version
                    == drawing_version(b@, fallback),
                Err(e) => r == Err::<Drawing, DxfError>(e),
            },
    {
        let pairs = read_pairs(b)?;
        let ghost names = kind_names(kinds@);
        let ghost s0 = pairs_view(pairs@);
        assert(s0 =~= crate::tokenizer::views_of(pairs@));
        let version = match find_header_version(&pairs) {
            Some(v) => v,
            None => fallback,
        };
        let mut iter = PairStream::from_pairs(pairs);
        let mut objects: Vec<Object> = Vec::new();
        proof {
            assert(objects_view(objects@) =~= Seq::<ObjectView>::empty());
        }
        loop
            invariant
                iter@.len() <= s0.len(),
                drawing_run(names, Seq::empty(), s0) == drawing_run(
                    names,
                    objects_view(objects@),
                    pairs_view(iter@),
                ),
            decreases iter@.len(),
        {
            let ghost cur = pairs_view(iter@);
            let ghost os = objects_view(objects@);
            proof {
                assert(cur.len() == iter@.len());
                if iter@.len() > 0 {
                    assert(cur[0] == iter@[0]@);
                    assert(cur.drop_first() =~= pairs_view(iter@.drop_first()));
                }
                if iter@.len() > 1 {
                    assert(cur[1] == iter@[1]@);
                    assert(cur.skip(2) =~= pairs_view(iter@.skip(2)));
                }
            }
            let pair = match iter.next_pair() {
                None => {
                    return Ok(Drawing { version, objects });
                },
                Some(p) => p,
            };
            if pair.code == 0 && value_is_text(&pair.value, "EOF") {
                return Ok(Drawing { version, objects });
            }
            if pair.code == 0 && value_is_text(&pair.value, "SECTION") {
                let ghost after_first = iter@;
                match iter.next_pair() {
                    None => {
                        assert(cur.drop_first().len() == 0);
                        assert(drawing_run(names, os, cur.drop_first()) == Ok::<Seq<ObjectView>, u16>(os));
                        return Ok(Drawing { version, objects });
                    },
                    Some(name) => {
                        if name.code == 2 && value_is_text(&name.value, "OBJECTS") {
                            proof {
                                assert(iter@ =~= after_first.drop_first());
                            }
                            let ghost at = iter@;
                            assert(name@ == cur[1]);
                            assert(pairs_view(at) =~= cur.skip(2));
                            let mut found = match read_objects_section(&mut iter, kinds) {
                                Ok(found) => found,
                                Err(e) => {
                                    assert(drawing_run(names, os, cur) is Err);
                                    return Err(e);
                                },
                            };
                            proof {
                                assert(pairs_view(at) =~= cur.skip(2));
                                let k = (at.len() - iter@.len()) as nat;
                                assert(at.skip(k as int) =~= iter@);
                                assert(cur.skip(2 + k as int) =~= pairs_view(iter@));
                            }
                            let ghost found_view = objects_view(found@);
                            objects.append(&mut found);
                            proof {
                                assert(objects_view(objects@) =~= os + found_view);
                            }
                        } else {
                            iter.put_back(name);
                            proof {
                                assert(iter@ =~= after_first);
                            }
                        }
                    },
                }
            }
        }
    }
}

/// Whether some entry of `kinds` names type `name` and admits release `v`.
pub fn kind_admits(kinds: &Vec<ObjectKind>, name: &String, v: AcadVersion) -> (r: bool)
    ensures
        r == kind_allows(kinds@, name@, v),
{
    let mut i: usize = 0;
    while i < kinds.len()
        invariant
            i <= kinds@.len(),
            forall|j: int|
                0 <= j < i ==> !((#[trigger] kinds@[j]).object_type@ == name@ && version_in_range(
                    v,
                    kinds@[j].min_version,
                    kinds@[j].max_version,
                )),
        decreases kinds@.len() - i,
    {
        let k = &kinds[i];
        if k.object_type.eq(name) && crate::version::is_version_in_range(
            v,
            k.min_version,
            k.max_version,
        ) {
            return true;
        }
        i = i + 1;
    }
    false
}

impl Object {
    /// Appends the pairs of this object to `out`: its type, its handle, its
    /// owner's handle and its other pairs.
    pub fn write(&self, out: &mut Vec<CodePair>)
        ensures
            pairs_view(final(out)@) == pairs_view(old(out)@) + object_pairs(self@),
    {
        let ghost start = out@;
        out.push(CodePair::new_string(0, &self.object_type));
        out.push(CodePair::new_handle(5, self.handle));
        out.push(CodePair::new_handle(330, self.owner_handle));
        let ghost head = out@;
        assert(pairs_view(head) =~= pairs_view(start) + object_pairs(self@).take(3));
        let mut i: usize = 0;
        while i < self.pairs.len()
            invariant
                i <= self.pairs@.len(),
                pairs_view(out@) == pairs_view(head) + pairs_view(self.pairs@.take(i as int)),
            decreases self.pairs@.len() - i,
        {
            let ghost prev = out@;
            out.push(self.pairs[i].duplicate());
            proof {
                assert(pairs_view(out@) =~= pairs_view(prev).push(self.pairs@[i as int]@));
                assert(pairs_view(self.pairs@.take(i + 1 as int)) =~= pairs_view(self.pairs@.take(i as int)).push(self.pairs@[i as int]@));
            }
            i = i + 1;
        }
        assert(self.pairs@.take(i as int) =~= self.pairs@);
        assert(pairs_view(out@) =~= pairs_view(start) + object_pairs(self@));
    }
}

impl Drawing {
    /// The pairs of this drawing: from R13 on an OBJECTS section with each
    /// object whose type `kinds` admits at the drawing's release, then the end
    /// of file.
    pub fn to_pairs(&self, kinds: &Vec<ObjectKind>) -> (r: Vec<CodePair>)
        ensures
            pairs_view(r@) == drawing_pairs(kinds@, self.version, objects_view(self.objects@)),
    {
        let mut out: Vec<CodePair> = Vec::new();
        let ghost os = objects_view(self.objects@);
        out.push(CodePair::new_str(0, "SECTION"));
        out.push(CodePair::new_str(2, "HEADER"));
        out.push(CodePair::new_str(9, "$ACADVER"));
        out.push(CodePair::new_str(1, acadver_text(self.version)));
        out.push(CodePair::new_str(0, "ENDSEC"));
        let ghost header = out@;
        assert(pairs_view(header) =~= header_pairs(self.version));
        if self.version.at_least(AcadVersion::R13) {
            out.push(CodePair::new_str(0, "SECTION"));
            out.push(CodePair::new_str(2, "OBJECTS"));
            let ghost head = out@;
            assert(pairs_view(head) =~= header_pairs(self.version) + seq![
                PairView { code: 0, value: ValueView::Str("SECTION"@) },
                PairView { code: 2, value: ValueView::Str("OBJECTS"@) },
            ]);
            let mut i: usize = 0;
            while i < self.objects.len()
                invariant
                    i <= self.objects@.len(),
                    os == objects_view(self.objects@),
                    pairs_view(out@) == pairs_view(head) + objects_pairs(
                        kinds@,
                        self.version,
                        os.take(i as int),
                    ),
                decreases self.objects@.len() - i,
            {
                let o = &self.objects[i];
                proof {
                    let t = os.take(i + 1 as int);
                    assert(t.drop_last() =~= os.take(i as int));
                    assert(t.last() == o@);
                }
                if kind_admits(kinds, &o.object_type, self.version) {
                    o.write(&mut out);
                } else {
                    assert(pairs_view(out@) =~= pairs_view(out@) + Seq::<PairView>::empty());
                }
                proof {
                    let t = os.take(i + 1 as int);
                    assert(pairs_view(out@) =~= pairs_view(head) + objects_pairs(kinds@, self.version, t));
                }
                i = i + 1;
            }
            assert(os.take(i as int) =~= os);
            let ghost body = out@;
            out.push(CodePair::new_str(0, "ENDSEC"));
            assert(pairs_view(out@) =~= pairs_view(body).push(pairs_view(out@).last()));
            assert(pairs_view(out@) =~= header_pairs(self.version) + objects_section_pairs(
                kinds@,
                self.version,
                os,
            ));
        } else {
            assert(pairs_view(out@) =~= header_pairs(self.version) + Seq::<PairView>::empty());
        }
        let ghost sec = out@;
        out.push(CodePair::new_str(0, "EOF"));
        assert(pairs_view(out@) =~= pairs_view(sec).push(pairs_view(out@).last()));
        assert(pairs_view(out@) =~= drawing_pairs(kinds@, self.version, os));
        out
    }

    /// The ASCII text of this drawing.
    pub fn to_text(&self, kinds: &Vec<ObjectKind>) -> (r: String)
        ensures
            r@ == crate::writer::pairs_text(
                drawing_pairs(kinds@, self.version, objects_view(self.objects@)),
            ),
    {
        let pairs = self.to_pairs(kinds);
        assert(pairs@.map_values(|p: CodePair| p@) =~= pairs_view(pairs@));
        crate::writer::write_pairs(&pairs)
    }
}

/// Version gating on write: every `(0, type)` pair written for objects
/// names a type that the schema admits at the drawing's release, so no object
/// whose type's range of releases ends before it (or starts after it)
/// appears in the output.
pub proof fn lemma_written_types_admitted(kinds: Seq<ObjectKind>, v: AcadVersion, os: Seq<ObjectView>)
    requires
        forall|i: int, j: int|
            0 <= i < os.len() && 0 <= j < os[i].pairs.len() ==> (#[trigger] os[i].pairs[j]).code
                != 0,
    ensures
        forall|i: int|
            0 <= i < objects_pairs(kinds, v, os).len() && (#[trigger] objects_pairs(
                kinds,
                v,
                os,
            )[i]).code == 0 ==> (objects_pairs(kinds, v, os)[i].value matches ValueView::Str(
                name,
            ) && kind_allows(kinds, name, v)),
    decreases os.len(),
{
    if os.len() > 0 {
        let init = os.drop_last();
        assert forall|i: int, j: int|
            0 <= i < init.len() && 0 <= j < init[i].pairs.len() implies (
            #[trigger] init[i].pairs[j]).code != 0 by {
            assert(init[i] == os[i]);
        }
        lemma_written_types_admitted(kinds, v, init);
        let p = objects_pairs(kinds, v, init);
        let last = os.last();
        let all = objects_pairs(kinds, v, os);
        assert forall|i: int| 0 <= i < all.len() && (#[trigger] all[i]).code == 0 implies (
        all[i].value matches ValueView::Str(name) && kind_allows(kinds, name, v)) by {
            if i < p.len() {
                assert(all[i] == p[i]);
            } else {
                let t = object_pairs(last);
                assert(kind_allows(kinds, last.object_type, v));
                assert(all[i] == t[i - p.len()]);
                if i - p.len() >= 3 {
                    assert(t[i - p.len()] == last.pairs[i - p.len() - 3]);
                    assert(os[os.len() - 1].pairs[i - p.len() - 3].code != 0);
                }
            }
        }
    }
}

/// The objects of `os` that release `v` can hold, in order.
pub open spec fn admitted_objects(kinds: Seq<ObjectKind>, v: AcadVersion, os: Seq<ObjectView>) -> Seq<
    ObjectView,
>
    decreases os.len(),
{
    if os.len() == 0 {
        Seq::empty()
    } else {
        admitted_objects(kinds, v, os.drop_last()) + if kind_allows(kinds, os.last().object_type, v) {
            seq![os.last()]
        } else {
            Seq::empty()
        }
    }
}

/// Whether the pairs of an object are ones that reading keeps as they are:
/// none of code 0, 5 or 330.
pub open spec fn plain_pairs(ps: Seq<PairView>) -> bool {
    forall|j: int| 0 <= j < ps.len() ==> (#[trigger] ps[j]).code != 0 && ps[j].code != 5 && ps[j].code != 330
}

proof fn lemma_objects_front(kinds: Seq<ObjectKind>, v: AcadVersion, os: Seq<ObjectView>)
    requires
        os.len() > 0,
    ensures
        objects_pairs(kinds, v, os) == (if kind_allows(kinds, os[0].object_type, v) {
            object_pairs(os[0])
        } else {
            Seq::empty()
        }) + objects_pairs(kinds, v, os.drop_first()),
        admitted_objects(kinds, v, os) == (if kind_allows(kinds, os[0].object_type, v) {
            seq![os[0]]
        } else {
            Seq::empty()
        }) + admitted_objects(kinds, v, os.drop_first()),
    decreases os.len(),
{
    if os.len() == 1 {
        assert(os.drop_last() =~= Seq::<ObjectView>::empty());
        assert(os.drop_first() =~= Seq::<ObjectView>::empty());
        assert(objects_pairs(kinds, v, os) =~= (if kind_allows(kinds, os[0].object_type, v) {
            object_pairs(os[0])
        } else {
            Seq::empty()
        }) + objects_pairs(kinds, v, os.drop_first()));
        assert(admitted_objects(kinds, v, os) =~= (if kind_allows(kinds, os[0].object_type, v) {
            seq![os[0]]
        } else {
            Seq::empty()
        }) + admitted_objects(kinds, v, os.drop_first()));
    } else {
        let init = os.drop_last();
        lemma_objects_front(kinds, v, init);
        assert(init.drop_first() =~= os.drop_first().drop_last());
        assert(os.drop_first().last() == os.last());
        assert(init[0] == os[0]);
        assert(objects_pairs(kinds, v, os) =~= (if kind_allows(kinds, os[0].object_type, v) {
            object_pairs(os[0])
        } else {
            Seq::empty()
        }) + objects_pairs(kinds, v, os.drop_first()));
        assert(admitted_objects(kinds, v, os) =~= (if kind_allows(kinds, os[0].object_type, v) {
            seq![os[0]]
        } else {
            Seq::empty()
        }) + admitted_objects(kinds, v, os.drop_first()));
    }
}

proof fn lemma_body_round_trip(o: ObjectView, ps: Seq<PairView>, tail: Seq<PairView>)
    requires
        plain_pairs(ps),
        tail.len() == 0 || tail[0].code == 0,
    ensures
        section::object_run(o, ps + tail) == Ok::<(ObjectView, nat), u16>(
            (ObjectView { pairs: o.pairs + ps, ..o }, ps.len()),
        ),
    decreases ps.len(),
{
    if ps.len() == 0 {
        assert(ps + tail =~= tail);
        assert(o.pairs + ps =~= o.pairs);
    } else {
        let o2 = ObjectView { pairs: o.pairs.push(ps[0]), ..o };
        assert((ps + tail).drop_first() =~= ps.drop_first() + tail);
        assert((ps + tail)[0] == ps[0]);
        lemma_body_round_trip(o2, ps.drop_first(), tail);
        assert(o2.pairs + ps.drop_first() =~= o.pairs + ps);
    }
}

proof fn lemma_object_round_trip(
    names: Seq<Seq<char>>,
    acc: Seq<ObjectView>,
    o: ObjectView,
    tail: Seq<PairView>,
)
    requires
        names.contains(o.object_type),
        o.object_type != "ENDSEC"@,
        plain_pairs(o.pairs),
        tail.len() > 0 && tail[0].code == 0,
    ensures
        section_run(names, acc, object_pairs(o) + tail) == crate::section::after_section_taken(
            section_run(names, acc.push(o), tail),
            object_pairs(o).len(),
        ),
{
    let s = object_pairs(o) + tail;
    let rest = s.drop_first();
    let body = seq![
        PairView { code: 5, value: ValueView::Handle(o.handle) },
        PairView { code: 330, value: ValueView::Handle(o.owner_handle) },
    ];
    assert(rest =~= body + (o.pairs + tail));
    let e = section::empty_object(o.object_type);
    let e1 = ObjectView { handle: o.handle, ..e };
    let e2 = ObjectView { owner_handle: o.owner_handle, ..e1 };
    assert(rest.drop_first().drop_first() =~= o.pairs + tail);
    lemma_body_round_trip(e2, o.pairs, tail);
    assert(e2.pairs + o.pairs =~= o.pairs);
    assert(ObjectView { pairs: e2.pairs + o.pairs, ..e2 } == o);
    assert(rest[0] == body[0]);
    assert(rest.drop_first()[0] == body[1]);
    assert(section::apply_object_pair(e, rest[0]) == Ok::<ObjectView, u16>(e1));
    assert(section::apply_object_pair(e1, rest.drop_first()[0]) == Ok::<ObjectView, u16>(e2));
    assert(section::object_run(e2, rest.drop_first().drop_first()) == Ok::<(ObjectView, nat), u16>(
        (o, o.pairs.len()),
    ));
    assert(section::object_run(e1, rest.drop_first()) == Ok::<(ObjectView, nat), u16>(
        (o, o.pairs.len() + 1),
    ));
    assert(section::object_run(e, rest) == Ok::<(ObjectView, nat), u16>((o, o.pairs.len() + 2)));
    assert(rest.skip(o.pairs.len() + 2 as int) =~= tail);
    assert(!is_text(s[0].value, "ENDSEC"@));
}

/// Reading back what was written: reading the objects part of a written
/// OBJECTS section gives the objects that the release admits, in order,
/// taking every written pair through the closing `(0, ENDSEC)`. The objects
/// are ones that reading could give: their pairs hold no code 0, 5 or 330,
/// and no type is named `ENDSEC`.
pub proof fn lemma_objects_round_trip(
    kinds: Seq<ObjectKind>,
    v: AcadVersion,
    os: Seq<ObjectView>,
    rest: Seq<PairView>,
)
    requires
        forall|i: int| 0 <= i < os.len() ==> plain_pairs((#[trigger] os[i]).pairs),
        forall|i: int| 0 <= i < os.len() ==> (#[trigger] os[i]).object_type != "ENDSEC"@,
    ensures
        section_run(
            kind_names(kinds),
            Seq::empty(),
            objects_pairs(kinds, v, os) + seq![PairView { code: 0, value: ValueView::Str("ENDSEC"@) }]
                + rest,
        ) == Ok::<(Seq<ObjectView>, nat), u16>(
            (admitted_objects(kinds, v, os), objects_pairs(kinds, v, os).len() + 1),
        ),
{
    let tail = seq![PairView { code: 0, value: ValueView::Str("ENDSEC"@) }] + rest;
    lemma_objects_round_trip_from(kinds, v, Seq::empty(), os, tail);
    assert(objects_pairs(kinds, v, os) + seq![PairView { code: 0, value: ValueView::Str("ENDSEC"@) }]
        + rest =~= objects_pairs(kinds, v, os) + tail);
    assert(Seq::<ObjectView>::empty() + admitted_objects(kinds, v, os) =~= admitted_objects(kinds, v, os));
}

proof fn lemma_objects_round_trip_from(
    kinds: Seq<ObjectKind>,
    v: AcadVersion,
    acc: Seq<ObjectView>,
    os: Seq<ObjectView>,
    tail: Seq<PairView>,
)
    requires
        forall|i: int| 0 <= i < os.len() ==> plain_pairs((#[trigger] os[i]).pairs),
        forall|i: int| 0 <= i < os.len() ==> (#[trigger] os[i]).object_type != "ENDSEC"@,
        tail.len() > 0 && tail[0].code == 0 && is_text(tail[0].value, "ENDSEC"@),
    ensures
        section_run(kind_names(kinds), acc, objects_pairs(kinds, v, os) + tail)
            == Ok::<(Seq<ObjectView>, nat), u16>(
            (acc + admitted_objects(kinds, v, os), objects_pairs(kinds, v, os).len() + 1),
        ),
    decreases os.len(),
{
    let names = kind_names(kinds);
    if os.len() == 0 {
        assert(objects_pairs(kinds, v, os) + tail =~= tail);
        assert(acc + admitted_objects(kinds, v, os) =~= acc);
    } else {
        lemma_objects_front(kinds, v, os);
        let o = os[0];
        let later = os.drop_first();
        assert forall|i: int| 0 <= i < later.len() implies plain_pairs((#[trigger] later[i]).pairs)
            && later[i].object_type != "ENDSEC"@ by {
            assert(later[i] == os[i + 1]);
        }
        if kind_allows(kinds, o.object_type, v) {
            let i = choose|i: int|
                0 <= i < kinds.len() && (#[trigger] kinds[i]).object_type@ == o.object_type
                    && version_in_range(v, kinds[i].min_version, kinds[i].max_version);
            assert(names[i] == o.object_type);
            assert(objects_pairs(kinds, v, os) + tail =~= object_pairs(o) + (objects_pairs(
                kinds,
                v,
                later,
            ) + tail));
            let next = objects_pairs(kinds, v, later) + tail;
            assert(next[0].code == 0) by {
                if objects_pairs(kinds, v, later).len() > 0 {
                    lemma_objects_starts_with_type(kinds, v, later);
                }
            }
            lemma_object_round_trip(names, acc, o, next);
            lemma_objects_round_trip_from(kinds, v, acc.push(o), later, tail);
            assert(acc.push(o) + admitted_objects(kinds, v, later) =~= acc + admitted_objects(
                kinds,
                v,
                os,
            ));
        } else {
            assert(objects_pairs(kinds, v, os) + tail =~= objects_pairs(kinds, v, later) + tail);
            lemma_objects_round_trip_from(kinds, v, acc, later, tail);
            assert(admitted_objects(kinds, v, os) =~= admitted_objects(kinds, v, later));
        }
    }
}

proof fn lemma_objects_starts_with_type(kinds: Seq<ObjectKind>, v: AcadVersion, os: Seq<ObjectView>)
    requires
        objects_pairs(kinds, v, os).len() > 0,
    ensures
        objects_pairs(kinds, v, os)[0].code == 0,
    decreases os.len(),
{
    lemma_objects_front(kinds, v, os);
    if !kind_allows(kinds, os[0].object_type, v) {
        assert(objects_pairs(kinds, v, os) =~= objects_pairs(kinds, v, os.drop_first()));
        lemma_objects_starts_with_type(kinds, v, os.drop_first());
    }
}

/// The release that the first `$ACADVER` header variable of `pairs` names.
pub fn find_header_version(pairs: &Vec<CodePair>) -> (r: Option<AcadVersion>)
    ensures
        r == header_version(pairs_view(pairs@)),
{
    let ghost s0 = pairs_view(pairs@);
    let mut i: usize = 0;
    assert(s0.skip(0) =~= s0);
    while i < pairs.len() && i + 1 < pairs.len()
        invariant
            i <= pairs@.len(),
            s0 == pairs_view(pairs@),
            header_version(s0) == header_version(s0.skip(i as int)),
        decreases pairs@.len() - i,
    {
        let ghost cur = s0.skip(i as int);
        proof {
            assert(s0.len() == pairs@.len());
            assert(cur[0] == pairs@[i as int]@);
            assert(cur[1] == pairs@[i + 1]@);
            assert(cur.drop_first() =~= s0.skip(i + 1 as int));
        }
        let p = &pairs[i];
        let q = &pairs[i + 1];
        if p.code == 9 && value_is_text(&p.value, "$ACADVER") && q.code == 1 {
            if let CodePairValue::Str(t) = &q.value {
                let found = parse_acadver(t);
                if found.is_some() {
                    return found;
                }
            }
        }
        i = i + 1;
    }
    proof {
        assert(s0.len() == pairs@.len());
        assert(s0.skip(i as int).len() < 2);
    }
    None
}

/// The largest handle among objects `os` (zero where there is none).
pub open spec fn max_handle(os: Seq<ObjectView>) -> nat
    decreases os.len(),
{
    if os.len() == 0 {
        0
    } else if os.last().handle as nat > max_handle(os.drop_last()) {
        os.last().handle as nat
    } else {
        max_handle(os.drop_last())
    }
}

/// How many of the first `i` objects of `os` have no handle.
pub open spec fn unhandled_before(os: Seq<ObjectView>, i: int) -> nat
    decreases i,
{
    if i <= 0 {
        0
    } else {
        unhandled_before(os, i - 1) + if os[i - 1].handle == 0 {
            1nat
        } else {
            0nat
        }
    }
}

/// The handle of object `i` of `os` after handles are given out: its own,
/// or for one without, the next free handle above all others, in order.
pub open spec fn handle_after_fixup(os: Seq<ObjectView>, i: int) -> nat {
    if os[i].handle != 0 {
        os[i].handle as nat
    } else {
        max_handle(os) + 1 + unhandled_before(os, i)
    }
}

impl Drawing {
    /// Gives every object without a handle (handle 0) one of its own: the
    /// handles above the largest one in use, in the objects' order. Gives
    /// `false`, changing nothing, where they would not fit in 64 bits.
    #[verifier::loop_isolation(false)]
    pub fn assign_handles(&mut self) -> (r: bool)
        ensures
            r == (max_handle(objects_view(old(self).objects@)) + unhandled_before(
                objects_view(old(self).objects@),
                old(self).objects@.len() as int,
            ) <= u64::MAX),
            !r ==> *final(self) == *old(self),
            r ==> final(self).version == old(self).version && final(self).objects@.len() == old(
                self,
            ).objects@.len() && forall|i: int|
                0 <= i < old(self).objects@.len() ==> (#[trigger] final(self).objects@[i])@
                    == (ObjectView {
                    handle: handle_after_fixup(objects_view(old(self).objects@), i) as u64,
                    ..old(self).objects@[i]@
                }),
    {
        let ghost os = objects_view(self.objects@);
        let n = self.objects.len();
        let mut max: u64 = 0;
        let mut zeros: u64 = 0;
        let mut i: usize = 0;
        while i < n
            invariant
                n == self.objects@.len(),
                os == objects_view(self.objects@),
                i <= n,
                max as nat == max_handle(os.take(i as int)),
                zeros as nat == unhandled_before(os, i as int),
                zeros <= i,
            decreases n - i,
        {
            proof {
                let t = os.take(i + 1 as int);
                assert(t.drop_last() =~= os.take(i as int));
                assert(t.last() == self.objects@[i as int]@);
            }
            let h = self.objects[i].handle;
            if h > max {
                max = h;
            }
            if h == 0 {
                zeros = zeros + 1;
            }
            i = i + 1;
        }
        assert(os.take(n as int) =~= os);
        if max as u128 + zeros as u128 > u64::MAX as u128 {
            return false;
        }
        let mut next: u128 = max as u128 + 1;
        let ghost before = self.objects@;
        let mut j: usize = 0;
        while j < n
            invariant
                n == self.objects@.len(),
                n == before.len(),
                os == objects_view(before),
                self.version == old(self).version,
                j <= n,
                max as nat == max_handle(os),
                max as nat + zeros as nat <= u64::MAX,
                zeros as nat == unhandled_before(os, n as int),
                next as nat == max as nat + 1 + unhandled_before(os, j as int),
                unhandled_before(os, j as int) <= zeros,
                zeros as nat <= n,
                forall|k: int| 0 <= k < j ==> (#[trigger] self.objects@[k])@ == (ObjectView {
                    handle: handle_after_fixup(os, k) as u64,
                    ..before[k]@
                }),
                forall|k: int| j <= k < n ==> #[trigger] self.objects@[k] == before[k],
            decreases n - j,
        {
            proof {
                lemma_unhandled_monotone(os, j as int + 1, n as int);
            }
            if self.objects[j].handle == 0 {
                self.objects[j].handle = next as u64;
                next = next + 1;
            }
            j = j + 1;
        }
        true
    }
}

proof fn lemma_unhandled_monotone(os: Seq<ObjectView>, a: int, b: int)
    requires
        0 <= a <= b,
    ensures
        unhandled_before(os, a) <= unhandled_before(os, b),
    decreases b - a,
{
    if a < b {
        lemma_unhandled_monotone(os, a, b - 1);
    }
}

} // verus!
