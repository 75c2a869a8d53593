use vstd::prelude::*;
use crate::code_pair::{CodePair, CodePairValue, DxfError, PairView, ValueView, pairs_view};
use crate::pair_stream::PairStream;
use crate::handle::{handle_of_text, parse_handle};
use crate::version::AcadVersion;

verus! {

/// One entry of the schema of object types that the reader and writer know:
/// the type's name on the wire and the releases that can hold it.
#[derive(Clone, Debug, PartialEq)]
pub struct ObjectKind {
    pub object_type: String,
    pub min_version: AcadVersion,
    pub max_version: AcadVersion,
}

/// An object of the OBJECTS section: its type, its handle, the handle of its
/// owner, and its other pairs in order.
#[derive(Clone, Debug, PartialEq)]
pub struct Object {
    pub object_type: String,
    pub handle: u64,
    pub owner_handle: u64,
    pub pairs: Vec<CodePair>,
}

/// What an object holds.
pub struct ObjectView {
    pub object_type: Seq<char>,
    pub handle: u64,
    pub owner_handle: u64,
    pub pairs: Seq<PairView>,
}

impl View for Object {
    type V = ObjectView;

    open spec fn view(&self) -> ObjectView {
        ObjectView {
            object_type: self.object_type@,
            handle: self.handle,
            owner_handle: self.owner_handle,
            pairs: pairs_view(self.pairs@),
        }
    }
}

/// The objects of a sequence, as views.
pub open spec fn objects_view(s: Seq<Object>) -> Seq<ObjectView> {
    s.map_values(|o: Object| o@)
}

/// The names of the object types of a schema.
pub open spec fn kind_names(kinds: Seq<ObjectKind>) -> Seq<Seq<char>> {
    kinds.map_values(|k: ObjectKind| k.object_type@)
}

/// Whether `s` is the text value `t`.
pub open spec fn is_text(v: ValueView, t: Seq<char>) -> bool {
    v == ValueView::Str(t)
}

/// A new object of type `name`, with no handles and no pairs.
pub open spec fn empty_object(name: Seq<char>) -> ObjectView {
    ObjectView { object_type: name, handle: 0, owner_handle: 0, pairs: Seq::empty() }
}

/// An object after reading one of its pairs: code 5 gives its handle (as
/// handle text, code 5 being a text code), code 330 the handle of its owner,
/// and every other pair is kept in order. A handle code whose value is not a
/// handle gives the code as an error.
pub open spec fn apply_object_pair(o: ObjectView, p: PairView) -> Result<ObjectView, u16> {
    if p.code == 5 {
        match p.value {
            ValueView::Str(t) => match handle_of_text(t) {
                Some(h) => Ok(ObjectView { handle: h, ..o }),
                None => Err(p.code),
            },
            ValueView::Handle(h) => Ok(ObjectView { handle: h, ..o }),
            _ => Err(p.code),
        }
    } else if p.code == 330 {
        match p.value {
            ValueView::Handle(h) => Ok(ObjectView { owner_handle: h, ..o }),
            _ => Err(p.code),
        }
    } else {
        Ok(ObjectView { pairs: o.pairs.push(p), ..o })
    }
}

/// Reading of the body of object `o` over `s`: every pair up to the next
/// pair of code 0, which is left for the caller.
pub open spec fn object_run(o: ObjectView, s: Seq<PairView>) -> Result<(ObjectView, nat), u16>
    decreases s.len(),
{
    if s.len() == 0 || s[0].code == 0 {
        Ok((o, 0))
    } else {
        match apply_object_pair(o, s[0]) {
            Ok(o2) => match object_run(o2, s.drop_first()) {
                Ok((o3, k)) => Ok((o3, k + 1)),
                Err(c) => Err(c),
            },
            Err(c) => Err(c),
        }
    }
}

/// How many pairs there are before the next pair of code 0.
pub open spec fn skip_len(s: Seq<PairView>) -> nat
    decreases s.len(),
{
    if s.len() == 0 || s[0].code == 0 {
        0
    } else {
        1 + skip_len(s.drop_first())
    }
}

/// A section's reading result with `n` more pairs counted as taken.
pub open spec fn after_section_taken(r: Result<(Seq<ObjectView>, nat), u16>, n: nat) -> Result<
    (Seq<ObjectView>, nat),
    u16,
> {
    match r {
        Ok((os, k)) => Ok((os, k + n)),
        Err(c) => Err(c),
    }
}

/// Reading of the records of an OBJECTS section over `s`, after the objects
/// `os`: each `(0, type)` of a known type starts an object, whose body runs
/// to the next pair of code 0; a record of an unknown type is passed over up
/// to the next pair of code 0, as is any pair between records. Reading stops
/// after `(0, ENDSEC)`, or at the end of the pairs.
pub open spec fn section_run(
    kinds: Seq<Seq<char>>,
    os: Seq<ObjectView>,
    s: Seq<PairView>,
) -> Result<(Seq<ObjectView>, nat), u16>
    decreases s.len(),
{
    if s.len() == 0 {
        Ok((os, 0))
    } else if s[0].code != 0 {
        after_section_taken(section_run(kinds, os, s.drop_first()), 1)
    } else if is_text(s[0].value, "ENDSEC"@) {
        Ok((os, 1))
    } else {
        let rest = s.drop_first();
        match s[0].value {
            ValueView::Str(name) if kinds.contains(name) => match object_run(
                empty_object(name),
                rest,
            ) {
                Ok((o, k)) => if k <= rest.len() {
                    after_section_taken(section_run(kinds, os.push(o), rest.skip(k as int)), k + 1)
                } else {
                    Ok((os, 0))
                },
                Err(c) => Err(c),
            },
            _ => {
                let k = skip_len(rest);
                if k <= rest.len() {
                    after_section_taken(section_run(kinds, os, rest.skip(k as int)), k + 1)
                } else {
                    Ok((os, 0))
                }
            },
        }
    }
}

/// Whether value `v` is the text `lit`.
pub fn value_is_text(v: &CodePairValue, lit: &str) -> (r: bool)
    ensures
        r == is_text(v@, lit@),
{
    match v {
        CodePairValue::Str(t) => {
            let l = String::from_str(lit);
            t.eq(&l)
        },
        _ => false,
    }
}

/// Whether the schema `kinds` knows the object type `name`.
pub fn is_known_kind(kinds: &Vec<ObjectKind>, name: &String) -> (r: bool)
    ensures
        r == kind_names(kinds@).contains(name@),
{
    let ghost names = kind_names(kinds@);
    let mut i: usize = 0;
    while i < kinds.len()
        invariant
            i <= kinds@.len(),
            names == kind_names(kinds@),
            forall|j: int| 0 <= j < i ==> names[j] != name@,
        decreases kinds@.len() - i,
    {
        if kinds[i].object_type.eq(name) {
            assert(names[i as int] == name@);
            return true;
        }
        i = i + 1;
    }
    assert(!names.contains(name@));
    false
}

proof fn lemma_object_run_len(o: ObjectView, s: Seq<PairView>)
    ensures
        object_run(o, s) matches Ok((o2, k)) ==> k <= s.len(),
    decreases s.len(),
{
    if s.len() > 0 && s[0].code != 0 {
        match apply_object_pair(o, s[0]) {
            Ok(o2) => lemma_object_run_len(o2, s.drop_first()),
            Err(_) => {},
        }
    }
}

proof fn lemma_skip_len(s: Seq<PairView>)
    ensures
        skip_len(s) <= s.len(),
    decreases s.len(),
{
    if s.len() > 0 && s[0].code != 0 {
        lemma_skip_len(s.drop_first());
    }
}

impl Object {
    /// Reads the body of an object of type `object_type`, whose `(0, type)`
    /// pair was taken: every pair up to the next pair of code 0, which is
    /// left in the stream.
    #[verifier::loop_isolation(false)]
    pub fn read_body(iter: &mut PairStream, object_type: String) -> (r: Result<Object, DxfError>)
        ensures
            match object_run(empty_object(object_type@), pairs_view(old(iter)@)) {
                Ok((o, k)) => r matches Ok(x) && x@ == o && k <= old(iter)@.len() && final(iter)@
                    == old(iter)@.skip(k as int),
                Err(c) => r == Err::<Object, DxfError>(DxfError::WrongValueType(c)),
            },
    {
        let ghost s0 = old(iter)@;
        let mut obj = Object { object_type, handle: 0, owner_handle: 0, pairs: Vec::new() };
        let ghost mut taken: nat = 0;
        proof {
            assert(obj@ == empty_object(object_type@)) by {
                assert(pairs_view(obj.pairs@) =~= Seq::<PairView>::empty());
            }
            assert(s0.skip(0) =~= s0);
            lemma_object_run_len(empty_object(object_type@), pairs_view(s0));
            assert(pairs_view(s0).len() == s0.len());
        }
        loop
            invariant
                taken <= s0.len(),
                iter@ == s0.skip(taken as int),
                object_run(empty_object(object_type@), pairs_view(s0)) == match object_run(
                    obj@,
                    pairs_view(iter@),
                ) {
                    Ok((o, k)) => Ok::<(ObjectView, nat), u16>((o, k + taken)),
                    Err(c) => Err(c),
                },
            decreases iter@.len(),
        {
            let ghost cur = iter@;
            let ghost before = obj@;
            proof {
                assert(pairs_view(cur).len() == cur.len());
                if cur.len() > 0 {
                    assert(pairs_view(cur)[0] == cur[0]@);
                    assert(pairs_view(cur).drop_first() =~= pairs_view(cur.drop_first()));
                }
            }
            let pair = match iter.next_pair() {
                None => {
                    return Ok(obj);
                },
                Some(p) => p,
            };
            if pair.code == 0 {
                iter.put_back(pair);
                assert(iter@ =~= cur);
                return Ok(obj);
            }
            proof {
                assert(iter@ =~= s0.skip(taken + 1 as int));
            }
            if pair.code == 5 || pair.code == 330 {
                let h = match &pair.value {
                    CodePairValue::Handle(h) => *h,
                    CodePairValue::Str(t) => {
                        if pair.code != 5 {
                            return Err(DxfError::WrongValueType(pair.code));
                        }
                        match parse_handle(t.as_str()) {
                            Some(h) => h,
                            None => {
                                return Err(DxfError::WrongValueType(pair.code));
                            },
                        }
                    },
                    _ => {
                        return Err(DxfError::WrongValueType(pair.code));
                    },
                };
                if pair.code == 5 {
                    obj.handle = h;
                } else {
                    obj.owner_handle = h;
                }
            } else {
                let ghost ps = obj.pairs@;
                obj.pairs.push(pair);
                assert(pairs_view(obj.pairs@) =~= pairs_view(ps).push(cur[0]@));
            }
            proof {
                taken = taken + 1;
            }
        }
    }
}

/// Passes over the pairs up to the next pair of code 0, which is left in
/// the stream.
#[verifier::loop_isolation(false)]
pub fn skip_record(iter: &mut PairStream)
    ensures
        skip_len(pairs_view(old(iter)@)) <= old(iter)@.len(),
        final(iter)@ == old(iter)@.skip(skip_len(pairs_view(old(iter)@)) as int),
{
    let ghost s0 = old(iter)@;
    let ghost mut taken: nat = 0;
    proof {
        lemma_skip_len(pairs_view(s0));
        assert(pairs_view(s0).len() == s0.len());
        assert(s0.skip(0) =~= s0);
    }
    loop
        invariant
            taken <= s0.len(),
            iter@ == s0.skip(taken as int),
            skip_len(pairs_view(s0)) == skip_len(pairs_view(iter@)) + taken,
        decreases iter@.len(),
    {
        let ghost cur = iter@;
        proof {
            assert(pairs_view(cur).len() == cur.len());
            if cur.len() > 0 {
                assert(pairs_view(cur)[0] == cur[0]@);
                assert(pairs_view(cur).drop_first() =~= pairs_view(cur.drop_first()));
            }
        }
        match iter.next_pair() {
            None => {
                return ;
            },
            Some(pair) => {
                if pair.code == 0 {
                    iter.put_back(pair);
                    assert(iter@ =~= cur);
                    return ;
                }
                proof {
                    taken = taken + 1;
                    assert(iter@ =~= s0.skip(taken as int));
                }
            },
        }
    }
}

/// Reads the records of an OBJECTS section whose `(0, SECTION)` and
/// `(2, OBJECTS)` pairs were taken, through its `(0, ENDSEC)`. Objects of the
/// types that `kinds` names are kept in order; a record of any other type is
/// passed over whole, so that it does not disturb the records around it.
#[verifier::loop_isolation(false)]
pub fn read_objects_section(iter: &mut PairStream, kinds: &Vec<ObjectKind>) -> (r: Result<
    Vec<Object>,
    DxfError,
>)
    ensures
        match section_run(kind_names(kinds@), Seq::empty(), pairs_view(old(iter)@)) {
            Ok((os, k)) => r matches Ok(v) && objects_view(v@) == os && k <= old(iter)@.len()
                && final(iter)@ == old(iter)@.skip(k as int),
            Err(c) => r == Err::<Vec<Object>, DxfError>(DxfError::WrongValueType(c)),
        },
{
    let ghost s0 = old(iter)@;
    let ghost names = kind_names(kinds@);
    let mut objects: Vec<Object> = Vec::new();
    let ghost mut taken: nat = 0;
    proof {
        assert(s0.skip(0) =~= s0);
        assert(objects_view(objects@) =~= Seq::<ObjectView>::empty());
        match section_run(names, Seq::empty(), pairs_view(s0)) {
            Ok((os, k)) => {},
            Err(c) => {},
        }
    }
    loop
        invariant
            taken <= s0.len(),
            iter@ == s0.skip(taken as int),
            section_run(names, Seq::empty(), pairs_view(s0)) == after_section_taken(
                section_run(names, objects_view(objects@), pairs_view(iter@)),
                taken,
            ),
        decreases iter@.len(),
    {
        let ghost cur = iter@;
        let ghost rest = pairs_view(cur).drop_first();
        proof {
            assert(pairs_view(cur).len() == cur.len());
            if cur.len() > 0 {
                assert(pairs_view(cur)[0] == cur[0]@);
                assert(rest =~= pairs_view(cur.drop_first()));
            }
        }
        let pair = match iter.next_pair() {
            None => {
                return Ok(objects);
            },
            Some(p) => p,
        };
        proof {
            assert(iter@ =~= s0.skip(taken + 1 as int));
        }
        if pair.code != 0 {
            proof {
                taken = taken + 1;
            }
        } else if value_is_text(&pair.value, "ENDSEC") {
            return Ok(objects);
        } else {
            let known = match &pair.value {
                CodePairValue::Str(name) => is_known_kind(kinds, name),
                _ => false,
            };
            if known {
                let name = match pair.value {
                    CodePairValue::Str(name) => name,
                    _ => String::new(),
                };
                let ghost before = iter@;
                let obj = Object::read_body(iter, name)?;
                proof {
                    lemma_object_run_len(empty_object(obj.object_type@), rest);
                }
                let ghost ov = objects_view(objects@);
                objects.push(obj);
                proof {
                    assert(objects_view(objects@) =~= ov.push(obj@));
                    let k = (before.len() - iter@.len()) as nat;
                    assert(before.skip(k as int) =~= iter@);
                    assert(rest.skip(k as int) =~= pairs_view(iter@));
                    taken = taken + 1 + k;
                    assert(iter@ =~= s0.skip(taken as int));
                }
            } else {
                let ghost before = iter@;
                skip_record(iter);
                proof {
                    lemma_skip_len(rest);
                    let k = skip_len(rest);
                    assert(rest.skip(k as int) =~= pairs_view(iter@));
                    taken = taken + 1 + k;
                    assert(iter@ =~= s0.skip(taken as int));
                }
            }
        }
    }
}

proof fn lemma_skip_body(body: Seq<PairView>, s: Seq<PairView>)
    requires
        forall|i: int| 0 <= i < body.len() ==> (#[trigger] body[i]).code != 0,
        s.len() == 0 || s[0].code == 0,
    ensures
        skip_len(body + s) == body.len(),
    decreases body.len(),
{
    if body.len() > 0 {
        let t = body.drop_first();
        assert((body + s).drop_first() =~= t + s);
        assert forall|i: int| 0 <= i < t.len() implies (#[trigger] t[i]).code != 0 by {
            assert(t[i] == body[i + 1]);
        }
        lemma_skip_body(t, s);
    } else {
        assert(body + s =~= s);
    }
}

/// A record of a type that the schema does not know is passed over whole:
/// reading a section with such a record in front of the rest gives the same
/// objects, in the same order, as reading the rest alone. So an unknown
/// record between two known ones changes neither their number nor their
/// order.
pub proof fn lemma_unknown_record_passed_over(
    kinds: Seq<Seq<char>>,
    os: Seq<ObjectView>,
    name: Seq<char>,
    body: Seq<PairView>,
    rest: Seq<PairView>,
)
    requires
        !kinds.contains(name),
        name != "ENDSEC"@,
        forall|i: int| 0 <= i < body.len() ==> (#[trigger] body[i]).code != 0,
        rest.len() == 0 || rest[0].code == 0,
    ensures
        section_run(
            kinds,
            os,
            seq![PairView { code: 0, value: ValueView::Str(name) }] + body + rest,
        ) == after_section_taken(section_run(kinds, os, rest), body.len() + 1),
{
    let x = seq![PairView { code: 0, value: ValueView::Str(name) }] + body + rest;
    assert(x.drop_first() =~= body + rest);
    lemma_skip_body(body, rest);
    assert((body + rest).skip(body.len() as int) =~= rest);
    assert(!is_text(x[0].value, "ENDSEC"@));
}

/// The bytes of the binary chunks of code `code` among `ps`, joined in
/// order.
pub open spec fn joined_binary(ps: Seq<PairView>, code: u16) -> Seq<u8>
    decreases ps.len(),
{
    if ps.len() == 0 {
        Seq::empty()
    } else {
        joined_binary(ps.drop_last(), code) + match ps.last().value {
            ValueView::Binary(d) => if ps.last().code == code {
                d
            } else {
                Seq::empty()
            },
            _ => Seq::empty(),
        }
    }
}

impl Object {
    /// The data that an object spreads over several binary chunks of one code
    /// (a VBA project's code 310), joined into one byte vector.
    pub fn binary_data(&self, code: u16) -> (r: Vec<u8>)
        ensures
            r@ == joined_binary(pairs_view(self.pairs@), code),
    {
        let ghost ps = pairs_view(self.pairs@);
        let mut out: Vec<u8> = Vec::new();
        let mut i: usize = 0;
        while i < self.pairs.len()
            invariant
                i <= self.pairs@.len(),
                ps == pairs_view(self.pairs@),
                out@ == joined_binary(ps.take(i as int), code),
            decreases self.pairs@.len() - i,
        {
            let p = &self.pairs[i];
            proof {
                let t = ps.take(i + 1 as int);
                assert(t.drop_last() =~= ps.take(i as int));
                assert(t.last() == p@);
            }
            if p.code == code {
                if let CodePairValue::Binary(d) = &p.value {
                    let mut j: usize = 0;
                    let ghost start = out@;
                    while j < d.len()
                        invariant
                            j <= d@.len(),
                            out@ == start + d@.take(j as int),
                        decreases d@.len() - j,
                    {
                        out.push(d[j]);
                        assert(out@ =~= start + d@.take(j + 1 as int));
                        j = j + 1;
                    }
                    assert(d@.take(j as int) =~= d@);
                }
            }
            proof {
                let t = ps.take(i + 1 as int);
                assert(out@ =~= joined_binary(t, code));
            }
            i = i + 1;
        }
        assert(ps.take(i as int) =~= ps);
        out
    }
}

} // verus!
