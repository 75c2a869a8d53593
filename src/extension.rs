use vstd::prelude::*;
use crate::code_pair::{CodePair, CodePairValue, PairView, ValueView, pairs_view};
use crate::section::Object;

verus! {

/// Application data attached to a record between `(102, {NAME)` and
/// `(102, })`. Groups nested inside it stay among its items, with their own
/// delimiting pairs.
#[derive(Clone, Debug, PartialEq)]
pub struct ExtensionGroup {
    pub application_name: String,
    pub items: Vec<CodePair>,
}

/// Extended data of one application: the pairs of the 1000 series that
/// follow its `(1001, NAME)` pair.
#[derive(Clone, Debug, PartialEq)]
pub struct XData {
    pub application_name: String,
    pub items: Vec<CodePair>,
}

/// What a group of application data holds.
pub struct GroupView {
    pub application_name: Seq<char>,
    pub items: Seq<PairView>,
}

/// The state of reading groups: the groups closed so far, how deep the
/// reading stands inside `{`/`}` pairs, and the name and items of the group
/// that is open.
pub struct GroupState {
    pub groups: Seq<GroupView>,
    pub depth: nat,
    pub name: Seq<char>,
    pub items: Seq<PairView>,
}

/// The application's name where value `v` is the text `{NAME`.
pub open spec fn opening_name(v: ValueView) -> Option<Seq<char>> {
    match v {
        ValueView::Str(t) => if t.len() > 0 && t[0] == '{' {
            Some(t.drop_first())
        } else {
            None
        },
        _ => None,
    }
}

/// Whether `p` opens a group: a `(102, {NAME)` pair.
pub open spec fn opens_group(p: PairView) -> bool {
    p.code == 102 && opening_name(p.value) is Some
}

/// Whether `p` closes a group: a `(102, })` pair.
pub open spec fn closes_group(p: PairView) -> bool {
    p.code == 102 && p.value == ValueView::Str(seq!['}'])
}

/// The state after reading pair `p`. Out of every group, only a pair that
/// opens one counts; inside, every pair is an item of the outermost group, but
/// the `}` that closes it.
pub open spec fn group_step(st: GroupState, p: PairView) -> GroupState {
    if st.depth == 0 {
        if opens_group(p) {
            GroupState {
                depth: 1,
                name: opening_name(p.value)->Some_0,
                items: Seq::empty(),
                ..st
            }
        } else {
            st
        }
    } else if closes_group(p) && st.depth == 1 {
        GroupState {
            groups: st.groups.push(GroupView { application_name: st.name, items: st.items }),
            depth: 0,
            name: Seq::empty(),
            items: Seq::empty(),
        }
    } else {
        GroupState {
            depth: if opens_group(p) {
                st.depth + 1
            } else if closes_group(p) {
                (st.depth - 1) as nat
            } else {
                st.depth
            },
            items: st.items.push(p),
            ..st
        }
    }
}

/// The state after reading all of `ps`.
pub open spec fn group_state(ps: Seq<PairView>) -> GroupState
    decreases ps.len(),
{
    if ps.len() == 0 {
        GroupState { groups: Seq::empty(), depth: 0, name: Seq::empty(), items: Seq::empty() }
    } else {
        group_step(group_state(ps.drop_last()), ps.last())
    }
}

/// The groups of application data among `ps`, in order; a group that is
/// still open at the end counts with what it holds.
pub open spec fn extension_groups_of(ps: Seq<PairView>) -> Seq<GroupView> {
    let st = group_state(ps);
    if st.depth > 0 {
        st.groups.push(GroupView { application_name: st.name, items: st.items })
    } else {
        st.groups
    }
}

/// What a list of groups holds.
pub open spec fn groups_view(gs: Seq<ExtensionGroup>) -> Seq<GroupView> {
    gs.map_values(|g: ExtensionGroup| GroupView { application_name: g.application_name@, items: pairs_view(g.items@) })
}

/// Whether value `v` opens a group, with the application's name.
fn group_opening(v: &CodePairValue) -> (r: Option<String>)
    ensures
        match opening_name(v@) {
            Some(n) => r matches Some(x) && x@ == n,
            None => r is None,
        },
{
    match v {
        CodePairValue::Str(t) => {
            let n = t.as_str().unicode_len();
            if n > 0 && t.as_str().get_char(0) == '{' {
                let name = t.as_str().substring_char(1, n).to_owned();
                assert(name@ =~= t@.drop_first());
                Some(name)
            } else {
                None
            }
        },
        _ => None,
    }
}

/// Whether value `v` is the `}` that closes a group.
fn is_group_close(v: &CodePairValue) -> (r: bool)
    ensures
        r == (v@ == ValueView::Str(seq!['}'])),
{
    match v {
        CodePairValue::Str(t) => {
            let n = t.as_str().unicode_len();
            if n == 1 && t.as_str().get_char(0) == '}' {
                assert(t@ =~= seq!['}']);
                true
            } else {
                false
            }
        },
        _ => false,
    }
}

impl Object {
    /// The groups of application data of this object, in order.
    #[verifier::loop_isolation(false)]
    pub fn extension_groups(&self) -> (r: Vec<ExtensionGroup>)
        ensures
            groups_view(r@) == extension_groups_of(pairs_view(self.pairs@)),
    {
        let ghost ps = pairs_view(self.pairs@);
        let mut groups: Vec<ExtensionGroup> = Vec::new();
        let mut depth: usize = 0;
        let mut name = String::new();
        let mut items: Vec<CodePair> = Vec::new();
        let mut i: usize = 0;
        assert(groups_view(groups@) =~= Seq::<GroupView>::empty());
        assert(pairs_view(items@) =~= Seq::<PairView>::empty());
        assert(name@ =~= Seq::<char>::empty());
        assert(ps.take(0) =~= Seq::<PairView>::empty());
        while i < self.pairs.len()
            invariant
                i <= self.pairs@.len(),
                ps == pairs_view(self.pairs@),
                depth <= i,
                group_state(ps.take(i as int)) == (GroupState {
                    groups: groups_view(groups@),
                    depth: depth as nat,
                    name: name@,
                    items: pairs_view(items@),
                }),
            decreases self.pairs@.len() - i,
        {
            let p = &self.pairs[i];
            proof {
                let t = ps.take(i + 1 as int);
                assert(t.drop_last() =~= ps.take(i as int));
                assert(t.last() == p@);
            }
            let ghost old_items = items@;
            let ghost old_groups = groups@;
            if depth == 0 {
                if p.code == 102 {
                    if let Some(n) = group_opening(&p.value) {
                        depth = 1;
                        name = n;
                        items = Vec::new();
                        assert(pairs_view(items@) =~= Seq::<PairView>::empty());
                    }
                }
            } else if p.code == 102 && is_group_close(&p.value) && depth == 1 {
                let done = ExtensionGroup { application_name: name, items };
                groups.push(done);
                depth = 0;
                name = String::new();
                items = Vec::new();
                proof {
                    assert(groups_view(groups@) =~= groups_view(old_groups).push(
                        GroupView { application_name: done.application_name@, items: pairs_view(old_items) },
                    ));
                    assert(pairs_view(items@) =~= Seq::<PairView>::empty());
                    assert(name@ =~= Seq::<char>::empty());
                }
            } else {
                if p.code == 102 {
                    if group_opening(&p.value).is_some() {
                        depth = depth + 1;
                    } else if is_group_close(&p.value) {
                        depth = depth - 1;
                    }
                }
                items.push(p.duplicate());
                assert(pairs_view(items@) =~= pairs_view(old_items).push(p@));
            }
            i = i + 1;
        }
        assert(ps.take(i as int) =~= ps);
        if depth > 0 {
            let ghost old_groups = groups@;
            let ghost open_items = items@;
            let last = ExtensionGroup { application_name: name, items };
            groups.push(last);
            assert(groups_view(groups@) =~= groups_view(old_groups).push(
                GroupView { application_name: last.application_name@, items: pairs_view(open_items) },
            ));
        }
        groups
    }
}

/// The state of reading extended data: the applications' data closed so
/// far, and the one that is open, if any.
pub struct XDataState {
    pub done: Seq<GroupView>,
    pub open: bool,
    pub name: Seq<char>,
    pub items: Seq<PairView>,
}

/// Whether `code` belongs to extended data.
pub open spec fn is_x_data_code(code: u16) -> bool {
    1000 <= code <= 1071
}

/// The state after reading pair `p`: `(1001, NAME)` opens the data of an
/// application (closing the one before), and every other pair of the 1000
/// series goes to the open one. Other pairs are not extended data.
pub open spec fn x_data_step(st: XDataState, p: PairView) -> XDataState {
    if p.code == 1001 && p.value is Str {
        XDataState {
            done: if st.open {
                st.done.push(GroupView { application_name: st.name, items: st.items })
            } else {
                st.done
            },
            open: true,
            name: p.value->Str_0,
            items: Seq::empty(),
        }
    } else if is_x_data_code(p.code) && st.open {
        XDataState { items: st.items.push(p), ..st }
    } else {
        st
    }
}

/// The state after reading all of `ps`.
pub open spec fn x_data_state(ps: Seq<PairView>) -> XDataState
    decreases ps.len(),
{
    if ps.len() == 0 {
        XDataState { done: Seq::empty(), open: false, name: Seq::empty(), items: Seq::empty() }
    } else {
        x_data_step(x_data_state(ps.drop_last()), ps.last())
    }
}

/// The extended data among `ps`, one entry to an application, in order.
pub open spec fn x_data_of(ps: Seq<PairView>) -> Seq<GroupView> {
    let st = x_data_state(ps);
    if st.open {
        st.done.push(GroupView { application_name: st.name, items: st.items })
    } else {
        st.done
    }
}

/// What a list of extended data holds.
pub open spec fn x_data_view(xs: Seq<XData>) -> Seq<GroupView> {
    xs.map_values(|x: XData| GroupView { application_name: x.application_name@, items: pairs_view(x.items@) })
}

impl Object {
    /// The extended data of this object, one entry to an application, in
    /// order.
    #[verifier::loop_isolation(false)]
    pub fn x_data(&self) -> (r: Vec<XData>)
        ensures
            x_data_view(r@) == x_data_of(pairs_view(self.pairs@)),
    {
        let ghost ps = pairs_view(self.pairs@);
        let mut done: Vec<XData> = Vec::new();
        let mut open = false;
        let mut name = String::new();
        let mut items: Vec<CodePair> = Vec::new();
        let mut i: usize = 0;
        assert(x_data_view(done@) =~= Seq::<GroupView>::empty());
        assert(pairs_view(items@) =~= Seq::<PairView>::empty());
        assert(name@ =~= Seq::<char>::empty());
        assert(ps.take(0) =~= Seq::<PairView>::empty());
        while i < self.pairs.len()
            invariant
                i <= self.pairs@.len(),
                ps == pairs_view(self.pairs@),
                x_data_state(ps.take(i as int)) == (XDataState {
                    done: x_data_view(done@),
                    open,
                    name: name@,
                    items: pairs_view(items@),
                }),
            decreases self.pairs@.len() - i,
        {
            let p = &self.pairs[i];
            proof {
                let t = ps.take(i + 1 as int);
                assert(t.drop_last() =~= ps.take(i as int));
                assert(t.last() == p@);
            }
            let ghost old_items = items@;
            let ghost old_done = done@;
            let opening = match &p.value {
                CodePairValue::Str(t) => if p.code == 1001 {
                    Some(t.clone())
                } else {
                    None
                },
                _ => None,
            };
            match opening {
                Some(n) => {
                    if open {
                        let prev = XData { application_name: name, items };
                        done.push(prev);
                        assert(x_data_view(done@) =~= x_data_view(old_done).push(
                            GroupView { application_name: prev.application_name@, items: pairs_view(old_items) },
                        ));
                    }
                    open = true;
                    name = n;
                    items = Vec::new();
                    assert(pairs_view(items@) =~= Seq::<PairView>::empty());
                },
                None => {
                    if 1000 <= p.code && p.code <= 1071 && open {
                        items.push(p.duplicate());
                        assert(pairs_view(items@) =~= pairs_view(old_items).push(p@));
                    }
                },
            }
            i = i + 1;
        }
        assert(ps.take(i as int) =~= ps);
        if open {
            let ghost old_done = done@;
            let ghost open_items = items@;
            let last = XData { application_name: name, items };
            done.push(last);
            assert(x_data_view(done@) =~= x_data_view(old_done).push(
                GroupView { application_name: last.application_name@, items: pairs_view(open_items) },
            ));
        }
        done
    }
}

} // verus!
