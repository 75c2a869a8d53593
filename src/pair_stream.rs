use vstd::prelude::*;
use crate::code_pair::CodePair;
use itertools::PutBack;
use std::vec::IntoIter;

verus! {

#[verifier::external_type_specification]
#[verifier::external_body]
#[verifier::reject_recursive_types(I)]
pub struct ExPutBack<I: Iterator>(PutBack<I>);

/// The pairs that a put-back stream over a vector still holds, the one put
/// back (if any) first.
pub uninterp spec fn put_back_pairs(p: PutBack<IntoIter<CodePair>>) -> Seq<CodePair>;

/// Whether the put-back slot of a stream is taken.
pub uninterp spec fn put_back_slot_taken(p: PutBack<IntoIter<CodePair>>) -> bool;

/// Relies on itertools::put_back: a stream over the vector's pairs in order,
/// with an empty slot.
#[verifier::external_body]
fn put_back_open(pairs: Vec<CodePair>) -> (r: PutBack<IntoIter<CodePair>>)
    ensures
        put_back_pairs(r) == pairs@,
        !put_back_slot_taken(r),
{
    itertools::put_back(pairs)
}

/// Relies on `Iterator::next` of itertools::PutBack: the pair in the slot if
/// there is one, else the next pair of the vector; the slot is empty after.
#[verifier::external_body]
fn put_back_next(p: &mut PutBack<IntoIter<CodePair>>) -> (r: Option<CodePair>)
    ensures
        put_back_pairs(*old(p)).len() == 0 ==> r.is_none() && put_back_pairs(*final(p))
            == put_back_pairs(*old(p)),
        put_back_pairs(*old(p)).len() > 0 ==> r == Some(put_back_pairs(*old(p))[0])
            && put_back_pairs(*final(p)) == put_back_pairs(*old(p)).drop_first(),
        !put_back_slot_taken(*final(p)),
{
    p.next()
}

/// Relies on itertools::PutBack::put_back: the pair takes the slot, in front of
/// the rest; a pair that held the slot is handed back and leaves the stream.
#[verifier::external_body]
fn put_back_push(p: &mut PutBack<IntoIter<CodePair>>, pair: CodePair) -> (r: Option<CodePair>)
    ensures
        put_back_slot_taken(*final(p)),
        !put_back_slot_taken(*old(p)) ==> r.is_none() && put_back_pairs(*final(p)) == seq![pair]
            + put_back_pairs(*old(p)),
        put_back_slot_taken(*old(p)) ==> r == Some(put_back_pairs(*old(p))[0]) && put_back_pairs(
            *final(p),
        ) == seq![pair] + put_back_pairs(*old(p)).drop_first(),
{
    p.put_back(pair)
}

/// A stream of pairs that lets a reader look one pair ahead: the pair just
/// taken can be put back, to be the next one taken.
pub struct PairStream {
    inner: PutBack<IntoIter<CodePair>>,
}

impl View for PairStream {
    type V = Seq<CodePair>;

    /// The pairs still to be taken, in order.
    closed spec fn view(&self) -> Seq<CodePair> {
        put_back_pairs(self.inner)
    }
}

impl PairStream {
    /// Whether a pair has been put back and not taken again.
    pub closed spec fn has_put_back(&self) -> bool {
        put_back_slot_taken(self.inner)
    }

    /// A stream over `pairs`, in order.
    pub fn from_pairs(pairs: Vec<CodePair>) -> (r: PairStream)
        ensures
            r@ == pairs@,
            !r.has_put_back(),
    {
        PairStream { inner: put_back_open(pairs) }
    }

    /// Takes the next pair.
    pub fn next_pair(&mut self) -> (r: Option<CodePair>)
        ensures
            old(self)@.len() == 0 ==> r.is_none() && final(self)@ == old(self)@,
            old(self)@.len() > 0 ==> r == Some(old(self)@[0]) && final(self)@ == old(
                self,
            )@.drop_first(),
            !final(self).has_put_back(),
    {
        put_back_next(&mut self.inner)
    }

    /// Puts `pair` back in front of the stream. At most one pair can wait
    /// there: a second one without a `next_pair` between is not allowed.
    pub fn put_back(&mut self, pair: CodePair)
        requires
            !old(self).has_put_back(),
        ensures
            final(self)@ == seq![pair] + old(self)@,
            final(self).has_put_back(),
    {
        let _ = put_back_push(&mut self.inner, pair);
    }
}

} // verus!
