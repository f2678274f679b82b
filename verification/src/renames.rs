//! The mapping that a producer of the event supplies: renames by reference.

use crate::model::distinct_sources;
use crate::model::lemma_renames_pairs;
use crate::model::lemma_renames_push;
use crate::model::lemma_renames_sources;
use crate::model::lemma_renames_update;
use crate::model::renames_of;
use crate::url::Url;
use vstd::prelude::*;

verus! {

/// A mapping from source to destination over urls that the caller keeps:
/// at most one rename for each source.
#[derive(Debug)]
pub struct Renames<'a> {
    pub(crate) pairs: Vec<(&'a Url, &'a Url)>,
}

/// The texts of a list of pairs of urls.
pub(crate) open spec fn texts(pairs: Seq<(&Url, &Url)>) -> Seq<(Seq<char>, Seq<char>)> {
    Seq::new(pairs.len(), |i: int| (pairs[i].0@, pairs[i].1@))
}

impl<'a> View for Renames<'a> {
    type V = Map<Seq<char>, Seq<char>>;

    open(crate) spec fn view(&self) -> Map<Seq<char>, Seq<char>> {
        renames_of(self.entries())
    }
}

impl<'a> Renames<'a> {
    /// The texts of the pairs, in the order in which they are kept.
    pub(crate) open spec fn entries(&self) -> Seq<(Seq<char>, Seq<char>)> {
        texts(self.pairs@)
    }

    #[verifier::type_invariant]
    pub(crate) open spec fn no_source_twice(&self) -> bool {
        distinct_sources(self.entries())
    }

    /// The mapping without any rename.
    pub fn new() -> (renames: Self)
        ensures
            renames@ == Map::<Seq<char>, Seq<char>>::empty(),
    {
        Renames { pairs: Vec::new() }
    }

    /// The number of renames.
    pub fn len(&self) -> (count: usize)
        ensures
            self@.dom().finite(),
            count == self@.len(),
    {
        proof {
            use_type_invariant(self);
            lemma_renames_pairs(self.entries());
        }
        self.pairs.len()
    }

    /// Renames `from` to `to`. A rename that the mapping already has for
    /// `from` gives way to the new one, and its destination is returned.
    pub fn insert(&mut self, from: &'a Url, to: &'a Url) -> (replaced: Option<&'a Url>)
        ensures
            final(self)@ == old(self)@.insert(from@, to@),
            match replaced {
                Some(was) => old(self)@.contains_pair(from@, was@),
                None => !old(self)@.contains_key(from@),
            },
    {
        let ghost before = self.entries();
        proof {
            use_type_invariant(&*self);
        }
        let mut at: usize = 0;
        while at < self.pairs.len()
            invariant
                at <= self.pairs.len(),
                *self == *old(self),
                before == self.entries(),
                distinct_sources(before),
                forall|i: int| 0 <= i < at ==> (#[trigger] before[i]).0 != from@,
            decreases self.pairs.len() - at,
        {
            let (source, was) = self.pairs[at];
            if *source == *from {
                let mut pairs: Vec<(&'a Url, &'a Url)> = Vec::new();
                core::mem::swap(&mut self.pairs, &mut pairs);
                pairs.set(at, (source, to));
                proof {
                    lemma_renames_pairs(before);
                    lemma_renames_update(before, at as int, to@);
                    assert(texts(pairs@) =~= before.update(at as int, (from@, to@)));
                }
                self.pairs = pairs;
                return Some(was);
            }
            at += 1;
        }
        let mut pairs: Vec<(&'a Url, &'a Url)> = Vec::new();
        core::mem::swap(&mut self.pairs, &mut pairs);
        pairs.push((from, to));
        proof {
            lemma_renames_sources(before);
            lemma_renames_push(before, (from@, to@));
            assert(texts(pairs@) =~= before.push((from@, to@)));
        }
        self.pairs = pairs;
        None
    }
}

} // verus!
