//! The change set that the event carries: renames over urls that are each
//! either lent by the producer or held by value.

use crate::model::distinct_sources;
use crate::model::lemma_renames_drop_last;
use crate::model::lemma_renames_pairs;
use crate::model::lemma_renames_sources;
use crate::model::renames_of;
use crate::steps::stepped;
use crate::url::Url;
use std::borrow::Cow;
use vstd::prelude::*;

verus! {

/// The texts of a list of pairs of urls, lent or held.
pub(crate) open spec fn texts(pairs: Seq<(Cow<Url>, Cow<Url>)>) -> Seq<(Seq<char>, Seq<char>)> {
    Seq::new(pairs.len(), |i: int| (pairs[i].0@, pairs[i].1@))
}

/// The texts of a pair of urls that was taken out of a change set.
pub open spec fn texts_of(taken: Option<(Cow<Url>, Cow<Url>)>) -> Option<(Seq<char>, Seq<char>)> {
    match taken {
        Some((from, to)) => Some((from@, to@)),
        None => None,
    }
}

/// The url behind a lent or held url.
pub(crate) fn url_of<'b>(url: &'b Cow<'_, Url>) -> (inner: &'b Url)
    ensures
        inner@ == url@,
{
    match url {
        Cow::Borrowed(lent) => lent,
        Cow::Owned(held) => held,
    }
}

/// A mapping from source to destination, at most one rename for each source.
///
/// Its view is the map from the text of each source to the text of its
/// destination. In which order the renames are kept is not part of it.
#[derive(Debug)]
pub struct Changes<'a> {
    pub(crate) pairs: Vec<(Cow<'a, Url>, Cow<'a, Url>)>,
}

impl<'a> View for Changes<'a> {
    type V = Map<Seq<char>, Seq<char>>;

    open(crate) spec fn view(&self) -> Map<Seq<char>, Seq<char>> {
        renames_of(self.entries())
    }
}

impl<'a> Changes<'a> {
    /// The texts of the pairs, in the order in which they are kept.
    pub(crate) open spec fn entries(&self) -> Seq<(Seq<char>, Seq<char>)> {
        texts(self.pairs@)
    }

    #[verifier::type_invariant]
    pub(crate) open spec fn no_source_twice(&self) -> bool {
        distinct_sources(self.entries())
    }

    /// Every url of the change set is lent: none was copied.
    pub open(crate) spec fn is_borrowed(&self) -> bool {
        forall|i: int|
            0 <= i < self.pairs@.len() ==> (#[trigger] self.pairs@[i]).0 is Borrowed
                && self.pairs@[i].1 is Borrowed
    }

    /// Every url of the change set is held by value: none is lent.
    pub open(crate) spec fn is_owned(&self) -> bool {
        forall|i: int|
            0 <= i < self.pairs@.len() ==> (#[trigger] self.pairs@[i]).0 is Owned
                && self.pairs@[i].1 is Owned
    }

    /// The number of renames.
    pub fn len(&self) -> (count: usize)
        ensures
            self@.dom().finite(),
            count == self@.len(),
    {
        proof {
            use_type_invariant(self);
            lemma_renames_pairs(self.entries());
        }
        self.pairs.len()
    }

    /// The destination that `from` is renamed to, if the change set renames it.
    pub fn get(&self, from: &Url) -> (to: Option<&Url>)
        ensures
            match to {
                Some(to) => self@.contains_pair(from@, to@),
                None => !self@.contains_key(from@),
            },
    {
        proof {
            use_type_invariant(self);
        }
        let mut at: usize = 0;
        while at < self.pairs.len()
            invariant
                at <= self.pairs.len(),
                distinct_sources(self.entries()),
                forall|i: int| 0 <= i < at ==> (#[trigger] self.entries()[i]).0 != from@,
            decreases self.pairs.len() - at,
        {
            if *url_of(&self.pairs[at].0) == *from {
                proof {
                    lemma_renames_pairs(self.entries());
                    assert(self.entries()[at as int].0 == from@);
                }
                return Some(url_of(&self.pairs[at].1));
            }
            at += 1;
        }
        proof {
            lemma_renames_sources(self.entries());
        }
        None
    }

    /// All renames of the change set, each once, the change set left as it
    /// is. In which order they are listed is not specified.
    pub fn pairs(&self) -> (all: Vec<(&Url, &Url)>)
        ensures
            all@.len() == self@.len(),
            forall|i: int|
                0 <= i < all@.len() ==> self@.contains_pair((#[trigger] all@[i]).0@, all@[i].1@),
            forall|i: int, j: int|
                0 <= i < j < all@.len() ==> (#[trigger] all@[i]).0@ != (#[trigger] all@[j]).0@,
            forall|from: Seq<char>| #[trigger]
                self@.contains_key(from) ==> exists|i: int|
                    0 <= i < all@.len() && (#[trigger] all@[i]).0@ == from,
    {
        let mut all: Vec<(&Url, &Url)> = Vec::new();
        let mut at: usize = 0;
        while at < self.pairs.len()
            invariant
                at <= self.pairs.len(),
                all@.len() == at,
                forall|i: int|
                    0 <= i < at ==> (#[trigger] all@[i]).0@ == self.entries()[i].0 && all@[i].1@
                        == self.entries()[i].1,
            decreases self.pairs.len() - at,
        {
            all.push((url_of(&self.pairs[at].0), url_of(&self.pairs[at].1)));
            at += 1;
        }
        proof {
            use_type_invariant(self);
            let entries = self.entries();
            lemma_renames_pairs(entries);
            lemma_renames_sources(entries);
            assert forall|i: int| 0 <= i < all@.len() implies self@.contains_pair(
                (#[trigger] all@[i]).0@,
                all@[i].1@,
            ) by {
                assert(self@.contains_pair(entries[i].0, entries[i].1));
            }
            assert forall|i: int, j: int| 0 <= i < j < all@.len() implies (#[trigger] all@[i]).0@
                != (#[trigger] all@[j]).0@ by {
                assert(entries[i].0 != entries[j].0);
            }
            assert forall|from: Seq<char>| #[trigger] self@.contains_key(from) implies exists|
                i: int,
            |
                0 <= i < all@.len() && (#[trigger] all@[i]).0@ == from by {
                let i = choose|i: int| 0 <= i < entries.len() && (#[trigger] entries[i]).0 == from;
                assert(all@[i].0@ == from);
            }
        }
        all
    }

    /// Takes one rename out of the change set, if it has any. Which one
    /// leaves is not specified.
    pub fn pop(&mut self) -> (taken: Option<(Cow<'a, Url>, Cow<'a, Url>)>)
        ensures
            stepped(old(self)@, texts_of(taken), final(self)@),
            old(self).is_borrowed() ==> final(self).is_borrowed() && (taken matches Some(
                (from, to),
            ) ==> from is Borrowed && to is Borrowed),
            old(self).is_owned() ==> final(self).is_owned() && (taken matches Some((from, to))
                ==> from is Owned && to is Owned),
    {
        let ghost before = self.entries();
        proof {
            use_type_invariant(&*self);
        }
        let mut pairs: Vec<(Cow<'a, Url>, Cow<'a, Url>)> = Vec::new();
        core::mem::swap(&mut self.pairs, &mut pairs);
        let taken = pairs.pop();
        proof {
            if before.len() > 0 {
                lemma_renames_drop_last(before);
                assert(texts(pairs@) =~= before.drop_last());
            }
        }
        self.pairs = pairs;
        taken
    }
}

} // verus!
