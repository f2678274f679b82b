//! The bulk-rename event and its two ways of construction.

use crate::changes::texts;
use crate::changes::Changes;
use crate::renames::Renames;
use crate::url::Url;
use std::borrow::Cow;
use vstd::prelude::*;
use vstd::std_specs::convert::FromSpecImpl;

verus! {

/// The renames made in one tab.
#[derive(Debug)]
pub struct BodyBulk<'a> {
    /// The tab in which the renames were made.
    pub tab: usize,
    /// The renames, from source to destination.
    pub changes: Changes<'a>,
}

/// The payload of an event. Only the bulk rename is modelled here.
#[derive(Debug)]
pub enum Body<'a> {
    /// A batch of renames made in one tab.
    Bulk(BodyBulk<'a>),
}

impl<'a> BodyBulk<'a> {
    /// The event that lends every url of `changes`: no url is copied, so the
    /// event lives no longer than the urls do.
    #[inline]
    pub fn borrowed(tab: usize, changes: &Renames<'a>) -> (body: Body<'a>)
        ensures
            body matches Body::Bulk(bulk) && {
                &&& bulk.tab == tab
                &&& bulk.changes@ == changes@
                &&& bulk.changes.is_borrowed()
            },
    {
        proof {
            use_type_invariant(changes);
        }
        let mut pairs: Vec<(Cow<'a, Url>, Cow<'a, Url>)> = Vec::new();
        let mut at: usize = 0;
        while at < changes.pairs.len()
            invariant
                at <= changes.pairs.len(),
                pairs.len() == at,
                forall|i: int|
                    0 <= i < at ==> (#[trigger] pairs[i]).0 is Borrowed && pairs[i].1 is Borrowed,
                forall|i: int| 0 <= i < at ==> texts(pairs@)[i] == #[trigger] changes.entries()[i],
            decreases changes.pairs.len() - at,
        {
            let (from, to) = changes.pairs[at];
            pairs.push((Cow::Borrowed(from), Cow::Borrowed(to)));
            at += 1;
        }
        assert(texts(pairs@) =~= changes.entries());
        Body::from(BodyBulk { tab, changes: Changes { pairs } })
    }
}

impl BodyBulk<'static> {
    /// The event that holds a copy of every url of `changes`, and so depends
    /// on nothing that the caller keeps.
    #[inline]
    pub fn owned(tab: usize, changes: &Renames<'_>) -> (body: Body<'static>)
        ensures
            body matches Body::Bulk(bulk) && {
                &&& bulk.tab == tab
                &&& bulk.changes@ == changes@
                &&& bulk.changes.is_owned()
            },
    {
        proof {
            use_type_invariant(changes);
        }
        let mut pairs: Vec<(Cow<'static, Url>, Cow<'static, Url>)> = Vec::new();
        let mut at: usize = 0;
        while at < changes.pairs.len()
            invariant
                at <= changes.pairs.len(),
                pairs.len() == at,
                forall|i: int|
                    0 <= i < at ==> (#[trigger] pairs[i]).0 is Owned && pairs[i].1 is Owned,
                forall|i: int| 0 <= i < at ==> texts(pairs@)[i] == #[trigger] changes.entries()[i],
            decreases changes.pairs.len() - at,
        {
            let (from, to) = changes.pairs[at];
            pairs.push((Cow::Owned(from.clone()), Cow::Owned(to.clone())));
            at += 1;
        }
        assert(texts(pairs@) =~= changes.entries());
        Body::from(BodyBulk { tab, changes: Changes { pairs } })
    }
}

impl<'a> From<BodyBulk<'a>> for Body<'a> {
    fn from(value: BodyBulk<'a>) -> (body: Self) {
        Body::Bulk(value)
    }
}

impl<'a> FromSpecImpl<BodyBulk<'a>> for Body<'a> {
    open spec fn obeys_from_spec() -> bool {
        true
    }

    open spec fn from_spec(value: BodyBulk<'a>) -> Self {
        Body::Bulk(value)
    }
}

} // verus!
