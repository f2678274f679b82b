//! The cursor that hands an owned change set out, one rename at a step.

use crate::bulk::BodyBulk;
use crate::changes::Changes;
use crate::steps::stepped;
use crate::url::Url;
use mlua::AnyUserData;
use mlua::Error;
use std::borrow::Cow;
use vstd::prelude::*;

verus! {

/// The texts of a pair of urls that a step handed out.
pub open spec fn texts_of(handed: Option<(Url, Url)>) -> Option<(Seq<char>, Seq<char>)> {
    match handed {
        Some((from, to)) => Some((from@, to@)),
        None => None,
    }
}

/// The url itself: a held one is moved out, a lent one is copied.
fn into_owned(url: Cow<'static, Url>) -> (owned: Url)
    ensures
        owned@ == url@,
{
    match url {
        Cow::Borrowed(lent) => lent.clone(),
        Cow::Owned(held) => held,
    }
}

/// A single-pass cursor over the renames of one event.
#[derive(Debug)]
pub struct BodyBulkIter {
    /// The tab in which the renames were made.
    pub tab: usize,
    /// The renames that no step has handed out yet.
    pub inner: Changes<'static>,
}

impl BodyBulkIter {
    /// The cursor over all renames of `bulk`.
    pub fn new(bulk: BodyBulk<'static>) -> (cursor: Self)
        ensures
            cursor.tab == bulk.tab,
            cursor.inner == bulk.changes,
    {
        BodyBulkIter { tab: bulk.tab, inner: bulk.changes }
    }

    /// The number of renames that are left: it goes down by one at each
    /// step that hands a rename out.
    pub fn len(&self) -> (left: usize)
        ensures
            self.inner@.dom().finite(),
            left == self.inner@.len(),
    {
        self.inner.len()
    }

    /// One step: removes one of the renames that are left and hands it out
    /// by value, or returns `None` where none is left. Which rename leaves is
    /// not specified.
    pub fn next(&mut self) -> (handed: Option<(Url, Url)>)
        ensures
            final(self).tab == old(self).tab,
            stepped(old(self).inner@, texts_of(handed), final(self).inner@),
    {
        match self.inner.pop() {
            Some((from, to)) => Some((into_owned(from), into_owned(to))),
            None => None,
        }
    }
}

/// What a step returns to the scripting runtime, given what the runtime
/// made of the rename that `next` handed out, if it handed one out: the
/// completion signal where it handed out none, and else the handles to the
/// source and to the destination, or the runtime's error.
pub fn step_result<'lua>(
    made: Option<Result<(AnyUserData<'lua>, AnyUserData<'lua>), Error>>,
) -> (handed: Result<Option<(AnyUserData<'lua>, AnyUserData<'lua>)>, Error>)
    ensures
        handed == match made {
            None => Ok(None),
            Some(Ok(handles)) => Ok(Some(handles)),
            Some(Err(error)) => Err(error),
        },
{
    match made {
        None => Ok(None),
        Some(Ok(handles)) => Ok(Some(handles)),
        Some(Err(error)) => Err(error),
    }
}

} // verus!
