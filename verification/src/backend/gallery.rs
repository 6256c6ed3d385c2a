//! The gallery: every listed event with its metadata. Listing and fetching
//! are remote reads; the decisions between them (which id to fetch next,
//! how answers pair with ids, when to stop) are made here.

use vstd::prelude::*;

use crate::backend::domain::{Event, EventMetadata};
use crate::backend::error::AppError;

verus! {

/// A gallery being gathered: the listed ids, and the events gathered so far
/// (one per id, in listing order).
pub struct Gallery {
    ids: Vec<String>,
    events: Vec<Event>,
}

/// What to do next while gathering a gallery.
pub enum GalleryAction {
    /// Fetch the metadata of this id.
    Fetch(String),
    /// Every id is fetched: the gallery.
    Done(Vec<Event>),
    /// A read failed: the gallery fails with its error.
    Fail(AppError),
}

impl Gallery {
    /// The listed ids.
    pub closed spec fn listed(&self) -> Seq<String> {
        self.ids@
    }

    /// The events gathered so far.
    pub closed spec fn gathered(&self) -> Seq<Event> {
        self.events@
    }

    /// Whether some listed id is still to be fetched.
    pub fn is_pending(&self) -> (r: bool)
        ensures
            r == (self.gathered().len() < self.listed().len()),
    {
        self.events.len() < self.ids.len()
    }
}

/// Starts a gallery from the answer of the listing read: fails with its
/// error, is done at once when nothing is listed, and else fetches the
/// first listed id.
pub fn gallery_start(listed: Result<Vec<String>, AppError>) -> (r: (Gallery, GalleryAction))
    ensures
        match listed {
            Err(e) => r.1 == GalleryAction::Fail(e),
            Ok(ids) => {
                &&& r.0.listed() == ids@
                &&& r.0.gathered() == Seq::<Event>::empty()
                &&& if ids@.len() == 0 {
                    r.1 matches GalleryAction::Done(v) && v@.len() == 0
                } else {
                    r.1 == GalleryAction::Fetch(ids@[0])
                }
            },
        },
{
    match listed {
        Err(e) => (Gallery { ids: Vec::new(), events: Vec::new() }, GalleryAction::Fail(e)),
        Ok(ids) => {
            let action = if ids.len() == 0 {
                GalleryAction::Done(Vec::new())
            } else {
                GalleryAction::Fetch(ids[0].clone())
            };
            (Gallery { ids, events: Vec::new() }, action)
        },
    }
}

/// Takes the answer of fetching the next id's metadata: fails with its
/// error; else pairs the metadata with that id, and is done when every
/// listed id is fetched, or fetches the next one.
pub fn gallery_step(g: Gallery, fetched: Result<EventMetadata, AppError>) -> (r: (
    Gallery,
    GalleryAction,
))
    requires
        g.gathered().len() < g.listed().len(),
    ensures
        match fetched {
            Err(e) => r.1 == GalleryAction::Fail(e),
            Ok(m) => {
                let events = g.gathered().push(
                    Event { id: g.listed()[g.gathered().len() as int], metadata: m },
                );
                if events.len() == g.listed().len() {
                    r.1 matches GalleryAction::Done(v) && v@ == events
                } else {
                    &&& r.0.listed() == g.listed()
                    &&& r.0.gathered() == events
                    &&& r.1 == GalleryAction::Fetch(g.listed()[events.len() as int])
                }
            },
        },
{
    let Gallery { ids, mut events } = g;
    match fetched {
        Err(e) => (Gallery { ids, events }, GalleryAction::Fail(e)),
        Ok(metadata) => {
            let k = events.len();
            events.push(Event { id: ids[k].clone(), metadata });
            if events.len() == ids.len() {
                (Gallery { ids, events: Vec::new() }, GalleryAction::Done(events))
            } else {
                let next = ids[k + 1].clone();
                (Gallery { ids, events }, GalleryAction::Fetch(next))
            }
        },
    }
}

} // verus!
