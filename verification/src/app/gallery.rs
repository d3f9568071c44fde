//! The flyer gallery page, cached in memory once per kind of viewer.
use vstd::prelude::*;

use crate::db::user::User;

verus! {

/// The rendered gallery for visitors and for signed-in users (who also see unlisted
/// events), with the flyer cache generation they were rendered at.
#[derive(Clone, Debug)]
pub struct GalleryCache {
    pub generation: u64,
    pub public: Option<Vec<u8>>,
    pub unlisted: Option<Vec<u8>>,
}

pub open spec fn bytes_view(b: Option<Vec<u8>>) -> Option<Seq<u8>> {
    match b {
        Some(v) => Some(v@),
        None => None,
    }
}

/// The page a viewer is served from the cache: none once a flyer changed since it was
/// rendered, else the signed-in or the visitor page.
pub open spec fn cached_page(cache: GalleryCache, signed_in: bool, current_generation: u64) -> Option<Seq<u8>> {
    if current_generation > cache.generation {
        None
    } else if signed_in {
        bytes_view(cache.unlisted)
    } else {
        bytes_view(cache.public)
    }
}

impl GalleryCache {
    pub fn new() -> (c: GalleryCache)
        ensures
            c.generation == 0,
            c.public is None,
            c.unlisted is None,
    {
        GalleryCache { generation: 0, public: None, unlisted: None }
    }

    /// The cached page for this viewer, if it is still current.
    pub fn get(&self, user: &Option<User>, current_generation: u64) -> (r: Option<Vec<u8>>)
        ensures
            bytes_view(r) == cached_page(*self, user is Some, current_generation),
    {
        if current_generation > self.generation {
            return None;
        }
        match user {
            Some(_) => match &self.unlisted {
                Some(v) => Some(v.clone()),
                None => None,
            },
            None => match &self.public {
                Some(v) => Some(v.clone()),
                None => None,
            },
        }
    }

    /// Keeps the page rendered for this viewer at the current generation.
    pub fn insert(&mut self, user: &Option<User>, current_generation: u64, html: Vec<u8>)
        ensures
            final(self).generation == current_generation,
            user is Some ==> bytes_view(final(self).unlisted) == Some(html@) && final(self).public == old(self).public,
            user is None ==> bytes_view(final(self).public) == Some(html@) && final(self).unlisted == old(self).unlisted,
    {
        self.generation = current_generation;
        match user {
            Some(_) => self.unlisted = Some(html),
            None => self.public = Some(html),
        }
    }
}

/// A page kept for a viewer is served back to that viewer until the flyers change, and
/// not after.
pub proof fn lemma_gallery_read_after_write(
    after: GalleryCache,
    signed_in: bool,
    generation: u64,
    later: u64,
    html: Seq<u8>,
)
    requires
        after.generation == generation,
        signed_in ==> bytes_view(after.unlisted) == Some(html),
        !signed_in ==> bytes_view(after.public) == Some(html),
    ensures
        cached_page(after, signed_in, generation) == Some(html),
        later > generation ==> cached_page(after, signed_in, later) is None,
{
}

} // verus!
