use base64::Engine;
use dashmap::DashMap;
use vstd::prelude::*;

use crate::text::str_eq;

verus! {

/// An event's flyer as shown on its page.
#[derive(Clone, Debug)]
pub struct EventFlyer {
    pub width: i64,
    pub height: i64,
    pub thumb_base64: String,
    pub version: i64,
}

/// A flyer tile of the gallery.
#[derive(Clone, Debug)]
pub struct GalleryEventFlyer {
    pub slug: String,
    pub title: String,
    pub unlisted: bool,
    pub width: i64,
    pub height: i64,
}

/// The stored image column for a requested size, or nothing for an unknown size.
pub open spec fn size_column_of(size: Option<Seq<char>>) -> Option<Seq<char>> {
    match size {
        None => Some("image_full"@),
        Some(s) => if s == "thumb"@ {
            Some("image_thumb"@)
        } else if s == "sm"@ {
            Some("image_sm"@)
        } else if s == "md"@ {
            Some("image_md"@)
        } else if s == "lg"@ {
            Some("image_lg"@)
        } else {
            None
        },
    }
}

impl EventFlyer {
    pub const CONTENT_TYPE: &'static str = "image/jpeg";

    /// The image column that serves a requested size; the full image when none is asked
    /// for, nothing (an invalid request) for an unknown size.
    pub fn size_column(size: Option<&str>) -> (r: Option<&'static str>)
        ensures
            match r {
                None => size_column_of(match size {
                    Some(s) => Some(s@),
                    None => None,
                }) is None,
                Some(c) => size_column_of(match size {
                    Some(s) => Some(s@),
                    None => None,
                }) == Some(c@),
            },
    {
        match size {
            None => Some("image_full"),
            Some(s) => if str_eq(s, "thumb") {
                Some("image_thumb")
            } else if str_eq(s, "sm") {
                Some("image_sm")
            } else if str_eq(s, "md") {
                Some("image_md")
            } else if str_eq(s, "lg") {
                Some("image_lg")
            } else {
                None
            },
        }
    }
}

/// The character of the standard base64 alphabet (RFC 4648) for the six-bit value `v`.
pub open spec fn base64_char(v: int) -> char {
    if v < 26 {
        ('A' as int + v) as char
    } else if v < 52 {
        ('a' as int + (v - 26)) as char
    } else if v < 62 {
        ('0' as int + (v - 52)) as char
    } else if v == 62 {
        '+'
    } else {
        '/'
    }
}

/// The standard base64 encoding of `bytes`, with padding: each group of three bytes becomes
/// four characters, six bits each, most significant first; a last group of one or two bytes
/// becomes two or three characters, its missing bits zero, and `=` up to four.
pub open spec fn base64_standard(bytes: Seq<u8>) -> Seq<char>
    decreases bytes.len(),
{
    if bytes.len() == 0 {
        Seq::empty()
    } else if bytes.len() == 1 {
        let b0 = bytes[0] as int;
        seq![base64_char(b0 / 4), base64_char((b0 % 4) * 16), '=', '=']
    } else if bytes.len() == 2 {
        let b0 = bytes[0] as int;
        let b1 = bytes[1] as int;
        seq![base64_char(b0 / 4), base64_char((b0 % 4) * 16 + b1 / 16), base64_char((b1 % 16) * 4), '=']
    } else {
        let b0 = bytes[0] as int;
        let b1 = bytes[1] as int;
        let b2 = bytes[2] as int;
        seq![
            base64_char(b0 / 4),
            base64_char((b0 % 4) * 16 + b1 / 16),
            base64_char((b1 % 16) * 4 + b2 / 64),
            base64_char(b2 % 64),
        ] + base64_standard(bytes.subrange(3, bytes.len() as int))
    }
}

/// Calls `base64::engine::general_purpose::STANDARD.encode`: the `STANDARD` engine uses the
/// standard alphabet with padding, so the text is `base64_standard` of the bytes.
#[verifier::external_body]
fn base64_encode(bytes: &[u8]) -> (s: String)
    ensures
        s@ == base64_standard(bytes@),
{
    base64::engine::general_purpose::STANDARD.encode(bytes)
}

/// The thumbnail of a flyer as a data URL: `data:image/jpeg;base64,{thumb in base64}`.
pub fn thumb_data_url(thumb: &[u8]) -> (url: String)
    ensures
        url@ == "data:image/jpeg;base64,"@ + base64_standard(thumb@),
{
    let mut url = String::from_str("data:image/jpeg;base64,");
    let encoded = base64_encode(thumb);
    url.append(encoded.as_str());
    url
}

#[verifier::external_type_specification]
#[verifier::external_body]
#[verifier::reject_recursive_types(K)]
#[verifier::reject_recursive_types(V)]
#[verifier::reject_recursive_types(S)]
pub struct ExDashMap<K, V, S>(DashMap<K, V, S>);

/// The map under the flyer cache, keyed by (event slug, size column).
pub type FlyerCacheMap = DashMap<(String, String), Vec<u8>>;

/// What the flyer cache holds: (slug, size column) to image bytes.
pub type FlyerCacheView = Map<(Seq<char>, Seq<char>), Seq<u8>>;

/// What a cache map holds.
pub uninterp spec fn cache_contents(m: FlyerCacheMap) -> FlyerCacheView;

/// Calls `DashMap::new`, which makes an empty map.
#[verifier::external_body]
fn cache_map_new() -> (fresh: FlyerCacheMap)
    ensures
        cache_contents(fresh) == FlyerCacheView::empty(),
{
    DashMap::new()
}

/// Calls `DashMap::get` with the key `(slug, size)` and copies out the bytes it finds.
#[verifier::external_body]
fn cache_map_get(m: &FlyerCacheMap, slug: &str, size: &str) -> (r: Option<Vec<u8>>)
    ensures
        match r {
            Some(v) => cache_contents(*m).contains_key((slug@, size@)) && cache_contents(*m)[(slug@, size@)] == v@,
            None => !cache_contents(*m).contains_key((slug@, size@)),
        },
{
    m.get(&(slug.to_string(), size.to_string())).map(|entry| entry.value().clone())
}

/// Calls `DashMap::insert`, which stores the bytes under the key, replacing what was there.
#[verifier::external_body]
fn cache_map_insert(m: &mut FlyerCacheMap, slug: String, size: String, bytes: Vec<u8>)
    ensures
        cache_contents(*final(m)) == cache_contents(*old(m)).insert((slug@, size@), bytes@),
{
    m.insert((slug, size), bytes);
}

/// Calls `DashMap::remove`, which takes the key out; it answers whether the key was there.
#[verifier::external_body]
fn cache_map_remove(m: &mut FlyerCacheMap, slug: &str, size: &str) -> (removed: bool)
    ensures
        cache_contents(*final(m)) == cache_contents(*old(m)).remove((slug@, size@)),
        removed == cache_contents(*old(m)).contains_key((slug@, size@)),
{
    m.remove(&(slug.to_string(), size.to_string())).is_some()
}

/// The flyer image bytes kept in memory, by event slug and size column, with a counter
/// that moves on every change.
pub struct EventFlyerCache {
    map: FlyerCacheMap,
    generation: u64,
}

/// The sizes that are kept in memory.
pub open spec fn cached_sizes() -> Seq<Seq<char>> {
    seq!["image_thumb"@, "image_sm"@]
}

impl EventFlyerCache {
    /// What the cache holds.
    pub closed spec fn contents(&self) -> FlyerCacheView {
        cache_contents(self.map)
    }

    /// How many changes the cache has seen (wrapping).
    pub closed spec fn changes(&self) -> u64 {
        self.generation
    }

    pub fn new() -> (c: EventFlyerCache)
        ensures
            c.contents() == FlyerCacheView::empty(),
            c.changes() == 0,
    {
        EventFlyerCache { map: cache_map_new(), generation: 0 }
    }

    /// A counter that moves whenever a flyer is added, modified, or removed.
    pub fn generation(&self) -> (g: u64)
        ensures
            g == self.changes(),
    {
        self.generation
    }

    /// The cached bytes of a flyer size, if any.
    pub fn get(&self, slug: &str, size: &str) -> (r: Option<Vec<u8>>)
        ensures
            match r {
                Some(v) => self.contents().contains_key((slug@, size@)) && self.contents()[(slug@, size@)] == v@,
                None => !self.contents().contains_key((slug@, size@)),
            },
    {
        cache_map_get(&self.map, slug, size)
    }

    /// Stores the bytes of a flyer size; this counts as a change.
    pub fn insert(&mut self, slug: &str, size: &str, bytes: Vec<u8>)
        ensures
            final(self).contents() == old(self).contents().insert((slug@, size@), bytes@),
            final(self).changes() == advanced(old(self).changes(), 1),
    {
        cache_map_insert(&mut self.map, String::from_str(slug), String::from_str(size), bytes);
        proof {
            lemma_advance_one(self.generation);
        }
        self.generation = self.generation.wrapping_add(1);
    }

    /// Drops a flyer size. This counts as a change whether or not the size was cached, so
    /// that the removal of a flyer always moves the counter.
    pub fn remove(&mut self, slug: &str, size: &str)
        ensures
            final(self).contents() == old(self).contents().remove((slug@, size@)),
            final(self).changes() == advanced(old(self).changes(), 1),
    {
        cache_map_remove(&mut self.map, slug, size);
        proof {
            lemma_advance_one(self.generation);
        }
        self.generation = self.generation.wrapping_add(1);
    }

    /// Caches the small sizes of a newly stored flyer: two changes.
    pub fn store_flyer(&mut self, slug: &str, image_thumb: Vec<u8>, image_sm: Vec<u8>)
        ensures
            final(self).contents() == old(self).contents().insert((slug@, "image_thumb"@), image_thumb@).insert(
                (slug@, "image_sm"@),
                image_sm@,
            ),
            final(self).changes() == advanced(old(self).changes(), 2),
    {
        let ghost g = self.changes();
        self.insert(slug, "image_thumb", image_thumb);
        self.insert(slug, "image_sm", image_sm);
        proof {
            lemma_advance_composes(g, 1, 1);
        }
    }

    /// Forgets the cached sizes of a deleted flyer: two changes.
    pub fn forget_flyer(&mut self, slug: &str)
        ensures
            final(self).contents() == old(self).contents().remove((slug@, "image_thumb"@)).remove((slug@, "image_sm"@)),
            final(self).changes() == advanced(old(self).changes(), 2),
    {
        let ghost g = self.changes();
        self.remove(slug, "image_thumb");
        self.remove(slug, "image_sm");
        proof {
            lemma_advance_composes(g, 1, 1);
        }
    }

    /// Copies the cached sizes of one event's flyer to another event, one change per size
    /// copied; a size the first event does not have cached is left as it was for the other.
    pub fn copy_flyer(&mut self, old_slug: &str, new_slug: &str)
        ensures
            final(self).contents() == copy_size(
                copy_size(old(self).contents(), old_slug@, new_slug@, "image_thumb"@),
                old_slug@,
                new_slug@,
                "image_sm"@,
            ),
            final(self).changes() == advanced(
                old(self).changes(),
                copied(old(self).contents(), old_slug@, "image_thumb"@) + copied(
                    copy_size(old(self).contents(), old_slug@, new_slug@, "image_thumb"@),
                    old_slug@,
                    "image_sm"@,
                ),
            ),
    {
        let ghost g = self.changes();
        let ghost c0 = self.contents();
        match self.get(old_slug, "image_thumb") {
            Some(bytes) => self.insert(new_slug, "image_thumb", bytes),
            None => {
                proof {
                    lemma_advance_zero(g);
                }
            },
        }
        let ghost g1 = self.changes();
        match self.get(old_slug, "image_sm") {
            Some(bytes) => self.insert(new_slug, "image_sm", bytes),
            None => {
                proof {
                    lemma_advance_zero(g1);
                }
            },
        }
        proof {
            lemma_advance_composes(
                g,
                copied(c0, old_slug@, "image_thumb"@),
                copied(copy_size(c0, old_slug@, new_slug@, "image_thumb"@), old_slug@, "image_sm"@),
            );
        }
    }
}

/// `c` with the size `size` of `old_slug`, if cached, copied to `new_slug`.
pub open spec fn copy_size(c: FlyerCacheView, old_slug: Seq<char>, new_slug: Seq<char>, size: Seq<char>) -> FlyerCacheView {
    if c.contains_key((old_slug, size)) {
        c.insert((new_slug, size), c[(old_slug, size)])
    } else {
        c
    }
}

/// One if the size `size` of `old_slug` is cached in `c`, else zero.
pub open spec fn copied(c: FlyerCacheView, old_slug: Seq<char>, size: Seq<char>) -> nat {
    if c.contains_key((old_slug, size)) { 1 } else { 0 }
}

/// The change counter `g` after `n` more changes; it wraps around after `u64::MAX`.
pub open spec fn advanced(g: u64, n: nat) -> u64 {
    ((g + n) % 0x1_0000_0000_0000_0000) as u64
}

proof fn lemma_advance_one(g: u64)
    ensures
        g.wrapping_add(1) == advanced(g, 1),
{
}

proof fn lemma_advance_zero(g: u64)
    ensures
        advanced(g, 0) == g,
{
}

/// Changes add up: `a` changes and then `b` more move the counter as `a + b` changes do.
pub proof fn lemma_advance_composes(g: u64, a: nat, b: nat)
    ensures
        advanced(advanced(g, a), b) == advanced(g, a + b),
{
    let m: int = 0x1_0000_0000_0000_0000;
    vstd::arithmetic::div_mod::lemma_add_mod_noop(g + a, b as int, m);
    vstd::arithmetic::div_mod::lemma_add_mod_noop((g + a) % m, b as int, m);
    vstd::arithmetic::div_mod::lemma_mod_twice(g + a, m);
    vstd::arithmetic::div_mod::lemma_mod_bound(g + a, m);
}

/// The flyer counter never goes back unless it wraps around: over any run of cache
/// operations that made `n` changes in all (each operation states its own count, which
/// `lemma_advance_composes` adds up), the counter moves forward by `n`, so it is larger
/// afterwards whenever there was a change, as long as it does not pass `u64::MAX`.
pub proof fn lemma_generation_moves_forward(g: u64, n: nat)
    requires
        g + n <= u64::MAX,
    ensures
        advanced(g, n) == g + n,
        advanced(g, n) >= g,
        n > 0 ==> advanced(g, n) > g,
{
    vstd::arithmetic::div_mod::lemma_small_mod((g + n) as nat, 0x1_0000_0000_0000_0000);
}

/// A read gives back what the last write of that key stored, and a removed key reads as
/// missing; other keys are untouched by either.
pub proof fn lemma_cache_read_after_write(
    contents: FlyerCacheView,
    key: (Seq<char>, Seq<char>),
    other: (Seq<char>, Seq<char>),
    bytes: Seq<u8>,
)
    requires
        other != key,
    ensures
        contents.insert(key, bytes).contains_key(key),
        contents.insert(key, bytes)[key] == bytes,
        !contents.remove(key).contains_key(key),
        contents.insert(key, bytes).contains_key(other) == contents.contains_key(other),
        contents.remove(key).contains_key(other) == contents.contains_key(other),
        contents.contains_key(other) ==> contents.insert(key, bytes)[other] == contents[other]
            && contents.remove(key)[other] == contents[other],
{
}

impl EventFlyer {
    /// A counter that moves any time a flyer is added, modified, or removed in `cache`.
    pub fn cache_generation(cache: &EventFlyerCache) -> (g: u64)
        ensures
            g == cache.changes(),
    {
        cache.generation()
    }
}

} // verus!
