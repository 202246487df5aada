use vstd::prelude::*;
use std::collections::HashMap;
use crate::geom::LIT_MAX;

verus! {

broadcast use vstd::std_specs::hash::group_hash_axioms;

/// Selects one cache entry or all of them.
pub enum Pick<T> {
    One(T),
    All,
}

/// The pixel extent of a decoded image.
#[derive(Clone, Copy, PartialEq, Eq, Structural, Debug)]
pub struct ImageDims {
    pub w: i64,
    pub h: i64,
}

/// The measurements of a loaded font: a fixed per-byte advance, the ascent
/// and the line height, all in pixels.
#[derive(Clone, Copy, PartialEq, Eq, Structural, Debug)]
pub struct FontAsset {
    pub advance: i64,
    pub ascent: i64,
    pub height: i64,
}

pub open spec fn wf_dims(d: ImageDims) -> bool {
    &&& 0 <= d.w <= LIT_MAX
    &&& 0 <= d.h <= LIT_MAX
}

pub open spec fn wf_metrics(m: FontAsset) -> bool {
    &&& 0 <= m.advance <= LIT_MAX
    &&& 0 <= m.ascent <= LIT_MAX
    &&& 0 <= m.height <= LIT_MAX
}

/// The image cache: decoded pixel extents keyed by source identifier.
/// Lookup is non-blocking, cache-or-miss; fetching and decoding happen
/// outside and are delivered through `insert` between frames.
pub struct Images {
    pub img: HashMap<u64, ImageDims>,
}

impl Images {
    pub open spec fn wf(self) -> bool {
        forall|src: u64| self.img@.contains_key(src) ==> wf_dims(#[trigger] self.img@[src])
    }

    pub fn new() -> (r: Images)
        ensures
            r.img@ == Map::<u64, ImageDims>::empty(),
            r.wf(),
    {
        Images { img: HashMap::new() }
    }

    /// Non-blocking lookup: the decoded extent, or nothing while the asset
    /// is absent or still being fetched.
    pub fn load(&self, src: u64) -> (r: Option<ImageDims>)
        ensures
            r == if self.img@.contains_key(src) {
                Some(self.img@[src])
            } else {
                None::<ImageDims>
            },
    {
        match self.img.get(&src) {
            Some(d) => Some(*d),
            None => None,
        }
    }

    /// Delivery of a completed fetch into the cache.
    pub fn insert(&mut self, src: u64, dims: ImageDims)
        requires
            wf_dims(dims),
        ensures
            final(self).img@ == old(self).img@.insert(src, dims),
            old(self).wf() ==> final(self).wf(),
    {
        self.img.insert(src, dims);
    }

    /// Drops one entry, or every entry, so a later frame fetches it anew.
    pub fn invalidate(&mut self, pick: Pick<u64>)
        ensures
            match pick {
                Pick::All => final(self).img@ == Map::<u64, ImageDims>::empty(),
                Pick::One(src) => final(self).img@ == old(self).img@.remove(src),
            },
            old(self).wf() ==> final(self).wf(),
    {
        match pick {
            Pick::All => self.img.clear(),
            Pick::One(src) => {
                self.img.remove(&src);
            },
        }
    }
}

/// The font cache: measurements keyed by font asset key. Loading and
/// rasterisation happen outside; `insert` delivers the measurements.
pub struct Fonts {
    pub fonts: HashMap<u64, FontAsset>,
}

impl Fonts {
    pub open spec fn wf(self) -> bool {
        forall|k: u64| self.fonts@.contains_key(k) ==> wf_metrics(#[trigger] self.fonts@[k])
    }

    pub fn new() -> (r: Fonts)
        ensures
            r.fonts@ == Map::<u64, FontAsset>::empty(),
            r.wf(),
    {
        Fonts { fonts: HashMap::new() }
    }

    /// Non-blocking lookup of a font's measurements.
    pub fn load_asset(&self, key: u64) -> (r: Option<FontAsset>)
        ensures
            r == if self.fonts@.contains_key(key) {
                Some(self.fonts@[key])
            } else {
                None::<FontAsset>
            },
    {
        match self.fonts.get(&key) {
            Some(m) => Some(*m),
            None => None,
        }
    }

    pub fn insert(&mut self, key: u64, metrics: FontAsset)
        requires
            wf_metrics(metrics),
        ensures
            final(self).fonts@ == old(self).fonts@.insert(key, metrics),
            old(self).wf() ==> final(self).wf(),
    {
        self.fonts.insert(key, metrics);
    }

    pub fn invalidate(&mut self, pick: Pick<u64>)
        ensures
            match pick {
                Pick::All => final(self).fonts@ == Map::<u64, FontAsset>::empty(),
                Pick::One(k) => final(self).fonts@ == old(self).fonts@.remove(k),
            },
            old(self).wf() ==> final(self).wf(),
    {
        match pick {
            Pick::All => self.fonts.clear(),
            Pick::One(k) => {
                self.fonts.remove(&k);
            },
        }
    }
}

} // verus!
