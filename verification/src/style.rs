use vstd::prelude::*;
use std::collections::HashMap;
use crate::geom::{Pad, LIT_MAX, wf_pad};

verus! {

broadcast use vstd::std_specs::hash::group_hash_axioms;

/// The conventional identifier of a sheet's default entry.
pub const DEFAULT: u64 = 0;

/// A solid ARGB color.
#[derive(Clone, Copy, PartialEq, Eq, Structural, Debug)]
pub struct Color {
    pub a: u8,
    pub r: u8,
    pub g: u8,
    pub b: u8,
}

/// A style value: an inline literal wins; a symbolic identifier is looked up
/// in the sheet and falls back to the fixed default of its category.
#[derive(Clone, Copy, PartialEq, Eq, Structural, Debug)]
pub enum ColorVal {
    Lit(Color),
    Id(u64),
}

#[derive(Clone, Copy, PartialEq, Eq, Structural, Debug)]
pub enum PadVal {
    Lit(Pad),
    Id(u64),
}

/// A font reference: `Key` names a loaded font asset directly, `Id` goes
/// through the sheet's font table.
#[derive(Clone, Copy, PartialEq, Eq, Structural, Debug)]
pub enum FontVal {
    Key(u64),
    Id(u64),
}

/// The fixed color used when a symbolic reference misses: opaque black.
pub open spec fn fallback_color() -> Color {
    Color { a: 255, r: 0, g: 0, b: 0 }
}

/// The fixed pad used when a symbolic reference misses: no insets.
pub open spec fn fallback_pad() -> Pad {
    Pad { left: 0, right: 0, top: 0, low: 0 }
}

pub open spec fn resolve_color_in(m: Map<u64, Color>, v: ColorVal) -> Color {
    match v {
        ColorVal::Lit(c) => c,
        ColorVal::Id(id) => if m.contains_key(id) {
            m[id]
        } else {
            fallback_color()
        },
    }
}

pub open spec fn resolve_pad_in(m: Map<u64, Pad>, v: PadVal) -> Pad {
    match v {
        PadVal::Lit(p) => p,
        PadVal::Id(id) => if m.contains_key(id) {
            m[id]
        } else {
            fallback_pad()
        },
    }
}

pub open spec fn resolve_font_in(m: Map<u64, u64>, v: FontVal) -> u64 {
    match v {
        FontVal::Key(k) => k,
        FontVal::Id(id) => if m.contains_key(id) {
            m[id]
        } else {
            DEFAULT
        },
    }
}

/// The shared style sheet: symbolic identifiers for colors, pads and fonts.
pub struct Sheet {
    pub colors: HashMap<u64, Color>,
    pub pads: HashMap<u64, Pad>,
    pub fonts: HashMap<u64, u64>,
}

impl Sheet {
    pub open spec fn wf(self) -> bool {
        forall|id: u64| self.pads@.contains_key(id) ==> wf_pad(#[trigger] self.pads@[id])
    }

    pub fn new() -> (r: Sheet)
        ensures
            r.colors@ == Map::<u64, Color>::empty(),
            r.pads@ == Map::<u64, Pad>::empty(),
            r.fonts@ == Map::<u64, u64>::empty(),
            r.wf(),
    {
        Sheet { colors: HashMap::new(), pads: HashMap::new(), fonts: HashMap::new() }
    }

    pub fn set_color(&mut self, id: u64, c: Color)
        ensures
            final(self).colors@ == old(self).colors@.insert(id, c),
            final(self).pads@ == old(self).pads@,
            final(self).fonts@ == old(self).fonts@,
            old(self).wf() ==> final(self).wf(),
    {
        self.colors.insert(id, c);
    }

    pub fn set_pad(&mut self, id: u64, p: Pad)
        requires
            wf_pad(p),
        ensures
            final(self).pads@ == old(self).pads@.insert(id, p),
            final(self).colors@ == old(self).colors@,
            final(self).fonts@ == old(self).fonts@,
            old(self).wf() ==> final(self).wf(),
    {
        self.pads.insert(id, p);
    }

    pub fn set_font(&mut self, id: u64, key: u64)
        ensures
            final(self).fonts@ == old(self).fonts@.insert(id, key),
            final(self).colors@ == old(self).colors@,
            final(self).pads@ == old(self).pads@,
            old(self).wf() ==> final(self).wf(),
    {
        self.fonts.insert(id, key);
    }

    /// Resolution never fails: a literal wins, a known identifier is looked
    /// up, anything else becomes the fixed default of the category.
    pub fn resolve_color(&self, v: ColorVal) -> (c: Color)
        ensures
            c == resolve_color_in(self.colors@, v),
    {
        match v {
            ColorVal::Lit(c) => c,
            ColorVal::Id(id) => match self.colors.get(&id) {
                Some(c) => *c,
                None => Color { a: 255, r: 0, g: 0, b: 0 },
            },
        }
    }

    pub fn resolve_pad(&self, v: PadVal) -> (p: Pad)
        ensures
            p == resolve_pad_in(self.pads@, v),
    {
        match v {
            PadVal::Lit(p) => p,
            PadVal::Id(id) => match self.pads.get(&id) {
                Some(p) => *p,
                None => Pad { left: 0, right: 0, top: 0, low: 0 },
            },
        }
    }

    pub fn resolve_font(&self, v: FontVal) -> (k: u64)
        ensures
            k == resolve_font_in(self.fonts@, v),
    {
        match v {
            FontVal::Key(k) => k,
            FontVal::Id(id) => match self.fonts.get(&id) {
                Some(k) => *k,
                None => DEFAULT,
            },
        }
    }
}

/// Well-formedness of a color value needs nothing; of a pad value, that an
/// inline literal stays within the configured-length bound.
pub open spec fn wf_pad_val(v: PadVal) -> bool {
    match v {
        PadVal::Lit(p) => wf_pad(p),
        PadVal::Id(_) => true,
    }
}

pub proof fn lemma_resolved_pad_wf(m: Map<u64, Pad>, v: PadVal)
    requires
        forall|id: u64| m.contains_key(id) ==> wf_pad(#[trigger] m[id]),
        wf_pad_val(v),
    ensures
        wf_pad(resolve_pad_in(m, v)),
{
}

} // verus!
