//! Visual selection. The server's setup and its render extension's pixel
//! formats arrive here as plain values; `choose_visual` prefers a 32-bit ARGB
//! visual and falls back to the screen's root visual, and
//! `find_xcb_visualtype` finds a visual's description in the layout the
//! rasterizer expects.
use vstd::prelude::*;

verus! {

/// One visual of a screen's depth, as the server's setup describes it.
#[derive(Clone, Copy, PartialEq, Eq, Structural, Debug)]
pub struct Visualtype {
    pub visual_id: u32,
    pub class: u8,
    pub bits_per_rgb_value: u8,
    pub colormap_entries: u16,
    pub red_mask: u32,
    pub green_mask: u32,
    pub blue_mask: u32,
}

/// The visuals of one depth of a screen.
pub struct Depth {
    pub depth: u8,
    pub visuals: Vec<Visualtype>,
}

/// The depths of one screen.
pub struct Screen {
    pub allowed_depths: Vec<Depth>,
}

/// A visual description laid out as the rasterizer's C interface wants it.
#[allow(non_camel_case_types)]
#[derive(Clone, Copy, Debug)]
pub struct xcb_visualtype_t {
    pub visual_id: u32,
    pub class: u8,
    pub bits_per_rgb_value: u8,
    pub colormap_entries: u16,
    pub red_mask: u32,
    pub green_mask: u32,
    pub blue_mask: u32,
    pub pad0: [u8; 4],
}

pub open spec fn same_visual(a: xcb_visualtype_t, v: Visualtype) -> bool {
    &&& a.visual_id == v.visual_id
    &&& a.class == v.class
    &&& a.bits_per_rgb_value == v.bits_per_rgb_value
    &&& a.colormap_entries == v.colormap_entries
    &&& a.red_mask == v.red_mask
    &&& a.green_mask == v.green_mask
    &&& a.blue_mask == v.blue_mask
    &&& a.pad0@ == seq![0u8, 0u8, 0u8, 0u8]
}

impl xcb_visualtype_t {
    /// The description of `a`, with zero padding.
    pub fn from_visualtype(a: Visualtype) -> (r: Self)
        ensures
            same_visual(r, a),
    {
        let r = xcb_visualtype_t {
            visual_id: a.visual_id,
            class: a.class,
            bits_per_rgb_value: a.bits_per_rgb_value,
            colormap_entries: a.colormap_entries,
            red_mask: a.red_mask,
            green_mask: a.green_mask,
            blue_mask: a.blue_mask,
            pad0: [0; 4],
        };
        proof {
            assert(r.pad0@ =~= seq![0u8, 0u8, 0u8, 0u8]);
        }
        r
    }
}

/// The first visual with id `id` among `vs`.
pub open spec fn find_in_visuals(vs: Seq<Visualtype>, id: u32) -> Option<Visualtype>
    decreases vs.len(),
{
    if vs.len() == 0 {
        None
    } else if vs[0].visual_id == id {
        Some(vs[0])
    } else {
        find_in_visuals(vs.drop_first(), id)
    }
}

/// The first visual with id `id` over the depths in order.
pub open spec fn find_in_depths(ds: Seq<Depth>, id: u32) -> Option<Visualtype>
    decreases ds.len(),
{
    if ds.len() == 0 {
        None
    } else {
        match find_in_visuals(ds[0].visuals@, id) {
            Some(v) => Some(v),
            None => find_in_depths(ds.drop_first(), id),
        }
    }
}

/// The first visual with id `id` over every screen's every depth, in order.
pub open spec fn find_in_screens(ss: Seq<Screen>, id: u32) -> Option<Visualtype>
    decreases ss.len(),
{
    if ss.len() == 0 {
        None
    } else {
        match find_in_depths(ss[0].allowed_depths@, id) {
            Some(v) => Some(v),
            None => find_in_screens(ss.drop_first(), id),
        }
    }
}

fn find_visual_in(vs: &Vec<Visualtype>, id: u32) -> (r: Option<Visualtype>)
    ensures
        r == find_in_visuals(vs@, id),
{
    let mut i: usize = 0;
    proof {
        assert(vs@.skip(0) =~= vs@);
    }
    while i < vs.len()
        invariant
            i <= vs@.len(),
            find_in_visuals(vs@.skip(i as int), id) == find_in_visuals(vs@, id),
        decreases vs@.len() - i,
    {
        proof {
            assert(vs@.skip(i as int)[0] == vs@[i as int]);
            assert(vs@.skip(i as int).drop_first() =~= vs@.skip(i as int + 1));
        }
        if vs[i].visual_id == id {
            return Some(vs[i]);
        }
        i = i + 1;
    }
    None
}

fn find_visual_in_depths(ds: &Vec<Depth>, id: u32) -> (r: Option<Visualtype>)
    ensures
        r == find_in_depths(ds@, id),
{
    let mut i: usize = 0;
    proof {
        assert(ds@.skip(0) =~= ds@);
    }
    while i < ds.len()
        invariant
            i <= ds@.len(),
            find_in_depths(ds@.skip(i as int), id) == find_in_depths(ds@, id),
        decreases ds@.len() - i,
    {
        proof {
            assert(ds@.skip(i as int)[0] == ds@[i as int]);
            assert(ds@.skip(i as int).drop_first() =~= ds@.skip(i as int + 1));
        }
        let found = find_visual_in(&ds[i].visuals, id);
        if found.is_some() {
            return found;
        }
        i = i + 1;
    }
    None
}

/// Looks through every screen's every depth's every visual, in order, for the
/// visual `visual_id`; `None` when the setup has no such visual.
pub fn find_xcb_visualtype(roots: &Vec<Screen>, visual_id: u32) -> (r: Option<xcb_visualtype_t>)
    ensures
        find_in_screens(roots@, visual_id) is None ==> r is None,
        find_in_screens(roots@, visual_id) is Some ==> r is Some && same_visual(
            r->Some_0,
            find_in_screens(roots@, visual_id)->Some_0,
        ),
{
    let mut i: usize = 0;
    proof {
        assert(roots@.skip(0) =~= roots@);
    }
    while i < roots.len()
        invariant
            i <= roots@.len(),
            find_in_screens(roots@.skip(i as int), visual_id) == find_in_screens(roots@, visual_id),
        decreases roots@.len() - i,
    {
        proof {
            assert(roots@.skip(i as int)[0] == roots@[i as int]);
            assert(roots@.skip(i as int).drop_first() =~= roots@.skip(i as int + 1));
        }
        match find_visual_in_depths(&roots[i].allowed_depths, visual_id) {
            Some(v) => {
                return Some(xcb_visualtype_t::from_visualtype(v));
            },
            None => {},
        }
        i = i + 1;
    }
    None
}

/// A pixel format of the render extension, with its direct-colour layout.
#[derive(Clone, Copy, PartialEq, Eq, Structural, Debug)]
pub struct PictFormat {
    pub id: u32,
    /// Whether the format is of the direct (true-colour) type.
    pub direct: bool,
    pub depth: u8,
    pub red_shift: u16,
    pub red_mask: u16,
    pub green_shift: u16,
    pub green_mask: u16,
    pub blue_shift: u16,
    pub blue_mask: u16,
    pub alpha_shift: u16,
    pub alpha_mask: u16,
}

/// A visual of a screen and the pixel format it renders with.
#[derive(Clone, Copy, PartialEq, Eq, Structural, Debug)]
pub struct PictVisual {
    pub visual: u32,
    pub format: u32,
}

/// The visuals of one depth, as the render extension lists them for a screen.
pub struct PictDepth {
    pub visuals: Vec<PictVisual>,
}

/// What the render extension reports, for the screen in use.
pub struct RenderInfo {
    pub formats: Vec<PictFormat>,
    pub screen_depths: Vec<PictDepth>,
}

/// The depth of an ARGB visual.
pub const ARGB_DEPTH: u8 = 32;

/// A direct 32-bit format with a full byte per channel in ARGB byte order.
pub open spec fn is_argb32(f: PictFormat) -> bool {
    &&& f.direct
    &&& f.depth == ARGB_DEPTH
    &&& f.red_mask == 0xff && f.green_mask == 0xff && f.blue_mask == 0xff && f.alpha_mask == 0xff
    &&& f.red_shift == 16 && f.green_shift == 8 && f.blue_shift == 0 && f.alpha_shift == 24
}

/// The first format, in list order, that is ARGB32 and that some visual of
/// the screen renders with, together with that visual.
pub open spec fn argb32_choice(fs: Seq<PictFormat>, ds: Seq<PictDepth>) -> Option<(u8, u32)>
    decreases fs.len(),
{
    if fs.len() == 0 {
        None
    } else if is_argb32(fs[0]) && visual_for_format(ds, fs[0].id) is Some {
        Some((fs[0].depth, visual_for_format(ds, fs[0].id)->Some_0))
    } else {
        argb32_choice(fs.drop_first(), ds)
    }
}

pub open spec fn first_with_format(vs: Seq<PictVisual>, format: u32) -> Option<u32>
    decreases vs.len(),
{
    if vs.len() == 0 {
        None
    } else if vs[0].format == format {
        Some(vs[0].visual)
    } else {
        first_with_format(vs.drop_first(), format)
    }
}

/// The first visual, over the depths in order, that renders with `format`.
pub open spec fn visual_for_format(ds: Seq<PictDepth>, format: u32) -> Option<u32>
    decreases ds.len(),
{
    if ds.len() == 0 {
        None
    } else {
        match first_with_format(ds[0].visuals@, format) {
            Some(v) => Some(v),
            None => visual_for_format(ds.drop_first(), format),
        }
    }
}

/// The visual chosen: that of the first ARGB32 format that a visual of the
/// screen uses, where the render extension is present; else the root visual
/// at the root depth.
pub open spec fn choose_visual_spec(render: Option<&RenderInfo>, root_depth: u8, root_visual: u32) -> (u8, u32) {
    match render {
        Some(info) => match argb32_choice(info.formats@, info.screen_depths@) {
            Some(c) => c,
            None => (root_depth, root_visual),
        },
        None => (root_depth, root_visual),
    }
}

fn is_argb32_format(f: &PictFormat) -> (r: bool)
    ensures
        r == is_argb32(*f),
{
    f.direct && f.depth == ARGB_DEPTH && f.red_mask == 0xff && f.green_mask == 0xff && f.blue_mask == 0xff
        && f.alpha_mask == 0xff && f.red_shift == 16 && f.green_shift == 8 && f.blue_shift == 0
        && f.alpha_shift == 24
}

fn find_argb32_choice(fs: &Vec<PictFormat>, ds: &Vec<PictDepth>) -> (r: Option<(u8, u32)>)
    ensures
        r == argb32_choice(fs@, ds@),
{
    let mut i: usize = 0;
    proof {
        assert(fs@.skip(0) =~= fs@);
    }
    while i < fs.len()
        invariant
            i <= fs@.len(),
            argb32_choice(fs@.skip(i as int), ds@) == argb32_choice(fs@, ds@),
        decreases fs@.len() - i,
    {
        proof {
            assert(fs@.skip(i as int)[0] == fs@[i as int]);
            assert(fs@.skip(i as int).drop_first() =~= fs@.skip(i as int + 1));
        }
        let f = &fs[i];
        if is_argb32_format(f) {
            match find_visual_for_format(ds, f.id) {
                Some(v) => {
                    return Some((f.depth, v));
                },
                None => {},
            }
        }
        i = i + 1;
    }
    None
}

fn find_with_format(vs: &Vec<PictVisual>, format: u32) -> (r: Option<u32>)
    ensures
        r == first_with_format(vs@, format),
{
    let mut i: usize = 0;
    proof {
        assert(vs@.skip(0) =~= vs@);
    }
    while i < vs.len()
        invariant
            i <= vs@.len(),
            first_with_format(vs@.skip(i as int), format) == first_with_format(vs@, format),
        decreases vs@.len() - i,
    {
        proof {
            assert(vs@.skip(i as int)[0] == vs@[i as int]);
            assert(vs@.skip(i as int).drop_first() =~= vs@.skip(i as int + 1));
        }
        if vs[i].format == format {
            return Some(vs[i].visual);
        }
        i = i + 1;
    }
    None
}

fn find_visual_for_format(ds: &Vec<PictDepth>, format: u32) -> (r: Option<u32>)
    ensures
        r == visual_for_format(ds@, format),
{
    let mut i: usize = 0;
    proof {
        assert(ds@.skip(0) =~= ds@);
    }
    while i < ds.len()
        invariant
            i <= ds@.len(),
            visual_for_format(ds@.skip(i as int), format) == visual_for_format(ds@, format),
        decreases ds@.len() - i,
    {
        proof {
            assert(ds@.skip(i as int)[0] == ds@[i as int]);
            assert(ds@.skip(i as int).drop_first() =~= ds@.skip(i as int + 1));
        }
        let found = find_with_format(&ds[i].visuals, format);
        if found.is_some() {
            return found;
        }
        i = i + 1;
    }
    None
}

/// Picks the depth and visual to render with. Where the render extension is
/// present (`render` is `Some`), the direct ARGB32 pixel formats (full-byte
/// masks, shifts red 16, green 8, blue 0, alpha 24) are tried in list order,
/// and the first that some visual of the screen uses gives the depth and that
/// visual; otherwise the root depth and root visual are used.
pub fn choose_visual(render: Option<&RenderInfo>, root_depth: u8, root_visual: u32) -> (r: (u8, u32))
    ensures
        r == choose_visual_spec(render, root_depth, root_visual),
{
    match render {
        Some(info) => match find_argb32_choice(&info.formats, &info.screen_depths) {
            Some(c) => c,
            None => (root_depth, root_visual),
        },
        None => (root_depth, root_visual),
    }
}

} // verus!
