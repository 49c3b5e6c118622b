use xdiag::visual::{
    choose_visual, find_xcb_visualtype, xcb_visualtype_t, Depth, PictDepth, PictFormat, PictVisual,
    RenderInfo, Screen, Visualtype,
};

fn argb(id: u32) -> PictFormat {
    PictFormat {
        id,
        direct: true,
        depth: 32,
        red_shift: 16,
        red_mask: 0xff,
        green_shift: 8,
        green_mask: 0xff,
        blue_shift: 0,
        blue_mask: 0xff,
        alpha_shift: 24,
        alpha_mask: 0xff,
    }
}

fn visual(id: u32) -> Visualtype {
    Visualtype {
        visual_id: id,
        class: 4,
        bits_per_rgb_value: 8,
        colormap_entries: 256,
        red_mask: 0xff0000,
        green_mask: 0xff00,
        blue_mask: 0xff,
    }
}

#[test]
fn argb_visual_preferred() {
    let rgb24 = PictFormat { depth: 24, alpha_mask: 0, alpha_shift: 0, ..argb(1) };
    let info = RenderInfo {
        formats: vec![rgb24, argb(2)],
        screen_depths: vec![
            PictDepth { visuals: vec![PictVisual { visual: 0x21, format: 1 }] },
            PictDepth { visuals: vec![PictVisual { visual: 0x60, format: 2 }, PictVisual { visual: 0x61, format: 2 }] },
        ],
    };
    assert_eq!(choose_visual(Some(&info), 24, 0x21), (32, 0x60));
}

#[test]
fn fallback_without_render() {
    assert_eq!(choose_visual(None, 24, 0x21), (24, 0x21));
}

#[test]
fn fallback_when_no_argb_format() {
    let swapped = PictFormat { red_shift: 0, blue_shift: 16, ..argb(2) };
    let info = RenderInfo {
        formats: vec![swapped],
        screen_depths: vec![PictDepth { visuals: vec![PictVisual { visual: 0x60, format: 2 }] }],
    };
    assert_eq!(choose_visual(Some(&info), 24, 0x21), (24, 0x21));
}

#[test]
fn fallback_when_no_visual_uses_format() {
    let info = RenderInfo {
        formats: vec![argb(2)],
        screen_depths: vec![PictDepth { visuals: vec![PictVisual { visual: 0x21, format: 1 }] }],
    };
    assert_eq!(choose_visual(Some(&info), 24, 0x21), (24, 0x21));
}

#[test]
fn find_visual_over_screens() {
    let roots = vec![
        Screen { allowed_depths: vec![Depth { depth: 24, visuals: vec![visual(0x21), visual(0x22)] }] },
        Screen {
            allowed_depths: vec![
                Depth { depth: 1, visuals: vec![] },
                Depth { depth: 32, visuals: vec![Visualtype { class: 5, ..visual(0x60) }] },
            ],
        },
    ];
    let found: xcb_visualtype_t = find_xcb_visualtype(&roots, 0x60).unwrap();
    assert_eq!(found.visual_id, 0x60);
    assert_eq!(found.class, 5);
    assert_eq!(found.colormap_entries, 256);
    assert_eq!(found.red_mask, 0xff0000);
    assert_eq!(found.pad0, [0; 4]);
    assert!(find_xcb_visualtype(&roots, 0x99).is_none());
}

#[test]
fn conversion_keeps_fields() {
    let v = xcb_visualtype_t::from_visualtype(visual(0x22));
    assert_eq!(v.visual_id, 0x22);
    assert_eq!(v.bits_per_rgb_value, 8);
    assert_eq!(v.green_mask, 0xff00);
    assert_eq!(v.blue_mask, 0xff);
}

#[test]
fn later_argb_format_used_when_first_has_no_visual() {
    let info = RenderInfo {
        formats: vec![argb(1), argb(2)],
        screen_depths: vec![PictDepth { visuals: vec![PictVisual { visual: 77, format: 2 }] }],
    };
    assert_eq!(choose_visual(Some(&info), 24, 0x21), (32, 77));
}
