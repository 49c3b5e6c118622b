use xdiag::font::{FontRotation, Glyph};

fn pairs(g: &[Glyph]) -> Vec<(usize, bool)> {
    g.iter().map(|x| (x.font, x.upper)).collect()
}

#[test]
fn rotation_over_hello_world() {
    let mut r = FontRotation::new(4);
    let plan = r.plan("hello world".chars().count());
    assert_eq!(
        pairs(&plan),
        vec![
            (1, false), (2, true), (3, false), (0, true), (1, false), (2, true),
            (3, false), (0, true), (1, false), (2, true), (3, false)
        ]
    );
    assert_eq!(r.index, 3);
}

#[test]
fn rotation_is_repeatable_from_same_start() {
    let mut a = FontRotation { index: 2, font_count: 4 };
    let mut b = FontRotation { index: 2, font_count: 4 };
    let pa = a.plan(11);
    let pb = b.plan(11);
    assert_eq!(pa, pb);
    assert_eq!(a, b);
}

#[test]
fn advance_wraps_after_last_font() {
    let mut r = FontRotation { index: 3, font_count: 4 };
    assert_eq!(r.advance(), Glyph { font: 0, upper: true });
    assert_eq!(r.advance(), Glyph { font: 1, upper: false });
}

#[test]
fn single_font_and_empty_label() {
    let mut r = FontRotation::new(1);
    assert_eq!(pairs(&r.plan(3)), vec![(0, true), (0, true), (0, true)]);
    assert!(r.plan(0).is_empty());
    assert_eq!(r.index, 0);
}
