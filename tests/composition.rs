use hierro2d::{Comp, Empty, IntoComponent, Rect, Text, UNIT};

#[test]
fn fold_three_levels() {
    let b = Text::new().position(2500, 2500).size(5000, 5000);
    let a = Rect::new().position(1000, 1000).size(8000, 8000).with_child(b);
    let root = Rect::new().position(0, 0).size(UNIT, UNIT).depth(2).with_child(a);
    let all = hierro2d::State::new(root.into_comp(), 100, 100);
    let nodes = all.components();
    assert_eq!(nodes.len(), 3);
    let inner = nodes.iter().find(|c| matches!(c, Comp::Text(_))).unwrap();
    assert_eq!(inner.get_position(), (3000, 3000));
    assert_eq!(inner.get_size(), (4000, 4000));
    assert_eq!(inner.depth(), 0);
}

#[test]
fn collect_takes_descendants_in_order() {
    let mut root = Empty::new()
        .size(UNIT, UNIT)
        .with_child(Empty::new().size(UNIT, UNIT).position(1, 0).with_child(Text::new().position(2, 0)))
        .with_child(Text::new().position(5, 0))
        .into_comp();
    let rest = root.collect();
    let xs: Vec<i64> = rest.iter().map(|c| c.get_position().0).collect();
    assert_eq!(xs, vec![1, 3, 5]);
    assert_eq!(root.collect().len(), 0);
}

#[test]
fn depth_steps_by_one() {
    let leaf = Text::new();
    let mid = Empty::new().size(UNIT, UNIT).with_child(leaf);
    let root = Rect::new().depth(2).with_child(mid);
    let state = hierro2d::State::new(root.into_comp(), 10, 10);
    let depths: Vec<i32> = state.components().iter().map(|c| c.depth()).collect();
    assert_eq!(depths, vec![2, 1, 0]);
}

#[test]
fn later_depth_restamps_subtree() {
    let root = Empty::new()
        .size(UNIT, UNIT)
        .with_child(Empty::new().size(UNIT, UNIT).with_child(Text::new()))
        .depth(7);
    let state = hierro2d::State::new(root.into_comp(), 10, 10);
    let depths: Vec<i32> = state.components().iter().map(|c| c.depth()).collect();
    assert_eq!(depths, vec![7, 6, 5]);
}

#[test]
fn zero_sized_container_collapses_children() {
    let root = Empty::new().position(1000, 2000).with_child(Rect::new().size(UNIT, UNIT));
    let state = hierro2d::State::new(root.into_comp(), 10, 10);
    let child = &state.components()[1];
    assert_eq!(child.get_size(), (0, 0));
    assert_eq!(child.get_position(), (1000, 2000));
}

#[test]
fn negative_offsets_round_down() {
    let root = Rect::new().position(0, 0).size(3, 3).with_child(Text::new().position(-1, 1));
    let state = hierro2d::State::new(root.into_comp(), 10, 10);
    let child = &state.components()[1];
    assert_eq!(child.get_position(), (-1, 0));
}

#[test]
fn can_hold_rejects_overflowing_child() {
    let parent = Rect::new().position(0, 0).size(1_000_000_000, 1_000_000_000);
    let big = Rect::new().position(1_000_000_000, 0).into_comp();
    assert!(!parent.can_hold(&big));
    let small = Rect::new().position(10, 0).into_comp();
    assert!(parent.can_hold(&small));
    let low = Rect::new().depth(i32::MIN);
    assert!(!low.can_hold(&Text::new().into_comp()));
}

#[test]
fn builder_defaults() {
    let r = Rect::new().into_comp();
    assert_eq!(r.get_position(), (5000, 5000));
    assert_eq!(r.get_size(), (5000, 5000));
    assert_eq!(r.get_id(), -1);
    let t = Text::new().into_comp();
    assert_eq!(t.get_position(), (0, 0));
    assert_eq!(t.get_size(), (UNIT, UNIT));
    assert!(t.click_handler().is_none());
    let e = Empty::new().into_comp();
    assert_eq!(e.get_size(), (0, 0));
}

#[test]
fn centering() {
    let e = Empty::new().size(2000, 4000).center().into_comp();
    assert_eq!(e.get_position(), (4000, 3000));
    let x = Rect::new().position(100, 200).size(2000, 4000).center_x().into_comp();
    assert_eq!(x.get_position(), (4000, 200));
    let y = Text::new().position(100, 200).size(2000, 4000).center_y().into_comp();
    assert_eq!(y.get_position(), (100, 3000));
    let odd = hierro2d::Img::new().size(3, 3).center().into_comp();
    assert_eq!(odd.get_position(), (4998, 4998));
    let wide = Empty::new().size(UNIT + 1, UNIT + 3).center().into_comp();
    assert_eq!(wide.get_position(), (-1, -2));
}

#[test]
fn text_attributes() {
    let t = Text::new().content("Hello").color(1, 2, 3, 4).bound(50, 60);
    assert_eq!(t.text(), "Hello");
}

#[test]
fn quad_corners() {
    let r = Rect::new().position(1000, 2000).size(3000, 4000).into_comp();
    assert_eq!(r.quad(), vec![(1000, 6000), (4000, 6000), (4000, 2000), (1000, 2000)]);
}

#[test]
fn pixel_origin_of_box() {
    let r = Rect::new().position(2500, 5000).into_comp();
    assert_eq!(r.pixel_origin(800, 600), (200, 300));
    let l = Rect::new().position(-1, 0).into_comp();
    assert_eq!(l.pixel_origin(3, 3), (-1, 0));
}

#[test]
fn image_bytes_kept() {
    let img = hierro2d::Img::new().content(vec![1, 2, 3]).radius(7);
    assert_eq!(img.texture(), &vec![1u8, 2, 3]);
}
