use hierro2d::{
    recovery_for, Context, ElementState, Empty, Event, Handler, IntoComponent, MouseButton, Rect,
    Recovery, State, SurfaceError, Text, UNIT,
};

fn press() -> Event {
    Event::MouseInput { state: ElementState::Pressed, button: MouseButton::Left }
}

fn toggle(ctx: &mut Context) {
    ctx.toggle_fullscreen();
}

fn tree_of_five() -> State {
    let root = Rect::new()
        .position(0, 0)
        .size(UNIT, UNIT)
        .depth(3)
        .with_child(Empty::new().size(UNIT, UNIT).with_child(Text::new()).with_child(Text::new()))
        .with_child(Rect::new());
    State::new(root.into_comp(), 100, 100)
}

#[test]
fn registry_holds_every_node_once() {
    let state = tree_of_five();
    let nodes = state.components();
    assert_eq!(nodes.len(), 5);
    let depths: Vec<i32> = nodes.iter().map(|c| c.depth()).collect();
    assert_eq!(depths, vec![3, 2, 2, 1, 1]);
}

#[test]
fn identities_are_dense() {
    let state = tree_of_five();
    let mut ids: Vec<isize> = state.components().iter().map(|c| c.get_id()).collect();
    ids.sort();
    assert_eq!(ids, vec![0, 1, 2, 3, 4]);
    for (i, c) in state.components().iter().enumerate() {
        assert_eq!(c.get_id(), i as isize);
    }
}

#[test]
fn equal_depth_siblings_keep_order() {
    let root = Empty::new()
        .size(UNIT, UNIT)
        .with_child(Text::new().position(0, 0))
        .with_child(Text::new().position(5000, 0))
        .with_child(Text::new().position(9000, 0));
    let state = State::new(root.into_comp(), 100, 100);
    let xs: Vec<i64> = state.components()[1..].iter().map(|c| c.get_position().0).collect();
    assert_eq!(xs, vec![0, 5000, 9000]);
}

#[test]
fn deeper_nodes_paint_first() {
    let root = Empty::new()
        .size(UNIT, UNIT)
        .depth(1)
        .with_child(Empty::new().size(UNIT, UNIT).with_child(Text::new().position(7, 7)))
        .with_child(Text::new().position(3, 3));
    let state = State::new(root.into_comp(), 100, 100);
    let depths: Vec<i32> = state.components().iter().map(|c| c.depth()).collect();
    assert_eq!(depths, vec![1, 0, 0, -1]);
    assert_eq!(state.components()[3].get_position(), (7, 7));
}

#[test]
fn topmost_wins() {
    let y = Text::new().position(2000, 2000).size(4000, 4000).on_click(Handler(toggle));
    let x = Rect::new()
        .position(0, 0)
        .size(UNIT, UNIT)
        .depth(2)
        .with_child(Empty::new().position(0, 0).size(UNIT, UNIT).with_child(y));
    let mut state = State::new(x.into_comp(), 1000, 1000);
    assert_eq!(state.input(&Event::CursorMoved { x: 300, y: 300 }), None);
    assert_eq!(state.cursor_pos(), Some((3000, 3000)));
    let hit = state.get_element_by_pos().unwrap();
    let node = &state.components()[hit];
    assert_eq!(node.depth(), 0);
    assert_eq!(node.get_position(), (2000, 2000));
    assert_eq!(state.input(&press()), Some(hit));
}

#[test]
fn click_outside_is_noop() {
    let y = Text::new().position(2000, 2000).size(4000, 4000).on_click(Handler(toggle));
    let root = Rect::new().position(0, 0).size(UNIT, UNIT).with_child(y);
    let mut state = State::new(root.into_comp(), 1000, 1000);
    state.input(&Event::CursorMoved { x: -500, y: -500 });
    assert_eq!(state.cursor_pos(), Some((-5000, -5000)));
    assert_eq!(state.get_element_by_pos(), None);
    assert_eq!(state.input(&press()), None);
    assert_eq!(state.components().len(), 2);
}

#[test]
fn click_on_node_without_handler_is_noop() {
    let root = Rect::new().position(0, 0).size(UNIT, UNIT).with_child(Text::new());
    let mut state = State::new(root.into_comp(), 1000, 1000);
    state.input(&Event::CursorMoved { x: 10, y: 10 });
    assert!(state.get_element_by_pos().is_some());
    assert_eq!(state.input(&press()), None);
}

#[test]
fn release_and_other_buttons_do_nothing() {
    let y = Text::new().on_click(Handler(toggle));
    let mut state = State::new(Empty::new().size(UNIT, UNIT).with_child(y).into_comp(), 10, 10);
    state.input(&Event::CursorMoved { x: 1, y: 1 });
    let released = Event::MouseInput { state: ElementState::Released, button: MouseButton::Left };
    assert_eq!(state.input(&released), None);
    let right = Event::MouseInput { state: ElementState::Pressed, button: MouseButton::Right };
    assert_eq!(state.input(&right), None);
    assert_eq!(state.input(&Event::Other), None);
    assert!(state.input(&press()).is_some());
}

#[test]
fn handler_runs_without_touching_registry() {
    let y = Text::new().position(0, 0).size(UNIT, UNIT).on_click(Handler(toggle));
    let root = Empty::new().size(UNIT, UNIT).with_child(y);
    let mut state = State::new(root.into_comp(), 200, 100);
    state.input(&Event::CursorMoved { x: 50, y: 50 });
    let before: Vec<(i64, i64, i32, isize)> = state
        .components()
        .iter()
        .map(|c| (c.get_position().0, c.get_size().0, c.depth(), c.get_id()))
        .collect();
    let mut ctx = Context::new(false);
    for round in 0..2 {
        let id = state.input(&press()).unwrap();
        let handler = state.click_handler(id).unwrap();
        (handler.0)(&mut ctx);
        assert_eq!(ctx.is_fullscreen(), round == 0);
    }
    let after: Vec<(i64, i64, i32, isize)> = state
        .components()
        .iter()
        .map(|c| (c.get_position().0, c.get_size().0, c.depth(), c.get_id()))
        .collect();
    assert_eq!(before, after);
}

#[test]
fn cursor_normalizes_to_window() {
    let mut state = State::new(Empty::new().into_comp(), 800, 600);
    assert_eq!(state.cursor_pos(), Some((UNIT / 2, UNIT / 2)));
    state.input(&Event::CursorMoved { x: 200, y: 150 });
    assert_eq!(state.cursor_pos(), Some((2500, 2500)));
    state.input(&Event::CursorMoved { x: -1, y: 1 });
    assert_eq!(state.cursor_pos(), Some((-13, 16)));
}

#[test]
fn empty_window_forgets_cursor() {
    let mut state = State::new(Rect::new().into_comp(), 0, 600);
    state.input(&Event::CursorMoved { x: 20, y: 20 });
    assert_eq!(state.cursor_pos(), None);
    assert_eq!(state.input(&press()), None);
}

#[test]
fn resize_needs_area() {
    let mut state = State::new(Empty::new().into_comp(), 800, 600);
    assert!(!state.resize(0, 100));
    assert_eq!(state.size(), (800, 600));
    assert!(state.resize(1024, 768));
    assert_eq!(state.size(), (1024, 768));
}

#[test]
fn context_fullscreen() {
    let mut ctx = Context::new(true);
    ctx.toggle_fullscreen();
    assert!(!ctx.is_fullscreen());
    ctx.set_fullscreen(true);
    assert!(ctx.is_fullscreen());
    ctx.set_fullscreen(true);
    assert!(ctx.is_fullscreen());
}

#[test]
fn surface_errors_recover() {
    assert!(matches!(recovery_for(SurfaceError::Lost), Recovery::Reconfigure));
    assert!(matches!(recovery_for(SurfaceError::Outdated), Recovery::Reconfigure));
    assert!(matches!(recovery_for(SurfaceError::OutOfMemory), Recovery::Exit));
    assert!(matches!(recovery_for(SurfaceError::Timeout), Recovery::SkipFrame));
}
