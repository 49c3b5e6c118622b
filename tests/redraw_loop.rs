use xdiag::redraw::{Action, Batch, Phase, RedrawLoop, Size, WindowEvent, QUIT_KEY, REDRAW_KEY};

#[test]
fn new_loop_waits() {
    let l = RedrawLoop::new(800, 600);
    assert_eq!(l.phase, Phase::WaitingForEvent);
    assert_eq!((l.surface_width, l.surface_height), (800, 600));
    assert!(!l.needs_redraw);
}

#[test]
fn exposures_batch_into_one_draw() {
    let mut l = RedrawLoop::new(800, 600);
    let events = vec![WindowEvent::Exposure; 5];
    let b = l.run_batch(&events);
    assert_eq!(b, Batch { consumed: 5, draw: Some(Size { width: 800, height: 600 }), terminated: false });
    assert_eq!(l.phase, Phase::Redrawing);
    l.draw_done();
    assert_eq!(l.phase, Phase::WaitingForEvent);
    assert!(!l.needs_redraw);
}

#[test]
fn resize_before_draw_uses_last_size() {
    let mut l = RedrawLoop::new(800, 600);
    let events = vec![
        WindowEvent::Resize { width: 100, height: 50 },
        WindowEvent::Exposure,
        WindowEvent::Resize { width: 1024, height: 768 },
        WindowEvent::Other,
    ];
    let b = l.run_batch(&events);
    assert_eq!(b.draw, Some(Size { width: 1024, height: 768 }));
    assert_eq!((l.surface_width, l.surface_height), (1024, 768));
    assert_eq!((l.width, l.height), (1024, 768));
}

#[test]
fn resize_event_asks_for_surface_resize() {
    let mut l = RedrawLoop::new(800, 600);
    let a = l.on_event(WindowEvent::Resize { width: 300, height: 200 });
    assert_eq!(a, Action::ResizeSurface { width: 300, height: 200 });
    assert_eq!(l.phase, Phase::DrainingQueuedEvents);
    assert_eq!(l.end_of_queue(), Some(Size { width: 300, height: 200 }));
}

#[test]
fn quit_key_stops_without_consuming_more() {
    let mut l = RedrawLoop::new(800, 600);
    let events = vec![
        WindowEvent::Exposure,
        WindowEvent::KeyPress { code: QUIT_KEY },
        WindowEvent::Resize { width: 1, height: 1 },
        WindowEvent::Exposure,
    ];
    let b = l.run_batch(&events);
    assert_eq!(b, Batch { consumed: 2, draw: None, terminated: true });
    assert_eq!(l.phase, Phase::Terminated);
    assert_eq!((l.width, l.height), (800, 600));
}

#[test]
fn stream_ending_in_quit_key_terminates() {
    let mut l = RedrawLoop::new(800, 600);
    let events = vec![WindowEvent::Other, WindowEvent::KeyPress { code: QUIT_KEY }];
    let b = l.run_batch(&events);
    assert!(b.terminated);
    assert_eq!(b.consumed, 2);
}

#[test]
fn destroy_terminates() {
    let mut l = RedrawLoop::new(800, 600);
    assert_eq!(l.on_event(WindowEvent::Destroy), Action::Terminate);
    assert_eq!(l.phase, Phase::Terminated);
}

#[test]
fn redraw_key_and_other_keys() {
    let mut l = RedrawLoop::new(800, 600);
    let b = l.run_batch(&vec![WindowEvent::KeyPress { code: 38 }, WindowEvent::Other]);
    assert_eq!(b, Batch { consumed: 2, draw: None, terminated: false });
    assert_eq!(l.phase, Phase::WaitingForEvent);
    let b = l.run_batch(&vec![WindowEvent::KeyPress { code: REDRAW_KEY }]);
    assert_eq!(b.draw, Some(Size { width: 800, height: 600 }));
}
