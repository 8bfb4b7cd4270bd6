use sdl2sketch::end_frame;
use sdl2sketch::frame;
use sdl2sketch::handle_events;
use sdl2sketch::start;
use sdl2sketch::Color;
use sdl2sketch::DrawCmd;
use sdl2sketch::DrawError;
use sdl2sketch::Event;
use sdl2sketch::MainLoopMethods;
use sdl2sketch::RectMode;
use sdl2sketch::Sketch;
use sdl2sketch::KEY_ESCAPE;

struct NoOp;

impl MainLoopMethods for NoOp {}

struct QuitInSetup;

impl MainLoopMethods for QuitInSetup {
    fn setup(&mut self, s: &mut Sketch) {
        s.quit();
    }
}

struct CountingHooks {
    updates: u32,
    draws: u32,
    keys_pressed: Vec<i32>,
    keys_released: Vec<i32>,
    moves: Vec<(i32, i32)>,
    drags: Vec<(i32, i32)>,
    presses: Vec<(i32, i32, i32)>,
    releases: Vec<(i32, i32, i32)>,
}

impl CountingHooks {
    fn new() -> CountingHooks {
        CountingHooks {
            updates: 0,
            draws: 0,
            keys_pressed: Vec::new(),
            keys_released: Vec::new(),
            moves: Vec::new(),
            drags: Vec::new(),
            presses: Vec::new(),
            releases: Vec::new(),
        }
    }
}

impl MainLoopMethods for CountingHooks {
    fn update(&mut self, _s: &mut Sketch) {
        self.updates += 1;
    }
    fn draw(&mut self, _s: &mut Sketch) {
        self.draws += 1;
    }
    fn key_pressed(&mut self, _s: &mut Sketch, code: i32) {
        self.keys_pressed.push(code);
    }
    fn key_released(&mut self, _s: &mut Sketch, code: i32) {
        self.keys_released.push(code);
    }
    fn mouse_moved(&mut self, _s: &mut Sketch, x: i32, y: i32, _xrel: i32, _yrel: i32) {
        self.moves.push((x, y));
    }
    fn mouse_dragged(&mut self, _s: &mut Sketch, x: i32, y: i32, _xrel: i32, _yrel: i32) {
        self.drags.push((x, y));
    }
    fn mouse_pressed(&mut self, _s: &mut Sketch, button: i32, x: i32, y: i32) {
        self.presses.push((button, x, y));
    }
    fn mouse_released(&mut self, _s: &mut Sketch, button: i32, x: i32, y: i32) {
        self.releases.push((button, x, y));
    }
}

fn white() -> Color {
    Color::rgb(255, 255, 255)
}

/// Drive the loop the way the shell does: frame, present, account, check.
fn run_to_completion<T: MainLoopMethods>(s: &mut Sketch, m: &mut T, max_frames: u32) -> u32 {
    let mut presented = 0;
    start(s, m);
    loop {
        let events: Vec<Event> = Vec::new();
        frame(s, m, &events);
        presented += 1; // the shell would present the frame here
        end_frame(s, presented);
        if !s.is_running() || presented >= max_frames {
            return presented;
        }
    }
}

#[test]
fn quit_in_setup_presents_exactly_one_frame() {
    let mut s = Sketch::new(100, 100, "t", false);
    let mut m = QuitInSetup;
    let presented = run_to_completion(&mut s, &mut m, 100);
    assert_eq!(presented, 1);
    assert_eq!(s.frames(), 1);
    assert!(!s.is_running());
}

#[test]
fn update_and_draw_run_every_frame() {
    let mut s = Sketch::new(100, 100, "t", false);
    let mut m = CountingHooks::new();
    start(&mut s, &mut m);
    let events: Vec<Event> = Vec::new();
    for now in 1..=5u32 {
        frame(&mut s, &mut m, &events);
        end_frame(&mut s, now);
    }
    assert_eq!(m.updates, 5);
    assert_eq!(m.draws, 5);
    assert_eq!(s.frames(), 5);
    assert!(s.is_running());
}

#[test]
fn rect_mode_center_moves_corner() {
    let mut s = Sketch::new(200, 200, "t", false);
    s.rect_mode(RectMode::CENTER);
    s.rect(100, 100, 40, 20);
    let cmds = s.commands();
    assert_eq!(cmds.len(), 3); // fill, outline, corner pixel
    match &cmds[0] {
        DrawCmd::FillRect(x, y, w, h, c) => {
            assert_eq!((*x, *y, *w, *h), (80, 90, 40, 20));
            assert_eq!(*c, white());
        }
        other => panic!("expected FillRect, got {:?}", other),
    }
    match &cmds[1] {
        DrawCmd::OutlineRect(x, y, w, h, _) => {
            assert_eq!((*x, *y, *w, *h), (80, 90, 40, 20));
        }
        other => panic!("expected OutlineRect, got {:?}", other),
    }
    match &cmds[2] {
        DrawCmd::Point(x, y, _) => assert_eq!((*x, *y), (119, 109)),
        other => panic!("expected Point, got {:?}", other),
    }
}

#[test]
fn rect_modes_corner_corners_radius() {
    let mut s = Sketch::new(200, 200, "t", false);
    s.no_stroke();
    s.rect(10, 20, 30, 40);
    s.rect_mode(RectMode::CORNERS);
    s.rect(10, 20, 50, 80);
    s.rect_mode(RectMode::RADIUS);
    s.rect(100, 100, 20, 10);
    let cmds = s.commands();
    assert_eq!(cmds.len(), 3);
    match &cmds[0] {
        DrawCmd::FillRect(x, y, w, h, _) => assert_eq!((*x, *y, *w, *h), (10, 20, 30, 40)),
        other => panic!("unexpected {:?}", other),
    }
    match &cmds[1] {
        DrawCmd::FillRect(x, y, w, h, _) => assert_eq!((*x, *y, *w, *h), (10, 20, 40, 60)),
        other => panic!("unexpected {:?}", other),
    }
    // RADIUS: (100, 100) is the center, (20, 10) the half-extents
    match &cmds[2] {
        DrawCmd::FillRect(x, y, w, h, _) => assert_eq!((*x, *y, *w, *h), (80, 90, 40, 20)),
        other => panic!("unexpected {:?}", other),
    }
}

#[test]
fn polygon_with_unequal_lengths_draws_nothing() {
    let mut s = Sketch::new(100, 100, "t", false);
    let vx = vec![0, 10, 20];
    let vy = vec![0, 10];
    s.polygon(&vx, &vy);
    assert_eq!(s.commands().len(), 0);
    assert_eq!(s.draw_errors().len(), 1);
    assert_eq!(s.draw_errors()[0], DrawError::UnequalPolygonLengths(3, 2));
}

#[test]
fn polygon_with_too_few_points_draws_nothing() {
    let mut s = Sketch::new(100, 100, "t", false);
    let vx = vec![5];
    let vy = vec![5];
    s.polygon(&vx, &vy);
    assert_eq!(s.commands().len(), 0);
    assert_eq!(s.draw_errors().len(), 1);
    assert_eq!(s.draw_errors()[0], DrawError::TooFewPolygonPoints(1));
}

#[test]
fn polygon_fill_and_open_outline() {
    let mut s = Sketch::new(100, 100, "t", false);
    s.no_smooth();
    let vx = vec![0, 10, 10];
    let vy = vec![0, 0, 10];
    s.polygon(&vx, &vy);
    let cmds = s.commands();
    // filled polygon plus one line per consecutive pair (outline not closed)
    assert_eq!(cmds.len(), 3);
    match &cmds[0] {
        DrawCmd::FilledPolygon(px, py, _) => {
            assert_eq!(px, &vx);
            assert_eq!(py, &vy);
        }
        other => panic!("unexpected {:?}", other),
    }
    match &cmds[1] {
        DrawCmd::Line(x1, y1, x2, y2, _) => assert_eq!((*x1, *y1, *x2, *y2), (0, 0, 10, 0)),
        other => panic!("unexpected {:?}", other),
    }
    match &cmds[2] {
        DrawCmd::Line(x1, y1, x2, y2, _) => assert_eq!((*x1, *y1, *x2, *y2), (10, 0, 10, 10)),
        other => panic!("unexpected {:?}", other),
    }
}

#[test]
fn polygon_smooth_fill_without_stroke_adds_aa_outline() {
    let mut s = Sketch::new(100, 100, "t", false);
    s.no_stroke(); // smoothing is on by default
    let vx = vec![0, 10, 10];
    let vy = vec![0, 0, 10];
    s.polygon(&vx, &vy);
    let cmds = s.commands();
    assert_eq!(cmds.len(), 2);
    assert!(matches!(&cmds[0], DrawCmd::FilledPolygon(_, _, _)));
    assert!(matches!(&cmds[1], DrawCmd::AaPolygon(_, _, _)));
}

#[test]
fn quad_closes_the_shape() {
    let mut s = Sketch::new(100, 100, "t", false);
    s.no_smooth();
    s.no_fill();
    s.quad(0, 0, 10, 0, 10, 10, 0, 10);
    let cmds = s.commands();
    // four sides drawn as lines through the repeated first point
    assert_eq!(cmds.len(), 4);
    match &cmds[3] {
        DrawCmd::Line(x1, y1, x2, y2, _) => assert_eq!((*x1, *y1, *x2, *y2), (0, 10, 0, 0)),
        other => panic!("unexpected {:?}", other),
    }
}

#[test]
fn line_point_background_follow_draw_state() {
    let mut s = Sketch::new(100, 100, "t", false);
    s.background(Color::rgb(0, 0, 0));
    s.stroke(Color::rgb(10, 20, 30));
    s.line(0, 0, 5, 5); // smooth by default -> anti-aliased
    s.no_smooth();
    s.line(1, 1, 2, 2);
    s.point(7, 8);
    s.no_stroke();
    s.line(3, 3, 4, 4); // no stroke -> nothing
    s.point(9, 9); // no stroke -> nothing
    let cmds = s.commands();
    assert_eq!(cmds.len(), 4);
    assert!(matches!(&cmds[0], DrawCmd::Clear(c) if *c == Color::rgb(0, 0, 0)));
    assert!(
        matches!(&cmds[1], DrawCmd::AaLine(0, 0, 5, 5, c) if *c == Color::rgb(10, 20, 30))
    );
    assert!(matches!(&cmds[2], DrawCmd::Line(1, 1, 2, 2, _)));
    assert!(matches!(&cmds[3], DrawCmd::Point(7, 8, _)));
}

#[test]
fn circle_compositing_rules() {
    // fill + smooth + no stroke: filled circle plus aa outline in fill color
    let mut s = Sketch::new(100, 100, "t", false);
    s.fill(Color::rgb(1, 2, 3));
    s.no_stroke();
    s.circle(50, 50, 10);
    let cmds = s.commands();
    assert_eq!(cmds.len(), 2);
    assert!(matches!(&cmds[0], DrawCmd::FilledCircle(50, 50, 10, c) if *c == Color::rgb(1, 2, 3)));
    assert!(matches!(&cmds[1], DrawCmd::AaCircle(50, 50, 10, c) if *c == Color::rgb(1, 2, 3)));

    // stroke set: outline in stroke color, no extra aa pass for the fill
    let mut s2 = Sketch::new(100, 100, "t", false);
    s2.fill(Color::rgb(1, 2, 3));
    s2.stroke(Color::rgb(9, 9, 9));
    s2.no_smooth();
    s2.circle(5, 5, 3);
    let cmds2 = s2.commands();
    assert_eq!(cmds2.len(), 2);
    assert!(matches!(&cmds2[0], DrawCmd::FilledCircle(5, 5, 3, _)));
    assert!(matches!(&cmds2[1], DrawCmd::Circle(5, 5, 3, c) if *c == Color::rgb(9, 9, 9)));
}

#[test]
fn triangle_ellipse_arc_pie_commands() {
    let mut s = Sketch::new(100, 100, "t", false);
    s.no_smooth();
    s.triangle(0, 0, 10, 0, 5, 8);
    s.ellipse(50, 50, 20, 10);
    s.arc(30, 30, 12, 0, 90);
    s.pie(40, 40, 15, 10, 80);
    let cmds = s.commands();
    assert_eq!(cmds.len(), 7);
    assert!(matches!(&cmds[0], DrawCmd::FilledTriangle(0, 0, 10, 0, 5, 8, _)));
    assert!(matches!(&cmds[1], DrawCmd::Triangle(0, 0, 10, 0, 5, 8, _)));
    assert!(matches!(&cmds[2], DrawCmd::FilledEllipse(50, 50, 20, 10, _)));
    assert!(matches!(&cmds[3], DrawCmd::Ellipse(50, 50, 20, 10, _)));
    assert!(matches!(&cmds[4], DrawCmd::Arc(30, 30, 12, 0, 90, _)));
    assert!(matches!(&cmds[5], DrawCmd::FilledPie(40, 40, 15, 10, 80, _)));
    assert!(matches!(&cmds[6], DrawCmd::Pie(40, 40, 15, 10, 80, _)));
}

#[test]
fn key_events_maintain_pressed_set() {
    let mut s = Sketch::new(100, 100, "t", false);
    let mut m = CountingHooks::new();
    let events = vec![Event::KeyDown(65), Event::KeyDown(66), Event::KeyUp(65)];
    handle_events(&mut s, &mut m, &events);
    assert!(!s.key_is_down(65));
    assert!(s.key_is_down(66));
    assert!(!s.key_is_down(67));
    assert_eq!(m.keys_pressed, vec![65, 66]);
    assert_eq!(m.keys_released, vec![65]);
}

#[test]
fn escape_quits_by_default() {
    let mut s = Sketch::new(100, 100, "t", false);
    let mut m = NoOp;
    start(&mut s, &mut m);
    assert!(s.is_running());
    let events = vec![Event::KeyDown(KEY_ESCAPE)];
    handle_events(&mut s, &mut m, &events);
    assert!(!s.is_running());
}

#[test]
fn quit_event_stops_the_loop() {
    let mut s = Sketch::new(100, 100, "t", false);
    let mut m = NoOp;
    start(&mut s, &mut m);
    let events = vec![Event::Quit];
    handle_events(&mut s, &mut m, &events);
    assert!(!s.is_running());
}

#[test]
fn mouse_motion_dispatches_moved_or_dragged() {
    let mut s = Sketch::new(100, 100, "t", false);
    let mut m = CountingHooks::new();
    let events = vec![
        Event::MouseMotion { x: 3, y: 4, xrel: 1, yrel: 1, buttons_down: false },
        Event::MouseMotion { x: 5, y: 6, xrel: 2, yrel: 2, buttons_down: true },
    ];
    handle_events(&mut s, &mut m, &events);
    assert_eq!(m.moves, vec![(3, 4)]);
    assert_eq!(m.drags, vec![(5, 6)]);
    assert_eq!(s.mouse_pos(), (5, 6));
}

#[test]
fn mouse_buttons_tracked_and_dispatched() {
    let mut s = Sketch::new(100, 100, "t", false);
    let mut m = CountingHooks::new();
    assert!(!s.mouse_is_pressed());
    let events = vec![Event::MouseButtonDown { button: 1, x: 10, y: 11 }];
    handle_events(&mut s, &mut m, &events);
    assert!(s.mouse_is_pressed());
    assert_eq!(s.mouse_pos(), (10, 11));
    let events2 = vec![Event::MouseButtonUp { button: 1, x: 12, y: 13 }];
    handle_events(&mut s, &mut m, &events2);
    assert!(!s.mouse_is_pressed());
    assert_eq!(m.presses, vec![(1, 10, 11)]);
    assert_eq!(m.releases, vec![(1, 12, 13)]);
}

#[test]
fn framerate_is_clamped_and_measured() {
    let mut s = Sketch::new(100, 100, "t", false);
    assert_eq!(s.target_fps(), 30);
    s.set_framerate(1000);
    assert_eq!(s.target_fps(), 200);
    s.set_framerate(0);
    assert_eq!(s.target_fps(), 1);
    s.set_framerate(60);
    assert_eq!(s.target_fps(), 60);

    // 4 frames inside the first window, the 5th closes it after 2000 ms:
    // 4 counted frames over 2 seconds make 2000 milli-fps
    assert_eq!(s.get_framerate(), 0);
    for now in [100u32, 200, 300, 400] {
        let report = end_frame(&mut s, now);
        assert_eq!(report, None);
    }
    let report = end_frame(&mut s, 2000);
    assert_eq!(report, Some(2000));
    assert_eq!(s.get_framerate(), 2000);
    assert_eq!(s.frames(), 5);
}

#[test]
fn no_loop_flag_is_observable() {
    let mut s = Sketch::new(100, 100, "t", false);
    assert!(!s.is_no_loop());
    s.no_loop(true);
    assert!(s.is_no_loop());
    s.no_loop(false);
    assert!(!s.is_no_loop());
}

#[test]
fn take_commands_drains_the_buffer() {
    let mut s = Sketch::new(100, 100, "t", false);
    s.background(Color::rgb(1, 1, 1));
    s.point(2, 3);
    let taken = s.take_commands();
    assert_eq!(taken.len(), 2);
    assert_eq!(s.commands().len(), 0);
}

#[test]
fn take_errors_drains_the_buffer() {
    let mut s = Sketch::new(100, 100, "t", false);
    let vx = vec![0, 10];
    let vy = vec![0];
    s.polygon(&vx, &vy);
    let taken = s.take_errors();
    assert_eq!(taken, vec![DrawError::UnequalPolygonLengths(2, 1)]);
    assert_eq!(s.draw_errors().len(), 0);
}

#[test]
fn key_set_survives_interleaved_events() {
    // a key pressed before unrelated traffic is still down afterwards,
    // and a released key leaves no stale entry
    let mut s = Sketch::new(100, 100, "t", false);
    let mut m = NoOp;
    let events = vec![
        Event::KeyDown(10),
        Event::MouseButtonDown { button: 1, x: 0, y: 0 },
        Event::KeyDown(11),
        Event::MouseMotion { x: 5, y: 5, xrel: 1, yrel: 1, buttons_down: true },
        Event::KeyUp(10),
        Event::KeyDown(10),
        Event::MouseButtonUp { button: 1, x: 0, y: 0 },
        Event::KeyUp(11),
    ];
    handle_events(&mut s, &mut m, &events);
    assert!(s.key_is_down(10));
    assert!(!s.key_is_down(11));
    assert!(!s.mouse_is_pressed());
}

#[test]
fn dimensions_are_reported() {
    let s = Sketch::new(640, 480, "t", false);
    assert_eq!(s.width(), 640);
    assert_eq!(s.height(), 480);
}

#[test]
fn image_extent_arguments() {
    assert_eq!(Sketch::handle_image_w_h_arguments(320, 200, 0, 0), (320, 200));
    assert_eq!(Sketch::handle_image_w_h_arguments(320, 200, 64, 0), (64, 200));
    assert_eq!(Sketch::handle_image_w_h_arguments(320, 200, 0, 64), (320, 64));
    assert_eq!(Sketch::handle_image_w_h_arguments(320, 200, 64, 48), (64, 48));
}

#[test]
fn colors_carry_their_channels() {
    let c = Color::rgb(1, 2, 3);
    assert_eq!((c.r, c.g, c.b, c.a), (1, 2, 3, 255));
    let c2 = Color::rgba(4, 5, 6, 7);
    assert_eq!((c2.r, c2.g, c2.b, c2.a), (4, 5, 6, 7));
}
