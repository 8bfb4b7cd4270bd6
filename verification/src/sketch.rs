//! The sketch runtime: draw state, draw commands, events and the per-frame
//! bookkeeping.
//!
//! A [`Sketch`] owns no window.  Every drawing primitive appends fully
//! described [`DrawCmd`] values to an internal command buffer, and every
//! argument error appends a [`DrawError`]; an unverified shell owns the
//! real surface, performs the buffered commands after each frame, polls
//! the platform for [`Event`] values, and keeps the loop running.

use vstd::prelude::*;

verus! {

/// Key code reported for the platform's Escape key.
pub const KEY_ESCAPE: i32 = 27;

/// The slowest frame-rate cap a sketch accepts.
pub const MIN_FPS: u32 = 1;

/// The fastest frame-rate cap a sketch accepts.
pub const MAX_FPS: u32 = 200;

/// The frame-rate cap a new sketch starts with.
pub const DEFAULT_FPS: u32 = 30;

/// Milliseconds between two frame-rate measurements.
pub const FPS_WINDOW_MS: u32 = 1000;

/// An RGBA color with 8-bit channels.
#[derive(Clone, Copy, Debug, PartialEq, Eq, Structural)]
pub struct Color {
    pub r: u8,
    pub g: u8,
    pub b: u8,
    pub a: u8,
}

impl Color {
    /// A fully opaque color from red, green and blue channels.
    pub fn rgb(r: u8, g: u8, b: u8) -> (c: Color)
        ensures
            c == (Color { r, g, b, a: 255u8 }),
    {
        Color { r, g, b, a: 255 }
    }

    /// A color from red, green, blue and alpha channels.
    pub fn rgba(r: u8, g: u8, b: u8, a: u8) -> (c: Color)
        ensures
            c == (Color { r, g, b, a }),
    {
        Color { r, g, b, a }
    }
}

/// How the four numeric arguments of [`Sketch::rect`] are interpreted.
#[allow(non_camel_case_types)]
#[derive(Clone, Copy, Debug, PartialEq, Eq, Structural)]
pub enum RectMode {
    /// Upper-left corner (x, y), width (w) and height (h).  The default.
    CORNER,
    /// Upper-left corner (x, y) and lower-right corner (w, h).
    CORNERS,
    /// Center (x, y), width (w) and height (h).
    CENTER,
    /// Center (x, y), half width (w) and half height (h).
    RADIUS,
}

/// One fully described call for the rendering backend.
///
/// Coordinates are pixel positions; every command carries the color it is
/// to be drawn with, so the backend needs no draw state of its own.
#[derive(Clone, Debug)]
pub enum DrawCmd {
    /// Clear the whole surface to the color.
    Clear(Color),
    /// A single pixel at (x, y).
    Point(i32, i32, Color),
    /// A filled axis-aligned rectangle: x, y, width, height.
    FillRect(i32, i32, u32, u32, Color),
    /// The outline of an axis-aligned rectangle: x, y, width, height.
    OutlineRect(i32, i32, u32, u32, Color),
    /// A hard-edged line from (x1, y1) to (x2, y2).
    Line(i32, i32, i32, i32, Color),
    /// An anti-aliased line from (x1, y1) to (x2, y2).
    AaLine(i32, i32, i32, i32, Color),
    /// A filled polygon through the paired x and y coordinates.
    FilledPolygon(Vec<i32>, Vec<i32>, Color),
    /// An anti-aliased closed polygon outline.
    AaPolygon(Vec<i32>, Vec<i32>, Color),
    /// A filled triangle through three points.
    FilledTriangle(i32, i32, i32, i32, i32, i32, Color),
    /// An anti-aliased triangle outline.
    AaTriangle(i32, i32, i32, i32, i32, i32, Color),
    /// A hard-edged triangle outline.
    Triangle(i32, i32, i32, i32, i32, i32, Color),
    /// A circular arc: center, radius, start and end angle in degrees.
    Arc(i32, i32, u32, i32, i32, Color),
    /// A pie-slice outline: center, radius, start and end angle in degrees.
    Pie(i32, i32, u32, i32, i32, Color),
    /// A filled pie slice: center, radius, start and end angle in degrees.
    FilledPie(i32, i32, u32, i32, i32, Color),
    /// A filled circle: center and radius.
    FilledCircle(i32, i32, u32, Color),
    /// An anti-aliased circle outline: center and radius.
    AaCircle(i32, i32, u32, Color),
    /// A hard-edged circle outline: center and radius.
    Circle(i32, i32, u32, Color),
    /// A filled ellipse: center and the two half-axes.
    FilledEllipse(i32, i32, u32, u32, Color),
    /// An anti-aliased ellipse outline: center and the two half-axes.
    AaEllipse(i32, i32, u32, u32, Color),
    /// A hard-edged ellipse outline: center and the two half-axes.
    Ellipse(i32, i32, u32, u32, Color),
}

/// A recoverable argument error, reported instead of drawing anything.
#[derive(Clone, Copy, Debug, PartialEq, Eq, Structural)]
pub enum DrawError {
    /// `polygon` was given x and y coordinate lists of different lengths.
    UnequalPolygonLengths(usize, usize),
    /// `polygon` was given fewer than two points.
    TooFewPolygonPoints(usize),
}

/// A platform input event, already reduced to plain values.
#[derive(Clone, Copy, Debug, PartialEq, Eq, Structural)]
pub enum Event {
    /// The user asked to close the sketch.
    Quit,
    /// A key went down; the payload is its key code.
    KeyDown(i32),
    /// A key came up; the payload is its key code.
    KeyUp(i32),
    /// The mouse moved.  `buttons_down` tells whether any mouse button was
    /// held during the motion.
    MouseMotion { x: i32, y: i32, xrel: i32, yrel: i32, buttons_down: bool },
    /// A mouse button went down at (x, y).
    MouseButtonDown { button: i32, x: i32, y: i32 },
    /// A mouse button came up at (x, y).
    MouseButtonUp { button: i32, x: i32, y: i32 },
}

/// Frame-rate bookkeeping: counts frames and, once per measurement window,
/// turns the count into a rate.
#[derive(Clone, Copy, Debug, PartialEq, Eq, Structural)]
pub struct FpsData {
    /// Milliseconds a measurement window lasts.
    pub update_interval: u32,
    /// Whether the shell should log each new measurement.
    pub print_fps: bool,
    /// The most recent measurement, in thousandths of frames per second;
    /// zero until the first window has elapsed.
    pub current_fps_milli: u64,
    /// Tick (milliseconds) at which the current window started.
    pub last_update: u32,
    /// Frames counted so far in the current window.
    pub num_frames: u64,
}

/// The measured rate for `frames` frames over `diff` milliseconds, in
/// thousandths of frames per second, saturated to 64 bits.
pub open spec fn fps_milli_of(frames: int, diff: int) -> int {
    let v = frames * 1000000 / diff;
    if v > u64::MAX {
        u64::MAX as int
    } else {
        v
    }
}

/// The fps tracker after one frame completed at tick `now`: when the
/// current window has lasted longer than the update interval the frame
/// count becomes a new measurement and a new window starts; otherwise the
/// frame is merely counted.
pub open spec fn fps_step(f: FpsData, now: u32) -> FpsData {
    if now - f.last_update > f.update_interval {
        FpsData {
            current_fps_milli: fps_milli_of(f.num_frames as int, now - f.last_update) as u64,
            last_update: now,
            num_frames: 0,
            ..f
        }
    } else {
        FpsData { num_frames: (f.num_frames + 1) as u64, ..f }
    }
}

impl FpsData {
    /// A fresh tracker whose first window starts at tick `now`.
    pub fn new(update_interval: u32, print_fps: bool, now: u32) -> (f: FpsData)
        ensures
            f == (FpsData {
                update_interval,
                print_fps,
                current_fps_milli: 0u64,
                last_update: now,
                num_frames: 0u64,
            }),
    {
        FpsData { update_interval, print_fps, current_fps_milli: 0, last_update: now, num_frames: 0 }
    }

    /// Account for one finished frame at tick `now`; returns the new
    /// measurement when a window just closed.
    pub fn update(&mut self, now: u32) -> (report: Option<u64>)
        requires
            now >= old(self).last_update,
            old(self).num_frames < u64::MAX,
        ensures
            *final(self) == fps_step(*old(self), now),
            report == (if now - old(self).last_update > old(self).update_interval {
                Some(final(self).current_fps_milli)
            } else {
                Option::<u64>::None
            }),
    {
        let diff = now - self.last_update;
        if diff > self.update_interval {
            let scaled: u128 = (self.num_frames as u128) * 1000000u128 / (diff as u128);
            let milli: u64 = if scaled > u64::MAX as u128 {
                u64::MAX
            } else {
                scaled as u64
            };
            self.current_fps_milli = milli;
            self.last_update = now;
            self.num_frames = 0;
            Some(milli)
        } else {
            self.num_frames = self.num_frames + 1;
            None
        }
    }
}

/// No value occurs twice in the sequence: the vector is a set.
pub open spec fn nodup(s: Seq<i32>) -> bool {
    forall|i: int, j: int| 0 <= i < j < s.len() ==> s[i] != s[j]
}

/// Whether `v` holds `x`.
fn set_contains(v: &Vec<i32>, x: i32) -> (r: bool)
    ensures
        r == v@.contains(x),
{
    let mut i: usize = 0;
    while i < v.len()
        invariant
            0 <= i <= v@.len(),
            forall|k: int| 0 <= k < i ==> v@[k] != x,
        decreases v@.len() - i,
    {
        if v[i] == x {
            proof {
                assert(v@[i as int] == x);
            }
            return true;
        }
        i = i + 1;
    }
    proof {
        assert(forall|k: int| 0 <= k < v@.len() ==> v@[k] != x);
    }
    false
}

/// Add `x` to the set; no effect when it is already there.
fn set_insert(v: &mut Vec<i32>, x: i32)
    requires
        nodup(old(v)@),
    ensures
        nodup(final(v)@),
        forall|k: i32| final(v)@.contains(k) <==> (old(v)@.contains(k) || k == x),
{
    let present = set_contains(v, x);
    if !present {
        let ghost pre = v@;
        v.push(x);
        proof {
            assert forall|k: i32| final(v)@.contains(k) <==> (pre.contains(k) || k == x) by {
                if final(v)@.contains(k) {
                    let i = choose|i: int| 0 <= i < final(v)@.len() && final(v)@[i] == k;
                    if i < pre.len() {
                        assert(pre[i] == k);
                    }
                }
                if pre.contains(k) {
                    let i = choose|i: int| 0 <= i < pre.len() && pre[i] == k;
                    assert(final(v)@[i] == k);
                }
                if k == x {
                    assert(final(v)@[pre.len() as int] == k);
                }
            }
            assert forall|i: int, j: int| 0 <= i < j < final(v)@.len() implies final(v)@[i]
                != final(v)@[j] by {
                if j == pre.len() {
                    assert(pre[i] == final(v)@[i]);
                    assert(!pre.contains(x));
                }
            }
        }
    }
}

/// Remove `x` from the set; no effect when it is absent.
fn set_remove(v: &mut Vec<i32>, x: i32)
    requires
        nodup(old(v)@),
    ensures
        nodup(final(v)@),
        forall|k: i32| final(v)@.contains(k) <==> (old(v)@.contains(k) && k != x),
{
    let ghost pre = v@;
    let mut i: usize = 0;
    while i < v.len()
        invariant
            v@ == pre,
            pre == old(v)@,
            nodup(pre),
            0 <= i <= pre.len(),
            forall|k: int| 0 <= k < i ==> pre[k] != x,
        decreases pre.len() - i,
    {
        if v[i] == x {
            proof {
                assert(pre[i as int] == x);
            }
            v.remove(i);
            proof {
                let ii = i as int;
                let post = v@;
                assert(post == pre.remove(ii));
                pre.remove_ensures(ii);
                assert forall|k: i32| post.contains(k) <==> (pre.contains(k) && k != x) by {
                    if post.contains(k) {
                        let j = choose|j: int| 0 <= j < post.len() && post[j] == k;
                        if j < ii {
                            assert(pre[j] == k);
                            assert(k != x);
                        } else {
                            assert(pre[j + 1] == k);
                            assert(pre[ii] != pre[j + 1]);
                        }
                        assert(pre.contains(k));
                    }
                    if pre.contains(k) && k != x {
                        let j = choose|j: int| 0 <= j < pre.len() && pre[j] == k;
                        if j < ii {
                            assert(post[j] == k);
                        } else {
                            assert(j != ii);
                            assert(post[j - 1] == k);
                        }
                        assert(post.contains(k));
                    }
                }
                assert forall|a: int, b: int| 0 <= a < b < post.len() implies post[a] != post[b] by {
                    if b < ii {
                        assert(post[a] == pre[a] && post[b] == pre[b]);
                    } else if a < ii {
                        assert(post[a] == pre[a] && post[b] == pre[b + 1]);
                    } else {
                        assert(post[a] == pre[a + 1] && post[b] == pre[b + 1]);
                    }
                }
            }
            return ;
        }
        i = i + 1;
    }
    proof {
        assert(forall|k: int| 0 <= k < pre.len() ==> pre[k] != x);
        assert forall|k: i32| v@.contains(k) <==> (pre.contains(k) && k != x) by {
            if v@.contains(k) && k == x {
                let j = choose|j: int| 0 <= j < pre.len() && pre[j] == k;
                assert(false);
            }
        }
    }
}

/// The sketch runtime state: the draw state every primitive consults, the
/// input state the event handlers maintain, and the buffered output.
pub struct Sketch {
    /// Whether the frame loop keeps running; cleared by [`Sketch::quit`].
    pub running: bool,
    /// Whether per-frame work is suspended (events are still polled).
    pub no_loop: bool,
    /// Surface width in pixels; never changes after construction.
    pub width: u32,
    /// Surface height in pixels; never changes after construction.
    pub height: u32,
    /// Color filled primitives are filled with; `None` disables filling.
    pub fill_color: Option<Color>,
    /// Color outlines are drawn with; `None` disables outlines.
    pub stroke_color: Option<Color>,
    /// Reserved outline width in pixels; not consulted by any primitive yet.
    pub stroke_weight: u8,
    /// Whether outlines are drawn anti-aliased.
    pub smooth: bool,
    /// How [`Sketch::rect`] interprets its four numeric arguments.
    pub rect_mode: RectMode,
    /// Key codes currently held down; a set (no duplicates).
    pub keys_down: Vec<i32>,
    /// Mouse buttons currently held down; a set (no duplicates).
    pub mouse_buttons: Vec<i32>,
    /// Most recently reported mouse x position.
    pub mouse_x: i32,
    /// Most recently reported mouse y position.
    pub mouse_y: i32,
    /// Frame-rate cap the shell paces to, in frames per second.
    pub target_fps: u32,
    /// Frame-rate measurement state.
    pub fps: FpsData,
    /// Number of frames completed so far.
    pub frames: u64,
    /// Buffered draw commands, in the order they were issued.
    pub cmds: Vec<DrawCmd>,
    /// Buffered argument errors, in the order they occurred.
    pub errors: Vec<DrawError>,
}

impl Sketch {
    /// Well-formedness: the pressed-key and pressed-button records are
    /// sets, the frame-rate cap is in range, and the surface dimensions
    /// fit a signed pixel coordinate.
    pub open spec fn wf(self) -> bool {
        &&& nodup(self.keys_down@)
        &&& nodup(self.mouse_buttons@)
        &&& MIN_FPS <= self.target_fps <= MAX_FPS
        &&& self.width <= i32::MAX
        &&& self.height <= i32::MAX
    }

    /// A fresh sketch: white fill and stroke, anti-aliasing on, corner
    /// rectangle mode, nothing pressed, nothing buffered, not running.
    ///
    /// The title is used by the shell when it creates the window; the
    /// sketch state itself does not consult it.  `print_fps` asks the
    /// shell to log each frame-rate measurement.
    pub fn new(width: u32, height: u32, _title: &str, print_fps: bool) -> (s: Sketch)
        requires
            width <= i32::MAX,
            height <= i32::MAX,
        ensures
            s.wf(),
            s == (Sketch {
                running: false,
                no_loop: false,
                width,
                height,
                fill_color: Some(Color { r: 255u8, g: 255u8, b: 255u8, a: 255u8 }),
                stroke_color: Some(Color { r: 255u8, g: 255u8, b: 255u8, a: 255u8 }),
                stroke_weight: 1u8,
                smooth: true,
                rect_mode: RectMode::CORNER,
                keys_down: s.keys_down,
                mouse_buttons: s.mouse_buttons,
                mouse_x: 0i32,
                mouse_y: 0i32,
                target_fps: DEFAULT_FPS,
                fps: FpsData {
                    update_interval: FPS_WINDOW_MS,
                    print_fps,
                    current_fps_milli: 0u64,
                    last_update: 0u32,
                    num_frames: 0u64,
                },
                frames: 0u64,
                cmds: s.cmds,
                errors: s.errors,
            }),
            s.keys_down@ =~= Seq::<i32>::empty(),
            s.mouse_buttons@ =~= Seq::<i32>::empty(),
            s.cmds@ =~= Seq::<DrawCmd>::empty(),
            s.errors@ =~= Seq::<DrawError>::empty(),
    {
        Sketch {
            running: false,
            no_loop: false,
            width,
            height,
            fill_color: Some(Color::rgb(255, 255, 255)),
            stroke_color: Some(Color::rgb(255, 255, 255)),
            stroke_weight: 1,
            smooth: true,
            rect_mode: RectMode::CORNER,
            keys_down: Vec::new(),
            mouse_buttons: Vec::new(),
            mouse_x: 0,
            mouse_y: 0,
            target_fps: DEFAULT_FPS,
            fps: FpsData::new(FPS_WINDOW_MS, print_fps, 0),
            frames: 0,
            cmds: Vec::new(),
            errors: Vec::new(),
        }
    }

    /// The sketch width in pixels.
    pub fn width(&self) -> (r: i32)
        requires
            self.wf(),
        ensures
            r == self.width as int,
    {
        self.width as i32
    }

    /// The sketch height in pixels.
    pub fn height(&self) -> (r: i32)
        requires
            self.wf(),
        ensures
            r == self.height as int,
    {
        self.height as i32
    }

    /// The most recent frame-rate measurement, in thousandths of frames
    /// per second; zero until the first measurement window has elapsed.
    pub fn get_framerate(&self) -> (r: u64)
        ensures
            r == self.fps.current_fps_milli,
    {
        self.fps.current_fps_milli
    }

    /// Number of frames completed so far.
    pub fn frames(&self) -> (r: u64)
        ensures
            r == self.frames,
    {
        self.frames
    }

    /// The frame-rate cap the shell paces to, in frames per second.
    pub fn target_fps(&self) -> (r: u32)
        ensures
            r == self.target_fps,
    {
        self.target_fps
    }

    /// Cap the frame rate at `fps` frames per second, clamped into
    /// `MIN_FPS..=MAX_FPS`.
    pub fn set_framerate(&mut self, fps: u32)
        ensures
            *final(self) == (Sketch { target_fps: final(self).target_fps, ..*old(self) }),
            final(self).target_fps == (if fps < MIN_FPS {
                MIN_FPS
            } else if fps > MAX_FPS {
                MAX_FPS
            } else {
                fps
            }),
    {
        self.target_fps = if fps < MIN_FPS {
            MIN_FPS
        } else if fps > MAX_FPS {
            MAX_FPS
        } else {
            fps
        };
    }

    /// Suspend (`true`) or resume (`false`) per-frame work; while
    /// suspended the shell keeps polling events but draws no frames.
    pub fn no_loop(&mut self, setting: bool)
        ensures
            *final(self) == (Sketch { no_loop: setting, ..*old(self) }),
    {
        self.no_loop = setting;
    }

    /// Stop the frame loop; the current frame still completes.
    pub fn quit(&mut self)
        ensures
            *final(self) == (Sketch { running: false, ..*old(self) }),
    {
        self.running = false;
    }

    /// Mark the sketch running: the entry transition of a run, performed
    /// by [`start`] before the setup hook is invoked.
    pub fn make_running(&mut self)
        ensures
            *final(self) == (Sketch { running: true, ..*old(self) }),
    {
        self.running = true;
    }

    /// Whether the frame loop is running.
    pub fn is_running(&self) -> (r: bool)
        ensures
            r == self.running,
    {
        self.running
    }

    /// Whether per-frame work is suspended.
    pub fn is_no_loop(&self) -> (r: bool)
        ensures
            r == self.no_loop,
    {
        self.no_loop
    }

    /// Whether the key with the given code is currently held down.
    pub fn key_is_down(&self, code: i32) -> (r: bool)
        ensures
            r == self.keys_down@.contains(code),
    {
        set_contains(&self.keys_down, code)
    }

    /// The most recently reported mouse position.
    pub fn mouse_pos(&self) -> (r: (i32, i32))
        ensures
            r == (self.mouse_x, self.mouse_y),
    {
        (self.mouse_x, self.mouse_y)
    }

    /// Whether any mouse button is currently held down.
    pub fn mouse_is_pressed(&self) -> (r: bool)
        ensures
            r == (self.mouse_buttons@.len() > 0),
    {
        self.mouse_buttons.len() > 0
    }

    /// Draw outlines from now on, in the given color.
    pub fn stroke(&mut self, color: Color)
        ensures
            *final(self) == (Sketch { stroke_color: Some(color), ..*old(self) }),
    {
        self.stroke_color = Some(color);
    }

    /// Draw no outlines from now on.
    pub fn no_stroke(&mut self)
        ensures
            *final(self) == (Sketch { stroke_color: Option::<Color>::None, ..*old(self) }),
    {
        self.stroke_color = None;
    }

    /// Fill primitives from now on, in the given color.
    pub fn fill(&mut self, color: Color)
        ensures
            *final(self) == (Sketch { fill_color: Some(color), ..*old(self) }),
    {
        self.fill_color = Some(color);
    }

    /// Fill no primitives from now on.
    pub fn no_fill(&mut self)
        ensures
            *final(self) == (Sketch { fill_color: Option::<Color>::None, ..*old(self) }),
    {
        self.fill_color = None;
    }

    /// Reserved: the outline width for future use; no primitive consults
    /// it yet.
    #[allow(dead_code)]
    fn stroke_weight(&mut self, weight: u8)
        ensures
            *final(self) == (Sketch { stroke_weight: weight, ..*old(self) }),
    {
        self.stroke_weight = weight;
    }

    /// Draw anti-aliased outlines from now on.
    pub fn smooth(&mut self)
        ensures
            *final(self) == (Sketch { smooth: true, ..*old(self) }),
    {
        self.smooth = true;
    }

    /// Draw hard-edged outlines from now on.
    pub fn no_smooth(&mut self)
        ensures
            *final(self) == (Sketch { smooth: false, ..*old(self) }),
    {
        self.smooth = false;
    }

    /// Interpret the arguments of subsequent [`Sketch::rect`] calls in the
    /// given mode.
    pub fn rect_mode(&mut self, mode: RectMode)
        ensures
            *final(self) == (Sketch { rect_mode: mode, ..*old(self) }),
    {
        self.rect_mode = mode;
    }

    /// The draw commands buffered so far.
    pub fn commands(&self) -> (r: &Vec<DrawCmd>)
        ensures
            r == self.cmds,
    {
        &self.cmds
    }

    /// The argument errors reported so far.
    pub fn draw_errors(&self) -> (r: &Vec<DrawError>)
        ensures
            r == self.errors,
    {
        &self.errors
    }

    /// Hand the buffered draw commands over (to the shell, which performs
    /// them), leaving the buffer empty.
    pub fn take_commands(&mut self) -> (r: Vec<DrawCmd>)
        ensures
            r@ == old(self).cmds@,
            *final(self) == (Sketch { cmds: final(self).cmds, ..*old(self) }),
            final(self).cmds@ =~= Seq::<DrawCmd>::empty(),
    {
        let mut out: Vec<DrawCmd> = Vec::new();
        core::mem::swap(&mut out, &mut self.cmds);
        out
    }

    /// Hand the buffered argument errors over (to the shell, which reports
    /// them on the diagnostic stream), leaving the buffer empty.
    pub fn take_errors(&mut self) -> (r: Vec<DrawError>)
        ensures
            r@ == old(self).errors@,
            *final(self) == (Sketch { errors: final(self).errors, ..*old(self) }),
            final(self).errors@ =~= Seq::<DrawError>::empty(),
    {
        let mut out: Vec<DrawError> = Vec::new();
        core::mem::swap(&mut out, &mut self.errors);
        out
    }
}

/// Commands emitted by [`Sketch::background`].
pub open spec fn background_cmds(color: Color) -> Seq<DrawCmd> {
    seq![DrawCmd::Clear(color)]
}

/// Commands emitted by [`Sketch::point`]: one pixel when a stroke color is
/// set, nothing otherwise.
pub open spec fn point_cmds(stroke: Option<Color>, x: i32, y: i32) -> Seq<DrawCmd> {
    match stroke {
        Some(c) => seq![DrawCmd::Point(x, y, c)],
        None => seq![],
    }
}

/// Commands emitted by [`Sketch::line`]: one line in the stroke color when
/// one is set (anti-aliased exactly when smoothing is on), nothing
/// otherwise.
pub open spec fn line_cmds(
    stroke: Option<Color>,
    smooth: bool,
    x1: i32,
    y1: i32,
    x2: i32,
    y2: i32,
) -> Seq<DrawCmd> {
    match stroke {
        Some(c) => if smooth {
            seq![DrawCmd::AaLine(x1, y1, x2, y2, c)]
        } else {
            seq![DrawCmd::Line(x1, y1, x2, y2, c)]
        },
        None => seq![],
    }
}

/// Commands emitted by [`Sketch::rect`] for the already converted
/// parameters: a filled rectangle when a fill color is set, and, when a
/// stroke color is set, the outline plus the one pixel at the lower-right
/// corner that the backend's rectangle outline leaves out.
pub open spec fn rect_cmds(
    fill: Option<Color>,
    stroke: Option<Color>,
    x: int,
    y: int,
    w: int,
    h: int,
) -> Seq<DrawCmd> {
    let fill_part: Seq<DrawCmd> = match fill {
        Some(c) => seq![DrawCmd::FillRect(x as i32, y as i32, w as u32, h as u32, c)],
        None => seq![],
    };
    let stroke_part: Seq<DrawCmd> = match stroke {
        Some(c) => seq![
            DrawCmd::OutlineRect(x as i32, y as i32, w as u32, h as u32, c),
            DrawCmd::Point((x + w - 1) as i32, (y + h - 1) as i32, c),
        ],
        None => seq![],
    };
    fill_part + stroke_part
}

/// Commands emitted by [`Sketch::triangle`]: the filled triangle when a
/// fill color is set (with an anti-aliased outline in the fill color when
/// smoothing is on and no stroke color exists, to soften the filled
/// shape's edge), then the outline when a stroke color is set.
pub open spec fn triangle_cmds(
    fill: Option<Color>,
    stroke: Option<Color>,
    smooth: bool,
    x1: i32,
    y1: i32,
    x2: i32,
    y2: i32,
    x3: i32,
    y3: i32,
) -> Seq<DrawCmd> {
    let fill_part: Seq<DrawCmd> = match fill {
        Some(c) => if smooth && stroke is None {
            seq![
                DrawCmd::FilledTriangle(x1, y1, x2, y2, x3, y3, c),
                DrawCmd::AaTriangle(x1, y1, x2, y2, x3, y3, c),
            ]
        } else {
            seq![DrawCmd::FilledTriangle(x1, y1, x2, y2, x3, y3, c)]
        },
        None => seq![],
    };
    let stroke_part: Seq<DrawCmd> = match stroke {
        Some(c) => if smooth {
            seq![DrawCmd::AaTriangle(x1, y1, x2, y2, x3, y3, c)]
        } else {
            seq![DrawCmd::Triangle(x1, y1, x2, y2, x3, y3, c)]
        },
        None => seq![],
    };
    fill_part + stroke_part
}

/// Commands emitted by [`Sketch::arc`]: the arc outline when a stroke
/// color is set; arcs have no fill.
pub open spec fn arc_cmds(
    stroke: Option<Color>,
    x: i32,
    y: i32,
    r: u32,
    start: i32,
    end: i32,
) -> Seq<DrawCmd> {
    match stroke {
        Some(c) => seq![DrawCmd::Arc(x, y, r, start, end, c)],
        None => seq![],
    }
}

/// Commands emitted by [`Sketch::pie`]: the filled slice when a fill color
/// is set, then the slice outline when a stroke color is set; smoothing is
/// not consulted.
pub open spec fn pie_cmds(
    fill: Option<Color>,
    stroke: Option<Color>,
    x: i32,
    y: i32,
    r: u32,
    start: i32,
    end: i32,
) -> Seq<DrawCmd> {
    let fill_part: Seq<DrawCmd> = match fill {
        Some(c) => seq![DrawCmd::FilledPie(x, y, r, start, end, c)],
        None => seq![],
    };
    let stroke_part: Seq<DrawCmd> = match stroke {
        Some(c) => seq![DrawCmd::Pie(x, y, r, start, end, c)],
        None => seq![],
    };
    fill_part + stroke_part
}

/// Commands emitted by [`Sketch::circle`]: like [`triangle_cmds`], with
/// the same fill/stroke/smoothing composition.
pub open spec fn circle_cmds(
    fill: Option<Color>,
    stroke: Option<Color>,
    smooth: bool,
    x: i32,
    y: i32,
    r: u32,
) -> Seq<DrawCmd> {
    let fill_part: Seq<DrawCmd> = match fill {
        Some(c) => if smooth && stroke is None {
            seq![DrawCmd::FilledCircle(x, y, r, c), DrawCmd::AaCircle(x, y, r, c)]
        } else {
            seq![DrawCmd::FilledCircle(x, y, r, c)]
        },
        None => seq![],
    };
    let stroke_part: Seq<DrawCmd> = match stroke {
        Some(c) => if smooth {
            seq![DrawCmd::AaCircle(x, y, r, c)]
        } else {
            seq![DrawCmd::Circle(x, y, r, c)]
        },
        None => seq![],
    };
    fill_part + stroke_part
}

/// Commands emitted by [`Sketch::ellipse`]: like [`triangle_cmds`], with
/// the same fill/stroke/smoothing composition.
pub open spec fn ellipse_cmds(
    fill: Option<Color>,
    stroke: Option<Color>,
    smooth: bool,
    x: i32,
    y: i32,
    w: u32,
    h: u32,
) -> Seq<DrawCmd> {
    let fill_part: Seq<DrawCmd> = match fill {
        Some(c) => if smooth && stroke is None {
            seq![DrawCmd::FilledEllipse(x, y, w, h, c), DrawCmd::AaEllipse(x, y, w, h, c)]
        } else {
            seq![DrawCmd::FilledEllipse(x, y, w, h, c)]
        },
        None => seq![],
    };
    let stroke_part: Seq<DrawCmd> = match stroke {
        Some(c) => if smooth {
            seq![DrawCmd::AaEllipse(x, y, w, h, c)]
        } else {
            seq![DrawCmd::Ellipse(x, y, w, h, c)]
        },
        None => seq![],
    };
    fill_part + stroke_part
}

/// How many commands the fill pass of [`Sketch::polygon`] emits: the
/// filled polygon, plus an anti-aliased outline in the fill color when
/// smoothing is on and no stroke color exists.
pub open spec fn polygon_fill_count(fill: Option<Color>, stroke: Option<Color>, smooth: bool) -> int {
    match fill {
        Some(_) => if smooth && stroke is None {
            2
        } else {
            1
        },
        None => 0,
    }
}

/// The outline commands of [`Sketch::polygon`]: one line per consecutive
/// coordinate pair (the outline is not closed), anti-aliased exactly when
/// smoothing is on; nothing without a stroke color.
pub open spec fn polygon_stroke_cmds(
    stroke: Option<Color>,
    smooth: bool,
    vx: Seq<i32>,
    vy: Seq<i32>,
) -> Seq<DrawCmd> {
    match stroke {
        Some(c) => Seq::new(
            (vx.len() - 1) as nat,
            |i: int|
                if smooth {
                    DrawCmd::AaLine(vx[i], vy[i], vx[i + 1], vy[i + 1], c)
                } else {
                    DrawCmd::Line(vx[i], vy[i], vx[i + 1], vy[i + 1], c)
                },
        ),
        None => seq![],
    }
}

/// The x coordinates [`Sketch::quad`] hands to the polygon: the four
/// corners with the first repeated to close the shape.
pub open spec fn quad_coords(a: i32, b: i32, c: i32, d: i32) -> Seq<i32> {
    seq![a, b, c, d, a]
}

/// What a successful polygon call does to the sketch: only the command
/// buffer grows, by the fill commands (carrying copies of the coordinate
/// lists) followed by the outline commands.
pub open spec fn polygon_effect(pre: Sketch, post: Sketch, vx: Seq<i32>, vy: Seq<i32>) -> bool {
    let prec = pre.cmds@;
    let fk = polygon_fill_count(pre.fill_color, pre.stroke_color, pre.smooth);
    let scmds = polygon_stroke_cmds(pre.stroke_color, pre.smooth, vx, vy);
    &&& post.cmds@.len() == prec.len() + fk + scmds.len()
    &&& post.cmds@.take(prec.len() as int) == prec
    &&& (pre.fill_color matches Some(c) ==> (post.cmds@[prec.len() as int] matches
        DrawCmd::FilledPolygon(px, py, cc) && px@ == vx && py@ == vy && cc == c))
    &&& (pre.fill_color matches Some(c) ==> ((pre.smooth && pre.stroke_color is None) ==> (
    post.cmds@[prec.len() as int + 1] matches DrawCmd::AaPolygon(px, py, cc) && px@ == vx && py@
        == vy && cc == c)))
    &&& post.cmds@.skip(prec.len() + fk) == scmds
    &&& post == (Sketch { cmds: post.cmds, ..pre })
}

/// Copy a coordinate list.
fn copy_coords(v: &Vec<i32>) -> (r: Vec<i32>)
    ensures
        r@ == v@,
{
    let mut out: Vec<i32> = Vec::new();
    let mut i: usize = 0;
    while i < v.len()
        invariant
            0 <= i <= v@.len(),
            out@ == v@.take(i as int),
        decreases v@.len() - i,
    {
        out.push(v[i]);
        proof {
            assert(out@ =~= v@.take(i as int + 1));
        }
        i = i + 1;
    }
    proof {
        assert(out@ =~= v@);
    }
    out
}

/// Truncated halving: `t / 2` rounded toward zero.
pub open spec fn half_toward_zero(t: int) -> int {
    if t >= 0 {
        t / 2
    } else {
        -((-t) / 2)
    }
}

/// The rectangle parameters after reinterpretation under the given mode,
/// as (x, y, width, height) of the absolute rectangle.
///
/// `CORNER` is the identity.  `CORNERS` treats (w, h) as the opposite
/// corner and takes absolute differences.  `CENTER` treats (x, y) as the
/// center of a w-by-h rectangle, moving the corner up and left by half
/// the extent (odd halves truncate toward zero).  `RADIUS` treats (x, y)
/// as the center and (w, h) as half-extents, giving the rectangle
/// (x - w, y - h, 2w, 2h).
pub open spec fn rect_params(mode: RectMode, x: i32, y: i32, w: u32, h: u32) -> (int, int, int, int) {
    match mode {
        RectMode::CORNER => (x as int, y as int, w as int, h as int),
        RectMode::CORNERS => (
            x as int,
            y as int,
            vstd::math::abs(w - x) as int,
            vstd::math::abs(h - y) as int,
        ),
        RectMode::CENTER => (
            half_toward_zero(2 * x - w),
            half_toward_zero(2 * y - h),
            w as int,
            h as int,
        ),
        RectMode::RADIUS => (x - w, y - h, 2 * w as int, 2 * h as int),
    }
}

/// Whether the reinterpreted rectangle fits the machine types: x and y in
/// the signed 32-bit range, width and height in the unsigned 32-bit range.
pub open spec fn rect_params_ok(mode: RectMode, x: i32, y: i32, w: u32, h: u32) -> bool {
    let (rx, ry, rw, rh) = rect_params(mode, x, y, w, h);
    &&& i32::MIN <= rx <= i32::MAX
    &&& i32::MIN <= ry <= i32::MAX
    &&& 0 <= rw <= u32::MAX
    &&& 0 <= rh <= u32::MAX
}

/// Whether the lower-right corner pixel of the reinterpreted rectangle
/// fits the signed 32-bit range; the outline path draws it.
pub open spec fn rect_corner_ok(mode: RectMode, x: i32, y: i32, w: u32, h: u32) -> bool {
    let (rx, ry, rw, rh) = rect_params(mode, x, y, w, h);
    &&& i32::MIN <= rx + rw - 1 <= i32::MAX
    &&& i32::MIN <= ry + rh - 1 <= i32::MAX
}

/// Halve `t` toward zero.
fn half_exec(t: i64) -> (r: i64)
    requires
        -0x400000000 <= t <= 0x400000000,
    ensures
        r == half_toward_zero(t as int),
{
    if t >= 0 {
        t / 2
    } else {
        -((-t) / 2)
    }
}

impl Sketch {
    /// Convert the four rectangle arguments under the current rectangle
    /// mode into the absolute (x, y, width, height) quad.
    fn rect_parameters(&self, x: i32, y: i32, w: u32, h: u32) -> (r: (i32, i32, u32, u32))
        requires
            rect_params_ok(self.rect_mode, x, y, w, h),
        ensures
            (r.0 as int, r.1 as int, r.2 as int, r.3 as int) == rect_params(
                self.rect_mode,
                x,
                y,
                w,
                h,
            ),
    {
        match self.rect_mode {
            RectMode::CORNER => (x, y, w, h),
            RectMode::CORNERS => {
                let dx = w as i64 - x as i64;
                let dy = h as i64 - y as i64;
                let aw = if dx < 0 {
                    -dx
                } else {
                    dx
                };
                let ah = if dy < 0 {
                    -dy
                } else {
                    dy
                };
                (x, y, aw as u32, ah as u32)
            },
            RectMode::CENTER => {
                let cx = half_exec(2 * (x as i64) - w as i64);
                let cy = half_exec(2 * (y as i64) - h as i64);
                (cx as i32, cy as i32, w, h)
            },
            RectMode::RADIUS => {
                let cx = x as i64 - w as i64;
                let cy = y as i64 - h as i64;
                (cx as i32, cy as i32, 2 * w, 2 * h)
            },
        }
    }

    /// Clear the whole sketch to the given color.
    pub fn background(&mut self, color: Color)
        ensures
            final(self).cmds@ == old(self).cmds@ + background_cmds(color),
            *final(self) == (Sketch { cmds: final(self).cmds, ..*old(self) }),
    {
        self.cmds.push(DrawCmd::Clear(color));
    }

    /// Draw a single pixel at (x, y) in the stroke color, if one is set.
    pub fn point(&mut self, x: i32, y: i32)
        ensures
            final(self).cmds@ == old(self).cmds@ + point_cmds(old(self).stroke_color, x, y),
            *final(self) == (Sketch { cmds: final(self).cmds, ..*old(self) }),
    {
        if let Some(c) = self.stroke_color {
            self.cmds.push(DrawCmd::Point(x, y, c));
        }
    }

    /// Draw a line from (x1, y1) to (x2, y2) in the stroke color, if one
    /// is set; anti-aliased exactly when smoothing is on.
    pub fn line(&mut self, x1: i32, y1: i32, x2: i32, y2: i32)
        ensures
            final(self).cmds@ == old(self).cmds@ + line_cmds(
                old(self).stroke_color,
                old(self).smooth,
                x1,
                y1,
                x2,
                y2,
            ),
            *final(self) == (Sketch { cmds: final(self).cmds, ..*old(self) }),
    {
        if let Some(c) = self.stroke_color {
            if self.smooth {
                self.cmds.push(DrawCmd::AaLine(x1, y1, x2, y2, c));
            } else {
                self.cmds.push(DrawCmd::Line(x1, y1, x2, y2, c));
            }
        }
    }

    /// Draw a rectangle.  The four arguments are interpreted under the
    /// current rectangle mode; fill and outline follow the fill and stroke
    /// colors.
    pub fn rect(&mut self, x: i32, y: i32, w: u32, h: u32)
        requires
            rect_params_ok(old(self).rect_mode, x, y, w, h),
            old(self).stroke_color is Some ==> rect_corner_ok(old(self).rect_mode, x, y, w, h),
        ensures
            ({
                let (rx, ry, rw, rh) = rect_params(old(self).rect_mode, x, y, w, h);
                final(self).cmds@ == old(self).cmds@ + rect_cmds(
                    old(self).fill_color,
                    old(self).stroke_color,
                    rx,
                    ry,
                    rw,
                    rh,
                )
            }),
            *final(self) == (Sketch { cmds: final(self).cmds, ..*old(self) }),
    {
        let (rx, ry, rw, rh) = self.rect_parameters(x, y, w, h);
        if let Some(c) = self.fill_color {
            self.cmds.push(DrawCmd::FillRect(rx, ry, rw, rh, c));
        }
        if let Some(c) = self.stroke_color {
            self.cmds.push(DrawCmd::OutlineRect(rx, ry, rw, rh, c));
            let px = (rx as i64 + rw as i64 - 1) as i32;
            let py = (ry as i64 + rh as i64 - 1) as i32;
            self.cmds.push(DrawCmd::Point(px, py, c));
        }
    }

    /// Draw a triangle through three points; fill and outline follow the
    /// fill and stroke colors and the smoothing flag.
    pub fn triangle(&mut self, x1: i32, y1: i32, x2: i32, y2: i32, x3: i32, y3: i32)
        ensures
            final(self).cmds@ == old(self).cmds@ + triangle_cmds(
                old(self).fill_color,
                old(self).stroke_color,
                old(self).smooth,
                x1,
                y1,
                x2,
                y2,
                x3,
                y3,
            ),
            *final(self) == (Sketch { cmds: final(self).cmds, ..*old(self) }),
    {
        if let Some(c) = self.fill_color {
            self.cmds.push(DrawCmd::FilledTriangle(x1, y1, x2, y2, x3, y3, c));
            if self.smooth && self.stroke_color.is_none() {
                self.cmds.push(DrawCmd::AaTriangle(x1, y1, x2, y2, x3, y3, c));
            }
        }
        if let Some(c) = self.stroke_color {
            if self.smooth {
                self.cmds.push(DrawCmd::AaTriangle(x1, y1, x2, y2, x3, y3, c));
            } else {
                self.cmds.push(DrawCmd::Triangle(x1, y1, x2, y2, x3, y3, c));
            }
        }
    }

    /// Draw a circular arc (angles in degrees, zero pointing right) in the
    /// stroke color, if one is set; arcs have no fill.
    pub fn arc(&mut self, x: i32, y: i32, r: u32, start: i32, end: i32)
        ensures
            final(self).cmds@ == old(self).cmds@ + arc_cmds(
                old(self).stroke_color,
                x,
                y,
                r,
                start,
                end,
            ),
            *final(self) == (Sketch { cmds: final(self).cmds, ..*old(self) }),
    {
        if let Some(c) = self.stroke_color {
            self.cmds.push(DrawCmd::Arc(x, y, r, start, end, c));
        }
    }

    /// Draw a pie slice (angles in degrees, zero pointing right); fill and
    /// outline follow the fill and stroke colors; smoothing is ignored.
    pub fn pie(&mut self, x: i32, y: i32, r: u32, start: i32, end: i32)
        ensures
            final(self).cmds@ == old(self).cmds@ + pie_cmds(
                old(self).fill_color,
                old(self).stroke_color,
                x,
                y,
                r,
                start,
                end,
            ),
            *final(self) == (Sketch { cmds: final(self).cmds, ..*old(self) }),
    {
        if let Some(c) = self.fill_color {
            self.cmds.push(DrawCmd::FilledPie(x, y, r, start, end, c));
        }
        if let Some(c) = self.stroke_color {
            self.cmds.push(DrawCmd::Pie(x, y, r, start, end, c));
        }
    }

    /// Draw a circle with center (x, y) and radius r; fill and outline
    /// follow the fill and stroke colors and the smoothing flag.
    pub fn circle(&mut self, x: i32, y: i32, r: u32)
        ensures
            final(self).cmds@ == old(self).cmds@ + circle_cmds(
                old(self).fill_color,
                old(self).stroke_color,
                old(self).smooth,
                x,
                y,
                r,
            ),
            *final(self) == (Sketch { cmds: final(self).cmds, ..*old(self) }),
    {
        if let Some(c) = self.fill_color {
            self.cmds.push(DrawCmd::FilledCircle(x, y, r, c));
            if self.smooth && self.stroke_color.is_none() {
                self.cmds.push(DrawCmd::AaCircle(x, y, r, c));
            }
        }
        if let Some(c) = self.stroke_color {
            if self.smooth {
                self.cmds.push(DrawCmd::AaCircle(x, y, r, c));
            } else {
                self.cmds.push(DrawCmd::Circle(x, y, r, c));
            }
        }
    }

    /// Draw an ellipse with center (x, y) and half-axes w and h; fill and
    /// outline follow the fill and stroke colors and the smoothing flag.
    pub fn ellipse(&mut self, x: i32, y: i32, w: u32, h: u32)
        ensures
            final(self).cmds@ == old(self).cmds@ + ellipse_cmds(
                old(self).fill_color,
                old(self).stroke_color,
                old(self).smooth,
                x,
                y,
                w,
                h,
            ),
            *final(self) == (Sketch { cmds: final(self).cmds, ..*old(self) }),
    {
        if let Some(c) = self.fill_color {
            self.cmds.push(DrawCmd::FilledEllipse(x, y, w, h, c));
            if self.smooth && self.stroke_color.is_none() {
                self.cmds.push(DrawCmd::AaEllipse(x, y, w, h, c));
            }
        }
        if let Some(c) = self.stroke_color {
            if self.smooth {
                self.cmds.push(DrawCmd::AaEllipse(x, y, w, h, c));
            } else {
                self.cmds.push(DrawCmd::Ellipse(x, y, w, h, c));
            }
        }
    }

    /// Draw a polygon through the paired coordinates.
    ///
    /// The coordinate lists must have equal lengths and at least two
    /// points; otherwise exactly one error is reported and nothing is
    /// drawn.  A fill color yields the filled polygon (plus an
    /// anti-aliased outline in the fill color when smoothing is on and no
    /// stroke color exists); a stroke color yields one line per
    /// consecutive pair, leaving the outline open, exactly as repeated
    /// [`Sketch::line`] calls would.
    pub fn polygon(&mut self, vx: &Vec<i32>, vy: &Vec<i32>)
        ensures
            vx@.len() != vy@.len() ==> (final(self).errors@ == old(self).errors@ + seq![
                DrawError::UnequalPolygonLengths(vx@.len() as usize, vy@.len() as usize),
            ] && *final(self) == (Sketch { errors: final(self).errors, ..*old(self) })),
            vx@.len() == vy@.len() && vx@.len() < 2 ==> (final(self).errors@ == old(self).errors@
                + seq![DrawError::TooFewPolygonPoints(vx@.len() as usize)] && *final(self) == (
            Sketch { errors: final(self).errors, ..*old(self) })),
            vx@.len() == vy@.len() && vx@.len() >= 2 ==> polygon_effect(
                *old(self),
                *final(self),
                vx@,
                vy@,
            ),
    {
        if vx.len() != vy.len() {
            self.errors.push(DrawError::UnequalPolygonLengths(vx.len(), vy.len()));
            return ;
        }
        if vx.len() < 2 {
            self.errors.push(DrawError::TooFewPolygonPoints(vx.len()));
            return ;
        }
        let ghost pre = *self;
        if let Some(c) = self.fill_color {
            let cx = copy_coords(vx);
            let cy = copy_coords(vy);
            self.cmds.push(DrawCmd::FilledPolygon(cx, cy, c));
            if self.smooth && self.stroke_color.is_none() {
                let cx2 = copy_coords(vx);
                let cy2 = copy_coords(vy);
                self.cmds.push(DrawCmd::AaPolygon(cx2, cy2, c));
            }
        }
        let ghost mid = *self;
        proof {
            let fk = polygon_fill_count(pre.fill_color, pre.stroke_color, pre.smooth);
            assert(mid.cmds@.len() == pre.cmds@.len() + fk);
            assert(mid.cmds@.take(pre.cmds@.len() as int) =~= pre.cmds@);
        }
        if self.stroke_color.is_some() {
            let ghost scmds = polygon_stroke_cmds(pre.stroke_color, pre.smooth, vx@, vy@);
            let n = vx.len();
            let mut i: usize = 0;
            while i < n - 1
                invariant
                    0 <= i <= n - 1,
                    n == vx@.len(),
                    n == vy@.len(),
                    2 <= n,
                    self.stroke_color == pre.stroke_color,
                    self.smooth == pre.smooth,
                    pre.stroke_color is Some,
                    scmds == polygon_stroke_cmds(pre.stroke_color, pre.smooth, vx@, vy@),
                    self.cmds@ == mid.cmds@ + scmds.take(i as int),
                    *self == (Sketch { cmds: self.cmds, ..mid }),
                decreases n - 1 - i,
            {
                self.line(vx[i], vy[i], vx[i + 1], vy[i + 1]);
                proof {
                    assert(self.cmds@ =~= mid.cmds@ + scmds.take(i as int + 1));
                }
                i = i + 1;
            }
            proof {
                assert(self.cmds@ == mid.cmds@ + scmds.take(n as int - 1));
                assert(scmds.take(n as int - 1) =~= scmds);
            }
        }
        proof {
            let fk = polygon_fill_count(pre.fill_color, pre.stroke_color, pre.smooth);
            let scmds = polygon_stroke_cmds(pre.stroke_color, pre.smooth, vx@, vy@);
            assert(self.cmds@ == mid.cmds@ + scmds);
            assert(self.cmds@.take(pre.cmds@.len() as int) =~= pre.cmds@);
            assert(self.cmds@.skip(pre.cmds@.len() + fk) =~= scmds);
        }
    }

    /// Draw a quadrilateral through four points, as a closed polygon: the
    /// first point is repeated to close the shape.  The points are used in
    /// the order given; a self-intersecting order is drawn as handed in.
    pub fn quad(
        &mut self,
        x1: i32,
        y1: i32,
        x2: i32,
        y2: i32,
        x3: i32,
        y3: i32,
        x4: i32,
        y4: i32,
    )
        ensures
            polygon_effect(
                *old(self),
                *final(self),
                quad_coords(x1, x2, x3, x4),
                quad_coords(y1, y2, y3, y4),
            ),
    {
        let vx = vec![x1, x2, x3, x4, x1];
        let vy = vec![y1, y2, y3, y4, y1];
        proof {
            assert(vx@ =~= quad_coords(x1, x2, x3, x4));
            assert(vy@ =~= quad_coords(y1, y2, y3, y4));
        }
        self.polygon(&vx, &vy);
    }

    /// Resolve the width and height arguments of an image draw call: zero
    /// for either means "use the image's own extent".
    pub fn handle_image_w_h_arguments(native_w: u32, native_h: u32, w: u32, h: u32) -> (r: (
        u32,
        u32,
    ))
        ensures
            r.0 == (if w == 0 {
                native_w
            } else {
                w
            }),
            r.1 == (if h == 0 {
                native_h
            } else {
                h
            }),
    {
        if w != 0 && h != 0 {
            return (w, h);
        }
        let width = if w == 0 {
            native_w
        } else {
            w
        };
        let height = if h == 0 {
            native_h
        } else {
            h
        };
        (width, height)
    }

    /// Record one input event in the sketch state: quit clears the running
    /// flag, key events maintain the pressed-key set, mouse events
    /// maintain the pressed-button set and the last mouse position.
    pub fn apply_event(&mut self, e: &Event)
        requires
            old(self).wf(),
        ensures
            final(self).wf(),
            preserves_frame_stats(*old(self), *final(self)),
            *e is Quit ==> *final(self) == (Sketch { running: false, ..*old(self) }),
            *e matches Event::KeyDown(code) ==> (*final(self) == (Sketch {
                keys_down: final(self).keys_down,
                ..*old(self)
            }) && forall|k: i32|
                final(self).keys_down@.contains(k) <==> (old(self).keys_down@.contains(k) || k
                    == code)),
            *e matches Event::KeyUp(code) ==> (*final(self) == (Sketch {
                keys_down: final(self).keys_down,
                ..*old(self)
            }) && forall|k: i32|
                final(self).keys_down@.contains(k) <==> (old(self).keys_down@.contains(k) && k
                    != code)),
            *e matches Event::MouseMotion { x, y, .. } ==> *final(self) == (Sketch {
                mouse_x: x,
                mouse_y: y,
                ..*old(self)
            }),
            *e matches Event::MouseButtonDown { button, x, y } ==> (*final(self) == (Sketch {
                mouse_buttons: final(self).mouse_buttons,
                mouse_x: x,
                mouse_y: y,
                ..*old(self)
            }) && forall|k: i32|
                final(self).mouse_buttons@.contains(k) <==> (old(self).mouse_buttons@.contains(k)
                    || k == button)),
            *e matches Event::MouseButtonUp { button, x, y } ==> (*final(self) == (Sketch {
                mouse_buttons: final(self).mouse_buttons,
                mouse_x: x,
                mouse_y: y,
                ..*old(self)
            }) && forall|k: i32|
                final(self).mouse_buttons@.contains(k) <==> (old(self).mouse_buttons@.contains(k)
                    && k != button)),
    {
        match *e {
            Event::Quit => {
                self.running = false;
            },
            Event::KeyDown(code) => {
                set_insert(&mut self.keys_down, code);
            },
            Event::KeyUp(code) => {
                set_remove(&mut self.keys_down, code);
            },
            Event::MouseMotion { x, y, .. } => {
                self.mouse_x = x;
                self.mouse_y = y;
            },
            Event::MouseButtonDown { button, x, y } => {
                set_insert(&mut self.mouse_buttons, button);
                self.mouse_x = x;
                self.mouse_y = y;
            },
            Event::MouseButtonUp { button, x, y } => {
                set_remove(&mut self.mouse_buttons, button);
                self.mouse_x = x;
                self.mouse_y = y;
            },
        }
    }
}

/// The parts of the sketch state that no application hook may disturb:
/// the surface dimensions and the frame accounting.
pub open spec fn preserves_frame_stats(pre: Sketch, post: Sketch) -> bool {
    &&& post.width == pre.width
    &&& post.height == pre.height
    &&& post.frames == pre.frames
    &&& post.fps == pre.fps
}

/// The input state that only event dispatch may change: the pressed-key
/// and pressed-button sets and the tracked mouse position.  Hooks must
/// leave it alone, so the pressed sets hold exactly the keys and buttons
/// between their down and up events — no stale entries.
pub open spec fn preserves_input_state(pre: Sketch, post: Sketch) -> bool {
    &&& post.keys_down@ == pre.keys_down@
    &&& post.mouse_buttons@ == pre.mouse_buttons@
    &&& post.mouse_x == pre.mouse_x
    &&& post.mouse_y == pre.mouse_y
}

/// Whether key `k` is down after the events are applied, in order, to a
/// pressed-key record holding `init`: down exactly when a key-down for it
/// has no later key-up, or it started down and saw no later key-up.
pub open spec fn key_down_after(init: Seq<i32>, events: Seq<Event>, k: i32) -> bool
    decreases events.len(),
{
    if events.len() == 0 {
        init.contains(k)
    } else {
        match events.last() {
            Event::KeyDown(code) => k == code || key_down_after(init, events.drop_last(), k),
            Event::KeyUp(code) => k != code && key_down_after(init, events.drop_last(), k),
            _ => key_down_after(init, events.drop_last(), k),
        }
    }
}

/// Whether mouse button `b` is down after the events are applied, in
/// order, to a pressed-button record holding `init`.
pub open spec fn button_down_after(init: Seq<i32>, events: Seq<Event>, b: i32) -> bool
    decreases events.len(),
{
    if events.len() == 0 {
        init.contains(b)
    } else {
        match events.last() {
            Event::MouseButtonDown { button, .. } => b == button || button_down_after(
                init,
                events.drop_last(),
                b,
            ),
            Event::MouseButtonUp { button, .. } => b != button && button_down_after(
                init,
                events.drop_last(),
                b,
            ),
            _ => button_down_after(init, events.drop_last(), b),
        }
    }
}

/// The application's lifecycle hooks.  Every hook is optional: each has a
/// default that does nothing, except [`MainLoopMethods::key_pressed`],
/// whose default quits the sketch when Escape is pressed.
///
/// A hook may mutate the sketch through its public operations; it must
/// leave the state well-formed and keep the surface dimensions, the frame
/// accounting and the input state untouched, and it may stop a running
/// sketch but never restart a stopped one — all of which every public
/// draw and control operation respects.
#[allow(unused_variables)]
pub trait MainLoopMethods {
    /// Called once, before the first frame.
    fn setup(&mut self, s: &mut Sketch)
        requires
            old(s).wf(),
        ensures
            final(s).wf(),
            preserves_frame_stats(*old(s), *final(s)),
            preserves_input_state(*old(s), *final(s)),
            final(s).running ==> old(s).running,
    {
    }

    /// Called every frame, before [`MainLoopMethods::draw`].
    fn update(&mut self, s: &mut Sketch)
        requires
            old(s).wf(),
        ensures
            final(s).wf(),
            preserves_frame_stats(*old(s), *final(s)),
            preserves_input_state(*old(s), *final(s)),
            final(s).running ==> old(s).running,
    {
    }

    /// Called every frame to issue the drawing primitives.
    fn draw(&mut self, s: &mut Sketch)
        requires
            old(s).wf(),
        ensures
            final(s).wf(),
            preserves_frame_stats(*old(s), *final(s)),
            preserves_input_state(*old(s), *final(s)),
            final(s).running ==> old(s).running,
    {
    }

    /// Called when a key goes down.  The default quits on Escape.
    fn key_pressed(&mut self, s: &mut Sketch, code: i32)
        requires
            old(s).wf(),
        ensures
            final(s).wf(),
            preserves_frame_stats(*old(s), *final(s)),
            preserves_input_state(*old(s), *final(s)),
            final(s).running ==> old(s).running,
    {
        if code == KEY_ESCAPE {
            s.quit();
        }
    }

    /// Called when a key comes up.
    fn key_released(&mut self, s: &mut Sketch, code: i32)
        requires
            old(s).wf(),
        ensures
            final(s).wf(),
            preserves_frame_stats(*old(s), *final(s)),
            preserves_input_state(*old(s), *final(s)),
            final(s).running ==> old(s).running,
    {
    }

    /// Called when the mouse moves with no button held.
    fn mouse_moved(&mut self, s: &mut Sketch, x: i32, y: i32, xrel: i32, yrel: i32)
        requires
            old(s).wf(),
        ensures
            final(s).wf(),
            preserves_frame_stats(*old(s), *final(s)),
            preserves_input_state(*old(s), *final(s)),
            final(s).running ==> old(s).running,
    {
    }

    /// Called when the mouse moves while a button is held.
    fn mouse_dragged(&mut self, s: &mut Sketch, x: i32, y: i32, xrel: i32, yrel: i32)
        requires
            old(s).wf(),
        ensures
            final(s).wf(),
            preserves_frame_stats(*old(s), *final(s)),
            preserves_input_state(*old(s), *final(s)),
            final(s).running ==> old(s).running,
    {
    }

    /// Called when a mouse button goes down.
    fn mouse_pressed(&mut self, s: &mut Sketch, button: i32, x: i32, y: i32)
        requires
            old(s).wf(),
        ensures
            final(s).wf(),
            preserves_frame_stats(*old(s), *final(s)),
            preserves_input_state(*old(s), *final(s)),
            final(s).running ==> old(s).running,
    {
    }

    /// Called when a mouse button comes up.
    fn mouse_released(&mut self, s: &mut Sketch, button: i32, x: i32, y: i32)
        requires
            old(s).wf(),
        ensures
            final(s).wf(),
            preserves_frame_stats(*old(s), *final(s)),
            preserves_input_state(*old(s), *final(s)),
            final(s).running ==> old(s).running,
    {
    }
}

/// Record each event in the sketch state and dispatch it to the matching
/// hook: quit stops the loop; key events maintain the pressed-key set and
/// call the key hooks; mouse motion calls the dragged hook when a button
/// was held during the motion, the moved hook otherwise; button events
/// maintain the pressed-button set and call the button hooks.
///
/// Afterwards the pressed-key and pressed-button sets hold exactly the
/// keys and buttons between their down and up events, as
/// [`key_down_after`] and [`button_down_after`] spell out: hooks cannot
/// disturb them.  A dispatched quit event leaves the sketch stopped, and
/// a stopped sketch is never restarted.
pub fn handle_events<T: MainLoopMethods>(s: &mut Sketch, m: &mut T, events: &Vec<Event>)
    requires
        old(s).wf(),
    ensures
        final(s).wf(),
        preserves_frame_stats(*old(s), *final(s)),
        forall|k: i32|
            final(s).keys_down@.contains(k) == key_down_after(old(s).keys_down@, events@, k),
        forall|b: i32|
            final(s).mouse_buttons@.contains(b) == button_down_after(
                old(s).mouse_buttons@,
                events@,
                b,
            ),
        final(s).running ==> old(s).running,
        events@.contains(Event::Quit) ==> !final(s).running,
{
    let ghost entry = *old(s);
    let mut i: usize = 0;
    proof {
        assert(events@.take(0) =~= Seq::<Event>::empty());
    }
    while i < events.len()
        invariant
            0 <= i <= events@.len(),
            s.wf(),
            preserves_frame_stats(entry, *s),
            forall|k: i32|
                s.keys_down@.contains(k) == key_down_after(
                    entry.keys_down@,
                    events@.take(i as int),
                    k,
                ),
            forall|b: i32|
                s.mouse_buttons@.contains(b) == button_down_after(
                    entry.mouse_buttons@,
                    events@.take(i as int),
                    b,
                ),
            s.running ==> entry.running,
            events@.take(i as int).contains(Event::Quit) ==> !s.running,
        decreases events@.len() - i,
    {
        let e = events[i];
        proof {
            assert(events@.take(i as int + 1).drop_last() =~= events@.take(i as int));
            assert(events@.take(i as int + 1).last() == e);
        }
        s.apply_event(&e);
        match e {
            Event::Quit => {},
            Event::KeyDown(code) => {
                m.key_pressed(s, code);
            },
            Event::KeyUp(code) => {
                m.key_released(s, code);
            },
            Event::MouseMotion { x, y, xrel, yrel, buttons_down } => {
                if buttons_down {
                    m.mouse_dragged(s, x, y, xrel, yrel);
                } else {
                    m.mouse_moved(s, x, y, xrel, yrel);
                }
            },
            Event::MouseButtonDown { button, x, y } => {
                m.mouse_pressed(s, button, x, y);
            },
            Event::MouseButtonUp { button, x, y } => {
                m.mouse_released(s, button, x, y);
            },
        }
        proof {
            if events@.take(i as int + 1).contains(Event::Quit) {
                let j = choose|j: int|
                    0 <= j < events@.take(i as int + 1).len() && #[trigger] events@.take(
                        i as int + 1,
                    )[j] == Event::Quit;
                if j < i as int {
                    assert(events@.take(i as int)[j] == Event::Quit);
                    assert(events@.take(i as int).contains(Event::Quit));
                } else {
                    assert(e == Event::Quit);
                }
                assert(!s.running);
            }
        }
        i = i + 1;
    }
    proof {
        assert(events@.take(events@.len() as int) =~= events@);
    }
}

/// Begin a run: mark the sketch running, then call the setup hook once.
///
/// The sketch handed to the hook is exactly [`Sketch::make_running`]'s
/// result; what comes back is the hook's, constrained only by the trait
/// contract.  The setup hook may already call [`Sketch::quit`] — then the
/// run ends stopped, and since hooks never restart a sketch the flag
/// sticks; the shell still completes one frame before it observes it, so
/// such a sketch presents exactly one frame.
pub fn start<T: MainLoopMethods>(s: &mut Sketch, m: &mut T)
    requires
        old(s).wf(),
    ensures
        final(s).wf(),
        preserves_frame_stats(*old(s), *final(s)),
        preserves_input_state(*old(s), *final(s)),
{
    s.make_running();
    m.setup(s);
}

/// One frame's worth of application work: dispatch the pending events,
/// then call the update and draw hooks.  The shell then performs the
/// buffered commands, presents the frame, paces, and calls [`end_frame`].
///
/// The pressed-key and pressed-button sets afterwards are exactly those
/// determined by the events, as in [`handle_events`]; the hooks cannot
/// disturb them.  A dispatched quit event leaves the sketch stopped, and
/// a stopped sketch is never restarted within a frame.
pub fn frame<T: MainLoopMethods>(s: &mut Sketch, m: &mut T, events: &Vec<Event>)
    requires
        old(s).wf(),
    ensures
        final(s).wf(),
        preserves_frame_stats(*old(s), *final(s)),
        forall|k: i32|
            final(s).keys_down@.contains(k) == key_down_after(old(s).keys_down@, events@, k),
        forall|b: i32|
            final(s).mouse_buttons@.contains(b) == button_down_after(
                old(s).mouse_buttons@,
                events@,
                b,
            ),
        final(s).running ==> old(s).running,
        events@.contains(Event::Quit) ==> !final(s).running,
{
    handle_events(s, m, events);
    m.update(s);
    m.draw(s);
}

/// Account for a presented frame at tick `now` (milliseconds): counts the
/// frame and advances the frame-rate tracker.  Returns the new frame-rate
/// measurement when a measurement window just closed, so the shell can
/// log it if asked to.
pub fn end_frame(s: &mut Sketch, now: u32) -> (fps_report: Option<u64>)
    requires
        old(s).wf(),
        now >= old(s).fps.last_update,
        old(s).fps.num_frames < u64::MAX,
        old(s).frames < u64::MAX,
    ensures
        final(s).wf(),
        final(s).frames == old(s).frames + 1,
        final(s).fps == fps_step(old(s).fps, now),
        *final(s) == (Sketch { frames: final(s).frames, fps: final(s).fps, ..*old(s) }),
        fps_report == (if now - old(s).fps.last_update > old(s).fps.update_interval {
            Some(final(s).fps.current_fps_milli)
        } else {
            Option::<u64>::None
        }),
{
    s.frames = s.frames + 1;
    s.fps.update(now)
}

} // verus!
