//! Decisions of the window-embedding experiments that preceded the WebView
//! design: recognising a VS Code window by its title, picking the window a
//! launch created, the window styles that strip or restore its frame, and
//! where the embedded window goes inside the container. The Win32 calls
//! themselves are left to the caller.

use vstd::prelude::*;

verus! {

/// Win32 `WS_CAPTION`.
pub const WS_CAPTION: i64 = 0x00C0_0000;
/// Win32 `WS_THICKFRAME`.
pub const WS_THICKFRAME: i64 = 0x0004_0000;
/// Win32 `WS_CHILD`.
pub const WS_CHILD: i64 = 0x4000_0000;
/// Win32 `WS_VISIBLE`.
pub const WS_VISIBLE: i64 = 0x1000_0000;
/// Win32 `WS_POPUP`.
pub const WS_POPUP: i64 = 0x8000_0000;
/// Win32 `WS_OVERLAPPEDWINDOW`.
pub const WS_OVERLAPPEDWINDOW: i64 = 0x00CF_0000;

/// Height of the tab bar kept free at the top of the container.
pub const TAB_BAR_HEIGHT: i32 = 30;

/// How long a launch is given to show its window.
pub const CAPTURE_TIMEOUT_MS: u64 = 20000;

/// How long after start-up the container looks for a window to adopt.
pub const ATTACH_DELAY_MS: u64 = 2000;

/// Whether a window title is that of a VS Code window: it ends with
/// `" - Visual Studio Code"`.
pub fn is_vscode_title(title: &str) -> (b: bool)
    ensures
        b == " - Visual Studio Code"@.is_suffix_of(title@),
{
    let t = crate::text::chars_of(title);
    let s = crate::text::chars_of(" - Visual Studio Code");
    if s.len() > t.len() {
        return false;
    }
    let tl = t.len();
    let off = tl - s.len();
    let mut i: usize = 0;
    while i < s.len()
        invariant
            t@ == title@,
            s@ == " - Visual Studio Code"@,
            off + s@.len() == t@.len(),
            tl == t@.len(),
            s@.len() <= t@.len(),
            i <= s@.len(),
            forall|j: int| 0 <= j < i ==> #[trigger] s@[j] == t@[off + j],
        decreases s@.len() - i,
    {
        if s[i] != t[off + i] {
            assert(!s@.is_suffix_of(t@)) by {
                assert(t@.subrange(off as int, t@.len() as int)[i as int] == t@[off + i]);
            }
            return false;
        }
        i = i + 1;
    }
    assert(t@.subrange(off as int, t@.len() as int) =~= s@);
    true
}

/// A top-level window as enumeration reports it.
#[derive(Debug)]
pub struct WindowInfo {
    pub handle: i64,
    pub visible: bool,
    pub title: String,
}

/// The window is a visible VS Code window.
pub open spec fn is_vscode_window(w: WindowInfo) -> bool {
    w.visible && " - Visual Studio Code"@.is_suffix_of(w.title@)
}

/// The handles of the visible VS Code windows among `windows`, in order.
pub open spec fn vscode_handles(windows: Seq<WindowInfo>) -> Seq<i64>
    decreases windows.len(),
{
    if windows.len() == 0 {
        Seq::<i64>::empty()
    } else {
        let r = vscode_handles(windows.drop_last());
        if is_vscode_window(windows.last()) {
            r.push(windows.last().handle)
        } else {
            r
        }
    }
}

/// The visible VS Code windows among `windows`, in enumeration order.
pub fn vscode_windows(windows: &Vec<WindowInfo>) -> (r: Vec<i64>)
    ensures
        r@ == vscode_handles(windows@),
{
    let mut r: Vec<i64> = Vec::new();
    let mut i: usize = 0;
    while i < windows.len()
        invariant
            i <= windows@.len(),
            r@ == vscode_handles(windows@.take(i as int)),
        decreases windows@.len() - i,
    {
        let w = &windows[i];
        assert(windows@.take(i + 1).drop_last() =~= windows@.take(i as int));
        assert(windows@.take(i + 1).last() == *w);
        if w.visible && is_vscode_title(w.title.as_str()) {
            r.push(w.handle);
        }
        i = i + 1;
    }
    assert(windows@.take(windows@.len() as int) =~= windows@);
    r
}

/// The first visible VS Code window among `windows`, if any.
pub fn find_vscode_window(windows: &Vec<WindowInfo>) -> (r: Option<i64>)
    ensures
        match r {
            Some(h) => exists|i: int|
                0 <= i < windows@.len() && windows@[i].handle == h && is_vscode_window(
                    windows@[i],
                ) && forall|j: int| 0 <= j < i ==> !is_vscode_window(#[trigger] windows@[j]),
            None => forall|j: int| 0 <= j < windows@.len() ==> !is_vscode_window(#[trigger] windows@[j]),
        },
{
    let mut i: usize = 0;
    while i < windows.len()
        invariant
            i <= windows@.len(),
            forall|j: int| 0 <= j < i ==> !is_vscode_window(#[trigger] windows@[j]),
        decreases windows@.len() - i,
    {
        let w = &windows[i];
        assert(windows@[i as int] == *w);
        if w.visible && is_vscode_title(w.title.as_str()) {
            return Some(w.handle);
        }
        i = i + 1;
    }
    None
}

/// Whether to launch VS Code now: only the first time. The launch is marked
/// as made whatever its outcome.
pub fn launch_once(attempted: &mut bool) -> (go: bool)
    ensures
        go == !*old(attempted),
        *final(attempted),
{
    let go = !*attempted;
    *attempted = true;
    go
}

/// The style of a window with its caption and sizing border removed; every
/// other style bit is kept.
pub fn strip_frame_style(style: i64) -> (r: i64)
    ensures
        r == style & !(WS_CAPTION | WS_THICKFRAME),
{
    style & !(WS_CAPTION | WS_THICKFRAME)
}

/// Stripping the frame clears the caption and sizing-border bits and keeps
/// the others.
pub proof fn law_strip_frame_style(style: i64)
    ensures
        (style & !(WS_CAPTION | WS_THICKFRAME)) & (WS_CAPTION | WS_THICKFRAME) == 0,
        (style & !(WS_CAPTION | WS_THICKFRAME)) | (style & (WS_CAPTION | WS_THICKFRAME)) == style,
{
    assert((style & !(0x00C0_0000i64 | 0x0004_0000i64)) & (0x00C0_0000i64 | 0x0004_0000i64)
        == 0) by (bit_vector);
    assert((style & !(0x00C0_0000i64 | 0x0004_0000i64)) | (style & (0x00C0_0000i64
        | 0x0004_0000i64)) == style) by (bit_vector);
}

/// The style given to a window adopted as a child of the container.
pub fn child_style() -> (r: i64)
    ensures
        r == WS_CHILD | WS_VISIBLE,
{
    WS_CHILD | WS_VISIBLE
}

/// The style a released window gets back: the one it had, or else an
/// ordinary visible top-level window with caption and sizing border.
pub fn released_style(remembered: Option<i64>) -> (r: i64)
    ensures
        remembered matches Some(s) ==> r == s,
        remembered is None ==> r == (WS_OVERLAPPEDWINDOW | WS_VISIBLE | WS_CAPTION | WS_THICKFRAME)
            & !(WS_CHILD | WS_POPUP),
{
    match remembered {
        Some(s) => s,
        None => (WS_OVERLAPPEDWINDOW | WS_VISIBLE | WS_CAPTION | WS_THICKFRAME) & !(WS_CHILD
            | WS_POPUP),
    }
}

/// A released window without a remembered style is a top-level window: not
/// a child, not a popup, visible and framed.
pub proof fn law_released_style_top_level()
    ensures
        ((WS_OVERLAPPEDWINDOW | WS_VISIBLE | WS_CAPTION | WS_THICKFRAME) & !(WS_CHILD | WS_POPUP))
            & (WS_CHILD | WS_POPUP) == 0,
        ((WS_OVERLAPPEDWINDOW | WS_VISIBLE | WS_CAPTION | WS_THICKFRAME) & !(WS_CHILD | WS_POPUP))
            & (WS_VISIBLE | WS_CAPTION | WS_THICKFRAME) == WS_VISIBLE | WS_CAPTION | WS_THICKFRAME,
{
    assert(((0x00CF_0000i64 | 0x1000_0000i64 | 0x00C0_0000i64 | 0x0004_0000i64) & !(
    0x4000_0000i64 | 0x8000_0000i64)) & (0x4000_0000i64 | 0x8000_0000i64) == 0)
        by (bit_vector);
    assert(((0x00CF_0000i64 | 0x1000_0000i64 | 0x00C0_0000i64 | 0x0004_0000i64) & !(
    0x4000_0000i64 | 0x8000_0000i64)) & (0x1000_0000i64 | 0x00C0_0000i64
        | 0x0004_0000i64) == (0x1000_0000i64 | 0x00C0_0000i64 | 0x0004_0000i64))
        by (bit_vector);
}

/// A client rectangle in pixels.
#[derive(Debug, Clone, Copy, PartialEq, Eq)]
pub struct ClientRect {
    pub left: i32,
    pub top: i32,
    pub right: i32,
    pub bottom: i32,
}

/// Where an embedded window goes, and its size.
#[derive(Debug, Clone, Copy, PartialEq, Eq)]
pub struct Placement {
    pub x: i32,
    pub y: i32,
    pub width: i32,
    pub height: i32,
}

/// The placement of a frameless top-level window laid over the container,
/// whose client area below the tab bar starts at screen point
/// (`origin_x`, `origin_y`): the full client width, and the client height
/// less the tab bar, at least 1.
pub fn overlay_placement(rect: ClientRect, origin_x: i32, origin_y: i32) -> (p: Placement)
    requires
        i32::MIN <= rect.right - rect.left <= i32::MAX,
        i32::MIN <= rect.bottom - rect.top <= i32::MAX,
        i32::MIN <= rect.bottom - rect.top - TAB_BAR_HEIGHT <= i32::MAX,
    ensures
        p.x == origin_x,
        p.y == origin_y,
        p.width == rect.right - rect.left,
        p.height == if rect.bottom - rect.top - TAB_BAR_HEIGHT >= 1 {
            rect.bottom - rect.top - TAB_BAR_HEIGHT
        } else {
            1
        },
{
    let w = rect.right - rect.left;
    let h = rect.bottom - rect.top - TAB_BAR_HEIGHT;
    Placement { x: origin_x, y: origin_y, width: w, height: if h >= 1 { h } else { 1 } }
}

/// The placement of a window adopted as a child: below the tab bar, the full
/// client width, the client height less the tab bar.
pub fn child_placement(rect: ClientRect) -> (p: Placement)
    requires
        i32::MIN <= rect.right - rect.left <= i32::MAX,
        i32::MIN <= rect.bottom - rect.top <= i32::MAX,
        i32::MIN <= rect.bottom - rect.top - TAB_BAR_HEIGHT <= i32::MAX,
    ensures
        p.x == 0,
        p.y == TAB_BAR_HEIGHT,
        p.width == rect.right - rect.left,
        p.height == rect.bottom - rect.top - TAB_BAR_HEIGHT,
{
    Placement {
        x: 0,
        y: TAB_BAR_HEIGHT,
        width: rect.right - rect.left,
        height: rect.bottom - rect.top - TAB_BAR_HEIGHT,
    }
}

/// Whether the layout of call number `calls` is worth logging: the first
/// five, then every fortieth.
pub fn layout_log_due(calls: u64) -> (b: bool)
    ensures
        b == (calls <= 5 || calls % 40 == 0),
{
    calls <= 5 || calls % 40 == 0
}

/// What one poll for a launched VS Code window concludes.
#[derive(Debug, Clone, Copy, PartialEq, Eq)]
pub enum PollOutcome {
    /// A window is already held, or nothing was launched.
    Idle,
    /// The launch showed no new window in time.
    TimedOut,
    /// This window appeared after the launch.
    Capture(i64),
    /// No new window yet.
    KeepWaiting,
}

/// One poll for the window a launch created: the first of `windows` (VS Code
/// windows now open, in enumeration order) that was not open before the
/// launch (`pre_spawn`), unless the launch is more than
/// `CAPTURE_TIMEOUT_MS` old.
pub fn poll_step(
    holding: bool,
    launched: bool,
    elapsed_ms: u64,
    windows: &Vec<i64>,
    pre_spawn: &Vec<i64>,
) -> (r: PollOutcome)
    ensures
        holding || !launched ==> r == PollOutcome::Idle,
        !holding && launched && elapsed_ms > CAPTURE_TIMEOUT_MS ==> r == PollOutcome::TimedOut,
        !holding && launched && elapsed_ms <= CAPTURE_TIMEOUT_MS ==> match r {
            PollOutcome::Capture(w) => exists|i: int|
                0 <= i < windows@.len() && windows@[i] == w && !pre_spawn@.contains(w) && forall|
                    j: int,
                | 0 <= j < i ==> pre_spawn@.contains(#[trigger] windows@[j]),
            PollOutcome::KeepWaiting => forall|j: int|
                0 <= j < windows@.len() ==> pre_spawn@.contains(#[trigger] windows@[j]),
            _ => false,
        },
{
    if holding || !launched {
        return PollOutcome::Idle;
    }
    if elapsed_ms > CAPTURE_TIMEOUT_MS {
        return PollOutcome::TimedOut;
    }
    let mut i: usize = 0;
    while i < windows.len()
        invariant
            i <= windows@.len(),
            !holding && launched && elapsed_ms <= CAPTURE_TIMEOUT_MS,
            forall|j: int| 0 <= j < i ==> pre_spawn@.contains(#[trigger] windows@[j]),
        decreases windows@.len() - i,
    {
        let w = windows[i];
        let mut seen = false;
        let mut k: usize = 0;
        while k < pre_spawn.len()
            invariant
                k <= pre_spawn@.len(),
                i < windows@.len(),
                w == windows@[i as int],
                seen ==> pre_spawn@.contains(w),
                !seen ==> forall|j: int| 0 <= j < k ==> pre_spawn@[j] != w,
            decreases pre_spawn@.len() - k,
        {
            if pre_spawn[k] == w {
                seen = true;
                assert(pre_spawn@[k as int] == w);
            }
            k = k + 1;
        }
        if !seen {
            return PollOutcome::Capture(w);
        }
        i = i + 1;
    }
    PollOutcome::KeepWaiting
}

/// A try to adopt a window is due: none was made yet, and
/// `ATTACH_DELAY_MS` have passed.
pub open spec fn attach_due_spec(attempted: bool, elapsed_ms: u64) -> bool {
    !attempted && elapsed_ms >= ATTACH_DELAY_MS
}

/// Whether the container should now try to adopt a window: once, and only
/// after `ATTACH_DELAY_MS`.
pub fn attach_due(attempted: bool, elapsed_ms: u64) -> (b: bool)
    ensures
        b == attach_due_spec(attempted, elapsed_ms),
{
    !attempted && elapsed_ms >= ATTACH_DELAY_MS
}

/// The style a released window gets back (see `released_style`).
pub open spec fn released_style_spec(remembered: Option<i64>) -> i64 {
    match remembered {
        Some(s) => s,
        None => (WS_OVERLAPPEDWINDOW | WS_VISIBLE | WS_CAPTION | WS_THICKFRAME) & !(WS_CHILD
            | WS_POPUP),
    }
}

/// The container's hold on an adopted window: whether adoption was tried,
/// the window held, and the style it had before it was changed.
#[derive(Debug, Clone, Copy, PartialEq, Eq)]
pub struct Adoption {
    pub attempted: bool,
    pub window: Option<i64>,
    pub remembered_style: Option<i64>,
}

/// The hold after a release: no window and, when one was held, no
/// remembered style; whether adoption was tried is kept.
pub open spec fn after_release(a: Adoption) -> Adoption {
    match a.window {
        Some(_) => Adoption { attempted: a.attempted, window: None, remembered_style: None },
        None => a,
    }
}

impl Adoption {
    /// Nothing tried, nothing held.
    pub fn new() -> (a: Adoption)
        ensures
            !a.attempted,
            a.window is None,
            a.remembered_style is None,
    {
        Adoption { attempted: false, window: None, remembered_style: None }
    }

    /// Whether to try adopting a window now. A try that is due is marked as
    /// made whatever its outcome, so adoption is tried at most once.
    pub fn begin_attempt(&mut self, elapsed_ms: u64) -> (go: bool)
        ensures
            go == attach_due_spec(old(self).attempted, elapsed_ms),
            final(self).attempted == (old(self).attempted || go),
            final(self).window == old(self).window,
            final(self).remembered_style == old(self).remembered_style,
    {
        let go = attach_due(self.attempted, elapsed_ms);
        if go {
            self.attempted = true;
        }
        go
    }

    /// Remembers the style a window had before it is changed.
    pub fn remember_style(&mut self, style: i64)
        ensures
            *final(self) == (Adoption { remembered_style: Some(style), ..*old(self) }),
    {
        self.remembered_style = Some(style);
    }

    /// Records that `window` is now held.
    pub fn hold(&mut self, window: i64)
        ensures
            *final(self) == (Adoption { window: Some(window), ..*old(self) }),
    {
        self.window = Some(window);
    }

    /// Lets the held window go: returns it with the style to give it back,
    /// and forgets both; returns nothing, changing nothing, when no window is
    /// held.
    pub fn release(&mut self) -> (r: Option<(i64, i64)>)
        ensures
            *final(self) == after_release(*old(self)),
            final(self).attempted == old(self).attempted,
            final(self).window is None,
            match old(self).window {
                Some(w) => r == Some((w, released_style_spec(old(self).remembered_style))),
                None => r is None,
            },
    {
        match self.window {
            Some(w) => {
                let style = released_style(self.remembered_style);
                self.window = None;
                self.remembered_style = None;
                Some((w, style))
            },
            None => None,
        }
    }
}

/// Adoption is tried at most once: once a try was made, no other is due,
/// whatever the time.
pub proof fn law_attempt_at_most_once(elapsed_ms: u64)
    ensures
        !attach_due_spec(true, elapsed_ms),
        attach_due_spec(false, elapsed_ms) <==> elapsed_ms >= ATTACH_DELAY_MS,
{
}

/// A window is released at most once: after a release nothing is held, so
/// a second release gives nothing back and changes nothing.
pub proof fn law_release_once(a: Adoption)
    ensures
        after_release(a).window is None,
        after_release(after_release(a)) == after_release(a),
{
}

/// Releasing a window does not reopen adoption: whether a try was made is
/// kept, so after a try no other is due, before or after the release.
pub proof fn law_release_keeps_attempt(a: Adoption, elapsed_ms: u64)
    ensures
        after_release(a).attempted == a.attempted,
        a.attempted ==> !attach_due_spec(after_release(a).attempted, elapsed_ms),
{
}

} // verus!
