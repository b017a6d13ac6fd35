use vstabs::embed::{
    attach_due, child_placement, find_vscode_window, launch_once, vscode_windows, Adoption,
    WindowInfo, child_style, is_vscode_title, layout_log_due, overlay_placement,
    poll_step, released_style, strip_frame_style, ClientRect, Placement, PollOutcome,
};

#[test]
fn vscode_titles() {
    assert!(is_vscode_title("main.rs - vstabs - Visual Studio Code"));
    assert!(is_vscode_title(" - Visual Studio Code"));
    assert!(!is_vscode_title("Visual Studio Code"));
    assert!(!is_vscode_title("notes - Visual Studio Code Insiders"));
    assert!(!is_vscode_title(""));
}

#[test]
fn frame_styles() {
    assert_eq!(strip_frame_style(0x14CF_0000), 0x140B_0000);
    assert_eq!(strip_frame_style(0x1000_0000), 0x1000_0000);
    assert_eq!(child_style(), 0x5000_0000);
    assert_eq!(released_style(Some(0x1234)), 0x1234);
    assert_eq!(released_style(None), 0x10CF_0000);
}

#[test]
fn placements() {
    let r = ClientRect { left: 0, top: 0, right: 1280, bottom: 800 };
    assert_eq!(overlay_placement(r, 10, 40), Placement { x: 10, y: 40, width: 1280, height: 770 });
    let tiny = ClientRect { left: 0, top: 0, right: 100, bottom: 20 };
    assert_eq!(overlay_placement(tiny, 0, 0).height, 1);
    assert_eq!(child_placement(r), Placement { x: 0, y: 30, width: 1280, height: 770 });
    assert_eq!(child_placement(tiny).height, -10);
}

#[test]
fn layout_logging() {
    assert!(layout_log_due(1));
    assert!(layout_log_due(5));
    assert!(!layout_log_due(6));
    assert!(layout_log_due(40));
    assert!(!layout_log_due(41));
    assert!(layout_log_due(80));
}

#[test]
fn polling_for_the_launched_window() {
    let pre = vec![1, 2];
    assert_eq!(poll_step(true, true, 0, &vec![3], &pre), PollOutcome::Idle);
    assert_eq!(poll_step(false, false, 0, &vec![3], &pre), PollOutcome::Idle);
    assert_eq!(poll_step(false, true, 20_001, &vec![3], &pre), PollOutcome::TimedOut);
    assert_eq!(poll_step(false, true, 20_000, &vec![2, 3, 4], &pre), PollOutcome::Capture(3));
    assert_eq!(poll_step(false, true, 100, &vec![1, 2], &pre), PollOutcome::KeepWaiting);
    assert_eq!(poll_step(false, true, 100, &vec![], &pre), PollOutcome::KeepWaiting);
}

#[test]
fn attaching_waits_and_happens_once() {
    assert!(!attach_due(false, 1999));
    assert!(attach_due(false, 2000));
    assert!(!attach_due(true, 5000));
}

#[test]
fn adoption_is_tried_once_and_released_once() {
    let mut a = Adoption::new();
    assert!(!a.begin_attempt(1000));
    assert!(!a.attempted);
    assert!(a.begin_attempt(2500));
    assert!(a.attempted);
    assert!(!a.begin_attempt(9000));
    assert_eq!(a.release(), None);
    a.remember_style(0x14CF_0000);
    a.hold(77);
    assert_eq!(a.release(), Some((77, 0x14CF_0000)));
    assert_eq!(a.window, None);
    assert_eq!(a.remembered_style, None);
    assert_eq!(a.release(), None);
    a.hold(5);
    assert_eq!(a.release(), Some((5, 0x10CF_0000)));
}

fn win(handle: i64, visible: bool, title: &str) -> WindowInfo {
    WindowInfo { handle, visible, title: title.to_string() }
}

#[test]
fn finding_vscode_windows() {
    let ws = vec![
        win(1, true, "Terminal"),
        win(2, false, "a - Visual Studio Code"),
        win(3, true, "b - Visual Studio Code"),
        win(4, true, "c - Visual Studio Code"),
    ];
    assert_eq!(find_vscode_window(&ws), Some(3));
    assert_eq!(vscode_windows(&ws), vec![3, 4]);
    assert_eq!(find_vscode_window(&ws[..2].iter().map(|w| win(w.handle, w.visible, &w.title)).collect()), None);
}

#[test]
fn launching_once() {
    let mut attempted = false;
    assert!(launch_once(&mut attempted));
    assert!(attempted);
    assert!(!launch_once(&mut attempted));
}
