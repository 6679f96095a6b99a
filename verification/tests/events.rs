use ravix::app::{Action, InputContext};
use ravix::event::{Area, InputMap, KeyCode, KeyPress, MouseInput, MouseKind};

fn press(code: KeyCode) -> KeyPress {
    KeyPress {
        code,
        control: false,
        no_modifiers: true,
        release: false,
    }
}

fn ctrl(c: char) -> KeyPress {
    KeyPress {
        code: KeyCode::Char(c),
        control: true,
        no_modifiers: false,
        release: false,
    }
}

#[test]
fn g_twice_jumps_to_the_first_commit() {
    let mut map = InputMap::default();
    assert_eq!(map.on_key(press(KeyCode::Char('g')), InputContext::Graph), None);
    assert_eq!(
        map.on_key(press(KeyCode::Char('g')), InputContext::Graph),
        Some(Action::SelectFirst)
    );
    assert_eq!(map.on_key(press(KeyCode::Char('g')), InputContext::Graph), None);
    assert_eq!(
        map.on_key(press(KeyCode::Char('j')), InputContext::Graph),
        Some(Action::SelectNext)
    );
    assert_eq!(map.on_key(press(KeyCode::Char('g')), InputContext::Graph), None);
}

#[test]
fn control_c_quits_and_releases_do_nothing() {
    let mut map = InputMap::default();
    assert_eq!(map.on_key(ctrl('c'), InputContext::Commit), Some(Action::Quit));
    let mut release = press(KeyCode::Enter);
    release.release = true;
    assert_eq!(map.on_key(release, InputContext::Graph), None);
    assert_eq!(map.on_key(ctrl('p'), InputContext::Graph), Some(Action::OpenPalette));
}

#[test]
fn text_contexts_take_typed_characters() {
    let mut map = InputMap::default();
    assert_eq!(
        map.on_key(press(KeyCode::Char('x')), InputContext::Commit),
        Some(Action::CommitInput('x'))
    );
    assert_eq!(map.on_key(ctrl('x'), InputContext::Commit), None);
    assert_eq!(
        map.on_key(press(KeyCode::Char('q')), InputContext::Password),
        Some(Action::PasswordInput('q'))
    );
    assert_eq!(map.on_key(ctrl('n'), InputContext::Palette), Some(Action::SelectNext));
    assert_eq!(
        map.on_key(press(KeyCode::Backspace), InputContext::StashFilter),
        Some(Action::StashFilterBackspace)
    );
    assert_eq!(map.on_key(press(KeyCode::Char('z')), InputContext::Alert), Some(Action::Dismiss));
}

#[test]
fn the_mouse_presses_drags_and_scrolls() {
    let mut map = InputMap::default();
    let area = Area {
        x: 0,
        y: 2,
        width: 80,
        height: 20,
    };
    let at = |kind, column, row| MouseInput { kind, column, row };
    assert_eq!(
        map.on_mouse(at(MouseKind::LeftDown, 5, 7), area, InputContext::Graph),
        Some(Action::PointerDown(5))
    );
    assert_eq!(
        map.on_mouse(at(MouseKind::LeftUp, 5, 30), area, InputContext::Graph),
        Some(Action::PointerCancel)
    );
    assert_eq!(map.on_mouse(at(MouseKind::LeftDrag, 5, 1), area, InputContext::Graph), None);
    assert_eq!(
        map.on_mouse(at(MouseKind::ScrollDown, 10, 5), area, InputContext::CommitDiff),
        Some(Action::ScrollFilesDown)
    );
    assert_eq!(
        map.on_mouse(at(MouseKind::ScrollDown, 60, 5), area, InputContext::CommitDiff),
        Some(Action::ScrollDown)
    );
}
