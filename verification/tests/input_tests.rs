use hook86::input::Keyboard;

fn snapshot(pairs: &[(usize, u8)]) -> Vec<u8> {
    let mut keys = vec![0u8; 256];
    for &(slot, state) in pairs {
        keys[slot] = state;
    }
    keys
}

#[test]
fn fresh_keyboard_reports_nothing() {
    let kb = Keyboard::new();
    assert!(!kb.is_key_down(0x41));
    assert!(!kb.is_key_down_once(0x41));
    assert!(!kb.is_key_toggled(0x14));
}

#[test]
fn key_down_once_fires_only_on_the_edge() {
    let mut kb = Keyboard::new();
    let down = snapshot(&[(0x41, 0x80)]);
    assert!(kb.update(Some(&down)));
    assert!(kb.is_key_down(0x41));
    assert!(kb.is_key_down_once(0x41));
    // still held: no longer a fresh press
    assert!(kb.update(Some(&down)));
    assert!(kb.is_key_down(0x41));
    assert!(!kb.is_key_down_once(0x41));
    // released
    assert!(kb.update(Some(&snapshot(&[]))));
    assert!(!kb.is_key_down(0x41));
}

#[test]
fn any_key_down_once_scans_the_list() {
    let mut kb = Keyboard::new();
    kb.update(Some(&snapshot(&[(0x42, 0x80)])));
    assert!(kb.is_any_key_down_once(&vec![0x41, 0x42, 0x43]));
    assert!(!kb.is_any_key_down_once(&vec![0x41, 0x43]));
    kb.update(Some(&snapshot(&[(0x42, 0x80)])));
    assert!(!kb.is_any_key_down_once(&vec![0x41, 0x42, 0x43]));
}

#[test]
fn toggle_reads_the_low_bit() {
    let mut kb = Keyboard::new();
    kb.update(Some(&snapshot(&[(0x14, 0x01)])));
    assert!(kb.is_key_toggled(0x14));
    assert!(!kb.is_key_down(0x14));
}

#[test]
fn failed_poll_keeps_the_latest_snapshot() {
    let mut kb = Keyboard::new();
    kb.update(Some(&snapshot(&[(0x41, 0x80)])));
    // the poll failed: the latest snapshot stays, but it is no longer fresh
    assert!(!kb.update(None));
    assert!(kb.is_key_down(0x41));
    assert!(!kb.is_key_down_once(0x41));
}

#[test]
fn async_tracking_fires_once_per_press() {
    let mut kb = Keyboard::new();
    assert!(kb.track_key_down_async_once(0x41, true));
    assert!(!kb.track_key_down_async_once(0x41, true));
    assert!(!kb.track_key_down_async_once(0x41, false));
    assert!(kb.track_key_down_async_once(0x41, true));
}
