use autotype::capture::AudioCommand;
use autotype::session::{
    first_shortcut, next_shortcut, overlay_change, shortcut_name, HoldKey, Session, Shortcut,
};

#[test]
fn toggle_starts_then_stops() {
    let mut s = Session::new();
    assert!(matches!(s.toggle_command(), AudioCommand::Start));
    assert_eq!(s.finish_start(Ok(())), Ok(true));
    assert!(s.recording);
    assert!(matches!(s.toggle_command(), AudioCommand::Stop));
    assert_eq!(s.finish_stop(Ok(vec![1, 2])), Ok(Some(vec![1, 2])));
    assert!(!s.recording);
}

#[test]
fn failed_start_keeps_the_session_idle() {
    let mut s = Session::new();
    assert_eq!(
        s.finish_start(Err("音频线程通信失败".to_string())),
        Err("开始录音失败: 音频线程通信失败".to_string())
    );
    assert!(!s.recording);
}

#[test]
fn failed_stop_keeps_recording() {
    let mut s = Session::new();
    s.finish_start(Ok(())).unwrap();
    assert_eq!(s.finish_stop(Err("接收音频数据超时".to_string())), Err("接收音频数据超时".to_string()));
    assert!(s.recording);
}

#[test]
fn empty_recording_is_not_saved() {
    let mut s = Session::new();
    s.finish_start(Ok(())).unwrap();
    assert_eq!(s.finish_stop(Ok(vec![])), Ok(None));
    assert!(!s.recording);
}

#[test]
fn holding_the_key_starts_once() {
    let mut k = HoldKey::new();
    assert!(k.on_press(false));
    assert!(!k.on_press(false));
    assert!(!k.on_press(true));
    assert!(k.on_release(true));
    assert!(!k.on_release(true));
}

#[test]
fn press_during_a_recording_starts_nothing() {
    let mut k = HoldKey::new();
    assert!(!k.on_press(true));
    assert!(!k.on_release(false));
}

#[test]
fn hold_stop_always_ends_the_recording() {
    let mut s = Session::new();
    s.finish_hold_start(true);
    assert!(s.recording);
    assert_eq!(s.finish_hold_stop(Err("超时".to_string())), Vec::<i16>::new());
    assert!(!s.recording);
    s.finish_hold_start(false);
    assert!(!s.recording);
    s.finish_hold_start(true);
    assert_eq!(s.finish_hold_stop(Ok(vec![3])), vec![3]);
}

#[test]
fn overlay_follows_the_recording_state() {
    assert_eq!(overlay_change(false, true), Some(true));
    assert_eq!(overlay_change(true, false), Some(false));
    assert_eq!(overlay_change(true, true), None);
    assert_eq!(overlay_change(false, false), None);
}

#[test]
fn shortcuts_fall_back_f4_f2_f3() {
    let s = first_shortcut();
    assert_eq!(shortcut_name(s), "F4");
    let s = next_shortcut(Shortcut::F4).unwrap();
    assert_eq!(shortcut_name(s), "F2");
    let s = next_shortcut(Shortcut::F2).unwrap();
    assert_eq!(shortcut_name(s), "F3");
    assert!(next_shortcut(Shortcut::F3).is_none());
}
