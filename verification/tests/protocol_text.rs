use drawbridge::cli::{command_words, exec_command, ArgsError};
use drawbridge::protocol::{event_message, event_resize, size_reply, InputEvent};

#[test]
fn size_reply_text() {
    assert_eq!(size_reply(80, 24), "Size|80|24\n");
    assert_eq!(size_reply(0, 65535), "Size|0|65535\n");
    assert_eq!(size_reply(100, 7), "Size|100|7\n");
}

#[test]
fn key_event_text() {
    let ev = InputEvent::Key {
        code: "Char('c')".to_string(),
        modifiers: "KeyModifiers(CONTROL)".to_string(),
    };
    assert_eq!(event_message(&ev), Some("Key|Char('c')|KeyModifiers(CONTROL)\n".to_string()));
    assert_eq!(event_resize(&ev), None);
}

#[test]
fn resize_event_text() {
    let ev = InputEvent::Resize(120, 40);
    assert_eq!(event_message(&ev), Some("Resize|120|40\n".to_string()));
    assert_eq!(event_resize(&ev), Some((120, 40)));
}

#[test]
fn other_events_are_dropped() {
    assert_eq!(event_message(&InputEvent::Other), None);
    assert_eq!(event_resize(&InputEvent::Other), None);
}

fn args(v: &[&str]) -> Vec<String> {
    v.iter().map(|s| s.to_string()).collect()
}

#[test]
fn exec_argument() {
    assert_eq!(
        exec_command(&args(&["drawbridge", "--exec", "python3 animation.py"])),
        Ok("python3 animation.py".to_string())
    );
    assert_eq!(
        exec_command(&args(&["drawbridge", "-v", "--exec", "a", "--exec", "b"])),
        Ok("a".to_string())
    );
    assert_eq!(exec_command(&args(&["drawbridge"])), Err(ArgsError::MissingExec));
    assert_eq!(exec_command(&args(&["drawbridge", "--exec"])), Err(ArgsError::MissingCommand));
}

#[test]
fn command_split_on_white_space() {
    assert_eq!(command_words("  python3   animation.py "), vec!["python3", "animation.py"]);
    assert_eq!(command_words("/bin/bash\tanim.sh\u{3000}x"), vec!["/bin/bash", "anim.sh", "x"]);
    assert_eq!(command_words("   "), Vec::<String>::new());
    assert_eq!(command_words("héllo wörld"), vec!["héllo", "wörld"]);
}
