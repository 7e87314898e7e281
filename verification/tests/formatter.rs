use gossip_glomers::NewLineFormatter;

#[test]
fn new_formatter_is_at_top_level() {
    let f = NewLineFormatter::new();
    assert_eq!(f.depth(), 0);
}

#[test]
fn top_level_object_ends_with_newline() {
    let mut f = NewLineFormatter::new();
    assert_eq!(f.begin_object(), b"{".to_vec());
    assert_eq!(f.depth(), 1);
    assert_eq!(f.end_object(), b"}\n".to_vec());
    assert_eq!(f.depth(), 0);
}

#[test]
fn nested_object_has_no_newline() {
    let mut f = NewLineFormatter::new();
    let mut written = Vec::new();
    written.extend(f.begin_object());
    written.extend(f.begin_object());
    assert_eq!(f.depth(), 2);
    written.extend(f.end_object());
    assert_eq!(f.depth(), 1);
    written.extend(f.end_object());
    assert_eq!(written, b"{{}}\n".to_vec());
}

#[test]
fn consecutive_objects_are_one_per_line() {
    let mut f = NewLineFormatter::new();
    let mut written = Vec::new();
    for _ in 0..3 {
        written.extend(f.begin_object());
        written.extend(f.begin_object());
        written.extend(f.end_object());
        written.extend(f.end_object());
    }
    assert_eq!(written, b"{{}}\n{{}}\n{{}}\n".to_vec());
    assert_eq!(written.iter().filter(|b| **b == b'\n').count(), 3);
}

#[test]
fn newline_after_each_return_to_top_level() {
    // open, open, close, open, close, close, open, close
    let events = [true, true, false, true, false, false, true, false];
    let mut f = NewLineFormatter::new();
    let mut written = Vec::new();
    for open in events {
        let out = if open { f.begin_object() } else { f.end_object() };
        written.extend(out);
        assert_eq!(written.last() == Some(&b'\n'), f.depth() == 0);
    }
    assert_eq!(written, b"{{}{}}\n{}\n".to_vec());
    let braces: Vec<u8> = written.iter().copied().filter(|b| *b != b'\n').collect();
    assert_eq!(braces, b"{{}{}}{}".to_vec());
}
