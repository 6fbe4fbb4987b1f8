use stage_runtime::console::{join_args, ConsoleBuffer, ConsoleMessage, MAX_CONSOLE_BYTES, MAX_CONSOLE_ENTRIES};

fn strings(v: &[&str]) -> Vec<String> {
    v.iter().map(|s| s.to_string()).collect()
}

fn msg(level: &str, text: &str) -> ConsoleMessage {
    ConsoleMessage { level: level.to_string(), text: text.to_string() }
}

#[test]
fn arguments_are_joined_by_spaces() {
    assert_eq!(join_args(&strings(&["a", "1", "[object]"])), "a 1 [object]");
    assert_eq!(join_args(&strings(&["only"])), "only");
    assert_eq!(join_args(&vec![]), "");
}

#[test]
fn messages_are_kept_in_order_and_drained() {
    let mut buf = ConsoleBuffer::new();
    buf.log("log".to_string(), &strings(&["hello", "world"]));
    buf.log("warn".to_string(), &strings(&["careful"]));
    buf.assert_failed(&strings(&["x", "is", "2"]));
    buf.assert_failed(&vec![]);
    assert_eq!(buf.len(), 4);
    assert_eq!(
        buf.drain(),
        vec![
            msg("log", "hello world"),
            msg("warn", "careful"),
            msg("error", "Assertion failed: x is 2"),
            msg("error", "Assertion failed:"),
        ]
    );
    assert_eq!(buf.len(), 0);
    assert_eq!(buf.drain(), vec![]);
}

#[test]
fn entry_cap_drops_further_messages() {
    let mut buf = ConsoleBuffer::new();
    for _ in 0..MAX_CONSOLE_ENTRIES {
        buf.log("log".to_string(), &strings(&["x"]));
    }
    buf.log("log".to_string(), &strings(&["one more"]));
    assert_eq!(buf.len(), MAX_CONSOLE_ENTRIES);
    assert_eq!(buf.drain().last(), Some(&msg("log", "x")));
}

#[test]
fn byte_cap_drops_a_message_that_would_pass_it() {
    let mut buf = ConsoleBuffer::new();
    let big = "a".repeat(MAX_CONSOLE_BYTES - 3);
    buf.log("log".to_string(), &vec![big]);
    buf.log("log".to_string(), &strings(&["abcd"]));
    assert_eq!(buf.len(), 1);
    buf.log("log".to_string(), &strings(&["abc"]));
    assert_eq!(buf.len(), 2);
    buf.log("log".to_string(), &strings(&[""]));
    assert_eq!(buf.len(), 3);
}
