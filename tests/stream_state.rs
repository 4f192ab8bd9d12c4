use jsonl_tail::console::{Console, ConsoleCommand};
use jsonl_tail::stream_state::{Mode, StreamState, DEFAULT_LOG_BUFFER_LIMIT};
use jsonl_tail::text::{hex_digit_value, key_less_exec};

fn feed(state: &mut StreamState, console: &mut Console, lines: &[&str]) {
    for l in lines {
        state.add_line(&l.to_string(), console);
    }
}

fn buffer_of(state: &StreamState) -> Vec<String> {
    state.log_buffer().iter().cloned().collect()
}

fn write_log(line: &str, ordinal: usize) -> ConsoleCommand {
    ConsoleCommand::WriteLog { line: line.to_string(), ordinal, filter_keys: Vec::new() }
}

fn write(text: &str) -> ConsoleCommand {
    ConsoleCommand::Write { text: text.to_string() }
}

#[test]
fn fresh_state() {
    let state = StreamState::new();
    assert_eq!(state.line_count(), 0);
    assert_eq!(state.buffer_limit(), DEFAULT_LOG_BUFFER_LIMIT);
    assert_eq!(state.buffer_limit(), 1024);
    assert_eq!(state.mode(), Mode::TailLog);
    assert!(state.log_buffer().is_empty());
    assert!(state.keys().is_empty());
    assert!(state.filter_keys().is_empty());
}

#[test]
fn overflow_and_rewrite() {
    let mut state = StreamState::with_buffer_limit(3);
    let mut console = Console::new();
    feed(&mut state, &mut console, &[r#"{"a":1}"#, r#"{"b":2}"#, r#"{"c":3}"#, r#"{"d":4}"#]);
    assert_eq!(buffer_of(&state), vec![r#"{"b":2}"#, r#"{"c":3}"#, r#"{"d":4}"#]);
    assert_eq!(state.line_count(), 4);
    assert_eq!(
        console.take_commands(),
        vec![
            write_log(r#"{"a":1}"#, 1),
            write_log(r#"{"b":2}"#, 2),
            write_log(r#"{"c":3}"#, 3),
            write_log(r#"{"d":4}"#, 4),
        ]
    );
    state.send_key(&mut console, 'r');
    assert_eq!(
        console.take_commands(),
        vec![write_log(r#"{"b":2}"#, 0), write_log(r#"{"c":3}"#, 1), write_log(r#"{"d":4}"#, 2)]
    );
    assert_eq!(state.line_count(), 4);
    assert_eq!(buffer_of(&state).len(), 3);
}

#[test]
fn key_selector_is_silent() {
    let mut state = StreamState::with_buffer_limit(10);
    let mut console = Console::new();
    state.send_key(&mut console, 'z');
    console.take_commands();
    feed(&mut state, &mut console, &[r#"{"x":1}"#]);
    assert!(console.commands().is_empty());
    assert_eq!(buffer_of(&state), vec![r#"{"x":1}"#]);
    assert_eq!(state.line_count(), 1);
}

#[test]
fn key_aggregation() {
    let mut state = StreamState::with_buffer_limit(10);
    let mut console = Console::new();
    feed(
        &mut state,
        &mut console,
        &[r#"{"a":1}"#, r#"{"b":2,"a":3}"#, "not json", "[1,2,3]", r#"{"c":4}"#],
    );
    console.take_commands();
    state.send_key(&mut console, 'z');
    assert_eq!(
        console.take_commands(),
        vec![
            ConsoleCommand::CleanLastline,
            write("0:a\t"),
            write("1:b\t"),
            write("2:c\t"),
            ConsoleCommand::Enter,
        ]
    );
    assert_eq!(state.mode(), Mode::KeySelector);
}

#[test]
fn key_list_numbers_past_nine() {
    let mut state = StreamState::with_buffer_limit(10);
    let mut console = Console::new();
    feed(
        &mut state,
        &mut console,
        &[r#"{"k0":0,"k1":1,"k2":2,"k3":3,"k4":4,"k5":5,"k6":6,"k7":7,"k8":8,"k9":9,"ka":10}"#],
    );
    console.take_commands();
    state.draw_keys(&mut console);
    let cmds = console.take_commands();
    assert_eq!(cmds.len(), 13);
    assert_eq!(cmds[10], write("9:k9\t"));
    assert_eq!(cmds[11], write("10:ka\t"));
}

#[test]
fn key_aggregation_of_evicted_records() {
    let mut state = StreamState::with_buffer_limit(2);
    let mut console = Console::new();
    feed(&mut state, &mut console, &[r#"{"old":1}"#, r#"{"zeta":1}"#, r#"{"Alpha":2}"#]);
    assert_eq!(state.collect_keys(), vec!["Alpha".to_string(), "zeta".to_string()]);
}

#[test]
fn key_aggregation_of_empty_buffer() {
    let state = StreamState::new();
    let mut console = Console::new();
    state.draw_keys(&mut console);
    assert_eq!(console.take_commands(), vec![ConsoleCommand::CleanLastline, ConsoleCommand::Enter]);
}

#[test]
fn invalid_record_render() {
    let mut state = StreamState::with_buffer_limit(10);
    let mut console = Console::new();
    feed(&mut state, &mut console, &["1", "2", "3", "4", "5"]);
    assert_eq!(state.line_count(), 5);
    console.take_commands();
    feed(&mut state, &mut console, &["not json"]);
    assert_eq!(console.take_commands(), vec![write_log("not json", 6)]);
}

#[test]
fn mode_toggle_idempotence() {
    let mut state = StreamState::with_buffer_limit(10);
    let mut console = Console::new();
    feed(&mut state, &mut console, &[r#"{"a":1}"#]);
    console.take_commands();
    let listing = vec![ConsoleCommand::CleanLastline, write("0:a\t"), ConsoleCommand::Enter];
    state.send_key(&mut console, 'z');
    assert_eq!(console.take_commands(), listing);
    assert_eq!(state.mode(), Mode::KeySelector);
    state.send_key(&mut console, 'z');
    assert!(console.take_commands().is_empty());
    assert_eq!(state.mode(), Mode::TailLog);
    state.send_key(&mut console, 'z');
    assert_eq!(console.take_commands(), listing);
    assert_eq!(state.mode(), Mode::KeySelector);
}

#[test]
fn hex_acceptance() {
    let mut state = StreamState::with_buffer_limit(10);
    let mut console = Console::new();
    feed(&mut state, &mut console, &[r#"{"a":1}"#]);
    state.send_key(&mut console, 'z');
    console.take_commands();
    for c in ['0', '9', 'a', 'f', 'g'] {
        state.send_key(&mut console, c);
        assert!(console.commands().is_empty());
        assert_eq!(state.mode(), Mode::KeySelector);
        assert_eq!(state.line_count(), 1);
        assert_eq!(buffer_of(&state), vec![r#"{"a":1}"#]);
    }
}

#[test]
fn other_keys_in_tail_mode_do_nothing() {
    let mut state = StreamState::with_buffer_limit(10);
    let mut console = Console::new();
    feed(&mut state, &mut console, &["x"]);
    console.take_commands();
    for c in ['q', 'R', 'Z', '0', ' '] {
        state.send_key(&mut console, c);
        assert!(console.commands().is_empty());
        assert_eq!(state.mode(), Mode::TailLog);
    }
}

#[test]
fn buffer_bounded_by_limit() {
    let mut console = Console::new();
    for k in 0..8usize {
        let mut state = StreamState::with_buffer_limit(5);
        for i in 0..k {
            state.add_line(&format!("r{}", i), &mut console);
        }
        assert_eq!(state.log_buffer().len(), k.min(5));
    }
}

#[test]
fn fifo_eviction_keeps_last_records() {
    let mut state = StreamState::with_buffer_limit(4);
    let mut console = Console::new();
    let records: Vec<String> = (0..11).map(|i| format!("r{}", i)).collect();
    for r in &records {
        state.add_line(r, &mut console);
    }
    assert_eq!(buffer_of(&state), records[7..].to_vec());
}

#[test]
fn default_limit_evicts_after_1024() {
    let mut state = StreamState::new();
    let mut console = Console::new();
    for i in 0..1025usize {
        state.add_line(&format!("{}", i), &mut console);
    }
    assert_eq!(state.log_buffer().len(), 1024);
    assert_eq!(state.log_buffer()[0], "1");
    assert_eq!(state.log_buffer()[1023], "1024");
    assert_eq!(state.line_count(), 1025);
}

#[test]
fn ordinal_counts_records() {
    let mut state = StreamState::with_buffer_limit(2);
    let mut console = Console::new();
    for i in 0..9usize {
        assert_eq!(state.line_count(), i);
        state.add_line(&String::new(), &mut console);
    }
    assert_eq!(state.line_count(), 9);
}

#[test]
fn tail_mode_renders_each_record_once() {
    let mut state = StreamState::with_buffer_limit(2);
    let mut console = Console::new();
    feed(&mut state, &mut console, &["a", "", "c"]);
    assert_eq!(console.take_commands(), vec![write_log("a", 1), write_log("", 2), write_log("c", 3)]);
}

#[test]
fn records_kept_verbatim() {
    let mut state = StreamState::with_buffer_limit(3);
    let mut console = Console::new();
    feed(&mut state, &mut console, &["  {\"a\" : 1 }  ", "ünïcode ✓", ""]);
    assert_eq!(buffer_of(&state), vec!["  {\"a\" : 1 }  ", "ünïcode ✓", ""]);
}

#[test]
fn read_operations_leave_state_unchanged() {
    let mut state = StreamState::with_buffer_limit(3);
    let mut console = Console::new();
    feed(&mut state, &mut console, &[r#"{"a":1}"#, "x", r#"{"b":1}"#, "y"]);
    let before = (state.line_count(), buffer_of(&state), state.mode());
    state.rewrite_logs(&mut console);
    state.draw_keys(&mut console);
    state.send_key(&mut console, 'r');
    assert_eq!((state.line_count(), buffer_of(&state), state.mode()), before);
    assert!(state.keys().is_empty());
    assert!(state.filter_keys().is_empty());
}

#[test]
fn rewrite_of_empty_buffer() {
    let state = StreamState::new();
    let mut console = Console::new();
    state.rewrite_logs(&mut console);
    assert!(console.commands().is_empty());
}

#[test]
fn explicit_mode_setters() {
    let mut state = StreamState::new();
    state.to_key_selector_mode();
    state.to_key_selector_mode();
    assert_eq!(state.mode(), Mode::KeySelector);
    state.to_tail_log_mode();
    assert_eq!(state.mode(), Mode::TailLog);
}

#[test]
fn hex_digits() {
    assert_eq!(hex_digit_value('0'), Some(0));
    assert_eq!(hex_digit_value('9'), Some(9));
    assert_eq!(hex_digit_value('a'), Some(10));
    assert_eq!(hex_digit_value('f'), Some(15));
    assert_eq!(hex_digit_value('F'), Some(15));
    assert_eq!(hex_digit_value('g'), None);
    assert_eq!(hex_digit_value('z'), None);
}

#[test]
fn key_order_is_string_order() {
    let cases = ["", "a", "ab", "b", "B", "é", "a\u{10000}", "a\u{ffff}"];
    for x in cases {
        for y in cases {
            assert_eq!(key_less_exec(x, y), x < y, "{:?} {:?}", x, y);
        }
    }
}
