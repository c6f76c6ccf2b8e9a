use dvop::debugger::breakpoints::BreakpointManager;

fn lines(m: &BreakpointManager) -> Vec<(String, u32, bool)> {
    m.get_breakpoints().into_iter().map(|b| (b.file_path, b.line, b.enabled)).collect()
}

#[test]
fn toggling_adds_then_removes() {
    let mut m = BreakpointManager::new();
    assert!(m.get_breakpoints().is_empty());
    m.toggle_breakpoint("/p/src/main.rs".to_string(), 10);
    m.toggle_breakpoint("/p/src/main.rs".to_string(), 20);
    m.toggle_breakpoint("/p/src/lib.rs".to_string(), 5);
    assert_eq!(
        lines(&m),
        vec![
            ("/p/src/main.rs".to_string(), 10, true),
            ("/p/src/main.rs".to_string(), 20, true),
            ("/p/src/lib.rs".to_string(), 5, true),
        ]
    );
    m.toggle_breakpoint("/p/src/main.rs".to_string(), 10);
    assert_eq!(
        lines(&m),
        vec![("/p/src/main.rs".to_string(), 20, true), ("/p/src/lib.rs".to_string(), 5, true)]
    );
}

#[test]
fn files_are_compared_as_paths() {
    let mut m = BreakpointManager::new();
    m.toggle_breakpoint("/p/src/main.rs".to_string(), 3);
    m.toggle_breakpoint("/p/src//main.rs".to_string(), 3);
    assert!(m.get_breakpoints().is_empty());
    m.toggle_breakpoint("/p/src//main.rs".to_string(), 4);
    m.toggle_breakpoint("/p/src/main.rs".to_string(), 7);
    assert_eq!(
        lines(&m),
        vec![("/p/src//main.rs".to_string(), 4, true), ("/p/src/main.rs".to_string(), 7, true)]
    );
}

#[test]
fn emptied_file_keeps_its_place() {
    let mut m = BreakpointManager::new();
    m.toggle_breakpoint("/a.rs".to_string(), 1);
    m.toggle_breakpoint("/b.rs".to_string(), 2);
    m.toggle_breakpoint("/a.rs".to_string(), 1);
    m.toggle_breakpoint("/a.rs".to_string(), 9);
    assert_eq!(lines(&m), vec![("/a.rs".to_string(), 9, true), ("/b.rs".to_string(), 2, true)]);
}
