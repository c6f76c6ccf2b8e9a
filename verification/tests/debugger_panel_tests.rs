use dvop::debugger::ui::{display_output_line, read_breakpoint_form};

fn shown(line: &str) -> Option<(String, bool)> {
    display_output_line(line)
}

#[test]
fn console_and_target_output() {
    assert_eq!(shown("~\"Hello\\n\""), Some(("Hello\n".to_string(), false)));
    assert_eq!(shown("@\"out\\n\\n\"\""), Some(("[target] out\n".to_string(), false)));
    assert_eq!(shown("~\"~\"twice\""), Some(("twice\n".to_string(), false)));
    assert_eq!(shown("~plain"), Some(("~plain\n".to_string(), false)));
}

#[test]
fn state_records() {
    assert_eq!(shown("*stopped,reason=\"breakpoint-hit\""), Some(("[Stopped]\n".to_string(), false)));
    assert_eq!(shown("*running,thread-id=\"all\""), Some(("[Running]\n".to_string(), false)));
    assert_eq!(shown("^error,msg=\"x\""), Some(("[Error] ^error,msg=\"x\"\n".to_string(), false)));
    assert_eq!(shown("^exit"), Some(("[Debugger exited]\n".to_string(), true)));
    assert_eq!(shown("^done"), None);
    assert_eq!(shown("=thread-group-added"), None);
    assert_eq!(shown(""), None);
}

#[test]
fn breakpoint_form_errors() {
    assert_eq!(
        read_breakpoint_form("", "3", None),
        Err("Error: Please enter both file and line number\n".to_string())
    );
    assert_eq!(
        read_breakpoint_form("main.rs", "", None),
        Err("Error: Please enter both file and line number\n".to_string())
    );
    assert_eq!(
        read_breakpoint_form("main.rs", "0", None),
        Err("Error: Line must be a positive number\n".to_string())
    );
    assert_eq!(
        read_breakpoint_form("main.rs", "-4", None),
        Err("Error: Line must be a positive number\n".to_string())
    );
    assert_eq!(
        read_breakpoint_form("main.rs", "12a", None),
        Err("Error: Line must be a positive number\n".to_string())
    );
}

#[test]
fn breakpoint_form_resolves_files() {
    assert_eq!(read_breakpoint_form("src/main.rs", "12", None), Ok(("src/main.rs".to_string(), 12)));
    assert_eq!(
        read_breakpoint_form("src/main.rs", "+7", Some("/p")),
        Ok(("/p/src/main.rs".to_string(), 7))
    );
    assert_eq!(
        read_breakpoint_form("/abs/lib.rs", "1", Some("/p")),
        Ok(("/abs/lib.rs".to_string(), 1))
    );
}
