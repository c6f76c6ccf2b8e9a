use dvop::debugger::session::{
    child_pids, pid_hint, ppid_from_stat, spares_tree, startup_commands, stop_commands, DebugSession,
    KillTarget, PidHint,
};
use dvop::debugger::{Breakpoint, DebugConfig, DebuggerState};
use std::cell::RefCell;
use std::rc::Rc;

fn recorder() -> (Rc<RefCell<Vec<String>>>, impl Fn() -> Box<dyn FnOnce(String) -> Result<(), String>>) {
    let log = Rc::new(RefCell::new(Vec::new()));
    let l2 = log.clone();
    let make = move || {
        let l3 = l2.clone();
        Box::new(move |c: String| {
            l3.borrow_mut().push(c);
            Ok(())
        }) as Box<dyn FnOnce(String) -> Result<(), String>>
    };
    (log, make)
}

#[test]
fn test_debugger_creation() {
    let session = DebugSession::new(4242);
    assert!(session.state() == DebuggerState::Stopped);
}

#[test]
fn test_debugger_state() {
    let mut session = DebugSession::new(4242);
    assert!(session.state() == DebuggerState::Stopped);
    assert!(session.continue_execution(|_c: String| Ok(())).is_err());
    assert!(session.pause(|_c: String| Ok(())).is_err());
    assert!(session.state() == DebuggerState::Stopped);
}

#[test]
fn test_breakpoint_management() {
    let mut session = DebugSession::new(4242);
    let bp = session.add_breakpoint("/test/file.rs".to_string(), 10, |_c: String| Ok(())).unwrap();
    assert_eq!(bp.id, 1);
    assert_eq!(bp.line, 10);
    assert!(bp.enabled);
    let breakpoints = session.get_breakpoints();
    assert_eq!(breakpoints.len(), 1);
    session.remove_breakpoint(1, |_c: String| Ok(())).unwrap();
    let breakpoints = session.get_breakpoints();
    assert!(breakpoints.is_empty());
}

#[test]
fn test_debug_config() {
    let mut session = DebugSession::new(4242);
    let config = DebugConfig {
        program: "/test/program".to_string(),
        args: vec!["--arg1".to_string()],
        working_dir: "/test".to_string(),
        env_vars: Vec::new(),
        stop_on_entry: true,
    };
    session.set_config(config.clone());
    let retrieved = session.get_config().unwrap();
    assert_eq!(retrieved.program, config.program);
    assert_eq!(retrieved.args, config.args);
}

#[test]
fn test_running_session_sends_commands() {
    let (log, make) = recorder();
    let mut session = DebugSession::new(4242);
    session.mark_running();
    session.add_breakpoint("/src/main.rs".to_string(), 7, make()).unwrap();
    assert!(session.continue_execution(make()).is_err());
    session.pause(make()).unwrap();
    assert!(session.state() == DebuggerState::Paused);
    session.step_over(make()).unwrap();
    session.step_into(make()).unwrap();
    session.step_out(make()).unwrap();
    session.toggle_breakpoint(1, make()).unwrap();
    session.toggle_breakpoint(1, make()).unwrap();
    session.remove_breakpoint(1, make()).unwrap();
    session.continue_execution(make()).unwrap();
    assert!(session.state() == DebuggerState::Running);
    assert_eq!(session.evaluate("x + 1", make()).unwrap(), "");
    assert!(session.get_stack_trace(make()).unwrap().is_empty());
    assert!(session.get_locals(make()).unwrap().is_empty());
    assert_eq!(
        *log.borrow(),
        vec![
            "-break-insert /src/main.rs:7",
            "-exec-interrupt",
            "-exec-next",
            "-exec-step",
            "-exec-finish",
            "-break-disable 1",
            "-break-enable 1",
            "-break-delete 1",
            "-exec-continue",
            "-data-evaluate-expression \"x + 1\"",
            "-stack-list-frames",
            "-stack-list-locals --all-values",
        ]
    );
}

#[test]
fn test_failed_send_keeps_state() {
    let mut session = DebugSession::new(4242);
    session.mark_running();
    let r = session.pause(|_c: String| Err("Debugger stdin not available".to_string()));
    assert_eq!(r, Err("Debugger stdin not available".to_string()));
    assert!(session.state() == DebuggerState::Running);
    assert!(session.stop(None, &Vec::new()).is_empty());
    assert!(session.state() == DebuggerState::Stopped);
    assert_eq!(session.get_stack_trace(|_c: String| Ok(())).unwrap_err(), "Debugger is not running");
}

#[test]
fn test_startup_commands() {
    let config = DebugConfig {
        program: "/p/target/debug/app".to_string(),
        args: vec!["-v".to_string(), "input.txt".to_string()],
        working_dir: "/p".to_string(),
        env_vars: Vec::new(),
        stop_on_entry: true,
    };
    let bps = vec![
        Breakpoint { id: 1, file: "/p/src/main.rs".to_string(), line: 3, enabled: true, hit_count: 0, condition: None },
        Breakpoint { id: 2, file: "/p/src/lib.rs".to_string(), line: 9, enabled: false, hit_count: 0, condition: None },
    ];
    assert_eq!(
        startup_commands(&config, &bps),
        vec![
            "set follow-fork-mode parent",
            "set detach-on-fork on",
            "set pagination off",
            "set confirm off",
            "set environment DVOP_DEBUG_INSTANCE=1",
            "-break-insert /p/src/main.rs:3",
            "-exec-arguments -v input.txt",
            "-break-insert -t main",
            "-exec-run",
        ]
    );
}

#[test]
fn test_launch_plan_errors() {
    let mut session = DebugSession::new(1);
    assert_eq!(session.launch_plan(true, Some("gdb")).err().unwrap(), "No debug configuration set");
    let mut config = DebugConfig::default();
    config.program = "/bin/app".to_string();
    session.set_config(config);
    assert_eq!(
        session.launch_plan(false, Some("gdb")).err().unwrap(),
        "Program not found: /bin/app. Please build the project first."
    );
    assert_eq!(
        session.launch_plan(true, None).err().unwrap(),
        "No debugger available (GDB or LLDB required)"
    );
    let plan = session.launch_plan(true, Some("gdb")).ok().unwrap();
    assert_eq!(plan.args, vec!["--interpreter=mi2", "--quiet", "/bin/app"]);
    assert_eq!(plan.commands.last().unwrap(), "-exec-run");
    let plan = session.launch_plan(true, Some("lldb")).ok().unwrap();
    assert_eq!(plan.args, vec!["--", "/bin/app"]);
}

#[test]
fn test_pid_parsing() {
    assert!(pid_hint("[Inferior 1 (process 12345) exited normally]") == PidHint::Process(12345));
    assert!(pid_hint("[New Thread 0x7ffff (LWP 777)]") == PidHint::Lwp(777));
    assert!(pid_hint("process abc (LWP 5)") == PidHint::Lwp(5));
    assert!(pid_hint("~\"hello\"") == PidHint::Nothing);
    assert!(pid_hint("process 99999999999") == PidHint::Nothing);
    assert_eq!(ppid_from_stat("123 (my prog) S 456 123 123 0"), Some(456));
    assert_eq!(ppid_from_stat("123 (a) b) R 77 1"), Some(77));
    assert_eq!(ppid_from_stat("no paren here"), None);
    assert_eq!(ppid_from_stat("1 (x) S"), None);
}

#[test]
fn test_inferior_pids() {
    let mut session = DebugSession::new(100);
    session.record_inferior_pid(100);
    session.record_inferior_pid(1);
    session.record_output("=thread-group-started".to_string());
    session.record_inferior_pid(555);
    session.record_inferior_pid(556);
    session.record_inferior_pid(555);
    assert_eq!(session.get_output(), vec!["=thread-group-started"]);
    assert_eq!(session.read_output(), vec!["=thread-group-started"]);
    assert!(session.read_output().is_empty());
}

#[test]
fn test_stop_kill_plan_spares_own_process() {
    let mut session = DebugSession::new(4242);
    session.record_inferior_pid(100);
    session.record_inferior_pid(200);
    session.record_inferior_pid(4242);
    let plan = session.stop(Some(50), &vec![60, 4242, 70]);
    assert_eq!(
        plan,
        vec![
            KillTarget::Group(50),
            KillTarget::Process(100),
            KillTarget::Tree(100),
            KillTarget::Process(60),
            KillTarget::Process(70),
            KillTarget::Process(100),
            KillTarget::Tree(100),
            KillTarget::Process(200),
            KillTarget::Tree(200),
            KillTarget::ChildrenOf(50),
        ]
    );
    assert!(session.state() == DebuggerState::Stopped);
    // The processes seen are forgotten.
    assert!(session.stop(None, &vec![7]).is_empty());
}

#[test]
fn test_stop_without_debugger_process_ignores_descendants() {
    let mut session = DebugSession::new(9);
    session.record_inferior_pid(300);
    let plan = session.stop(None, &vec![301, 302]);
    assert_eq!(
        plan,
        vec![
            KillTarget::Process(300),
            KillTarget::Tree(300),
            KillTarget::Process(300),
            KillTarget::Tree(300),
        ]
    );
}

#[test]
fn test_stop_commands() {
    assert_eq!(stop_commands(), vec!["-exec-interrupt --all", "kill", "y", "-gdb-exit"]);
}

#[test]
fn test_process_tree_helpers() {
    let table = vec![(10, 1), (11, 10), (12, 10), (13, 11), (14, 10)];
    assert_eq!(child_pids(&table, 10), vec![11, 12, 14]);
    assert_eq!(child_pids(&table, 13), Vec::<u32>::new());
    assert!(spares_tree(5, 5));
    assert!(spares_tree(1, 5));
    assert!(spares_tree(0, 5));
    assert!(!spares_tree(6, 5));
}
