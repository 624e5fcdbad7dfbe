use linediff::codemod::{codemod_outcome, CodemodError};

#[test]
fn successful_exit_keeps_content() {
    let r = codemod_outcome(true, "", "transformed".to_string());
    assert_eq!(r.unwrap(), "transformed");
}

#[test]
fn nonzero_exit_carries_stderr() {
    let r = codemod_outcome(false, "boom: bad codemod", String::new());
    match r {
        Err(CodemodError::ProcessExecution(msg)) => {
            assert_eq!(msg, "Codemod failed: boom: bad codemod");
            assert!(msg.contains("boom: bad codemod"));
        }
        _ => panic!("expected a process-execution failure"),
    }
}
