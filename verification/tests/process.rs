use chuhshell::process::{command_output, exit_outcome, timeout_error, OUTPUT_LIMIT};

#[test]
fn command_results() {
    assert_eq!(exit_outcome("false", true, 0), Ok(()));
    assert_eq!(
        exit_outcome("false", true, 1),
        Err("false: command failed with status 1".to_owned())
    );
    assert_eq!(
        exit_outcome("x", false, -9),
        Err("x: command failed with status -9".to_owned())
    );
    assert_eq!(timeout_error("sleep"), "sleep: operation timed out or cancelled");
    assert_eq!(command_output("printf", b"  hello\n"), Ok("hello".to_owned()));
    assert_eq!(command_output("printf", &[0x66, 0xff, 0x6f]), Ok("f\u{fffd}o".to_owned()));
    let big = vec![b'a'; OUTPUT_LIMIT + 1];
    assert_eq!(command_output("cat", &big), Err("cat: excessive output".to_owned()));
}
