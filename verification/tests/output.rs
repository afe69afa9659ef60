use git_file_storage::{CommandOutput, GfsError, SealedOutput};

#[test]
fn command_that_succeeded_is_handed_on() {
    let output = CommandOutput {
        success: true,
        stdout: b"3b18e512dba79e4c8300dd08aeb37f8e728b8dad\n".to_vec(),
        stderr: b"warning: something".to_vec(),
    };
    assert_eq!(output.clone().exit_ok_or_stderror(), Ok(output));
}

#[test]
fn command_that_failed_gives_its_diagnostic_output() {
    let output = CommandOutput {
        success: false,
        stdout: b"partial".to_vec(),
        stderr: "fatal: not a git repository \u{2713}".as_bytes().to_vec(),
    };
    assert_eq!(
        output.exit_ok_or_stderror(),
        Err(GfsError::PlumbingError(
            "fatal: not a git repository \u{2713}".to_string()
        ))
    );
}

#[test]
fn diagnostic_output_that_is_no_text_is_said_to_be_none() {
    let output = CommandOutput {
        success: false,
        stdout: Vec::new(),
        stderr: vec![0x66, 0xff, 0xfe],
    };
    assert_eq!(
        output.exit_ok_or_stderror(),
        Err(GfsError::PlumbingError(
            "the diagnostic output is no text".to_string()
        ))
    );
}
