use agent_terminal::pty::{
    child_term, reader_step, shell_command, ReadOutcome, ReaderStep, DEFAULT_CHILD_TERM,
};

#[test]
fn default_child_term_uses_xterm_standout() {
    assert_eq!(DEFAULT_CHILD_TERM, "xterm-256color");
}

#[test]
fn the_terminal_type_may_be_asked_for() {
    assert_eq!(child_term(None), DEFAULT_CHILD_TERM);
    assert_eq!(child_term(Some("  ".to_string())), DEFAULT_CHILD_TERM);
    assert_eq!(child_term(Some("xterm-kitty".to_string())), "xterm-kitty");
}

#[test]
fn how_the_shell_is_started() {
    let command = shell_command(None, None);
    assert_eq!(command.program, "/bin/zsh");
    assert_eq!(command.arg, "-i");
    assert_eq!(command.term, "xterm-256color");
    assert_eq!(command.color_term, "truecolor");
    assert_eq!(command.term_program, "rterminal");
    assert_eq!(command.removed_variable, "NO_COLOR");
    assert_eq!(shell_command(Some("/bin/bash".to_string()), None).program, "/bin/bash");
}

#[test]
fn an_interrupted_read_is_tried_again() {
    assert_eq!(reader_step(ReadOutcome::Read(0)), ReaderStep::Stop);
    assert_eq!(reader_step(ReadOutcome::Read(7)), ReaderStep::HandOn(7));
    assert_eq!(reader_step(ReadOutcome::Interrupted), ReaderStep::Retry);
    assert_eq!(reader_step(ReadOutcome::Failed), ReaderStep::ReportAndStop);
}
