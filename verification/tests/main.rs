use gtab::applescript::render_shell_cd_command;

#[test]
fn render_shell_cd_command_wraps_path_for_shell_eval() {
    assert_eq!(render_shell_cd_command("/tmp/demo"), "cd -- '/tmp/demo'");
}

#[test]
fn render_shell_cd_command_escapes_single_quotes() {
    assert_eq!(
        render_shell_cd_command("/tmp/it'works"),
        "cd -- '/tmp/it'\"'\"'works'"
    );
}
