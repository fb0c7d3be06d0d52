use ochki::repl::{classify_line, format_error_message, help_text, shell_words, Builtin, ReplInput, ReplState};

#[test]
fn shell_words_split_and_quote() {
    assert_eq!(shell_words("ls /a  -R"), vec!["ls", "/a", "-R"]);
    assert_eq!(shell_words("set /x \"hello world\""), vec!["set", "/x", "hello world"]);
    assert_eq!(shell_words("set /x a\\ b"), vec!["set", "/x", "a b"]);
    assert_eq!(shell_words("set /x \\\"q"), vec!["set", "/x", "\"q"]);
    assert_eq!(shell_words("   "), Vec::<String>::new());
    assert_eq!(shell_words("\"\""), Vec::<String>::new());
}

#[test]
fn classify_lines() {
    assert_eq!(classify_line("   ", "/"), ReplInput::Empty);
    assert_eq!(classify_line("  exit ", "/"), ReplInput::Exit);
    assert_eq!(classify_line("quit", "/"), ReplInput::Exit);
    assert_eq!(classify_line("cd apps", "/"), ReplInput::Builtin(Builtin::Cd("/apps".to_string())));
    assert_eq!(classify_line("cd", "/apps"), ReplInput::Builtin(Builtin::Cd("/".to_string())));
    assert_eq!(classify_line("cd ..", "/apps/api"), ReplInput::Builtin(Builtin::Cd("/apps".to_string())));
    assert_eq!(classify_line("connect", "/"), ReplInput::Builtin(Builtin::ConnectUsage));
    assert_eq!(
        classify_line("connect h:2181", "/"),
        ReplInput::Builtin(Builtin::Connect("h:2181".to_string()))
    );
    assert_eq!(classify_line("pwd", "/"), ReplInput::Builtin(Builtin::Pwd));
    assert_eq!(classify_line("help", "/"), ReplInput::Builtin(Builtin::Help));
    assert_eq!(
        classify_line(" get /a ", "/"),
        ReplInput::Command(vec!["get".to_string(), "/a".to_string()])
    );
}

#[test]
fn repl_state_cd_and_connect() {
    let mut st = ReplState::new();
    assert_eq!(st.cwd, "/");
    assert_eq!(st.prompt(), "ochki:/> ");
    assert_eq!(st.finish_cd("/apps".to_string(), true), None);
    assert_eq!(st.cwd, "/apps");
    assert_eq!(st.prompt(), "ochki:/apps> ");
    assert_eq!(st.finish_cd("/nope".to_string(), false), Some("Node not found: /nope".to_string()));
    assert_eq!(st.cwd, "/apps");
    assert_eq!(st.finish_connect("other:2181"), "Connected to other:2181");
    assert_eq!(st.cwd, "/");
}

#[test]
fn error_messages() {
    assert_eq!(format_error_message("ZooKeeper error: NoNode"), "Node not found");
    assert_eq!(format_error_message("NodeExists"), "Node already exists");
    assert_eq!(
        format_error_message("BadVersion"),
        "Version mismatch (use stat to check current version)"
    );
    assert_eq!(format_error_message("request timeout"), "Connection lost. Is the server running?");
    assert_eq!(format_error_message("ConnectionLoss"), "Connection lost. Is the server running?");
    assert_eq!(
        format_error_message("NoChildrenForEphemerals"),
        "Cannot create children of ephemeral nodes"
    );
    assert_eq!(
        format_error_message("InvalidAcl"),
        "Invalid ACL. Format: scheme:id:perms (e.g. world:anyone:cdrwa)"
    );
    assert_eq!(format_error_message("NotEmpty"), "Node has children. Use --recursive to delete.");
    assert_eq!(
        format_error_message("ConnectionRefused"),
        "Connection refused. Is the server running?"
    );
    assert_eq!(format_error_message("something else"), "something else");
}

#[test]
fn help_lists_commands() {
    let h = help_text();
    assert!(h.starts_with("Commands:\n  ls <path> [-R] [-l]"));
    assert!(h.ends_with("help                     This help"));
}
