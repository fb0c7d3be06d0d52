use ochki::cli::{Commands, HealthCommand};

#[test]
fn commands_resolve_paths() {
    let c = Commands::Get { path: "api".into() };
    assert_eq!(c.resolve_paths("/apps"), Commands::Get { path: "/apps/api".into() });
    let c = Commands::Cp { src: "./a".into(), dst: "../b".into(), recursive: true };
    assert_eq!(
        c.resolve_paths("/x/y"),
        Commands::Cp { src: "/x/y/a".into(), dst: "/x/b".into(), recursive: true }
    );
    let c = Commands::Diff { path: "n".into(), host1: "h1".into(), host2: "h2".into() };
    assert_eq!(
        c.resolve_paths("/"),
        Commands::Diff { path: "/n".into(), host1: "h1".into(), host2: "h2".into() }
    );
    let c = Commands::Health { cmd: HealthCommand::Ruok { host: "h".into() } };
    assert_eq!(c.resolve_paths("/q"), c);
}

#[test]
fn health_command_words() {
    let h = HealthCommand::Mntr { host: "zk:2181".into() };
    assert_eq!(h.word_and_host(), ("mntr".to_string(), "zk:2181".to_string()));
    assert_eq!(HealthCommand::Ruok { host: "a".into() }.word_and_host().0, "ruok");
    assert_eq!(h.duplicate(), h);
}
