use svnui::app::cli_path;

fn parse(args: &[&str]) -> String {
    let cmd = clap::Command::new("svnui").arg(clap::Arg::new("path"));
    let m = cmd.try_get_matches_from(args.iter().copied()).unwrap();
    cli_path(m.get_one::<String>("path").cloned())
}

#[test]
fn cli_args_default_and_explicit() {
    assert_eq!(parse(&["svnui"]), ".");
    assert_eq!(parse(&["svnui", "/tmp/repo"]), "/tmp/repo");
}
