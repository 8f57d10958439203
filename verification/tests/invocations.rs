use svnui::app::SvnCommand;
use svnui::invocations::{
    blame_lines, changes_working_copy, command_args, content_placeholder, failure,
    is_unversioned_error, listed_files, peg,
};
use svnui::svn::AsyncSvnNotification;

fn args(c: SvnCommand) -> Vec<Vec<String>> {
    command_args(&c)
}

fn strs(v: &[&str]) -> Vec<String> {
    v.iter().map(|s| s.to_string()).collect()
}

#[test]
fn peg_appends_empty_peg_revision() {
    assert_eq!(peg("foo@.service"), "foo@.service@");
    assert_eq!(peg(""), "@");
}

#[test]
fn read_only_invocations() {
    assert_eq!(args(SvnCommand::CheckInfo), vec![strs(&["info"])]);
    assert_eq!(args(SvnCommand::Version), vec![strs(&["--version", "--quiet"])]);
    assert_eq!(args(SvnCommand::Status), vec![strs(&["status", "--ignore-externals"])]);
    assert_eq!(
        args(SvnCommand::Log(50)),
        vec![strs(&["log", "-v", "-r", "HEAD:0", "-l", "50"])]
    );
    assert_eq!(
        args(SvnCommand::LogSearch("fix*".to_string())),
        vec![strs(&["log", "-v", "-r", "HEAD:0", "--search", "fix*"])]
    );
    assert_eq!(
        args(SvnCommand::LogMore(120, 50)),
        vec![strs(&["log", "-v", "-r", "119:0", "-l", "50"])]
    );
    assert_eq!(args(SvnCommand::Diff("a@b.txt".to_string())), vec![strs(&["diff", "--", "a@b.txt"])]);
    assert_eq!(args(SvnCommand::RevisionDiff(7)), vec![strs(&["diff", "-c", "7"])]);
    assert_eq!(args(SvnCommand::RangeDiff(3, 5)), vec![strs(&["diff", "-r", "2:5"])]);
    assert_eq!(args(SvnCommand::RangeDiff(0, 5)), vec![strs(&["diff", "-r", "0:5"])]);
    assert_eq!(
        args(SvnCommand::FileLog("src/main.rs".to_string(), 50)),
        vec![strs(&["log", "-v", "-r", "HEAD:0", "-l", "50", "--", "src/main.rs@"])]
    );
    assert_eq!(args(SvnCommand::ListFiles), vec![strs(&["list", "-R", ".@HEAD"])]);
    assert_eq!(args(SvnCommand::CreatePatch), vec![strs(&["diff"])]);
}

#[test]
fn two_step_invocations() {
    assert_eq!(
        args(SvnCommand::Blame("f.txt".to_string())),
        vec![strs(&["blame", "--", "f.txt@"]), strs(&["blame", "--xml", "--", "f.txt@"])]
    );
    assert_eq!(
        args(SvnCommand::RepoInfo),
        vec![strs(&["info"]), strs(&["info", "-r", "HEAD"])]
    );
}

#[test]
fn mutating_invocations_peg_their_paths() {
    let paths = strs(&["a.txt", "dir/b@c"]);
    assert_eq!(
        args(SvnCommand::Add(paths.clone())),
        vec![strs(&["add", "--", "a.txt@", "dir/b@c@"])]
    );
    assert_eq!(
        args(SvnCommand::Revert(paths.clone())),
        vec![strs(&["revert", "-R", "--", "a.txt@", "dir/b@c@"])]
    );
    assert_eq!(
        args(SvnCommand::Resolve("x".to_string())),
        vec![strs(&["resolve", "--accept=working", "--", "x@"])]
    );
    assert_eq!(args(SvnCommand::Update), vec![strs(&["update"])]);
    assert_eq!(args(SvnCommand::UpdateToRevision(42)), vec![strs(&["update", "-r", "42"])]);
    assert_eq!(
        args(SvnCommand::ApplyPatch("/tmp/p.patch".to_string())),
        vec![strs(&["patch", "/tmp/p.patch"])]
    );
    assert_eq!(
        args(SvnCommand::Commit("测试一下提交吧".to_string(), paths)),
        vec![strs(&[
            "commit", "--encoding", "UTF-8", "-m", "测试一下提交吧", "--", "a.txt@", "dir/b@c@"
        ])]
    );
}

#[test]
fn listed_files_keeps_files_only() {
    let out = "a.txt\r\ndir/\r\ndir/b.rs\n\nc\r\r\n";
    assert_eq!(listed_files(out), strs(&["a.txt", "dir/b.rs", "c"]));
    assert!(listed_files("").is_empty());
    assert_eq!(listed_files("last"), strs(&["last"]));
}

#[test]
fn unversioned_error_is_recognized() {
    assert!(is_unversioned_error(
        "svn: E155010: The node '/wc/new.txt' was not found."
    ));
    assert!(!is_unversioned_error("svn: E155007: '/tmp' is not a working copy"));
    assert!(!is_unversioned_error(""));
}

#[test]
fn content_placeholder_only_for_large_files() {
    assert_eq!(content_placeholder(2_000_000), None);
    assert_eq!(
        content_placeholder(2_000_001),
        Some("(file too large to display: 2000001 bytes)".to_string())
    );
}

#[test]
fn blame_lines_without_xml_keeps_text_authors() {
    let plain = b"     1      alice hello\n     2        bob world\n";
    let lines = blame_lines(plain, None);
    assert_eq!(lines.len(), 2);
    assert_eq!(lines[0].revision, Some(1));
    assert_eq!(lines[0].author, "alice");
    assert_eq!(lines[1].content, "world");
}

#[test]
fn blame_lines_take_exact_authors_from_xml() {
    let plain = b"     1 Gabi Melma hello\n     2      alice world\n";
    let xml = "<?xml version=\"1.0\" encoding=\"UTF-8\"?>
<blame>
<target
   path=\"f.txt\">
<entry
   line-number=\"1\">
<commit
   revision=\"1\">
<author>Gabi Melman</author>
<date>2026-08-29T15:43:00.081617Z</date>
</commit>
</entry>
<entry
   line-number=\"2\">
<commit
   revision=\"2\">
<author>alice</author>
<date>2026-08-29T15:43:01.081617Z</date>
</commit>
</entry>
</target>
</blame>";
    let lines = blame_lines(plain, Some(xml.as_bytes()));
    assert_eq!(lines[0].author, "Gabi Melman");
    assert_eq!(lines[0].content, "hello");
    assert_eq!(lines[1].author, "alice");
}

#[test]
fn only_working_copy_changes_are_serialized() {
    assert!(changes_working_copy(&SvnCommand::Add(vec![])));
    assert!(changes_working_copy(&SvnCommand::Commit("m".into(), vec![])));
    assert!(changes_working_copy(&SvnCommand::Update));
    assert!(changes_working_copy(&SvnCommand::ApplyPatch("p".into())));
    assert!(!changes_working_copy(&SvnCommand::Status));
    assert!(!changes_working_copy(&SvnCommand::Diff("a".into())));
    assert!(!changes_working_copy(&SvnCommand::CreatePatch));
}

#[test]
fn failures_keep_the_correlation_fields() {
    match failure(&SvnCommand::Diff("a.txt".into()), "boom".into()) {
        AsyncSvnNotification::Diff { path, result: Err(e) } => {
            assert_eq!(path, "a.txt");
            assert_eq!(e, "boom");
        }
        other => panic!("unexpected {other:?}"),
    }
    match failure(&SvnCommand::LogMore(7, 50), "boom".into()) {
        AsyncSvnNotification::LogAppend { before_rev: 7, result: Err(e) } => assert_eq!(e, "boom"),
        other => panic!("unexpected {other:?}"),
    }
    assert!(matches!(
        failure(&SvnCommand::Commit("m".into(), vec![]), "x".into()),
        AsyncSvnNotification::Commit(Err(_))
    ));
}
