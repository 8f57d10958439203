//! The svn invocations behind each background operation, and what the
//! front end makes of their raw output before the parsers see it.

use vstd::prelude::*;
use crate::app::{CmdView, SvnCommand, cmd_view};
use crate::models::BlameLine;
use crate::svn::AsyncSvnNotification;
use crate::parser::{
    blame_views, merge_blame_authors, parse_blame, parse_blame_xml, spec_merge_blame_authors,
    spec_parse_blame, spec_parse_blame_xml,
};
use crate::text::{
    chars_of, decimal, find, find_at, lines_of, line_spans, line_spans_of, push_char,
    push_decimal, push_str, rskip_char, string_of, texts, trim_end_char, utf8_lossy, utf8_lossy_string,
};

verus! {

/// `p` with an empty peg revision, so that svn takes an `@` inside the
/// path literally.
pub open spec fn pegged(p: Seq<char>) -> Seq<char> {
    p.push('@')
}

/// Each path of `ps`, pegged.
pub open spec fn pegged_all(ps: Seq<Seq<char>>) -> Seq<Seq<char>> {
    ps.map_values(|p: Seq<char>| pegged(p))
}

/// The argument lists of the svn invocations that run `c`, in order.
/// Blame asks for the text output and then the XML output (for exact
/// authors); the repository overview asks for the local info and then
/// the info of HEAD.
pub open spec fn svn_args(c: CmdView) -> Seq<Seq<Seq<char>>> {
    match c {
        CmdView::CheckInfo => seq![seq!["info"@]],
        CmdView::Version => seq![seq!["--version"@, "--quiet"@]],
        CmdView::Status => seq![seq!["status"@, "--ignore-externals"@]],
        CmdView::Log(l) => seq![seq!["log"@, "-v"@, "-r"@, "HEAD:0"@, "-l"@, decimal(l)]],
        CmdView::LogSearch(p) => seq![seq!["log"@, "-v"@, "-r"@, "HEAD:0"@, "--search"@, p]],
        CmdView::LogMore(b, l) => seq![
            seq!["log"@, "-v"@, "-r"@, decimal((b - 1) as nat) + ":0"@, "-l"@, decimal(l)],
        ],
        CmdView::Diff(p) => seq![seq!["diff"@, "--"@, p]],
        CmdView::RevisionDiff(r) => seq![seq!["diff"@, "-c"@, decimal(r as nat)]],
        CmdView::RangeDiff(f, t) => seq![
            seq![
                "diff"@,
                "-r"@,
                decimal(if f > 0 { (f - 1) as nat } else { 0 }) + ":"@ + decimal(t as nat),
            ],
        ],
        CmdView::Blame(p) => seq![
            seq!["blame"@, "--"@, pegged(p)],
            seq!["blame"@, "--xml"@, "--"@, pegged(p)],
        ],
        CmdView::FileLog(p, l) => seq![
            seq!["log"@, "-v"@, "-r"@, "HEAD:0"@, "-l"@, decimal(l), "--"@, pegged(p)],
        ],
        CmdView::ListFiles => seq![seq!["list"@, "-R"@, ".@HEAD"@]],
        CmdView::RepoInfo => seq![seq!["info"@], seq!["info"@, "-r"@, "HEAD"@]],
        CmdView::CreatePatch => seq![seq!["diff"@]],
        CmdView::Add(ps) => seq![seq!["add"@, "--"@] + pegged_all(ps)],
        CmdView::Revert(ps) => seq![seq!["revert"@, "-R"@, "--"@] + pegged_all(ps)],
        CmdView::Resolve(p) => seq![seq!["resolve"@, "--accept=working"@, "--"@, pegged(p)]],
        CmdView::Update => seq![seq!["update"@]],
        CmdView::UpdateToRevision(r) => seq![seq!["update"@, "-r"@, decimal(r as nat)]],
        CmdView::ApplyPatch(p) => seq![seq!["patch"@, p]],
        CmdView::Commit(m, ps) => seq![
            seq!["commit"@, "--encoding"@, "UTF-8"@, "-m"@, m, "--"@] + pegged_all(ps),
        ],
    }
}

fn text(t: &str) -> (r: String)
    ensures
        r@ == t@,
{
    t.to_owned()
}

fn number(n: u64) -> (r: String)
    ensures
        r@ == decimal(n as nat),
{
    let mut t = String::new();
    push_decimal(&mut t, n);
    assert(t@ =~= decimal(n as nat));
    t
}

/// `path` with an empty peg revision (see [`pegged`]).
pub fn peg(path: &str) -> (r: String)
    ensures
        r@ == pegged(path@),
{
    let mut t = path.to_owned();
    push_char(&mut t, '@');
    t
}

/// Append each path of `paths`, pegged, to `out`.
fn push_pegged(out: &mut Vec<String>, paths: &Vec<String>)
    ensures
        texts(final(out)@) == texts(old(out)@) + pegged_all(texts(paths@)),
{
    let mut i: usize = 0;
    while i < paths.len()
        invariant
            i <= paths@.len(),
            texts(out@) == texts(old(out)@) + pegged_all(texts(paths@)).take(i as int),
        decreases paths.len() - i,
    {
        let p = peg(paths[i].as_str());
        let ghost before = out@;
        out.push(p);
        assert(texts(out@) =~= texts(before).push(p@));
        assert(pegged_all(texts(paths@)).take(i + 1) =~= pegged_all(texts(paths@)).take(i as int).push(
            p@,
        ));
        i = i + 1;
    }
    assert(pegged_all(texts(paths@)).take(i as int) =~= pegged_all(texts(paths@)));
}

/// The argument lists of the svn invocations that run `c` (see
/// [`svn_args`]). A page of older revisions is asked for before a
/// revision above 0.
pub fn command_args(c: &SvnCommand) -> (r: Vec<Vec<String>>)
    requires
        c matches SvnCommand::LogMore(b, _) ==> b > 0,
    ensures
        r@.map_values(|a: Vec<String>| texts(a@)) == svn_args(cmd_view(*c)),
{
    let mut a: Vec<String> = Vec::new();
    let mut b: Vec<String> = Vec::new();
    let two: bool;
    match c {
        SvnCommand::CheckInfo => {
            a.push(text("info"));
            two = false;
        },
        SvnCommand::Version => {
            a.push(text("--version"));
            a.push(text("--quiet"));
            two = false;
        },
        SvnCommand::Status => {
            a.push(text("status"));
            a.push(text("--ignore-externals"));
            two = false;
        },
        SvnCommand::Log(l) => {
            a.push(text("log"));
            a.push(text("-v"));
            a.push(text("-r"));
            a.push(text("HEAD:0"));
            a.push(text("-l"));
            a.push(number(*l as u64));
            two = false;
        },
        SvnCommand::LogSearch(p) => {
            a.push(text("log"));
            a.push(text("-v"));
            a.push(text("-r"));
            a.push(text("HEAD:0"));
            a.push(text("--search"));
            a.push(p.clone());
            two = false;
        },
        SvnCommand::LogMore(before, l) => {
            a.push(text("log"));
            a.push(text("-v"));
            a.push(text("-r"));
            let mut range = number(*before - 1);
            push_str(&mut range, ":0");
            a.push(range);
            a.push(text("-l"));
            a.push(number(*l as u64));
            two = false;
        },
        SvnCommand::Diff(p) => {
            a.push(text("diff"));
            a.push(text("--"));
            a.push(p.clone());
            two = false;
        },
        SvnCommand::RevisionDiff(rev) => {
            a.push(text("diff"));
            a.push(text("-c"));
            a.push(number(*rev));
            two = false;
        },
        SvnCommand::RangeDiff(f, t) => {
            a.push(text("diff"));
            a.push(text("-r"));
            let from = if *f > 0 { *f - 1 } else { 0 };
            let mut range = number(from);
            push_str(&mut range, ":");
            let to = number(*t);
            push_str(&mut range, to.as_str());
            a.push(range);
            two = false;
        },
        SvnCommand::Blame(p) => {
            a.push(text("blame"));
            a.push(text("--"));
            a.push(peg(p.as_str()));
            b.push(text("blame"));
            b.push(text("--xml"));
            b.push(text("--"));
            b.push(peg(p.as_str()));
            two = true;
        },
        SvnCommand::FileLog(p, l) => {
            a.push(text("log"));
            a.push(text("-v"));
            a.push(text("-r"));
            a.push(text("HEAD:0"));
            a.push(text("-l"));
            a.push(number(*l as u64));
            a.push(text("--"));
            a.push(peg(p.as_str()));
            two = false;
        },
        SvnCommand::ListFiles => {
            a.push(text("list"));
            a.push(text("-R"));
            a.push(text(".@HEAD"));
            two = false;
        },
        SvnCommand::RepoInfo => {
            a.push(text("info"));
            b.push(text("info"));
            b.push(text("-r"));
            b.push(text("HEAD"));
            two = true;
        },
        SvnCommand::CreatePatch => {
            a.push(text("diff"));
            two = false;
        },
        SvnCommand::Add(ps) => {
            a.push(text("add"));
            a.push(text("--"));
            push_pegged(&mut a, ps);
            two = false;
        },
        SvnCommand::Revert(ps) => {
            a.push(text("revert"));
            a.push(text("-R"));
            a.push(text("--"));
            push_pegged(&mut a, ps);
            two = false;
        },
        SvnCommand::Resolve(p) => {
            a.push(text("resolve"));
            a.push(text("--accept=working"));
            a.push(text("--"));
            a.push(peg(p.as_str()));
            two = false;
        },
        SvnCommand::Update => {
            a.push(text("update"));
            two = false;
        },
        SvnCommand::UpdateToRevision(rev) => {
            a.push(text("update"));
            a.push(text("-r"));
            a.push(number(*rev));
            two = false;
        },
        SvnCommand::ApplyPatch(p) => {
            a.push(text("patch"));
            a.push(p.clone());
            two = false;
        },
        SvnCommand::Commit(m, ps) => {
            a.push(text("commit"));
            a.push(text("--encoding"));
            a.push(text("UTF-8"));
            a.push(text("-m"));
            a.push(m.clone());
            a.push(text("--"));
            push_pegged(&mut a, ps);
            two = false;
        },
    }
    let ghost ta = texts(a@);
    let ghost tb = texts(b@);
    let mut r: Vec<Vec<String>> = Vec::new();
    r.push(a);
    if two {
        r.push(b);
    }
    proof {
        let want = svn_args(cmd_view(*c));
        assert(ta =~= want[0]);
        if two {
            assert(tb =~= want[1]);
        }
    }
    assert(r@.map_values(|a: Vec<String>| texts(a@)) =~= svn_args(cmd_view(*c)));
    r
}

/// The versioned files among the lines `ls` of `svn list -R`: each line
/// without its trailing carriage returns, empty lines and directories
/// (a trailing `/`) left out.
pub open spec fn listed_paths(ls: Seq<Seq<char>>) -> Seq<Seq<char>>
    decreases ls.len(),
{
    if ls.len() == 0 {
        Seq::empty()
    } else {
        let p = listed_paths(ls.drop_last());
        let l = trim_end_char(ls.last(), '\r');
        if l.len() > 0 && l.last() != '/' {
            p.push(l)
        } else {
            p
        }
    }
}

/// The versioned files that `svn list -R` printed as `out` (see
/// [`listed_paths`]).
pub fn listed_files(out: &str) -> (r: Vec<String>)
    ensures
        texts(r@) == listed_paths(lines_of(out@)),
{
    let v = chars_of(out);
    let spans = line_spans(&v);
    let ghost ls = lines_of(v@);
    let mut r: Vec<String> = Vec::new();
    let mut k: usize = 0;
    assert(ls.take(0) =~= Seq::<Seq<char>>::empty());
    while k < spans.len()
        invariant
            k <= spans@.len(),
            v@ == out@,
            ls == lines_of(v@),
            line_spans_of(v@, spans@),
            texts(r@) == listed_paths(ls.take(k as int)),
        decreases spans.len() - k,
    {
        let (s, e) = spans[k];
        assert(v@.subrange(s as int, e as int) == ls[k as int]);
        let e2 = rskip_char(&v, s, e, '\r');
        assert(ls.take(k + 1).drop_last() =~= ls.take(k as int));
        assert(ls.take(k + 1).last() == ls[k as int]);
        if e2 > s && v[e2 - 1] != '/' {
            let t = string_of(&v, s, e2);
            let ghost before = r@;
            r.push(t);
            assert(texts(r@) =~= texts(before).push(t@));
        }
        k = k + 1;
    }
    assert(ls.take(k as int) =~= ls);
    r
}

/// Whether a failed `svn diff` is the one for an unversioned file
/// (E155010), after which the file's own content is shown instead.
pub fn is_unversioned_error(err: &str) -> (b: bool)
    ensures
        b == find(err@, "E155010"@) is Some,
{
    let v = chars_of(err);
    let p = chars_of("E155010");
    assert(v@.subrange(0, v@.len() as int) =~= v@);
    find_at(&v, 0, v.len(), &p).is_some()
}

/// Unversioned files larger than this many bytes are not shown.
pub const MAX_SHOWN_FILE_BYTES: u64 = 2000000;

/// What stands for an unversioned file of `size` bytes: `None` where its
/// content is shown, a placeholder where it is too large.
pub fn content_placeholder(size: u64) -> (r: Option<String>)
    ensures
        (size > MAX_SHOWN_FILE_BYTES) == r is Some,
        r matches Some(t) ==> t@ == "(file too large to display: "@ + decimal(size as nat) + " bytes)"@,
{
    if size > MAX_SHOWN_FILE_BYTES {
        let mut t = text("(file too large to display: ");
        push_decimal(&mut t, size);
        push_str(&mut t, " bytes)");
        Some(t)
    } else {
        None
    }
}

/// The blame of a file from the text output `plain` of `svn blame` and,
/// where that call succeeded, the output `xml` of `svn blame --xml`,
/// whose exact authors replace the truncated ones.
pub fn blame_lines(plain: &[u8], xml: Option<&[u8]>) -> (r: Vec<BlameLine>)
    ensures
        blame_views(r@) == match xml {
            None => spec_parse_blame(plain@),
            Some(x) => spec_merge_blame_authors(
                spec_parse_blame(plain@),
                spec_parse_blame_xml(utf8_lossy(x@)),
            ),
        },
{
    let mut lines = parse_blame(plain);
    match xml {
        Some(x) => {
            let t = utf8_lossy_string(x);
            let authors = parse_blame_xml(t.as_str());
            merge_blame_authors(&mut lines, authors.as_slice());
        },
        None => {},
    }
    lines
}

/// Whether `c` changes the working copy. Such operations run one at a
/// time, in the order they were asked for: an `svn add` must finish
/// before the `svn commit` that follows it.
pub fn changes_working_copy(c: &SvnCommand) -> (b: bool)
    ensures
        b == (c is Add || c is Revert || c is Resolve || c is Update || c is UpdateToRevision
            || c is ApplyPatch || c is Commit),
{
    match c {
        SvnCommand::Add(_) | SvnCommand::Revert(_) | SvnCommand::Resolve(_) | SvnCommand::Update
        | SvnCommand::UpdateToRevision(_) | SvnCommand::ApplyPatch(_) | SvnCommand::Commit(_, _) => true,
        _ => false,
    }
}

/// How the operation `c` reports that it failed with `error`.
pub fn failure(c: &SvnCommand, error: String) -> (r: AsyncSvnNotification)
    ensures
        match *c {
            SvnCommand::CheckInfo => r matches AsyncSvnNotification::Info(Err(x)) && x@ == error@,
            SvnCommand::Version => r matches AsyncSvnNotification::Version(Err(x)) && x@ == error@,
            SvnCommand::Status => r matches AsyncSvnNotification::Status(Err(x)) && x@ == error@,
            SvnCommand::Log(_) => r matches AsyncSvnNotification::Log(Err(x)) && x@ == error@,
            SvnCommand::LogSearch(p) => r matches AsyncSvnNotification::LogSearch { pattern, result: Err(x) }
                && pattern@ == p@ && x@ == error@,
            SvnCommand::LogMore(b, _) => r matches AsyncSvnNotification::LogAppend { before_rev, result: Err(x) }
                && before_rev == b && x@ == error@,
            SvnCommand::Diff(p) => r matches AsyncSvnNotification::Diff { path, result: Err(x) } && path@ == p@
                && x@ == error@,
            SvnCommand::RevisionDiff(rev) => r matches AsyncSvnNotification::RevisionDiff { revision, result: Err(x) }
                && revision == rev && x@ == error@,
            SvnCommand::RangeDiff(f, t) => r matches AsyncSvnNotification::RangeDiff { from, to, result: Err(x) }
                && from == f && to == t && x@ == error@,
            SvnCommand::Blame(p) => r matches AsyncSvnNotification::Blame { path, result: Err(x) } && path@ == p@
                && x@ == error@,
            SvnCommand::FileLog(p, _) => r matches AsyncSvnNotification::FileLog { path, result: Err(x) }
                && path@ == p@ && x@ == error@,
            SvnCommand::ListFiles => r matches AsyncSvnNotification::ListFiles(Err(x)) && x@ == error@,
            SvnCommand::RepoInfo => r matches AsyncSvnNotification::RepoInfo(Err(x)) && x@ == error@,
            SvnCommand::CreatePatch => r matches AsyncSvnNotification::CreatePatch(Err(x)) && x@ == error@,
            SvnCommand::Add(_) => r matches AsyncSvnNotification::Add(Err(x)) && x@ == error@,
            SvnCommand::Revert(_) => r matches AsyncSvnNotification::Revert(Err(x)) && x@ == error@,
            SvnCommand::Resolve(_) => r matches AsyncSvnNotification::Resolve(Err(x)) && x@ == error@,
            SvnCommand::Update => r matches AsyncSvnNotification::Update(Err(x)) && x@ == error@,
            SvnCommand::UpdateToRevision(_) => r matches AsyncSvnNotification::UpdateToRevision(Err(x))
                && x@ == error@,
            SvnCommand::ApplyPatch(_) => r matches AsyncSvnNotification::ApplyPatch(Err(x)) && x@ == error@,
            SvnCommand::Commit(_, _) => r matches AsyncSvnNotification::Commit(Err(x)) && x@ == error@,
        },
{
    match c {
        SvnCommand::CheckInfo => AsyncSvnNotification::Info(Err(error)),
        SvnCommand::Version => AsyncSvnNotification::Version(Err(error)),
        SvnCommand::Status => AsyncSvnNotification::Status(Err(error)),
        SvnCommand::Log(_) => AsyncSvnNotification::Log(Err(error)),
        SvnCommand::LogSearch(p) => AsyncSvnNotification::LogSearch { pattern: p.clone(), result: Err(error) },
        SvnCommand::LogMore(b, _) => AsyncSvnNotification::LogAppend { before_rev: *b, result: Err(error) },
        SvnCommand::Diff(p) => AsyncSvnNotification::Diff { path: p.clone(), result: Err(error) },
        SvnCommand::RevisionDiff(rev) => AsyncSvnNotification::RevisionDiff { revision: *rev, result: Err(error) },
        SvnCommand::RangeDiff(f, t) => AsyncSvnNotification::RangeDiff { from: *f, to: *t, result: Err(error) },
        SvnCommand::Blame(p) => AsyncSvnNotification::Blame { path: p.clone(), result: Err(error) },
        SvnCommand::FileLog(p, _) => AsyncSvnNotification::FileLog { path: p.clone(), result: Err(error) },
        SvnCommand::ListFiles => AsyncSvnNotification::ListFiles(Err(error)),
        SvnCommand::RepoInfo => AsyncSvnNotification::RepoInfo(Err(error)),
        SvnCommand::CreatePatch => AsyncSvnNotification::CreatePatch(Err(error)),
        SvnCommand::Add(_) => AsyncSvnNotification::Add(Err(error)),
        SvnCommand::Revert(_) => AsyncSvnNotification::Revert(Err(error)),
        SvnCommand::Resolve(_) => AsyncSvnNotification::Resolve(Err(error)),
        SvnCommand::Update => AsyncSvnNotification::Update(Err(error)),
        SvnCommand::UpdateToRevision(_) => AsyncSvnNotification::UpdateToRevision(Err(error)),
        SvnCommand::ApplyPatch(_) => AsyncSvnNotification::ApplyPatch(Err(error)),
        SvnCommand::Commit(_, _) => AsyncSvnNotification::Commit(Err(error)),
    }
}

} // verus!
