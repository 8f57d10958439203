//! Repo info popup content (global `i`): local `svn info`, the remote
//! HEAD comparison, and a working-copy change summary, as lines of text
//! spans, each span with the role that decides how it is shown.

use vstd::prelude::*;
use crate::models::SvnInfo;
use crate::spans::{copy_span, lines_view, push_line, span, span_view, text_span, InfoSpan, Role};
use crate::text::{decimal, push_char, push_decimal, push_str};

verus! {

/// `n` spaces.
pub open spec fn spaces(n: nat) -> Seq<char> {
    Seq::new(n, |i: int| ' ')
}

/// A field label as shown: indented by two and padded to 15 chars.
pub open spec fn padded_label(label: Seq<char>) -> Seq<char> {
    "  "@ + label + if label.len() < 15 {
        spaces((15 - label.len()) as nat)
    } else {
        Seq::empty()
    }
}

/// `r` and the revision number.
pub open spec fn rev_text(n: nat) -> Seq<char> {
    "r"@ + decimal(n)
}

/// A `label: value` line.
pub open spec fn field_line(label: Seq<char>, value: Seq<char>, role: Role) -> Seq<(Seq<char>, Role)> {
    seq![(padded_label(label), Role::Dim), (value, role)]
}

/// A `label: rN by author (date)` line.
pub open spec fn changed_line(label: Seq<char>, rev: nat, author: Seq<char>, date: Seq<char>) -> Seq<(Seq<char>, Role)> {
    seq![
        (padded_label(label), Role::Dim),
        (rev_text(rev), Role::Revision),
        (" by "@, Role::Dim),
        (author, Role::Author),
        (" ("@ + date + ")"@, Role::Dim),
    ]
}

/// The working copy section.
pub open spec fn wc_section(local: SvnInfo) -> Seq<Seq<(Seq<char>, Role)>> {
    seq![
        seq![("Working copy"@, Role::Header)],
        field_line("Path:"@, local.wc_root@, Role::Text),
        field_line("URL:"@, local.url@, Role::Text),
        field_line("Branch:"@, local.spec_branch_label(), Role::Author),
        field_line("Revision:"@, rev_text(local.revision as nat), Role::Revision),
    ] + if local.last_rev > 0 {
        seq![changed_line("Last changed:"@, local.last_rev as nat, local.last_author@, local.last_date@)]
    } else {
        Seq::empty()
    }
}

/// The HEAD line(s) of the repository section.
pub open spec fn head_lines(local: SvnInfo, head: Option<SvnInfo>) -> Seq<Seq<(Seq<char>, Role)>> {
    match head {
        Some(h) => {
            let state = if h.revision > local.revision {
                (
                    "  (working copy is "@ + decimal((h.revision - local.revision) as nat)
                        + " revisions behind)"@,
                    Role::Behind,
                )
            } else {
                ("  (up to date)"@, Role::UpToDate)
            };
            seq![
                seq![
                    (padded_label("HEAD:"@), Role::Dim),
                    (rev_text(h.revision as nat), Role::Revision),
                    state,
                ],
            ] + if h.last_rev > 0 {
                seq![changed_line("Last commit:"@, h.last_rev as nat, h.last_author@, h.last_date@)]
            } else {
                Seq::empty()
            }
        },
        None => seq![field_line("HEAD:"@, "unknown (repository unreachable)"@, Role::Error)],
    }
}

/// The repository section.
pub open spec fn repo_section(local: SvnInfo, head: Option<SvnInfo>) -> Seq<Seq<(Seq<char>, Role)>> {
    seq![
        Seq::empty(),
        seq![("Repository"@, Role::Header)],
        field_line("Root:"@, local.repo_root@, Role::Text),
        field_line("UUID:"@, local.uuid@, Role::Text),
    ] + head_lines(local, head)
}

/// The number of changed files with status `c`.
pub open spec fn count_status(files: Seq<(char, Seq<char>)>, c: char) -> nat
    decreases files.len(),
{
    if files.len() == 0 {
        0
    } else {
        count_status(files.drop_last(), c) + if files.last().0 == c {
            1nat
        } else {
            0nat
        }
    }
}

/// The status chars with a name in the summary, and their names.
pub open spec fn status_labels() -> Seq<(char, Seq<char>)> {
    seq![
        ('M', "modified"@),
        ('A', "added"@),
        ('D', "deleted"@),
        ('C', "conflicted"@),
        ('!', "missing"@),
        ('?', "unversioned"@),
    ]
}

/// The named parts of the summary for the labels `labels`, in order.
pub open spec fn named_parts(files: Seq<(char, Seq<char>)>, labels: Seq<(char, Seq<char>)>) -> Seq<(Seq<char>, Role)>
    decreases labels.len(),
{
    if labels.len() == 0 {
        Seq::empty()
    } else {
        let c = labels.last().0;
        let name = labels.last().1;
        let n = count_status(files, c);
        named_parts(files, labels.drop_last()) + if n > 0 {
            seq![(decimal(n).push(' ') + name, Role::Status(c))]
        } else {
            Seq::empty()
        }
    }
}

/// The number of changed files whose status has a name.
pub open spec fn named_count(files: Seq<(char, Seq<char>)>, labels: Seq<(char, Seq<char>)>) -> nat
    decreases labels.len(),
{
    if labels.len() == 0 {
        0
    } else {
        named_count(files, labels.drop_last()) + count_status(files, labels.last().0)
    }
}

/// The parts of the summary: the named counts, then the other files.
pub open spec fn summary_parts(files: Seq<(char, Seq<char>)>) -> Seq<(Seq<char>, Role)> {
    let known = named_count(files, status_labels());
    named_parts(files, status_labels()) + if files.len() > known {
        seq![(decimal((files.len() - known) as nat) + " other"@, Role::Text)]
    } else {
        Seq::empty()
    }
}

/// The parts joined by dim commas.
pub open spec fn joined(parts: Seq<(Seq<char>, Role)>) -> Seq<(Seq<char>, Role)>
    decreases parts.len(),
{
    if parts.len() == 0 {
        Seq::empty()
    } else if parts.len() == 1 {
        parts
    } else {
        joined(parts.drop_last()) + seq![(", "@, Role::Dim), parts.last()]
    }
}

/// The change summary line.
pub open spec fn summary_line(files: Seq<(char, Seq<char>)>) -> Seq<(Seq<char>, Role)> {
    let parts = summary_parts(files);
    if parts.len() == 0 {
        seq![("  clean"@, Role::UpToDate)]
    } else {
        seq![("  "@, Role::Plain)] + joined(parts)
    }
}

proof fn lemma_named_parts_empty(files: Seq<(char, Seq<char>)>, k: int)
    requires
        0 <= k <= 6,
    ensures
        (named_parts(files, status_labels().take(k)).len() == 0) <==> named_count(files, status_labels().take(k)) == 0,
        files.len() == 0 ==> named_count(files, status_labels().take(k)) == 0,
    decreases k,
{
    let t = status_labels().take(k);
    if k > 0 {
        lemma_named_parts_empty(files, k - 1);
        assert(t.drop_last() =~= status_labels().take(k - 1));
    } else {
        assert(t =~= Seq::<(char, Seq<char>)>::empty());
    }
}

proof fn lemma_named_parts_has(files: Seq<(char, Seq<char>)>, k: int, j: int)
    requires
        0 <= j < k <= 6,
        count_status(files, status_labels()[j].0) > 0,
    ensures
        named_parts(files, status_labels().take(k)).contains(
            (
                decimal(count_status(files, status_labels()[j].0)).push(' ') + status_labels()[j].1,
                Role::Status(status_labels()[j].0),
            ),
        ),
    decreases k,
{
    let t = status_labels().take(k);
    assert(t.drop_last() =~= status_labels().take(k - 1));
    assert(t.last() == status_labels()[k - 1]);
    let prev = named_parts(files, status_labels().take(k - 1));
    let x = (
        decimal(count_status(files, status_labels()[j].0)).push(' ') + status_labels()[j].1,
        Role::Status(status_labels()[j].0),
    );
    if j < k - 1 {
        lemma_named_parts_has(files, k - 1, j);
        let i = choose|i: int| 0 <= i < prev.len() && prev[i] == x;
        let n = count_status(files, t.last().0);
        if n > 0 {
            assert((prev + seq![(decimal(n).push(' ') + t.last().1, Role::Status(t.last().0))])[i] == x);
        } else {
            assert((prev + Seq::<(Seq<char>, Role)>::empty())[i] == x);
        }
    } else {
        assert((prev + seq![x])[prev.len() as int] == x);
    }
}

/// The part of the change summary for status `c` named `name`, when some
/// changed file has that status: its count and its name.
pub open spec fn count_part(files: Seq<(char, Seq<char>)>, c: char, name: Seq<char>) -> (Seq<char>, Role) {
    (decimal(count_status(files, c)) + name, Role::Status(c))
}

/// The change summary names each count by its status: when some changed
/// file has status M, A, D, C, ! or ?, the summary holds the number of
/// files with that status followed by " modified", " added", " deleted",
/// " conflicted", " missing" or " unversioned" respectively.
pub proof fn lemma_summary_names_counts(files: Seq<(char, Seq<char>)>)
    ensures
        count_status(files, 'M') > 0 ==> summary_parts(files).contains(count_part(files, 'M', " modified"@)),
        count_status(files, 'A') > 0 ==> summary_parts(files).contains(count_part(files, 'A', " added"@)),
        count_status(files, 'D') > 0 ==> summary_parts(files).contains(count_part(files, 'D', " deleted"@)),
        count_status(files, 'C') > 0 ==> summary_parts(files).contains(count_part(files, 'C', " conflicted"@)),
        count_status(files, '!') > 0 ==> summary_parts(files).contains(count_part(files, '!', " missing"@)),
        count_status(files, '?') > 0 ==> summary_parts(files).contains(count_part(files, '?', " unversioned"@)),
{
    reveal_strlit(" modified");
    reveal_strlit(" added");
    reveal_strlit(" deleted");
    reveal_strlit(" conflicted");
    reveal_strlit(" missing");
    reveal_strlit(" unversioned");
    reveal_strlit("modified");
    reveal_strlit("added");
    reveal_strlit("deleted");
    reveal_strlit("conflicted");
    reveal_strlit("missing");
    reveal_strlit("unversioned");
    let np = named_parts(files, status_labels());
    assert(status_labels().take(6) =~= status_labels());
    let known = named_count(files, status_labels());
    let sp = summary_parts(files);
    assert forall|j: int| 0 <= j < 6 && count_status(files, #[trigger] status_labels()[j].0) > 0 implies sp.contains(
        (
            decimal(count_status(files, status_labels()[j].0)).push(' ') + status_labels()[j].1,
            Role::Status(status_labels()[j].0),
        ),
    ) by {
        lemma_named_parts_has(files, 6, j);
        let i = choose|i: int| 0 <= i < np.len() && np[i] == (
            decimal(count_status(files, status_labels()[j].0)).push(' ') + status_labels()[j].1,
            Role::Status(status_labels()[j].0),
        );
        if files.len() > known {
            assert((np + seq![(decimal((files.len() - known) as nat) + " other"@, Role::Text)])[i] == np[i]);
        } else {
            assert((np + Seq::<(Seq<char>, Role)>::empty())[i] == np[i]);
        }
    }
    let ls = status_labels();
    assert(ls[0] == ('M', "modified"@));
    assert(ls[1] == ('A', "added"@));
    assert(ls[2] == ('D', "deleted"@));
    assert(ls[3] == ('C', "conflicted"@));
    assert(ls[4] == ('!', "missing"@));
    assert(ls[5] == ('?', "unversioned"@));
    assert(seq![' '] + "modified"@ =~= " modified"@);
    lemma_space_name(decimal(count_status(files, 'M')), "modified"@, " modified"@);
    assert(seq![' '] + "added"@ =~= " added"@);
    lemma_space_name(decimal(count_status(files, 'A')), "added"@, " added"@);
    assert(seq![' '] + "deleted"@ =~= " deleted"@);
    lemma_space_name(decimal(count_status(files, 'D')), "deleted"@, " deleted"@);
    assert(seq![' '] + "conflicted"@ =~= " conflicted"@);
    lemma_space_name(decimal(count_status(files, 'C')), "conflicted"@, " conflicted"@);
    assert(seq![' '] + "missing"@ =~= " missing"@);
    lemma_space_name(decimal(count_status(files, '!')), "missing"@, " missing"@);
    assert(seq![' '] + "unversioned"@ =~= " unversioned"@);
    lemma_space_name(decimal(count_status(files, '?')), "unversioned"@, " unversioned"@);
    if count_status(files, 'M') > 0 { assert(count_status(files, ls[0].0) > 0); }
    if count_status(files, 'A') > 0 { assert(count_status(files, ls[1].0) > 0); }
    if count_status(files, 'D') > 0 { assert(count_status(files, ls[2].0) > 0); }
    if count_status(files, 'C') > 0 { assert(count_status(files, ls[3].0) > 0); }
    if count_status(files, '!') > 0 { assert(count_status(files, ls[4].0) > 0); }
    if count_status(files, '?') > 0 { assert(count_status(files, ls[5].0) > 0); }
}

proof fn lemma_space_name(d: Seq<char>, w: Seq<char>, sw: Seq<char>)
    requires
        sw == seq![' '] + w,
    ensures
        d.push(' ') + w == d + sw,
{
    assert(d.push(' ') + w =~= d + sw);
}

/// The change summary: `  clean` exactly when nothing changed; else the
/// counts by status, named in the label order and joined by commas, then
/// the count of the other changes, if any. The staged count is listed
/// exactly when something is staged.
pub proof fn lemma_change_summary(files: Seq<(char, Seq<char>)>, staged: nat)
    ensures
        (summary_line(files) == seq![("  clean"@, Role::UpToDate)]) <==> files.len() == 0,
        files.len() > 0 ==> summary_line(files) == seq![("  "@, Role::Plain)] + joined(summary_parts(files)),
        files.len() > 0 ==> summary_parts(files).len() > 0,
        changes_section(files, staged).len() == 3 + (if staged > 0 { 1int } else { 0 }),
        staged > 0 ==> changes_section(files, staged).last() == seq![
            ("  Staged for commit: "@, Role::Dim),
            (decimal(staged), Role::Staged),
        ],
{
    lemma_named_parts_empty(files, 6);
    assert(status_labels().take(6) =~= status_labels());
    let known = named_count(files, status_labels());
    let parts = summary_parts(files);
    if files.len() > 0 {
        if files.len() > known {
            assert(parts.len() > 0);
        } else {
            assert(named_parts(files, status_labels()).len() > 0);
        }
        let line = summary_line(files);
        assert(line[0] == ("  "@, Role::Plain));
        if line == seq![("  clean"@, Role::UpToDate)] {
            assert(line[0].1 == Role::UpToDate);
        }
    } else {
        assert(parts =~= Seq::<(Seq<char>, Role)>::empty());
    }
}

/// The working copy changes section.
pub open spec fn changes_section(files: Seq<(char, Seq<char>)>, staged: nat) -> Seq<Seq<(Seq<char>, Role)>> {
    seq![Seq::empty(), seq![("Working copy changes"@, Role::Header)], summary_line(files)] + if staged > 0 {
        seq![seq![("  Staged for commit: "@, Role::Dim), (decimal(staged), Role::Staged)]]
    } else {
        Seq::empty()
    }
}

/// The whole repo info.
pub open spec fn repo_info(
    local: SvnInfo,
    head: Option<SvnInfo>,
    files: Seq<(char, Seq<char>)>,
    staged: nat,
) -> Seq<Seq<(Seq<char>, Role)>> {
    wc_section(local) + repo_section(local, head) + changes_section(files, staged)
}

/// The (status, path) pairs by value.
pub open spec fn file_views(v: Seq<(char, String)>) -> Seq<(char, Seq<char>)> {
    v.map_values(|x: (char, String)| (x.0, x.1@))
}

/// `padded_label(label)`, computed.
fn pad_label(label: &str) -> (r: String)
    ensures
        r@ == padded_label(label@),
{
    let mut s = "  ".to_owned();
    push_str(&mut s, label);
    let n = crate::text::chars_of(label).len();
    let mut k = n;
    while k < 15
        invariant
            n == label@.len(),
            n <= k <= 15 || (n > 15 && k == n),
            s@ == "  "@ + label@ + spaces((k - n) as nat),
        decreases 15 - k,
    {
        let ghost before = s@;
        push_char(&mut s, ' ');
        assert(spaces((k + 1 - n) as nat) =~= spaces((k - n) as nat).push(' '));
        assert(s@ =~= "  "@ + label@ + spaces((k + 1 - n) as nat));
        k = k + 1;
    }
    assert(n >= 15 ==> spaces((k - n) as nat) =~= Seq::<char>::empty());
    assert(s@ =~= padded_label(label@));
    s
}

/// `rev_text(n)`, computed.
fn rev_string(n: u64) -> (r: String)
    ensures
        r@ == rev_text(n as nat),
{
    let mut s = "r".to_owned();
    push_decimal(&mut s, n);
    s
}

fn field(label: &str, value: String, role: Role) -> (l: Vec<InfoSpan>)
    ensures
        l@.map_values(|s: InfoSpan| span_view(s)) == field_line(label@, value@, role),
{
    let l = vec![span(pad_label(label), Role::Dim), span(value, role)];
    assert(l@.map_values(|s: InfoSpan| span_view(s)) =~= field_line(label@, value@, role));
    l
}

fn changed(label: &str, rev: u64, author: &String, date: &String) -> (l: Vec<InfoSpan>)
    ensures
        l@.map_values(|s: InfoSpan| span_view(s)) == changed_line(label@, rev as nat, author@, date@),
{
    let mut d = " (".to_owned();
    push_str(&mut d, date.as_str());
    push_str(&mut d, ")");
    let l = vec![
        span(pad_label(label), Role::Dim),
        span(rev_string(rev), Role::Revision),
        text_span(" by ", Role::Dim),
        span(author.clone(), Role::Author),
        span(d, Role::Dim),
    ];
    assert(l@.map_values(|s: InfoSpan| span_view(s)) =~= changed_line(label@, rev as nat, author@, date@));
    l
}

/// The number of files with status `c`.
fn count_of(files: &[(char, String)], c: char) -> (n: usize)
    ensures
        n == count_status(file_views(files@), c),
{
    let mut n: usize = 0;
    let mut i: usize = 0;
    while i < files.len()
        invariant
            i <= files@.len(),
            n <= i,
            n == count_status(file_views(files@).take(i as int), c),
        decreases files.len() - i,
    {
        assert(file_views(files@).take(i + 1).drop_last() =~= file_views(files@).take(i as int));
        if files[i].0 == c {
            n = n + 1;
        }
        i = i + 1;
    }
    assert(file_views(files@).take(i as int) =~= file_views(files@));
    n
}

proof fn lemma_count_bound(files: Seq<(char, Seq<char>)>, labels: Seq<(char, Seq<char>)>)
    requires
        forall|a: int, b: int| 0 <= a < b < labels.len() ==> labels[a].0 != labels[b].0,
    ensures
        named_count(files, labels) <= files.len(),
    decreases files.len(),
{
    if files.len() > 0 {
        lemma_count_bound(files.drop_last(), labels);
        lemma_count_step(files, labels);
    } else {
        lemma_count_empty(files, labels);
    }
}

proof fn lemma_count_empty(files: Seq<(char, Seq<char>)>, labels: Seq<(char, Seq<char>)>)
    requires
        files.len() == 0,
    ensures
        named_count(files, labels) == 0,
    decreases labels.len(),
{
    if labels.len() > 0 {
        lemma_count_empty(files, labels.drop_last());
    }
}

/// Adding a file adds at most one to the named count.
proof fn lemma_count_step(files: Seq<(char, Seq<char>)>, labels: Seq<(char, Seq<char>)>)
    requires
        files.len() > 0,
        forall|a: int, b: int| 0 <= a < b < labels.len() ==> labels[a].0 != labels[b].0,
    ensures
        named_count(files, labels) <= named_count(files.drop_last(), labels) + 1,
        (forall|a: int| 0 <= a < labels.len() ==> labels[a].0 != files.last().0) ==> named_count(files, labels) == named_count(files.drop_last(), labels),
    decreases labels.len(),
{
    if labels.len() > 0 {
        let l = labels.drop_last();
        assert forall|a: int, b: int| 0 <= a < b < l.len() implies l[a].0 != l[b].0 by {
            assert(l[a] == labels[a] && l[b] == labels[b]);
        }
        lemma_count_step(files, l);
        if forall|a: int| 0 <= a < labels.len() ==> labels[a].0 != files.last().0 {
            assert forall|a: int| 0 <= a < l.len() implies l[a].0 != files.last().0 by {
                assert(l[a] == labels[a]);
            }
        }
        if labels.last().0 == files.last().0 {
            assert forall|a: int| 0 <= a < l.len() implies l[a].0 != files.last().0 by {
                assert(l[a] == labels[a]);
                assert(labels[a].0 != labels[labels.len() - 1].0);
            }
        }
    }
}

/// The lines of the working copy section.
fn wc_lines(local: &SvnInfo) -> (out: Vec<Vec<InfoSpan>>)
    ensures
        lines_view(out@) == wc_section(*local),
{
    let mut out: Vec<Vec<InfoSpan>> = Vec::new();
    push_line(&mut out, vec![text_span("Working copy", Role::Header)]);
    push_line(&mut out, field("Path:", local.wc_root.clone(), Role::Text));
    push_line(&mut out, field("URL:", local.url.clone(), Role::Text));
    push_line(&mut out, field("Branch:", local.branch_label().to_owned(), Role::Author));
    push_line(&mut out, field("Revision:", rev_string(local.revision), Role::Revision));
    if local.last_rev > 0 {
        push_line(&mut out, changed("Last changed:", local.last_rev, &local.last_author, &local.last_date));
    }
    assert(lines_view(out@) =~~= wc_section(*local));
    out
}

/// The lines of the repository section.
fn repo_lines(local: &SvnInfo, head: Option<&SvnInfo>) -> (out: Vec<Vec<InfoSpan>>)
    ensures
        lines_view(out@) == repo_section(
            *local,
            match head {
                Some(h) => Some(*h),
                None => None,
            },
        ),
{
    let ghost hv = match head {
        Some(h) => Some(*h),
        None => None,
    };
    let mut out: Vec<Vec<InfoSpan>> = Vec::new();
    push_line(&mut out, Vec::new());
    push_line(&mut out, vec![text_span("Repository", Role::Header)]);
    push_line(&mut out, field("Root:", local.repo_root.clone(), Role::Text));
    push_line(&mut out, field("UUID:", local.uuid.clone(), Role::Text));
    match head {
        Some(h) => {
            let state = if h.revision > local.revision {
                let mut t = "  (working copy is ".to_owned();
                push_decimal(&mut t, h.revision - local.revision);
                push_str(&mut t, " revisions behind)");
                span(t, Role::Behind)
            } else {
                text_span("  (up to date)", Role::UpToDate)
            };
            let l = vec![span(pad_label("HEAD:"), Role::Dim), span(rev_string(h.revision), Role::Revision), state];
            push_line(&mut out, l);
            if h.last_rev > 0 {
                push_line(&mut out, changed("Last commit:", h.last_rev, &h.last_author, &h.last_date));
            }
        },
        None => {
            push_line(&mut out, field("HEAD:", "unknown (repository unreachable)".to_owned(), Role::Error));
        },
    }
    assert(lines_view(out@) =~~= repo_section(*local, hv));
    out
}

/// The parts of the change summary.
fn summary_spans(changed_files: &[(char, String)]) -> (parts: Vec<InfoSpan>)
    ensures
        parts@.map_values(|s: InfoSpan| span_view(s)) == summary_parts(file_views(changed_files@)),
{
    let ghost files = file_views(changed_files@);
    let labels: [(char, &str); 6] = [
        ('M', "modified"),
        ('A', "added"),
        ('D', "deleted"),
        ('C', "conflicted"),
        ('!', "missing"),
        ('?', "unversioned"),
    ];
    let ghost lv = labels@.map_values(|x: (char, &str)| (x.0, x.1@));
    assert(lv =~= status_labels());
    let total = changed_files.len();
    let mut parts: Vec<InfoSpan> = Vec::new();
    let mut known: usize = 0;
    let mut k: usize = 0;
    while k < 6
        invariant
            k <= 6,
            files.len() == total,
            lv == labels@.map_values(|x: (char, &str)| (x.0, x.1@)),
            lv == status_labels(),
            files == file_views(changed_files@),
            parts@.map_values(|s: InfoSpan| span_view(s)) == named_parts(files, lv.take(k as int)),
            known == named_count(files, lv.take(k as int)),
            known <= files.len(),
        decreases 6 - k,
    {
        let (c, name) = labels[k];
        assert(lv.take(k + 1).drop_last() =~= lv.take(k as int));
        assert(lv.take(k + 1).last() == (c, name@));
        let n = count_of(changed_files, c);
        proof {
            let t = lv.take(k + 1);
            assert forall|a: int, b: int| 0 <= a < b < t.len() implies t[a].0 != t[b].0 by {
                assert(t[a] == status_labels()[a] && t[b] == status_labels()[b]);
            }
            lemma_count_bound(files, t);
            assert(named_count(files, t) == known + n);
        }
        if n > 0 {
            let mut t = String::new();
            push_decimal(&mut t, n as u64);
            push_char(&mut t, ' ');
            push_str(&mut t, name);
            let ghost before = parts@.map_values(|s: InfoSpan| span_view(s));
            parts.push(span(t, Role::Status(c)));
            assert(parts@.map_values(|s: InfoSpan| span_view(s)) =~= before.push((decimal(n as nat).push(' ') + name@, Role::Status(c))));
        }
        known = known + n;
        k = k + 1;
    }
    assert(lv.take(6) =~= lv);
    if total > known {
        let mut t = String::new();
        push_decimal(&mut t, (total - known) as u64);
        push_str(&mut t, " other");
        let ghost before = parts@.map_values(|s: InfoSpan| span_view(s));
        parts.push(span(t, Role::Text));
        assert(parts@.map_values(|s: InfoSpan| span_view(s)) =~= before.push((decimal((total - known) as nat) + " other"@, Role::Text)));
    }
    assert(parts@.map_values(|s: InfoSpan| span_view(s)) =~= summary_parts(files));
    parts
}

/// The lines of the working copy changes section.
fn changes_lines(changed_files: &[(char, String)], staged_count: usize) -> (out: Vec<Vec<InfoSpan>>)
    ensures
        lines_view(out@) == changes_section(file_views(changed_files@), staged_count as nat),
{
    let ghost files = file_views(changed_files@);
    let mut out: Vec<Vec<InfoSpan>> = Vec::new();
    push_line(&mut out, Vec::new());
    push_line(&mut out, vec![text_span("Working copy changes", Role::Header)]);
    let parts = summary_spans(changed_files);
    let ghost pv = parts@.map_values(|s: InfoSpan| span_view(s));
    if parts.len() == 0 {
        push_line(&mut out, vec![text_span("  clean", Role::UpToDate)]);
    } else {
        let mut line: Vec<InfoSpan> = vec![text_span("  ", Role::Plain)];
        assert(line@.map_values(|s: InfoSpan| span_view(s)) =~= seq![("  "@, Role::Plain)] + joined(pv.take(0)));
        let mut i: usize = 0;
        while i < parts.len()
            invariant
                i <= parts@.len(),
                pv == parts@.map_values(|s: InfoSpan| span_view(s)),
                line@.map_values(|s: InfoSpan| span_view(s)) == seq![("  "@, Role::Plain)] + joined(pv.take(i as int)),
            decreases parts.len() - i,
        {
            let ghost before = line@.map_values(|s: InfoSpan| span_view(s));
            assert(pv.take(i + 1).drop_last() =~= pv.take(i as int));
            assert(pv.take(i + 1).last() == pv[i as int]);
            if i > 0 {
                line.push(text_span(", ", Role::Dim));
                line.push(copy_span(&parts[i]));
                assert(line@.map_values(|s: InfoSpan| span_view(s)) =~= before + seq![(", "@, Role::Dim), pv[i as int]]);
            } else {
                line.push(copy_span(&parts[i]));
                assert(pv.take(1) =~= seq![pv[0]]);
                assert(line@.map_values(|s: InfoSpan| span_view(s)) =~= before + seq![pv[0]]);
            }
            i = i + 1;
        }
        assert(pv.take(pv.len() as int) =~= pv);
        push_line(&mut out, line);
    }
    if staged_count > 0 {
        let mut t = String::new();
        push_decimal(&mut t, staged_count as u64);
        push_line(&mut out, vec![text_span("  Staged for commit: ", Role::Dim), span(t, Role::Staged)]);
    }
    assert(lines_view(out@) =~~= changes_section(files, staged_count as nat));
    out
}

/// Compose the repo-info popup lines. `changed_files` is the status
/// tree's `(status char, path)` list and `staged_count` its commit-set
/// size; the function takes those two values instead of the component
/// so it stays a pure formatter.
pub fn repo_info_lines(
    local: &SvnInfo,
    head: Option<&SvnInfo>,
    changed_files: &[(char, String)],
    staged_count: usize,
) -> (r: Vec<Vec<InfoSpan>>)
    ensures
        lines_view(r@) == repo_info(
            *local,
            match head {
                Some(h) => Some(*h),
                None => None,
            },
            file_views(changed_files@),
            staged_count as nat,
        ),
{
    let mut out = wc_lines(local);
    let mut repo = repo_lines(local, head);
    let mut changes = changes_lines(changed_files, staged_count);
    let ghost a = out@;
    let ghost b = repo@;
    let ghost c = changes@;
    out.append(&mut repo);
    out.append(&mut changes);
    assert(out@ =~= a + b + c);
    assert(lines_view(out@) =~= lines_view(a) + lines_view(b) + lines_view(c));
    out
}

} // verus!
