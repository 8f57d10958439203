use std::time::{Duration, Instant};
use svnui::models::{BlameLine, DiffLineKind};
use svnui::parser::{
    merge_blame_authors, parse_blame, parse_blame_xml, parse_diff, parse_hunk, parse_info, parse_log,
    parse_new_file_content, parse_status, parse_version, set_dir_flags, version_at_least, MIN_SVN_VERSION,
};



    #[test]
    fn test_parse_version() {
        assert_eq!(parse_version("1.14.5"), Some((1, 14, 5)));
        assert_eq!(parse_version("1.14.5 (r1876290)\n"), Some((1, 14, 5)));
        assert_eq!(parse_version("1.8"), Some((1, 8, 0)));
        assert_eq!(parse_version("???"), None);
        assert_eq!(parse_version(""), None);
        assert!(version_at_least((1, 14, 5), MIN_SVN_VERSION));
        assert!(version_at_least(
            MIN_SVN_VERSION,
            MIN_SVN_VERSION
        ));
        assert!(!version_at_least((1, 7, 99), MIN_SVN_VERSION));
        assert!(version_at_least((2, 0, 0), MIN_SVN_VERSION));
    }

    #[test]
    fn test_parse_info() {
        let out = "\
Path: .
Working Copy Root Path: /home/user/wc
URL: https://svn.example.com/repos/proj/branches/feature-x
Relative URL: ^/branches/feature-x
Repository Root: https://svn.example.com/repos/proj
Repository UUID: 12345678-1234-1234-1234-123456789012
Revision: 1234
Node Kind: directory
Schedule: normal
Last Changed Author: alice
Last Changed Rev: 1230
Last Changed Date: 2026-01-01 10:00:00 +0000 (Thu, 01 Jan 2026)
";
        let info = parse_info(out);
        assert_eq!(
            info.url,
            "https://svn.example.com/repos/proj/branches/feature-x"
        );
        assert_eq!(info.branch, "branches/feature-x");
        assert_eq!(info.revision, 1234);
        assert_eq!(info.wc_root, "/home/user/wc");
        assert_eq!(info.branch_label(), "branches/feature-x");
        assert_eq!(info.repo_root, "https://svn.example.com/repos/proj");
        assert_eq!(info.uuid, "12345678-1234-1234-1234-123456789012");
        assert_eq!(info.last_author, "alice");
        assert_eq!(info.last_rev, 1230);
        assert!(
            info.last_date.starts_with("2026-01-01"),
            "{}",
            info.last_date
        );
    }

    #[test]
    fn test_parse_info_trunk_and_missing_relative_url() {
        let out = "URL: file:///tmp/repo/trunk\nRelative URL: ^/trunk\nRevision: 2\n";
        let info = parse_info(out);
        assert_eq!(info.branch, "trunk");
        // old svn without Relative URL: branch stays empty, label = URL
        let old = parse_info("URL: file:///tmp/repo/trunk\nRevision: 7\n");
        assert_eq!(old.branch, "");
        assert_eq!(old.revision, 7);
        assert_eq!(old.branch_label(), "file:///tmp/repo/trunk");
    }

    #[test]
    fn test_parse_status() {
        let out = "M       Cargo.toml\n?       newfile.txt\nA  +    src/foo.rs\n";
        let entries = parse_status(out);
        assert_eq!(entries.len(), 3);
        assert_eq!(entries[0].status, 'M');
        assert_eq!(entries[0].path, "Cargo.toml");
        assert_eq!(entries[1].status, '?');
        assert_eq!(entries[1].path, "newfile.txt");
        assert_eq!(entries[2].status, 'A');
        assert_eq!(entries[2].path, "src/foo.rs");
    }

    #[test]
    fn test_parse_status_missing_dir() {
        // path with missing dir: is_dir should be false without panicking
        let entries = parse_status("!       gone/dir\n");
        assert_eq!(entries.len(), 1);
        assert_eq!(entries[0].status, '!');
        assert!(!entries[0].is_dir);
    }

    #[test]
    fn test_parse_status_skips_tree_conflict_continuation() {
        // Real svn output for a tree conflict: the description continues on
        // an indented line starting with '>'
        let out = "A  +  C d\n      >   local dir edit, incoming dir delete upon update\n";
        let entries = parse_status(out);
        assert_eq!(entries.len(), 1, "{entries:?}");
        assert_eq!(entries[0].status, 'A');
        assert_eq!(entries[0].tree_conflict, 'C');
        assert_eq!(entries[0].path, "d");
    }

    #[test]
    fn test_parse_status_path_with_leading_space() {
        // The path starts at byte 8 and may itself begin with spaces
        let out = format!("?       {}\n", " leading.txt");
        let entries = parse_status(&out);
        assert_eq!(entries.len(), 1);
        assert_eq!(entries[0].path, " leading.txt");
    }

    #[test]
    fn test_parse_status_path_beginning_with_gt() {
        // A path may begin with '>' (byte 8); only svn's own continuation
        // prefix (exactly six spaces + '>') marks a continuation line
        let out = "?       >new.txt\n      >   tree-conflict description\n";
        let entries = parse_status(out);
        assert_eq!(entries.len(), 1, "{entries:?}");
        assert_eq!(entries[0].status, '?');
        assert_eq!(entries[0].path, ">new.txt");
    }

    #[test]
    fn test_parse_log() {
        let out = "\
------------------------------------------------------------------------
r42 | alice | 2026-08-26 21:41:52 +0800 (Wed, 26 Aug 2026) | 2 lines
Changed paths:
   M /trunk/src/main.rs
   A /trunk/src/lib.rs

first line
second line

------------------------------------------------------------------------
r41 | bob | 2026-08-25 09:00:00 +0800 (Tue, 25 Aug 2026) | 1 line
Changed paths:
   D /trunk/old.txt

remove old
------------------------------------------------------------------------
";
        let entries = parse_log(out);
        assert_eq!(entries.len(), 2);
        let e = &entries[0];
        assert_eq!(e.revision, 42);
        assert_eq!(e.author, "alice");
        assert_eq!(e.changed.len(), 2);
        assert_eq!(e.changed[0], ('M', "trunk/src/main.rs".to_string()));
        assert_eq!(e.message, "first line\nsecond line");
        let e2 = &entries[1];
        assert_eq!(e2.revision, 41);
        assert_eq!(e2.changed[0], ('D', "trunk/old.txt".to_string()));
        assert_eq!(e2.message, "remove old");
    }

    #[test]
    fn test_parse_log_message_with_separator_like_lines() {
        // A message line of dashes (fewer than the 72-dash entry separator)
        // must stay part of the message
        let dashes40 = "-".repeat(40);
        let out = format!(
            "{sep}\nr7 | alice | 2026-08-26 21:41:52 +0800 (Wed, 26 Aug 2026) | 3 lines\n\nbefore\n{dashes40}\nafter\n{sep}\n",
            sep = "-".repeat(72),
        );
        let entries = parse_log(&out);
        assert_eq!(entries.len(), 1, "{entries:?}");
        assert_eq!(entries[0].message, format!("before\n{dashes40}\nafter"));
    }

    #[test]
    fn test_parse_log_message_with_longer_dash_line() {
        // A message line with MORE than 72 dashes is content too — only an
        // exact 72-dash line is the entry separator (svn hardcodes 72)
        let dashes80 = "-".repeat(80);
        let out = format!(
            "{sep}\nr7 | alice | 2026-08-26 21:41:52 +0800 (Wed, 26 Aug 2026) | 3 lines\n\nbefore\n{dashes80}\nafter\n{sep}\n",
            sep = "-".repeat(72),
        );
        let entries = parse_log(&out);
        assert_eq!(entries.len(), 1, "{entries:?}");
        assert_eq!(entries[0].message, format!("before\n{dashes80}\nafter"));
    }

    #[test]
    fn test_parse_log_message_mentions_changed_paths() {
        // A message line *containing* "Changed paths:" must not be eaten;
        // the real marker line is exactly "Changed paths:" before the message
        let out = "\
------------------------------------------------------------------------
r8 | alice | 2026-08-26 21:41:52 +0800 (Wed, 26 Aug 2026) | 2 lines
Changed paths:
   M /trunk/a.txt

Changed paths: this line is message content
second line
------------------------------------------------------------------------
";
        let entries = parse_log(out);
        assert_eq!(entries.len(), 1, "{entries:?}");
        assert_eq!(entries[0].changed.len(), 1);
        assert_eq!(
            entries[0].message,
            "Changed paths: this line is message content\nsecond line"
        );
    }

    #[test]
    fn test_parse_log_no_changed_paths() {
        let out = "\
------------------------------------------------------------------------
r5 | alice | 2026-08-26 21:41:52 +0800 (Wed, 26 Aug 2026) | 1 line
just a message
------------------------------------------------------------------------
";
        let entries = parse_log(out);
        assert_eq!(entries.len(), 1);
        assert_eq!(entries[0].revision, 5);
        assert_eq!(entries[0].message, "just a message");
    }

    #[test]
    fn test_parse_log_indented_cjk_message() {
        // An indented CJK first message line must not be mistaken for a
        // changed-path line (nor panic on a mid-char slice)
        let out = "\
------------------------------------------------------------------------
r7 | alice | 2026-08-26 21:41:52 +0800 (Wed, 26 Aug 2026) | 1 line
   中文说明
------------------------------------------------------------------------
";
        let entries = parse_log(out);
        assert_eq!(entries.len(), 1);
        assert_eq!(entries[0].message, "中文说明");
        assert!(entries[0].changed.is_empty());
    }

    #[test]
    fn test_parse_blame() {
        let out = b"     3    kenshin fn main() {\n     -          -     indented\n";
        let lines = parse_blame(out);
        assert_eq!(lines.len(), 2);
        assert_eq!(lines[0].revision, Some(3));
        assert_eq!(lines[0].author, "kenshin");
        assert_eq!(lines[0].content, "fn main() {");
        assert_eq!(lines[1].revision, None);
        assert_eq!(lines[1].author, "-");
        assert_eq!(lines[1].content, "    indented");
    }

    #[test]
    fn test_parse_blame_space_author_and_real_cjk_format() {
        // authors with spaces keep the content intact (the 10-byte author
        // column makes this unambiguous)
        let lines = parse_blame(b"     5 Gabi Melma hello\n");
        assert_eq!(lines[0].author, "Gabi Melma");
        assert_eq!(lines[0].content, "hello");

        // real svn output: the author field is exactly 10 bytes — short
        // CJK names are left-padded, long names are byte-truncated
        // (possibly mid-char); a 7-digit revision shifts everything right
        let mut out = Vec::new();
        out.extend_from_slice(b"     3     "); // rev + sep + 4 pad bytes
        out.extend_from_slice("张三".as_bytes()); // 6 bytes: field full
        out.extend_from_slice(b" fn main() {\n");
        // author 张三李四 (12 bytes) truncated to its first 10: the cut
        // lands inside 四 (e5 9b 9b)
        out.extend_from_slice(b"     4 ");
        out.extend_from_slice(&[0xe5, 0xbc, 0xa0, 0xe4, 0xb8, 0x89, 0xe6, 0x9d, 0x8e, 0xe5]);
        out.extend_from_slice(b" x = 1\n");
        out.extend_from_slice(b"1234567 verylongau y = 2\n");
        let lines = parse_blame(&out);
        assert_eq!(lines.len(), 3);
        assert_eq!(lines[0].author, "张三");
        assert_eq!(lines[0].content, "fn main() {");
        // a mid-char cut garbles only the author, never the content
        assert_eq!(lines[1].author, "张三李\u{FFFD}");
        assert_eq!(lines[1].content, "x = 1");
        assert_eq!(lines[2].revision, Some(1234567));
        assert_eq!(lines[2].author, "verylongau");
        assert_eq!(lines[2].content, "y = 2");
    }

    #[test]
    fn test_parse_blame_xml_and_merge() {
        let xml = "\
<?xml version=\"1.0\" encoding=\"UTF-8\"?>
<blame>
<target
   path=\"f.txt\">
<entry
   line-number=\"1\">
<commit
   revision=\"1\">
<author>Gabi Melman</author>
<date>2026-08-29T15:43:00.081617Z</date>
</commit>
</entry>
<entry
   line-number=\"2\">
</entry>
<entry
   line-number=\"3\">
<commit
   revision=\"3\">
<author>张 &amp; 三</author>
<date>2026-08-29T15:43:02.062569Z</date>
</commit>
</entry>
</target>
</blame>";
        let authors = parse_blame_xml(xml);
        assert_eq!(authors.len(), 3);
        assert_eq!(authors[0], (1, Some("Gabi Melman".to_string())));
        assert_eq!(authors[1], (2, None)); // uncommitted line: no <commit>
        assert_eq!(authors[2], (3, Some("张 & 三".to_string()))); // entities decoded

        let mut lines = vec![
            BlameLine {
                revision: Some(1),
                author: "Gabi Melma".into(),
                content: "a".into(),
            },
            BlameLine {
                revision: None,
                author: "-".into(),
                content: "b".into(),
            },
            BlameLine {
                revision: Some(3),
                author: "garbled".into(),
                content: "c".into(),
            },
        ];
        merge_blame_authors(&mut lines, &authors);
        assert_eq!(lines[0].author, "Gabi Melman");
        assert_eq!(lines[1].author, "-", "uncommitted keeps the text side");
        assert_eq!(lines[2].author, "张 & 三");
        // absent xml leaves everything untouched
        let mut same = lines.clone();
        merge_blame_authors(&mut same, &[]);
        assert_eq!(same[0].author, "Gabi Melman");
    }

    #[test]
    fn test_merge_blame_authors_matches_by_line_number() {
        // xml entries out of order still land on the right text line
        let mut lines = vec![
            BlameLine {
                revision: Some(1),
                author: "truncated1".into(),
                content: "a".into(),
            },
            BlameLine {
                revision: Some(2),
                author: "truncated2".into(),
                content: "b".into(),
            },
        ];
        let authors = vec![
            (2, Some("Second Author".to_string())),
            (1, Some("First Author".to_string())),
        ];
        merge_blame_authors(&mut lines, &authors);
        assert_eq!(lines[0].author, "First Author");
        assert_eq!(lines[1].author, "Second Author");
    }

    #[test]
    fn test_merge_blame_authors_misaligned_gives_up() {
        let make = || {
            vec![
                BlameLine {
                    revision: Some(1),
                    author: "text-a".into(),
                    content: "a".into(),
                },
                BlameLine {
                    revision: Some(2),
                    author: "text-b".into(),
                    content: "b".into(),
                },
            ]
        };
        // fewer xml entries than text lines: no partial merge
        let mut lines = make();
        merge_blame_authors(&mut lines, &[(1, Some("xml-a".to_string()))]);
        assert_eq!(lines[0].author, "text-a");
        // line number out of range: the two runs disagree, keep text side
        let mut lines = make();
        merge_blame_authors(
            &mut lines,
            &[
                (1, Some("xml-a".to_string())),
                (5, Some("xml-b".to_string())),
            ],
        );
        assert_eq!(lines[0].author, "text-a");
        assert_eq!(lines[1].author, "text-b");
        // a missing line-number attribute parses as 0: same degradation
        let authors = parse_blame_xml("<blame><entry>\n</entry>\n</blame>");
        assert_eq!(authors, vec![(0, None)]);
        let mut lines = make();
        merge_blame_authors(&mut lines, &authors);
        assert_eq!(lines[0].author, "text-a");
    }

    #[test]
    fn test_parse_diff() {
        let out = "\
Index: Cargo.toml
===================================================================
--- Cargo.toml\t(revision 1)
+++ Cargo.toml\t(working copy)
@@ -1 +1,2 @@
 version = 1
+extra
";
        let d = parse_diff(out);
        assert_eq!(d.lines.len(), 7);
        assert_eq!(d.lines[0].kind, DiffLineKind::Header);
        assert_eq!(d.lines[4].kind, DiffLineKind::Hunk);
        assert_eq!(d.lines[5].kind, DiffLineKind::Context);
        assert_eq!(d.lines[5].new, Some(1));
        assert_eq!(d.lines[6].kind, DiffLineKind::Added);
        assert_eq!(d.lines[6].new, Some(2));
    }

    #[test]
    fn test_parse_diff_dash_prefixed_content_lines() {
        // "-- foo" / "++ bar" inside a hunk are content lines, not file
        // headers; misreading them shifts the line numbers afterwards
        let out = "\
Index: a.txt
===================================================================
--- a.txt\t(revision 1)
+++ a.txt\t(working copy)
@@ -1,2 +1,2 @@
-- foo
++ bar
 tail
";
        let d = parse_diff(out);
        assert_eq!(d.lines.len(), 8);
        assert_eq!(d.lines[2].kind, DiffLineKind::FileHeader);
        assert_eq!(d.lines[3].kind, DiffLineKind::FileHeader);
        assert_eq!(d.lines[4].kind, DiffLineKind::Hunk);
        assert_eq!(d.lines[5].kind, DiffLineKind::Removed);
        assert_eq!(d.lines[5].old, Some(1));
        assert_eq!(d.lines[5].content, "- foo");
        assert_eq!(d.lines[6].kind, DiffLineKind::Added);
        assert_eq!(d.lines[6].new, Some(1));
        assert_eq!(d.lines[6].content, "+ bar");
        assert_eq!(d.lines[7].kind, DiffLineKind::Context);
        assert_eq!(d.lines[7].old, Some(2));
        assert_eq!(d.lines[7].new, Some(2));
    }
    #[test]
    fn test_parse_status_props_column() {
        // a property-only change sets column 2 and leaves column 1 blank
        let entries = parse_status(" M      props.txt\n");
        assert_eq!(entries.len(), 1);
        assert_eq!(entries[0].status, ' ');
        assert_eq!(entries[0].props_status, 'M');
        assert_eq!(entries[0].path, "props.txt");
    }

    #[test]
    fn test_parse_status_blank_status_columns_skipped() {
        // a line whose status columns are all spaces carries no information
        // (svn prints such padding in some edge outputs); it is skipped
        let entries = parse_status("        padded.txt\nM       real.txt\n");
        assert_eq!(entries.len(), 1, "{entries:?}");
        assert_eq!(entries[0].path, "real.txt");
    }

    #[test]
    fn test_parse_log_entry_without_message() {
        // an empty commit message ("0 lines") yields an empty message, not
        // a swallowed entry
        let out = "\
------------------------------------------------------------------------
r3 | alice | 2026-08-26 21:41:52 +0800 (Wed, 26 Aug 2026) | 0 lines
Changed paths:
   M /trunk/a.txt
------------------------------------------------------------------------
";
        let entries = parse_log(out);
        assert_eq!(entries.len(), 1, "{entries:?}");
        assert_eq!(entries[0].revision, 3);
        assert_eq!(entries[0].message, "");
        assert_eq!(entries[0].changed, vec![('M', "trunk/a.txt".to_string())]);
    }

    #[test]
    fn test_parse_diff_no_newline_note_keeps_line_numbers() {
        // the "\ No newline" note belongs to the previous line and must not
        // consume an old/new line number itself
        let out = "\
Index: f
===================================================================
--- f\t(revision 1)
+++ f\t(working copy)
@@ -1 +1 @@
-old
\\ No newline at end of file
+new
\\ No newline at end of file
";
        let d = parse_diff(out);
        assert_eq!(d.lines.len(), 9, "{:?}", d.lines);
        assert_eq!(d.lines[5].kind, DiffLineKind::Removed);
        assert_eq!(d.lines[5].old, Some(1));
        assert_eq!(d.lines[6].kind, DiffLineKind::Note);
        assert_eq!(d.lines[6].old, None);
        assert_eq!(d.lines[6].new, None);
        // if the note had advanced the counters this would be Some(2)
        assert_eq!(d.lines[7].kind, DiffLineKind::Added);
        assert_eq!(d.lines[7].new, Some(1));
        assert_eq!(d.lines[8].kind, DiffLineKind::Note);
    }

    #[test]
    fn test_parse_hunk_header_with_function_context() {
        // svn/git append the enclosing function after the second @@; the
        // numbers must still parse
        assert_eq!(parse_hunk(" -1 +1 @@ fn foo"), (Some(1), Some(1)));
        assert_eq!(
            parse_hunk(" -10,4 +10,5 @@ impl Bar<T> for"),
            (Some(10), Some(10))
        );
        // ... through a full diff, so following lines are numbered right
        let d = parse_diff("@@ -5 +5 @@ fn foo\n-a\n+b\n");
        assert_eq!(d.lines[1].kind, DiffLineKind::Removed);
        assert_eq!(d.lines[1].old, Some(5));
        assert_eq!(d.lines[2].kind, DiffLineKind::Added);
        assert_eq!(d.lines[2].new, Some(5));
    }

    #[test]
    fn test_parse_blame_empty_output() {
        assert!(parse_blame(b"").is_empty());
        // whitespace-only lines carry no revision token either
        assert!(parse_blame(b"\n   \n").is_empty());
    }

    #[test]
    fn test_parse_status_skips_conflict_summary() {
        // Real svn 1.14 output with conflicts: a "Summary of conflicts:"
        // trailer with indented detail lines. Neither may become an entry
        // ("Summary"[..7] would otherwise parse as status 'S' with path
        // "of conflicts:")
        let out = "\
C       f.txt
?       f.txt.mine
Summary of conflicts:
  Text conflicts: 1
";
        let entries = parse_status(out);
        assert_eq!(entries.len(), 2, "{entries:?}");
        assert_eq!(entries[0].status, 'C');
        assert_eq!(entries[0].path, "f.txt");
        assert_eq!(entries[1].path, "f.txt.mine");
        // property-conflict variant of the trailer
        let out = " C      g.txt\nSummary of conflicts:\n  Property conflicts: 1\n";
        let entries = parse_status(out);
        assert_eq!(entries.len(), 1, "{entries:?}");
        assert_eq!(entries[0].props_status, 'C');
        assert!(entries[0].is_conflicted());
    }

    #[test]
    fn test_parse_log_message_with_exact_separator_and_fake_header() {
        // Real svn 1.14 output for a message containing an exact 72-dash
        // line and a header-looking line: the header's line count bounds
        // the message, so neither truncates the entry nor spawns a
        // phantom revision
        let sep = "-".repeat(72);
        let out = format!(
            "{sep}\nr5 | kenshin | 2026-08-30 11:57:12 +0800 (Sun, 30 Aug 2026) | 4 lines\nChanged paths:\n   M /f.txt\n\nbefore\n{sep}\nr99 | fake | not-a-date | 1 line\nafter\n{sep}\n"
        );
        let entries = parse_log(&out);
        assert_eq!(entries.len(), 1, "{entries:?}");
        assert_eq!(entries[0].revision, 5);
        assert_eq!(entries[0].line_count, 4);
        assert_eq!(
            entries[0].message,
            format!("before\n{sep}\nr99 | fake | not-a-date | 1 line\nafter")
        );
        assert_eq!(entries[0].changed, vec![('M', "f.txt".to_string())]);
    }

    #[test]
    fn test_parse_log_header_author_with_pipe() {
        // svn does not sanitize the author; one containing " | " must not
        // shift the date/line_count fields
        let out = "\
------------------------------------------------------------------------
r7 | Gabi | Melman | 2026-08-26 21:41:52 +0800 (Wed, 26 Aug 2026) | 1 line
msg
------------------------------------------------------------------------
";
        let entries = parse_log(out);
        assert_eq!(entries.len(), 1, "{entries:?}");
        assert_eq!(entries[0].revision, 7);
        assert_eq!(entries[0].author, "Gabi | Melman");
        assert_eq!(
            entries[0].date,
            "2026-08-26 21:41:52 +0800 (Wed, 26 Aug 2026)"
        );
        assert_eq!(entries[0].line_count, 1);
        assert_eq!(entries[0].message, "msg");
    }

    #[test]
    fn test_parse_diff_property_section() {
        // Real svn 1.14 mixed text+property diff: the property section
        // must not inherit the text hunk's line numbers
        let out = "\
Index: f.txt
===================================================================
--- f.txt\t(revision 1)
+++ f.txt\t(working copy)
@@ -1 +1 @@
-base
+changed

Property changes on: f.txt
___________________________________________________________________
Added: Id
## -0,0 +1 ##
+x
\\ No newline at end of property
";
        let d = parse_diff(out);
        let kinds: Vec<_> = d.lines.iter().map(|l| l.kind).collect();
        assert_eq!(
            kinds,
            vec![
                DiffLineKind::Header,     // Index:
                DiffLineKind::Header,     // ===
                DiffLineKind::FileHeader, // ---
                DiffLineKind::FileHeader, // +++
                DiffLineKind::Hunk,       // @@
                DiffLineKind::Removed,    // -base
                DiffLineKind::Added,      // +changed
                DiffLineKind::Context,    // blank separator line
                DiffLineKind::Header,     // Property changes on:
                DiffLineKind::Context,    // ____ separator
                DiffLineKind::Context,    // Added: Id
                DiffLineKind::Hunk,       // ## -0,0 +1 ##
                DiffLineKind::Added,      // +x
                DiffLineKind::Note,       // \ No newline at end of property
            ],
            "{:?}",
            d.lines
        );
        // text hunk keeps its numbers...
        assert_eq!(d.lines[5].old, Some(1));
        assert_eq!(d.lines[6].new, Some(1));
        // ...but the property section is unnumbered
        for l in &d.lines[8..] {
            assert_eq!(l.old, None, "{l:?}");
            assert_eq!(l.new, None, "{l:?}");
        }
        assert_eq!(d.lines[12].content, "x");
        assert_eq!(d.lines[13].content, "\\ No newline at end of property");
    }


    #[test]
    fn perf_parse_status_100k_lines() {
        let mut out = String::with_capacity(100_000 * 24);
        for i in 0..100_000 {
            out.push_str(&format!("M       src/file_{i:06}.rs\n"));
        }
        let t = Instant::now();
        let entries = parse_status(&out);
        let el = t.elapsed();
        assert_eq!(entries.len(), 100_000);
        assert!(
            el < Duration::from_secs(10),
            "parse_status(100k) took {el:?}"
        );
    }

    #[test]
    fn perf_parse_diff_50k_lines() {
        let mut out = String::with_capacity(50_000 * 24);
        out.push_str("Index: big.rs\n=== ===\n@@ -1 +1,50_000 @@\n");
        for i in 0..50_000 {
            out.push_str(&format!("+line {i}\n"));
        }
        let t = Instant::now();
        let d = parse_diff(&out);
        let el = t.elapsed();
        assert_eq!(d.lines.len(), 50_003);
        assert!(el < Duration::from_secs(10), "parse_diff(50k) took {el:?}");
    }

#[test]
fn hunk_context_words_do_not_count() {
    // the context after the closing @@ may hold '-' and '+' words
    assert_eq!(parse_hunk(" -3 +4 @@ let x = -y + 1"), (Some(3), Some(4)));
    let d = parse_diff("@@ -3 +4 @@ let x = -y + 1\n-a\n+b\n c\n");
    assert_eq!(d.lines[1].old, Some(3));
    assert_eq!(d.lines[2].new, Some(4));
    assert_eq!(d.lines[3].old, Some(4));
    assert_eq!(d.lines[3].new, Some(5));
}

#[test]
fn trailing_carriage_returns_are_dropped() {
    let d = parse_diff("\r");
    assert_eq!(d.lines.len(), 1);
    assert_eq!(d.lines[0].content, "");
    let d = parse_diff("Index: a\r\r\n@@ -1 +1 @@\r\n-x\r\n+y\r\r");
    assert_eq!(d.lines[0].content, "Index: a");
    assert_eq!(d.lines[2].content, "x");
    assert_eq!(d.lines[3].content, "y");
    let n = parse_new_file_content("\r");
    assert_eq!(n.lines.len(), 1);
    assert_eq!(n.lines[0].content, "");
    let n = parse_new_file_content("a\r\r\nb\r");
    assert_eq!(n.lines[0].content, "a");
    assert_eq!(n.lines[1].content, "b");
    assert_eq!(n.lines[1].new, Some(2));
    let es = parse_status("M       f\r\r\n?       g\r");
    assert_eq!(es.len(), 2);
    assert_eq!(es[0].path, "f");
    assert_eq!(es[1].path, "g");
}

#[test]
fn dir_flags_come_from_the_disk_check() {
    let es = parse_status("A       adir\nM       adir/f.txt\n");
    assert!(es.iter().all(|e| !e.is_dir));
    let es = set_dir_flags(es, &[true, false]);
    assert!(es[0].is_dir);
    assert!(!es[1].is_dir);
    assert_eq!(es[0].path, "adir");
    assert_eq!(es[1].status, 'M');
    // entries past the flags keep theirs
    let es = set_dir_flags(es, &[false]);
    assert!(!es[0].is_dir);
    assert!(!es[1].is_dir);
}
