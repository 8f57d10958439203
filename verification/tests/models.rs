use svnui::models::{LogEntry, StatusEntry, SvnInfo};


    #[test]
    fn svn_info_branch_label() {
        let info = SvnInfo {
            url: "file:///repo/trunk".into(),
            branch: "trunk".into(),
            revision: 42,
            wc_root: "/wc".into(),
            repo_root: String::new(),
            uuid: String::new(),
            last_author: String::new(),
            last_rev: 0,
            last_date: String::new(),
        };
        assert_eq!(info.branch_label(), "trunk");
        let no_rel = SvnInfo {
            url: "file:///repo/trunk".into(),
            branch: String::new(),
            revision: 1,
            wc_root: String::new(),
            repo_root: String::new(),
            uuid: String::new(),
            last_author: String::new(),
            last_rev: 0,
            last_date: String::new(),
        };
        assert_eq!(no_rel.branch_label(), "file:///repo/trunk");
    }

    #[test]
    fn conflicted_detection() {
        let mut e = StatusEntry {
            status: 'M',
            props_status: ' ',
            tree_conflict: ' ',
            path: "a".into(),
            is_dir: false,
        };
        assert!(!e.is_conflicted());
        e.status = 'C';
        assert!(e.is_conflicted());
        e.status = 'M';
        e.tree_conflict = 'C';
        assert!(e.is_conflicted());
    }

    #[test]
    fn log_summary_uses_first_line() {
        let e = LogEntry {
            revision: 3,
            author: "a".into(),
            date: "d".into(),
            line_count: 2,
            changed: vec![],
            message: "first\nsecond\n".into(),
        };
        assert_eq!(e.summary(), "first");
        let blank = LogEntry {
            message: "\n\nreal message\n".into(),
            ..e
        };
        assert_eq!(blank.summary(), "real message");
    }
