use pg_harden::checks::pghba::{
    hba_file_setting, load_hba_entries, path_key_string, resolve_hba_path, resolve_include, HbaEntry, HbaLoader, HbaPath, LoadRequest,
};
use pg_harden::checks::hba_reject_all::analyze_reject_all;
use pg_harden::config::ScanConfig;
use pg_harden::error::CheckError;

/// A directory tree in memory: files with their text, directories with the
/// names of their entries.
struct Tree {
    files: Vec<(&'static str, &'static str)>,
    dirs: Vec<(&'static str, Vec<&'static str>)>,
}

impl Tree {
    fn read(&self, path: &str) -> Result<String, String> {
        self.files
            .iter()
            .find(|(p, _)| *p == path)
            .map(|(_, c)| c.to_string())
            .ok_or_else(|| "No such file or directory (os error 2)".to_string())
    }

    fn has_path(&self, path: &str) -> bool {
        self.files.iter().any(|(p, _)| *p == path) || self.dirs.iter().any(|(p, _)| *p == path)
    }

    fn list(&self, path: &str) -> Result<Vec<String>, String> {
        self.dirs
            .iter()
            .find(|(p, _)| *p == path)
            .map(|(_, names)| names.iter().map(|n| n.to_string()).collect())
            .ok_or_else(|| "No such file or directory (os error 2)".to_string())
    }

    /// Loads `main` as the scanner does: every request the loader makes is
    /// answered from the tree. Also gives the files read, in order.
    fn load(&self, main: &str) -> (Vec<HbaEntry>, Vec<String>, Vec<String>) {
        match self.try_load(main) {
            Ok(r) => r,
            Err(e) => panic!("loading failed: {:?}", e),
        }
    }

    fn try_load(&self, main: &str) -> Result<(Vec<HbaEntry>, Vec<String>, Vec<String>), CheckError> {
        let lookup = if self.has_path(main) {
            Ok(())
        } else {
            Err("No such file or directory (os error 2)".to_string())
        };
        let mut loader: HbaLoader = load_hba_entries(main, lookup)?;
        let mut reads = Vec::new();
        while let Some(req) = loader.next_request() {
            match req {
                LoadRequest::ReadFile(p) => {
                    reads.push(p.clone());
                    loader.file_read(self.read(&p))?;
                }
                LoadRequest::CheckExists(p) => loader.existence(self.has_path(&p)),
                LoadRequest::ListDir(p) => loader.dir_listed(self.list(&p)),
            }
        }
        let (entries, warnings) = loader.finish();
        Ok((entries, warnings, reads))
    }
}

#[test]
fn include_files_expanded() {
    let tree = Tree {
        files: vec![
            ("/srv/pg/pg_hba.conf", "local all all peer\ninclude extra.conf\n"),
            ("/srv/pg/extra.conf", "host all all 10.0.0.0/8 md5\n"),
        ],
        dirs: vec![],
    };
    let (entries, warnings, _) = tree.load("/srv/pg/pg_hba.conf");
    assert!(warnings.is_empty(), "unexpected warnings: {:?}", warnings);
    assert_eq!(entries.len(), 2);
    assert_eq!(entries[1].method, "md5");
    assert!(entries[1].source.contains("extra.conf"));
}

#[test]
fn include_dir_expanded_alphabetically() {
    let tree = Tree {
        files: vec![
            ("/srv/pg/pg_hba.conf", "include_dir conf.d\n"),
            ("/srv/pg/conf.d/02-second.conf", "host b b 10.0.0.2/32 md5\n"),
            ("/srv/pg/conf.d/01-first.conf", "host a a 10.0.0.1/32 md5\n"),
            ("/srv/pg/conf.d/ignored.txt", "host x x 10.0.0.9/32 md5\n"),
        ],
        dirs: vec![("/srv/pg/conf.d", vec!["02-second.conf", "ignored.txt", "01-first.conf"])],
    };
    let (entries, warnings, _) = tree.load("/srv/pg/pg_hba.conf");
    assert!(warnings.is_empty(), "unexpected warnings: {:?}", warnings);
    assert_eq!(entries.len(), 2);
    assert_eq!(entries[0].database, "a");
    assert_eq!(entries[1].database, "b");
}

#[test]
fn missing_include_warns_but_does_not_fail() {
    let tree = Tree {
        files: vec![("/srv/pg/pg_hba.conf", "local all all peer\ninclude missing.conf\n")],
        dirs: vec![],
    };
    let (entries, warnings, _) = tree.load("/srv/pg/pg_hba.conf");
    assert_eq!(entries.len(), 1);
    assert_eq!(warnings.len(), 1);
    assert!(warnings[0].contains("missing.conf"));
}

#[test]
fn include_cycles_terminate() {
    let tree = Tree {
        files: vec![
            ("/srv/pg/a.conf", "include b.conf\nlocal all all peer\n"),
            ("/srv/pg/b.conf", "include a.conf\n"),
        ],
        dirs: vec![],
    };
    let (entries, _, reads) = tree.load("/srv/pg/a.conf");
    assert_eq!(entries.len(), 1);
    assert_eq!(reads, vec!["/srv/pg/a.conf".to_string(), "/srv/pg/b.conf".to_string()]);
}

// ---------------------------------------------------------------------
// Further loading cases
// ---------------------------------------------------------------------

#[test]
fn include_if_exists_missing_is_silent() {
    let tree = Tree {
        files: vec![("/srv/pg/pg_hba.conf", "include_if_exists nope.conf\nlocal all all peer\n")],
        dirs: vec![],
    };
    let (entries, warnings, _) = tree.load("/srv/pg/pg_hba.conf");
    assert_eq!(entries.len(), 1);
    assert!(warnings.is_empty());
}

#[test]
fn included_entries_take_the_place_of_the_directive() {
    let tree = Tree {
        files: vec![
            (
                "/srv/pg/pg_hba.conf",
                "local all all peer\ninclude mid.conf\nhost all all ::/0 reject\n",
            ),
            ("/srv/pg/mid.conf", "host app app 10.0.0.0/8 scram-sha-256\n"),
        ],
        dirs: vec![],
    };
    let (entries, _, _) = tree.load("/srv/pg/pg_hba.conf");
    assert_eq!(entries.len(), 3);
    assert_eq!(entries[0].entry_type, "local");
    assert_eq!(entries[1].database, "app");
    assert_eq!(entries[1].source, "/srv/pg/mid.conf");
    assert_eq!(entries[1].line, 1);
    assert_eq!(entries[2].address.as_deref(), Some("::/0"));
    assert_eq!(entries[2].line, 3);
}

#[test]
fn include_before_host_line_expands_in_place() {
    let tree = Tree {
        files: vec![
            ("/d/pg_hba.conf", "include a.conf\nhost all all 0.0.0.0/0 reject\n"),
            ("/d/a.conf", "host all all 10.0.0.0/8 md5\n"),
        ],
        dirs: vec![],
    };
    let (entries, warnings, _) = tree.load("/d/pg_hba.conf");
    assert!(warnings.is_empty());
    assert_eq!(entries.len(), 2);
    assert_eq!(entries[0].method, "md5");
    assert_eq!(entries[1].method, "reject");
}

#[test]
fn nested_and_directory_includes_expand_in_place() {
    let tree = Tree {
        files: vec![
            ("/d/main.conf", "host m1 all 10.0.0.1/32 md5\ninclude_dir conf.d\nhost m2 all 10.0.0.2/32 md5\n"),
            ("/d/conf.d/01.conf", "host a all 10.0.1.1/32 md5\ninclude ../deep.conf\nhost b all 10.0.1.2/32 md5\n"),
            ("/d/conf.d/02.conf", "host c all 10.0.2.1/32 md5\n"),
            ("/d/conf.d/../deep.conf", "host deep all 10.0.9.9/32 md5\n"),
        ],
        dirs: vec![("/d/conf.d", vec!["02.conf", "01.conf"])],
    };
    let (entries, warnings, _) = tree.load("/d/main.conf");
    assert!(warnings.is_empty(), "unexpected warnings: {:?}", warnings);
    let dbs: Vec<&str> = entries.iter().map(|e| e.database.as_str()).collect();
    assert_eq!(dbs, vec!["m1", "a", "deep", "b", "c", "m2"]);
}

#[test]
fn reject_all_judged_across_includes() {
    let tree = Tree {
        files: vec![
            (
                "/d/pg_hba.conf",
                "include allow.conf\nhost all all 0.0.0.0/0 reject\nhost all all ::/0 reject\n",
            ),
            ("/d/allow.conf", "host app app 10.0.0.0/8 scram-sha-256\n"),
        ],
        dirs: vec![],
    };
    let (entries, _, _) = tree.load("/d/pg_hba.conf");
    assert!(analyze_reject_all(&entries).is_empty());
    let late = Tree {
        files: vec![
            (
                "/d/pg_hba.conf",
                "host all all 0.0.0.0/0 reject\nhost all all ::/0 reject\ninclude allow.conf\n",
            ),
            ("/d/allow.conf", "host app app 10.0.0.0/8 scram-sha-256\n"),
        ],
        dirs: vec![],
    };
    let (entries, _, _) = late.load("/d/pg_hba.conf");
    assert_eq!(
        analyze_reject_all(&entries),
        vec!["/d/allow.conf:1: entry after reject-all is unreachable (app app scram-sha-256)".to_string()]
    );
}

#[test]
fn include_depth_is_limited() {
    let tree = Tree {
        files: vec![
            ("/d/f0.conf", "include f1.conf\n"),
            ("/d/f1.conf", "include f2.conf\n"),
            ("/d/f2.conf", "include f3.conf\n"),
            ("/d/f3.conf", "include f4.conf\n"),
            ("/d/f4.conf", "include f5.conf\nlocal all all trust\n"),
            ("/d/f5.conf", "local all all peer\n"),
        ],
        dirs: vec![],
    };
    let (entries, warnings, reads) = tree.load("/d/f0.conf");
    assert_eq!(reads.len(), 4);
    assert!(entries.is_empty());
    assert_eq!(warnings, vec!["/d/f4.conf: include depth exceeded".to_string()]);
}

#[test]
fn unreadable_include_dir_warns() {
    let tree = Tree {
        files: vec![("/srv/pg/pg_hba.conf", "include_dir gone\nlocal all all peer\n")],
        dirs: vec![],
    };
    let (entries, warnings, _) = tree.load("/srv/pg/pg_hba.conf");
    assert_eq!(entries.len(), 1);
    assert_eq!(warnings.len(), 1);
    assert!(warnings[0].starts_with("/srv/pg/gone: "));
}

#[test]
fn unreadable_main_file_is_an_error() {
    match load_hba_entries("/nowhere/pg_hba.conf", Err("No such file or directory (os error 2)".to_string())) {
        Err(CheckError::FileRead(m)) => {
            assert_eq!(m, "/nowhere/pg_hba.conf: No such file or directory (os error 2)")
        }
        _ => panic!("expected a file read error"),
    }
}

#[test]
fn unreadable_main_file_after_lookup_is_an_error() {
    // The path exists (a directory) but cannot be read as text.
    let tree = Tree { files: vec![], dirs: vec![("/srv/pg/pg_hba.conf", vec![])] };
    match tree.try_load("/srv/pg/pg_hba.conf") {
        Err(CheckError::FileRead(m)) => {
            assert_eq!(m, "/srv/pg/pg_hba.conf: No such file or directory (os error 2)")
        }
        _ => panic!("expected a file read error"),
    }
}

#[test]
fn unreadable_include_is_only_a_warning() {
    let tree = Tree {
        files: vec![("/srv/pg/pg_hba.conf", "include sub\nlocal all all peer\n")],
        dirs: vec![("/srv/pg/sub", vec![])],
    };
    let (entries, warnings, _) = tree.load("/srv/pg/pg_hba.conf");
    assert_eq!(entries.len(), 1);
    assert_eq!(warnings, vec!["/srv/pg/sub: No such file or directory (os error 2)".to_string()]);
}

#[test]
fn include_paths_resolve_against_including_file() {
    let s = |v: Vec<char>| v.into_iter().collect::<String>();
    let c = |t: &str| t.chars().collect::<Vec<char>>();
    assert_eq!(s(resolve_include(&c("/etc/pg/pg_hba.conf"), &c("extra.conf"))), "/etc/pg/extra.conf");
    assert_eq!(s(resolve_include(&c("/etc/pg/pg_hba.conf"), &c("/abs/x.conf"))), "/abs/x.conf");
    assert_eq!(s(resolve_include(&c("pg_hba.conf"), &c("x.conf"))), "x.conf");
    assert_eq!(s(resolve_include(&c("/etc/pg/./pg_hba.conf"), &c("x.conf"))), "/etc/pg/x.conf");
    assert_eq!(s(resolve_include(&c("./pg_hba.conf"), &c("x.conf"))), "./x.conf");
}

#[test]
fn one_file_written_two_ways_is_read_once() {
    let tree = Tree {
        files: vec![
            ("/srv/pg/./pg_hba.conf", "include extra.conf\ninclude /srv/pg//extra.conf\n"),
            ("/srv/pg/extra.conf", "host all all 10.0.0.0/8 md5\n"),
            ("/srv/pg//extra.conf", "host all all 10.0.0.0/8 md5\n"),
        ],
        dirs: vec![],
    };
    let (entries, warnings, reads) = tree.load("/srv/pg/./pg_hba.conf");
    assert!(warnings.is_empty(), "unexpected warnings: {:?}", warnings);
    assert_eq!(reads, vec!["/srv/pg/./pg_hba.conf".to_string(), "/srv/pg/extra.conf".to_string()]);
    assert_eq!(entries.len(), 1);
}

#[test]
fn path_keys_compare_components() {
    let k = |p: &str| path_key_string(p).into_iter().collect::<String>();
    assert_eq!(k("d/./x.conf"), "d/x.conf");
    assert_eq!(k("d//x.conf/"), "d/x.conf");
    assert_eq!(k("/./a/."), "/a");
    assert_eq!(k("./x"), "./x");
    assert_eq!(k("././x"), "./x");
    assert_eq!(k("/"), "/");
}

#[test]
fn hba_path_resolution() {
    let mut config = ScanConfig::default();
    assert!(matches!(resolve_hba_path(&config, true), Ok(HbaPath::FromServer)));
    match resolve_hba_path(&config, false) {
        Err(CheckError::FileRead(m)) => {
            assert_eq!(m, "No pg_hba.conf path specified and no database connection")
        }
        _ => panic!("expected a file read error"),
    }
    assert_eq!(hba_file_setting(), "hba_file");
    config.hba_file = Some("/etc/pg_hba.conf".to_string());
    match resolve_hba_path(&config, false) {
        Ok(HbaPath::Given(p)) => assert_eq!(p, "/etc/pg_hba.conf"),
        _ => panic!("expected the configured path"),
    }
}
