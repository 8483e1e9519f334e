use coffer::paths::{abbreviate_home, config_path, expand_tilde, file_name_of, parent_dir, parent_of};
use coffer::registry::config::{Config, LoadError, ParseError, ReadOutcome};
use coffer::registry::vault::{render, validate_alias, Problem, Vault};

fn cfg(text: &str) -> Config {
    Config::parse("/test/config".to_string(), text).unwrap()
}

fn vault(alias: &str) -> Vault {
    Vault {
        alias: alias.to_string(),
        file: format!("/data/{alias}.coffer"),
        mountpoint: format!("/mnt/{alias}"),
        idle_timeout: None,
        compact_on_idle: None,
        password_file: None,
        password_command: None,
        log_file: None,
        read_only: false,
    }
}

#[test]
fn parses_sections_and_options() {
    let c = cfg("# header\n\n[work]\nfile = /a.coffer\nmountpoint = \"/mnt/a\"\nidle_timeout = 30m\n\n[photos]\n; comment\nfile=/b.coffer\nmountpoint=/mnt/b\ncompact_on_idle = 2h\npassword_file = /pw\n");
    let v = c.vaults(None).unwrap();
    assert_eq!(v.len(), 2);
    assert_eq!(v[0].alias, "work");
    assert_eq!(v[0].file, "/a.coffer");
    assert_eq!(v[0].mountpoint, "/mnt/a");
    assert_eq!(v[0].idle_timeout.as_deref(), Some("30m"));
    assert_eq!(v[0].compact_on_idle, None);
    assert_eq!(v[1].alias, "photos");
    assert_eq!(v[1].compact_on_idle.as_deref(), Some("2h"));
    assert_eq!(v[1].password_file, Some("/pw".to_string()));
    assert_eq!(c.get("photos", None).unwrap().unwrap().alias, "photos");
    assert!(c.get("nope", None).unwrap().is_none());
}

#[test]
fn rejects_bad_input() {
    assert!(Config::parse("/c".into(), "[a\nfile=/x\n").is_err());
    assert!(Config::parse("/c".into(), "[a]\n[a]\n").is_err());
    assert!(Config::parse("/c".into(), "[bad/name]\n").is_err());
    assert!(cfg("[a]\nfile=/x\n").vaults(None).is_err(), "missing mountpoint");
    assert!(cfg("[a]\nfile=/x\nmountpoint=/m\nbogus=1\n").vaults(None).is_err(), "unknown key");
    assert!(cfg("[a]\nfile=/x\nmountpoint=/m\njunk\n").vaults(None).is_err(), "line without =");
    assert!(cfg("[a]\nfile=\nmountpoint=/m\n").vaults(None).is_err(), "empty value");
    assert!(cfg("[a]\nfile=/x\nmountpoint=/m\nread_only=maybe\n").vaults(None).is_err(), "bad read_only");
    assert!(cfg("[a]\nfile=/x\nmountpoint=/m\nread_only=yes\n").vaults(None).unwrap()[0].read_only);
    for bad in ["", "-x", ".x", "a b", "a/b", "a[b]"] {
        assert!(validate_alias(bad).is_err(), "{bad:?} should be rejected");
    }
    for good in ["a", "work", "my-vault_2.old", "1"] {
        assert!(validate_alias(good).is_ok(), "{good:?} should be accepted");
    }
}

#[test]
fn upsert_and_remove_keep_other_lines_intact() {
    let mut c = cfg("# my notes\n[work]\n# keep me\nfile = /a.coffer\nmountpoint = /mnt/a\n\n[photos]\nfile = /b.coffer\nmountpoint = /mnt/b");
    assert!(c.upsert(&vault("work")), "replacing an existing alias");
    assert!(!c.upsert(&vault("new")), "adding a new alias");
    assert_eq!(
        c.to_text(),
        "# my notes\n[work]\nfile = /data/work.coffer\nmountpoint = /mnt/work\n\n[photos]\nfile = /b.coffer\nmountpoint = /mnt/b\n\n[new]\nfile = /data/new.coffer\nmountpoint = /mnt/new\n"
    );
    assert!(c.remove("photos"));
    assert!(!c.remove("photos"));
    assert_eq!(
        c.to_text(),
        "# my notes\n[work]\nfile = /data/work.coffer\nmountpoint = /mnt/work\n\n[new]\nfile = /data/new.coffer\nmountpoint = /mnt/new\n"
    );
    // Round-trips through the parser unchanged.
    assert_eq!(cfg(&c.to_text()).to_text(), c.to_text());
}

#[test]
fn fresh_config_gets_header_and_renders_options() {
    let mut c = Config::load_from("/nonexistent/dir/config".to_string(), ReadOutcome::NotFound).unwrap();
    assert!(c.vaults(None).unwrap().is_empty());
    let mut v = vault("work");
    v.idle_timeout = Some("30m".into());
    v.compact_on_idle = Some("2h".into());
    v.password_file = Some("/pw".into());
    v.password_command = Some("pass show x = y".into());
    v.log_file = Some("/log".into());
    v.read_only = true;
    c.upsert(&v);
    let text = c.to_text();
    assert!(text.starts_with("# coffer vault registry"));
    assert!(text.ends_with("\n[work]\nfile = /data/work.coffer\nmountpoint = /mnt/work\nidle_timeout = 30m\ncompact_on_idle = 2h\npassword_file = /pw\npassword_command = pass show x = y\nlog_file = /log\nread_only = true\n"));
    assert_eq!(cfg(&text).vaults(None).unwrap(), vec![v]);
}

#[test]
fn tilde_expansion() {
    let home = "/home/me";
    assert_eq!(expand_tilde("~/x/y", Some(home)), format!("{home}/x/y"));
    // Pushing nothing behind a directory leaves a slash, which names the same.
    assert_eq!(
        std::path::PathBuf::from(expand_tilde("~", Some(home))),
        std::path::PathBuf::from(home)
    );
    assert_eq!(expand_tilde("~other/x", Some(home)), "~other/x");
    assert_eq!(expand_tilde("/abs/~/x", Some(home)), "/abs/~/x");
    assert_eq!(abbreviate_home(&format!("{home}/v"), Some(home)), "~/v");
    assert_eq!(abbreviate_home("/elsewhere", Some(home)), "/elsewhere");
}

#[test]
fn tilde_without_a_home() {
    assert_eq!(expand_tilde("~/x", None), "~/x");
    assert_eq!(expand_tilde("~/x", Some("")), "~/x");
    assert_eq!(abbreviate_home("/home/me/v", None), "/home/me/v");
    assert_eq!(expand_tilde("~///x", Some("/h/")), "/h/x");
}

#[test]
fn abbreviation_goes_by_components() {
    let home = Some("/home/me");
    assert_eq!(abbreviate_home("/home/me", home), "~");
    assert_eq!(abbreviate_home("/home/me/", home), "~");
    assert_eq!(abbreviate_home("//home/./me//a//b/", home), "~/a//b");
    assert_eq!(abbreviate_home("/home/meme/v", home), "/home/meme/v");
    assert_eq!(abbreviate_home("home/me/v", home), "home/me/v");
}

#[test]
fn paths_agree_with_the_standard_library() {
    let samples = [
        "", "/", "//", ".", "..", "a", "a/", "/a", "/a/", "//a", "///a//", "a/b", "a/./b", "./a", "././a", "/./a",
        "a/..", "../a", "a//b//", "/a/b/c", "a/.", "/.", "x/./.", "/a/b/../c", "é/ü", ".hidden", "a/.hidden",
    ];
    for s in samples {
        let p = std::path::Path::new(s);
        let parent = p.parent().and_then(|d| d.to_str()).filter(|d| !d.is_empty()).map(String::from);
        assert_eq!(parent_of(s), parent, "parent of {s:?}");
        assert_eq!(parent_dir(s), parent.unwrap_or(".".to_string()), "directory of {s:?}");
        let name = p.file_name().and_then(|n| n.to_str()).map(String::from);
        assert_eq!(file_name_of(s), name, "name of {s:?}");
        for home in ["/", "/a", "a", ".", "./a", "/a/b/", "a//b"] {
            let wanted = match p.strip_prefix(home) {
                Ok(rest) if rest.as_os_str().is_empty() => "~".to_string(),
                Ok(rest) => format!("~/{}", rest.display()),
                Err(_) => s.to_string(),
            };
            assert_eq!(abbreviate_home(s, Some(home)), wanted, "{s:?} below {home:?}");
        }
        for base in ["", "/", "/h", "h/"] {
            let joined = std::path::Path::new(base).join(s);
            assert_eq!(coffer::paths::join(base, s), joined.to_str().unwrap(), "{base:?} and {s:?}");
        }
    }
}

#[test]
fn registry_is_found_by_environment() {
    assert_eq!(config_path(Some("/etc/coffer"), Some("/home/me")).unwrap(), "/etc/coffer");
    assert_eq!(config_path(Some(""), Some("/home/me")).unwrap(), "/home/me/.coffer/config");
    assert_eq!(config_path(None, Some("/home/me/")).unwrap(), "/home/me/.coffer/config");
    assert_eq!(config_path(None, None), None);
    assert_eq!(config_path(None, Some("")), None);
}

#[test]
fn loading_tells_what_went_wrong() {
    assert!(matches!(Config::load(None, None, ReadOutcome::NotFound), Err(LoadError::NoHome)));
    assert!(matches!(Config::load(None, Some("/h"), ReadOutcome::Failed), Err(LoadError::Unreadable)));
    let c = Config::load(None, Some("/h"), ReadOutcome::Text("[a]\nfile = ~/f\nmountpoint = ~\n".to_string())).unwrap();
    assert_eq!(c.path, "/h/.coffer/config");
    let v = c.get("a", Some("/h")).unwrap().unwrap();
    assert_eq!((v.file.as_str(), v.mountpoint.as_str()), ("/h/f", "/h/"));
    match Config::load(None, Some("/h"), ReadOutcome::Text("x\n [a \n".to_string())) {
        Err(LoadError::Malformed(ParseError::MalformedHeader { line, raw })) => {
            assert_eq!((line, raw.as_str()), (2, " [a "));
        }
        other => panic!("{other:?}"),
    }
    match Config::parse("/c".to_string(), "[a]\n[ b b ]\n") {
        Err(ParseError::InvalidAlias { line, alias }) => assert_eq!((line, alias.as_str()), (2, "b b")),
        other => panic!("{other:?}"),
    }
    match Config::parse("/c".to_string(), "[a]\n\n[ a ]\n") {
        Err(ParseError::DuplicateSection { line, name }) => assert_eq!((line, name.as_str()), (3, "a")),
        other => panic!("{other:?}"),
    }
}

#[test]
fn every_problem_of_a_section_has_its_name() {
    let problem = |text: &str| cfg(text).vaults(None).unwrap_err().problem;
    assert_eq!(problem("[a]\nmountpoint=/m\n"), Problem::MissingFile);
    assert_eq!(problem("[a]\nfile=/x\n"), Problem::MissingMountpoint);
    assert_eq!(problem("[a]\njunk\n"), Problem::NotKeyValue("junk".to_string()));
    assert_eq!(problem("[a]\n file =  \n"), Problem::NoValue("file".to_string()));
    assert_eq!(problem("[a]\nfile = \"\"\n"), Problem::NoValue("file".to_string()));
    assert_eq!(problem("[a]\nread_only = 2\n"), Problem::BadReadOnly("2".to_string()));
    assert_eq!(problem("[a]\nFile = x\n"), Problem::UnknownKey("File".to_string()));
    let e = cfg("[a]\nfile=/x\nmountpoint=/m\n[b]\njunk\n").vaults(None).unwrap_err();
    assert_eq!(e.section, "b");
    // The broken section does not hide the other one.
    assert!(cfg("[a]\nfile=/x\nmountpoint=/m\n[b]\njunk\n").get("a", None).unwrap().is_some());
}

#[test]
fn truth_has_many_spellings() {
    for (word, wanted) in
        [("true", true), ("YES", true), ("On", true), ("1", true), ("False", false), ("no", false), ("OFF", false), ("0", false)]
    {
        let c = cfg(&format!("[a]\nfile=/x\nmountpoint=/m\nread_only = {word}\n"));
        assert_eq!(c.vaults(None).unwrap()[0].read_only, wanted, "{word}");
    }
}

#[test]
fn values_keep_equal_signs_and_lose_quotes() {
    let c = cfg("[a]\nfile = 'x = y'\nmountpoint = \"/m\"  \npassword_command = a='b'\n");
    let v = c.get("a", None).unwrap().unwrap();
    assert_eq!(v.file, "x = y");
    assert_eq!(v.mountpoint, "/m");
    assert_eq!(v.password_command.unwrap(), "a='b'");
}

#[test]
fn the_later_of_two_settings_wins() {
    let c = cfg("[a]\nfile=/1\nmountpoint=/m\nfile=/2\n");
    assert_eq!(c.vaults(None).unwrap()[0].file, "/2");
}

#[test]
fn lines_may_end_with_carriage_returns() {
    let c = cfg("[a]\r\nfile=/x\r\nmountpoint=/m\r\n# note\r\n");
    assert_eq!(c.vaults(None).unwrap()[0].mountpoint, "/m");
    assert_eq!(c.to_text(), "[a]\nfile=/x\nmountpoint=/m\n# note\n");
}

#[test]
fn registered_vaults_are_found_and_others_kept() {
    let mut c = cfg("# notes\n[other]\nfile=/o\nmountpoint=/p\n\n\n");
    let before = c.get("other", None).unwrap();
    assert!(!c.upsert(&vault("work")));
    assert_eq!(c.get("work", None).unwrap(), Some(vault("work")));
    assert_eq!(c.get("other", None).unwrap(), before);
    // Once more changes nothing.
    let text = c.to_text();
    assert!(c.upsert(&vault("work")));
    assert_eq!(c.to_text(), text);
    assert!(c.remove("work"));
    assert_eq!(c.get("work", None).unwrap(), None);
    assert_eq!(c.get("other", None).unwrap(), before);
}

#[test]
fn blank_lines_do_not_pile_up() {
    let c = cfg("a\n\n\n\n");
    assert_eq!(c.to_text(), "a\n");
    assert_eq!(cfg("\n\n").to_text(), "\n");
    assert_eq!(cfg("").to_text(), "");
}

#[test]
fn saving_goes_through_a_temporary_file() {
    let mut c = Config::load_from("/home/me/.coffer/config".to_string(), ReadOutcome::NotFound).unwrap();
    c.upsert(&vault("work"));
    let plan = c.save();
    assert_eq!(plan.dir, "/home/me/.coffer");
    assert_eq!(plan.tmp, "/home/me/.coffer/config.tmp");
    assert_eq!(plan.path, "/home/me/.coffer/config");
    assert_eq!(plan.text, c.to_text());
    assert_eq!((plan.dir_mode, plan.tmp_mode), (0o700, 0o600));
    let here = Config::load_from("config".to_string(), ReadOutcome::NotFound).unwrap().save();
    assert_eq!((here.dir.as_str(), here.tmp.as_str()), (".", "config.tmp"));
}

#[test]
fn rendering_is_exact() {
    let mut v = vault("w");
    v.log_file = Some("/l".to_string());
    assert_eq!(render(&v), vec!["file = /data/w.coffer", "mountpoint = /mnt/w", "log_file = /l"]);
}

#[test]
fn a_copy_of_a_vault_is_equal() {
    let mut v = vault("w");
    v.password_file = Some("/p".to_string());
    assert_eq!(v.clone(), v);
}

#[test]
fn what_was_written_is_read_as_it_was() {
    let mut c = Config::load_from("/c".to_string(), ReadOutcome::NotFound).unwrap();
    c.upsert(&vault("a"));
    c.upsert(&vault("b"));
    c.remove("a");
    let again = cfg(&c.to_text());
    assert_eq!(again.to_text(), c.to_text());
    assert_eq!(again.vaults(None).unwrap(), vec![vault("b")]);
}

#[test]
fn removing_a_section_keeps_its_comments() {
    let text = "[a]\nfile = /x\nmountpoint = /m\n\n# about b\n[b]\nfile = /y\nmountpoint = /n\n";
    let mut c = Config::parse("/c".to_string(), text).unwrap();
    assert!(c.remove("a"));
    assert_eq!(c.to_text(), "# about b\n[b]\nfile = /y\nmountpoint = /n\n");
    assert_eq!(c.path, "/c");
    // Behind the section before it, with the blank line that separated it.
    let mut c = cfg("# top\n[a]\nfile = /x\nmountpoint = /m\n[b]\n; own\nfile = /y\nmountpoint = /n\n  # end\n\n[d]\n");
    assert!(c.remove("b"));
    assert_eq!(c.to_text(), "# top\n[a]\nfile = /x\nmountpoint = /m\n; own\n  # end\n\n[d]\n");
    assert_eq!(c.get("a", None).unwrap().unwrap().mountpoint, "/m");
    // The last one, and the only one.
    let mut c = cfg("[a]\nfile = /x\n# one\n\n# two\n");
    assert!(c.remove("a"));
    assert_eq!(c.to_text(), "# one\n# two\n");
    assert!(!c.remove("a"));
    assert_eq!(c.to_text(), "# one\n# two\n");
}

#[test]
fn registering_keeps_the_comments_behind_the_settings() {
    let text = "[work]\nfile = /x\n# gone\nmountpoint = /m\n\n; one\n\n# about b\n\n[b]\nfile = /y\nmountpoint = /n\n";
    let mut c = cfg(text);
    assert!(c.upsert(&vault("work")));
    let after = "[work]\nfile = /data/work.coffer\nmountpoint = /mnt/work\n\n; one\n\n# about b\n\n[b]\nfile = /y\nmountpoint = /n\n";
    assert_eq!(c.to_text(), after);
    assert_eq!(c.get("work", None).unwrap(), Some(vault("work")));
    assert!(c.upsert(&vault("work")));
    assert_eq!(c.to_text(), after);
}

#[test]
fn abbreviated_paths_expand_to_the_same_place() {
    for home in [None, Some("/home/me"), Some("/home/me/"), Some("/"), Some("relative"), Some("")] {
        for path in ["/home/me", "/home/me/", "//home/./me//a//b/", "/home/meme/v", "/", "/home/me/~/x", "/x/."] {
            let back = expand_tilde(&abbreviate_home(path, home), home);
            assert_eq!(std::path::PathBuf::from(&back), std::path::PathBuf::from(path), "{path} {home:?}");
        }
    }
}

#[test]
fn registered_vaults_survive_writing_among_carriage_returns() {
    let mut c = cfg("# a\r\r\n[other]\r\r\nfile=/o\r\r\nmountpoint=/p \r\r\n\r\r\n");
    assert!(!c.upsert(&vault("work")));
    let again = cfg(&c.to_text());
    assert_eq!(again.get("work", None).unwrap(), Some(vault("work")));
    assert_eq!(again.get("other", None).unwrap(), c.get("other", None).unwrap());
    // A line that is quoted has lost its carriage return.
    let c = cfg("[bad]\njunk\r\r\n");
    assert_eq!(c.vaults(None).unwrap_err().problem, Problem::NotKeyValue("junk\r".to_string()));
    let again = cfg(&c.to_text());
    assert_eq!(again.vaults(None).unwrap_err().problem, Problem::NotKeyValue("junk".to_string()));
}

#[test]
fn a_text_is_kept_letter_by_letter() {
    for text in ["", "\n", "  # a\n\n\t\n[x]\n junk  = \n\n[y]\nz\n", "lone\rreturn\n[a]\n"] {
        assert_eq!(cfg(text).to_text(), text);
    }
    assert_eq!(cfg("[x]\na = b").to_text(), "[x]\na = b\n");
    assert_eq!(cfg("[x]\na = b\n\n\n").to_text(), "[x]\na = b\n");
    // A header is written without the white space around it.
    assert_eq!(cfg(" [ x ] \n").to_text(), "[x]\n");
}

#[test]
fn any_changes_read_back() {
    let mut c = cfg("# a\n[x]\nfile = /x\nmountpoint = /m\n\n# b\n[y]\nfile = /y\nmountpoint = /n\n; c\n");
    let check = |c: &Config| {
        let again = cfg(&c.to_text());
        assert_eq!(again.to_text(), c.to_text());
        assert_eq!(again.vaults(None).unwrap(), c.vaults(None).unwrap());
    };
    check(&c);
    c.upsert(&vault("work"));
    check(&c);
    c.remove("x");
    check(&c);
    c.upsert(&vault("y"));
    check(&c);
    c.remove("work");
    c.remove("y");
    check(&c);
    assert_eq!(c.to_text(), "# a\n# b\n; c\n");
    // An error is the same, too.
    let mut c = cfg("[bad]\njunk\n");
    c.upsert(&vault("work"));
    assert_eq!(cfg(&c.to_text()).vaults(None).unwrap_err().problem, c.vaults(None).unwrap_err().problem);
    assert_eq!(cfg(&c.to_text()).to_text(), c.to_text());
}
