use coffer::cli::arguments::{
    looks_like_path, mount_source, plan_mount, resolve_container, MountError, MountOpts, NoContainer, Source,
};
use coffer::cli::commands::{
    cmd_add, cmd_remove, umount_candidates, umount_target, AddError, NoSuchVault, UmountError,
};
use coffer::cli::integrity::{page_size_of, weigh_check};
use coffer::cli::menu::{pick_vault, read_choice, Choice, Pick};
use coffer::cli::password::{password_in, read_password, readable_by_others, strip_line_end, Refused};
use coffer::cli::table::{print_table, table_header, vault_row, FileFacts};
use coffer::cli::unmount::{Step, Unmount};
use coffer::cli::watch::{CompactWatch, WatchEvent, WatchStep};
use coffer::mounts::{coffer_mounts, fuse_connection_id, is_mounted, mount_key, mount_parts, unescape_mountinfo, Mount};
use coffer::registry::config::{Config, ReadOutcome};
use coffer::registry::vault::Vault;
use coffer::sizes::{
    human_size, parse_duration, parse_size, poll_interval, reclaimable, split_size, worth_compacting, HumanSize, Scaled,
};

fn vault(alias: &str) -> Vault {
    Vault {
        alias: alias.to_string(),
        file: format!("/data/{alias}.coffer"),
        mountpoint: format!("/mnt/{alias}"),
        idle_timeout: None,
        compact_on_idle: None,
        password_file: None,
        password_command: None,
        log_file: None,
        read_only: false,
    }
}

fn opts() -> MountOpts {
    MountOpts {
        foreground: false,
        idle_timeout: None,
        compact_on_idle: None,
        password_file: None,
        password_command: None,
        log_file: None,
        read_only: false,
    }
}

fn scaled(number: &str, factor: u64) -> Scaled {
    Scaled { number: number.to_string(), factor }
}

#[test]
fn paths_are_told_from_aliases() {
    for path in ["/a", "a/b", "./a", ".", "..", "~", "~/x", ".x"] {
        assert!(looks_like_path(path), "{path}");
    }
    for alias in ["work", "my-vault_2.old", "", "a.b"] {
        assert!(!looks_like_path(alias), "{alias}");
    }
}

#[test]
fn containers_are_resolved() {
    let v = vault("work");
    assert_eq!(resolve_container("work", Some(&v), false), Ok("/data/work.coffer".to_string()));
    assert_eq!(resolve_container("./work", Some(&v), false), Ok("./work".to_string()));
    assert_eq!(resolve_container("file", None, true), Ok("file".to_string()));
    assert_eq!(resolve_container("file", None, false), Err(NoContainer("file".to_string())));
}

#[test]
fn mount_by_alias_path_or_choice() {
    assert_eq!(mount_source(Some("work")), Source::Alias);
    assert_eq!(mount_source(Some("./work")), Source::Given);
    assert_eq!(mount_source(None), Source::Choice);
    let v = vault("work");
    let plan = plan_mount(Some("work"), None, opts(), Some(&v)).unwrap();
    assert_eq!((plan.file.as_str(), plan.mountpoint.as_str()), ("/data/work.coffer", "/mnt/work"));
    let plan = plan_mount(Some("work"), Some("/else".to_string()), opts(), Some(&v)).unwrap();
    assert_eq!(plan.mountpoint, "/else");
    let plan = plan_mount(Some("./f"), Some("/m".to_string()), opts(), Some(&v)).unwrap();
    assert_eq!((plan.file.as_str(), plan.mountpoint.as_str()), ("./f", "/m"));
    assert_eq!(plan_mount(Some("f"), None, opts(), None), Err(MountError::NotRegistered("f".to_string())));
    assert_eq!(plan_mount(None, None, opts(), None), Err(MountError::NoVaults));
    let plan = plan_mount(None, None, opts(), Some(&v)).unwrap();
    assert_eq!(plan.file, "/data/work.coffer");
}

#[test]
fn the_command_line_wins_over_the_registry() {
    let mut v = vault("work");
    v.idle_timeout = Some("1h".to_string());
    v.compact_on_idle = Some("2h".to_string());
    v.password_file = Some("/pw".to_string());
    v.log_file = Some("/log".to_string());
    v.read_only = true;
    let mut o = opts();
    o.idle_timeout = Some("5m".to_string());
    o.password_command = Some("pass x".to_string());
    let r = o.with_defaults_from(&v);
    assert_eq!(r.idle_timeout.as_deref(), Some("5m"));
    assert_eq!(r.compact_on_idle.as_deref(), Some("2h"));
    assert_eq!(r.password_file, None);
    assert_eq!(r.password_command.as_deref(), Some("pass x"));
    assert_eq!(r.log_file.as_deref(), Some("/log"));
    assert!(r.read_only);
    assert_eq!(opts().with_defaults_from(&v).password_file.as_deref(), Some("/pw"));
}

#[test]
fn one_vault_needs_no_asking() {
    assert_eq!(pick_vault(1, false), Pick::Only);
    assert_eq!(pick_vault(2, true), Pick::Ask);
    assert_eq!(pick_vault(2, false), Pick::NoTerminal);
}

#[test]
fn answers_to_the_menu() {
    let list = vec![vault("a"), vault("b"), vault("1")];
    assert_eq!(read_choice(&list, None), Choice::Abort);
    assert_eq!(read_choice(&list, Some(" \n")), Choice::Abort);
    assert_eq!(read_choice(&list, Some("q\n")), Choice::Abort);
    assert_eq!(read_choice(&list, Some("2\n")), Choice::Take(1));
    assert_eq!(read_choice(&list, Some("1")), Choice::Take(0));
    assert_eq!(read_choice(&list, Some(" b ")), Choice::Take(1));
    assert_eq!(read_choice(&list, Some("0")), Choice::Again);
    assert_eq!(read_choice(&list, Some("4")), Choice::Again);
    assert_eq!(read_choice(&list, Some("c")), Choice::Again);
}

#[test]
fn passwords_are_accepted_or_refused() {
    assert_eq!(read_password("", None), Err(Refused::Empty));
    assert_eq!(read_password("x", Some("y")), Err(Refused::Mismatch));
    assert_eq!(read_password("x", Some("x")), Ok(()));
    assert_eq!(read_password("x", None), Ok(()));
    assert_eq!(password_in("secret\n# note\n").ok().unwrap().text(), "secret");
    assert_eq!(password_in("a b \r\n").ok().unwrap().text(), "a b ");
    assert_eq!(password_in("no end\r").ok().unwrap().text(), "no end\r");
    assert_eq!(password_in("p\u{e4}ss\u{1f511}\nx").ok().unwrap().text(), "p\u{e4}ss\u{1f511}");
    assert_eq!(password_in("").err(), Some(Refused::Empty));
    assert_eq!(password_in("\nx").err(), Some(Refused::Empty));
    assert_eq!(password_in("\r\nx").err(), Some(Refused::Empty));
    assert_eq!(strip_line_end("pw\r\n").text(), "pw");
    assert_eq!(strip_line_end("pw \n\n").text(), "pw ");
    assert_eq!(strip_line_end("a\rb\u{e4}\n").text(), "a\rb\u{e4}");
    assert_eq!(strip_line_end("\n").text(), "");
    assert!(readable_by_others(0o640));
    assert!(!readable_by_others(0o100600));
}

#[test]
fn tables_line_up() {
    let mut v = vault("work");
    v.mountpoint = "/home/me/v".to_string();
    let facts = FileFacts { size: "1.0 KiB".to_string(), modified: "2024-01-02 03:04".to_string() };
    let rows = vec![
        vault_row(&v, Some(facts), true, None, Some("/home/me")),
        vault_row(&vault("ö"), None, false, None, Some("/home/me")),
    ];
    assert_eq!(rows[0], vec!["work", "~/v", "/data/work.coffer", "1.0 KiB", "2024-01-02 03:04", "mounted"]);
    assert_eq!(rows[1][5], "file missing");
    let lines = print_table(&table_header(false), &rows);
    assert_eq!(
        lines,
        vec![
            "ALIAS  MOUNTPOINT  FILE               SIZE     MODIFIED          STATUS",
            "work   ~/v         /data/work.coffer  1.0 KiB  2024-01-02 03:04  mounted",
            "ö      /mnt/ö      /data/ö.coffer     -        -                 file missing",
        ]
    );
    let numbered = vault_row(&v, None, false, Some(12), None);
    assert_eq!(numbered[0], "12)");
    assert_eq!(table_header(true).len(), 7);
    let facts = FileFacts { size: "1".to_string(), modified: "m".to_string() };
    assert_eq!(vault_row(&v, Some(facts), false, None, None)[5], "-");
}

#[test]
fn integrity_messages_are_weighed() {
    let messages: Vec<String> = ["HMAC verification failed for page 12", "HMAC verification failed for page 1048577", "odd"]
        .iter()
        .map(|s| s.to_string())
        .collect();
    let ok = vec!["ok".to_string()];
    let r = weigh_check(&messages, 4096, &ok);
    assert_eq!(r.problems, vec!["HMAC verification failed for page 12", "odd"]);
    assert_eq!(r.misreported, 1);
    assert!(r.structure_ok);
    assert!(!r.passed());
    // The page that starts at 4 GiB is the first that cannot be believed.
    let edge = vec!["page 1048576".to_string(), "page 1048577 ".to_string()];
    let r = weigh_check(&edge, 4096, &ok);
    assert_eq!(r.problems, vec!["page 1048576"]);
    let r = weigh_check(&vec![], 4096, &ok);
    assert!(r.passed());
    let r = weigh_check(&vec![], 4096, &vec!["ok".to_string(), "ok".to_string()]);
    assert!(!r.passed());
    let r = weigh_check(&vec![], 4096, &vec!["row missing".to_string()]);
    assert!(!r.structure_ok);
    assert_eq!(page_size_of("8192"), 8192);
    assert_eq!(page_size_of("?"), 4096);
}

#[test]
fn sizes_are_split() {
    assert_eq!(parse_size("10G"), scaled("10", 1024 * 1024 * 1024));
    assert_eq!(parse_size(" 1.5k "), scaled("1.5", 1024));
    assert_eq!(parse_size("2m"), scaled("2", 1024 * 1024));
    assert_eq!(parse_size("3t"), scaled("3", 1024u64.pow(4)));
    assert_eq!(parse_size("7"), scaled("7", 1));
    assert_eq!(parse_size("1e3"), scaled("1E3", 1));
    assert_eq!(parse_size(""), scaled("", 1));
    // Capitals of other scripts are those of the standard library.
    assert_eq!(parse_size("ß").number, "SS");
    assert_eq!(split_size("10k"), scaled("10k", 1));
}

#[test]
fn durations_are_split() {
    assert_eq!(parse_duration("45s"), scaled("45", 1));
    assert_eq!(parse_duration("30m"), scaled("30", 60));
    assert_eq!(parse_duration("2h"), scaled("2", 3600));
    assert_eq!(parse_duration(" 1d\n"), scaled("1", 86400));
    assert_eq!(parse_duration("90"), scaled("90", 1));
    assert_eq!(parse_duration("2H"), scaled("2H", 1));
    assert_eq!(parse_duration(""), scaled("", 1));
}

#[test]
fn sizes_for_people() {
    assert_eq!(human_size(0), HumanSize::Bytes(0));
    assert_eq!(human_size(1023), HumanSize::Bytes(1023));
    assert_eq!(human_size(1024), HumanSize::Unit { bytes: 1024, divisor: 1024, unit: "KiB" });
    assert_eq!(human_size(1 << 20), HumanSize::Unit { bytes: 1 << 20, divisor: 1 << 20, unit: "MiB" });
    assert_eq!(human_size((1 << 30) - 1), HumanSize::Unit { bytes: (1 << 30) - 1, divisor: 1 << 20, unit: "MiB" });
    assert_eq!(human_size(1 << 30), HumanSize::Unit { bytes: 1 << 30, divisor: 1 << 30, unit: "GiB" });
    assert_eq!(human_size(1 << 40), HumanSize::Unit { bytes: 1 << 40, divisor: 1 << 40, unit: "TiB" });
    assert_eq!(human_size(u64::MAX), HumanSize::Unit { bytes: u64::MAX, divisor: 1 << 40, unit: "TiB" });
}

#[test]
fn compacting_has_to_be_worth_it() {
    let mib = 1024 * 1024;
    assert!(worth_compacting(640 * mib, 576 * mib));
    assert!(!worth_compacting(640 * mib, 576 * mib + 1));
    assert!(!worth_compacting(641 * mib, 577 * mib));
    assert!(worth_compacting(u64::MAX, 0));
    assert!(!worth_compacting(10, 20));
    assert_eq!(reclaimable(10, 4), 6);
    assert_eq!(reclaimable(4, 10), 0);
    assert_eq!(poll_interval(10), 1000);
    assert_eq!(poll_interval(5000), 5000);
    assert_eq!(poll_interval(60000), 30000);
}

#[test]
fn own_mounts_are_found() {
    let table = "22 1 8:1 / / rw shared:1 - ext4 /dev/sda1 rw\n\
                 90 22 0:51 / /mnt/my\\040vault rw,nosuid - fuse coffer rw,user_id=1000\n\
                 91 22 0:52 / /mnt/b rw - fuse.coffer coffer rw\n\
                 92 22 0:53 / /mnt/c rw - fuse sshfs rw\n\
                 93 22 0:54 / /mnt/b rw shared:3 master:1 - fuse coffer rw\n\
                 94 22 x / /mnt/d rw - fuse coffer rw\n\
                 95 22 0:+7 / /mnt/e rw - fuse coffer\n\
                 short line - fuse coffer\n\
                 96 22 0:56 / /mnt/f rw fuse coffer\n";
    let mounts = coffer_mounts(table);
    let found: Vec<(&str, u32)> = mounts.iter().map(|m| (m.mountpoint.as_str(), m.connection)).collect();
    assert_eq!(found, vec![("/mnt/my vault", 51), ("/mnt/b", 52), ("/mnt/b", 54), ("/mnt/e", 7)]);
    assert_eq!(fuse_connection_id("/mnt/b", Some("/mnt"), &mounts), Some(54));
    assert_eq!(fuse_connection_id("/mnt/c", Some("/mnt"), &mounts), None);
    assert_eq!(fuse_connection_id("/mnt/b", None, &mounts), None);
    assert!(is_mounted("/link/my vault/", Some("/mnt"), &mounts));
    assert!(!is_mounted("/mnt/c", Some("/mnt"), &mounts));
    assert!(!is_mounted("/", Some("/"), &mounts));
}

#[test]
fn mountpoints_are_compared_by_parent_and_name() {
    assert_eq!(mount_parts("/a/b/"), Some(("/a".to_string(), "b".to_string())));
    assert_eq!(mount_parts("b"), Some((".".to_string(), "b".to_string())));
    assert_eq!(mount_parts("/a/.."), None);
    assert_eq!(mount_key("x/b", Some("/real")), Some("/real/b".to_string()));
    assert_eq!(mount_key("/b", Some("/")), Some("/b".to_string()));
    assert_eq!(mount_key("/", Some("/")), None);
}

#[test]
fn escapes_of_the_mount_table() {
    assert_eq!(unescape_mountinfo("/a\\040b\\011c\\012d\\134e"), "/a b\tc\nd\\e");
    assert_eq!(unescape_mountinfo("/a\\04"), "/a\\04");
    assert_eq!(unescape_mountinfo("/a\\089"), "/a\\089");
    assert_eq!(unescape_mountinfo("/\\303\\244"), "/ä");
    assert_eq!(unescape_mountinfo("/\\377"), "/\u{fffd}");
    assert_eq!(unescape_mountinfo("\\\\040"), "\\ ");
}

#[test]
fn unmounting_escalates() {
    let mut u = Unmount::new(Some(7));
    assert_eq!(u.step, Step::Plain);
    assert_eq!(u.advance(true), Step::Finished { success: true });
    let mut u = Unmount::new(Some(7));
    assert_eq!(u.advance(false), Step::Lazy);
    assert_eq!(u.advance(true), Step::Abort(7));
    assert_eq!(u.advance(false), Step::Finished { success: true });
    let mut u = Unmount::new(None);
    u.advance(false);
    assert_eq!(u.advance(true), Step::Finished { success: true });
    let mut u = Unmount::new(Some(7));
    u.advance(false);
    assert_eq!(u.advance(false), Step::Finished { success: false });
}

#[test]
fn adding_checks_first() {
    let mut cfg = Config::load_from("/c".to_string(), ReadOutcome::NotFound).unwrap();
    let empty = cfg.to_text();
    let mut v = vault("work");
    v.idle_timeout = Some("soon".to_string());
    v.compact_on_idle = Some("later".to_string());
    assert_eq!(cmd_add(&mut cfg, &vault("a/b"), true, true, true), Err(AddError::InvalidAlias));
    assert_eq!(cmd_add(&mut cfg, &v, false, true, true), Err(AddError::NoSuchFile));
    assert_eq!(cmd_add(&mut cfg, &v, true, false, true), Err(AddError::BadIdleTimeout));
    assert_eq!(cmd_add(&mut cfg, &v, true, true, false), Err(AddError::BadCompactOnIdle));
    assert_eq!(cfg.to_text(), empty);
    assert_eq!(cmd_add(&mut cfg, &v, true, true, true), Ok(false));
    assert_eq!(cmd_add(&mut cfg, &v, true, true, true), Ok(true));
    assert_eq!(cmd_remove(&mut cfg, "nope", None), Err(NoSuchVault));
    assert_eq!(cmd_remove(&mut cfg, "work", None), Ok(Some("/data/work.coffer".to_string())));
    assert_eq!(cfg.to_text(), empty);
}

#[test]
fn a_broken_section_can_be_removed() {
    let mut cfg = Config::parse("/c".to_string(), "[bad]\njunk\n").unwrap();
    assert_eq!(cmd_remove(&mut cfg, "bad", None), Ok(None));
    assert_eq!(cfg.to_text(), "");
}

#[test]
fn what_to_unmount() {
    let v = vault("work");
    assert_eq!(umount_target("/m", Some(&v), false), Ok("/m".to_string()));
    assert_eq!(umount_target("work", Some(&v), true), Ok("/mnt/work".to_string()));
    assert_eq!(umount_target("work", Some(&v), false), Err(UmountError::NotMounted));
    assert_eq!(umount_target("dir", None, false), Ok("dir".to_string()));
    let list = vec![vault("a"), vault("b"), vault("c")];
    assert_eq!(umount_candidates(&vec![], &vec![]), Err(UmountError::NoVaults));
    assert_eq!(umount_candidates(&list, &vec![false, false, false]), Err(UmountError::NoneMounted));
    let some = umount_candidates(&list, &vec![true, false, true]).unwrap();
    assert_eq!(some, vec![vault("a"), vault("c")]);
    let mounts = vec![Mount { mountpoint: "/mnt/a".to_string(), connection: 3 }];
    assert!(is_mounted(&list[0].mountpoint, Some("/mnt"), &mounts));
}

#[test]
fn compacting_waits_for_idleness() {
    let mib = 1024 * 1024;
    let mut w = CompactWatch::Sleeping;
    assert_eq!(w.advance(WatchEvent::Woken { idle: false }), WatchStep::Sleep);
    assert_eq!(w.advance(WatchEvent::Woken { idle: true }), WatchStep::Measure);
    assert_eq!(w.advance(WatchEvent::Measured(None)), WatchStep::Sleep);
    w.advance(WatchEvent::Woken { idle: true });
    assert_eq!(w.advance(WatchEvent::Measured(Some(640 * mib))), WatchStep::Lock);
    // Somebody came back while the database was waited for.
    assert_eq!(w.advance(WatchEvent::Locked { idle: false }), WatchStep::Sleep);
    w.advance(WatchEvent::Woken { idle: true });
    w.advance(WatchEvent::Measured(Some(640 * mib)));
    assert_eq!(w.advance(WatchEvent::Locked { idle: true }), WatchStep::Count);
    assert_eq!(w.advance(WatchEvent::Counted(600 * mib)), WatchStep::Sleep);
    w.advance(WatchEvent::Woken { idle: true });
    w.advance(WatchEvent::Measured(Some(640 * mib)));
    w.advance(WatchEvent::Locked { idle: true });
    assert_eq!(w.advance(WatchEvent::Counted(40 * mib)), WatchStep::Compact(600 * mib));
    assert_eq!(w.advance(WatchEvent::Compacted), WatchStep::Sleep);
    assert_eq!(w, CompactWatch::Sleeping);
}
