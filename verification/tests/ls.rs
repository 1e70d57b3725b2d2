use o_shell::builtins::ls::{
    blank_line_after, listing_header,
    get_classifier, invalid_option_message, long_display_name, long_listing, major, minor,
    parse_ls_args, permission_string, sanitize_filename, short_entry, short_listing, size_column,
    sort, time_column, time_pattern, visible_entries, FileInfo, FileKind, LinkTarget,
    SizeOrDevice, TimeStyle,
};

fn strs(v: &[&str]) -> Vec<String> {
    v.iter().map(|s| s.to_string()).collect()
}

#[test]
fn device_numbers() {
    assert_eq!(major(0x0801), 8);
    assert_eq!(minor(0x0801), 1);
    assert_eq!(major(0x0105), 1);
    assert_eq!(minor(0x0105), 5);
    let dev: u64 = (0x12345 & 0xff) | ((0x7 & 0xfff) << 8) | ((0x12345 & 0xfff00) << 12);
    assert_eq!(major(dev), 7);
    assert_eq!(minor(dev), 0x12345);
}

#[test]
fn permissions() {
    assert_eq!(permission_string(FileKind::Regular, 0o644, false), "-rw-r--r--");
    assert_eq!(permission_string(FileKind::Directory, 0o755, false), "drwxr-xr-x");
    assert_eq!(permission_string(FileKind::Regular, 0o4755, false), "-rwsr-xr-x");
    assert_eq!(permission_string(FileKind::Regular, 0o4644, false), "-rwSr--r--");
    assert_eq!(permission_string(FileKind::Directory, 0o1777, false), "drwxrwxrwt");
    assert_eq!(permission_string(FileKind::Directory, 0o1776, false), "drwxrwxrwT");
    assert_eq!(permission_string(FileKind::Regular, 0o2750, true), "-rwxr-s---+");
    assert_eq!(permission_string(FileKind::Symlink, 0o777, false), "lrwxrwxrwx");
    assert_eq!(permission_string(FileKind::CharDevice, 0o620, false), "crw--w----");
    assert_eq!(permission_string(FileKind::BlockDevice, 0o660, false), "brw-rw----");
    assert_eq!(permission_string(FileKind::Fifo, 0o600, false), "prw-------");
    assert_eq!(permission_string(FileKind::Socket, 0o000, false), "s---------");
}

#[test]
fn classifiers() {
    assert_eq!(get_classifier(FileKind::Directory, 0o755), "/");
    assert_eq!(get_classifier(FileKind::Symlink, 0o777), "@");
    assert_eq!(get_classifier(FileKind::Regular, 0o700), "*");
    assert_eq!(get_classifier(FileKind::Regular, 0o644), "");
    assert_eq!(get_classifier(FileKind::Fifo, 0o644), "|");
    assert_eq!(get_classifier(FileKind::Fifo, 0o755), "*");
    assert_eq!(get_classifier(FileKind::Socket, 0o644), "=");
}

#[test]
fn quoting_names() {
    assert_eq!(sanitize_filename("plain.txt"), "plain.txt");
    assert_eq!(sanitize_filename("my file"), "'my file'");
    assert_eq!(sanitize_filename("it's"), "'it'\\''s'");
    assert_eq!(sanitize_filename("a$b"), "'a$b'");
    assert_eq!(sanitize_filename("a\tb"), "'a'$'\\t''b'");
    assert_eq!(sanitize_filename("a\nb"), "'a'$'\\n''b'");
    assert_eq!(sanitize_filename("\x01x'\\"), "$'\\x01''x''\\''$'\\\\'");
    assert_eq!(sanitize_filename("\u{7f}"), "$'\\x7f'");
    assert_eq!(sanitize_filename("z\u{85}"), "'z'$'\\x85'");
    assert_eq!(sanitize_filename(""), "");
}

#[test]
fn sorting_ignores_dots_and_case() {
    let mut v = strs(&["b", ".a", "C", "..", ".", "A"]);
    sort(&mut v);
    assert_eq!(v, strs(&["..", ".", ".a", "A", "b", "C"]));
    let mut w = strs(&["a", "B"]);
    sort(&mut w);
    assert_eq!(w, strs(&["a", "B"]));
    let mut stable = strs(&["X", ".x", "x"]);
    sort(&mut stable);
    assert_eq!(stable, strs(&["X", ".x", "x"]));
    let mut empty: Vec<String> = vec![];
    sort(&mut empty);
    assert!(empty.is_empty());
}

#[test]
fn ls_arguments() {
    let o = parse_ls_args(&strs(&["-la", "dir", "-F", "x"])).unwrap();
    assert!(o.show_hidden && o.long && o.classify);
    assert_eq!(o.paths, strs(&["dir", "x"]));
    let o = parse_ls_args(&strs(&[])).unwrap();
    assert!(!o.show_hidden && !o.long && !o.classify);
    assert_eq!(o.paths, strs(&["."]));
    let o = parse_ls_args(&strs(&["-"])).unwrap();
    assert_eq!(o.paths, strs(&["."]));
    assert_eq!(parse_ls_args(&strs(&["-l", "-az", "-q"])).unwrap_err(), 'z');
    assert_eq!(invalid_option_message('z'), "ls: invalid option -- 'z'");
}

#[test]
fn entries_shown() {
    let names = strs(&["a", ".hidden", "b"]);
    assert_eq!(visible_entries(names.clone(), false), strs(&["a", "b"]));
    assert_eq!(visible_entries(names, true), strs(&["a", ".hidden", "b", ".", ".."]));
}

#[test]
fn short_listing_line() {
    assert_eq!(short_entry("d", Some((FileKind::Directory, 0o755))), "d/");
    assert_eq!(short_entry("a b", None), "'a b'");
    assert_eq!(short_listing(&strs(&["a", "b/"])), "a  b/  ");
    assert_eq!(short_listing(&strs(&[])), "");
}

#[test]
fn long_names() {
    assert_eq!(long_display_name("x", FileKind::Regular, 0o755, true, None), "x*");
    assert_eq!(long_display_name("x", FileKind::Regular, 0o755, false, None), "x");
    let t = LinkTarget { text: "target".to_string(), class: Some((FileKind::Directory, 0o755)) };
    assert_eq!(long_display_name("l", FileKind::Symlink, 0o777, true, Some(t)), "l -> target/");
    let t = LinkTarget { text: "t s".to_string(), class: None };
    assert_eq!(long_display_name("l", FileKind::Symlink, 0o777, false, Some(t)), "l -> t s");
    assert_eq!(long_display_name("l", FileKind::Symlink, 0o777, true, None), "l");
}

#[test]
fn size_columns() {
    assert_eq!(size_column(FileKind::Regular, 42, 0x0801), SizeOrDevice::Size(42));
    assert_eq!(
        size_column(FileKind::BlockDevice, 0, 0x0801),
        SizeOrDevice::Device { major: 8, minor: 1 }
    );
    assert_eq!(
        size_column(FileKind::CharDevice, 0, 0x0105),
        SizeOrDevice::Device { major: 1, minor: 5 }
    );
}

fn info(perm: &str, n: u64, u: &str, g: &str, s: SizeOrDevice, name: &str, blocks: u64) -> FileInfo {
    FileInfo {
        permissions: perm.to_string(),
        nlinks: n,
        user_name: u.to_string(),
        group_name: g.to_string(),
        size_or_device: s,
        mod_time: "Jan  1 00:00".to_string(),
        display_name: name.to_string(),
        blocks,
    }
}

#[test]
fn long_listing_alignment() {
    let infos = vec![
        info("-rw-r--r--", 1, "root", "wheel", SizeOrDevice::Size(5), "a", 8),
        info("drwxr-xr-x", 12, "bob", "staff", SizeOrDevice::Size(4096), "dir", 8),
    ];
    let lines = long_listing(&infos);
    assert_eq!(lines[0], "total 8");
    assert_eq!(lines[1], "-rw-r--r--  1 root wheel    5 Jan  1 00:00 a");
    assert_eq!(lines[2], "drwxr-xr-x 12 bob  staff 4096 Jan  1 00:00 dir");
}

#[test]
fn long_listing_devices() {
    let infos = vec![
        info("crw-rw-rw-", 1, "root", "root", SizeOrDevice::Device { major: 1, minor: 3 }, "null", 0),
        info("brw-rw----", 1, "root", "disk", SizeOrDevice::Device { major: 259, minor: 10 }, "nvme", 0),
        info("-rw-r--r--", 1, "root", "root", SizeOrDevice::Size(7), "f", 3),
    ];
    let lines = long_listing(&infos);
    assert_eq!(lines[0], "total 1");
    assert_eq!(lines[1], "crw-rw-rw- 1 root root   1,  3 Jan  1 00:00 null");
    assert_eq!(lines[2], "brw-rw---- 1 root disk 259, 10 Jan  1 00:00 nvme");
    assert_eq!(lines[3], "-rw-r--r-- 1 root root       7 Jan  1 00:00 f");
}

#[test]
fn long_listing_widths_use_bytes_for_names() {
    let infos = vec![
        info("-", 1, "é", "g", SizeOrDevice::Size(1), "a", 0),
        info("-", 1, "ab", "g", SizeOrDevice::Size(1), "b", 0),
    ];
    let lines = long_listing(&infos);
    assert_eq!(lines[1], "- 1 é  g 1 Jan  1 00:00 a");
    assert_eq!(lines[2], "- 1 ab g 1 Jan  1 00:00 b");
    assert_eq!(long_listing(&vec![]), vec!["total 0".to_string()]);
}

#[test]
fn time_styles() {
    let now = 1_700_000_000i64;
    assert_eq!(time_column(now - 10, 0, now, 0), (now - 10 + 3600, TimeStyle::Recent));
    let old = now - 182 * 86400 - 3600 - 1;
    assert_eq!(time_column(old, 0, now, 0).1, TimeStyle::Old);
    assert_eq!(time_column(old + 1, 0, now, 0).1, TimeStyle::Recent);
    assert_eq!(time_column(old, 0, now, 1).1, TimeStyle::Old);
    assert_eq!(time_pattern(TimeStyle::Recent), "%b %e %H:%M");
    assert_eq!(time_pattern(TimeStyle::Old), "%b %e  %Y");
}

#[test]
fn listing_headers() {
    assert_eq!(listing_header("a", 1), None);
    assert_eq!(listing_header("a", 2), Some("a:".to_string()));
    assert!(blank_line_after(0, 2));
    assert!(!blank_line_after(1, 2));
    assert!(!blank_line_after(0, 1));
}
