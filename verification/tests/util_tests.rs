use fluminurs::util::{append_extension, append_number, make_mp4_extension, parse_time,
    sanitise_filename, split_file_name, u64_to_dec, utc_date};

#[test]
fn sanitise_replaces_separators_and_nul() {
    assert_eq!(sanitise_filename("a/b"), "a-b");
    assert_eq!(sanitise_filename("a\0b"), "a-b");
    assert_eq!(sanitise_filename("plain.pdf"), "plain.pdf");
}

#[test]
fn sanitise_trims_whitespace() {
    assert_eq!(sanitise_filename("  notes.txt \t"), "notes.txt");
    assert_eq!(sanitise_filename("\n\r  "), "");
    assert_eq!(sanitise_filename(" inner space kept "), "inner space kept");
}

#[test]
fn sanitise_trims_unicode_whitespace() {
    // the trimmed set is Unicode White_Space, as str::trim treats it
    assert_eq!(sanitise_filename("\u{a0}report.pdf\u{3000}"), "report.pdf");
    assert_eq!(sanitise_filename("\u{2003}x\u{2028}"), "x");
    assert_eq!(sanitise_filename("  a b  "), "a b".trim());
}

#[test]
fn sanitise_is_idempotent_on_samples() {
    let samples = [" a/b ", "x\0/y", "  ", "CS2103T", "weird  name.tar.gz", "/ / /"];
    for s in samples {
        let once = sanitise_filename(s);
        let twice = sanitise_filename(&once);
        assert_eq!(once, twice);
        assert!(!once.contains('/'));
        assert!(!once.contains('\0'));
    }
}

#[test]
fn split_file_name_uses_first_dot() {
    let (stem, ext) = split_file_name("a.tar.gz");
    assert_eq!(stem, "a");
    assert_eq!(ext.as_deref(), Some("tar.gz"));
}

#[test]
fn split_file_name_without_dot() {
    let (stem, ext) = split_file_name("README");
    assert_eq!(stem, "README");
    assert!(ext.is_none());
}

#[test]
fn append_extension_carries_compound_extension() {
    assert_eq!(append_extension("u123", "report.tar.gz"), "u123.tar.gz");
    assert_eq!(append_extension("u123", "plain"), "u123");
}

#[test]
fn make_mp4_extension_replaces_last_extension() {
    assert_eq!(make_mp4_extension("lecture.webm"), "lecture.mp4");
    assert_eq!(make_mp4_extension("lecture"), "lecture.mp4");
    assert_eq!(make_mp4_extension("a.tar.gz"), "a.tar.mp4");
}

#[test]
fn append_number_formats_counter() {
    assert_eq!(append_number("lecture", 2), "lecture (2)");
}

#[test]
fn decimal_notation() {
    assert_eq!(u64_to_dec(0), "0");
    assert_eq!(u64_to_dec(7), "7");
    assert_eq!(u64_to_dec(105), "105");
}

#[test]
fn parse_time_reads_rfc3339() {
    assert_eq!(parse_time("2024-03-01T12:00:00Z"), Some(1709294400000));
    assert_eq!(parse_time("2024-03-01T12:00:00+00:00"), Some(1709294400000));
    assert_eq!(parse_time("not a time"), None);
}

#[test]
fn utc_date_of_known_moment() {
    let d = utc_date(1709294400000);
    assert_eq!(d.year, 2024);
    assert_eq!(d.month, 3);
    assert_eq!(d.day, 1);
}
