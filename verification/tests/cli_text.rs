use hexview::intake::{
    argument_note, count_accepted, empty_queue_error, run_fails, separator, usage_message,
    ArgStatus,
};
use hexview::summary::summary_line;

#[test]
fn summary_of_empty_file() {
    let out = summary_line("empty.bin", 0);
    assert_eq!(
        String::from_utf8(out).unwrap(),
        "\nempty.bin: 0 bytes, 0.0000 KiB 0.0000 MiB\n"
    );
}

#[test]
fn summary_of_exact_kib() {
    let out = summary_line("k", 1536);
    assert_eq!(
        String::from_utf8(out).unwrap(),
        "\nk: 1536 bytes, 1.5000 KiB 0.0015 MiB\n"
    );
}

#[test]
fn summary_matches_float_formatting() {
    // The spec formats the exact quotient; the runtime formats the same
    // value as a binary fraction held in a double. The two must agree,
    // ties (sizes of 32 mod 64 bytes land on .xxxx5 KiB exactly) included.
    let sizes: Vec<u64> = (0..4000)
        .chain((0..32).map(|i| 32 + 64 * i))
        .chain([65536, 1048576, 1048577, 123456789, 9876543210])
        .collect();
    for s in sizes {
        let expected = format!(
            "\np: {} bytes, {:.4} KiB {:.4} MiB\n",
            s,
            s as f64 / 1024.0,
            s as f64 / 1024.0 / 1024.0
        );
        let got = String::from_utf8(summary_line("p", s)).unwrap();
        assert_eq!(got, expected, "size {s}");
    }
}

#[test]
fn missing_file_gets_a_note_and_readable_file_none() {
    let note = argument_note("/nonexistent", ArgStatus::Missing);
    assert_eq!(
        String::from_utf8(note.unwrap()).unwrap(),
        "note: '/nonexistent' - no such file\n"
    );
    assert!(argument_note("/etc/hosts", ArgStatus::File).is_none());
    let statuses = vec![ArgStatus::Missing, ArgStatus::File];
    assert_eq!(count_accepted(&statuses), 1);
    assert!(!run_fails(&statuses));
}

#[test]
fn directory_arguments_all_get_notes_and_the_run_fails() {
    let args = ["/tmp", "/var", "/etc"];
    let mut statuses = Vec::new();
    for arg in args {
        let note = argument_note(arg, ArgStatus::Directory);
        assert_eq!(
            String::from_utf8(note.unwrap()).unwrap(),
            format!("note: '{arg}' - is a directory\n")
        );
        statuses.push(ArgStatus::Directory);
    }
    assert_eq!(count_accepted(&statuses), 0);
    assert!(run_fails(&statuses));
}

#[test]
fn permission_denied_note() {
    let note = argument_note("/root/secret", ArgStatus::PermissionDenied);
    assert_eq!(
        String::from_utf8(note.unwrap()).unwrap(),
        "note: '/root/secret' - permission denied\n"
    );
}

#[test]
fn no_arguments_is_not_a_failing_run() {
    let statuses: Vec<ArgStatus> = Vec::new();
    assert!(!run_fails(&statuses));
}

#[test]
fn usage_text() {
    let out = usage_message("hexview");
    assert_eq!(
        String::from_utf8(out).unwrap(),
        "Print files in hex and ascii\n\nusage: hexview [file(s)]...\n"
    );
}

#[test]
fn empty_queue_error_text() {
    let out = empty_queue_error();
    assert_eq!(
        String::from_utf8(out).unwrap(),
        "^^^^^\nerror: supplied files have been discarded due to the preceding conditions - nothing to dump\n"
    );
}

#[test]
fn separator_right_aligns_the_path() {
    let out = String::from_utf8(separator("abc")).unwrap();
    assert_eq!(out, format!("{} abc\n\n", "-".repeat(76)));
    assert_eq!(out.lines().next().unwrap().len(), 80);
}

#[test]
fn separator_for_long_paths_keeps_one_dash() {
    let long = "x".repeat(100);
    let out = String::from_utf8(separator(&long)).unwrap();
    assert_eq!(out, format!("- {long}\n\n"));
}
