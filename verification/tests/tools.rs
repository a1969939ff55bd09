use r_tools::aidump::{
    dump_header_text, escape_fences, file_extension, file_header_text, ignored_file, is_binary,
    make_relative, relative_or_whole, walk_action, WalkAction, FILE_FOOTER, NON_UTF8_LINE,
};
use r_tools::cliphist::{
    cache_dir, history_entries, image_files, is_stale, menu_line, share_jobs,
};
use r_tools::netstatus::{hms_text, human_duration, status_line, status_suffix, StatusMonitor};

fn s(v: &[&str]) -> Vec<String> {
    v.iter().map(|x| x.to_string()).collect()
}

#[test]
fn history_lines_are_classified() {
    let lines = s(&[
        "12\t<meta http-equiv=\"content-type\" content=\"text/html\">",
        "34\t[[ binary data 12 KiB png 10x10 ]]",
        "56\thello",
        "78\t[[ binary data 1 MiB jpeg 640x480 ]]",
        "9 binary.bmp",
    ]);
    let entries = history_entries(&lines).unwrap();
    assert_eq!(entries.len(), 4);
    assert_eq!(entries[0].line, lines[1]);
    let img = entries[0].image.as_ref().unwrap();
    assert_eq!((img.id.as_str(), img.file_name.as_str()), ("34", "34.png"));
    assert_eq!(entries[1].line, "56\thello");
    assert!(entries[1].image.is_none());
    let img = entries[2].image.as_ref().unwrap();
    assert_eq!(img.file_name, "78.jpeg");
    assert_eq!(entries[3].image.as_ref().unwrap().file_name, "9.bmp");
    assert_eq!(image_files(&entries), s(&["34.png", "78.jpeg", "9.bmp"]));
    assert!(history_entries(&[]).unwrap().is_empty());
}

#[test]
fn image_cache_location() {
    assert_eq!(cache_dir(Some("/x"), Some("/h")), Ok("/x/cliphist/img".to_string()));
    assert_eq!(cache_dir(Some(""), Some("/h")), Ok("/h/.cache/cliphist/img".to_string()));
    assert_eq!(cache_dir(None, Some("/h/")), Ok("/h/.cache/cliphist/img".to_string()));
    assert_eq!(cache_dir(None, None), Err("HOME environment variable is not set".to_string()));
}

#[test]
fn menu_lines_and_stale_files() {
    assert_eq!(menu_line("34\tpic", Some("/c/34.png")), "34\tpic\0icon\x1f/c/34.png");
    assert_eq!(menu_line("56\thello", None), "56\thello");
    let valid = s(&["34.png"]);
    assert!(!is_stale("34.png", &valid));
    assert!(is_stale("9.jpg", &valid));
    assert!(is_stale("x", &[]));
}

#[test]
fn decode_jobs_are_shared_round_robin() {
    assert_eq!(share_jobs(5, 2), vec![vec![0, 2, 4], vec![1, 3]]);
    assert_eq!(share_jobs(2, 8), vec![vec![0], vec![1]]);
    assert_eq!(share_jobs(1, 4), vec![vec![0]]);
    assert_eq!(share_jobs(7, 3), vec![vec![0, 3, 6], vec![1, 4], vec![2, 5]]);
}

#[test]
fn binary_detection() {
    assert!(!is_binary(b""));
    assert!(!is_binary(b"hello\n"));
    assert!(is_binary(b"a\0b"));
    assert!(is_binary(&[0x89, b'P', b'N', b'G', 13, 10]));
    assert!(is_binary(b"%PDF-1.4"));
    assert!(!is_binary(&[0xEF, 0xBB, 0xBF, 0]));
    let mut late_zero = vec![b'a'; 1030];
    late_zero[1029] = 0;
    assert!(!is_binary(&late_zero));
}

#[test]
fn dump_formatting() {
    assert!(ignored_file("Cargo.lock"));
    assert!(ignored_file("gradlew.bat"));
    assert!(!ignored_file("main.rs"));
    assert_eq!(escape_fences("```rust"), "` ` `rust");
    assert_eq!(escape_fences("``"), "``");
    assert_eq!(escape_fences("a````b"), "a` ` ``b");
    assert_eq!(file_extension("main.rs"), "rs");
    assert_eq!(file_extension(".bashrc"), "");
    assert_eq!(file_extension("a.tar.gz"), "gz");
    assert_eq!(file_extension("noext"), "");
    assert_eq!(file_extension("dot."), "");
    assert_eq!(
        file_header_text("src/a.rs", 12, "2024-01-01 10:00:00", "rs"),
        "## File: `./src/a.rs`\n- **Size:** 12 bytes | **Modified:** 2024-01-01 10:00:00\n\n```rs\n"
    );
    let head = dump_header_text("proj", "2024-01-01T00:00:00+00:00");
    assert!(head.starts_with("# Codebase Dump\n\n> **NOTICE FOR AI:**"));
    assert!(head.ends_with("- **Root Directory:** `proj`\n- **Generated on:** 2024-01-01T00:00:00+00:00\n\n---\n\n"));
    assert_eq!(FILE_FOOTER, "```\n\n---\n\n");
    assert_eq!(NON_UTF8_LINE, "[NON-UTF8-SEQUENCE-REMOVED]");
}

#[test]
fn walk_decisions() {
    assert_eq!(walk_action(true, Some("src"), None), WalkAction::Skip);
    assert_eq!(walk_action(false, Some("Cargo.lock"), Some((false, false))), WalkAction::Skip);
    assert_eq!(walk_action(false, Some("out.md"), Some((true, false))), WalkAction::Skip);
    assert_eq!(walk_action(false, Some("llms.txt"), Some((false, true))), WalkAction::Defer);
    assert_eq!(walk_action(false, Some("a.rs"), Some((false, false))), WalkAction::Dump);
    assert_eq!(walk_action(false, None, None), WalkAction::Dump);
}

#[test]
fn paths_relative_to_the_working_directory() {
    assert_eq!(make_relative("/home/u/proj/src/a.rs", "/home/u/proj"), "src/a.rs");
    assert_eq!(make_relative("/home/u/proj", "/home/u/proj"), "");
    assert_eq!(make_relative("/etc/x", "/home"), "/etc/x");
    assert_eq!(make_relative("/home/user2/x", "/home/user"), "/home/user2/x");
    assert_eq!(relative_or_whole("/a/b", Some("b".to_string())), "b");
    assert_eq!(relative_or_whole("/a/b", None), "/a/b");
}

#[test]
fn durations_and_status_lines() {
    assert_eq!(hms_text(3661), "(01:01:01)");
    assert_eq!(hms_text(0), "(00:00:00)");
    assert_eq!(hms_text(360000), "(100:00:00)");
    assert_eq!(human_duration(3661), "1h 1m 1s");
    assert_eq!(human_duration(0), "0s");
    assert_eq!(human_duration(86400), "1day");
    assert_eq!(human_duration(90061), "1day 1h 1m 1s");
    assert_eq!(status_line("12:00:00", true), "[12:00:00] +");
    assert_eq!(status_line("12:00:00", false), "[12:00:00] -");
    assert_eq!(status_suffix(true), "│Online │");
    assert_eq!(status_suffix(false), "│Offline│");
}

#[test]
fn status_changes_are_reported_once() {
    let sec = 1_000_000_000u64;
    let mut m = StatusMonitor::new(0);
    let first = m.observe(true, 5).unwrap();
    assert_eq!((first.previous, first.up), (None, true));
    assert!(m.observe(true, 10 * sec).is_none());
    let change = m.observe(false, 3 * sec + 5 + 400).unwrap();
    assert_eq!((change.previous, change.up), (Some((3, true)), false));
    let back = m.observe(true, 3 * sec).unwrap();
    assert_eq!(back.previous, Some((0, false)));
}
