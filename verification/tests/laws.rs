use r_tools::cliphist::{history_entries, image_files, is_stale, share_jobs};
use r_tools::peek::swap_red_blue;
use r_tools::secrets::escape_val;
use r_tools::text::join_path;

/// How a POSIX shell reads a word of single-quoted parts, backslash escapes
/// and plain characters.
fn shell_word(w: &str) -> String {
    let mut out = String::new();
    let mut chars = w.chars();
    while let Some(c) = chars.next() {
        match c {
            '\'' => {
                for q in chars.by_ref() {
                    if q == '\'' {
                        break;
                    }
                    out.push(q);
                }
            }
            '\\' => {
                if let Some(n) = chars.next() {
                    out.push(n);
                }
            }
            other => out.push(other),
        }
    }
    out
}

#[test]
fn exported_values_read_back() {
    for v in ["plain", "it's", "''", "a'b'c", "", "back\\slash", "x' ; rm -rf / '"] {
        assert_eq!(shell_word(&format!("'{}'", escape_val(v))), v, "value {v:?}");
    }
}

#[test]
fn every_job_has_one_worker() {
    for n in 1..20usize {
        for p in 1..6usize {
            let shares = share_jobs(n, p);
            let mut seen = vec![0; n];
            for (w, list) in shares.iter().enumerate() {
                for (k, &j) in list.iter().enumerate() {
                    assert_eq!((j % shares.len(), j / shares.len()), (w, k));
                    seen[j] += 1;
                }
            }
            assert!(seen.iter().all(|&c| c == 1), "n={n} p={p}");
        }
    }
}

#[test]
fn listed_images_are_never_stale() {
    let lines: Vec<String> = ["1\t[[ binary data png ]]", "2\ttext", "3\t[[ binary data jpg ]]"]
        .iter()
        .map(|l| l.to_string())
        .collect();
    let entries = history_entries(&lines).unwrap();
    let valid = image_files(&entries);
    for e in &entries {
        if let Some(img) = &e.image {
            assert!(!is_stale(&img.file_name, &valid));
        }
    }
    assert!(is_stale("2.png", &valid));
}

#[test]
fn swapping_red_and_blue_twice_restores_pixels() {
    let px: Vec<u8> = (0u8..32).collect();
    assert_eq!(swap_red_blue(&swap_red_blue(&px)), px);
}

#[test]
fn absolute_paths_replace_the_base() {
    assert_eq!(join_path("/a", "/b"), "/b");
    let joined = std::path::PathBuf::from("/a").join("/b");
    assert_eq!(join_path("/a", "/b"), joined.to_str().unwrap());
    assert_eq!(join_path("/a", ""), std::path::PathBuf::from("/a").join("").to_str().unwrap());
}
