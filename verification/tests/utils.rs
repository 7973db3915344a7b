use healer::text::{contains_text, join_path, str_eq};
use healer::utils::{
    build_process_name_mapping, extract_executable_name, find_process_configs_by_truncated_name,
    smart_match_process_name, truncate_process_name, utf8_width, MAX_COMM_LEN,
};
use std::path::Path;

fn names(list: &[&str]) -> Vec<String> {
    list.iter().map(|s| s.to_string()).collect()
}

#[test]
fn short_names_are_left_alone() {
    assert_eq!(truncate_process_name(""), "");
    assert_eq!(truncate_process_name("nginx"), "nginx");
    assert_eq!(truncate_process_name("exactly15chars_"), "exactly15chars_");
    assert_eq!("exactly15chars_".len(), MAX_COMM_LEN);
}

#[test]
fn long_names_are_cut_to_fifteen_bytes() {
    assert_eq!(truncate_process_name("sixteen_chars___"), "sixteen_chars__");
    assert_eq!(truncate_process_name("a_very_long_executable_name"), "a_very_long_exe");
}

#[test]
fn truncation_keeps_whole_characters_within_fifteen_bytes() {
    // Eight characters in sixteen bytes: seven of them fit.
    let eight = "éééééééé";
    assert_eq!(eight.len(), 16);
    assert_eq!(truncate_process_name(eight), "ééééééé");
    // Sixteen characters in thirty-two bytes: still seven.
    let sixteen = "éééééééééééééééé";
    assert_eq!(truncate_process_name(sixteen), "ééééééé");
    // Fourteen bytes, then a character of two: it does not fit, the next one of one byte is not tried.
    assert_eq!(truncate_process_name("abcdefghijklmnéo"), "abcdefghijklmn");
    // Thirteen bytes, then a character of two: it fits exactly.
    assert_eq!(truncate_process_name("abcdefghijklméo"), "abcdefghijklmé");
    // Characters of three and four bytes.
    assert_eq!(truncate_process_name("€€€€€€"), "€€€€€");
    assert_eq!(truncate_process_name("𝄞𝄞𝄞𝄞"), "𝄞𝄞𝄞");
    assert_eq!(truncate_process_name("𝄞𝄞𝄞abcd"), "𝄞𝄞𝄞abc");
}

/// The longest prefix of `name` that ends between two characters and takes at most 15 bytes.
fn longest_prefix_that_fits(name: &str) -> &str {
    let mut end = name.len().min(MAX_COMM_LEN);
    while !name.is_char_boundary(end) {
        end -= 1;
    }
    &name[..end]
}

#[test]
fn truncation_is_the_longest_prefix_that_fits() {
    for name in all_texts(&['a', 'é', '€', '𝄞'], 7) {
        let kept = truncate_process_name(&name);
        assert!(kept.len() <= MAX_COMM_LEN, "for {:?}", name);
        assert!(name.starts_with(&kept), "for {:?}", name);
        if name.len() <= MAX_COMM_LEN {
            assert_eq!(kept, name);
        }
        assert_eq!(kept, longest_prefix_that_fits(&name), "for {:?}", name);
        assert_eq!(truncate_process_name(&kept), kept, "for {:?}", name);
    }
}

#[test]
fn character_widths_are_those_of_the_encoding() {
    for c in ['\0', 'a', '\u{7f}', '\u{80}', 'é', '\u{7ff}', '\u{800}', '€', '\u{d7ff}', '\u{e000}', '\u{ffff}', '\u{10000}', '𝄞', '\u{10ffff}'] {
        assert_eq!(utf8_width(c), c.len_utf8(), "for {:?}", c);
    }
}

#[test]
fn truncating_twice_changes_nothing() {
    for name in ["nginx", "a_very_long_executable_name", "éééééééééééééééé", ""] {
        let once = truncate_process_name(name);
        assert_eq!(truncate_process_name(&once), once);
    }
}

#[test]
fn executable_name_is_the_last_component() {
    assert_eq!(extract_executable_name("/usr/bin/nginx"), "nginx");
    assert_eq!(extract_executable_name("nginx"), "nginx");
    assert_eq!(extract_executable_name("./run.sh"), "run.sh");
    assert_eq!(extract_executable_name("/opt/app/"), "app");
    assert_eq!(extract_executable_name("/opt/app/."), "app");
    assert_eq!(extract_executable_name("/opt/.hidden"), ".hidden");
}

#[test]
fn command_without_a_file_name_stands_for_itself() {
    assert_eq!(extract_executable_name(""), "");
    assert_eq!(extract_executable_name("/"), "/");
    assert_eq!(extract_executable_name(".."), "..");
    assert_eq!(extract_executable_name("/usr/bin/.."), "/usr/bin/..");
    assert_eq!(extract_executable_name("."), ".");
    assert_eq!(extract_executable_name("./"), "./");
}

#[test]
fn executable_name_agrees_with_the_standard_library() {
    let samples = [
        "/usr/bin/nginx", "nginx", "", "/", "//", ".", "..", "./", "../", "a/", "a//", "a/.", "a/./",
        "a/..", "a/../", "./a", "../a", "/a/b/c", "a/b/../c", "a/./b", "/.", "/..", "/./", "...",
        "a/...", ".a", "a.", "/usr/bin/my prog", "/ü/ñandú", "./.", "a/.//", "a/.b/", "x/.../",
        "/opt/app/bin/server --flag", "a/b/./.",
    ];
    for sample in samples {
        let expected = Path::new(sample)
            .file_name()
            .and_then(|name| name.to_str())
            .unwrap_or(sample)
            .to_string();
        assert_eq!(extract_executable_name(sample), expected, "for {:?}", sample);
    }
}

fn all_texts(alphabet: &[char], max_len: usize) -> Vec<String> {
    let mut all = vec![String::new()];
    let mut last = vec![String::new()];
    for _ in 0..max_len {
        let mut next = vec![];
        for text in &last {
            for c in alphabet {
                let mut longer = text.clone();
                longer.push(*c);
                next.push(longer);
            }
        }
        all.extend(next.iter().cloned());
        last = next;
    }
    all
}

#[test]
fn executable_name_agrees_with_the_standard_library_on_all_short_paths() {
    for sample in all_texts(&['a', '.', '/', 'é'], 6) {
        let expected = Path::new(&sample)
            .file_name()
            .and_then(|name| name.to_str())
            .unwrap_or(&sample)
            .to_string();
        assert_eq!(extract_executable_name(&sample), expected, "for {:?}", sample);
    }
}

#[test]
fn joining_agrees_with_the_standard_library_on_all_short_directories() {
    for dir in all_texts(&['a', '.', '/'], 5) {
        let expected = Path::new(&dir).join("healer.pid");
        assert_eq!(join_path(&dir, "healer.pid"), expected.to_str().unwrap(), "for {:?}", dir);
    }
}

#[test]
fn finds_the_names_behind_a_truncated_name() {
    let all = names(&[
        "a_very_long_executable_one",
        "nginx",
        "a_very_long_executable_two",
        "a_very_long_exe",
    ]);
    assert_eq!(
        find_process_configs_by_truncated_name("a_very_long_exe", &all),
        names(&["a_very_long_executable_one", "a_very_long_executable_two", "a_very_long_exe"])
    );
    assert_eq!(find_process_configs_by_truncated_name("nginx", &all), names(&["nginx"]));
    assert!(find_process_configs_by_truncated_name("apache", &all).is_empty());
    assert!(find_process_configs_by_truncated_name("nginx", &[]).is_empty());
}

#[test]
fn mapping_groups_names_by_their_truncation() {
    let all = names(&[
        "a_very_long_executable_one",
        "nginx",
        "a_very_long_executable_two",
    ]);
    let mapping = build_process_name_mapping(&all);
    assert_eq!(mapping.len(), 2);
    assert_eq!(
        mapping.get("a_very_long_exe"),
        Some(&names(&["a_very_long_executable_one", "a_very_long_executable_two"]))
    );
    assert_eq!(mapping.get("nginx"), Some(&names(&["nginx"])));
    assert_eq!(mapping.get("a_very_long_executable_one"), None);
    for key in ["a_very_long_exe", "nginx"] {
        assert_eq!(mapping.get(key), Some(&find_process_configs_by_truncated_name(key, &all)));
    }
    assert!(build_process_name_mapping(&[]).is_empty());
}

#[test]
fn smart_match_takes_the_first_name() {
    let all = names(&[
        "a_very_long_executable_one",
        "nginx",
        "a_very_long_executable_two",
    ]);
    let mapping = build_process_name_mapping(&all);
    assert_eq!(smart_match_process_name("nginx", &mapping), Some("nginx".to_string()));
    assert_eq!(
        smart_match_process_name("a_very_long_exe", &mapping),
        Some("a_very_long_executable_one".to_string())
    );
    assert_eq!(smart_match_process_name("apache", &mapping), None);
}

#[test]
fn paths_are_joined_like_the_standard_library_joins_them() {
    assert_eq!(join_path("/var/run", "healer.pid"), "/var/run/healer.pid");
    assert_eq!(join_path("/var/run/", "healer.pid"), "/var/run/healer.pid");
    assert_eq!(join_path("", "healer.pid"), "healer.pid");
    assert_eq!(join_path("/", "healer.pid"), "/healer.pid");
    for dir in ["/var/run", "/var/run/", "", "/", "rel", "rel/", "/ü"] {
        let expected = Path::new(dir).join("healer.pid");
        assert_eq!(join_path(dir, "healer.pid"), expected.to_str().unwrap());
    }
}

#[test]
fn texts_compare_by_content() {
    assert!(str_eq("", ""));
    assert!(str_eq("nginx", "nginx"));
    assert!(!str_eq("nginx", "nginy"));
    assert!(!str_eq("nginx", "nginx "));
    assert!(str_eq("ñandú", "ñandú"));
}

#[test]
fn texts_are_searched_byte_by_byte() {
    assert!(contains_text("read failed: broken pipe", "broken pipe"));
    assert!(contains_text("connection reset", "connection"));
    assert!(contains_text("abc", ""));
    assert!(contains_text("", ""));
    assert!(!contains_text("", "a"));
    assert!(!contains_text("broken pip", "broken pipe"));
    assert!(contains_text("aab", "ab"));
    assert!(!contains_text("Broken Pipe", "broken pipe"));
    for (hay, needle) in [("hello world", "o w"), ("hello", "lo"), ("hello", "hello!"), ("aaa", "aaaa")] {
        assert_eq!(contains_text(hay, needle), hay.contains(needle));
    }
}
