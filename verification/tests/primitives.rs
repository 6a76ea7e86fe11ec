use shbox::env::EnvMap;
use shbox::paths;
use shbox::text;
use std::path::{Path, PathBuf};

const SAMPLES: [&str; 12] = [
    "",
    " ",
    "\n",
    "a b\tc",
    "  padded \u{a0}\u{2003}",
    "one\ntwo\r\nthree",
    "trailing\n",
    "\u{b}x\u{c}y\u{85}z",
    "\r",
    "a,,b,",
    "\u{e9}t\u{e9} \u{1f980}",
    "\t\t#\t",
];

fn strings(parts: Vec<&[char]>) -> Vec<String> {
    parts.into_iter().map(|part| part.iter().collect()).collect()
}

#[test]
fn setting_a_name_changes_only_that_name() {
    let mut env = EnvMap::new();
    env.set("LANG", "C");
    env.set("PATH", "/bin");
    env.set("LANG", "C.UTF-8");
    assert_eq!(env.get("LANG"), Some("C.UTF-8"));
    assert_eq!(env.get("PATH"), Some("/bin"));
    assert_eq!(env.get("HOME"), None);
    assert_eq!(env.entries().len(), 2);
    let copy = env.copy();
    env.set("PATH", "/usr/bin");
    assert_eq!(copy.get("PATH"), Some("/bin"));
    // Names are kept in byte order.
    env.set("A", "1");
    let names: Vec<&str> = env.entries().iter().map(|(name, _)| name.as_str()).collect();
    assert_eq!(names, ["A", "LANG", "PATH"]);
}

#[test]
fn lines_fields_and_trimming_agree_with_the_standard_library() {
    for sample in SAMPLES {
        let chars = text::chars_of(sample);
        assert_eq!(text::string_of(&chars), sample);
        let lines: Vec<&str> = sample.lines().collect();
        assert_eq!(strings(text::lines(&chars)), lines, "{sample:?}");
        let fields: Vec<&str> = sample.split_whitespace().collect();
        assert_eq!(strings(text::fields(&chars, false)), fields, "{sample:?}");
        let ascii: Vec<&str> = sample.split_ascii_whitespace().collect();
        assert_eq!(strings(text::fields(&chars, true)), ascii, "{sample:?}");
        assert_eq!(text::trim(&chars).iter().collect::<String>(), sample.trim(), "{sample:?}");
        assert_eq!(
            text::trim_end(&chars).iter().collect::<String>(),
            sample.trim_end(),
            "{sample:?}"
        );
        let parts: Vec<&str> = sample.split(',').collect();
        assert_eq!(strings(text::split(&chars, ',')), parts, "{sample:?}");
    }
}

#[test]
fn numbers_agree_with_the_standard_library() {
    for sample in ["", "0", "007", "+5", "-1", "4294967295", "4294967296", "1_0", " 1", "\u{661}"] {
        let chars = text::chars_of(sample);
        let expected = sample.parse::<u32>().ok().map(u64::from);
        assert_eq!(text::parse_unsigned(&chars, u32::MAX as u64), expected, "{sample:?}");
    }
    for number in [0, 9, 10, 65536, u64::MAX] {
        let written = text::decimal_text(number);
        assert_eq!(written, number.to_string());
        assert_eq!(text::parse_unsigned(&text::chars_of(&written), u64::MAX), Some(number));
    }
}

#[test]
fn text_is_valid_utf8_or_refused() {
    assert_eq!(text::utf8_text("\u{e9}".as_bytes()), Some("\u{e9}"));
    assert_eq!(text::utf8_text(&[0xc3]), None);
    assert!(text::utf8_longer_than(&text::chars_of("\u{e9}"), 1));
    assert!(!text::utf8_longer_than(&text::chars_of("\u{e9}"), 2));
}

#[test]
fn paths_agree_with_the_standard_library() {
    let samples = [
        "/", "/a", "/a/", "/a/b", "/a//b", "/a/./b", "a", "a/b", "/a/..", "/ab", "/a-b", "/a/b/c", "",
        ".", "./a", "./", "a/.", "..", "../a", ".a", "/.", "/./a",
    ];
    for sample in samples {
        let path = Path::new(sample);
        let name = path.file_name().map(|name| name.to_str().expect("text").to_string());
        assert_eq!(paths::file_name(sample), name, "{sample:?}");
        let parent = path.parent().map(|parent| parent.to_str().expect("text").to_string());
        assert_eq!(paths::parent(sample), parent, "{sample:?}");
        for other in samples {
            assert_eq!(
                paths::starts_with(sample, other),
                path.starts_with(other),
                "{sample:?} {other:?}"
            );
        }
    }
    for base in samples {
        for component in ["box", ".ssh", "a/b"] {
            let joined = Path::new(base).join(component);
            assert_eq!(paths::join(base, component), joined.to_str().expect("text"), "{base:?}");
        }
    }
    assert!(paths::contains("/data", "/data"));
    assert!(paths::contains("/data", "/data/box"));
    assert!(!paths::contains("/data", "/database"));
}

#[test]
fn sorted_paths_are_ordered_like_path_buffers() {
    let samples = ["/b", "/a/b", "/a", "/a-b", "/a/b/c", "/usr", "/usr/lib", "/a", "/usr-local"];
    let mut sorted = Vec::new();
    for sample in samples {
        paths::insert_sorted(&mut sorted, sample.to_string());
    }
    let mut expected: Vec<PathBuf> = samples.iter().map(PathBuf::from).collect();
    expected.sort();
    expected.dedup();
    let expected: Vec<&str> = expected.iter().map(|path| path.to_str().expect("text")).collect();
    assert_eq!(sorted, expected);
    assert!(paths::is_before("/a/b", "/a-b"));
}
