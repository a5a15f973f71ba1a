use svlint::control::control_comment;
use svlint::path::path_file_name;
use svlint::text::chars_of;

#[test]
fn file_names_follow_std_paths() {
    let cases = [
        "", "/", "a", "a/b", "a/b/", "a/b/.", "a/b/..", ".", "..", "./", "./a", "a//b", "/a/b.sv",
        "foo.txt/.//", "a/./b", "a/b/./", "...", "a/...", "//", "a/.hidden", ".sv", "x/.sv",
    ];
    for case in cases.iter() {
        let expected = std::path::Path::new(case).file_name().and_then(|f| f.to_str()).map(|f| f.to_string());
        assert_eq!(path_file_name(case), expected, "path {:?}", case);
    }
}

#[test]
fn chars_of_keeps_every_character() {
    assert_eq!(chars_of("aé\u{3000}"), vec!['a', 'é', '\u{3000}']);
    assert_eq!(chars_of(""), Vec::<char>::new());
}

fn expected_by_regex(re: &regex::Regex, text: &str) -> Option<(bool, String)> {
    re.captures(text).map(|caps| (caps.get(1).unwrap().as_str() != "off", caps.get(2).unwrap().as_str().to_string()))
}

fn parsed(text: &str) -> Option<(bool, String)> {
    control_comment(text).map(|c| (c.enable, c.rule))
}

#[test]
fn control_comments_are_read() {
    assert_eq!(parsed("/* svlint off implicit_case_default */"), Some((false, "implicit_case_default".to_string())));
    assert_eq!(parsed("/*svlint on rule_1*/"), Some((true, "rule_1".to_string())));
    assert_eq!(parsed("/*\tsvlint\n off \u{3000}x */"), Some((false, "x".to_string())));
    assert_eq!(parsed("// /* svlint off a */ and /* svlint on b */"), Some((false, "a".to_string())));
    assert_eq!(parsed("/* svlint off Rule */"), None);
    assert_eq!(parsed("/* svlint offx */"), None);
    assert_eq!(parsed("/* svlintoff x */"), None);
    assert_eq!(parsed("/* svlint off x y */"), None);
    assert_eq!(parsed("/* svlint off */"), None);
    assert_eq!(parsed("// svlint off x"), None);
    assert_eq!(parsed("/* svlint off x"), None);
}

#[test]
fn control_comments_agree_with_the_pattern() {
    let pieces = ["/*", "*/", " ", "\t", "\u{a0}", "svlint", "on", "off", "of", "a", "_1", "Z", "*", "/", "x y", "svlint off a"];
    let mut texts: Vec<String> = vec![String::new()];
    for _ in 0..4 {
        let mut next = Vec::new();
        for t in texts.iter() {
            for p in pieces.iter() {
                next.push(format!("{}{}", t, p));
            }
        }
        texts = next;
    }
    texts.push("/* svlint off abc_9 */".to_string());
    texts.push("xx/*  svlint \t on  a1  */yy/* svlint off b */".to_string());
    let re = regex::Regex::new(r"/\*\s*svlint\s+(on|off)\s+([a-z0-9_]+)\s*\*/").unwrap();
    for t in texts.iter() {
        assert_eq!(parsed(t), expected_by_regex(&re, t), "text {:?}", t);
    }
}
