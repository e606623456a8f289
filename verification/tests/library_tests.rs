use junit_report::listing::{output_tag, result_directories};
use junit_report::path::{components, is_junit_xml, parent_dir};
use junit_report::report::{FailedTest, TestSuite};
use junit_report::summary::{render_summary, summarize, Summary};
use junit_report::text::{decimal_string, parse_decimal_u32, parse_u32, simple_type_name, trim};
use junit_report::xml::{extract_system_content, parse_xml_content};

fn failed(name: &str, ty: &str, msg: &str, body: &str, file: &str) -> FailedTest {
    FailedTest {
        name: name.to_string(),
        failure_type: ty.to_string(),
        message: msg.to_string(),
        body: body.to_string(),
        file: file.to_string(),
    }
}

fn suite(tests: u32, failures: u32, errors: u32, skipped: u32) -> TestSuite {
    TestSuite { tests, failures, errors, skipped }
}

// ---- numbers ----

#[test]
fn decimal_parse_accepts_plus_and_leading_zeros() {
    assert_eq!(parse_decimal_u32("+7"), Some(7));
    assert_eq!(parse_decimal_u32("007"), Some(7));
    assert_eq!(parse_decimal_u32("4294967295"), Some(u32::MAX));
}

#[test]
fn decimal_parse_refuses_what_str_parse_refuses() {
    assert_eq!(parse_decimal_u32(""), None);
    assert_eq!(parse_decimal_u32("+"), None);
    assert_eq!(parse_decimal_u32("-1"), None);
    assert_eq!(parse_decimal_u32(" 1"), None);
    assert_eq!(parse_decimal_u32("1.5"), None);
    assert_eq!(parse_decimal_u32("4294967296"), None);
    assert_eq!(parse_decimal_u32("99999999999x"), None);
    for s in ["", "+", "-1", " 1", "1.5", "4294967296", "12", "+12", "0"] {
        assert_eq!(parse_decimal_u32(s), s.parse::<u32>().ok());
    }
}

#[test]
fn decimal_string_formats_like_display() {
    for n in [0u32, 7, 10, 99, 100, 12345, u32::MAX] {
        assert_eq!(decimal_string(n), n.to_string());
    }
}

#[test]
fn law_parse_after_format_on_values() {
    for n in [0u32, 1, 9, 10, 4242, u32::MAX] {
        assert_eq!(parse_u32(Some(decimal_string(n).as_str())), n);
    }
}

// ---- text ----

#[test]
fn trim_removes_unicode_whitespace() {
    assert_eq!(trim("\n   stack trace here\n    "), "stack trace here");
    assert_eq!(trim("\u{3000}\u{a0}x y\u{2028}"), "x y");
    assert_eq!(trim(" \t\r\n "), "");
    assert_eq!(trim(""), "");
    for s in ["  a b  ", "\u{85}z\u{200a}", "q"] {
        assert_eq!(trim(s), s.trim());
    }
}

#[test]
fn simple_type_name_is_idempotent_on_values() {
    for s in ["a.b.C", "C", "", "a.", ".b", "x..y"] {
        let once = simple_type_name(s);
        assert!(!once.contains('.'));
        assert_eq!(simple_type_name(once), once);
        assert_eq!(once, s.rsplit('.').next().unwrap());
    }
}

// ---- paths ----

#[test]
fn components_skip_empty_and_dot_segments() {
    let cs = components("./a//b/./c/");
    let names: Vec<String> = cs.iter().map(|c| c.iter().collect()).collect();
    assert_eq!(names, vec!["a", "b", "c"]);
}

#[test]
fn is_junit_xml_edge_cases() {
    assert!(is_junit_xml("TEST-x.xml"));
    assert!(is_junit_xml("/abs/test-results/./x.xml"));
    assert!(is_junit_xml("test-results//x.xml/"));
    assert!(!is_junit_xml("test-results"));
    assert!(!is_junit_xml("test-results/"));
    assert!(!is_junit_xml("x/test-results.xml"));
    assert!(!is_junit_xml("TEST-.xml/.."));
    assert!(!is_junit_xml(""));
}

#[test]
fn parent_dir_follows_path_parent() {
    assert_eq!(parent_dir("a/b/c.xml"), "a/b");
    assert_eq!(parent_dir("c.xml"), "");
    assert_eq!(parent_dir("./x.xml"), ".");
    assert_eq!(parent_dir("/x.xml"), "/");
    assert_eq!(parent_dir("/"), ".");
    assert_eq!(parent_dir(""), ".");
    assert_eq!(parent_dir("."), "");
    assert_eq!(parent_dir("a//b.xml"), "a");
    assert_eq!(parent_dir("a/./b.xml"), "a");
    assert_eq!(parent_dir("a/b/"), "a");
    for p in ["a/b/c.xml", "c.xml", "./x.xml", "/x.xml", "a//b.xml", "a/./b.xml", "a/b/", "x/../y", "./a/./b"] {
        let expected = std::path::Path::new(p).parent().and_then(|q| q.to_str()).unwrap_or(".");
        assert_eq!(parent_dir(p), expected, "parent of {}", p);
    }
}

#[test]
fn result_directories_sorted_without_duplicates() {
    let files: Vec<String> = [
        "r/test-results/test/TEST-B.xml",
        "r/surefire-reports/TEST-A.xml",
        "r/test-results/test/TEST-A.xml",
        "r/test-results/integrationTest/TEST-C.xml",
    ]
    .iter()
    .map(|s| s.to_string())
    .collect();
    let dirs = result_directories(&files);
    assert_eq!(
        dirs,
        vec!["r/surefire-reports", "r/test-results/integrationTest", "r/test-results/test"]
    );
    assert!(result_directories(&Vec::new()).is_empty());
}

#[test]
fn output_tag_names_the_stream() {
    assert_eq!(output_tag(true, false), Some("system-out"));
    assert_eq!(output_tag(false, true), Some("system-err"));
    assert_eq!(output_tag(true, true), None);
}

// ---- reports ----

#[test]
fn nested_suites_are_not_counted_twice() {
    let xml = r#"<testsuite tests="3" failures="1">
  <testsuite tests="2" failures="1">
    <testcase name="inner"><failure message="m" type="T">x</failure></testcase>
  </testsuite>
  <testcase name="outer"><error type="a.b.E">  y  </error><failure/></testcase>
</testsuite>"#;
    let (suites, failures) = parse_xml_content(xml, "f.xml").unwrap();
    assert_eq!(suites.len(), 1);
    assert_eq!(suites[0], suite(3, 1, 0, 0));
    assert_eq!(failures.len(), 2);
    assert_eq!(failures[0].name, "outer");
    assert_eq!(failures[0].failure_type, "a.b.E");
    assert_eq!(failures[0].message, "");
    assert_eq!(failures[0].body, "y");
    assert_eq!(failures[1].body, "");
    assert!(failures.iter().all(|f| f.file == "f.xml"));
}

#[test]
fn counts_that_are_no_numbers_read_as_zero() {
    let xml = r#"<r xmlns:x="urn:x"><testsuite x:tests="5" failures="-1" errors="+2" skipped=" 1"/></r>"#;
    let (suites, _) = parse_xml_content(xml, "f.xml").unwrap();
    assert_eq!(suites, vec![suite(5, 0, 2, 0)]);
}

#[test]
fn invalid_documents_are_errors() {
    let e = parse_xml_content("<a><b></a>", "x").unwrap_err();
    assert!(!e.message.is_empty());
    assert!(extract_system_content("", "system-out").is_err());
}

#[test]
fn system_content_is_not_trimmed() {
    let xml = "<s><system-out>\n  a\n</system-out><system-out>b</system-out></s>";
    assert_eq!(extract_system_content(xml, "system-out").unwrap(), "\n  a\n");
}

// ---- summary ----

#[test]
fn summarize_adds_counts_over_files() {
    let reports = vec![
        (vec![suite(5, 1, 1, 1), suite(2, 0, 0, 0)], vec![failed("a", "T", "m", "", "f1")]),
        (vec![suite(3, 0, 0, 0)], vec![failed("b", "", "", "body", "f2")]),
    ];
    let s = summarize(reports).unwrap();
    assert_eq!((s.total_tests, s.total_failures, s.total_errors, s.total_skipped), (10, 1, 1, 1));
    assert_eq!(s.failures.len(), 2);
    assert_eq!(s.failures[1].name, "b");
}

#[test]
fn summarize_refuses_overflowing_totals() {
    let reports = vec![(vec![suite(u32::MAX, 0, 0, 0)], vec![]), (vec![suite(1, 0, 0, 0)], vec![])];
    assert!(summarize(reports).is_none());
}

#[test]
fn render_summary_exact_text() {
    let s = Summary {
        total_tests: 10,
        total_failures: 2,
        total_errors: 1,
        total_skipped: 3,
        failures: vec![
            failed("testA", "org.junit.AssertionError", "boom", "line1\nline2", "dir/TEST-A.xml"),
            failed("testB", "", "ignored", "", "dir/TEST-B.xml"),
        ],
    };
    let expected = "# Summary\nSucceeded: 4\nFailure: 3\nSkip: 3\n\n## Failures\n\
### testA (AssertionError: boom)\npath: dir/TEST-A.xml\n\n```\nline1\nline2\n```\n\n\
### testB\npath: dir/TEST-B.xml\n\n\n";
    assert_eq!(render_summary(&s, false), expected);
    let failures_only = render_summary(&s, true);
    assert!(failures_only.starts_with("## Failures\n"));
    assert_eq!(format!("# Summary\nSucceeded: 4\nFailure: 3\nSkip: 3\n\n{}", failures_only), expected);
}

#[test]
fn render_summary_saturates_and_omits_empty_failures() {
    let s = Summary { total_tests: 1, total_failures: 5, total_errors: 0, total_skipped: 0, failures: vec![] };
    assert_eq!(render_summary(&s, false), "# Summary\nSucceeded: 0\nFailure: 5\nSkip: 0\n\n");
    assert_eq!(render_summary(&s, true), "");
}
