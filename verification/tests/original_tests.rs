use std::collections::HashSet;
use std::path::Path;

use junit_report::listing::{output_tag, select_junit_files, WalkEntry};
use junit_report::path::is_junit_xml;
use junit_report::summary::failure_header;
use junit_report::text::{parse_u32, simple_type_name};
use junit_report::xml::{extract_system_content, parse_xml_content};

// ---- is_junit_xml ----

#[test]
fn test_is_junit_xml_test_prefix() {
    assert!(is_junit_xml("surefire-reports/TEST-com.example.FooTest.xml"));
}

#[test]
fn test_is_junit_xml_surefire_reports_dir() {
    assert!(is_junit_xml("surefire-reports/report.xml"));
}

#[test]
fn test_is_junit_xml_test_results_dir() {
    assert!(is_junit_xml("test-results/result.xml"));
}

#[test]
fn test_is_junit_xml_surefire_it_reports_dir() {
    assert!(is_junit_xml("surefire-it-reports/report.xml"));
}

#[test]
fn test_is_junit_xml_rejects_unknown_dir() {
    assert!(!is_junit_xml("build/reports/result.xml"));
}

#[test]
fn test_is_junit_xml_rejects_non_xml() {
    assert!(!is_junit_xml("surefire-reports/TEST-Foo.txt"));
}

#[test]
fn test_is_junit_xml_test_results_subdir_test() {
    assert!(is_junit_xml("test-results/test/result.xml"));
}

#[test]
fn test_is_junit_xml_test_results_subdir_integration() {
    assert!(is_junit_xml("test-results/integrationTest/result.xml"));
}

#[test]
fn test_is_junit_xml_surefire_reports_subdir() {
    assert!(is_junit_xml("surefire-reports/subdir/result.xml"));
}

#[test]
fn test_is_junit_xml_rejects_unknown_ancestor() {
    assert!(!is_junit_xml("build/reports/subdir/result.xml"));
}

// ---- parse_u32 ----

#[test]
fn test_parse_u32_valid() {
    assert_eq!(parse_u32(Some("42")), 42);
}

#[test]
fn test_parse_u32_invalid() {
    assert_eq!(parse_u32(Some("abc")), 0);
}

#[test]
fn test_parse_u32_none() {
    assert_eq!(parse_u32(None), 0);
}

// ---- simple_type_name ----

#[test]
fn test_simple_type_name_fqn() {
    assert_eq!(simple_type_name("org.junit.AssertionError"), "AssertionError");
}

#[test]
fn test_simple_type_name_simple() {
    assert_eq!(simple_type_name("AssertionError"), "AssertionError");
}

#[test]
fn test_simple_type_name_empty() {
    assert_eq!(simple_type_name(""), "");
}

// ---- parse_xml_content ----

#[test]
fn test_parse_all_passing() {
    let xml = r#"<?xml version="1.0" encoding="UTF-8"?>
<testsuite name="com.example.FooTest" tests="2" failures="0" errors="0" skipped="0" time="0.05">
  <testcase name="testA" classname="com.example.FooTest" time="0.02"/>
  <testcase name="testB" classname="com.example.FooTest" time="0.03"/>
</testsuite>"#;

    let (suites, failures) = parse_xml_content(xml, "TEST-FooTest.xml").unwrap();
    assert_eq!(suites.len(), 1);
    assert_eq!(suites[0].tests, 2);
    assert!(failures.is_empty());
}

#[test]
fn test_parse_with_failure() {
    let xml = r#"<?xml version="1.0" encoding="UTF-8"?>
<testsuite name="com.example.FooTest" tests="2" failures="1" errors="0" skipped="0" time="0.05">
  <testcase name="testA" classname="com.example.FooTest" time="0.02">
    <failure message="expected true but was false" type="org.junit.AssertionError">
      stack trace here
    </failure>
  </testcase>
  <testcase name="testB" classname="com.example.FooTest" time="0.03"/>
</testsuite>"#;

    let (suites, failures) = parse_xml_content(xml, "TEST-FooTest.xml").unwrap();
    assert_eq!(suites[0].failures, 1);
    assert_eq!(failures.len(), 1);
    assert_eq!(failures[0].name, "testA");
    assert_eq!(failures[0].failure_type, "org.junit.AssertionError");
    assert_eq!(failures[0].message, "expected true but was false");
    assert_eq!(failures[0].body, "stack trace here");
}

#[test]
fn test_parse_with_error() {
    let xml = r#"<?xml version="1.0" encoding="UTF-8"?>
<testsuite name="com.example.FooTest" tests="1" failures="0" errors="1" skipped="0" time="0.01">
  <testcase name="testA" classname="com.example.FooTest" time="0.01">
    <error message="NullPointerException" type="java.lang.NullPointerException">
      npe trace
    </error>
  </testcase>
</testsuite>"#;

    let (_, failures) = parse_xml_content(xml, "TEST-FooTest.xml").unwrap();
    assert_eq!(failures.len(), 1);
    assert_eq!(failures[0].failure_type, "java.lang.NullPointerException");
    assert_eq!(failures[0].message, "NullPointerException");
}

#[test]
fn test_parse_with_skipped() {
    let xml = r#"<?xml version="1.0" encoding="UTF-8"?>
<testsuite name="com.example.FooTest" tests="2" failures="0" errors="0" skipped="1" time="0.01">
  <testcase name="testA" classname="com.example.FooTest" time="0.01"/>
  <testcase name="testB" classname="com.example.FooTest" time="0.00">
    <skipped/>
  </testcase>
</testsuite>"#;

    let (suites, failures) = parse_xml_content(xml, "TEST-FooTest.xml").unwrap();
    assert_eq!(suites[0].skipped, 1);
    assert!(failures.is_empty());
}

#[test]
fn test_parse_testsuites_wrapper() {
    let xml = r#"<?xml version="1.0" encoding="UTF-8"?>
<testsuites>
  <testsuite name="com.example.FooTest" tests="1" failures="0" errors="0" skipped="0" time="0.01">
    <testcase name="testA" classname="com.example.FooTest" time="0.01"/>
  </testsuite>
  <testsuite name="com.example.BarTest" tests="1" failures="1" errors="0" skipped="0" time="0.02">
    <testcase name="testB" classname="com.example.BarTest" time="0.02">
      <failure message="oops" type="AssertionError">trace</failure>
    </testcase>
  </testsuite>
</testsuites>"#;

    let (suites, failures) = parse_xml_content(xml, "combined.xml").unwrap();
    assert_eq!(suites.len(), 2);
    assert_eq!(failures.len(), 1);
    assert_eq!(failures[0].name, "testB");
}

#[test]
fn test_parse_invalid_xml() {
    let result = parse_xml_content("<not valid xml", "bad.xml");
    assert!(result.is_err());
}

// ---- summary markdown ----

#[test]
fn test_summary_header_with_type_and_message() {
    let label = simple_type_name("org.junit.AssertionError");
    assert_eq!(label, "AssertionError");
    let header = failure_header("testCase9", "org.junit.AssertionError", "Assertion error message");
    assert_eq!(header, "### testCase9 (AssertionError: Assertion error message)");
}

#[test]
fn test_summary_header_without_message() {
    let label = simple_type_name("AssertionError");
    assert!(!label.is_empty());
    let header = failure_header("testFoo", "AssertionError", "");
    assert_eq!(header, "### testFoo (AssertionError)");
}

// ---- extract_system_content ----

#[test]
fn test_extract_sysout() {
    let xml = r#"<?xml version="1.0" encoding="UTF-8"?>
<testsuite name="FooTest" tests="1" failures="0" errors="0" skipped="0" time="0.01">
  <testcase name="testA" classname="FooTest" time="0.01"/>
  <system-out>hello stdout</system-out>
  <system-err>hello stderr</system-err>
</testsuite>"#;

    let out = extract_system_content(xml, "system-out").unwrap();
    assert_eq!(out, "hello stdout");
}

#[test]
fn test_extract_syserr() {
    let xml = r#"<?xml version="1.0" encoding="UTF-8"?>
<testsuite name="FooTest" tests="1" failures="0" errors="0" skipped="0" time="0.01">
  <testcase name="testA" classname="FooTest" time="0.01"/>
  <system-out>hello stdout</system-out>
  <system-err>hello stderr</system-err>
</testsuite>"#;

    let err = extract_system_content(xml, "system-err").unwrap();
    assert_eq!(err, "hello stderr");
}

#[test]
fn test_extract_missing_element() {
    let xml = r#"<?xml version="1.0" encoding="UTF-8"?>
<testsuite name="FooTest" tests="1" failures="0" errors="0" skipped="0" time="0.01">
  <testcase name="testA" classname="FooTest" time="0.01"/>
</testsuite>"#;

    let out = extract_system_content(xml, "system-out").unwrap();
    assert_eq!(out, "");
}

// ---- output flags ----

#[test]
fn test_output_both_flags_is_error() {
    let is_error = output_tag(true, true).is_none();
    assert!(is_error);
}

#[test]
fn test_output_no_flags_is_error() {
    let is_error = output_tag(false, false).is_none();
    assert!(is_error);
}

#[test]
fn test_output_sysout_only_is_valid() {
    let is_error = output_tag(true, false).is_none();
    assert!(!is_error);
}

#[test]
fn test_output_syserr_only_is_valid() {
    let is_error = output_tag(false, true).is_none();
    assert!(!is_error);
}

// ---- choosing report files from a directory walk ----

/// The entries that walking `root` meets, given the files below it: `root`
/// itself, each directory once before what it holds, and the files.
fn walk(root: &str, files: &[&str]) -> Vec<WalkEntry> {
    let mut entries = vec![WalkEntry { path: Some(root.to_string()), is_file: false }];
    let mut seen: HashSet<String> = HashSet::new();
    for f in files {
        let parts: Vec<&str> = f.split('/').collect();
        for k in 1..parts.len() {
            let dir = format!("{}/{}", root, parts[..k].join("/"));
            if seen.insert(dir.clone()) {
                entries.push(WalkEntry { path: Some(dir), is_file: false });
            }
        }
        entries.push(WalkEntry { path: Some(format!("{}/{}", root, f)), is_file: true });
    }
    entries
}

fn parent_dirs(files: &[String]) -> HashSet<String> {
    files
        .iter()
        .filter_map(|f| Path::new(f).parent()?.to_str().map(String::from))
        .collect()
}

#[test]
fn test_find_junit_files_test_results_subdir() {
    let root = "/tmp/junit-report-test-subdir";
    let entries = walk(
        root,
        &["build/test-results/test/result.xml", "build/test-results/integrationTest/result.xml"],
    );
    let mut files = select_junit_files(&entries);
    files.sort();
    assert_eq!(files.len(), 2);
    assert!(files[0].ends_with("integrationTest/result.xml"));
    assert!(files[1].ends_with("test/result.xml"));
}

#[test]
fn test_find_junit_files_multiproject() {
    let root = "/tmp/junit-report-test-multiproject";
    let entries = walk(
        root,
        &[
            "subproject-a/build/test-results/test/TEST-FooTest.xml",
            "subproject-a/build/test-results/integrationTest/TEST-BarTest.xml",
            "subproject-b/build/test-results/test/TEST-BazTest.xml",
        ],
    );
    let files = select_junit_files(&entries);
    assert_eq!(files.len(), 3);
    assert_eq!(parent_dirs(&files).len(), 3);
}

#[test]
fn test_find_junit_files_dedup_dirs() {
    let root = "/tmp/junit-report-test-dedup";
    let entries = walk(root, &["test-results/TEST-FooTest.xml", "test-results/TEST-BarTest.xml"]);
    let files = select_junit_files(&entries);
    assert_eq!(files.len(), 2);
    assert_eq!(parent_dirs(&files).len(), 1);
}

#[test]
fn test_find_junit_files_ignores_non_junit_xml() {
    let root = "/tmp/junit-report-test-non-junit";
    let entries = walk(root, &["build/reports/result.xml", "test-results/TEST-FooTest.xml"]);
    let files = select_junit_files(&entries);
    assert_eq!(files.len(), 1);
    assert!(files[0].ends_with("TEST-FooTest.xml"));
}
