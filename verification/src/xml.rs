//! The XML model that the reports are read from, and what is read from it.
use vstd::prelude::*;
use crate::report::{TestSuite, FailedTest, FailedTestView, failed_views};
use crate::text::{parsed_u32, parse_u32, trimmed, trim};

verus! {

/// One node of a parsed XML document: an element, or text, a comment, a
/// processing instruction or the document root (these have an empty tag).
/// Nodes refer to each other by their position in the document's node list.
#[derive(Debug)]
pub struct XmlNode {
    /// The local name of an element; empty for other nodes.
    pub tag: String,
    /// The position of the parent node.
    pub parent: Option<usize>,
    /// The positions of the child nodes, in document order.
    pub children: Vec<usize>,
    /// The attributes as (local name, value), in document order.
    pub attributes: Vec<(String, String)>,
    /// The text: for an element, that of its first child when it is text.
    pub text: Option<String>,
}

/// An XML node as plain values.
pub struct XmlNodeView {
    pub tag: Seq<char>,
    pub parent: Option<usize>,
    pub children: Seq<usize>,
    pub attributes: Seq<(Seq<char>, Seq<char>)>,
    pub text: Option<Seq<char>>,
}

/// The text of an optional string.
pub open spec fn opt_view(o: Option<String>) -> Option<Seq<char>> {
    match o {
        Some(t) => Some(t@),
        None => None,
    }
}

impl View for XmlNode {
    type V = XmlNodeView;

    open spec fn view(&self) -> XmlNodeView {
        XmlNodeView {
            tag: self.tag@,
            parent: self.parent,
            children: self.children@,
            attributes: self.attributes@.map_values(|a: (String, String)| (a.0@, a.1@)),
            text: opt_view(self.text),
        }
    }
}

/// The views of a node list.
pub open spec fn nodes_view(nodes: Seq<XmlNode>) -> Seq<XmlNodeView> {
    nodes.map_values(|n: XmlNode| n@)
}

/// Every parent and child position names a node of the list.
pub open spec fn well_indexed(nodes: Seq<XmlNodeView>) -> bool {
    forall|i: int|
        0 <= i < nodes.len() ==> {
            &&& (#[trigger] nodes[i]).parent matches Some(p) ==> p < nodes.len()
            &&& forall|k: int| 0 <= k < nodes[i].children.len() ==> #[trigger] nodes[i].children[k] < nodes.len()
        }
}

/// The node list, in document order, that `roxmltree::Document::parse` builds
/// from `content`, or none where it refuses the text.
pub uninterp spec fn xml_document(content: Seq<char>) -> Option<Seq<XmlNodeView>>;

#[verifier::external_type_specification]
#[verifier::external_body]
pub struct ExXmlError(roxmltree::Error);

/// Calls `roxmltree::Document::parse` and lists the document's nodes in
/// document order (`Document::descendants`), giving each its local tag name,
/// parent and child positions (`NodeId::get_usize`), attributes and text.
/// Trusted: the result is `xml_document(content)`, and the positions it holds
/// name nodes of the list (roxmltree's node ids index its node list). What
/// roxmltree accepts as XML is not stated.
#[verifier::external_body]
fn parse_document(content: &str) -> (res: Result<Vec<XmlNode>, roxmltree::Error>)
    ensures
        res is Ok <==> xml_document(content@) is Some,
        res matches Ok(nodes) ==> xml_document(content@) == Some(nodes_view(nodes@))
            && well_indexed(nodes_view(nodes@)),
{
    let doc = roxmltree::Document::parse(content)?;
    Ok(doc.descendants().map(|n| XmlNode {
        tag: n.tag_name().name().to_string(),
        parent: n.parent().map(|p| p.id().get_usize()),
        children: n.children().map(|c| c.id().get_usize()).collect(),
        attributes: n.attributes().map(|a| (a.name().to_string(), a.value().to_string())).collect(),
        text: n.text().map(String::from),
    }).collect())
}

/// The message of a roxmltree parse error, as its `Display` writes it.
/// Trusted, with nothing stated of the text.
#[verifier::external_body]
fn xml_error_message(e: &roxmltree::Error) -> String {
    format!("{}", e)
}

/// A document that could not be parsed, with roxmltree's message.
#[derive(Debug)]
pub struct XmlError {
    pub message: String,
}


// ---- attributes and text ----

/// The value of the first attribute named `name` at position `i` or later.
pub open spec fn attribute_from(attrs: Seq<(Seq<char>, Seq<char>)>, name: Seq<char>, i: int) -> Option<
    Seq<char>,
>
    decreases attrs.len() - i,
{
    if i < 0 || i >= attrs.len() {
        None
    } else if attrs[i].0 == name {
        Some(attrs[i].1)
    } else {
        attribute_from(attrs, name, i + 1)
    }
}

/// The value of a node's first attribute named `name`, as `Node::attribute` finds it.
pub open spec fn attribute_value(n: XmlNodeView, name: Seq<char>) -> Option<Seq<char>> {
    attribute_from(n.attributes, name, 0)
}

/// The value of an attribute, or empty text when the node lacks it.
pub open spec fn attribute_or_empty(n: XmlNodeView, name: Seq<char>) -> Seq<char> {
    match attribute_value(n, name) {
        Some(v) => v,
        None => Seq::empty(),
    }
}

/// A count attribute read as a `u32`, or 0 when it is absent or no number.
pub open spec fn count_attribute(n: XmlNodeView, name: Seq<char>) -> u32 {
    match attribute_value(n, name) {
        Some(v) => match parsed_u32(v) {
            Some(x) => x,
            None => 0,
        },
        None => 0,
    }
}

/// The text of a node, or empty text when it has none.
pub open spec fn text_or_empty(n: XmlNodeView) -> Seq<char> {
    match n.text {
        Some(t) => t,
        None => Seq::empty(),
    }
}

/// Finds the value of a node's first attribute named `name`.
fn find_attribute<'a>(node: &'a XmlNode, name: &String) -> (r: Option<&'a String>)
    ensures
        match r {
            Some(v) => attribute_value(node@, name@) == Some(v@),
            None => attribute_value(node@, name@) is None,
        },
{
    let attrs = &node.attributes;
    let ghost av = node@.attributes;
    let mut i: usize = 0;
    while i < attrs.len()
        invariant
            i <= attrs@.len(),
            av == attrs@.map_values(|a: (String, String)| (a.0@, a.1@)),
            av == node@.attributes,
            attribute_from(av, name@, 0) == attribute_from(av, name@, i as int),
        decreases attrs@.len() - i,
    {
        assert(av[i as int] == (attrs@[i as int].0@, attrs@[i as int].1@));
        if attrs[i].0 == *name {
            return Some(&attrs[i].1);
        }
        i = i + 1;
    }
    None
}

/// Reads a count attribute of a node.
fn count_of(node: &XmlNode, name: &String) -> (r: u32)
    ensures
        r == count_attribute(node@, name@),
{
    match find_attribute(node, name) {
        Some(v) => parse_u32(Some(v.as_str())),
        None => parse_u32(None),
    }
}

/// Reads an attribute of a node, or empty text.
fn attribute_text(node: &XmlNode, name: &String) -> (r: String)
    ensures
        r@ == attribute_or_empty(node@, name@),
{
    match find_attribute(node, name) {
        Some(v) => v.clone(),
        None => String::new(),
    }
}

// ---- suites and failures ----

/// A `<testsuite>` element that is not nested in another `<testsuite>`.
pub open spec fn is_top_level_suite(nodes: Seq<XmlNodeView>, i: int) -> bool {
    &&& nodes[i].tag == "testsuite"@
    &&& !(nodes[i].parent matches Some(p) && nodes[p as int].tag == "testsuite"@)
}

/// The counts that a suite element declares.
pub open spec fn suite_counts(n: XmlNodeView) -> TestSuite {
    TestSuite {
        tests: count_attribute(n, "tests"@),
        failures: count_attribute(n, "failures"@),
        errors: count_attribute(n, "errors"@),
        skipped: count_attribute(n, "skipped"@),
    }
}

/// The suites among the first `upto` nodes, in document order.
pub open spec fn report_suites(nodes: Seq<XmlNodeView>, upto: int) -> Seq<TestSuite>
    decreases upto,
{
    if upto <= 0 {
        Seq::empty()
    } else if is_top_level_suite(nodes, upto - 1) {
        report_suites(nodes, upto - 1).push(suite_counts(nodes[upto - 1]))
    } else {
        report_suites(nodes, upto - 1)
    }
}

/// The element names that record a failed test.
pub open spec fn is_failure_tag(t: Seq<char>) -> bool {
    t == "failure"@ || t == "error"@
}

/// The record of failure element `k` of test case `c`.
pub open spec fn failure_entry(
    nodes: Seq<XmlNodeView>,
    c: int,
    k: int,
    path: Seq<char>,
) -> FailedTestView {
    FailedTestView {
        name: attribute_or_empty(nodes[c], "name"@),
        failure_type: attribute_or_empty(nodes[k], "type"@),
        message: attribute_or_empty(nodes[k], "message"@),
        body: trimmed(text_or_empty(nodes[k])),
        file: path,
    }
}

/// The failures among the first `upto` children of test case `c`.
pub open spec fn case_failures(nodes: Seq<XmlNodeView>, c: int, upto: int, path: Seq<char>) -> Seq<
    FailedTestView,
>
    decreases upto,
{
    if upto <= 0 {
        Seq::empty()
    } else {
        let k = nodes[c].children[upto - 1] as int;
        if is_failure_tag(nodes[k].tag) {
            case_failures(nodes, c, upto - 1, path).push(failure_entry(nodes, c, k, path))
        } else {
            case_failures(nodes, c, upto - 1, path)
        }
    }
}

/// The failures of the `<testcase>` elements among the first `upto` children of suite `su`.
pub open spec fn suite_failures(nodes: Seq<XmlNodeView>, su: int, upto: int, path: Seq<char>) -> Seq<
    FailedTestView,
>
    decreases upto,
{
    if upto <= 0 {
        Seq::empty()
    } else {
        let c = nodes[su].children[upto - 1] as int;
        if nodes[c].tag == "testcase"@ {
            suite_failures(nodes, su, upto - 1, path) + case_failures(
                nodes,
                c,
                nodes[c].children.len() as int,
                path,
            )
        } else {
            suite_failures(nodes, su, upto - 1, path)
        }
    }
}

/// The failures of the top-level suites among the first `upto` nodes, in document order.
pub open spec fn report_failures(nodes: Seq<XmlNodeView>, upto: int, path: Seq<char>) -> Seq<
    FailedTestView,
>
    decreases upto,
{
    if upto <= 0 {
        Seq::empty()
    } else if is_top_level_suite(nodes, upto - 1) {
        report_failures(nodes, upto - 1, path) + suite_failures(
            nodes,
            upto - 1,
            nodes[upto - 1].children.len() as int,
            path,
        )
    } else {
        report_failures(nodes, upto - 1, path)
    }
}

/// Every failure that a test case yields names the report file it came from.
pub proof fn lemma_case_failures_file(nodes: Seq<XmlNodeView>, c: int, upto: int, path: Seq<char>)
    ensures
        forall|i: int|
            0 <= i < case_failures(nodes, c, upto, path).len() ==> (#[trigger] case_failures(
                nodes,
                c,
                upto,
                path,
            )[i]).file == path,
    decreases upto,
{
    if upto > 0 {
        lemma_case_failures_file(nodes, c, upto - 1, path);
        let prev = case_failures(nodes, c, upto - 1, path);
        let k = nodes[c].children[upto - 1] as int;
        if is_failure_tag(nodes[k].tag) {
            let all = prev.push(failure_entry(nodes, c, k, path));
            assert forall|i: int| 0 <= i < all.len() implies (#[trigger] all[i]).file == path by {
                if i < prev.len() {
                    assert(all[i] == prev[i]);
                }
            }
        }
    }
}

/// Every failure that a suite yields names the report file it came from.
pub proof fn lemma_suite_failures_file(nodes: Seq<XmlNodeView>, su: int, upto: int, path: Seq<char>)
    ensures
        forall|i: int|
            0 <= i < suite_failures(nodes, su, upto, path).len() ==> (#[trigger] suite_failures(
                nodes,
                su,
                upto,
                path,
            )[i]).file == path,
    decreases upto,
{
    if upto > 0 {
        lemma_suite_failures_file(nodes, su, upto - 1, path);
        let c = nodes[su].children[upto - 1] as int;
        lemma_case_failures_file(nodes, c, nodes[c].children.len() as int, path);
        let prev = suite_failures(nodes, su, upto - 1, path);
        let added = case_failures(nodes, c, nodes[c].children.len() as int, path);
        if nodes[c].tag == "testcase"@ {
            let all = prev + added;
            assert forall|i: int| 0 <= i < all.len() implies (#[trigger] all[i]).file == path by {
                if i < prev.len() {
                    assert(all[i] == prev[i]);
                } else {
                    assert(all[i] == added[i - prev.len()]);
                }
            }
        }
    }
}

/// Every failure read from a report carries the path of that report.
pub proof fn law_failures_carry_path(nodes: Seq<XmlNodeView>, upto: int, path: Seq<char>)
    ensures
        forall|i: int|
            0 <= i < report_failures(nodes, upto, path).len() ==> (#[trigger] report_failures(
                nodes,
                upto,
                path,
            )[i]).file == path,
    decreases upto,
{
    if upto > 0 {
        law_failures_carry_path(nodes, upto - 1, path);
        let su = upto - 1;
        lemma_suite_failures_file(nodes, su, nodes[su].children.len() as int, path);
        let prev = report_failures(nodes, upto - 1, path);
        let added = suite_failures(nodes, su, nodes[su].children.len() as int, path);
        if is_top_level_suite(nodes, su) {
            let all = prev + added;
            assert forall|i: int| 0 <= i < all.len() implies (#[trigger] all[i]).file == path by {
                if i < prev.len() {
                    assert(all[i] == prev[i]);
                } else {
                    assert(all[i] == added[i - prev.len()]);
                }
            }
        }
    }
}

/// The number of `<failure>` and `<error>` nodes among the first `upto` children of node `c`.
pub open spec fn failure_children_count(nodes: Seq<XmlNodeView>, c: int, upto: int) -> int
    decreases upto,
{
    if upto <= 0 {
        0
    } else {
        let t = nodes[nodes[c].children[upto - 1] as int].tag;
        failure_children_count(nodes, c, upto - 1) + if t == "failure"@ || t == "error"@ {
            1int
        } else {
            0int
        }
    }
}

/// The number of `<failure>` and `<error>` children of the `<testcase>` nodes
/// among the first `upto` children of node `su`.
pub open spec fn testcase_failure_count(nodes: Seq<XmlNodeView>, su: int, upto: int) -> int
    decreases upto,
{
    if upto <= 0 {
        0
    } else {
        let c = nodes[su].children[upto - 1] as int;
        testcase_failure_count(nodes, su, upto - 1) + if nodes[c].tag == "testcase"@ {
            failure_children_count(nodes, c, nodes[c].children.len() as int)
        } else {
            0int
        }
    }
}

/// A test case yields one record per `<failure>` or `<error>` child, each
/// with the test case's name and the path.
pub proof fn law_case_records(nodes: Seq<XmlNodeView>, c: int, upto: int, path: Seq<char>)
    ensures
        case_failures(nodes, c, upto, path).len() == failure_children_count(nodes, c, upto),
        forall|i: int|
            0 <= i < case_failures(nodes, c, upto, path).len() ==> (#[trigger] case_failures(
                nodes,
                c,
                upto,
                path,
            )[i]).name == attribute_or_empty(nodes[c], "name"@),
    decreases upto,
{
    if upto > 0 {
        law_case_records(nodes, c, upto - 1, path);
        let prev = case_failures(nodes, c, upto - 1, path);
        let k = nodes[c].children[upto - 1] as int;
        if is_failure_tag(nodes[k].tag) {
            let all = prev.push(failure_entry(nodes, c, k, path));
            assert forall|i: int| 0 <= i < all.len() implies (#[trigger] all[i]).name
                == attribute_or_empty(nodes[c], "name"@) by {
                if i < prev.len() {
                    assert(all[i] == prev[i]);
                }
            }
        }
    }
}

/// A suite yields, for every `<testcase>` child, one record per `<failure>`
/// or `<error>` child of it, whatever earlier test cases yielded: the number
/// of its records is the sum of those counts.
pub proof fn law_suite_record_count(nodes: Seq<XmlNodeView>, su: int, upto: int, path: Seq<char>)
    ensures
        suite_failures(nodes, su, upto, path).len() == testcase_failure_count(nodes, su, upto),
    decreases upto,
{
    if upto > 0 {
        law_suite_record_count(nodes, su, upto - 1, path);
        let c = nodes[su].children[upto - 1] as int;
        law_case_records(nodes, c, nodes[c].children.len() as int, path);
    }
}

/// The tag names that the report reader looks for.
struct Names {
    suite: String,
    case: String,
    failure: String,
    error: String,
    name: String,
    kind: String,
    message: String,
    tests: String,
    failures: String,
    errors: String,
    skipped: String,
}

impl Names {
    spec fn wf(&self) -> bool {
        &&& self.suite@ == "testsuite"@
        &&& self.case@ == "testcase"@
        &&& self.failure@ == "failure"@
        &&& self.error@ == "error"@
        &&& self.name@ == "name"@
        &&& self.kind@ == "type"@
        &&& self.message@ == "message"@
        &&& self.tests@ == "tests"@
        &&& self.failures@ == "failures"@
        &&& self.errors@ == "errors"@
        &&& self.skipped@ == "skipped"@
    }

    fn new() -> (r: Names)
        ensures
            r.wf(),
    {
        Names {
            suite: String::from_str("testsuite"),
            case: String::from_str("testcase"),
            failure: String::from_str("failure"),
            error: String::from_str("error"),
            name: String::from_str("name"),
            kind: String::from_str("type"),
            message: String::from_str("message"),
            tests: String::from_str("tests"),
            failures: String::from_str("failures"),
            errors: String::from_str("errors"),
            skipped: String::from_str("skipped"),
        }
    }
}

/// Appends the failures recorded under test case `c`.
fn push_case_failures(
    nodes: &Vec<XmlNode>,
    c: usize,
    path: &str,
    names: &Names,
    out: &mut Vec<FailedTest>,
)
    requires
        names.wf(),
        well_indexed(nodes_view(nodes@)),
        c < nodes@.len(),
    ensures
        failed_views(final(out)@) == failed_views(old(out)@) + case_failures(
            nodes_view(nodes@),
            c as int,
            nodes@[c as int]@.children.len() as int,
            path@,
        ),
{
    let ghost nv = nodes_view(nodes@);
    let case_node = &nodes[c];
    let kids = &case_node.children;
    let ghost start = failed_views(out@);
    assert(nv[c as int] == case_node@);
    let mut i: usize = 0;
    while i < kids.len()
        invariant
            names.wf(),
            nv == nodes_view(nodes@),
            well_indexed(nv),
            c < nodes@.len(),
            case_node == &nodes@[c as int],
            kids == &case_node.children,
            nv[c as int] == case_node@,
            i <= kids@.len(),
            failed_views(out@) == start + case_failures(nv, c as int, i as int, path@),
        decreases kids@.len() - i,
    {
        let k = kids[i];
        assert(nv[c as int].children[i as int] == k);
        assert(k < nodes@.len());
        let node = &nodes[k];
        assert(nv[k as int] == node@);
        if node.tag == names.failure || node.tag == names.error {
            let body_text = match &node.text {
                Some(t) => String::from_str(trim(t.as_str())),
                None => String::from_str(trim("")),
            };
            proof {
                reveal_strlit("");
                assert(""@ =~= Seq::<char>::empty());
            }
            assert(body_text@ == trimmed(text_or_empty(nv[k as int])));
            let entry = FailedTest {
                name: attribute_text(case_node, &names.name),
                failure_type: attribute_text(node, &names.kind),
                message: attribute_text(node, &names.message),
                body: body_text,
                file: String::from_str(path),
            };
            let ghost before = out@;
            assert(entry@ == failure_entry(nv, c as int, k as int, path@));
            assert(is_failure_tag(nv[k as int].tag));
            out.push(entry);
            assert(failed_views(out@) =~= failed_views(before).push(entry@));
        } else {
            assert(!is_failure_tag(nv[k as int].tag));
        }
        i = i + 1;
    }
}

/// Appends the failures of the test cases of suite `su`.
fn push_suite_failures(
    nodes: &Vec<XmlNode>,
    su: usize,
    path: &str,
    names: &Names,
    out: &mut Vec<FailedTest>,
)
    requires
        names.wf(),
        well_indexed(nodes_view(nodes@)),
        su < nodes@.len(),
    ensures
        failed_views(final(out)@) == failed_views(old(out)@) + suite_failures(
            nodes_view(nodes@),
            su as int,
            nodes@[su as int]@.children.len() as int,
            path@,
        ),
{
    let ghost nv = nodes_view(nodes@);
    let kids = &nodes[su].children;
    let ghost start = failed_views(out@);
    assert(nv[su as int] == nodes@[su as int]@);
    let mut i: usize = 0;
    while i < kids.len()
        invariant
            names.wf(),
            nv == nodes_view(nodes@),
            well_indexed(nv),
            su < nodes@.len(),
            kids == &nodes@[su as int].children,
            nv[su as int] == nodes@[su as int]@,
            i <= kids@.len(),
            failed_views(out@) == start + suite_failures(nv, su as int, i as int, path@),
        decreases kids@.len() - i,
    {
        let c = kids[i];
        assert(nv[su as int].children[i as int] == c);
        assert(c < nodes@.len());
        assert(nv[c as int] == nodes@[c as int]@);
        if nodes[c].tag == names.case {
            let ghost before = failed_views(out@);
            push_case_failures(nodes, c, path, names, out);
            assert(start + suite_failures(nv, su as int, i + 1, path@) =~= before + case_failures(
                nv,
                c as int,
                nv[c as int].children.len() as int,
                path@,
            ));
        }
        i = i + 1;
    }
}

/// Reads the suites and failures of a report from its node list: one
/// `TestSuite` per `<testsuite>` element that is not nested in another, and
/// one `FailedTest` per `<failure>` or `<error>` child of a `<testcase>` child
/// of such a suite, in document order, each with `path` as its file.
pub fn collect_report(nodes: &Vec<XmlNode>, path: &str) -> (r: (Vec<TestSuite>, Vec<FailedTest>))
    requires
        well_indexed(nodes_view(nodes@)),
    ensures
        r.0@ == report_suites(nodes_view(nodes@), nodes@.len() as int),
        failed_views(r.1@) == report_failures(nodes_view(nodes@), nodes@.len() as int, path@),
{
    let names = Names::new();
    let ghost nv = nodes_view(nodes@);
    let mut suites: Vec<TestSuite> = Vec::new();
    let mut failures: Vec<FailedTest> = Vec::new();
    let n = nodes.len();
    let mut i: usize = 0;
    assert(failed_views(failures@) =~= Seq::<FailedTestView>::empty());
    while i < n
        invariant
            names.wf(),
            nv == nodes_view(nodes@),
            well_indexed(nv),
            n == nodes@.len(),
            i <= n,
            suites@ == report_suites(nv, i as int),
            failed_views(failures@) == report_failures(nv, i as int, path@),
        decreases n - i,
    {
        let node = &nodes[i];
        assert(nv[i as int] == node@);
        let mut top = node.tag == names.suite;
        if top {
            match node.parent {
                Some(p) => {
                    assert(p < nodes@.len());
                    assert(nv[p as int] == nodes@[p as int]@);
                    if nodes[p].tag == names.suite {
                        top = false;
                    }
                },
                None => {},
            }
        }
        assert(top == is_top_level_suite(nv, i as int));
        if top {
            suites.push(
                TestSuite {
                    tests: count_of(node, &names.tests),
                    failures: count_of(node, &names.failures),
                    errors: count_of(node, &names.errors),
                    skipped: count_of(node, &names.skipped),
                },
            );
            push_suite_failures(nodes, i, path, &names, &mut failures);
        }
        i = i + 1;
    }
    (suites, failures)
}

/// Parses a JUnit XML document and reads its suites and failures
/// (see `collect_report`); fails where the text is no XML document.
pub fn parse_xml_content(content: &str, path: &str) -> (r: Result<
    (Vec<TestSuite>, Vec<FailedTest>),
    XmlError,
>)
    ensures
        match xml_document(content@) {
            Some(nv) => r matches Ok(rep) && rep.0@ == report_suites(nv, nv.len() as int)
                && failed_views(rep.1@) == report_failures(nv, nv.len() as int, path@),
            None => r is Err,
        },
{
    match parse_document(content) {
        Ok(nodes) => Ok(collect_report(&nodes, path)),
        Err(e) => Err(XmlError { message: xml_error_message(&e) }),
    }
}

// ---- system output ----

/// The position of the first node at `from` or later whose tag is `tag`.
pub open spec fn first_with_tag(nodes: Seq<XmlNodeView>, tag: Seq<char>, from: int) -> Option<int>
    decreases nodes.len() - from,
{
    if from < 0 || from >= nodes.len() {
        None
    } else if nodes[from].tag == tag {
        Some(from)
    } else {
        first_with_tag(nodes, tag, from + 1)
    }
}

/// The first node with tag `tag`, wherever it is nested, gives the text: when
/// node `i` has the tag and no earlier node has it, the text is node `i`'s
/// text (empty when it has none); when no node has the tag, it is empty.
pub proof fn law_first_tagged_node_gives_text(nodes: Seq<XmlNodeView>, tag: Seq<char>, i: int)
    requires
        0 <= i < nodes.len(),
        nodes[i].tag == tag,
        forall|j: int| 0 <= j < i ==> (#[trigger] nodes[j]).tag != tag,
    ensures
        first_tag_text(nodes, tag) == match nodes[i].text {
            Some(t) => t,
            None => Seq::<char>::empty(),
        },
{
    lemma_first_with_tag_from(nodes, tag, 0, i);
}

/// Searching from `from` finds `i` when `i` is the first node with the tag at or after `from`.
proof fn lemma_first_with_tag_from(nodes: Seq<XmlNodeView>, tag: Seq<char>, from: int, i: int)
    requires
        0 <= from <= i < nodes.len(),
        nodes[i].tag == tag,
        forall|j: int| 0 <= j < i ==> (#[trigger] nodes[j]).tag != tag,
    ensures
        first_with_tag(nodes, tag, from) == Some(i),
    decreases i - from,
{
    if from < i {
        assert(nodes[from].tag != tag);
        lemma_first_with_tag_from(nodes, tag, from + 1, i);
    }
}

/// With no node of tag `tag` the text is empty.
pub proof fn law_missing_tag_gives_empty_text(nodes: Seq<XmlNodeView>, tag: Seq<char>)
    requires
        forall|j: int| 0 <= j < nodes.len() ==> (#[trigger] nodes[j]).tag != tag,
    ensures
        first_tag_text(nodes, tag) == Seq::<char>::empty(),
{
    lemma_no_tag_from(nodes, tag, 0);
}

/// Searching finds nothing where no node has the tag.
proof fn lemma_no_tag_from(nodes: Seq<XmlNodeView>, tag: Seq<char>, from: int)
    requires
        0 <= from,
        forall|j: int| 0 <= j < nodes.len() ==> (#[trigger] nodes[j]).tag != tag,
    ensures
        first_with_tag(nodes, tag, from) is None,
    decreases nodes.len() - from,
{
    if from < nodes.len() {
        assert(nodes[from].tag != tag);
        lemma_no_tag_from(nodes, tag, from + 1);
    }
}

/// The text of the first node with tag `tag`, or empty text.
pub open spec fn first_tag_text(nodes: Seq<XmlNodeView>, tag: Seq<char>) -> Seq<char> {
    match first_with_tag(nodes, tag, 0) {
        Some(i) => text_or_empty(nodes[i]),
        None => Seq::empty(),
    }
}

/// The text of the first node, in document order, whose tag is `tag`; empty
/// text when there is none or it has no text.
pub fn element_text(nodes: &Vec<XmlNode>, tag: &str) -> (r: String)
    ensures
        r@ == first_tag_text(nodes_view(nodes@), tag@),
{
    let ghost nv = nodes_view(nodes@);
    let wanted = String::from_str(tag);
    let n = nodes.len();
    let mut i: usize = 0;
    while i < n
        invariant
            nv == nodes_view(nodes@),
            n == nodes@.len(),
            i <= n,
            wanted@ == tag@,
            first_with_tag(nv, tag@, 0) == first_with_tag(nv, tag@, i as int),
        decreases n - i,
    {
        assert(nv[i as int] == nodes@[i as int]@);
        if nodes[i].tag == wanted {
            return match &nodes[i].text {
                Some(t) => t.clone(),
                None => String::new(),
            };
        }
        i = i + 1;
    }
    String::new()
}

/// Reads the text of the first `tag` element of a document (such as
/// `system-out`); empty text when there is none; fails where the text is no
/// XML document.
pub fn extract_system_content(content: &str, tag: &str) -> (r: Result<String, XmlError>)
    ensures
        match xml_document(content@) {
            Some(nv) => r matches Ok(t) && t@ == first_tag_text(nv, tag@),
            None => r is Err,
        },
{
    match parse_document(content) {
        Ok(nodes) => Ok(element_text(&nodes, tag)),
        Err(e) => Err(XmlError { message: xml_error_message(&e) }),
    }
}

} // verus!
