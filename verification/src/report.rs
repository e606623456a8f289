//! The records that a JUnit report yields: suite counts and failed tests.
use vstd::prelude::*;

verus! {

/// The counts that a `<testsuite>` element declares in its attributes.
#[derive(Clone, Copy, Debug, PartialEq, Eq, Structural)]
pub struct TestSuite {
    pub tests: u32,
    pub failures: u32,
    pub errors: u32,
    pub skipped: u32,
}

/// A `<failure>` or `<error>` element of a test case, with the file it came from.
#[derive(Debug)]
pub struct FailedTest {
    pub name: String,
    pub failure_type: String,
    pub message: String,
    pub body: String,
    pub file: String,
}

/// A failed test as text.
pub struct FailedTestView {
    pub name: Seq<char>,
    pub failure_type: Seq<char>,
    pub message: Seq<char>,
    pub body: Seq<char>,
    pub file: Seq<char>,
}

impl View for FailedTest {
    type V = FailedTestView;

    open spec fn view(&self) -> FailedTestView {
        FailedTestView {
            name: self.name@,
            failure_type: self.failure_type@,
            message: self.message@,
            body: self.body@,
            file: self.file@,
        }
    }
}

/// The views of a list of failed tests.
pub open spec fn failed_views(fs: Seq<FailedTest>) -> Seq<FailedTestView> {
    fs.map_values(|f: FailedTest| f@)
}

} // verus!
