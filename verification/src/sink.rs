//! Output sinks: the `Writer` capability that rendering emits fragments
//! through, an in-memory sink, and a standard-output sink.

use vstd::prelude::*;
use vstd::string::StringExecFns;

verus! {

/// An output destination. `written` is the sequence of characters the sink
/// has accepted so far; `write` appends a fragment to it. A sink whose
/// backing store lies outside the program keeps the default, empty model,
/// and nothing is then claimed of its contents.
pub trait Writer {
    open spec fn written(&self) -> Seq<char> {
        Seq::empty()
    }

    fn write(&mut self, content: &str)
        ensures
            final(self).written() == old(self).written() + content@,
    ;
}

/// An in-memory sink that collects everything written into a `String`.
pub struct StringWriter {
    pub val: String,
}

impl StringWriter {
    pub fn new() -> (w: StringWriter)
        ensures
            w.written() == Seq::<char>::empty(),
    {
        StringWriter { val: String::new() }
    }
}

impl Writer for StringWriter {
    open spec fn written(&self) -> Seq<char> {
        self.val@
    }

    fn write(&mut self, content: &str) {
        self.val.append(content);
    }
}

/// A sink that forwards every fragment to the process's standard output.
pub struct StdoutWriter {
    written: Ghost<Seq<char>>,
}

impl StdoutWriter {
    pub fn new() -> (w: StdoutWriter)
        ensures
            w.written() == Seq::<char>::empty(),
    {
        StdoutWriter { written: Ghost(Seq::empty()) }
    }
}

/// Relies on `std::io::Stdout::write_all`: the fragment's bytes are written
/// to standard output in full, and on failure the run aborts.
#[verifier::external_body]
fn stdout_write(content: &str) {
    std::io::Write::write_all(&mut std::io::stdout(), content.as_bytes())
        .expect("failed to write to stdout");
}

impl Writer for StdoutWriter {
    closed spec fn written(&self) -> Seq<char> {
        self.written@
    }

    fn write(&mut self, content: &str) {
        stdout_write(content);
        self.written = Ghost(self.written@ + content@);
    }
}

} // verus!
