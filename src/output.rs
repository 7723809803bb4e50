//! Destinations for rendered reports, and the renderings a report offers.
use vstd::prelude::*;

verus! {

pub trait ToJson {
    fn to_json(self) -> String;
}

pub trait ToMarkdown {
    fn to_markdown(self) -> String;
}

pub trait ToHtml {
    fn to_html(self) -> String;
}

/// Writes to standard output.
pub struct StdOutWriter {}

impl StdOutWriter {
    pub fn new() -> (r: StdOutWriter) {
        StdOutWriter {}
    }
}

/// Writes to the file at `path`.
pub struct FileWriter {
    pub path: String,
}

impl FileWriter {
    pub fn new(path: String) -> (r: FileWriter)
        ensures
            r.path == path,
    {
        FileWriter { path }
    }
}

pub enum Writer {
    StdOut(StdOutWriter),
    File(FileWriter),
}

} // verus!
