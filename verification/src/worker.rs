//! What the analysis worker is asked, and the order it answers in.
//!
//! The worker links the analysis and the device builder; what it decides for
//! itself is which request a message is, whether a format can be written, and
//! that requests are answered one at a time in the order they arrived.

use crate::text::{chars_of, eq_chars};
use vstd::prelude::*;

verus! {

/// A request the page sends the worker.
#[derive(Clone, Copy, Debug, PartialEq, Eq, Structural)]
pub enum Request {
    /// What this build can write onto an image.
    Capabilities,
    /// Every analysis setting, as the module itself defaults them.
    DefaultOptions,
    /// One more zip, kept open beside the ones already given.
    ArchiveAdd,
    /// Every audio file in every archive, tagged with which one holds it.
    ArchiveEntries,
    /// One entry out of one archive and into a file of its own.
    ArchiveExtract,
    /// Measure one track.
    Analyze,
    /// Start assembling an image.
    DeviceOpen,
    /// Add one track to the image being assembled.
    DeviceAdd,
    /// Write the image.
    DeviceImage,
}

/// Which request a message's kind names, or the refusal of a kind nobody
/// sends.
pub open spec fn request_named(kind: Seq<char>) -> Result<Request, Seq<char>> {
    if kind == "capabilities"@ {
        Ok(Request::Capabilities)
    } else if kind == "default-options"@ {
        Ok(Request::DefaultOptions)
    } else if kind == "archive-add"@ {
        Ok(Request::ArchiveAdd)
    } else if kind == "archive-entries"@ {
        Ok(Request::ArchiveEntries)
    } else if kind == "archive-extract"@ {
        Ok(Request::ArchiveExtract)
    } else if kind == "analyze"@ {
        Ok(Request::Analyze)
    } else if kind == "device-open"@ {
        Ok(Request::DeviceOpen)
    } else if kind == "device-add"@ {
        Ok(Request::DeviceAdd)
    } else if kind == "device-image"@ {
        Ok(Request::DeviceImage)
    } else {
        Err("unknown request: "@ + kind)
    }
}

/// Whether the characters of `kind` spell `word`.
fn spells(kind: &Vec<char>, word: &str) -> (r: bool)
    ensures
        r == (kind@ == word@),
{
    let chars = chars_of(word);
    eq_chars(kind.as_slice(), chars.as_slice())
}

/// Which request a message's kind names.
pub fn request_kind(kind: &str) -> (r: Result<Request, String>)
    ensures
        match r {
            Ok(request) => request_named(kind@) == Ok::<Request, Seq<char>>(request),
            Err(why) => request_named(kind@) == Err::<Request, Seq<char>>(why@),
        },
{
    let chars = chars_of(kind);
    if spells(&chars, "capabilities") {
        Ok(Request::Capabilities)
    } else if spells(&chars, "default-options") {
        Ok(Request::DefaultOptions)
    } else if spells(&chars, "archive-add") {
        Ok(Request::ArchiveAdd)
    } else if spells(&chars, "archive-entries") {
        Ok(Request::ArchiveEntries)
    } else if spells(&chars, "archive-extract") {
        Ok(Request::ArchiveExtract)
    } else if spells(&chars, "analyze") {
        Ok(Request::Analyze)
    } else if spells(&chars, "device-open") {
        Ok(Request::DeviceOpen)
    } else if spells(&chars, "device-add") {
        Ok(Request::DeviceAdd)
    } else if spells(&chars, "device-image") {
        Ok(Request::DeviceImage)
    } else {
        let mut why = String::from_str("unknown request: ");
        why.append(kind);
        Err(why)
    }
}

/// The audio formats this build can write onto an image, by wire name.
///
/// `source` is the file as it arrived, copied rather than re-encoded, and it is
/// the only one: the analysis module decodes AIFF, FLAC and MP3 and encodes
/// nothing. Both the answer to `capabilities` and the guard on `device-add`
/// read this, so the form and the refusal cannot drift apart.
pub fn writable_formats() -> (r: Vec<&'static str>)
    ensures
        r@.len() == 1,
        r@[0]@ == "source"@,
{
    let mut r: Vec<&'static str> = Vec::new();
    r.push("source");
    r
}

/// Whether `device-add` may write a track in this format, or why not.
///
/// Refused rather than quietly written under the wrong name. The page asks
/// `capabilities` first and offers nothing else, so reaching the refusal means
/// the page and the module disagree, which is worth a stopped build.
pub fn check_format(format: &str) -> (r: Result<(), String>)
    ensures
        format@ == "source"@ ==> r is Ok,
        format@ != "source"@ ==> (r matches Err(why) && why@ == "this build cannot write "@
            + format@ + ": the analysis module it links decodes audio and encodes none."@),
{
    let known = writable_formats();
    let chars = chars_of(format);
    let mut i: usize = 0;
    while i < known.len()
        invariant
            i <= known@.len(),
            known@.len() == 1,
            known@[0]@ == "source"@,
            chars@ == format@,
            forall|j: int| 0 <= j < i ==> known@[j]@ != format@,
        decreases known@.len() - i,
    {
        if spells(&chars, known[i]) {
            return Ok(());
        }
        i = i + 1;
    }
    let mut why = String::from_str("this build cannot write ");
    why.append(format);
    why.append(": the analysis module it links decodes audio and encodes none.");
    Err(why)
}

/// Requests waiting for the worker, and whether it is answering one.
///
/// Answering yields at every filesystem handle, and two answers in flight
/// would each take the worker's state out and find the other's work missing.
/// So requests queue, and one loop answers them in the order they came.
pub struct Inbox<T> {
    pub waiting: Vec<T>,
    pub answering: bool,
}

impl<T> Inbox<T> {
    /// Nothing waiting and nothing being answered.
    pub fn new() -> (r: Inbox<T>)
        ensures
            r.waiting@.len() == 0,
            !r.answering,
    {
        Inbox { waiting: Vec::new(), answering: false }
    }

    /// Take a request. `true` means nothing was being answered, so the caller
    /// starts the loop that answers; `false` means the loop already running
    /// will reach it.
    pub fn accept(&mut self, request: T) -> (start: bool)
        ensures
            final(self).waiting@ == old(self).waiting@.push(request),
            start == !old(self).answering,
            final(self).answering,
    {
        self.waiting.push(request);
        if self.answering {
            return false;
        }
        self.answering = true;
        true
    }

    /// The next request to answer, oldest first. `None` means the loop is done
    /// and the inbox is idle again.
    pub fn next(&mut self) -> (r: Option<T>)
        ensures
            old(self).waiting@.len() == 0 ==> {
                &&& r is None
                &&& !final(self).answering
                &&& final(self).waiting@.len() == 0
            },
            old(self).waiting@.len() > 0 ==> {
                &&& r == Some(old(self).waiting@[0])
                &&& final(self).waiting@ == old(self).waiting@.drop_first()
                &&& final(self).answering == old(self).answering
            },
    {
        if self.waiting.len() == 0 {
            self.answering = false;
            return None;
        }
        let first = self.waiting.remove(0);
        assert(self.waiting@ =~= old(self).waiting@.drop_first());
        Some(first)
    }
}

} // verus!
