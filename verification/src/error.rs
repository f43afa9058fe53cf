//! The ways in which a run can fail.

use vstd::prelude::*;
use crate::args::Arguments;

verus! {

/// Why a run was abandoned. Every failure is final: nothing is retried.
#[derive(Clone, Copy, Debug, PartialEq, Eq, Structural)]
pub enum ScrapeError {
    /// The transport could not retrieve the resource.
    Network,
    /// The body that came back could not be decoded as text.
    Decode,
    /// The destination path could not be written.
    Io,
    /// The persisted file could not be read back as text.
    FileRead,
    /// The pattern was not accepted by the pattern language.
    Pattern,
}

impl ScrapeError {
    /// How the message for this failure begins: the stage that failed and
    /// what it could not do.
    pub open spec fn lead(self) -> Seq<char> {
        match self {
            ScrapeError::Network => "fetch failed: could not retrieve '"@,
            ScrapeError::Decode => "fetch failed: no text came back from '"@,
            ScrapeError::Io => "persist failed: could not write to file '"@,
            ScrapeError::FileRead => "extract failed: could not read from file '"@,
            ScrapeError::Pattern => "extract failed: not a valid pattern '"@,
        }
    }

    /// Which of the run's strings the failure is about: the location for a
    /// failed fetch, the path for a failed write or read, the pattern for one
    /// that does not compile.
    pub open spec fn subject(self, args: &Arguments) -> Seq<char> {
        match self {
            ScrapeError::Network | ScrapeError::Decode => args.url@,
            ScrapeError::Io | ScrapeError::FileRead => args.filename@,
            ScrapeError::Pattern => args.pattern@,
        }
    }

    /// The message for this failure in a run on `args`: the lead, then the
    /// subject in single quotes.
    pub fn describe(self, args: &Arguments) -> (message: String)
        ensures
            message@ == self.lead() + self.subject(args) + "'"@,
    {
        let (lead, subject) = match self {
            ScrapeError::Network => ("fetch failed: could not retrieve '", &args.url),
            ScrapeError::Decode => ("fetch failed: no text came back from '", &args.url),
            ScrapeError::Io => ("persist failed: could not write to file '", &args.filename),
            ScrapeError::FileRead => (
                "extract failed: could not read from file '",
                &args.filename,
            ),
            ScrapeError::Pattern => ("extract failed: not a valid pattern '", &args.pattern),
        };
        let mut message = lead.to_owned();
        message.append(subject.as_str());
        message.append("'");
        message
    }
}

} // verus!
