use vstd::prelude::*;

verus! {

/// Why a script could not be turned into a font set.
#[derive(Debug)]
pub enum Error {
    /// A free-form message.
    Message(String),
    /// The script has no script-info section.
    MissingScriptInfo,
    /// The script has no style section.
    MissingStylesInfo,
    /// The script has no event line that counts.
    MissingEvents,
    /// The input is structurally invalid.
    Syntax,
    /// Resolution produced no font at all.
    FailedParsingFonts,
}

impl Error {
    /// The text that `message` returns for each error.
    pub open spec fn message_spec(self) -> Seq<char> {
        match self {
            Error::Message(msg) => msg@,
            Error::MissingEvents => "Missing events"@,
            Error::MissingScriptInfo => "Missing script info"@,
            Error::MissingStylesInfo => "Missing styles info"@,
            Error::Syntax => "Invalid syntax"@,
            Error::FailedParsingFonts => "Failed to parse font names"@,
        }
    }

    /// An error that carries `msg` as its text.
    pub fn custom(msg: &str) -> (e: Error)
        ensures
            e matches Error::Message(text) && text@ == msg@,
    {
        Error::Message(msg.to_owned())
    }

    /// The human-readable text of the error.
    pub fn message(&self) -> (text: String)
        ensures
            text@ == self.message_spec(),
    {
        match self {
            Error::Message(msg) => msg.clone(),
            Error::MissingEvents => "Missing events".to_owned(),
            Error::MissingScriptInfo => "Missing script info".to_owned(),
            Error::MissingStylesInfo => "Missing styles info".to_owned(),
            Error::Syntax => "Invalid syntax".to_owned(),
            Error::FailedParsingFonts => "Failed to parse font names".to_owned(),
        }
    }
}

} // verus!
