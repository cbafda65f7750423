//! Why a request is refused.
use vstd::prelude::*;

verus! {

/// Why a request is refused.
#[derive(Debug, Clone, PartialEq, Eq)]
pub enum AmError {
    /// The home directory is not known.
    HomeNotSet,
    /// The action holds both kinds of quotes.
    BothQuotes,
    /// The folder path holds characters that bash would interpret.
    UnsafePath,
    /// No alias of this name is managed.
    NotManaged(String),
    /// There is something to ask and nobody to ask.
    NotInteractive,
    /// Deleting was neither confirmed nor can it be.
    NeedsConfirmation,
    /// A part that was given up front is not valid; says why.
    Invalid(String),
}

impl AmError {
    /// What is shown to the user.
    pub open spec fn text(self) -> Seq<char> {
        match self {
            AmError::HomeNotSet => "HOME is not set; am needs it to locate ~/.alias-management"@,
            AmError::BothQuotes =>
                "the action contains both single and double quotes and cannot be stored safely as a bash alias"@,
            AmError::UnsafePath =>
                "the folder path contains characters (quotes, $, ` or \\) that cannot be stored safely as a bash alias"@,
            AmError::NotManaged(name) => "'"@ + name@
                + "' is not managed by am (run `am list` to see managed aliases)"@,
            AmError::NotInteractive => "this command needs an interactive terminal"@,
            AmError::NeedsConfirmation =>
                "deleting needs confirmation; re-run with --yes to skip the prompt in scripts"@,
            AmError::Invalid(why) => why@,
        }
    }

    /// What is shown to the user.
    pub fn message(&self) -> (r: String)
        ensures
            r@ == self.text(),
    {
        let mut out: String = String::new();
        match self {
            AmError::HomeNotSet => {
                out.push_str("HOME is not set; am needs it to locate ~/.alias-management");
            },
            AmError::BothQuotes => {
                out.push_str(
                    "the action contains both single and double quotes and cannot be stored safely as a bash alias",
                );
            },
            AmError::UnsafePath => {
                out.push_str(
                    "the folder path contains characters (quotes, $, ` or \\) that cannot be stored safely as a bash alias",
                );
            },
            AmError::NotManaged(name) => {
                out.push_str("'");
                out.push_str(name.as_str());
                out.push_str("' is not managed by am (run `am list` to see managed aliases)");
            },
            AmError::NotInteractive => {
                out.push_str("this command needs an interactive terminal");
            },
            AmError::NeedsConfirmation => {
                out.push_str(
                    "deleting needs confirmation; re-run with --yes to skip the prompt in scripts",
                );
            },
            AmError::Invalid(why) => {
                out.push_str(why.as_str());
            },
        }
        assert(out@ == self.text());
        out
    }
}

/// A message that is about something shows all of it.
pub proof fn law_messages_are_complete(t: String)
    ensures
        AmError::NotManaged(t).text() == "'"@ + t@
            + "' is not managed by am (run `am list` to see managed aliases)"@,
        AmError::Invalid(t).text() == t@,
{
}

} // verus!
