//! The options that are chosen by name. A name is read without regard to
//! case; a name that stands for no choice is refused with a message that
//! lists the choices.

use vstd::prelude::*;
use vstd::string::StringExecFns;

verus! {

/// The lower-case form that `str::to_lowercase` gives a text.
pub uninterp spec fn lowercase_of(text: Seq<char>) -> Seq<char>;

/// `str::to_lowercase`: the text in lower case.
#[verifier::external_body]
pub(crate) fn to_lowercase(text: &str) -> (lowered: String)
    ensures
        lowered@ == lowercase_of(text@),
{
    text.to_lowercase()
}

/// Whether two texts are the same.
fn same_text(first: &str, second: &str) -> (same: bool)
    ensures
        same == (first@ == second@),
{
    String::from_str(first) == String::from_str(second)
}

/// How a rendered object gets into the pages that show it.
#[derive(Clone, Copy, Debug, PartialEq, Eq, Structural)]
pub enum TemplatingBehavior {
    /// The object is written into every page that shows it.
    Disabled,
    /// The pages hold an include statement for the Caddy server.
    Caddy,
}

/// How a file that is there twice is written the second time.
#[derive(Clone, Copy, Debug, PartialEq, Eq, Structural)]
pub enum DuplicateLinkageBehavior {
    /// The file is copied.
    Copy,
    /// The second file is a hard link to the first.
    HardLink,
    /// The second file is a symbolic link to the first.
    SymLink,
}

impl TemplatingBehavior {
    /// The choice that a name in lower case stands for.
    pub open spec fn named(lowered: Seq<char>) -> Option<TemplatingBehavior> {
        if lowered == "disabled"@ {
            Some(TemplatingBehavior::Disabled)
        } else if lowered == "caddy"@ {
            Some(TemplatingBehavior::Caddy)
        } else {
            None
        }
    }

    /// The message for a name that stands for no choice.
    pub open spec fn refusal(lowered: Seq<char>) -> Seq<char> {
        "unknown TemplatingBehavior "@ + lowered + ", try disabled|caddy"@
    }

    /// What a name in lower case is read as.
    pub open spec fn read(lowered: Seq<char>) -> Result<TemplatingBehavior, Seq<char>> {
        match Self::named(lowered) {
            Some(choice) => Ok(choice),
            None => Err(Self::refusal(lowered)),
        }
    }

    /// Reads a name that is in lower case already.
    pub fn from_lowercase(lowered: &str) -> (parsed: Result<TemplatingBehavior, String>)
        ensures
            match parsed {
                Ok(choice) => Self::read(lowered@) == Ok::<TemplatingBehavior, Seq<char>>(choice),
                Err(message) => Self::read(lowered@) == Err::<TemplatingBehavior, Seq<char>>(
                    message@,
                ),
            },
    {
        if same_text(lowered, "disabled") {
            Ok(TemplatingBehavior::Disabled)
        } else if same_text(lowered, "caddy") {
            Ok(TemplatingBehavior::Caddy)
        } else {
            let mut message = String::from_str("unknown TemplatingBehavior ");
            message.append(lowered);
            message.append(", try disabled|caddy");
            Err(message)
        }
    }

    /// Reads a name, in whatever case it is written.
    pub fn from_arg_value(val: &str) -> (parsed: Result<TemplatingBehavior, String>)
        ensures
            match parsed {
                Ok(choice) => Self::read(lowercase_of(val@)) == Ok::<
                    TemplatingBehavior,
                    Seq<char>,
                >(choice),
                Err(message) => Self::read(lowercase_of(val@)) == Err::<
                    TemplatingBehavior,
                    Seq<char>,
                >(message@),
            },
    {
        let lowered = to_lowercase(val);
        Self::from_lowercase(lowered.as_str())
    }
}

impl DuplicateLinkageBehavior {
    /// The choice that a name in lower case stands for, where symbolic links
    /// can be made or where they cannot.
    pub open spec fn named(lowered: Seq<char>, symlinks: bool) -> Option<DuplicateLinkageBehavior> {
        if lowered == "copy"@ {
            Some(DuplicateLinkageBehavior::Copy)
        } else if lowered == "hardlink"@ {
            Some(DuplicateLinkageBehavior::HardLink)
        } else if symlinks && lowered == "symlink"@ {
            Some(DuplicateLinkageBehavior::SymLink)
        } else {
            None
        }
    }

    /// The message for a name that stands for no choice.
    pub open spec fn refusal(lowered: Seq<char>, symlinks: bool) -> Seq<char> {
        if symlinks {
            "unknown DuplicateLinkageBehavior "@ + lowered + ", try copy|hardlink|symlink"@
        } else {
            "unknown DuplicateLinkageBehavior "@ + lowered + ", try copy|hardlink"@
        }
    }

    /// What a name in lower case is read as.
    pub open spec fn read(lowered: Seq<char>, symlinks: bool) -> Result<
        DuplicateLinkageBehavior,
        Seq<char>,
    > {
        match Self::named(lowered, symlinks) {
            Some(choice) => Ok(choice),
            None => Err(Self::refusal(lowered, symlinks)),
        }
    }

    /// Reads a name that is in lower case already. `symlinks` says whether
    /// symbolic links can be made where the program runs.
    pub fn from_lowercase(lowered: &str, symlinks: bool) -> (parsed: Result<
        DuplicateLinkageBehavior,
        String,
    >)
        ensures
            match parsed {
                Ok(choice) => Self::read(lowered@, symlinks) == Ok::<
                    DuplicateLinkageBehavior,
                    Seq<char>,
                >(choice),
                Err(message) => Self::read(lowered@, symlinks) == Err::<
                    DuplicateLinkageBehavior,
                    Seq<char>,
                >(message@),
            },
    {
        if same_text(lowered, "copy") {
            Ok(DuplicateLinkageBehavior::Copy)
        } else if same_text(lowered, "hardlink") {
            Ok(DuplicateLinkageBehavior::HardLink)
        } else if symlinks && same_text(lowered, "symlink") {
            Ok(DuplicateLinkageBehavior::SymLink)
        } else {
            let mut message = String::from_str("unknown DuplicateLinkageBehavior ");
            message.append(lowered);
            if symlinks {
                message.append(", try copy|hardlink|symlink");
            } else {
                message.append(", try copy|hardlink");
            }
            Err(message)
        }
    }

    /// Reads a name, in whatever case it is written. `symlinks` says whether
    /// symbolic links can be made where the program runs.
    pub fn from_arg_value(val: &str, symlinks: bool) -> (parsed: Result<
        DuplicateLinkageBehavior,
        String,
    >)
        ensures
            match parsed {
                Ok(choice) => Self::read(lowercase_of(val@), symlinks) == Ok::<
                    DuplicateLinkageBehavior,
                    Seq<char>,
                >(choice),
                Err(message) => Self::read(lowercase_of(val@), symlinks) == Err::<
                    DuplicateLinkageBehavior,
                    Seq<char>,
                >(message@),
            },
    {
        let lowered = to_lowercase(val);
        Self::from_lowercase(lowered.as_str(), symlinks)
    }
}

} // verus!
