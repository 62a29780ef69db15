//! The closed set of fetch modes and the IMAP item list each one asks for.

use vstd::prelude::*;
use vstd::string::StringExecFns;

verus! {

/// What a `FETCH` or `UID FETCH` asks the server to return.
#[derive(Clone, Copy, Debug, PartialEq, Eq, Structural)]
pub enum FetchMode {
    ALL,
    ENVELOPE,
    BODY,
    UID,
    FLAGS,
}

/// The IMAP item list that stands for a fetch mode.
pub open spec fn fetch_items(fetch_mode: FetchMode) -> Seq<char> {
    match fetch_mode {
        FetchMode::ALL => "(UID FLAGS ENVELOPE BODY.PEEK[])"@,
        FetchMode::ENVELOPE => "ENVELOPE"@,
        FetchMode::BODY => "BODY"@,
        FetchMode::UID => "UID"@,
        FetchMode::FLAGS => "FLAGS"@,
    }
}

/// Renders a fetch mode as the item list sent to the server.
pub fn string(fetch_mode: FetchMode) -> (res: String)
    ensures
        res@ == fetch_items(fetch_mode),
{
    match fetch_mode {
        FetchMode::ALL => String::from_str("(UID FLAGS ENVELOPE BODY.PEEK[])"),
        FetchMode::ENVELOPE => String::from_str("ENVELOPE"),
        FetchMode::BODY => String::from_str("BODY"),
        FetchMode::UID => String::from_str("UID"),
        FetchMode::FLAGS => String::from_str("FLAGS"),
    }
}

} // verus!
