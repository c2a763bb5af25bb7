//! The library's error type.

use vstd::prelude::*;

use crate::text::{cat3, owned};

verus! {

/// Every error the board operations can report.
#[derive(Debug)]
pub enum Error {
    /// No `.wipe` board was found at the given path or any of its ancestors.
    NotInitialized(String),
    /// A `.wipe` board already exists where one was about to be created.
    AlreadyInitialized(String),
    /// A ticket with the given ID does not exist.
    TicketNotFound(String),
    /// A list with the given ID does not exist.
    ListNotFound(String),
    /// A forum thread with the given ID does not exist.
    ThreadNotFound(String),
    /// A forum post with the given ID does not exist.
    PostNotFound(String),
    /// A generic, contextual error message.
    Message(String),
}

/// The text an error reads as.
pub open spec fn error_text(e: Error) -> Seq<char> {
    match e {
        Error::NotInitialized(p) => seq!['n', 'o', ' ', 'w', 'i', 'p', 'e', ' ', 'b', 'o', 'a', 'r', 'd', ' ', 'f', 'o', 'u', 'n', 'd', ' ', 'i', 'n', ' ', '`'] + p@ + seq!['`', ' ', 'o', 'r', ' ', 'a', 'n', 'y', ' ', 'p', 'a', 'r', 'e', 'n', 't', ' ', 'd', 'i', 'r', 'e', 'c', 't', 'o', 'r', 'y', ';', ' ', 'r', 'u', 'n', ' ', '`', 'w', 'i', 'p', 'e', ' ', 'i', 'n', 'i', 't', '`', ' ', 'f', 'i', 'r', 's', 't'],
        Error::AlreadyInitialized(p) => seq!['a', ' ', 'w', 'i', 'p', 'e', ' ', 'b', 'o', 'a', 'r', 'd', ' ', 'a', 'l', 'r', 'e', 'a', 'd', 'y', ' ', 'e', 'x', 'i', 's', 't', 's', ' ', 'a', 't', ' ', '`'] + p@ + seq!['`'],
        Error::TicketNotFound(id) => seq!['t', 'i', 'c', 'k', 'e', 't', ' ', '`'] + id@ + not_found_tail(),
        Error::ListNotFound(id) => seq!['l', 'i', 's', 't', ' ', '`'] + id@ + not_found_tail(),
        Error::ThreadNotFound(id) => seq!['f', 'o', 'r', 'u', 'm', ' ', 't', 'h', 'r', 'e', 'a', 'd', ' ', '`'] + id@ + not_found_tail(),
        Error::PostNotFound(id) => seq!['f', 'o', 'r', 'u', 'm', ' ', 'p', 'o', 's', 't', ' ', '`'] + id@ + not_found_tail(),
        Error::Message(m) => m@,
    }
}

/// "` not found".
pub open spec fn not_found_tail() -> Seq<char> {
    seq!['`', ' ', 'n', 'o', 't', ' ', 'f', 'o', 'u', 'n', 'd']
}

impl Error {
    /// A [`Error::Message`] holding `m`.
    pub fn msg(m: &str) -> (e: Error)
        ensures
            e matches Error::Message(s) && s@ == m@,
    {
        Error::Message(owned(m))
    }

    /// A [`Error::NotInitialized`] for the path `p`.
    pub fn not_initialized(p: &str) -> (e: Error)
        ensures
            e matches Error::NotInitialized(s) && s@ == p@,
    {
        Error::NotInitialized(owned(p))
    }

    /// The human-readable text of this error.
    pub fn message(&self) -> (s: String)
        ensures
            s@ == error_text(*self),
    {
        proof {
            reveal_strlit("` not found");
        }
        match self {
            Error::NotInitialized(p) => {
                proof {
                    reveal_strlit("no wipe board found in `");
                    reveal_strlit("` or any parent directory; run `wipe init` first");
                }
                cat3("no wipe board found in `", p.as_str(), "` or any parent directory; run `wipe init` first")
            },
            Error::AlreadyInitialized(p) => {
                proof {
                    reveal_strlit("a wipe board already exists at `");
                    reveal_strlit("`");
                }
                cat3("a wipe board already exists at `", p.as_str(), "`")
            },
            Error::TicketNotFound(id) => {
                proof {
                    reveal_strlit("ticket `");
                }
                cat3("ticket `", id.as_str(), "` not found")
            },
            Error::ListNotFound(id) => {
                proof {
                    reveal_strlit("list `");
                }
                cat3("list `", id.as_str(), "` not found")
            },
            Error::ThreadNotFound(id) => {
                proof {
                    reveal_strlit("forum thread `");
                }
                cat3("forum thread `", id.as_str(), "` not found")
            },
            Error::PostNotFound(id) => {
                proof {
                    reveal_strlit("forum post `");
                }
                cat3("forum post `", id.as_str(), "` not found")
            },
            Error::Message(m) => owned(m.as_str()),
        }
    }
}

} // verus!
