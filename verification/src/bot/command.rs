//! The prefix text commands a member can send in chat.

use crate::text::str_eq;
use vstd::prelude::*;

verus! {

/// A parsed prefix command.
#[derive(Debug)]
pub enum Command<'a> {
    /// Refresh the member's ratings and roles.
    Rating(u64),
    /// Start the account-linking flow.
    ConnectAccount(u64),
    /// An unrecognized command after the prefix.
    Unknown(&'a str),
    /// Not addressed to the bot at all.
    Ignore,
}

/// Whether the message starts with the bot's prefix word.
pub open spec fn starts_ohnomy(s: Seq<char>) -> bool {
    s.len() >= 6 && s.take(6) == "ohnomy"@
}

impl<'a> Command<'a> {
    /// Parses a message's content. Everything after the prefix word and
    /// one further character is the command; a message without the
    /// prefix is ignored.
    ///
    /// Parsing is deliberately character-based: the command part starts
    /// at the eighth character whatever the byte widths before it, so a
    /// multi-byte character right after the prefix yields `Unknown`
    /// rather than a byte-boundary error. Only the bare prefix word,
    /// with nothing at all after it, is excluded.
    pub fn parse(content: &'a str, discord_id: u64) -> (r: Command<'a>)
        requires
            starts_ohnomy(content@) ==> content@.len() >= 7,
        ensures
            match r {
                Command::Rating(d) => starts_ohnomy(content@) && content@.skip(7) == "rating"@ && d
                    == discord_id,
                Command::ConnectAccount(d) => starts_ohnomy(content@) && content@.skip(7)
                    == "account"@ && d == discord_id,
                Command::Unknown(rest) => starts_ohnomy(content@) && rest@ == content@.skip(7)
                    && content@.skip(7) != "rating"@ && content@.skip(7) != "account"@,
                Command::Ignore => !starts_ohnomy(content@),
            },
    {
        proof {
            reveal_strlit("ohnomy");
        }
        let n = content.unicode_len();
        if n < 6 {
            return Command::Ignore;
        }
        let prefix = content.substring_char(0, 6);
        if !str_eq(prefix, "ohnomy") {
            proof {
                assert(prefix@ =~= content@.take(6));
            }
            return Command::Ignore;
        }
        proof {
            assert(prefix@ =~= content@.take(6));
        }
        let body = content.substring_char(7, n);
        proof {
            assert(body@ =~= content@.skip(7));
        }
        if str_eq(body, "rating") {
            Command::Rating(discord_id)
        } else if str_eq(body, "account") {
            Command::ConnectAccount(discord_id)
        } else {
            Command::Unknown(body)
        }
    }
}

} // verus!
