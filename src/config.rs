//! The settings the bot runs with.
use crate::dom::{append_chars, chars_of};
use crate::group::string_of;
use vstd::prelude::*;

verus! {

/// Where the bot sends to, how it authenticates, where it keeps its files,
/// and how many groups it delivers at once.
pub struct Args {
    pub channel_id: String,
    pub api_key: String,
    pub server_domain: String,
    pub data_dir: String,
    pub thread: usize,
}

/// The settings from what was given: the data directory defaults to `data`;
/// the number of groups delivered at once defaults to one and is at least one.
pub fn args(
    channel_id: String,
    api_key: String,
    server_domain: String,
    data_dir: Option<String>,
    thread: Option<usize>,
) -> (r: Args)
    ensures
        r.channel_id == channel_id,
        r.api_key == api_key,
        r.server_domain == server_domain,
        r.data_dir@ == match data_dir {
            Some(d) => d@,
            None => "data"@,
        },
        r.thread == match thread {
            Some(t) => if t == 0 {
                1
            } else {
                t
            },
            None => 1,
        },
{
    let data_dir = match data_dir {
        Some(d) => d,
        None => string_of(&chars_of("data")),
    };
    let thread = match thread {
        Some(t) => if t == 0 {
            1
        } else {
            t
        },
        None => 1,
    };
    Args { channel_id, api_key, server_domain, data_dir, thread }
}

impl Args {
    /// `<data_dir>/db`, where the dedup records are kept.
    pub fn db_dir(&self) -> (r: String)
        ensures
            r@ == self.data_dir@ + "/db"@,
    {
        let mut s = chars_of(self.data_dir.as_str());
        append_chars(&mut s, &chars_of("/db"));
        string_of(&s)
    }

    /// `<data_dir>/tmp`, where downloads wait to be sent.
    pub fn tmp_dir(&self) -> (r: String)
        ensures
            r@ == self.data_dir@ + "/tmp"@,
    {
        let mut s = chars_of(self.data_dir.as_str());
        append_chars(&mut s, &chars_of("/tmp"));
        string_of(&s)
    }
}

} // verus!
