use crate::config::Config;
use crate::leak::{CredentialData, LeakData};
use crate::text::{joined, texts, trim_end, trim_trailing};
use vstd::prelude::*;
use vstd::string::{StringExecFns, StringSliceAdditionalSpecFns};
use vstd::utf8::encode_utf8;

verus! {

/// The most bytes of credentials that a reply may list.
pub const MAX_REPLY_BYTES: usize = 5000;

/// What is said where nothing is known of a domain.
pub const NOTHING_FOUND: &'static str = "Nothing found :(";

/// What is said where the credentials of a domain do not fit a reply.
pub const TOO_MUCH: &'static str = "To much data for tg. WIP";

/// What to answer to a question about a domain.
#[derive(Debug)]
pub enum Reply {
    /// Nothing is known of the domain.
    NothingFound,
    /// The credentials do not fit a reply.
    TooMuch,
    /// The credentials, one to a line, to be shown as a block of code.
    Listing(String),
}

/// A reply by its characters.
pub enum ReplyText {
    NothingFound,
    TooMuch,
    Listing(Seq<char>),
}

impl View for Reply {
    type V = ReplyText;

    open spec fn view(&self) -> ReplyText {
        match self {
            Reply::NothingFound => ReplyText::NothingFound,
            Reply::TooMuch => ReplyText::TooMuch,
            Reply::Listing(s) => ReplyText::Listing(s@),
        }
    }
}

/// The line that shows one credential: username, a colon, password.
pub open spec fn pair_line(pair: (String, String)) -> Seq<char> {
    pair.0@ + seq![':'] + pair.1@
}

/// The lines that show the credentials of `groups`, group after group.
pub open spec fn lines_of(groups: Seq<CredentialData>) -> Seq<Seq<char>>
    decreases groups.len(),
{
    if groups.len() == 0 {
        Seq::<Seq<char>>::empty()
    } else {
        lines_of(groups.drop_last()) + groups.last().data@.map_values(
            |p: (String, String)| pair_line(p),
        )
    }
}

/// The credentials of the rows found: the lines of each row joined by line
/// feeds, and the rows one behind the other with nothing between them.
pub open spec fn listing_of(rows: Seq<LeakData>) -> Seq<char>
    decreases rows.len(),
{
    if rows.len() == 0 {
        Seq::<char>::empty()
    } else {
        listing_of(rows.drop_last()) + joined(lines_of(rows.last().credentials@), '\n')
    }
}

/// The reply that a listing calls for: an empty one says that nothing was
/// found, one of more than `MAX_REPLY_BYTES` bytes that it is too much, and
/// any other is shown without its trailing white space.
pub open spec fn reply_of(listing: Seq<char>) -> ReplyText {
    if listing.len() == 0 {
        ReplyText::NothingFound
    } else if encode_utf8(listing).len() > MAX_REPLY_BYTES {
        ReplyText::TooMuch
    } else {
        ReplyText::Listing(trim_end(listing))
    }
}

/// The query that looks a domain up in the collection that `config` names.
pub open spec fn query_of(config: Config) -> Seq<char> {
    "SELECT domain, credentials FROM "@ + config.couch_namespace@ + ":`"@ + config.couch_bucket@
        + "`.`"@ + config.couch_scope@ + "`.`"@ + config.couch_collection@
        + "` WHERE domain = $1 LIMIT 1"@
}

/// The query that looks a domain up; the domain is its first parameter.
pub fn lookup_query(config: &Config) -> (query: String)
    ensures
        query@ == query_of(*config),
{
    let mut query = String::from_str("SELECT domain, credentials FROM ");
    query.append(config.couch_namespace.as_str());
    query.append(":`");
    query.append(config.couch_bucket.as_str());
    query.append("`.`");
    query.append(config.couch_scope.as_str());
    query.append("`.`");
    query.append(config.couch_collection.as_str());
    query.append("` WHERE domain = $1 LIMIT 1");
    query
}

/// The lines that show the credentials of `groups`.
pub fn credential_lines(groups: &Vec<CredentialData>) -> (lines: Vec<String>)
    ensures
        texts(lines@) == lines_of(groups@),
{
    let mut lines: Vec<String> = Vec::new();
    let mut i: usize = 0;
    proof {
        assert(texts(lines@) =~= Seq::<Seq<char>>::empty());
    }
    while i < groups.len()
        invariant
            i <= groups.len(),
            texts(lines@) == lines_of(groups@.subrange(0, i as int)),
        decreases groups.len() - i,
    {
        let group = &groups[i];
        let ghost before = texts(lines@);
        let ghost shown = group.data@.map_values(|p: (String, String)| pair_line(p));
        let mut j: usize = 0;
        proof {
            assert(groups@.subrange(0, i + 1).drop_last() =~= groups@.subrange(0, i as int));
            assert(groups@.subrange(0, i + 1).last() == groups@[i as int]);
            assert(before + shown.subrange(0, 0) =~= before);
        }
        while j < group.data.len()
            invariant
                j <= group.data@.len(),
                shown == group.data@.map_values(|p: (String, String)| pair_line(p)),
                texts(lines@) == before + shown.subrange(0, j as int),
            decreases group.data@.len() - j,
        {
            let mut line = group.data[j].0.clone();
            line.append(":");
            line.append(group.data[j].1.as_str());
            proof {
                reveal_strlit(":");
                assert(":"@ =~= seq![':']);
                assert(line@ == shown[j as int]);
            }
            let ghost held = lines@;
            lines.push(line);
            proof {
                assert(texts(lines@) =~= texts(held).push(line@));
                assert(before + shown.subrange(0, j + 1) =~= (before + shown.subrange(
                    0,
                    j as int,
                )).push(shown[j as int]));
            }
            j += 1;
        }
        proof {
            assert(shown.subrange(0, shown.len() as int) =~= shown);
        }
        i += 1;
    }
    proof {
        assert(groups@.subrange(0, groups@.len() as int) =~= groups@);
    }
    lines
}

/// The lines in one string, a line feed between neighbours.
pub fn join_lines(lines: &Vec<String>) -> (text: String)
    ensures
        text@ == joined(texts(lines@), '\n'),
{
    let mut text = String::new();
    let mut i: usize = 0;
    let ghost all = texts(lines@);
    while i < lines.len()
        invariant
            i <= lines.len(),
            all == texts(lines@),
            text@ == joined(all.subrange(0, i as int), '\n'),
        decreases lines.len() - i,
    {
        proof {
            assert(all.subrange(0, i + 1).drop_last() =~= all.subrange(0, i as int));
            assert(all.subrange(0, i + 1).last() == lines@[i as int]@);
            reveal_strlit("\n");
            assert("\n"@ =~= seq!['\n']);
        }
        if i > 0 {
            text.append("\n");
        }
        text.append(lines[i].as_str());
        proof {
            if i == 0 {
                assert(text@ =~= lines@[i as int]@);
            }
        }
        i += 1;
    }
    proof {
        assert(all.subrange(0, lines@.len() as int) =~= all);
    }
    text
}

/// The credentials of the rows found, as one text.
pub fn listing(rows: &Vec<LeakData>) -> (text: String)
    ensures
        text@ == listing_of(rows@),
{
    let mut text = String::new();
    let mut i: usize = 0;
    while i < rows.len()
        invariant
            i <= rows.len(),
            text@ == listing_of(rows@.subrange(0, i as int)),
        decreases rows.len() - i,
    {
        proof {
            assert(rows@.subrange(0, i + 1).drop_last() =~= rows@.subrange(0, i as int));
            assert(rows@.subrange(0, i + 1).last() == rows@[i as int]);
        }
        let lines = credential_lines(&rows[i].credentials);
        let part = join_lines(&lines);
        text.append(part.as_str());
        i += 1;
    }
    proof {
        assert(rows@.subrange(0, rows@.len() as int) =~= rows@);
    }
    text
}

/// The reply that a listing calls for.
pub fn reply_for(listing: &str) -> (reply: Reply)
    ensures
        reply@ == reply_of(listing@),
{
    if listing.is_empty() {
        Reply::NothingFound
    } else if listing.as_bytes().len() > MAX_REPLY_BYTES {
        Reply::TooMuch
    } else {
        Reply::Listing(trim_trailing(listing))
    }
}

/// The reply to a question about a domain, given the rows found for it.
pub fn answer(rows: &Vec<LeakData>) -> (reply: Reply)
    ensures
        reply@ == reply_of(listing_of(rows@)),
{
    let text = listing(rows);
    reply_for(text.as_str())
}

} // verus!
