//! The decisions and the replies of the bot's chat commands.
use vstd::prelude::*;
use crate::company::CompanyView;
use crate::guild::{Guild, GuildView};
use crate::names::{normalize_name, normalized};
use crate::text::{decimal, decimal_string, join, join_ids, joined};

verus! {

/// A reply that a command sends, or a post in the news channel.
pub enum Reply {
    SpotlightSet(u64),
    NewsSet(u64),
    BadgeGiven,
    BadgeFailed,
    BadgesGiven,
    CompaniesCreated(Vec<String>),
    CompaniesRemoved(Vec<String>),
    ChannelsPaired(Vec<u64>),
    SpotlightEnabled(String),
    SpotlightEnableFailed(String),
    SpotlightDisabled(String),
    SpotlightDisableFailed(String),
    CompanyMissing(String),
    NoSpotlightCategory,
    UserAdded(String),
    UserRemoved(String),
    CompanyNotFound(String),
    TierNotFound(String),
    TiersCreated(Vec<String>),
    TiersRemoved(Vec<String>),
    SpotlightStartedNews(String),
    SpotlightEndedNews(String),
}

/// The strings of a list, as character sequences.
pub open spec fn words_view(v: Vec<String>) -> Seq<Seq<char>> {
    v@.map_values(|s: String| s@)
}

/// The text of a reply.
pub open spec fn reply_text(r: Reply) -> Seq<char> {
    match r {
        Reply::SpotlightSet(c) => "Spotlight category set to "@ + decimal(c as nat),
        Reply::NewsSet(c) => "News channel set to "@ + decimal(c as nat),
        Reply::BadgeGiven => "Badge given with success"@,
        Reply::BadgeFailed => "Badge attribution failed"@,
        Reply::BadgesGiven => "Badges given with some success"@,
        Reply::CompaniesCreated(v) => "Created companies: "@ + joined(words_view(v), " "@),
        Reply::CompaniesRemoved(v) => "Removed companies: "@ + joined(words_view(v), " "@),
        Reply::ChannelsPaired(v) => "Paired channels: "@ + joined(
            v@.map_values(|id: u64| decimal(id as nat)),
            " "@,
        ),
        Reply::SpotlightEnabled(n) => "Spotlight enabled for "@ + n@,
        Reply::SpotlightEnableFailed(n) => "Spotlight enabling failed for "@ + n@,
        Reply::SpotlightDisabled(n) => "Spotlight disabled for "@ + n@,
        Reply::SpotlightDisableFailed(n) => "Spotlight disabling failed for "@ + n@,
        Reply::CompanyMissing(n) => "Company "@ + n@ + " doesnt exist"@,
        Reply::NoSpotlightCategory => "No spotlight category set"@,
        Reply::UserAdded(n) => "User added to "@ + n@,
        Reply::UserRemoved(n) => "User removed from "@ + n@,
        Reply::CompanyNotFound(n) => "Company "@ + n@ + " not found"@,
        Reply::TierNotFound(n) => "Tier "@ + n@ + " not found"@,
        Reply::TiersCreated(v) => "Foram criados os tiers: "@ + joined(words_view(v), " "@),
        Reply::TiersRemoved(v) => "Foram removidos os tiers: "@ + joined(words_view(v), " "@),
        Reply::SpotlightStartedNews(n) => "A empresa **"@ + n@ + "** acabou de ativar o spotlight"@,
        Reply::SpotlightEndedNews(n) => "O spotlight da empresa **"@ + n@ + "** acabou"@,
    }
}

fn cat(a: &str, b: &str) -> (r: String)
    ensures
        r@ == a@ + b@,
{
    let mut s = a.to_owned();
    s.append(b);
    s
}

fn cat3(a: &str, b: &str, c: &str) -> (r: String)
    ensures
        r@ == a@ + b@ + c@,
{
    let mut s = a.to_owned();
    s.append(b);
    s.append(c);
    s
}

impl Reply {
    /// The text of the reply.
    pub fn text(&self) -> (r: String)
        ensures
            r@ == reply_text(*self),
    {
        match self {
            Reply::SpotlightSet(c) => cat("Spotlight category set to ", decimal_string(*c).as_str()),
            Reply::NewsSet(c) => cat("News channel set to ", decimal_string(*c).as_str()),
            Reply::BadgeGiven => "Badge given with success".to_owned(),
            Reply::BadgeFailed => "Badge attribution failed".to_owned(),
            Reply::BadgesGiven => "Badges given with some success".to_owned(),
            Reply::CompaniesCreated(v) => cat("Created companies: ", join(v, " ").as_str()),
            Reply::CompaniesRemoved(v) => cat("Removed companies: ", join(v, " ").as_str()),
            Reply::ChannelsPaired(v) => cat("Paired channels: ", join_ids(v, " ").as_str()),
            Reply::SpotlightEnabled(n) => cat("Spotlight enabled for ", n.as_str()),
            Reply::SpotlightEnableFailed(n) => cat("Spotlight enabling failed for ", n.as_str()),
            Reply::SpotlightDisabled(n) => cat("Spotlight disabled for ", n.as_str()),
            Reply::SpotlightDisableFailed(n) => cat("Spotlight disabling failed for ", n.as_str()),
            Reply::CompanyMissing(n) => cat3("Company ", n.as_str(), " doesnt exist"),
            Reply::NoSpotlightCategory => "No spotlight category set".to_owned(),
            Reply::UserAdded(n) => cat("User added to ", n.as_str()),
            Reply::UserRemoved(n) => cat("User removed from ", n.as_str()),
            Reply::CompanyNotFound(n) => cat3("Company ", n.as_str(), " not found"),
            Reply::TierNotFound(n) => cat3("Tier ", n.as_str(), " not found"),
            Reply::TiersCreated(v) => cat("Foram criados os tiers: ", join(v, " ").as_str()),
            Reply::TiersRemoved(v) => cat("Foram removidos os tiers: ", join(v, " ").as_str()),
            Reply::SpotlightStartedNews(n) => cat3(
                "A empresa **",
                n.as_str(),
                "** acabou de ativar o spotlight",
            ),
            Reply::SpotlightEndedNews(n) => cat3(
                "O spotlight da empresa **",
                n.as_str(),
                "** acabou",
            ),
        }
    }
}

/// What the `company spotlight` command does in a guild.
pub enum SpotlightCommand {
    /// The guild has no spotlight category.
    NoCategory,
    /// The guild has no company of that (normalised) name.
    UnknownCompany(String),
    /// Move the company's channels into the spotlight category.
    Start { company: String, spotlight: u64, news: Option<u64> },
    /// Move the company's channels back to its own category.
    End { company: String, news: Option<u64> },
}

/// The replies once the channels were moved: to the command, and the news
/// post with its channel.
pub struct SpotlightReplies {
    pub reply: Reply,
    pub news: Option<(u64, Reply)>,
}

impl Guild {
    /// What the `company spotlight` command does here for the company typed
    /// as `company_name`: start (`status`) or end its spotlight, or answer
    /// that the guild has no spotlight category or no such company.
    pub fn spotlight_command(&self, company_name: &str, status: bool) -> (r: SpotlightCommand)
        ensures
            match self@.spotlight {
                None => r is NoCategory,
                Some(s) => {
                    let name = normalized(company_name@);
                    if self@.company(name) is None {
                        r matches SpotlightCommand::UnknownCompany(n) && n@ == name
                    } else if status {
                        r matches SpotlightCommand::Start { company, spotlight, news } && company@
                            == name && spotlight == s && news == self@.news_channel
                    } else {
                        r matches SpotlightCommand::End { company, news } && company@ == name
                            && news == self@.news_channel
                    }
                },
            },
    {
        let name = normalize_name(company_name);
        let news = self.news_channel();
        match self.spotlight() {
            None => SpotlightCommand::NoCategory,
            Some(spot) => {
                if self.find_company(name.as_str()).is_none() {
                    SpotlightCommand::UnknownCompany(name)
                } else if status {
                    SpotlightCommand::Start { company: name, spotlight: spot, news }
                } else {
                    SpotlightCommand::End { company: name, news }
                }
            },
        }
    }

    /// Records the outcome of a spotlight command: when every channel was
    /// moved, the company is in the spotlight (`on`) or out of it.
    pub fn finish_spotlight(&mut self, name: &str, on: bool, moved: bool)
        ensures
            final(self)@ == if moved {
                match old(self)@.company(name@) {
                    Some(p) => old(self)@.replace_company(
                        name@,
                        CompanyView { spotlight: on, ..p.0 },
                    ),
                    None => old(self)@,
                }
            } else {
                old(self)@
            },
            old(self)@.wf() ==> final(self)@.wf(),
    {
        if moved {
            match self.find_company_mut(name) {
                Some(c) => c.set_spotlight(on),
                None => {},
            }
        }
    }
}

/// The replies to a spotlight command for company `name`, once the moves into
/// (`on`) or out of the spotlight succeeded (`moved`) or not; a news post
/// goes to `news` only on success.
pub fn spotlight_replies(name: &String, on: bool, moved: bool, news: Option<u64>) -> (r:
    SpotlightReplies)
    ensures
        reply_text(r.reply) == if on {
            if moved {
                reply_text(Reply::SpotlightEnabled(*name))
            } else {
                reply_text(Reply::SpotlightEnableFailed(*name))
            }
        } else {
            if moved {
                reply_text(Reply::SpotlightDisabled(*name))
            } else {
                reply_text(Reply::SpotlightDisableFailed(*name))
            }
        },
        match r.news {
            Some(p) => moved && news == Some(p.0) && reply_text(p.1) == if on {
                reply_text(Reply::SpotlightStartedNews(*name))
            } else {
                reply_text(Reply::SpotlightEndedNews(*name))
            },
            None => !moved || news is None,
        },
{
    let reply = if on {
        if moved {
            Reply::SpotlightEnabled(name.clone())
        } else {
            Reply::SpotlightEnableFailed(name.clone())
        }
    } else {
        if moved {
            Reply::SpotlightDisabled(name.clone())
        } else {
            Reply::SpotlightDisableFailed(name.clone())
        }
    };
    let post = if moved {
        match news {
            Some(ch) => {
                let text = if on {
                    Reply::SpotlightStartedNews(name.clone())
                } else {
                    Reply::SpotlightEndedNews(name.clone())
                };
                Some((ch, text))
            },
            None => None,
        }
    } else {
        None
    };
    SpotlightReplies { reply, news: post }
}

} // verus!
