//! The parts of Discord users and members that the bot reads.

use vstd::prelude::*;

verus! {

/// A Discord user, as far as the bot looks at it.
#[derive(Debug)]
pub struct User {
    pub id: u64,
    /// The unique user name.
    pub name: String,
    /// The display name the user chose, if any.
    pub global_name: Option<String>,
    /// Whether the account is a bot.
    pub bot: bool,
    /// Whether the account is an official Discord system user.
    pub system: bool,
}

/// A user as a member of a guild.
#[derive(Debug)]
pub struct Member {
    /// The nickname in this guild, if any.
    pub nick: Option<String>,
    pub user: User,
}

/// The name a member is called by: the nickname, else the display name,
/// else the user name.
pub open spec fn read_name_spec(member: Member) -> Seq<char> {
    match member.nick {
        Some(n) => n@,
        None => match member.user.global_name {
            Some(g) => g@,
            None => member.user.name@,
        },
    }
}

/// A person, not a bot nor a system account.
pub open spec fn is_human_spec(user: User) -> bool {
    !user.bot && !user.system
}

/// The name a member is read aloud by: the nickname, else the display
/// name, else the user name.
pub fn get_user_read_name(member: &Member) -> (res: &str)
    ensures
        res@ == read_name_spec(*member),
{
    if let Some(name) = &member.nick {
        return name.as_str();
    }
    if let Some(name) = &member.user.global_name {
        return name.as_str();
    }
    member.user.name.as_str()
}

/// Whether the user is a person, not a bot nor a system account.
pub fn is_human(user: &User) -> (res: bool)
    ensures
        res == is_human_spec(*user),
{
    !user.bot && !user.system
}

} // verus!
