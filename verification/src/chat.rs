use vstd::prelude::*;

verus! {

/// A user taking part in private conversations.
///
/// Only the data the accessors below read is kept: the numeric identity
/// and the display name of the user.
#[derive(Clone, Debug)]
pub struct User {
    /// The unique identifier of the user.
    pub id: i32,
    /// The access hash of the user, when one is known.
    pub access_hash: Option<i64>,
    /// The first name of the user; empty if the account was deleted.
    pub first_name: String,
}

/// A group chat, whether private or public.
#[derive(Clone, Debug)]
pub struct Group {
    /// The unique identifier of the group.
    pub id: i32,
    /// The access hash of the group, when one is known.
    pub access_hash: Option<i64>,
    /// The title of the group; empty if the chat is inaccessible.
    pub title: String,
}

/// A broadcast channel, where only administrators post messages.
#[derive(Clone, Debug)]
pub struct Channel {
    /// The unique identifier of the channel.
    pub id: i32,
    /// The access hash of the channel, when one is known.
    pub access_hash: Option<i64>,
    /// The title of the channel; empty if the chat is inaccessible.
    pub title: String,
}

/// A chat.
///
/// Chats represent places where you can share messages with others.
///
/// * Private conversations with other people are treated as the chat of the user itself.
/// * Conversations in a group, whether it's private or public, are simply known as groups.
/// * Conversations where only administrators broadcast messages are known as channels.
#[derive(Clone, Debug)]
pub enum Chat {
    /// A [`User`].
    User(User),
    /// A [`Group`] chat.
    Group(Group),
    /// A broadcast [`Channel`].
    Channel(Channel),
}

impl Chat {
    /// The identifier of whichever entity this chat wraps.
    pub open spec fn spec_id(&self) -> i32 {
        match self {
            Chat::User(user) => user.id,
            Chat::Group(group) => group.id,
            Chat::Channel(channel) => channel.id,
        }
    }

    /// The access hash of whichever entity this chat wraps.
    pub open spec fn spec_access_hash(&self) -> Option<i64> {
        match self {
            Chat::User(user) => user.access_hash,
            Chat::Group(group) => group.access_hash,
            Chat::Channel(channel) => channel.access_hash,
        }
    }

    /// The display name of whichever entity this chat wraps: the first
    /// name for a user, the title for a group or channel.
    pub open spec fn spec_name(&self) -> Seq<char> {
        match self {
            Chat::User(user) => user.first_name@,
            Chat::Group(group) => group.title@,
            Chat::Channel(channel) => channel.title@,
        }
    }

    /// Return the unique identifier for this chat.
    ///
    /// Every account will see the same identifier for the same chat.
    ///
    /// This identifier will never change. However, small group chats may be
    /// migrated to megagroups. If this happens, both the old small group chat
    /// and the new megagroup exist as separate chats with different
    /// identifiers, but they are linked with a property.
    pub fn id(&self) -> (r: i32)
        ensures
            r == self.spec_id(),
    {
        match self {
            Self::User(user) => user.id,
            Self::Group(group) => group.id,
            Self::Channel(channel) => channel.id,
        }
    }

    /// Return the access hash for this chat.
    pub fn access_hash(&self) -> (r: Option<i64>)
        ensures
            r == self.spec_access_hash(),
    {
        match self {
            Self::User(user) => user.access_hash,
            Self::Group(grp) => grp.access_hash,
            Self::Channel(chan) => chan.access_hash,
        }
    }

    /// Return the name of this chat.
    ///
    /// For private conversations (users), this is their first name. For
    /// groups and channels, this is their title.
    ///
    /// The name may be empty if the chat is inaccessible or if the account
    /// was deleted.
    pub fn name(&self) -> (r: &str)
        ensures
            r@ == self.spec_name(),
    {
        match self {
            Self::User(user) => user.first_name.as_str(),
            Self::Group(group) => group.title.as_str(),
            Self::Channel(channel) => channel.title.as_str(),
        }
    }
}

} // verus!
