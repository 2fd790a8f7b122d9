//! Rows of the durable store and the message shape shared with the cache.
//!
//! User, group and membership identities are opaque strings supplied by the
//! environment; message identities and creation times are assigned by the
//! durable store itself.

use vstd::prelude::*;

verus! {

/// A row of the user table.
#[derive(Debug, PartialEq)]
pub struct UserModel {
    pub id: String,
    pub username: String,
    pub password_hash: String,
}

impl Clone for UserModel {
    fn clone(&self) -> (r: Self)
        ensures
            r == *self,
    {
        UserModel {
            id: self.id.clone(),
            username: self.username.clone(),
            password_hash: self.password_hash.clone(),
        }
    }
}

/// A row of the group table.
#[derive(Debug, PartialEq)]
pub struct GroupModel {
    pub id: String,
    pub name: String,
}

impl Clone for GroupModel {
    fn clone(&self) -> (r: Self)
        ensures
            r == *self,
    {
        GroupModel { id: self.id.clone(), name: self.name.clone() }
    }
}

/// Role of a member within a group.
#[derive(Clone, Copy, PartialEq, Eq, Structural, Debug)]
pub enum UserRole {
    User,
    Admin,
}

impl UserRole {
    /// The wire name of the role.
    pub fn as_str(&self) -> (r: &'static str)
        ensures
            *self is User ==> r@ == "user"@,
            *self is Admin ==> r@ == "admin"@,
    {
        match self {
            UserRole::User => "user",
            UserRole::Admin => "admin",
        }
    }
}

/// A row of the membership table; unique per (user, group).
#[derive(Debug, PartialEq)]
pub struct UserGroupModel {
    pub user_id: String,
    pub group_id: String,
    pub role: UserRole,
}

/// Kind of a message: written by a user, or synthesized for a room event.
#[derive(Clone, Copy, PartialEq, Eq, Structural, Debug)]
pub enum MessageType {
    Normal,
    Event,
}

impl MessageType {
    /// The wire name of the kind.
    pub fn as_str(&self) -> (r: &'static str)
        ensures
            *self is Normal ==> r@ == "normal"@,
            *self is Event ==> r@ == "event"@,
    {
        match self {
            MessageType::Normal => "normal",
            MessageType::Event => "event",
        }
    }
}

/// A row of the message table.  `sender_id` is absent for synthetic event
/// messages; `created_at` is in seconds since the epoch.
#[derive(Debug, PartialEq)]
pub struct MessageModel {
    pub id: u64,
    pub sender_id: Option<String>,
    pub receiver_group_id: String,
    pub content: String,
    pub msg_type: MessageType,
    pub created_at: u64,
}

impl Clone for MessageModel {
    fn clone(&self) -> (r: Self)
        ensures
            r == *self,
    {
        MessageModel {
            id: self.id,
            sender_id: match &self.sender_id {
                Some(s) => Some(s.clone()),
                None => None,
            },
            receiver_group_id: self.receiver_group_id.clone(),
            content: self.content.clone(),
            msg_type: self.msg_type,
            created_at: self.created_at,
        }
    }
}

/// A message as served to clients and mirrored into the room cache: the
/// sender is given by username, absent for synthetic event messages.
#[derive(Debug, PartialEq)]
pub struct Message {
    pub id: u64,
    pub sender: Option<String>,
    pub content: String,
    pub msg_type: MessageType,
    pub date: u64,
}

impl Clone for Message {
    fn clone(&self) -> (r: Self)
        ensures
            r == *self,
    {
        Message {
            id: self.id,
            sender: match &self.sender {
                Some(s) => Some(s.clone()),
                None => None,
            },
            content: self.content.clone(),
            msg_type: self.msg_type,
            date: self.date,
        }
    }
}

/// Copies a list of messages.
pub fn clone_messages(v: &Vec<Message>) -> (r: Vec<Message>)
    ensures
        r@ == v@,
{
    let mut r: Vec<Message> = Vec::new();
    let mut i: usize = 0;
    while i < v.len()
        invariant
            i <= v.len(),
            r@ == v@.take(i as int),
        decreases v.len() - i,
    {
        r.push(v[i].clone());
        i = i + 1;
        proof {
            assert(r@ =~= v@.take(i as int));
        }
    }
    proof {
        assert(v@.take(v@.len() as int) =~= v@);
    }
    r
}

} // verus!
