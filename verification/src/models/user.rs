//! Registered players, players about to be registered, and the directory
//! that names are looked up in.

use vstd::prelude::*;

use crate::text::reads_as;

verus! {

/// A registered player.
#[derive(Debug, PartialEq, Eq)]
pub struct User {
    pub id: String,
    pub name: String,
    pub chat_id: String,
}

impl Clone for User {
    fn clone(&self) -> (r: Self)
        ensures
            r == *self,
    {
        User { id: self.id.clone(), name: self.name.clone(), chat_id: self.chat_id.clone() }
    }
}

/// Whether a new player's name has been held against the reserved names, and
/// how that ended.
#[derive(Debug, Clone, Copy, PartialEq, Eq, Structural)]
pub enum NameCheckedState {
    Valid,
    Invalid,
    Unchecked,
}

/// Why a new player cannot be registered.
#[derive(Debug, Clone, Copy, PartialEq, Eq, Structural)]
pub enum UserError {
    /// The name is reserved.
    InvalidName,
    /// The name has not been checked yet.
    NameNotChecked,
}

/// A player about to be registered.
#[derive(Debug, PartialEq, Eq)]
pub struct NewUser {
    pub id: String,
    pub name: String,
    pub chat_id: String,
    pub checked: NameCheckedState,
}

/// Draws an identifier with `uuid::Uuid::new_v4` and gives its text form.
/// It is random: nothing is claimed of it. `new_v4` gives up where the system
/// has no random bytes to offer.
#[verifier::external_body]
fn new_user_id() -> (id: String) {
    uuid::Uuid::new_v4().to_string()
}

impl User {
    /// Registers a new player whose name was found valid, and no other.
    pub fn from(new_user: NewUser) -> (r: Result<User, UserError>)
        ensures
            new_user.checked == NameCheckedState::Valid ==> r == Ok::<User, UserError>(
                User { id: new_user.id, name: new_user.name, chat_id: new_user.chat_id },
            ),
            new_user.checked == NameCheckedState::Invalid ==> r == Err::<User, UserError>(
                UserError::InvalidName,
            ),
            new_user.checked == NameCheckedState::Unchecked ==> r == Err::<User, UserError>(
                UserError::NameNotChecked,
            ),
    {
        match new_user.checked {
            NameCheckedState::Valid => Ok(
                User { id: new_user.id, name: new_user.name, chat_id: new_user.chat_id },
            ),
            NameCheckedState::Invalid => Err(UserError::InvalidName),
            NameCheckedState::Unchecked => Err(UserError::NameNotChecked),
        }
    }
}

impl NewUser {
    /// A new player of the given name and chat, under a fresh identifier and
    /// with the name still to be checked.
    pub fn from(name: String, chat_id: String) -> (r: Self)
        ensures
            r.name == name,
            r.chat_id == chat_id,
            r.checked == NameCheckedState::Unchecked,
    {
        Self::with_id(new_user_id(), name, chat_id)
    }

    /// A new player under the given identifier, with the name still to be
    /// checked.
    pub fn with_id(id: String, name: String, chat_id: String) -> (r: Self)
        ensures
            r == (NewUser { id, name, chat_id, checked: NameCheckedState::Unchecked }),
    {
        Self { id, name, chat_id, checked: NameCheckedState::Unchecked }
    }

    /// Marks the name as valid.
    pub fn validate(&mut self)
        ensures
            *final(self) == (NewUser { checked: NameCheckedState::Valid, ..*old(self) }),
    {
        self.checked = NameCheckedState::Valid;
    }

    /// Marks the name as reserved.
    pub fn invalidate(&mut self)
        ensures
            *final(self) == (NewUser { checked: NameCheckedState::Invalid, ..*old(self) }),
    {
        self.checked = NameCheckedState::Invalid;
    }

    /// Whether the name was found valid.
    pub fn is_valid(&self) -> (r: bool)
        ensures
            r == (self.checked == NameCheckedState::Valid),
    {
        self.checked == NameCheckedState::Valid
    }
}

impl UserError {
    /// A sentence for the one who asked.
    pub fn message(&self) -> (r: &'static str)
        ensures
            r@ == self.message_text(),
    {
        match self {
            UserError::InvalidName => "Invalid user name",
            UserError::NameNotChecked => "User name not yet checked",
        }
    }

    /// The sentence that `message` gives.
    pub open spec fn message_text(self) -> Seq<char> {
        match self {
            UserError::InvalidName => "Invalid user name"@,
            UserError::NameNotChecked => "User name not yet checked"@,
        }
    }
}

/// The first place at or after `from` where `name` stands among `names`.
pub open spec fn position_from(names: Seq<Seq<char>>, name: Seq<char>, from: int) -> Option<int>
    decreases names.len() - from,
{
    if from >= names.len() {
        None
    } else if names[from] == name {
        Some(from)
    } else {
        position_from(names, name, from + 1)
    }
}

/// The first place where `name` stands among `names`.
pub open spec fn position(names: Seq<Seq<char>>, name: Seq<char>) -> Option<int> {
    position_from(names, name, 0)
}

/// What `position_from` finds is the first match at or after `from`; where it
/// finds nothing there is none.
pub proof fn lemma_position_from(names: Seq<Seq<char>>, name: Seq<char>, from: int)
    requires
        0 <= from,
    ensures
        match position_from(names, name, from) {
            Some(i) => from <= i < names.len() && names[i] == name && forall|j: int|
                from <= j < i ==> names[j] != name,
            None => forall|j: int| from <= j < names.len() ==> names[j] != name,
        },
    decreases names.len() - from,
{
    if from < names.len() && names[from] != name {
        lemma_position_from(names, name, from + 1);
    }
}

/// The names of some users, user by user.
pub open spec fn names_of(users: Seq<User>) -> Seq<Seq<char>> {
    Seq::new(users.len(), |i: int| users[i].name@)
}

/// The identifiers of some users, user by user.
pub open spec fn ids_of(users: Seq<User>) -> Seq<Seq<char>> {
    Seq::new(users.len(), |i: int| users[i].id@)
}

/// The players that names can be resolved to while a round is read. It holds
/// what a lookup of each name gave, in the order in which it was told.
pub struct PlayerDirectory {
    pub users: Vec<User>,
}

impl PlayerDirectory {
    /// A directory that knows nobody.
    pub fn new() -> (r: Self)
        ensures
            r.users@ == Seq::<User>::empty(),
    {
        PlayerDirectory { users: Vec::new() }
    }

    /// Tells the directory of one more player.
    pub fn insert_user(&mut self, user: User)
        ensures
            final(self).users@ == old(self).users@.push(user),
    {
        self.users.push(user);
    }

    /// The player that `name` resolves to: the first one told under exactly
    /// that name.
    pub open spec fn resolve(self, name: Seq<char>) -> Option<User> {
        match position(names_of(self.users@), name) {
            Some(i) => Some(self.users@[i]),
            None => None,
        }
    }

    /// Looks a name up.
    pub fn get_user_by_name(&self, user_name: &Vec<char>) -> (r: Option<User>)
        ensures
            r == self.resolve(user_name@),
    {
        let mut i: usize = 0;
        while i < self.users.len()
            invariant
                i <= self.users.len(),
                position(names_of(self.users@), user_name@) == position_from(
                    names_of(self.users@),
                    user_name@,
                    i as int,
                ),
            decreases self.users.len() - i,
        {
            if reads_as(user_name, self.users[i].name.as_str()) {
                return Some(self.users[i].clone());
            }
            i += 1;
        }
        None
    }
}

} // verus!
