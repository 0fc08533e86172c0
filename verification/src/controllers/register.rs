//! Registering players: the names of a command are held against the reserved
//! names, and those that pass become players.

use vstd::prelude::*;

use crate::models::user::{NewUser, User};
use crate::naming::GameAggregator;
use crate::text::{
    append_chars, append_str, chars_of, split_words, string_of, texts, to_uppercase, uppercase,
    words,
};

verus! {

/// The names of a registering command: its words after the first.
pub open spec fn names_in(text: Seq<char>) -> Seq<Seq<char>> {
    if words(text).len() == 0 {
        Seq::empty()
    } else {
        words(text).skip(1)
    }
}

/// The names that a registering command holds.
pub fn extract_names(text: &str) -> (r: Vec<Vec<char>>)
    ensures
        texts(r@) == names_in(text@),
{
    let chars = chars_of(text);
    let mut w = split_words(&chars);
    if w.len() == 0 {
        assert(texts(w@) == Seq::<Seq<char>>::empty());
        return w;
    }
    let ghost all = w@;
    let r = w.split_off(1);
    assert(texts(r@) == texts(all).skip(1));
    r
}

/// The names among `names` that players may take, in upper case and in
/// order.
pub open spec fn accepted_names(names: Seq<Seq<char>>) -> Seq<Seq<char>>
    decreases names.len(),
{
    if names.len() == 0 {
        Seq::empty()
    } else if GameAggregator::accepts(uppercase(names.last())) {
        accepted_names(names.drop_last()).push(uppercase(names.last()))
    } else {
        accepted_names(names.drop_last())
    }
}

/// The names among `names` that are reserved, in upper case and in order.
pub open spec fn rejected_names(names: Seq<Seq<char>>) -> Seq<Seq<char>>
    decreases names.len(),
{
    if names.len() == 0 {
        Seq::empty()
    } else if GameAggregator::accepts(uppercase(names.last())) {
        rejected_names(names.drop_last())
    } else {
        rejected_names(names.drop_last()).push(uppercase(names.last()))
    }
}

/// What became of the names of a registering command.
#[derive(Debug, PartialEq, Eq)]
pub struct Registration {
    /// The players to be registered, one for each name that may be taken.
    pub users: Vec<User>,
    /// The names that are reserved.
    pub invalid_names: Vec<String>,
}

/// What some strings hold, string by string.
pub open spec fn strings_of(lines: Seq<String>) -> Seq<Seq<char>> {
    Seq::new(lines.len(), |i: int| lines[i]@)
}

/// The names of some players, player by player.
pub open spec fn user_names(users: Seq<User>) -> Seq<Seq<char>> {
    Seq::new(users.len(), |i: int| users[i].name@)
}

/// Holds the names of a registering command against the reserved names. Each
/// name is taken in upper case; one that may be taken gives a player of the
/// chat under a fresh identifier.
pub fn check_names(text: &str, chat_id: &str) -> (r: Registration)
    ensures
        user_names(r.users@) == accepted_names(names_in(text@)),
        forall|i: int| 0 <= i < r.users.len() ==> (#[trigger] r.users[i]).chat_id@ == chat_id@,
        strings_of(r.invalid_names@) == rejected_names(names_in(text@)),
{
    let names = extract_names(text);
    let ghost all = texts(names@);
    let games = GameAggregator::new();
    let mut users: Vec<User> = Vec::new();
    let mut invalid_names: Vec<String> = Vec::new();
    let mut k: usize = 0;
    assert(all.take(0) == Seq::<Seq<char>>::empty());
    assert(user_names(users@) == Seq::<Seq<char>>::empty());
    assert(strings_of(invalid_names@) == Seq::<Seq<char>>::empty());
    while k < names.len()
        invariant
            k <= names.len(),
            all == texts(names@),
            user_names(users@) == accepted_names(all.take(k as int)),
            forall|i: int| 0 <= i < users.len() ==> (#[trigger] users[i]).chat_id@ == chat_id@,
            strings_of(invalid_names@) == rejected_names(all.take(k as int)),
        decreases names.len() - k,
    {
        assert(all.take(k + 1).drop_last() == all.take(k as int));
        assert(all.take(k + 1).last() == names@[k as int]@) by {
            assert(all[k as int] == names@[k as int]@);
        }
        let name = string_of(&to_uppercase(&names[k]));
        let mut new_user = NewUser::from(name, chat_id.to_string());
        games.validate_user(&mut new_user);
        let ghost before_users = users@;
        let ghost before_invalid = invalid_names@;
        if new_user.is_valid() {
            match User::from(new_user) {
                Ok(user) => {
                    users.push(user);
                    assert(user_names(users@) == user_names(before_users).push(user.name@));
                },
                Err(_) => {},
            }
        } else {
            invalid_names.push(new_user.name);
            assert(strings_of(invalid_names@) == strings_of(before_invalid).push(
                new_user.name@,
            ));
        }
        k += 1;
    }
    assert(all.take(names.len() as int) == all);
    Registration { users, invalid_names }
}

/// What is said of a name that is reserved.
pub fn reserved_name_message(name: &str) -> (r: String)
    ensures
        r@ == "Username "@ + name@ + " is on a reserved list. Choose another name."@,
{
    let mut out: Vec<char> = Vec::new();
    append_str(&mut out, "Username ");
    append_str(&mut out, name);
    append_str(&mut out, " is on a reserved list. Choose another name.");
    string_of(&out)
}

/// What is said of a player who was registered.
pub fn user_created_message(name: &str) -> (r: String)
    ensures
        r@ == "User "@ + name@ + " created!"@,
{
    let mut out: Vec<char> = Vec::new();
    append_str(&mut out, "User ");
    append_str(&mut out, name);
    append_str(&mut out, " created!");
    string_of(&out)
}

/// Some lines with a line break between each two.
pub open spec fn joined(lines: Seq<Seq<char>>) -> Seq<char>
    decreases lines.len(),
{
    if lines.len() == 0 {
        Seq::empty()
    } else if lines.len() == 1 {
        lines[0]
    } else {
        joined(lines.drop_last()) + seq!['\n'] + lines.last()
    }
}

/// Joins lines with a line break between each two.
pub fn join_lines(lines: &Vec<String>) -> (r: Vec<char>)
    ensures
        r@ == joined(strings_of(lines@)),
{
    let ghost all = strings_of(lines@);
    let mut out: Vec<char> = Vec::new();
    let mut i: usize = 0;
    assert(all.take(0) == Seq::<Seq<char>>::empty());
    while i < lines.len()
        invariant
            i <= lines.len(),
            all == strings_of(lines@),
            out@ == joined(all.take(i as int)),
        decreases lines.len() - i,
    {
        assert(all.take(i + 1).drop_last() == all.take(i as int));
        assert(all.take(i + 1).last() == lines@[i as int]@) by {
            assert(all[i as int] == lines@[i as int]@);
        }
        if i > 0 {
            out.push('\n');
        } else {
            assert(all.take(1)[0] == lines@[0]@);
        }
        append_str(&mut out, lines[i].as_str());
        i += 1;
    }
    assert(all.take(lines.len() as int) == all);
    out
}

/// The answer to a registering command: what was said of each player that was
/// to be registered, line by line; a line break; and what was said of each
/// reserved name, line by line.
pub fn register_reply(insert_messages: &Vec<String>, validate_messages: &Vec<String>) -> (r:
    String)
    ensures
        r@ == joined(strings_of(insert_messages@)) + seq!['\n'] + joined(
            strings_of(validate_messages@),
        ),
{
    let mut out = join_lines(insert_messages);
    out.push('\n');
    let part_two = join_lines(validate_messages);
    append_chars(&mut out, &part_two);
    string_of(&out)
}

} // verus!
