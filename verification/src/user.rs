//! The user service: checking a user's credentials.
use vstd::prelude::*;
use crate::order::views;

verus! {

/// Why a user request was refused.
#[derive(Debug, Clone, Copy, PartialEq, Eq, Structural)]
pub enum UserError {
    /// No user has the name.
    NotFound,
    /// The password does not match.
    IncorrectPassword,
}

impl UserError {
    /// The message the service answers with.
    pub fn message(&self) -> (r: String)
        ensures
            *self == UserError::NotFound ==> r@ == "{username} not Found!"@,
            *self == UserError::IncorrectPassword ==> r@ == "Incorrect Password!"@,
    {
        match self {
            UserError::NotFound => "{username} not Found!".to_owned(),
            UserError::IncorrectPassword => "Incorrect Password!".to_owned(),
        }
    }
}

/// One step of seeding distinct users: records `username` in `seen` unless
/// it is already there, and says whether it was new.
pub fn seed_step(seen: &mut Vec<String>, username: String) -> (added: bool)
    requires
        views(old(seen)@).no_duplicates(),
    ensures
        views(final(seen)@).no_duplicates(),
        added == !views(old(seen)@).contains(username@),
        added ==> final(seen)@ == old(seen)@.push(username),
        !added ==> final(seen)@ == old(seen)@,
{
    let mut i: usize = 0;
    while i < seen.len()
        invariant
            i <= seen@.len(),
            seen@ == old(seen)@,
            views(seen@).no_duplicates(),
            forall|k: int| 0 <= k < i ==> seen@[k]@ != username@,
        decreases seen.len() - i,
    {
        if seen[i] == username {
            assert(views(seen@)[i as int] == username@);
            return false;
        }
        i = i + 1;
    }
    let ghost before = seen@;
    proof {
        assert forall|k: int| 0 <= k < views(before).len() implies views(before)[k] != username@ by {
            assert(views(before)[k] == before[k]@);
        }
    }
    seen.push(username);
    proof {
        assert(views(seen@) =~= views(before).push(username@));
    }
    true
}

/// The user service.
pub struct UserService {
    pub name: String,
}

impl UserService {
    /// Checks a password against the stored password of the user, if one
    /// was found: `Ok(true)` when they match.
    pub fn check_user(stored_password: Option<&String>, password: &String) -> (r: Result<
        bool,
        UserError,
    >)
        ensures
            stored_password is None ==> r == Err::<bool, UserError>(UserError::NotFound),
            stored_password matches Some(p) ==> (p@ == password@ ==> r == Ok::<bool, UserError>(true)),
            stored_password matches Some(p) ==> (p@ != password@ ==> r == Err::<bool, UserError>(
                UserError::IncorrectPassword,
            )),
    {
        match stored_password {
            Some(p) => {
                if *p == *password {
                    Ok(true)
                } else {
                    Err(UserError::IncorrectPassword)
                }
            },
            None => Err(UserError::NotFound),
        }
    }

    /// Answers a profile request with the profile found, if any.
    pub fn get_user_profile<P>(found: Option<P>) -> (r: Result<Option<P>, UserError>)
        ensures
            found is None ==> r == Err::<Option<P>, UserError>(UserError::NotFound),
            found is Some ==> r == Ok::<Option<P>, UserError>(found),
    {
        match found {
            Some(profile) => Ok(Some(profile)),
            None => Err(UserError::NotFound),
        }
    }
}

} // verus!
