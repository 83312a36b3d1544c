//! Identity binding: a durable owned username is bound to the generated
//! display name the connection currently carries.  Rebinding keeps the
//! previous generated name for audit; the owned username is the natural
//! key and never changes once set.

use vstd::prelude::*;
use crate::model::{User, UserExists, UserResp};

verus! {

/// A durable identity record.
pub struct UserCollection {
    pub owned_uname: String,
    pub cur_gen_uname: String,
    pub last_username: String,
    pub online: bool,
    pub updated_at: i64,
    pub created_at: i64,
}

/// Mathematical image of a [`UserCollection`].
pub ghost struct UserCollectionView {
    pub owned_uname: Seq<char>,
    pub cur_gen_uname: Seq<char>,
    pub last_username: Seq<char>,
    pub online: bool,
    pub updated_at: int,
    pub created_at: int,
}

impl View for UserCollection {
    type V = UserCollectionView;

    open spec fn view(&self) -> UserCollectionView {
        UserCollectionView {
            owned_uname: self.owned_uname@,
            cur_gen_uname: self.cur_gen_uname@,
            last_username: self.last_username@,
            online: self.online,
            updated_at: self.updated_at as int,
            created_at: self.created_at as int,
        }
    }
}

/// The record a binding produces.  A first binding creates the identity
/// with no previous name; a rebinding moves the current generated name
/// into the previous slot and installs the new one.  Either way the
/// identity comes online and its update time is refreshed.
pub open spec fn bind_spec(
    existing: Option<UserCollectionView>,
    owned: Seq<char>,
    generated: Seq<char>,
    now: int,
) -> UserCollectionView {
    match existing {
        None => UserCollectionView {
            owned_uname: owned,
            cur_gen_uname: generated,
            last_username: Seq::empty(),
            online: true,
            updated_at: now,
            created_at: now,
        },
        Some(e) => UserCollectionView {
            owned_uname: e.owned_uname,
            cur_gen_uname: generated,
            last_username: e.cur_gen_uname,
            online: true,
            updated_at: now,
            created_at: e.created_at,
        },
    }
}

/// Bind the owned username named in `user` to its generated display name,
/// given the record the store currently holds for that username (if any).
/// The result is the record the store is to hold afterwards.
pub fn handle_user(existing: Option<&UserCollection>, user: &User, now: i64) -> (r: UserCollection)
    requires
        match existing {
            Some(e) => e.owned_uname@ == user.username@,
            None => true,
        },
    ensures
        r@ == bind_spec(
            match existing {
                Some(e) => Some(e@),
                None => None,
            },
            user.username@,
            user.generated_username@,
            now as int,
        ),
{
    match existing {
        Some(e) => UserCollection {
            owned_uname: e.owned_uname.clone(),
            cur_gen_uname: user.generated_username.clone(),
            last_username: e.cur_gen_uname.clone(),
            online: true,
            updated_at: now,
            created_at: e.created_at,
        },
        None => UserCollection {
            owned_uname: user.username.clone(),
            cur_gen_uname: user.generated_username.clone(),
            last_username: String::new(),
            online: true,
            updated_at: now,
            created_at: now,
        },
    }
}

/// The record after a disconnect: the identity goes offline and its update
/// time is refreshed; everything else stands.
pub fn mark_offline(existing: &UserCollection, now: i64) -> (r: UserCollection)
    ensures
        r@ == (UserCollectionView {
            online: false,
            updated_at: now as int,
            ..existing@
        }),
{
    UserCollection {
        owned_uname: existing.owned_uname.clone(),
        cur_gen_uname: existing.cur_gen_uname.clone(),
        last_username: existing.last_username.clone(),
        online: false,
        updated_at: now,
        created_at: existing.created_at,
    }
}

/// What a binding reports back to the client.
pub fn to_user_resp(rec: &UserCollection) -> (r: UserResp)
    ensures
        r.owned_uname@ == rec.owned_uname@,
        r.cur_gen_uname@ == rec.cur_gen_uname@,
        r.updated_at == rec.updated_at,
        r.created_at == rec.created_at,
{
    UserResp {
        owned_uname: rec.owned_uname.clone(),
        cur_gen_uname: rec.cur_gen_uname.clone(),
        updated_at: rec.updated_at,
        created_at: rec.created_at,
    }
}

/// The answer to an existence check on an owned username: the stored
/// binding when there is one, and an empty answer otherwise.
pub fn user_exists_response(found: Option<&User>) -> (r: UserExists)
    ensures
        match found {
            Some(u) => r.exists && r.username@ == u.username@ && r.generated_username@
                == u.generated_username@,
            None => !r.exists && r.username@ == Seq::<char>::empty() && r.generated_username@
                == Seq::<char>::empty(),
        },
{
    match found {
        Some(u) => UserExists {
            exists: true,
            username: u.username.clone(),
            generated_username: u.generated_username.clone(),
        },
        None => UserExists {
            exists: false,
            username: String::new(),
            generated_username: String::new(),
        },
    }
}

/// Rebinding an owned username moves the generated name bound first into
/// the previous slot: after binding to `g1` and then to `g2`, the record
/// holds `g2` as current, `g1` as previous, and is online.
pub proof fn lemma_rebinding(owned: Seq<char>, g1: Seq<char>, g2: Seq<char>, t1: int, t2: int)
    ensures
        ({
            let first = bind_spec(None, owned, g1, t1);
            let second = bind_spec(Some(first), owned, g2, t2);
            second.cur_gen_uname == g2 && second.last_username == g1 && second.online
                && second.owned_uname == owned && second.created_at == t1 && second.updated_at == t2
        }),
{
}

} // verus!
