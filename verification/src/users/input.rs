//! Users as they are written in the configuration, where whether blocks are
//! fetched for a user may be left to a default.
use vstd::prelude::*;

verus! {

/// A user as configured.
#[derive(Debug)]
pub struct User {
    pub password: String,
    pub allowed_calls: Vec<String>,
    pub fetch_blocks: Option<bool>,
}

impl User {
    /// The user, with the default where the configuration leaves
    /// `fetch_blocks` open.
    pub fn map_default(self, default_fetch_blocks: bool) -> (res: super::User)
        ensures
            res.password == self.password,
            res.allowed_calls == self.allowed_calls,
            res.fetch_blocks == match self.fetch_blocks {
                Some(b) => b,
                None => default_fetch_blocks,
            },
    {
        super::User {
            password: self.password,
            allowed_calls: self.allowed_calls,
            fetch_blocks: match self.fetch_blocks {
                Some(b) => b,
                None => default_fetch_blocks,
            },
        }
    }
}

/// The user as it is used, with the default applied.
pub open spec fn with_default(user: User, default_fetch_blocks: bool) -> super::UserView {
    super::UserView {
        password: user.password@,
        allowed_calls: super::texts(user.allowed_calls@).to_set(),
        fetch_blocks: match user.fetch_blocks {
            Some(b) => b,
            None => default_fetch_blocks,
        },
    }
}

/// The configured users, by name; where a name occurs twice, the later
/// entry counts.
pub open spec fn input_map(users: Seq<(String, User)>, default_fetch_blocks: bool) -> Map<Seq<char>, super::UserView>
    decreases users.len(),
{
    if users.len() == 0 {
        Map::empty()
    } else {
        input_map(users.drop_last(), default_fetch_blocks).insert(
            users.last().0@,
            with_default(users.last().1, default_fetch_blocks),
        )
    }
}

/// The user entered last under a name in the configuration.
pub open spec fn last_configured(users: Seq<(String, User)>, name: Seq<char>) -> Option<User>
    decreases users.len(),
{
    if users.len() == 0 {
        None
    } else if users.last().0@ == name {
        Some(users.last().1)
    } else {
        last_configured(users.drop_last(), name)
    }
}

/// The configured users as they are used: a name is known exactly when
/// some entry has it; the last entry of a name counts, with its password
/// and methods, and blocks are fetched for it as that entry says, or as the
/// default says where the entry leaves it open.
pub proof fn lemma_configured_users_law(users: Seq<(String, User)>, default_fetch_blocks: bool, name: Seq<char>)
    ensures
        input_map(users, default_fetch_blocks).contains_key(name) <==> last_configured(users, name) is Some,
        last_configured(users, name) matches Some(u) ==> {
            let v = input_map(users, default_fetch_blocks)[name];
            &&& v.password == u.password@
            &&& v.allowed_calls == super::texts(u.allowed_calls@).to_set()
            &&& v.fetch_blocks == (u.fetch_blocks == Some(true) || (u.fetch_blocks is None && default_fetch_blocks))
        },
    decreases users.len(),
{
    if users.len() > 0 {
        lemma_configured_users_law(users.drop_last(), default_fetch_blocks, name);
    }
}

/// All configured users, with the default applied to each.
pub fn map_default(users: Vec<(String, User)>, default_fetch_blocks: bool) -> (res: super::Users)
    ensures
        res@ == input_map(users@, default_fetch_blocks),
{
    let ghost all = users@;
    let mut rest = users;
    let mut res = super::Users::new();
    let mut i: usize = 0;
    let n = rest.len();
    while rest.len() > 0
        invariant
            n == all.len(),
            i + rest@.len() == n,
            rest@ == all.skip(i as int),
            res@ == input_map(all.take(i as int), default_fetch_blocks),
        decreases rest@.len(),
    {
        let (name, user) = rest.remove(0);
        let ghost entry = all[i as int];
        assert(all.take(i + 1).drop_last() =~= all.take(i as int));
        let mapped = user.map_default(default_fetch_blocks);
        res.insert(name, mapped);
        assert(rest@ =~= all.skip(i + 1));
        i = i + 1;
    }
    assert(all.take(n as int) =~= all);
    res
}

} // verus!
