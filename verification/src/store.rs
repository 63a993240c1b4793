//! The durable store model: the accounts table and the per-account profile
//! rows, with username and identifier uniqueness as its invariant. The
//! store is the single source of truth the flows read and write.
use vstd::prelude::*;

use crate::claims::valid_sub;
use crate::user::Gender;

verus! {

/// One account row: identifier, unique username, email, password hash.
pub struct Account {
    pub id: String,
    pub username: String,
    pub email: String,
    pub password: String,
}

/// One profile row, keyed by the account identifier; every field optional.
pub struct ProfileRow {
    pub user_id: String,
    pub firstname: Option<String>,
    pub lastname: Option<String>,
    pub age: Option<i32>,
    pub gender: Option<Gender>,
    pub bio: Option<String>,
    pub profile_picture_url: Option<String>,
    pub updated_at: u64,
}

/// The durable store: accounts and profile rows.
pub struct UserStore {
    accounts: Vec<Account>,
    profiles: Vec<ProfileRow>,
}

impl UserStore {
    /// Usernames and identifiers are unique, identifiers are printable
    /// ASCII without quotes (so they can be token subjects), and each
    /// account has at most one profile row.
    pub closed spec fn wf(self) -> bool {
        &&& forall|i: int, j: int|
            0 <= i < j < self.accounts@.len() ==> (#[trigger] self.accounts@[i]).username@
                != (#[trigger] self.accounts@[j]).username@
        &&& forall|i: int, j: int|
            0 <= i < j < self.accounts@.len() ==> (#[trigger] self.accounts@[i]).id@
                != (#[trigger] self.accounts@[j]).id@
        &&& forall|i: int|
            0 <= i < self.accounts@.len() ==> valid_sub((#[trigger] self.accounts@[i]).id@)
        &&& forall|i: int, j: int|
            0 <= i < j < self.profiles@.len() ==> (#[trigger] self.profiles@[i]).user_id@
                != (#[trigger] self.profiles@[j]).user_id@
        &&& forall|i: int| 0 <= i < self.profiles@.len() ==> row_ok(#[trigger] self.profiles@[i])
    }

    pub closed spec fn has_username(self, u: Seq<char>) -> bool {
        exists|i: int|
            0 <= i < self.accounts@.len() && (#[trigger] self.accounts@[i]).username@ == u
    }

    pub closed spec fn has_id(self, id: Seq<char>) -> bool {
        exists|i: int|
            0 <= i < self.accounts@.len() && (#[trigger] self.accounts@[i]).id@ == id
    }

    pub closed spec fn uname_idx(self, u: Seq<char>) -> int {
        choose|i: int|
            0 <= i < self.accounts@.len() && (#[trigger] self.accounts@[i]).username@ == u
    }

    /// The identifier of the account with this username.
    pub closed spec fn id_of(self, u: Seq<char>) -> Seq<char> {
        self.accounts@[self.uname_idx(u)].id@
    }

    /// The password hash of the account with this username.
    pub closed spec fn password_of(self, u: Seq<char>) -> Seq<char> {
        self.accounts@[self.uname_idx(u)].password@
    }

    /// The email of the account with this username.
    pub closed spec fn email_of(self, u: Seq<char>) -> Seq<char> {
        self.accounts@[self.uname_idx(u)].email@
    }

    pub closed spec fn has_profile(self, uid: Seq<char>) -> bool {
        exists|i: int|
            0 <= i < self.profiles@.len() && (#[trigger] self.profiles@[i]).user_id@ == uid
    }

    pub closed spec fn profile_idx(self, uid: Seq<char>) -> int {
        choose|i: int|
            0 <= i < self.profiles@.len() && (#[trigger] self.profiles@[i]).user_id@ == uid
    }

    /// The profile row under this identifier; meaningful when present.
    pub closed spec fn profile_of(self, uid: Seq<char>) -> ProfileRow {
        self.profiles@[self.profile_idx(uid)]
    }

    /// In a well-formed store, the account at any index with a given
    /// username is the one the accessors speak of.
    proof fn lemma_account_at(self, u: Seq<char>, i: int)
        requires
            self.wf(),
            0 <= i < self.accounts@.len(),
            self.accounts@[i].username@ == u,
        ensures
            self.has_username(u),
            self.uname_idx(u) == i,
            self.id_of(u) == self.accounts@[i].id@,
            self.password_of(u) == self.accounts@[i].password@,
            self.email_of(u) == self.accounts@[i].email@,
    {
        assert(self.has_username(u));
        let j = self.uname_idx(u);
        if i < j {
            assert(self.accounts@[i].username@ != self.accounts@[j].username@);
        } else if j < i {
            assert(self.accounts@[j].username@ != self.accounts@[i].username@);
        }
    }

    /// The profile row at any index with a given identifier is the one the
    /// accessors speak of.
    proof fn lemma_profile_at(self, uid: Seq<char>, i: int)
        requires
            self.wf(),
            0 <= i < self.profiles@.len(),
            self.profiles@[i].user_id@ == uid,
        ensures
            self.has_profile(uid),
            self.profile_idx(uid) == i,
            self.profile_of(uid) == self.profiles@[i],
    {
        assert(self.has_profile(uid));
        let j = self.profile_idx(uid);
        if i < j {
            assert(self.profiles@[i].user_id@ != self.profiles@[j].user_id@);
        } else if j < i {
            assert(self.profiles@[j].user_id@ != self.profiles@[i].user_id@);
        }
    }

    /// An empty store.
    pub fn new() -> (r: Self)
        ensures
            r.wf(),
            forall|u: Seq<char>| !r.has_username(u),
            forall|id: Seq<char>| !r.has_id(id),
            forall|uid: Seq<char>| !r.has_profile(uid),
    {
        UserStore { accounts: Vec::new(), profiles: Vec::new() }
    }

    fn find_username(&self, username: &String) -> (r: Option<usize>)
        ensures
            match r {
                Some(i) => i < self.accounts@.len() && self.accounts@[i as int].username@
                    == username@,
                None => !self.has_username(username@),
            },
    {
        let n = self.accounts.len();
        let mut i: usize = 0;
        while i < n
            invariant
                n == self.accounts@.len(),
                0 <= i <= n,
                forall|j: int|
                    0 <= j < i ==> (#[trigger] self.accounts@[j]).username@ != username@,
            decreases n - i,
        {
            if self.accounts[i].username == *username {
                return Some(i);
            }
            i = i + 1;
        }
        None
    }

    /// Whether an account with this username exists.
    pub fn username_exists(&self, username: &String) -> (r: bool)
        requires
            self.wf(),
        ensures
            r == self.has_username(username@),
    {
        match self.find_username(username) {
            Some(i) => {
                proof {
                    self.lemma_account_at(username@, i as int);
                }
                true
            },
            None => false,
        }
    }

    /// Whether an account with this identifier exists.
    pub fn id_exists(&self, id: &String) -> (r: bool)
        requires
            self.wf(),
        ensures
            r == self.has_id(id@),
    {
        let n = self.accounts.len();
        let mut i: usize = 0;
        while i < n
            invariant
                n == self.accounts@.len(),
                0 <= i <= n,
                forall|j: int| 0 <= j < i ==> (#[trigger] self.accounts@[j]).id@ != id@,
            decreases n - i,
        {
            if self.accounts[i].id == *id {
                return true;
            }
            i = i + 1;
        }
        false
    }

    /// The identifier and password hash of the account with this username.
    pub fn get_user_auth(&self, username: &String) -> (r: Option<(String, String)>)
        requires
            self.wf(),
        ensures
            match r {
                Some(p) => self.has_username(username@) && p.0@ == self.id_of(username@) && p.1@
                    == self.password_of(username@) && valid_sub(p.0@),
                None => !self.has_username(username@),
            },
    {
        match self.find_username(username) {
            Some(i) => {
                proof {
                    self.lemma_account_at(username@, i as int);
                }
                Some((self.accounts[i].id.clone(), self.accounts[i].password.clone()))
            },
            None => None,
        }
    }

    /// Inserts a new account; usernames and identifiers stay unique. No
    /// other account and no profile row is touched.
    pub fn insert_account(&mut self, id: String, username: String, email: String, password: String)
        requires
            old(self).wf(),
            !old(self).has_username(username@),
            !old(self).has_id(id@),
            valid_sub(id@),
        ensures
            final(self).wf(),
            final(self).has_username(username@),
            final(self).has_id(id@),
            final(self).id_of(username@) == id@,
            final(self).password_of(username@) == password@,
            final(self).email_of(username@) == email@,
            forall|u: Seq<char>|
                u != username@ ==> (#[trigger] final(self).has_username(u)) == old(self).has_username(u),
            forall|u: Seq<char>|
                u != username@ && old(self).has_username(u) ==> (#[trigger] final(self).id_of(u))
                    == old(self).id_of(u) && final(self).password_of(u) == old(self).password_of(
                    u,
                ) && final(self).email_of(u) == old(self).email_of(u),
            forall|i: Seq<char>|
                i != id@ ==> (#[trigger] final(self).has_id(i)) == old(self).has_id(i),
            forall|uid: Seq<char>|
                (#[trigger] final(self).has_profile(uid)) == old(self).has_profile(uid),
            forall|uid: Seq<char>|
                old(self).has_profile(uid) ==> (#[trigger] final(self).profile_of(uid)) == old(self).profile_of(uid),
    {
        let ghost pre = *self;
        let ghost g_u = username@;
        let ghost g_id = id@;
        let account = Account { id, username, email, password };
        self.accounts.push(account);
        proof {
            let n = pre.accounts@.len();
            assert(self.accounts@[n as int].username@ == g_u);
            assert(forall|j: int|
                0 <= j < n ==> #[trigger] self.accounts@[j] == pre.accounts@[j]);
            assert forall|a: int, b: int|
                0 <= a < b < n + 1 implies (#[trigger] self.accounts@[a]).username@
                != (#[trigger] self.accounts@[b]).username@ by {
                if b < n {
                    assert(pre.accounts@[a].username@ != pre.accounts@[b].username@);
                } else {
                    if self.accounts@[a].username@ == g_u {
                        assert(pre.has_username(g_u));
                    }
                }
            }
            assert forall|a: int, b: int|
                0 <= a < b < n + 1 implies (#[trigger] self.accounts@[a]).id@
                != (#[trigger] self.accounts@[b]).id@ by {
                if b < n {
                    assert(pre.accounts@[a].id@ != pre.accounts@[b].id@);
                } else {
                    if self.accounts@[a].id@ == g_id {
                        assert(pre.has_id(g_id));
                    }
                }
            }
            assert(final(self).wf());
            self.lemma_account_at(g_u, n as int);
            assert(final(self).has_id(g_id));
            assert forall|u: Seq<char>| u != g_u implies (#[trigger] final(self).has_username(u))
                == pre.has_username(u) by {
                if pre.has_username(u) {
                    let j = pre.uname_idx(u);
                    assert(pre.accounts@[j].username@ == u);
                    self.lemma_account_at(u, j);
                } else {
                    if final(self).has_username(u) {
                        let j2 = final(self).uname_idx(u);
                        assert(0 <= j2 < n + 1 && self.accounts@[j2].username@ == u);
                        if j2 < n {
                            assert(pre.has_username(u));
                        }
                    }
                }
            }
            assert forall|u: Seq<char>| u != g_u && pre.has_username(u) implies (
            #[trigger] final(self).id_of(u)) == pre.id_of(u) && final(self).password_of(u)
                == pre.password_of(u) && final(self).email_of(u) == pre.email_of(u) by {
                let j = pre.uname_idx(u);
                assert(pre.accounts@[j].username@ == u);
                pre.lemma_account_at(u, j);
                self.lemma_account_at(u, j);
            }
            assert forall|i: Seq<char>| i != g_id implies (#[trigger] final(self).has_id(i))
                == pre.has_id(i) by {
                if pre.has_id(i) {
                    let j = choose|j: int|
                        0 <= j < n && (#[trigger] pre.accounts@[j]).id@ == i;
                    assert(self.accounts@[j].id@ == i);
                } else {
                    if final(self).has_id(i) {
                        let j2 = choose|j: int|
                            0 <= j < n + 1 && (#[trigger] self.accounts@[j]).id@ == i;
                        if j2 < n {
                            assert(pre.has_id(i));
                        }
                    }
                }
            }
            assert forall|uid: Seq<char>| (#[trigger] final(self).has_profile(uid))
                == pre.has_profile(uid) by {}
            assert forall|uid: Seq<char>| pre.has_profile(uid) implies (
            #[trigger] final(self).profile_of(uid)) == pre.profile_of(uid) by {}
        }
    }

    fn find_profile(&self, uid: &String) -> (r: Option<usize>)
        ensures
            match r {
                Some(i) => i < self.profiles@.len() && self.profiles@[i as int].user_id@ == uid@,
                None => !self.has_profile(uid@),
            },
    {
        let n = self.profiles.len();
        let mut i: usize = 0;
        while i < n
            invariant
                n == self.profiles@.len(),
                0 <= i <= n,
                forall|j: int|
                    0 <= j < i ==> (#[trigger] self.profiles@[j]).user_id@ != uid@,
            decreases n - i,
        {
            if self.profiles[i].user_id == *uid {
                return Some(i);
            }
            i = i + 1;
        }
        None
    }

    /// A copy of the profile row under this identifier, if one exists.
    pub fn get_profile_row(&self, uid: &String) -> (r: Option<ProfileRow>)
        requires
            self.wf(),
        ensures
            match r {
                Some(row) => self.has_profile(uid@) && row.user_id@ == uid@ && row_view(row)
                    == row_view(self.profile_of(uid@)) && row_ok(self.profile_of(uid@)),
                None => !self.has_profile(uid@),
            },
    {
        match self.find_profile(uid) {
            Some(i) => {
                proof {
                    self.lemma_profile_at(uid@, i as int);
                }
                Some(clone_row(&self.profiles[i]))
            },
            None => None,
        }
    }

    /// Writes the profile row for `row.user_id`, creating or replacing it.
    /// Accounts and every other profile row stay untouched.
    pub fn put_profile_row(&mut self, row: ProfileRow)
        requires
            old(self).wf(),
            row_ok(row),
        ensures
            final(self).wf(),
            final(self).has_profile(row.user_id@),
            row_view(final(self).profile_of(row.user_id@)) == row_view(row),
            forall|u: Seq<char>|
                u != row.user_id@ ==> (#[trigger] final(self).has_profile(u)) == old(self).has_profile(u),
            forall|u: Seq<char>|
                u != row.user_id@ && old(self).has_profile(u) ==> (#[trigger] final(self).profile_of(u)) == old(self).profile_of(u),
            forall|u: Seq<char>|
                (#[trigger] final(self).has_username(u)) == old(self).has_username(u),
            forall|u: Seq<char>|
                old(self).has_username(u) ==> (#[trigger] final(self).id_of(u)) == old(self).id_of(u) && final(self).password_of(u) == old(self).password_of(u) && final(self).email_of(u) == old(self).email_of(u),
            forall|i: Seq<char>| (#[trigger] final(self).has_id(i)) == old(self).has_id(i),
    {
        let ghost pre = *self;
        let ghost uid = row.user_id@;
        let found = self.find_profile(&row.user_id);
        match found {
            Some(i) => {
                self.profiles.remove(i);
                proof {
                    let n = pre.profiles@.len();
                    assert(forall|j: int|
                        0 <= j < n - 1 ==> #[trigger] self.profiles@[j] == (if j < i {
                            pre.profiles@[j]
                        } else {
                            pre.profiles@[j + 1]
                        }));
                    assert forall|a: int, b: int|
                        0 <= a < b < n - 1 implies (#[trigger] self.profiles@[a]).user_id@
                        != (#[trigger] self.profiles@[b]).user_id@ by {
                        let a0 = if a < (i as int) { a } else { a + 1 };
                        let b0 = if b < (i as int) { b } else { b + 1 };
                        assert(pre.profiles@[a0].user_id@ != pre.profiles@[b0].user_id@);
                    }
                    assert forall|j: int|
                        0 <= j < n - 1 implies (#[trigger] self.profiles@[j]).user_id@ != uid by {
                        let j0 = if j < (i as int) { j } else { j + 1 };
                        if j0 != i {
                            assert(pre.profiles@[j0].user_id@ != pre.profiles@[i as int].user_id@);
                        }
                    }
                }
            },
            None => {},
        }
        let ghost mid = *self;
        let ghost g_i: int = match found {
            Some(i) => i as int,
            None => 0,
        };
        self.profiles.push(row);
        proof {
            let n2 = mid.profiles@.len();
            assert(forall|j: int|
                0 <= j < n2 ==> (#[trigger] mid.profiles@[j]).user_id@ != uid);
            assert(forall|j: int| 0 <= j < n2 ==> #[trigger] self.profiles@[j] == mid.profiles@[j]);
            assert(self.profiles@[n2 as int].user_id@ == uid);
            assert forall|a: int, b: int|
                0 <= a < b < n2 + 1 implies (#[trigger] self.profiles@[a]).user_id@
                != (#[trigger] self.profiles@[b]).user_id@ by {
                if b < n2 {
                    assert(mid.profiles@[a].user_id@ != mid.profiles@[b].user_id@);
                }
            }
            assert(final(self).wf());
            self.lemma_profile_at(uid, n2 as int);
            assert forall|u: Seq<char>| u != uid implies (#[trigger] final(self).has_profile(u))
                == pre.has_profile(u) by {
                if pre.has_profile(u) {
                    let j = pre.profile_idx(u);
                    assert(pre.profiles@[j].user_id@ == u);
                    let j2 = match found {
                        Some(_) => if j < g_i {
                            j
                        } else {
                            j - 1
                        },
                        None => j,
                    };
                    assert(self.profiles@[j2] == pre.profiles@[j]);
                    self.lemma_profile_at(u, j2);
                } else {
                    if final(self).has_profile(u) {
                        let j2 = final(self).profile_idx(u);
                        assert(0 <= j2 < n2 + 1 && self.profiles@[j2].user_id@ == u);
                        assert(j2 < n2);
                        let j0 = match found {
                            Some(_) => if j2 < g_i {
                                j2
                            } else {
                                j2 + 1
                            },
                            None => j2,
                        };
                        assert(pre.profiles@[j0].user_id@ == u);
                        assert(pre.has_profile(u));
                    }
                }
            }
            assert forall|u: Seq<char>| u != uid && pre.has_profile(u) implies (
            #[trigger] final(self).profile_of(u)) == pre.profile_of(u) by {
                let j = pre.profile_idx(u);
                assert(pre.profiles@[j].user_id@ == u);
                pre.lemma_profile_at(u, j);
                let j2 = match found {
                    Some(_) => if j < g_i {
                        j
                    } else {
                        j - 1
                    },
                    None => j,
                };
                assert(self.profiles@[j2] == pre.profiles@[j]);
                self.lemma_profile_at(u, j2);
            }
            assert forall|u: Seq<char>| (#[trigger] final(self).has_username(u))
                == pre.has_username(u) by {}
            assert forall|u: Seq<char>| pre.has_username(u) implies (
            #[trigger] final(self).id_of(u)) == pre.id_of(u) && final(self).password_of(u)
                == pre.password_of(u) && final(self).email_of(u) == pre.email_of(u) by {}
            assert forall|i: Seq<char>| (#[trigger] final(self).has_id(i)) == pre.has_id(i) by {}
        }
    }
}

/// The bounds every stored profile row observes: a validated age and
/// fields whose lengths fit the snapshot format.
pub open spec fn row_ok(r: ProfileRow) -> bool {
    &&& (r.age matches Some(a) ==> 18 <= a <= 50)
    &&& crate::user::fld_ok(opt_view(r.firstname))
    &&& crate::user::fld_ok(opt_view(r.lastname))
    &&& crate::user::fld_ok(opt_view(r.bio))
    &&& crate::user::fld_ok(opt_view(r.profile_picture_url))
}

/// The mathematical content of a profile row: every field as plain values.
pub open spec fn row_view(r: ProfileRow) -> (
    Seq<char>,
    Option<Seq<char>>,
    Option<Seq<char>>,
    Option<int>,
    Option<Gender>,
    Option<Seq<char>>,
    Option<Seq<char>>,
    u64,
) {
    (
        r.user_id@,
        opt_view(r.firstname),
        opt_view(r.lastname),
        match r.age {
            Some(a) => Some(a as int),
            None => None,
        },
        r.gender,
        opt_view(r.bio),
        opt_view(r.profile_picture_url),
        r.updated_at,
    )
}

/// The view of an optional string.
pub open spec fn opt_view(o: Option<String>) -> Option<Seq<char>> {
    match o {
        Some(s) => Some(s@),
        None => None,
    }
}

/// A field-by-field copy of a profile row.
pub fn clone_row(r: &ProfileRow) -> (c: ProfileRow)
    ensures
        row_view(c) == row_view(*r),
{
    ProfileRow {
        user_id: r.user_id.clone(),
        firstname: clone_opt(&r.firstname),
        lastname: clone_opt(&r.lastname),
        age: r.age,
        gender: r.gender,
        bio: clone_opt(&r.bio),
        profile_picture_url: clone_opt(&r.profile_picture_url),
        updated_at: r.updated_at,
    }
}

/// A copy of an optional string.
pub fn clone_opt(o: &Option<String>) -> (c: Option<String>)
    ensures
        opt_view(c) == opt_view(*o),
{
    match o {
        Some(s) => Some(s.clone()),
        None => None,
    }
}

} // verus!
