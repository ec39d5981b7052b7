//! Per-user authentication secrets: a random 16-byte salt and an encoded
//! password hash for every user.
//!
//! Authentication is uniform: a missing user and a wrong password are the
//! same failure, so callers cannot learn whether an account exists. The salt
//! feeds key derivation; the hash only ever authorises access.

use vstd::prelude::*;
use vstd::utf8::encode_utf8;
use crate::crypto::SALT_LENGTH;
use crate::crypto::generate_salt;
use crate::crypto::hash_password;
use crate::crypto::verify_password;
use crate::crypto::hash_matches;

verus! {

/// Failure of a keychain operation.
#[derive(Clone, Copy, PartialEq, Eq, Structural, Debug)]
pub enum KeyError {
    /// The user already holds secrets; creating it again would conflict.
    UserExists,
    /// No secrets are stored under this user id.
    UnknownUser,
    /// A cryptographic step failed (for example, no randomness available).
    Crypto,
}

/// The stored secrets of one user.
pub struct UserRecord {
    id: String,
    salt: Vec<u8>,
    pass_hash: String,
}

/// All users' stored secrets.
pub struct KeyChain {
    users: Vec<UserRecord>,
}

impl KeyChain {
    /// The stored user ids, in insertion order.
    pub closed spec fn ids(&self) -> Seq<Seq<char>> {
        Seq::new(self.users@.len(), |i: int| self.users@[i].id@)
    }

    /// The stored salts, matching [`KeyChain::ids`] position by position.
    pub closed spec fn salts(&self) -> Seq<Seq<u8>> {
        Seq::new(self.users@.len(), |i: int| self.users@[i].salt@)
    }

    /// The stored encoded password hashes, matching [`KeyChain::ids`].
    pub closed spec fn hashes(&self) -> Seq<Seq<char>> {
        Seq::new(self.users@.len(), |i: int| self.users@[i].pass_hash@)
    }

    /// Well-formed: ids are unique, every id has exactly one salt and one
    /// hash at its own position, and every salt has its full length.
    pub open spec fn wf(&self) -> bool {
        &&& self.salts().len() == self.ids().len()
        &&& self.hashes().len() == self.ids().len()
        &&& forall|i: int, j: int|
            0 <= i < j < self.ids().len() ==> self.ids()[i] != self.ids()[j]
        &&& forall|i: int|
            0 <= i < self.salts().len() ==> (#[trigger] self.salts()[i]).len() == SALT_LENGTH
    }

    /// True when secrets are stored under `id`.
    pub open spec fn spec_contains(&self, id: Seq<char>) -> bool {
        self.ids().contains(id)
    }

    /// An empty keychain.
    pub fn new() -> (k: KeyChain)
        ensures
            k.wf(),
            k.ids() == Seq::<Seq<char>>::empty(),
    {
        let k = KeyChain { users: Vec::new() };
        proof {
            assert(k.ids() =~= Seq::<Seq<char>>::empty());
        }
        k
    }

    /// The position of `id` among the stored users, if any.
    fn find_user(&self, id: &String) -> (r: Option<usize>)
        ensures
            match r {
                Some(i) => i < self.ids().len() && self.ids()[i as int] == id@,
                None => !self.spec_contains(id@),
            },
    {
        let mut i: usize = 0;
        while i < self.users.len()
            invariant
                0 <= i <= self.users@.len(),
                forall|k: int| 0 <= k < i ==> self.ids()[k] != id@,
            decreases self.users@.len() - i,
        {
            if self.users[i].id == *id {
                return Some(i);
            }
            i = i + 1;
        }
        proof {
            assert(forall|k: int| 0 <= k < self.ids().len() ==> self.ids()[k] != id@);
        }
        None
    }

    /// True when secrets are stored under `id`.
    pub fn id_exists(&self, id: &str) -> (b: bool)
        ensures
            b == self.spec_contains(id@),
    {
        let owned = id.to_owned();
        match self.find_user(&owned) {
            Some(_) => {
                proof {
                    assert(self.ids().contains(id@));
                }
                true
            },
            None => false,
        }
    }

    /// Creates a fresh user: draws a random salt, hashes the password with
    /// the crate's fixed cost parameters, and stores both under `id`.
    ///
    /// Fails with [`KeyError::UserExists`] exactly when `id` already holds
    /// secrets; fails with [`KeyError::Crypto`] on an empty password or when
    /// no randomness is available. On success the new user is appended and
    /// its hash verifies against the given password.
    pub fn create_user(&mut self, id: &str, password: &str) -> (r: Result<(), KeyError>)
        requires
            old(self).wf(),
        ensures
            final(self).wf(),
            match r {
                Ok(_) => {
                    &&& !old(self).spec_contains(id@)
                    &&& final(self).ids() == old(self).ids().push(id@)
                    &&& final(self).salts().len() == old(self).salts().len() + 1
                    &&& final(self).hashes().len() == old(self).hashes().len() + 1
                    &&& forall|i: int|
                        0 <= i < old(self).ids().len() ==> final(self).salts()[i] == old(
                            self,
                        ).salts()[i] && final(self).hashes()[i] == old(self).hashes()[i]
                    &&& hash_matches(
                        final(self).hashes().last(),
                        encode_utf8(password@),
                    )
                    &&& final(self).spec_contains(id@)
                },
                Err(KeyError::UserExists) => old(self).spec_contains(id@) && *final(self)
                    == *old(self),
                Err(_) => !old(self).spec_contains(id@) && *final(self) == *old(self),
            },
            password@.len() == 0 ==> !(r is Ok),
    {
        let owned = id.to_owned();
        if let Some(_) = self.find_user(&owned) {
            proof {
                assert(self.ids().contains(id@));
            }
            return Err(KeyError::UserExists);
        }
        let salt = match generate_salt() {
            Ok(s) => s,
            Err(_) => {
                return Err(KeyError::Crypto);
            },
        };
        let pass_hash = match hash_password(password.as_bytes()) {
            Ok(h) => h,
            Err(_) => {
                return Err(KeyError::Crypto);
            },
        };
        let ghost before = *self;
        self.users.push(UserRecord { id: owned, salt, pass_hash });
        proof {
            assert(self.ids() =~= before.ids().push(id@));
            assert(self.salts() =~= before.salts().push(self.users@.last().salt@));
            assert(self.hashes() =~= before.hashes().push(self.users@.last().pass_hash@));
            assert(self.ids().last() == id@);
            assert(self.spec_contains(id@));
        }
        Ok(())
    }

    /// Checks `pass` against the stored hash of `id`.
    ///
    /// Returns true exactly when `id` is stored and its hash verifies against
    /// `pass`. A missing user, an empty password and a wrong password are
    /// indistinguishable: all yield false, never a crash.
    pub fn valid_auth(&self, id: &str, pass: &str) -> (b: bool)
        requires
            self.wf(),
        ensures
            b == exists|i: int|
                0 <= i < self.ids().len() && self.ids()[i] == id@ && hash_matches(
                    #[trigger] self.hashes()[i],
                    encode_utf8(pass@),
                ),
    {
        let owned = id.to_owned();
        match self.find_user(&owned) {
            Some(i) => {
                let ok = verify_password(self.users[i].pass_hash.as_str(), pass.as_bytes());
                proof {
                    assert(forall|j: int|
                        0 <= j < self.ids().len() && self.ids()[j] == id@ ==> j == i);
                    if ok {
                        assert(self.ids()[i as int] == id@ && hash_matches(
                            self.hashes()[i as int],
                            encode_utf8(pass@),
                        ));
                    }
                }
                ok
            },
            None => {
                proof {
                    assert forall|i: int|
                        0 <= i < self.ids().len() implies !(self.ids()[i] == id@ && hash_matches(
                        self.hashes()[i],
                        encode_utf8(pass@),
                    )) by {
                        if self.ids()[i] == id@ {
                            assert(self.spec_contains(id@));
                        }
                    }
                }
                false
            },
        }
    }

    /// The stored 16-byte salt of `id`; fails exactly when `id` is unknown.
    pub fn get_key_salt(&self, id: &str) -> (r: Result<Vec<u8>, KeyError>)
        requires
            self.wf(),
        ensures
            match r {
                Ok(s) => exists|i: int|
                    0 <= i < self.ids().len() && self.ids()[i] == id@ && s@ == #[trigger] self
                        .salts()[i] && s@.len() == SALT_LENGTH,
                Err(e) => !self.spec_contains(id@) && e == KeyError::UnknownUser,
            },
    {
        let owned = id.to_owned();
        match self.find_user(&owned) {
            Some(i) => {
                let s = clone_bytes(&self.users[i].salt);
                proof {
                    assert(self.ids()[i as int] == id@ && s@ == self.salts()[i as int]);
                }
                Ok(s)
            },
            None => Err(KeyError::UnknownUser),
        }
    }

    /// The name of the stored salt file of `id`: the id with a `.txt`
    /// suffix. Fails exactly when `id` is unknown.
    pub fn find_id_filename(&self, id: &str) -> (r: Result<String, KeyError>)
        ensures
            match r {
                Ok(f) => self.spec_contains(id@) && f@ == id@ + ".txt"@,
                Err(e) => !self.spec_contains(id@) && e == KeyError::UnknownUser,
            },
    {
        let owned = id.to_owned();
        match self.find_user(&owned) {
            Some(_) => {
                proof {
                    assert(self.ids().contains(id@));
                }
                let mut f = id.to_owned();
                f.append(".txt");
                Ok(f)
            },
            None => Err(KeyError::UnknownUser),
        }
    }

    /// All stored user ids, in insertion order.
    pub fn get_key_ids(&self) -> (r: Vec<String>)
        ensures
            r@.len() == self.ids().len(),
            forall|i: int| 0 <= i < r@.len() ==> r@[i]@ == self.ids()[i],
    {
        let mut r: Vec<String> = Vec::new();
        let mut i: usize = 0;
        while i < self.users.len()
            invariant
                0 <= i <= self.users@.len(),
                r@.len() == i,
                forall|k: int| 0 <= k < i ==> r@[k]@ == self.ids()[k],
            decreases self.users@.len() - i,
        {
            r.push(self.users[i].id.clone());
            i = i + 1;
        }
        r
    }
}

/// A freshly created user authenticates with the password it was created
/// with: the keychain that [`KeyChain::create_user`] leaves behind satisfies
/// exactly the condition under which [`KeyChain::valid_auth`] answers true
/// for that id and password.
pub proof fn lemma_create_then_auth(
    before: KeyChain,
    after: KeyChain,
    id: Seq<char>,
    password: Seq<char>,
)
    requires
        after.wf(),
        after.ids() == before.ids().push(id),
        hash_matches(after.hashes().last(), encode_utf8(password)),
    ensures
        exists|i: int|
            0 <= i < after.ids().len() && after.ids()[i] == id && hash_matches(
                #[trigger] after.hashes()[i],
                encode_utf8(password),
            ),
{
    let n = after.ids().len() - 1;
    assert(after.ids()[n] == id);
    assert(after.hashes()[n] == after.hashes().last());
}

/// A copy of a byte vector.
fn clone_bytes(v: &Vec<u8>) -> (r: Vec<u8>)
    ensures
        r@ == v@,
{
    let mut r: Vec<u8> = Vec::new();
    let mut i: usize = 0;
    while i < v.len()
        invariant
            0 <= i <= v@.len(),
            r@ =~= v@.subrange(0, i as int),
        decreases v@.len() - i,
    {
        r.push(v[i]);
        i = i + 1;
    }
    proof {
        assert(v@.subrange(0, v@.len() as int) =~= v@);
    }
    r
}

} // verus!
