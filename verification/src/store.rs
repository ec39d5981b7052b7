//! The encryption-addressed log store.
//!
//! A logical address is `(user, day, month, year, index)`. Dates arrive as
//! `day_month_year` strings of three numeric components; any other shape is
//! rejected. The index space of an address is append-only: a new entry
//! always receives the next free index, and overwriting an index never moves
//! any other entry. Entry content is sealed by [`crate::crypto`] with the
//! key derived from the user's password and stored salt; the store holds
//! ciphertext only, as opaque bytes.

use vstd::prelude::*;
use vstd::utf8::encode_utf8;
use crate::crypto::MAX_KDF_INPUT_LEN;
use crate::crypto::SALT_LENGTH;
use crate::crypto::decrypt_str;
use crate::crypto::derived_key;
use crate::crypto::encrypt_str;
use crate::crypto::opened;
use crate::keychain::KeyChain;
use crate::listing::numeric_name;
use crate::listing::lemma_permutation_keeps_members;
use crate::listing::numerically_sorted;
use crate::listing::sort_numeric;
use crate::listing::str_views;
use crate::paths::log_file_name;
use crate::num::parse_numeric;
use crate::paths::spec_log_file_name;
use crate::text::chars_to_string;
use crate::text::spec_split;
use crate::text::split_on;
use crate::text::to_chars;
use crate::text::string_from_utf8;
use vstd::string::StringExecFns;
use vstd::utf8::valid_utf8;
use vstd::utf8::decode_utf8;

verus! {

/// Failure of a store operation.
#[derive(Clone, Copy, PartialEq, Eq, Structural, Debug)]
pub enum StoreError {
    /// The date is not three underscore-separated numeric components.
    InvalidDate,
    /// No entry is stored at the given address.
    NotFound,
    /// The index is beyond the end of the address's append-only index space.
    BadIndex,
    /// Key derivation, sealing or opening failed; no detail is disclosed.
    Crypto,
}

/// A date as a spec value: `(day, month, year)`, each a digit string.
pub type DateView = (Seq<char>, Seq<char>, Seq<char>);

/// True when `s` has the external date shape `day_month_year`: exactly three
/// components, each one to nineteen decimal digits.
pub open spec fn valid_date(s: Seq<char>) -> bool {
    let parts = spec_split(s, '_');
    &&& parts.len() == 3
    &&& numeric_name(parts[0])
    &&& numeric_name(parts[1])
    &&& numeric_name(parts[2])
}

/// The `(day, month, year)` components of a date string.
pub open spec fn date_view_of(s: Seq<char>) -> DateView {
    let parts = spec_split(s, '_');
    (parts[0], parts[1], parts[2])
}

/// A parsed date: day, month and year as the digit strings that name the
/// directories of the address.
#[derive(Debug)]
pub struct LogDate {
    day: String,
    month: String,
    year: String,
}

impl View for LogDate {
    type V = DateView;

    closed spec fn view(&self) -> DateView {
        (self.day@, self.month@, self.year@)
    }
}

impl LogDate {
    /// The day component.
    pub fn day(&self) -> (r: &String)
        ensures
            r@ == self@.0,
    {
        &self.day
    }

    /// The month component.
    pub fn month(&self) -> (r: &String)
        ensures
            r@ == self@.1,
    {
        &self.month
    }

    /// The year component.
    pub fn year(&self) -> (r: &String)
        ensures
            r@ == self@.2,
    {
        &self.year
    }

    /// True when both dates name the same day.
    pub fn same_date(&self, other: &LogDate) -> (b: bool)
        ensures
            b == (self@ == other@),
    {
        self.day == other.day && self.month == other.month && self.year == other.year
    }
}

/// Splits a date string of the external shape `day_month_year` into its
/// three components. Fails exactly when the string does not consist of three
/// underscore-separated runs of one to nineteen decimal digits.
pub fn parse_date(date: &str) -> (r: Result<LogDate, StoreError>)
    ensures
        match r {
            Ok(d) => valid_date(date@) && d@ == date_view_of(date@),
            Err(e) => !valid_date(date@) && e == StoreError::InvalidDate,
        },
{
    let chars = to_chars(date);
    let parts = split_on(&chars, '_');
    if parts.len() != 3 {
        return Err(StoreError::InvalidDate);
    }
    if parse_numeric(&parts[0]).is_none() || parse_numeric(&parts[1]).is_none()
        || parse_numeric(&parts[2]).is_none() {
        return Err(StoreError::InvalidDate);
    }
    let d = LogDate {
        day: chars_to_string(&parts[0]),
        month: chars_to_string(&parts[1]),
        year: chars_to_string(&parts[2]),
    };
    Ok(d)
}

/// The day directory of an address:
/// `<base>/<user>/<year>/<month>/<day>`.
pub open spec fn spec_user_logs_dir(base: Seq<char>, user: Seq<char>, date: DateView) -> Seq<
    char,
> {
    base + "/"@ + user + "/"@ + date.2 + "/"@ + date.1 + "/"@ + date.0
}

/// Builds the day directory path for `user` and the date string `date` under
/// the logs base directory. Fails exactly on a malformed date.
pub fn get_user_logs_dir(base: &str, date: &str, user: &str) -> (r: Result<String, StoreError>)
    ensures
        match r {
            Ok(p) => valid_date(date@) && p@ == spec_user_logs_dir(
                base@,
                user@,
                date_view_of(date@),
            ),
            Err(e) => !valid_date(date@) && e == StoreError::InvalidDate,
        },
{
    let d = parse_date(date)?;
    let mut p = String::new();
    p.append(base);
    p.append("/");
    p.append(user);
    p.append("/");
    p.append(d.year().as_str());
    p.append("/");
    p.append(d.month().as_str());
    p.append("/");
    p.append(d.day().as_str());
    proof {
        assert(p@ =~= spec_user_logs_dir(base@, user@, date_view_of(date@)));
    }
    Ok(p)
}

/// The ciphertext `ct` holds `message`, sealed under the key derived from
/// `password` and the salt that `keys` stores for `user`: opening `ct` under
/// that key yields exactly the UTF-8 bytes of `message`.
pub open spec fn sealed_for(
    keys: KeyChain,
    user: Seq<char>,
    password: Seq<char>,
    message: Seq<char>,
    ct: Seq<u8>,
) -> bool {
    exists|k: int|
        0 <= k < keys.ids().len() && #[trigger] keys.ids()[k] == user && opened(
            derived_key(encode_utf8(password), keys.salts()[k]),
            ct,
        ) == Some(encode_utf8(message))
}

/// True when some string in `v` has exactly the characters of `s`.
fn contains_string(v: &Vec<String>, s: &String) -> (b: bool)
    ensures
        b == str_views(v@).contains(s@),
{
    let mut i: usize = 0;
    while i < v.len()
        invariant
            0 <= i <= v@.len(),
            forall|k: int| 0 <= k < i ==> str_views(v@)[k] != s@,
        decreases v@.len() - i,
    {
        proof {
            assert(str_views(v@)[i as int] == v@[i as int]@);
        }
        if v[i] == *s {
            proof {
                assert(str_views(v@).contains(s@));
            }
            return true;
        }
        i = i + 1;
    }
    proof {
        if str_views(v@).contains(s@) {
            let w = choose|w: int| 0 <= w < str_views(v@).len() && str_views(v@)[w] == s@;
            assert(str_views(v@)[w] != s@);
        }
    }
    false
}

/// One decrypted entry, as handed to a caller browsing a day's history.
#[derive(Debug)]
pub struct Log {
    /// The entry's plain text.
    pub content: String,
}

/// All entries of one `(user, date)` address, in index order: the entry with
/// index `i` is `logs[i]`.
struct DayLog {
    user: String,
    date: LogDate,
    logs: Vec<Vec<u8>>,
}

/// The in-memory encryption-addressed log store: every `(user, date)`
/// address holds an append-only sequence of ciphertext entries.
pub struct LogStore {
    days: Vec<DayLog>,
}

impl LogStore {
    /// Number of `(user, date)` addresses holding entries.
    pub closed spec fn day_count(&self) -> int {
        self.days@.len() as int
    }

    /// The user of the address at position `i`.
    pub closed spec fn day_user(&self, i: int) -> Seq<char> {
        self.days@[i].user@
    }

    /// The date of the address at position `i`.
    pub closed spec fn day_date(&self, i: int) -> DateView {
        self.days@[i].date@
    }

    /// The ciphertext entries of the address at position `i`, in index order.
    pub closed spec fn day_entries(&self, i: int) -> Seq<Seq<u8>> {
        Seq::new(self.days@[i].logs@.len(), |j: int| self.days@[i].logs@[j]@)
    }

    /// Well-formed: no two positions hold the same address, and every date
    /// has numeric components.
    pub open spec fn wf(&self) -> bool {
        &&& forall|i: int, j: int|
            0 <= i < j < self.day_count() ==> !(#[trigger] self.day_user(i) == #[trigger] self
                .day_user(j) && self.day_date(i) == self.day_date(j))
        &&& forall|i: int|
            0 <= i < self.day_count() ==> numeric_name((#[trigger] self.day_date(i)).0)
                && numeric_name(self.day_date(i).1) && numeric_name(self.day_date(i).2)
    }

    /// True when entries are stored for `user` on `date`.
    pub open spec fn has_day(&self, user: Seq<char>, date: DateView) -> bool {
        exists|i: int|
            0 <= i < self.day_count() && #[trigger] self.day_user(i) == user && self.day_date(i)
                == date
    }

    /// The entries stored for `user` on `date`, in index order; empty when
    /// the address holds none.
    pub open spec fn entries_of(&self, user: Seq<char>, date: DateView) -> Seq<Seq<u8>> {
        if self.has_day(user, date) {
            self.day_entries(
                choose|i: int|
                    0 <= i < self.day_count() && #[trigger] self.day_user(i) == user && self
                        .day_date(i) == date,
            )
        } else {
            Seq::empty()
        }
    }

    /// In a well-formed store, the entries of the address at position `i`
    /// are exactly `entries_of` its user and date.
    pub proof fn lemma_entries_at(&self, i: int)
        requires
            self.wf(),
            0 <= i < self.day_count(),
        ensures
            self.entries_of(self.day_user(i), self.day_date(i)) == self.day_entries(i),
    {
        assert(self.has_day(self.day_user(i), self.day_date(i)));
        let j = choose|j: int|
            0 <= j < self.day_count() && #[trigger] self.day_user(j) == self.day_user(i) && self
                .day_date(j) == self.day_date(i);
        if i < j {
            assert(false);
        } else if j < i {
            assert(false);
        }
    }

    /// An empty store.
    pub fn new() -> (s: LogStore)
        ensures
            s.wf(),
            s.day_count() == 0,
            forall|u: Seq<char>, d: DateView| !s.has_day(u, d),
    {
        LogStore { days: Vec::new() }
    }

    /// The position of the address `(user, date)`, if it holds entries.
    fn find_day(&self, user: &String, date: &LogDate) -> (r: Option<usize>)
        ensures
            match r {
                Some(i) => 0 <= i < self.day_count() && self.day_user(i as int) == user@
                    && self.day_date(i as int) == date@,
                None => !self.has_day(user@, date@),
            },
    {
        let mut i: usize = 0;
        while i < self.days.len()
            invariant
                0 <= i <= self.days@.len(),
                self.day_count() == self.days@.len(),
                forall|k: int|
                    0 <= k < i ==> !(#[trigger] self.day_user(k) == user@ && self.day_date(k)
                        == date@),
            decreases self.days@.len() - i,
        {
            if self.days[i].user == *user && self.days[i].date.same_date(date) {
                return Some(i);
            }
            i = i + 1;
        }
        None
    }

    /// A store with the same addresses as a well-formed one is well-formed.
    proof fn lemma_wf_same_addrs(old_s: LogStore, new_s: LogStore)
        requires
            old_s.wf(),
            new_s.day_count() == old_s.day_count(),
            forall|j: int|
                0 <= j < old_s.day_count() ==> #[trigger] new_s.day_user(j) == old_s.day_user(j),
            forall|j: int|
                0 <= j < old_s.day_count() ==> #[trigger] new_s.day_date(j) == old_s.day_date(j),
        ensures
            new_s.wf(),
    {
        assert forall|a: int, b: int| 0 <= a < b < new_s.day_count() implies !(new_s.day_user(a)
            == new_s.day_user(b) && new_s.day_date(a) == new_s.day_date(b)) by {
            assert(new_s.day_user(a) == old_s.day_user(a));
            assert(new_s.day_date(a) == old_s.day_date(a));
            assert(new_s.day_user(b) == old_s.day_user(b));
            assert(new_s.day_date(b) == old_s.day_date(b));
        }
        assert forall|a: int| 0 <= a < new_s.day_count() implies numeric_name(
            (#[trigger] new_s.day_date(a)).0,
        ) && numeric_name(new_s.day_date(a).1) && numeric_name(new_s.day_date(a).2) by {
            assert(new_s.day_date(a) == old_s.day_date(a));
            assert(numeric_name(old_s.day_date(a).0) && numeric_name(old_s.day_date(a).1)
                && numeric_name(old_s.day_date(a).2));
        }
    }

    /// A well-formed store extended by one well-dated fresh address is
    /// well-formed.
    proof fn lemma_wf_push(old_s: LogStore, new_s: LogStore, user: Seq<char>, dv: DateView)
        requires
            old_s.wf(),
            new_s.day_count() == old_s.day_count() + 1,
            forall|j: int|
                0 <= j < old_s.day_count() ==> #[trigger] new_s.day_user(j) == old_s.day_user(j),
            forall|j: int|
                0 <= j < old_s.day_count() ==> #[trigger] new_s.day_date(j) == old_s.day_date(j),
            new_s.day_user(old_s.day_count()) == user,
            new_s.day_date(old_s.day_count()) == dv,
            !old_s.has_day(user, dv),
            numeric_name(dv.0),
            numeric_name(dv.1),
            numeric_name(dv.2),
        ensures
            new_s.wf(),
    {
        let n = old_s.day_count();
        assert forall|a: int, b: int| 0 <= a < b < new_s.day_count() implies !(new_s.day_user(a)
            == new_s.day_user(b) && new_s.day_date(a) == new_s.day_date(b)) by {
            if b < n {
                assert(new_s.day_user(a) == old_s.day_user(a));
                assert(new_s.day_date(a) == old_s.day_date(a));
                assert(new_s.day_user(b) == old_s.day_user(b));
                assert(new_s.day_date(b) == old_s.day_date(b));
            } else {
                assert(b == n);
                assert(new_s.day_user(a) == old_s.day_user(a));
                assert(new_s.day_date(a) == old_s.day_date(a));
                if old_s.day_user(a) == user && old_s.day_date(a) == dv {
                    assert(old_s.has_day(user, dv));
                }
            }
        }
        assert forall|a: int| 0 <= a < new_s.day_count() implies numeric_name(
            (#[trigger] new_s.day_date(a)).0,
        ) && numeric_name(new_s.day_date(a).1) && numeric_name(new_s.day_date(a).2) by {
            if a < n {
                assert(new_s.day_date(a) == old_s.day_date(a));
                assert(numeric_name(old_s.day_date(a).0) && numeric_name(old_s.day_date(a).1)
                    && numeric_name(old_s.day_date(a).2));
            }
        }
    }

    /// Two well-formed stores with the same addresses everywhere and the
    /// same entries everywhere but at position `i` hold the same entries at
    /// every address other than the one at `i`.
    proof fn lemma_preserved_update(old_s: LogStore, new_s: LogStore, i: int)
        requires
            old_s.wf(),
            new_s.wf(),
            0 <= i < old_s.day_count(),
            new_s.day_count() == old_s.day_count(),
            forall|j: int|
                0 <= j < old_s.day_count() ==> #[trigger] new_s.day_user(j) == old_s.day_user(j),
            forall|j: int|
                0 <= j < old_s.day_count() ==> #[trigger] new_s.day_date(j) == old_s.day_date(j),
            forall|j: int|
                0 <= j < old_s.day_count() && j != i ==> #[trigger] new_s.day_entries(j) == old_s
                    .day_entries(j),
        ensures
            forall|u: Seq<char>, d: DateView|
                !(u == old_s.day_user(i) && d == old_s.day_date(i)) ==> #[trigger] new_s
                    .entries_of(u, d) == old_s.entries_of(u, d),
    {
        assert forall|u: Seq<char>, d: DateView|
            !(u == old_s.day_user(i) && d == old_s.day_date(i)) implies #[trigger] new_s
            .entries_of(u, d) == old_s.entries_of(u, d) by {
            if old_s.has_day(u, d) {
                let j = choose|j: int|
                    0 <= j < old_s.day_count() && #[trigger] old_s.day_user(j) == u && old_s
                        .day_date(j) == d;
                assert(0 <= j < old_s.day_count());
                assert(old_s.day_user(j) == u && old_s.day_date(j) == d);
                assert(new_s.day_user(j) == old_s.day_user(j));
                assert(new_s.day_date(j) == old_s.day_date(j));
                assert(new_s.has_day(u, d));
                old_s.lemma_entries_at(j);
                new_s.lemma_entries_at(j);
                assert(j != i);
            } else {
                if new_s.has_day(u, d) {
                    let j = choose|j: int|
                        0 <= j < new_s.day_count() && #[trigger] new_s.day_user(j) == u && new_s
                            .day_date(j) == d;
                    assert(old_s.day_user(j) == new_s.day_user(j));
                    assert(old_s.day_date(j) == new_s.day_date(j));
                    assert(old_s.has_day(u, d));
                }
            }
        }
    }

    /// A well-formed store extended by one fresh address holds the same
    /// entries at every other address.
    proof fn lemma_preserved_push(old_s: LogStore, new_s: LogStore)
        requires
            old_s.wf(),
            new_s.wf(),
            new_s.day_count() == old_s.day_count() + 1,
            forall|j: int|
                0 <= j < old_s.day_count() ==> #[trigger] new_s.day_user(j) == old_s.day_user(j),
            forall|j: int|
                0 <= j < old_s.day_count() ==> #[trigger] new_s.day_date(j) == old_s.day_date(j),
            forall|j: int|
                0 <= j < old_s.day_count() ==> #[trigger] new_s.day_entries(j) == old_s
                    .day_entries(j),
        ensures
            forall|u: Seq<char>, d: DateView|
                !(u == new_s.day_user(old_s.day_count()) && d == new_s.day_date(
                    old_s.day_count(),
                )) ==> #[trigger] new_s.entries_of(u, d) == old_s.entries_of(u, d),
    {
        let n = old_s.day_count();
        assert forall|u: Seq<char>, d: DateView|
            !(u == new_s.day_user(n) && d == new_s.day_date(n)) implies #[trigger] new_s
            .entries_of(u, d) == old_s.entries_of(u, d) by {
            if old_s.has_day(u, d) {
                let j = choose|j: int|
                    0 <= j < old_s.day_count() && #[trigger] old_s.day_user(j) == u && old_s
                        .day_date(j) == d;
                assert(0 <= j < old_s.day_count());
                assert(old_s.day_user(j) == u && old_s.day_date(j) == d);
                assert(new_s.day_user(j) == old_s.day_user(j));
                assert(new_s.day_date(j) == old_s.day_date(j));
                assert(new_s.has_day(u, d));
                old_s.lemma_entries_at(j);
                new_s.lemma_entries_at(j);
            } else {
                if new_s.has_day(u, d) {
                    let j = choose|j: int|
                        0 <= j < new_s.day_count() && #[trigger] new_s.day_user(j) == u && new_s
                            .day_date(j) == d;
                    assert(j != n);
                    assert(old_s.day_user(j) == new_s.day_user(j));
                    assert(old_s.day_date(j) == new_s.day_date(j));
                    assert(old_s.has_day(u, d));
                }
            }
        }
    }

    /// Stores a new entry for `(user, date)`: seals `message` under the key
    /// derived from `password` and the user's stored salt, appends the
    /// ciphertext at the next free index of the address, and returns that
    /// index.
    ///
    /// The index equals the number of entries the address held before, so N
    /// successive inserts receive indices 0 to N-1 in creation order, and no
    /// other address changes. Fails with [`StoreError::InvalidDate`] exactly
    /// on a malformed date, and with [`StoreError::Crypto`] when the user is
    /// unknown or sealing fails (empty password, empty message, or no
    /// randomness); on any failure the store is unchanged.
    pub fn insert_log(
        &mut self,
        keys: &KeyChain,
        date: &str,
        user: &str,
        message: &str,
        password: &str,
    ) -> (r: Result<usize, StoreError>)
        requires
            old(self).wf(),
            keys.wf(),
        ensures
            final(self).wf(),
            match r {
                Ok(idx) => {
                    &&& valid_date(date@)
                    &&& keys.spec_contains(user@)
                    &&& idx == old(self).entries_of(user@, date_view_of(date@)).len()
                    &&& exists|ct: Seq<u8>|
                        final(self).entries_of(user@, date_view_of(date@)) == old(self).entries_of(
                            user@,
                            date_view_of(date@),
                        ).push(ct) && #[trigger] sealed_for(*keys, user@, password@, message@, ct)
                    &&& forall|u: Seq<char>, d: DateView|
                        #![auto]
                        !(u == user@ && d == date_view_of(date@)) ==> final(self).entries_of(u, d)
                            == old(self).entries_of(u, d)
                },
                Err(StoreError::InvalidDate) => !valid_date(date@) && *final(self) == *old(self),
                Err(StoreError::NotFound) => false,
                Err(StoreError::BadIndex) => false,
                Err(StoreError::Crypto) => *final(self) == *old(self),
            },
            !valid_date(date@) ==> r == Err::<usize, StoreError>(StoreError::InvalidDate),
            valid_date(date@) && !keys.spec_contains(user@) ==> r == Err::<usize, StoreError>(
                StoreError::Crypto,
            ),
    {
        let d = match parse_date(date) {
            Ok(d) => d,
            Err(e) => {
                return Err(e);
            },
        };
        let salt = match keys.get_key_salt(user) {
            Ok(s) => s,
            Err(_) => {
                return Err(StoreError::Crypto);
            },
        };
        proof {
            let k = choose|k: int|
                0 <= k < keys.ids().len() && keys.ids()[k] == user@ && salt@ == #[trigger] keys
                    .salts()[k] && salt@.len() == SALT_LENGTH;
            assert(keys.spec_contains(user@));
        }
        let ct = match encrypt_str(message, password.as_bytes(), salt.as_slice()) {
            Ok(c) => c,
            Err(_) => {
                return Err(StoreError::Crypto);
            },
        };
        let ghost ctv = ct@;
        let ghost dv = date_view_of(date@);
        proof {
            assert(sealed_for(*keys, user@, password@, message@, ctv));
        }
        let owned_user = user.to_owned();
        match self.find_day(&owned_user, &d) {
            Some(i) => {
                let ghost before = *self;
                let mut day = self.days.remove(i);
                let idx = day.logs.len();
                day.logs.push(ct);
                self.days.insert(i, day);
                proof {
                    assert(self.days@ =~= before.days@.update(i as int, self.days@[i as int]));
                    assert(forall|j: int|
                        0 <= j < before.day_count() ==> #[trigger] self.day_user(j) == before
                            .day_user(j));
                    assert(forall|j: int|
                        0 <= j < before.day_count() ==> #[trigger] self.day_date(j) == before
                            .day_date(j));
                    assert(forall|j: int|
                        0 <= j < before.day_count() && j != i ==> #[trigger] self.day_entries(j)
                            == before.day_entries(j));
                    LogStore::lemma_wf_same_addrs(before, *self);
                    assert(self.day_entries(i as int) =~= before.day_entries(i as int).push(ctv));
                    before.lemma_entries_at(i as int);
                    self.lemma_entries_at(i as int);
                    assert(before.entries_of(user@, dv) == before.day_entries(i as int));
                    assert(self.entries_of(user@, dv) == before.entries_of(user@, dv).push(ctv));
                    LogStore::lemma_preserved_update(before, *self, i as int);
                }
                Ok(idx)
            },
            None => {
                let ghost before = *self;
                let mut logs: Vec<Vec<u8>> = Vec::new();
                logs.push(ct);
                self.days.push(DayLog { user: owned_user, date: d, logs });
                proof {
                    let n = before.day_count();
                    assert(forall|j: int|
                        0 <= j < n ==> #[trigger] self.day_user(j) == before.day_user(j));
                    assert(forall|j: int|
                        0 <= j < n ==> #[trigger] self.day_date(j) == before.day_date(j));
                    assert(forall|j: int|
                        0 <= j < n ==> #[trigger] self.day_entries(j) == before.day_entries(j));
                    assert(self.day_user(n) == user@ && self.day_date(n) == dv);
                    assert(!before.has_day(user@, dv));
                    assert(numeric_name(dv.0) && numeric_name(dv.1) && numeric_name(dv.2));
                    LogStore::lemma_wf_push(before, *self, user@, dv);
                    assert(before.entries_of(user@, dv) == Seq::<Seq<u8>>::empty());
                    self.lemma_entries_at(n);
                    assert(self.day_entries(n) =~= Seq::<Seq<u8>>::empty().push(ctv));
                    assert(self.entries_of(user@, dv) == before.entries_of(user@, dv).push(ctv));
                    LogStore::lemma_preserved_push(before, *self);
                }
                Ok(0)
            },
        }
    }

    /// Replaces the entry at index `log_pos` of `(user, date)` with a fresh
    /// sealing of `message` (or appends it when `log_pos` is the next free
    /// index, creating the address if needed).
    ///
    /// Overwriting never changes the number of entries at other indices nor
    /// any other address. Fails with [`StoreError::InvalidDate`] exactly on
    /// a malformed date, with [`StoreError::BadIndex`] exactly when
    /// `log_pos` lies beyond the next free index, and with
    /// [`StoreError::Crypto`] when the user is unknown or sealing fails; on
    /// any failure the store is unchanged.
    pub fn overwrite_log(
        &mut self,
        keys: &KeyChain,
        date: &str,
        user: &str,
        message: &str,
        password: &str,
        log_pos: usize,
    ) -> (r: Result<(), StoreError>)
        requires
            old(self).wf(),
            keys.wf(),
        ensures
            final(self).wf(),
            match r {
                Ok(_) => {
                    &&& valid_date(date@)
                    &&& keys.spec_contains(user@)
                    &&& log_pos <= old(self).entries_of(user@, date_view_of(date@)).len()
                    &&& exists|ct: Seq<u8>|
                        {
                            let before = old(self).entries_of(user@, date_view_of(date@));
                            &&& final(self).entries_of(user@, date_view_of(date@)) == if log_pos
                                < before.len() {
                                before.update(log_pos as int, ct)
                            } else {
                                before.push(ct)
                            }
                            &&& #[trigger] sealed_for(*keys, user@, password@, message@, ct)
                        }
                    &&& forall|u: Seq<char>, d: DateView|
                        #![auto]
                        !(u == user@ && d == date_view_of(date@)) ==> final(self).entries_of(u, d)
                            == old(self).entries_of(u, d)
                },
                Err(StoreError::InvalidDate) => !valid_date(date@) && *final(self) == *old(self),
                Err(StoreError::BadIndex) => valid_date(date@) && log_pos > old(self).entries_of(
                    user@,
                    date_view_of(date@),
                ).len() && *final(self) == *old(self),
                Err(StoreError::NotFound) => false,
                Err(StoreError::Crypto) => *final(self) == *old(self),
            },
            !valid_date(date@) ==> r == Err::<(), StoreError>(StoreError::InvalidDate),
            valid_date(date@) && !keys.spec_contains(user@) ==> r == Err::<(), StoreError>(
                StoreError::Crypto,
            ),
    {
        let d = match parse_date(date) {
            Ok(d) => d,
            Err(e) => {
                return Err(e);
            },
        };
        let salt = match keys.get_key_salt(user) {
            Ok(s) => s,
            Err(_) => {
                return Err(StoreError::Crypto);
            },
        };
        proof {
            let k = choose|k: int|
                0 <= k < keys.ids().len() && keys.ids()[k] == user@ && salt@ == #[trigger] keys
                    .salts()[k] && salt@.len() == SALT_LENGTH;
            assert(keys.spec_contains(user@));
        }
        let ct = match encrypt_str(message, password.as_bytes(), salt.as_slice()) {
            Ok(c) => c,
            Err(_) => {
                return Err(StoreError::Crypto);
            },
        };
        let ghost ctv = ct@;
        let ghost dv = date_view_of(date@);
        proof {
            assert(sealed_for(*keys, user@, password@, message@, ctv));
        }
        let owned_user = user.to_owned();
        match self.find_day(&owned_user, &d) {
            Some(i) => {
                proof {
                    old(self).lemma_entries_at(i as int);
                }
                let n = self.days[i].logs.len();
                if log_pos > n {
                    return Err(StoreError::BadIndex);
                }
                let ghost before = *self;
                let mut day = self.days.remove(i);
                if log_pos < n {
                    let _ = day.logs.remove(log_pos);
                    day.logs.insert(log_pos, ct);
                } else {
                    day.logs.push(ct);
                }
                self.days.insert(i, day);
                proof {
                    assert(self.days@ =~= before.days@.update(i as int, self.days@[i as int]));
                    assert(forall|j: int|
                        0 <= j < before.day_count() ==> #[trigger] self.day_user(j) == before
                            .day_user(j));
                    assert(forall|j: int|
                        0 <= j < before.day_count() ==> #[trigger] self.day_date(j) == before
                            .day_date(j));
                    assert(forall|j: int|
                        0 <= j < before.day_count() && j != i ==> #[trigger] self.day_entries(j)
                            == before.day_entries(j));
                    LogStore::lemma_wf_same_addrs(before, *self);
                    if log_pos < n {
                        assert(self.day_entries(i as int) =~= before.day_entries(i as int).update(
                            log_pos as int,
                            ctv,
                        ));
                    } else {
                        assert(self.day_entries(i as int) =~= before.day_entries(i as int).push(
                            ctv,
                        ));
                    }
                    before.lemma_entries_at(i as int);
                    self.lemma_entries_at(i as int);
                    LogStore::lemma_preserved_update(before, *self, i as int);
                }
                Ok(())
            },
            None => {
                if log_pos > 0 {
                    return Err(StoreError::BadIndex);
                }
                let ghost before = *self;
                let mut logs: Vec<Vec<u8>> = Vec::new();
                logs.push(ct);
                self.days.push(DayLog { user: owned_user, date: d, logs });
                proof {
                    let n = before.day_count();
                    assert(forall|j: int|
                        0 <= j < n ==> #[trigger] self.day_user(j) == before.day_user(j));
                    assert(forall|j: int|
                        0 <= j < n ==> #[trigger] self.day_date(j) == before.day_date(j));
                    assert(forall|j: int|
                        0 <= j < n ==> #[trigger] self.day_entries(j) == before.day_entries(j));
                    assert(self.day_user(n) == user@ && self.day_date(n) == dv);
                    assert(!before.has_day(user@, dv));
                    assert(numeric_name(dv.0) && numeric_name(dv.1) && numeric_name(dv.2));
                    LogStore::lemma_wf_push(before, *self, user@, dv);
                    assert(before.entries_of(user@, dv) == Seq::<Seq<u8>>::empty());
                    self.lemma_entries_at(n);
                    assert(self.day_entries(n) =~= Seq::<Seq<u8>>::empty().push(ctv));
                    assert(self.entries_of(user@, dv) == before.entries_of(user@, dv).push(ctv));
                    LogStore::lemma_preserved_push(before, *self);
                }
                Ok(())
            },
        }
    }

    /// Reads and opens the entry at index `pos` of `(user, date)`, returning
    /// its plaintext bytes.
    ///
    /// Fails with [`StoreError::InvalidDate`] exactly on a malformed date,
    /// with [`StoreError::NotFound`] exactly when the address holds no entry
    /// at `pos`, and with [`StoreError::Crypto`] when the user is unknown or
    /// the entry does not open under the key derived from `password` and the
    /// user's salt.
    pub fn get_date_log(
        &self,
        keys: &KeyChain,
        date: &str,
        user: &str,
        password: &str,
        pos: usize,
    ) -> (r: Result<Vec<u8>, StoreError>)
        requires
            self.wf(),
            keys.wf(),
        ensures
            match r {
                Ok(pt) => {
                    &&& valid_date(date@)
                    &&& pos < self.entries_of(user@, date_view_of(date@)).len()
                    &&& exists|k: int|
                        0 <= k < keys.ids().len() && #[trigger] keys.ids()[k] == user@ && opened(
                            derived_key(encode_utf8(password@), keys.salts()[k]),
                            self.entries_of(user@, date_view_of(date@))[pos as int],
                        ) == Some(pt@)
                },
                Err(StoreError::InvalidDate) => !valid_date(date@),
                Err(StoreError::NotFound) => valid_date(date@) && pos >= self.entries_of(
                    user@,
                    date_view_of(date@),
                ).len(),
                Err(StoreError::Crypto) => {
                    &&& valid_date(date@)
                    &&& pos < self.entries_of(user@, date_view_of(date@)).len()
                    &&& (!keys.spec_contains(user@) || encode_utf8(password@).len()
                        > MAX_KDF_INPUT_LEN || exists|k: int|
                        0 <= k < keys.ids().len() && #[trigger] keys.ids()[k] == user@ && (
                        password@.len() == 0 || opened(
                            derived_key(encode_utf8(password@), keys.salts()[k]),
                            self.entries_of(user@, date_view_of(date@))[pos as int],
                        ) is None))
                },
                Err(StoreError::BadIndex) => false,
            },
    {
        let d = match parse_date(date) {
            Ok(d) => d,
            Err(e) => {
                return Err(e);
            },
        };
        let ghost dv = date_view_of(date@);
        let owned_user = user.to_owned();
        let i = match self.find_day(&owned_user, &d) {
            Some(i) => i,
            None => {
                proof {
                    assert(self.entries_of(user@, dv).len() == 0);
                }
                return Err(StoreError::NotFound);
            },
        };
        proof {
            self.lemma_entries_at(i as int);
        }
        if pos >= self.days[i].logs.len() {
            return Err(StoreError::NotFound);
        }
        let salt = match keys.get_key_salt(user) {
            Ok(s) => s,
            Err(_) => {
                return Err(StoreError::Crypto);
            },
        };
        match decrypt_str(self.days[i].logs[pos].as_slice(), password.as_bytes(), salt.as_slice()) {
            Ok(pt) => Ok(pt),
            Err(_) => Err(StoreError::Crypto),
        }
    }

    /// The file names of all entries of `(user, day, month, year)`, in index
    /// order: `log_0.dat`, `log_1.dat`, and so on. Fails exactly when the
    /// address holds no entries.
    pub fn get_day_logs(&self, id: &str, year: &str, month: &str, day: &str) -> (r: Result<
        Vec<String>,
        StoreError,
    >)
        requires
            self.wf(),
        ensures
            match r {
                Ok(v) => {
                    &&& self.has_day(id@, (day@, month@, year@))
                    &&& v@.len() == self.entries_of(id@, (day@, month@, year@)).len()
                    &&& forall|j: int|
                        0 <= j < v@.len() ==> (#[trigger] v@[j])@ == spec_log_file_name(j as nat)
                },
                Err(e) => !self.has_day(id@, (day@, month@, year@)) && e == StoreError::NotFound,
            },
    {
        let d = LogDate { day: day.to_owned(), month: month.to_owned(), year: year.to_owned() };
        let owned = id.to_owned();
        let i = match self.find_day(&owned, &d) {
            Some(i) => i,
            None => {
                return Err(StoreError::NotFound);
            },
        };
        proof {
            self.lemma_entries_at(i as int);
        }
        let n = self.days[i].logs.len();
        let mut v: Vec<String> = Vec::new();
        let mut j: usize = 0;
        while j < n
            invariant
                0 <= j <= n,
                v@.len() == j,
                forall|k: int| 0 <= k < j ==> (#[trigger] v@[k])@ == spec_log_file_name(k as nat),
            decreases n - j,
        {
            v.push(log_file_name(j));
            j = j + 1;
        }
        Ok(v)
    }

    /// True when `id` has an entry in year `y`.
    pub open spec fn has_year(&self, user: Seq<char>, y: Seq<char>) -> bool {
        exists|i: int|
            0 <= i < self.day_count() && #[trigger] self.day_user(i) == user && self.day_date(
                i,
            ).2 == y
    }

    /// The years in which `id` has entries, each once, ordered by integer
    /// value. Fails exactly when `id` has no entries at all.
    pub fn get_years(&self, id: &str) -> (r: Result<Vec<String>, StoreError>)
        requires
            self.wf(),
        ensures
            match r {
                Ok(ys) => {
                    &&& ys@.len() > 0
                    &&& forall|a: int|
                        0 <= a < ys@.len() ==> self.has_year(id@, #[trigger] str_views(ys@)[a])
                    &&& forall|i: int|
                        0 <= i < self.day_count() && #[trigger] self.day_user(i) == id@
                            ==> str_views(ys@).contains(self.day_date(i).2)
                    &&& str_views(ys@).no_duplicates()
                    &&& numerically_sorted(str_views(ys@))
                },
                Err(e) => {
                    &&& e == StoreError::NotFound
                    &&& !exists|i: int|
                        0 <= i < self.day_count() && #[trigger] self.day_user(i) == id@
                },
            },
    {
        broadcast use vstd::seq_lib::group_to_multiset_ensures;
        broadcast use vstd::multiset::group_multiset_axioms;

        let owned = id.to_owned();
        let mut years: Vec<String> = Vec::new();
        let mut i: usize = 0;
        proof {
            assert(str_views(years@) =~= Seq::<Seq<char>>::empty());
        }
        while i < self.days.len()
            invariant
                0 <= i <= self.days@.len(),
                self.day_count() == self.days@.len(),
                self.wf(),
                owned@ == id@,
                forall|a: int|
                    0 <= a < years@.len() ==> self.has_year(id@, #[trigger] str_views(years@)[a]),
                forall|d: int|
                    0 <= d < i && #[trigger] self.day_user(d) == id@ ==> str_views(
                        years@,
                    ).contains(self.day_date(d).2),
                str_views(years@).no_duplicates(),
            decreases self.days@.len() - i,
        {
            proof {
                assert(self.day_user(i as int) == self.days@[i as int].user@);
                assert(self.day_date(i as int) == self.days@[i as int].date@);
            }
            let eq = self.days[i].user == owned;
            if eq {
                let ghost before = str_views(years@);
                let present = contains_string(&years, &self.days[i].date.year);
                if !present {
                    years.push(self.days[i].date.year.clone());
                    proof {
                        assert(str_views(years@) =~= before.push(self.day_date(i as int).2));
                        assert(forall|a: int|
                            0 <= a < before.len() ==> #[trigger] str_views(years@)[a]
                                == before[a]);
                        assert(str_views(years@).last() == self.day_date(i as int).2);
                        assert(self.has_year(id@, self.day_date(i as int).2));
                        assert(forall|z: Seq<char>|
                            before.contains(z) ==> #[trigger] str_views(years@).contains(z)) by {
                            assert forall|z: Seq<char>|
                                before.contains(z) implies #[trigger] str_views(
                                years@,
                            ).contains(z) by {
                                let w = choose|w: int|
                                    0 <= w < before.len() && before[w] == z;
                                assert(str_views(years@)[w] == z);
                            }
                        }
                        assert(str_views(years@).contains(self.day_date(i as int).2)) by {
                            assert(str_views(years@).last() == self.day_date(i as int).2);
                        }
                    }
                }
            }
            i = i + 1;
        }
        if years.len() == 0 {
            proof {
                assert forall|d: int|
                    0 <= d < self.day_count() implies #[trigger] self.day_user(d) != id@ by {
                    if self.day_user(d) == id@ {
                        assert(str_views(years@).contains(self.day_date(d).2));
                    }
                }
            }
            return Err(StoreError::NotFound);
        }
        let ghost collected = str_views(years@);
        proof {
            assert forall|a: int| 0 <= a < collected.len() implies numeric_name(
                #[trigger] collected[a],
            ) by {
                assert(self.has_year(id@, collected[a]));
                let d = choose|d: int|
                    0 <= d < self.day_count() && #[trigger] self.day_user(d) == id@ && self
                        .day_date(d).2 == collected[a];
            }
        }
        match sort_numeric(years) {
            Ok(ys) => {
                proof {
                    assert(str_views(ys@).to_multiset() == collected.to_multiset());
                    lemma_permutation_keeps_members(collected, str_views(ys@));
                    assert(ys@.len() == collected.len());
                    assert(collected.len() > 0);
                    assert forall|a: int| 0 <= a < ys@.len() implies self.has_year(
                        id@,
                        #[trigger] str_views(ys@)[a],
                    ) by {
                        assert(str_views(ys@).contains(str_views(ys@)[a]));
                        assert(collected.contains(str_views(ys@)[a]));
                        let b = choose|b: int|
                            0 <= b < collected.len() && collected[b] == str_views(ys@)[a];
                        assert(self.has_year(id@, collected[b]));
                    }
                }
                Ok(ys)
            },
            Err(_) => {
                proof {
                    let bad = choose|b: int|
                        0 <= b < collected.len() && !numeric_name(#[trigger] collected[b]);
                    assert(false);
                }
                Err(StoreError::NotFound)
            },
        }
    }

    /// True when `id` has an entry in month `m` of year `y`.
    pub open spec fn has_month(&self, user: Seq<char>, y: Seq<char>, m: Seq<char>) -> bool {
        exists|i: int|
            0 <= i < self.day_count() && #[trigger] self.day_user(i) == user && self.day_date(
                i,
            ).2 == y && self.day_date(i).1 == m
    }

    /// The months of `year` in which `id` has entries, each once, ordered by
    /// integer value. Fails exactly when `id` has no entries in `year`.
    pub fn get_months(&self, id: &str, year: &str) -> (r: Result<Vec<String>, StoreError>)
        requires
            self.wf(),
        ensures
            match r {
                Ok(ms) => {
                    &&& ms@.len() > 0
                    &&& forall|a: int|
                        0 <= a < ms@.len() ==> self.has_month(
                            id@,
                            year@,
                            #[trigger] str_views(ms@)[a],
                        )
                    &&& forall|i: int|
                        0 <= i < self.day_count() && #[trigger] self.day_user(i) == id@ && self
                            .day_date(i).2 == year@ ==> str_views(ms@).contains(
                            self.day_date(i).1,
                        )
                    &&& str_views(ms@).no_duplicates()
                    &&& numerically_sorted(str_views(ms@))
                },
                Err(e) => {
                    &&& e == StoreError::NotFound
                    &&& !exists|i: int|
                        0 <= i < self.day_count() && #[trigger] self.day_user(i) == id@ && self
                            .day_date(i).2 == year@
                },
            },
    {
        broadcast use vstd::seq_lib::group_to_multiset_ensures;
        broadcast use vstd::multiset::group_multiset_axioms;

        let owned = id.to_owned();
        let owned_year = year.to_owned();
        let mut months: Vec<String> = Vec::new();
        let mut i: usize = 0;
        proof {
            assert(str_views(months@) =~= Seq::<Seq<char>>::empty());
        }
        while i < self.days.len()
            invariant
                0 <= i <= self.days@.len(),
                self.day_count() == self.days@.len(),
                self.wf(),
                owned@ == id@,
                owned_year@ == year@,
                forall|a: int|
                    0 <= a < months@.len() ==> self.has_month(
                        id@,
                        year@,
                        #[trigger] str_views(months@)[a],
                    ),
                forall|d: int|
                    0 <= d < i && #[trigger] self.day_user(d) == id@ && self.day_date(d).2
                        == year@ ==> str_views(months@).contains(self.day_date(d).1),
                str_views(months@).no_duplicates(),
            decreases self.days@.len() - i,
        {
            proof {
                assert(self.day_user(i as int) == self.days@[i as int].user@);
                assert(self.day_date(i as int) == self.days@[i as int].date@);
            }
            let eq = self.days[i].user == owned && self.days[i].date.year == owned_year;
            if eq {
                let ghost before = str_views(months@);
                let present = contains_string(&months, &self.days[i].date.month);
                if !present {
                    months.push(self.days[i].date.month.clone());
                    proof {
                        assert(str_views(months@) =~= before.push(self.day_date(i as int).1));
                        assert(forall|a: int|
                            0 <= a < before.len() ==> #[trigger] str_views(months@)[a]
                                == before[a]);
                        assert(str_views(months@).last() == self.day_date(i as int).1);
                        assert(self.has_month(id@, year@, self.day_date(i as int).1));
                        assert(forall|z: Seq<char>|
                            before.contains(z) ==> #[trigger] str_views(months@).contains(z)) by {
                            assert forall|z: Seq<char>|
                                before.contains(z) implies #[trigger] str_views(
                                months@,
                            ).contains(z) by {
                                let w = choose|w: int|
                                    0 <= w < before.len() && before[w] == z;
                                assert(str_views(months@)[w] == z);
                            }
                        }
                        assert(str_views(months@).contains(self.day_date(i as int).1)) by {
                            assert(str_views(months@).last() == self.day_date(i as int).1);
                        }
                    }
                }
            }
            i = i + 1;
        }
        if months.len() == 0 {
            proof {
                assert forall|d: int|
                    0 <= d < self.day_count() implies !(#[trigger] self.day_user(d) == id@
                    && self.day_date(d).2 == year@) by {
                    if self.day_user(d) == id@ && self.day_date(d).2 == year@ {
                        assert(str_views(months@).contains(self.day_date(d).1));
                    }
                }
            }
            return Err(StoreError::NotFound);
        }
        let ghost collected = str_views(months@);
        proof {
            assert forall|a: int| 0 <= a < collected.len() implies numeric_name(
                #[trigger] collected[a],
            ) by {
                assert(self.has_month(id@, year@, collected[a]));
                let d = choose|d: int|
                    0 <= d < self.day_count() && #[trigger] self.day_user(d) == id@ && self
                        .day_date(d).2 == year@ && self.day_date(d).1 == collected[a];
            }
        }
        match sort_numeric(months) {
            Ok(ms) => {
                proof {
                    assert(str_views(ms@).to_multiset() == collected.to_multiset());
                    lemma_permutation_keeps_members(collected, str_views(ms@));
                    assert(ms@.len() == collected.len());
                    assert(collected.len() > 0);
                    assert forall|a: int| 0 <= a < ms@.len() implies self.has_month(
                        id@,
                        year@,
                        #[trigger] str_views(ms@)[a],
                    ) by {
                        assert(str_views(ms@).contains(str_views(ms@)[a]));
                        assert(collected.contains(str_views(ms@)[a]));
                        let b = choose|b: int|
                            0 <= b < collected.len() && collected[b] == str_views(ms@)[a];
                        assert(self.has_month(id@, year@, collected[b]));
                    }
                }
                Ok(ms)
            },
            Err(_) => {
                proof {
                    let bad = choose|b: int|
                        0 <= b < collected.len() && !numeric_name(#[trigger] collected[b]);
                    assert(false);
                }
                Err(StoreError::NotFound)
            },
        }
    }

    /// The days of `month` in `year` on which `id` has entries, each once,
    /// ordered by integer value. Fails exactly when `id` has no entries in
    /// that month.
    pub fn get_days(&self, id: &str, year: &str, month: &str) -> (r: Result<
        Vec<String>,
        StoreError,
    >)
        requires
            self.wf(),
        ensures
            match r {
                Ok(ds) => {
                    &&& ds@.len() > 0
                    &&& forall|a: int|
                        0 <= a < ds@.len() ==> self.has_day(
                            id@,
                            (#[trigger] str_views(ds@)[a], month@, year@),
                        )
                    &&& forall|i: int|
                        0 <= i < self.day_count() && #[trigger] self.day_user(i) == id@ && self
                            .day_date(i).2 == year@ && self.day_date(i).1 == month@
                            ==> str_views(ds@).contains(self.day_date(i).0)
                    &&& str_views(ds@).no_duplicates()
                    &&& numerically_sorted(str_views(ds@))
                },
                Err(e) => {
                    &&& e == StoreError::NotFound
                    &&& !exists|i: int|
                        0 <= i < self.day_count() && #[trigger] self.day_user(i) == id@ && self
                            .day_date(i).2 == year@ && self.day_date(i).1 == month@
                },
            },
    {
        broadcast use vstd::seq_lib::group_to_multiset_ensures;
        broadcast use vstd::multiset::group_multiset_axioms;

        let owned = id.to_owned();
        let owned_year = year.to_owned();
        let owned_month = month.to_owned();
        let mut days: Vec<String> = Vec::new();
        let mut i: usize = 0;
        proof {
            assert(str_views(days@) =~= Seq::<Seq<char>>::empty());
        }
        while i < self.days.len()
            invariant
                0 <= i <= self.days@.len(),
                self.day_count() == self.days@.len(),
                self.wf(),
                owned@ == id@,
                owned_year@ == year@,
                owned_month@ == month@,
                forall|a: int|
                    0 <= a < days@.len() ==> self.has_day(
                        id@,
                        (#[trigger] str_views(days@)[a], month@, year@),
                    ),
                forall|d: int|
                    0 <= d < i && #[trigger] self.day_user(d) == id@ && self.day_date(d).2
                        == year@ && self.day_date(d).1 == month@ ==> str_views(
                        days@,
                    ).contains(self.day_date(d).0),
                str_views(days@).no_duplicates(),
            decreases self.days@.len() - i,
        {
            proof {
                assert(self.day_user(i as int) == self.days@[i as int].user@);
                assert(self.day_date(i as int) == self.days@[i as int].date@);
            }
            let eq = self.days[i].user == owned && self.days[i].date.year == owned_year
                && self.days[i].date.month == owned_month;
            if eq {
                let ghost before = str_views(days@);
                let present = contains_string(&days, &self.days[i].date.day);
                if !present {
                    days.push(self.days[i].date.day.clone());
                    proof {
                        assert(str_views(days@) =~= before.push(self.day_date(i as int).0));
                        assert(forall|a: int|
                            0 <= a < before.len() ==> #[trigger] str_views(days@)[a]
                                == before[a]);
                        assert(str_views(days@).last() == self.day_date(i as int).0);
                        assert(self.day_date(i as int) == (
                            self.day_date(i as int).0,
                            month@,
                            year@,
                        ));
                        assert(self.has_day(id@, (self.day_date(i as int).0, month@, year@)));
                        assert(forall|z: Seq<char>|
                            before.contains(z) ==> #[trigger] str_views(days@).contains(z)) by {
                            assert forall|z: Seq<char>|
                                before.contains(z) implies #[trigger] str_views(
                                days@,
                            ).contains(z) by {
                                let w = choose|w: int|
                                    0 <= w < before.len() && before[w] == z;
                                assert(str_views(days@)[w] == z);
                            }
                        }
                        assert(str_views(days@).contains(self.day_date(i as int).0)) by {
                            assert(str_views(days@).last() == self.day_date(i as int).0);
                        }
                    }
                }
            }
            i = i + 1;
        }
        if days.len() == 0 {
            proof {
                assert forall|d: int|
                    0 <= d < self.day_count() implies !(#[trigger] self.day_user(d) == id@
                    && self.day_date(d).2 == year@ && self.day_date(d).1 == month@) by {
                    if self.day_user(d) == id@ && self.day_date(d).2 == year@ && self.day_date(
                        d,
                    ).1 == month@ {
                        assert(str_views(days@).contains(self.day_date(d).0));
                    }
                }
            }
            return Err(StoreError::NotFound);
        }
        let ghost collected = str_views(days@);
        proof {
            assert forall|a: int| 0 <= a < collected.len() implies numeric_name(
                #[trigger] collected[a],
            ) by {
                assert(self.has_day(id@, (collected[a], month@, year@)));
                let d = choose|d: int|
                    0 <= d < self.day_count() && #[trigger] self.day_user(d) == id@ && self
                        .day_date(d) == (collected[a], month@, year@);
            }
        }
        match sort_numeric(days) {
            Ok(ds) => {
                proof {
                    assert(str_views(ds@).to_multiset() == collected.to_multiset());
                    lemma_permutation_keeps_members(collected, str_views(ds@));
                    assert(ds@.len() == collected.len());
                    assert(collected.len() > 0);
                    assert forall|a: int| 0 <= a < ds@.len() implies self.has_day(
                        id@,
                        (#[trigger] str_views(ds@)[a], month@, year@),
                    ) by {
                        assert(str_views(ds@).contains(str_views(ds@)[a]));
                        assert(collected.contains(str_views(ds@)[a]));
                        let b = choose|b: int|
                            0 <= b < collected.len() && collected[b] == str_views(ds@)[a];
                        assert(self.has_day(id@, (collected[b], month@, year@)));
                    }
                }
                Ok(ds)
            },
            Err(_) => {
                proof {
                    let bad = choose|b: int|
                        0 <= b < collected.len() && !numeric_name(#[trigger] collected[b]);
                    assert(false);
                }
                Err(StoreError::NotFound)
            },
        }
    }

    /// Reads and opens every entry of `(user, date)`, in index order, and
    /// returns their texts.
    ///
    /// Fails with [`StoreError::InvalidDate`] exactly on a malformed date,
    /// with [`StoreError::NotFound`] exactly when the address holds no
    /// entries, and with [`StoreError::Crypto`] when the user is unknown or
    /// any entry does not open to valid text under the key derived from
    /// `password` and the user's salt — no partial history is handed out.
    pub fn get_date_history_logs(
        &self,
        keys: &KeyChain,
        date: &str,
        user: &str,
        password: &str,
    ) -> (r: Result<Vec<Log>, StoreError>)
        requires
            self.wf(),
            keys.wf(),
        ensures
            match r {
                Ok(v) => {
                    &&& valid_date(date@)
                    &&& self.has_day(user@, date_view_of(date@))
                    &&& v@.len() == self.entries_of(user@, date_view_of(date@)).len()
                    &&& exists|k: int|
                        0 <= k < keys.ids().len() && #[trigger] keys.ids()[k] == user@ && forall|
                            j: int,
                        |
                            0 <= j < v@.len() ==> ((#[trigger] opened(
                                derived_key(encode_utf8(password@), keys.salts()[k]),
                                self.entries_of(user@, date_view_of(date@))[j],
                            )) matches Some(b) && valid_utf8(b) && v@[j].content@ == decode_utf8(
                                b,
                            ))
                },
                Err(StoreError::InvalidDate) => !valid_date(date@),
                Err(StoreError::NotFound) => valid_date(date@) && !self.has_day(
                    user@,
                    date_view_of(date@),
                ),
                Err(StoreError::Crypto) => {
                    &&& valid_date(date@)
                    &&& self.has_day(user@, date_view_of(date@))
                    &&& (!keys.spec_contains(user@) || encode_utf8(password@).len()
                        > MAX_KDF_INPUT_LEN || exists|k: int|
                        0 <= k < keys.ids().len() && #[trigger] keys.ids()[k] == user@ && (
                        password@.len() == 0 || exists|j: int|
                            0 <= j < self.entries_of(user@, date_view_of(date@)).len() && !((
                            #[trigger] opened(
                                derived_key(encode_utf8(password@), keys.salts()[k]),
                                self.entries_of(user@, date_view_of(date@))[j],
                            )) matches Some(b) && valid_utf8(b))))
                },
                Err(StoreError::BadIndex) => false,
            },
    {
        let d = match parse_date(date) {
            Ok(d) => d,
            Err(e) => {
                return Err(e);
            },
        };
        let ghost dv = date_view_of(date@);
        let owned_user = user.to_owned();
        let i = match self.find_day(&owned_user, &d) {
            Some(i) => i,
            None => {
                return Err(StoreError::NotFound);
            },
        };
        proof {
            assert(self.has_day(user@, dv));
            self.lemma_entries_at(i as int);
        }
        let salt = match keys.get_key_salt(user) {
            Ok(s) => s,
            Err(_) => {
                return Err(StoreError::Crypto);
            },
        };
        let ghost k = choose|k: int|
            0 <= k < keys.ids().len() && keys.ids()[k] == user@ && salt@ == #[trigger] keys
                .salts()[k] && salt@.len() == SALT_LENGTH;
        let n = self.days[i].logs.len();
        let mut contents: Vec<Log> = Vec::new();
        let mut e: usize = 0;
        while e < n
            invariant
                0 <= e <= n,
                self.wf(),
                keys.wf(),
                valid_date(date@),
                dv == date_view_of(date@),
                self.has_day(user@, dv),
                0 <= i < self.day_count(),
                self.day_user(i as int) == user@,
                self.day_date(i as int) == dv,
                n == self.day_entries(i as int).len(),
                n == self.days@[i as int].logs@.len(),
                self.entries_of(user@, dv) == self.day_entries(i as int),
                0 <= k < keys.ids().len(),
                keys.ids()[k] == user@,
                salt@ == keys.salts()[k],
                contents@.len() == e,
                forall|j: int|
                    0 <= j < e ==> ((#[trigger] opened(
                        derived_key(encode_utf8(password@), keys.salts()[k]),
                        self.entries_of(user@, dv)[j],
                    )) matches Some(b) && valid_utf8(b) && contents@[j].content@ == decode_utf8(
                        b,
                    )),
            decreases n - e,
        {
            proof {
                assert(self.day_entries(i as int)[e as int] == self.days@[i as int].logs@[
                    e as int
                ]@);
            }
            let pt = match decrypt_str(
                self.days[i].logs[e].as_slice(),
                password.as_bytes(),
                salt.as_slice(),
            ) {
                Ok(pt) => pt,
                Err(_) => {
                    return Err(StoreError::Crypto);
                },
            };
            let content = match string_from_utf8(pt) {
                Some(c) => c,
                None => {
                    return Err(StoreError::Crypto);
                },
            };
            contents.push(Log { content });
            e = e + 1;
        }
        Ok(contents)
    }

    /// True when `id` has any stored entry at all.
    pub fn has_logs(&self, id: &str) -> (b: bool)
        ensures
            b == exists|i: int| 0 <= i < self.day_count() && #[trigger] self.day_user(i) == id@,
    {
        let owned = id.to_owned();
        let mut i: usize = 0;
        while i < self.days.len()
            invariant
                0 <= i <= self.days@.len(),
                self.day_count() == self.days@.len(),
                owned@ == id@,
                forall|k: int| 0 <= k < i ==> #[trigger] self.day_user(k) != id@,
            decreases self.days@.len() - i,
        {
            proof {
                assert(self.day_user(i as int) == self.days@[i as int].user@);
            }
            let eq = self.days[i].user == owned;
            if eq {
                proof {
                    assert(self.days@[i as int].user@ == owned@);
                    assert(owned@ == id@);
                    assert(self.day_user(i as int) == id@);
                }
                return true;
            }
            proof {
                assert(self.days@[i as int].user@ != owned@);
                assert(self.day_user(i as int) != id@);
            }
            i = i + 1;
        }
        false
    }
}

} // verus!
