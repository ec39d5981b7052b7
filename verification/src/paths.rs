//! The on-disk addressing scheme.
//!
//! Paths are composed from two base directories handed in explicitly at
//! construction time (no hidden process-wide state): entry ciphertext lives
//! at `<logs_base>/<user>/<year>/<month>/<day>/log_<index>.dat`, a user's
//! salt at `<keys_base>/<user>/<user>.txt` and its password hash at
//! `<keys_base>/<user>/pass.txt`.

use vstd::prelude::*;
use vstd::string::StringExecFns;
use vstd::string::StrSliceExecFns;
use crate::num::dec_digits;
use crate::num::format_numeric;
use crate::text::chars_to_string;

verus! {

/// The concatenation of all parts, in order.
pub open spec fn concat_all(parts: Seq<Seq<char>>) -> Seq<char>
    decreases parts.len(),
{
    if parts.len() == 0 {
        Seq::empty()
    } else {
        concat_all(parts.drop_last()) + parts.last()
    }
}

/// Joins path fragments into one path string.
pub fn generate_path(path: &[&str]) -> (r: String)
    ensures
        r@ == concat_all(path@.map_values(|p: &str| p@)),
{
    let ghost parts = path@.map_values(|p: &str| p@);
    let mut complete_path = String::new();
    let mut i: usize = 0;
    proof {
        assert(parts.take(0) =~= Seq::<Seq<char>>::empty());
    }
    while i < path.len()
        invariant
            0 <= i <= path@.len(),
            parts == path@.map_values(|p: &str| p@),
            parts.len() == path@.len(),
            complete_path@ =~= concat_all(parts.take(i as int)),
        decreases path@.len() - i,
    {
        complete_path.append(path[i]);
        proof {
            assert(parts.take(i + 1).drop_last() =~= parts.take(i as int));
            assert(parts.take(i + 1).last() == parts[i as int]);
        }
        i = i + 1;
    }
    proof {
        assert(parts.take(parts.len() as int) =~= parts);
    }
    complete_path
}

/// The file name of the log at `index` within its day directory.
pub open spec fn spec_log_file_name(index: nat) -> Seq<char> {
    "log_"@ + dec_digits(index) + ".dat"@
}

/// The full path of the log at `index` under the day directory `logs_dir`.
pub open spec fn spec_log_path(logs_dir: Seq<char>, index: nat) -> Seq<char> {
    logs_dir + "/"@ + spec_log_file_name(index)
}

/// The file name of the ciphertext file with number `n`: `log_<n>.dat`.
pub fn log_file_name(n: usize) -> (r: String)
    ensures
        r@ == spec_log_file_name(n as nat),
{
    let digits = format_numeric(n);
    let ds = chars_to_string(&digits);
    let mut r = String::new();
    r.append("log_");
    r.append(ds.as_str());
    r.append(".dat");
    proof {
        assert(r@ =~= spec_log_file_name(n as nat));
    }
    r
}

/// The path of the ciphertext file with number `n` in the directory
/// `logs_dir`: `<logs_dir>/log_<n>.dat`.
pub fn generate_log_path(logs_dir: &str, n: usize) -> (r: String)
    ensures
        r@ == spec_log_path(logs_dir@, n as nat),
{
    let digits = format_numeric(n);
    let ds = chars_to_string(&digits);
    let mut r = String::new();
    r.append(logs_dir);
    r.append("/");
    r.append("log_");
    r.append(ds.as_str());
    r.append(".dat");
    proof {
        assert(r@ =~= spec_log_path(logs_dir@, n as nat));
    }
    r
}

/// The path of the salt file of `id`: `<keys_dir>/<id>/<id>.txt`.
pub open spec fn spec_salt_path(keys_dir: Seq<char>, id: Seq<char>) -> Seq<char> {
    keys_dir + "/"@ + id + "/"@ + id + ".txt"@
}

/// Builds the salt path of `id` under the keys base directory.
pub fn generate_salt_path(keys_dir: &str, id: &str) -> (r: String)
    ensures
        r@ == spec_salt_path(keys_dir@, id@),
{
    let mut r = String::new();
    r.append(keys_dir);
    r.append("/");
    r.append(id);
    r.append("/");
    r.append(id);
    r.append(".txt");
    proof {
        assert(r@ =~= spec_salt_path(keys_dir@, id@));
    }
    r
}

/// The path of the password hash file of `id`: `<keys_dir>/<id>/pass.txt`.
pub open spec fn spec_pass_path(keys_dir: Seq<char>, id: Seq<char>) -> Seq<char> {
    keys_dir + "/"@ + id + "/"@ + "pass.txt"@
}

/// Builds the password hash path of `id` under the keys base directory.
pub fn generate_pass_path(keys_dir: &str, id: &str) -> (r: String)
    ensures
        r@ == spec_pass_path(keys_dir@, id@),
{
    let mut r = String::new();
    r.append(keys_dir);
    r.append("/");
    r.append(id);
    r.append("/");
    r.append("pass.txt");
    proof {
        assert(r@ =~= spec_pass_path(keys_dir@, id@));
    }
    r
}

/// Strips the four-character `.txt` suffix from a file name, turning a salt
/// file name back into its user id.
pub fn format_txt_filename(filename: &str) -> (r: &str)
    requires
        filename@.len() >= 4,
    ensures
        r@ == filename@.take(filename@.len() - 4),
{
    let n = filename.unicode_len();
    filename.substring_char(0, n - 4)
}

} // verus!
