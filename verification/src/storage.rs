//! Key material handling for the storage layer's file-based fallback.
//!
//! Keys are stored as raw byte files under `<data_dir>/keys/`, protected by
//! file permissions.  The logic here computes the file paths, validates the
//! bytes read back, and chooses between the OS keychain and the file-based
//! fallback; reading and writing the files themselves is left to the
//! surrounding runtime.

use vstd::prelude::*;
use vstd::string::StringExecFns;

use crate::strutil::dec_rep;
use crate::strutil::u64_to_string;

verus! {

/// Length in bytes of the master encryption key.
pub const KEY_SIZE: usize = 32;

/// Length in bytes of the token-signing secret.
pub const JWT_SECRET_SIZE: usize = 32;

/// The message rejecting a key file of the wrong size.
pub open spec fn key_size_error_message(expected: nat, got: nat) -> Seq<char> {
    "Invalid key size in file: expected "@ + dec_rep(expected) + ", got "@ + dec_rep(got)
}

/// Check bytes read from a key file: they are accepted exactly when their
/// length is `expected`.
pub fn check_key_material(data: Vec<u8>, expected: usize) -> (r: Result<Vec<u8>, String>)
    ensures
        data@.len() == expected ==> (r matches Ok(k) && k@ == data@),
        data@.len() != expected ==> (r matches Err(m) && m@ == key_size_error_message(
            expected as nat,
            data@.len(),
        )),
{
    if data.len() == expected {
        Ok(data)
    } else {
        let mut m = "Invalid key size in file: expected ".to_owned();
        let e = u64_to_string(expected as u64);
        m.append(e.as_str());
        m.append(", got ");
        let g = u64_to_string(data.len() as u64);
        m.append(g.as_str());
        Err(m)
    }
}

/// The directory under `data_dir` where key files live.
pub open spec fn keys_dir_of(data_dir: Seq<char>) -> Seq<char> {
    data_dir + "/keys"@
}

/// The master key file under `data_dir`.
pub open spec fn key_file_of(data_dir: Seq<char>) -> Seq<char> {
    keys_dir_of(data_dir) + "/master.key"@
}

/// The token-signing secret file under `data_dir`.
pub open spec fn jwt_file_of(data_dir: Seq<char>) -> Seq<char> {
    keys_dir_of(data_dir) + "/jwt.key"@
}

/// File-based master key provider: the key lives as a raw byte file
/// protected by filesystem permissions.
pub struct FileKeyProvider {
    /// Where the key file lives.
    pub key_path: String,
}

impl FileKeyProvider {
    /// A provider storing its key under `<data_dir>/keys/`.
    pub fn new(data_dir: &str) -> (r: FileKeyProvider)
        ensures
            r.key_path@ == key_file_of(data_dir@),
    {
        let mut p = data_dir.to_owned();
        p.append("/keys");
        p.append("/master.key");
        FileKeyProvider { key_path: p }
    }

    /// Check bytes read back from the key file.
    pub fn check_key_bytes(&self, data: Vec<u8>) -> (r: Result<Vec<u8>, String>)
        ensures
            data@.len() == KEY_SIZE ==> (r matches Ok(k) && k@ == data@),
            data@.len() != KEY_SIZE ==> (r matches Err(m) && m@ == key_size_error_message(
                KEY_SIZE as nat,
                data@.len(),
            )),
    {
        check_key_material(data, KEY_SIZE)
    }
}

/// File-based token-signing secret provider.
pub struct FileJwtSecretProvider {
    /// Where the secret file lives.
    pub secret_path: String,
}

impl FileJwtSecretProvider {
    /// A provider storing its secret under `<data_dir>/keys/`.
    pub fn new(data_dir: &str) -> (r: FileJwtSecretProvider)
        ensures
            r.secret_path@ == jwt_file_of(data_dir@),
    {
        let mut p = data_dir.to_owned();
        p.append("/keys");
        p.append("/jwt.key");
        FileJwtSecretProvider { secret_path: p }
    }

    /// Check bytes read back from the secret file.
    pub fn check_secret_bytes(&self, data: Vec<u8>) -> (r: Result<Vec<u8>, String>)
        ensures
            data@.len() == JWT_SECRET_SIZE ==> (r matches Ok(k) && k@ == data@),
            data@.len() != JWT_SECRET_SIZE ==> (r matches Err(m) && m@ == key_size_error_message(
                JWT_SECRET_SIZE as nat,
                data@.len(),
            )),
    {
        check_key_material(data, JWT_SECRET_SIZE)
    }
}

/// Which master key provider a platform ends up with.
pub enum KeyProviderChoice {
    /// The OS keychain held or produced a key.
    Keychain,
    /// The file-based fallback.
    File(FileKeyProvider),
}

/// Which token-secret provider a platform ends up with.
pub enum JwtSecretProviderChoice {
    /// The OS keychain held or produced a secret.
    Keychain,
    /// The file-based fallback.
    File(FileJwtSecretProvider),
}

/// Choose the master key provider: the OS keychain when it is available
/// and produced a key, else the file-based fallback under
/// `<data_dir>/keys/`.
pub fn create_key_provider(data_dir: &str, keychain_available: bool) -> (r: KeyProviderChoice)
    ensures
        keychain_available ==> r is Keychain,
        !keychain_available ==> (r matches KeyProviderChoice::File(f) && f.key_path@
            == key_file_of(data_dir@)),
{
    if keychain_available {
        KeyProviderChoice::Keychain
    } else {
        KeyProviderChoice::File(FileKeyProvider::new(data_dir))
    }
}

/// Choose the token-secret provider: the OS keychain when it is available
/// and produced a secret, else the file-based fallback.
pub fn create_jwt_secret_provider(data_dir: &str, keychain_available: bool) -> (r:
    JwtSecretProviderChoice)
    ensures
        keychain_available ==> r is Keychain,
        !keychain_available ==> (r matches JwtSecretProviderChoice::File(f) && f.secret_path@
            == jwt_file_of(data_dir@)),
{
    if keychain_available {
        JwtSecretProviderChoice::Keychain
    } else {
        JwtSecretProviderChoice::File(FileJwtSecretProvider::new(data_dir))
    }
}

/// The database file under a local-data directory.
pub open spec fn db_path_of(base: Seq<char>) -> Seq<char> {
    base + "/mcpmux/"@ + "mcpmux.db"@
}

/// Relies on `dirs::data_local_dir`: the platform's local-data directory,
/// when the environment defines one, as a UTF-8 string.  The result
/// depends on the environment.
#[verifier::external_body]
fn data_local_dir() -> (r: Option<String>) {
    dirs::data_local_dir().and_then(|p| p.to_str().map(|s| s.to_string()))
}

/// The database file under the given local-data directory.
pub fn database_path_in(base: &str) -> (r: String)
    ensures
        r@ == db_path_of(base@),
{
    let mut p = base.to_owned();
    p.append("/mcpmux/");
    p.append("mcpmux.db");
    p
}

/// The default database path for the current platform: the database file
/// under the local-data directory, when the environment defines one.
pub fn default_database_path() -> (r: Option<String>)
    ensures
        r matches Some(p) ==> exists|base: Seq<char>| p@ == #[trigger] db_path_of(base),
{
    match data_local_dir() {
        Some(base) => {
            let p = database_path_in(base.as_str());
            proof {
                assert(p@ == db_path_of(base@));
            }
            Some(p)
        },
        None => None,
    }
}

} // verus!
