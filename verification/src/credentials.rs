//! The password file and the gamma file of the output feedback encryptor:
//! where they are, and what is written into them at the first launch.
use rand::distributions::{Alphanumeric, Standard};
use rand::{thread_rng, Rng};
use vstd::prelude::*;
use vstd::string::{StrSliceExecFns, StringExecFns};
use vstd::utf8::{
    codepoint_width_1, decode_first_codepoint, is_leading_byte_width_1, length_of_first_codepoint,
    pop_first_scalar, valid_first_scalar, valid_utf8,
};

use crate::ofb::{UserHomeDirResolvingError, GAMMA_FILE_NAME, PASSWORD_FILE_NAME, WORKING_FOLDER_NAME};

verus! {

/// A relative name joined onto a path, as `Path::join` does: with a `/`
/// between them unless the path is empty or already ends with one.
pub open spec fn join_path(base: Seq<char>, name: Seq<char>) -> Seq<char> {
    if base.len() == 0 || base.last() == '/' {
        base + name
    } else {
        base + seq!['/'] + name
    }
}

/// The file of a name in the working folder of a home directory.
pub open spec fn working_file(home: Seq<char>, name: Seq<char>) -> Seq<char> {
    join_path(join_path(home, WORKING_FOLDER_NAME@), name)
}

/// An ASCII letter or digit.
pub open spec fn is_alphanumeric(b: u8) -> bool {
    (48 <= b <= 57) || (65 <= b <= 90) || (97 <= b <= 122)
}

/// Joins a relative name onto a path.
pub fn join(base: &str, name: &str) -> (p: String)
    ensures
        p@ == join_path(base@, name@),
{
    let mut p = String::from_str(base);
    let n = base.unicode_len();
    if n > 0 && base.get_char(n - 1) != '/' {
        p.append("/");
        proof {
            reveal_strlit("/");
        }
    }
    p.append(name);
    p
}

/// Calls `thread_rng().sample_iter(Alphanumeric)` and takes `len` bytes:
/// each is drawn from the ASCII letters and digits.
#[verifier::external_body]
fn random_alphanumeric(len: usize) -> (v: Vec<u8>)
    ensures
        v@.len() == len,
        forall|i: int| 0 <= i < len ==> is_alphanumeric(#[trigger] v@[i]),
{
    thread_rng().sample_iter::<u8, _>(Alphanumeric).take(len).collect()
}

/// Calls `thread_rng().sample_iter(Standard)` and takes `len` bytes; what
/// they hold is not stated (they are random).
#[verifier::external_body]
fn random_bytes(len: usize) -> (v: Vec<u8>)
    ensures
        v@.len() == len,
{
    thread_rng().sample_iter::<u8, _>(Standard).take(len).collect()
}

proof fn lemma_ascii_is_utf8(bytes: Seq<u8>)
    requires
        forall|i: int| 0 <= i < bytes.len() ==> #[trigger] bytes[i] < 0x80,
    ensures
        valid_utf8(bytes),
    decreases bytes.len(),
{
    if bytes.len() > 0 {
        let b = bytes[0];
        assert(is_leading_byte_width_1(b));
        assert(((b & 0x7F) as u32) < 0x80u32) by (bit_vector);
        assert(codepoint_width_1(b) < 0x80);
        assert(length_of_first_codepoint(bytes) == 1);
        assert(decode_first_codepoint(bytes) < 0x80);
        assert(valid_first_scalar(bytes));
        let rest = pop_first_scalar(bytes);
        assert(rest =~= bytes.subrange(1, bytes.len() as int));
        lemma_ascii_is_utf8(rest);
    }
}

/// The path of the password file.
pub struct PasswordFilePathWrapper(pub String);

impl PasswordFilePathWrapper {
    /// The password file in the working folder of the home directory; where
    /// the home directory is not known, [`UserHomeDirResolvingError`].
    pub fn new(home: Option<String>) -> (r: Result<PasswordFilePathWrapper, UserHomeDirResolvingError>)
        ensures
            match home {
                None => r is Err,
                Some(h) => r is Ok && r->Ok_0.0@ == working_file(h@, PASSWORD_FILE_NAME@),
            },
    {
        match home {
            None => Err(UserHomeDirResolvingError),
            Some(h) => {
                let dir = join(h.as_str(), WORKING_FOLDER_NAME);
                Ok(PasswordFilePathWrapper(join(dir.as_str(), PASSWORD_FILE_NAME)))
            },
        }
    }

    /// The password written into the file at the first launch: `len` random
    /// ASCII letters and digits, which are UTF-8 text.
    pub fn init_password_at_first_launch(&self, len: usize) -> (p: Vec<u8>)
        ensures
            p@.len() == len,
            forall|i: int| 0 <= i < len ==> is_alphanumeric(#[trigger] p@[i]),
            valid_utf8(p@),
    {
        let p = random_alphanumeric(len);
        proof {
            assert forall|i: int| 0 <= i < p@.len() implies #[trigger] p@[i] < 0x80 by {
                assert(is_alphanumeric(p@[i]));
            }
            lemma_ascii_is_utf8(p@);
        }
        p
    }
}

/// The path of the gamma file.
pub struct GammaFilePathWrapper(pub String);

impl GammaFilePathWrapper {
    /// The gamma file in the working folder of the home directory; where the
    /// home directory is not known, [`UserHomeDirResolvingError`].
    pub fn new(home: Option<String>) -> (r: Result<GammaFilePathWrapper, UserHomeDirResolvingError>)
        ensures
            match home {
                None => r is Err,
                Some(h) => r is Ok && r->Ok_0.0@ == working_file(h@, GAMMA_FILE_NAME@),
            },
    {
        match home {
            None => Err(UserHomeDirResolvingError),
            Some(h) => {
                let dir = join(h.as_str(), WORKING_FOLDER_NAME);
                Ok(GammaFilePathWrapper(join(dir.as_str(), GAMMA_FILE_NAME)))
            },
        }
    }

    /// The gamma written into the file at the first launch: `len` random
    /// bytes.
    pub fn init_gamma_at_first_launch(&self, len: usize) -> (g: Vec<u8>)
        ensures
            g@.len() == len,
    {
        random_bytes(len)
    }
}

} // verus!
