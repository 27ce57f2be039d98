use vstd::prelude::*;

use vstd::string::StrSliceExecFns;
use vstd::utf8::encode_utf8;

verus! {

/// The token a password authenticator sends: a NUL byte, the user name,
/// another NUL byte, then the password, all in UTF-8.
pub open spec fn password_token_wire(user: Seq<char>, password: Seq<char>) -> Seq<u8> {
    seq![0u8] + encode_utf8(user) + seq![0u8] + encode_utf8(password)
}

/// Builds the `\0user\0password` token that the password authenticator
/// carries in its AUTH_RESPONSE `[bytes]`.
pub fn password_token(user: &str, password: &str) -> (r: Vec<u8>)
    ensures
        r@ == password_token_wire(user@, password@),
{
    let mut r: Vec<u8> = Vec::new();
    r.push(0u8);
    let ub = user.as_bytes_vec();
    r.extend_from_slice(ub.as_slice());
    r.push(0u8);
    let pb = password.as_bytes_vec();
    r.extend_from_slice(pb.as_slice());
    proof {
        assert(r@ =~= password_token_wire(user@, password@));
    }
    r
}

} // verus!
