pub mod network;
pub mod udp_reflector;

use vstd::prelude::*;

verus! {

/// The name under which a server announces itself: the device name, `@`,
/// then the user name.
pub fn server_name(devicename: &str, username: &str) -> (r: String)
    ensures
        r@ == devicename@ + seq!['@'] + username@,
{
    let mut name = String::from_str(devicename);
    let at = "@";
    proof {
        reveal_strlit("@");
    }
    name.append(at);
    name.append(username);
    name
}

} // verus!
