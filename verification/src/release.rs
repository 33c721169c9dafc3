//! Where a release build of the server binary lies.
use vstd::prelude::*;

verus! {

/// The path of the release binary built for `target`:
/// `../target/<target>/release/http-server`.
pub fn release_binary_path(target: &str) -> (res: String)
    ensures
        res@ == "../target/"@ + target@ + "/release/http-server"@,
{
    let mut res = String::from_str("../target/");
    res.append(target);
    res.append("/release/http-server");
    res
}

} // verus!
