//! What the tool asks of the host, and how a host tool's answer is read.

use vstd::prelude::*;
use crate::errors::Error;

verus! {

/// The host tools assembly needs; startup fails fast when one is missing.
pub fn required_commands() -> (r: Vec<String>)
    ensures
        r@.len() == 5,
        r@[0]@ == "dd"@,
        r@[1]@ == "losetup"@,
        r@[2]@ == "mkfs.ext4"@,
        r@[3]@ == "mount"@,
        r@[4]@ == "sfdisk"@,
{
    let mut v: Vec<String> = Vec::new();
    v.push(String::from_str("dd"));
    v.push(String::from_str("losetup"));
    v.push(String::from_str("mkfs.ext4"));
    v.push(String::from_str("mount"));
    v.push(String::from_str("sfdisk"));
    v
}

/// Reads a finished host command: its standard output on success, and on a
/// bad exit status an error carrying both captured streams.
pub fn output_error_if_failed(success: bool, stdout: String, stderr: String) -> (r: Result<
    String,
    Error,
>)
    ensures
        match r {
            Ok(o) => success && o == stdout,
            Err(e) => {
                &&& !success
                &&& e matches Error::ResourceError(m) && m@ == "STDOUT: "@ + stdout@ + "; STDERR: "@
                    + stderr@
            },
        },
{
    if success {
        Ok(stdout)
    } else {
        let mut m = String::from_str("STDOUT: ");
        m.append(stdout.as_str());
        m.append("; STDERR: ");
        m.append(stderr.as_str());
        Err(Error::ResourceError(m))
    }
}

} // verus!
