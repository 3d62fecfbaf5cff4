//! The platforms the runtime knows.

use vstd::prelude::*;
use crate::text::push_str;

verus! {

/// A platform the runtime can run on.
pub trait Platform: Sized {
    fn new() -> Self;
}

/// Linux.
pub struct LinuxPlatform {}

impl Platform for LinuxPlatform {
    fn new() -> Self {
        LinuxPlatform {}
    }
}

/// A platform the runtime cannot run on.
pub struct UnsupportedPlatform {}

/// Reads `current_platform::CURRENT_PLATFORM`, the target the crate was built for.
/// Nothing is promised of its text.
#[verifier::external_body]
fn current_platform_name() -> (r: &'static str) {
    current_platform::CURRENT_PLATFORM
}

/// What the runtime reports on the platform `platform`, which it cannot run on.
pub fn unsupported_message(platform: &str) -> (r: String)
    ensures
        r@ == "unsupported platform : "@ + platform@,
{
    let mut s = "unsupported platform : ".to_owned();
    push_str(&mut s, platform);
    s
}

impl UnsupportedPlatform {
    /// What the runtime reports on a platform it cannot run on: the message of
    /// `unsupported_message` for the platform it was built for.
    pub fn message() -> (r: String)
        ensures
            exists|p: Seq<char>| r@ == "unsupported platform : "@ + p,
    {
        let name = current_platform_name();
        unsupported_message(name)
    }
}

/// The process exit code for a program's result: the result itself where it fits an
/// `i32`, else the nearest bound.
pub fn exit_code(code: i64) -> (r: i32)
    ensures
        r == (if code >= i32::MAX { i32::MAX as int } else if code <= i32::MIN { i32::MIN as int } else { code as int }),
{
    if code >= i32::MAX as i64 {
        i32::MAX
    } else if code <= i32::MIN as i64 {
        i32::MIN
    } else {
        code as i32
    }
}

} // verus!
