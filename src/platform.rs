use vstd::prelude::*;

verus! {

/// The operating-system family the store runs on.
#[derive(PartialEq, Eq, Structural, Clone, Copy, Debug)]
pub enum Platform {
    MacOs,
    Windows,
    Linux,
    Unknown,
}

pub open spec fn platform_name(p: Platform) -> Seq<char> {
    match p {
        Platform::MacOs => "macos"@,
        Platform::Windows => "windows"@,
        Platform::Linux => "linux"@,
        Platform::Unknown => "unknown"@,
    }
}

/// The name the host sees for a platform: one of "macos", "windows",
/// "linux" or "unknown".
pub fn get_platform_info(platform: Platform) -> (r: String)
    ensures
        r@ == platform_name(platform),
{
    let name = match platform {
        Platform::MacOs => "macos",
        Platform::Windows => "windows",
        Platform::Linux => "linux",
        Platform::Unknown => "unknown",
    };
    name.to_owned()
}

} // verus!
