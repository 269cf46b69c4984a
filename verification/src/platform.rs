use crate::text::same_text;
use vstd::prelude::*;

verus! {

/// The kind of operating system, as far as the store depends on it.
#[derive(Clone, Copy, Debug, PartialEq, Eq, Structural)]
pub enum Platform {
    Windows,
    Other,
}

/// The characters that end a line on the platform.
pub open spec fn newline(platform: Platform) -> Seq<char> {
    match platform {
        Platform::Windows => seq!['\r', '\n'],
        Platform::Other => seq!['\n'],
    }
}

/// What the operating system's name is when it is Windows.
pub open spec fn windows_name() -> Seq<char> {
    seq!['w', 'i', 'n', 'd', 'o', 'w', 's']
}

/// The platform that goes by the given operating system name.
pub fn platform_named(os: &str) -> (platform: Platform)
    ensures
        platform == (if os@ == windows_name() {
            Platform::Windows
        } else {
            Platform::Other
        }),
{
    proof {
        reveal_strlit("windows");
        assert("windows"@ =~= windows_name());
    }
    if same_text(os, "windows") {
        Platform::Windows
    } else {
        Platform::Other
    }
}

/// The newline of the platform: carriage return and line feed on Windows, a
/// line feed elsewhere.
pub fn newline_os(platform: Platform) -> (s: &'static str)
    ensures
        s@ == newline(platform),
{
    proof {
        reveal_strlit("\r\n");
        reveal_strlit("\n");
        assert("\r\n"@ =~= seq!['\r', '\n']);
        assert("\n"@ =~= seq!['\n']);
    }
    match platform {
        Platform::Windows => "\r\n",
        Platform::Other => "\n",
    }
}

} // verus!
