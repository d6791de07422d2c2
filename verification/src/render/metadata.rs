//! The wording of the properties of a file.

use vstd::prelude::*;
use vstd::string::StringExecFns;

verus! {

/// The name of the layout of `channels` channels, for the numbers of
/// channels that have one.
pub open spec fn channel_layout_name(channels: int) -> Option<Seq<char>> {
    if channels == 1 {
        Some("mono"@)
    } else if channels == 2 {
        Some("stereo"@)
    } else if channels == 3 {
        Some("ambinosic 2.1"@)
    } else if channels == 5 {
        Some("ambisonic 5"@)
    } else if channels == 6 {
        Some("ambisonic 5.1"@)
    } else if channels == 7 {
        Some("ambisonic 7"@)
    } else if channels == 8 {
        Some("ambisonic 7.1"@)
    } else {
        None
    }
}

/// The name of the layout of `channels` channels.
pub fn channel_layout_to_string(channels: usize) -> (name: String)
    requires
        channel_layout_name(channels as int) is Some,
    ensures
        Some(name@) == channel_layout_name(channels as int),
{
    let name = if channels == 1 {
        "mono"
    } else if channels == 2 {
        "stereo"
    } else if channels == 3 {
        "ambinosic 2.1"
    } else if channels == 5 {
        "ambisonic 5"
    } else if channels == 6 {
        "ambisonic 5.1"
    } else if channels == 7 {
        "ambisonic 7"
    } else {
        "ambisonic 7.1"
    };
    String::from_str(name)
}

} // verus!
