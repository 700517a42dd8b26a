//! Picking audio devices by name and thinning captured frames to the rate
//! the bus carries.
use vstd::prelude::*;
use crate::text::{has_subseq, lowercase_of, str_contains};

verus! {

/// The rate the microphone ant publishes at.
pub const EAR_RATE: u32 = 16000;

/// The microphone ant publishes once this many samples are gathered.
pub const EAR_MIN_SAMPLES: usize = 1600;

/// The rate the bridge captures the browser's audio at.
pub const BRIDGE_RATE: u32 = 24000;

/// The bridge keeps at most this many captured samples.
pub const BRIDGE_CAP: usize = 48000;

/// The bridge publishes captured audio in blocks of this many samples (200 ms).
pub const BRIDGE_BLOCK: usize = 4800;

/// A device matches a wanted name when its name contains the wanted one,
/// both in lower case.
pub open spec fn device_matches(device: Seq<char>, wanted: Seq<char>) -> bool {
    has_subseq(lowercase_of(device), lowercase_of(wanted))
}

/// A device listing entry matches when its name could be read and matches.
pub open spec fn entry_matches(name: Option<String>, wanted: Seq<char>) -> bool {
    match name {
        Some(n) => device_matches(n@, wanted),
        None => false,
    }
}

/// The first device whose name matches; devices whose name could not be
/// read (`None`) are passed over.
pub fn find_device(names: &Vec<Option<String>>, wanted: &str) -> (r: Option<usize>)
    ensures
        r matches Some(k) ==> k < names@.len() && entry_matches(names@[k as int], wanted@),
        forall|j: int|
            0 <= j < names@.len() && (r matches Some(k) ==> j < k) ==> !entry_matches(
                #[trigger] names@[j],
                wanted@,
            ),
{
    let w = wanted.to_lowercase();
    let mut k: usize = 0;
    while k < names.len()
        invariant
            k <= names@.len(),
            w@ == lowercase_of(wanted@),
            forall|j: int| 0 <= j < k ==> !entry_matches(#[trigger] names@[j], wanted@),
        decreases names@.len() - k,
    {
        match &names[k] {
            Some(n) => {
                let l = n.as_str().to_lowercase();
                if str_contains(l.as_str(), w.as_str()) {
                    return Some(k);
                }
            },
            None => {},
        }
        k += 1;
    }
    None
}

/// The microphone ant keeps every `skip`-th frame: the device rate over the
/// bus rate, rounded down. A device slower than the bus rate is not handled.
pub fn ear_skip(device_rate: u32) -> (r: usize)
    requires
        device_rate >= EAR_RATE,
    ensures
        r == device_rate / EAR_RATE,
        r >= 1,
{
    (device_rate / EAR_RATE) as usize
}

/// The bridge keeps every `step`-th frame: the capture rate over 24 kHz,
/// rounded down, and at least 1.
pub fn bridge_step(in_rate: u32) -> (r: usize)
    ensures
        r == (if in_rate / BRIDGE_RATE >= 1 { in_rate / BRIDGE_RATE } else { 1 }),
{
    let q = in_rate / BRIDGE_RATE;
    if q >= 1 {
        q as usize
    } else {
        1
    }
}

} // verus!
