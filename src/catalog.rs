use vstd::prelude::*;
use vstd::string::*;

use crate::parse::{parse_settings, parse_string};
use crate::settings::{Entry, Settings};

verus! {

// Reference parameters from the x265 documentation of its presets
// (https://x265.readthedocs.io/en/master/presets.html). They are not fixed
// across x265 versions: a "slow" encode with lookahead-slices=6 has been seen.

/// The reference parameters of the `ultrafast` preset.
pub const ULTRAFAST_PARAMS: &'static str = "ctu=32 min-cu-size=16 bframes=3 b-adapt=0 rc-lookahead=5 lookahead-slices=8 scenecut=0 ref=1 limit-refs=0 me=dia merange=57 subme=0 rect=0 amp=0 limit-modes=0 max-merge=2 early-skip=1 recursion-skip=1 fast-intra=1 b-intra=0 sao=0 signhide=0 weightp=0 weightb=0 aq-mode=0 cuTree=1 rdLevel=2 rdoq-level=0 tu-intra=1 tu-inter=1 limit-tu=0";

/// The reference parameters of the `superfast` preset.
pub const SUPERFAST_PARAMS: &'static str = "ctu=32 min-cu-size=8 bframes=3 b-adapt=0 rc-lookahead=10 lookahead-slices=8 scenecut=40 ref=1 limit-refs=0 me=hex merange=57 subme=1 rect=0 amp=0 limit-modes=0 max-merge=2 early-skip=1 recursion-skip=1 fast-intra=1 b-intra=0 sao=0 signhide=1 weightp=0 weightb=0 aq-mode=0 cuTree=1 rdLevel=2 rdoq-level=0 tu-intra=1 tu-inter=1 limit-tu=0";

/// The reference parameters of the `veryfast` preset.
pub const VERYFAST_PARAMS: &'static str = "ctu=64 min-cu-size=8 bframes=4 b-adapt=0 rc-lookahead=15 lookahead-slices=8 scenecut=40 ref=2 limit-refs=3 me=hex merange=57 subme=1 rect=0 amp=0 limit-modes=0 max-merge=2 early-skip=1 recursion-skip=1 fast-intra=1 b-intra=0 sao=1 signhide=1 weightp=1 weightb=0 aq-mode=2 cuTree=1 rdLevel=2 rdoq-level=0 tu-intra=1 tu-inter=1 limit-tu=0";

/// The reference parameters of the `faster` preset.
pub const FASTER_PARAMS: &'static str = "ctu=64 min-cu-size=8 bframes=4 b-adapt=0 rc-lookahead=15 lookahead-slices=8 scenecut=40 ref=2 limit-refs=3 me=hex merange=57 subme=2 rect=0 amp=0 limit-modes=0 max-merge=2 early-skip=1 recursion-skip=1 fast-intra=1 b-intra=0 sao=1 signhide=1 weightp=1 weightb=0 aq-mode=2 cuTree=1 rdLevel=2 rdoq-level=0 tu-intra=1 tu-inter=1 limit-tu=0";

/// The reference parameters of the `fast` preset.
pub const FAST_PARAMS: &'static str = "ctu=64 min-cu-size=8 bframes=4 b-adapt=0 rc-lookahead=15 lookahead-slices=8 scenecut=40 ref=3 limit-refs=3 me=hex merange=57 subme=2 rect=0 amp=0 limit-modes=0 max-merge=2 early-skip=0 recursion-skip=1 fast-intra=1 b-intra=0 sao=1 signhide=1 weightp=1 weightb=0 aq-mode=2 cuTree=1 rdLevel=2 rdoq-level=0 tu-intra=1 tu-inter=1 limit-tu=0";

/// The reference parameters of the `medium` preset.
pub const MEDIUM_PARAMS: &'static str = "ctu=64 min-cu-size=8 bframes=4 b-adapt=2 rc-lookahead=20 lookahead-slices=8 scenecut=40 ref=3 limit-refs=1 me=hex merange=57 subme=2 rect=0 amp=0 limit-modes=0 max-merge=3 early-skip=1 recursion-skip=1 fast-intra=0 b-intra=1 sao=1 signhide=1 weightp=1 weightb=0 aq-mode=2 cuTree=1 rdLevel=3 rdoq-level=0 tu-intra=1 tu-inter=1 limit-tu=0";

/// The reference parameters of the `slow` preset.
pub const SLOW_PARAMS: &'static str = "ctu=64 min-cu-size=8 bframes=4 b-adapt=2 rc-lookahead=25 lookahead-slices=4 scenecut=40 ref=4 limit-refs=3 me=star merange=57 subme=3 rect=1 amp=0 limit-modes=1 max-merge=3 early-skip=0 recursion-skip=1 fast-intra=0 b-intra=0 sao=1 signhide=1 weightp=1 weightb=0 aq-mode=2 cuTree=1 rdLevel=4 rdoq-level=2 tu-intra=1 tu-inter=1 limit-tu=0";

/// The reference parameters of the `slower` preset.
pub const SLOWER_PARAMS: &'static str = "ctu=64 min-cu-size=8 bframes=8 b-adapt=2 rc-lookahead=40 lookahead-slices=1 scenecut=40 ref=5 limit-refs=1 me=star merange=57 subme=4 rect=1 amp=1 limit-modes=1 max-merge=4 early-skip=0 recursion-skip=1 fast-intra=0 b-intra=1 sao=1 signhide=1 weightp=1 weightb=1 aq-mode=2 cuTree=1 rdLevel=6 rdoq-level=2 tu-intra=3 tu-inter=3 limit-tu=4";

/// The reference parameters of the `veryslow` preset.
pub const VERYSLOW_PARAMS: &'static str = "ctu=64 min-cu-size=8 bframes=8 b-adapt=2 rc-lookahead=40 lookahead-slices=1 scenecut=40 ref=5 limit-refs=0 me=star merange=57 subme=4 rect=1 amp=1 limit-modes=0 max-merge=5 early-skip=0 recursion-skip=1 fast-intra=0 b-intra=1 sao=1 signhide=1 weightp=1 weightb=1 aq-mode=2 cuTree=1 rdLevel=6 rdoq-level=2 tu-intra=3 tu-inter=3 limit-tu=0";

/// The reference parameters of the `placebo` preset.
pub const PLACEBO_PARAMS: &'static str = "ctu=64 min-cu-size=8 bframes=8 b-adapt=2 rc-lookahead=60 lookahead-slices=1 scenecut=40 ref=5 limit-refs=0 me=star merange=92 subme=5 rect=1 amp=1 limit-modes=0 max-merge=5 early-skip=0 recursion-skip=0 fast-intra=0 b-intra=1 sao=1 signhide=1 weightp=1 weightb=1 aq-mode=2 cuTree=1 rdLevel=6 rdoq-level=2 tu-intra=4 tu-inter=4 limit-tu=0";

/// A named preset, as characters: its name and its settings.
pub type PresetView = (Seq<char>, Seq<Entry>);

/// The reference catalog, in declaration order (fastest first).
pub open spec fn reference_catalog() -> Seq<PresetView> {
    seq![
        ("ultrafast"@, parse_settings(ULTRAFAST_PARAMS@)),
        ("superfast"@, parse_settings(SUPERFAST_PARAMS@)),
        ("veryfast"@, parse_settings(VERYFAST_PARAMS@)),
        ("faster"@, parse_settings(FASTER_PARAMS@)),
        ("fast"@, parse_settings(FAST_PARAMS@)),
        ("medium"@, parse_settings(MEDIUM_PARAMS@)),
        ("slow"@, parse_settings(SLOW_PARAMS@)),
        ("slower"@, parse_settings(SLOWER_PARAMS@)),
        ("veryslow"@, parse_settings(VERYSLOW_PARAMS@)),
        ("placebo"@, parse_settings(PLACEBO_PARAMS@))
    ]
}

/// Builds the reference catalog.
pub fn reference_presets() -> (r: Vec<(String, Settings)>)
    ensures
        r@.len() == reference_catalog().len(),
        forall|i: int|
            0 <= i < r@.len() ==> r@[i].1.wf() && (#[trigger] r@[i].0@, r@[i].1@)
                == reference_catalog()[i],
{
    let mut out: Vec<(String, Settings)> = Vec::new();
    out.push((String::from_str("ultrafast"), parse_string(ULTRAFAST_PARAMS)));
    out.push((String::from_str("superfast"), parse_string(SUPERFAST_PARAMS)));
    out.push((String::from_str("veryfast"), parse_string(VERYFAST_PARAMS)));
    out.push((String::from_str("faster"), parse_string(FASTER_PARAMS)));
    out.push((String::from_str("fast"), parse_string(FAST_PARAMS)));
    out.push((String::from_str("medium"), parse_string(MEDIUM_PARAMS)));
    out.push((String::from_str("slow"), parse_string(SLOW_PARAMS)));
    out.push((String::from_str("slower"), parse_string(SLOWER_PARAMS)));
    out.push((String::from_str("veryslow"), parse_string(VERYSLOW_PARAMS)));
    out.push((String::from_str("placebo"), parse_string(PLACEBO_PARAMS)));
    out
}

} // verus!
