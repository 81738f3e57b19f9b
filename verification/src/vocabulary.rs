//! The fixed vocabulary of the charts: which note plays which effect, and
//! how each effect is shown.
//!
//! The tables are keyed by strings, as the charts and the effect packages
//! are. An archetype that no table knows plays nothing; that is no error.

use crate::text::same_text;
use vstd::prelude::*;

verus! {

/// The colours of an effect's progress bar.
#[derive(Clone, Copy, Debug)]
pub struct ClipColor {
    pub fg: &'static str,
    pub bg: &'static str,
}

/// The effect that a note of `archetype` triggers once, if it triggers any.
pub open spec fn instant_effect(archetype: Seq<char>) -> Option<&'static str> {
    if archetype == "NormalTapNote"@ {
        Some("#PERFECT")
    } else if archetype == "CriticalTapNote"@ {
        Some("Sekai Critical Tap")
    } else if archetype == "NormalFlickNote"@ {
        Some("#PERFECT_ALTERNATIVE")
    } else if archetype == "CriticalFlickNote"@ {
        Some("Sekai Critical Flick")
    } else if archetype == "NormalSlideStartNote"@ {
        Some("#PERFECT")
    } else if archetype == "CriticalSlideStartNote"@ {
        Some("#PERFECT")
    } else if archetype == "NormalSlideEndNote"@ {
        Some("#PERFECT")
    } else if archetype == "CriticalSlideEndNote"@ {
        Some("#PERFECT")
    } else if archetype == "NormalSlideEndFlickNote"@ {
        Some("#PERFECT_ALTERNATIVE")
    } else if archetype == "CriticalSlideEndFlickNote"@ {
        Some("Sekai Critical Flick")
    } else if archetype == "NormalSlideTickNote"@ {
        Some("Sekai Tick")
    } else if archetype == "CriticalSlideTickNote"@ {
        Some("Sekai Critical Tick")
    } else if archetype == "NormalAttachedSlideTickNote"@ {
        Some("Sekai Tick")
    } else if archetype == "CriticalAttachedSlideTickNote"@ {
        Some("Sekai Critical Tick")
    } else if archetype == "NormalTraceNote"@ {
        Some("Sekai+ Normal Trace")
    } else if archetype == "CriticalTraceNote"@ {
        Some("Sekai+ Critical Trace")
    } else if archetype == "NormalTraceFlickNote"@ {
        Some("Sekai+ Normal Trace Flick")
    } else if archetype == "CriticalTraceFlickNote"@ {
        Some("Sekai+ Critical Trace Flick")
    } else if archetype == "NonDirectionalTraceFlickNote"@ {
        Some("Sekai+ Normal Trace Flick")
    } else if archetype == "TraceSlideStartNote"@ {
        Some("Sekai+ Normal Trace")
    } else if archetype == "TraceSlideEndNote"@ {
        Some("Sekai+ Normal Trace")
    } else {
        None
    }
}

/// The effect that a connector of `archetype` sustains, if it sustains any.
pub open spec fn loop_effect(archetype: Seq<char>) -> Option<&'static str> {
    if archetype == "NormalSlideConnector"@ {
        Some("#HOLD")
    } else if archetype == "CriticalSlideConnector"@ {
        Some("Sekai Critical Hold")
    } else {
        None
    }
}

/// The name under which the effect `effect` is shown, if it is a known one.
pub open spec fn display_name(effect: Seq<char>) -> Option<&'static str> {
    if effect == "#PERFECT"@ {
        Some("通常タップ")
    } else if effect == "#PERFECT_ALTERNATIVE"@ {
        Some("通常フリック")
    } else if effect == "#HOLD"@ {
        Some("通常ホールド")
    } else if effect == "Sekai Tick"@ {
        Some("スライド中継点")
    } else if effect == "Sekai Critical Tap"@ {
        Some("金タップ")
    } else if effect == "Sekai Critical Hold"@ {
        Some("金ホールド")
    } else if effect == "Sekai Critical Flick"@ {
        Some("金フリック")
    } else if effect == "Sekai Critical Tick"@ {
        Some("金スライド中継点")
    } else if effect == "Sekai+ Normal Trace"@ {
        Some("トレース")
    } else if effect == "Sekai+ Critical Trace"@ {
        Some("金トレース")
    } else if effect == "Sekai+ Normal Trace Flick"@ {
        Some("トレースフリック")
    } else if effect == "Sekai+ Critical Trace Flick"@ {
        Some("金トレースフリック")
    } else {
        None
    }
}

/// The colours in which the effect `effect` is shown, if it is a known one.
pub open spec fn clip_color(effect: Seq<char>) -> Option<ClipColor> {
    if effect == "#PERFECT"@ {
        Some(ClipColor { fg: "cyan", bg: "blue" })
    } else if effect == "#PERFECT_ALTERNATIVE"@ {
        Some(ClipColor { fg: "red", bg: "yellow" })
    } else if effect == "#HOLD"@ {
        Some(ClipColor { fg: "green", bg: "blue" })
    } else if effect == "Sekai Tick"@ {
        Some(ClipColor { fg: "green", bg: "blue" })
    } else if effect == "Sekai Critical Tap"@ {
        Some(ClipColor { fg: "yellow", bg: "orange" })
    } else if effect == "Sekai Critical Hold"@ {
        Some(ClipColor { fg: "yellow", bg: "orange" })
    } else if effect == "Sekai Critical Flick"@ {
        Some(ClipColor { fg: "yellow", bg: "orange" })
    } else if effect == "Sekai Critical Tick"@ {
        Some(ClipColor { fg: "yellow", bg: "orange" })
    } else if effect == "Sekai+ Normal Trace"@ {
        Some(ClipColor { fg: "black", bg: "white" })
    } else if effect == "Sekai+ Critical Trace"@ {
        Some(ClipColor { fg: "yellow", bg: "orange" })
    } else if effect == "Sekai+ Normal Trace Flick"@ {
        Some(ClipColor { fg: "red", bg: "yellow" })
    } else if effect == "Sekai+ Critical Trace Flick"@ {
        Some(ClipColor { fg: "yellow", bg: "orange" })
    } else {
        None
    }
}

/// The effects that notes trigger, in the order in which their tracks are
/// laid out.
pub open spec fn instant_effects() -> Seq<&'static str> {
    seq![
        "#PERFECT",
        "Sekai Critical Tap",
        "#PERFECT_ALTERNATIVE",
        "Sekai Critical Flick",
        "Sekai Tick",
        "Sekai Critical Tick",
        "Sekai+ Normal Trace",
        "Sekai+ Critical Trace",
        "Sekai+ Normal Trace Flick",
        "Sekai+ Critical Trace Flick",
    ]
}

/// The effects that connectors sustain, in the order in which their tracks
/// are laid out.
pub open spec fn loop_effects() -> Seq<&'static str> {
    seq![
        "#HOLD",
        "Sekai Critical Hold",
    ]
}

/// Every effect that a note triggers is one of [`instant_effects`].
pub proof fn lemma_instant_effect_listed(archetype: Seq<char>)
    ensures
        instant_effect(archetype) matches Some(effect) ==> exists|k: int|
            0 <= k < instant_effects().len() && instant_effects()[k] == effect,
{
    assert(instant_effects()[0] == "#PERFECT");
    assert(instant_effects()[1] == "Sekai Critical Tap");
    assert(instant_effects()[2] == "#PERFECT_ALTERNATIVE");
    assert(instant_effects()[3] == "Sekai Critical Flick");
    assert(instant_effects()[4] == "Sekai Tick");
    assert(instant_effects()[5] == "Sekai Critical Tick");
    assert(instant_effects()[6] == "Sekai+ Normal Trace");
    assert(instant_effects()[7] == "Sekai+ Critical Trace");
    assert(instant_effects()[8] == "Sekai+ Normal Trace Flick");
    assert(instant_effects()[9] == "Sekai+ Critical Trace Flick");
}

/// Every effect that a connector sustains is one of [`loop_effects`].
pub proof fn lemma_loop_effect_listed(archetype: Seq<char>)
    ensures
        loop_effect(archetype) matches Some(effect) ==> exists|k: int|
            0 <= k < loop_effects().len() && loop_effects()[k] == effect,
{
    assert(loop_effects()[0] == "#HOLD");
    assert(loop_effects()[1] == "Sekai Critical Hold");
}

/// Looks up the effect that a note of `archetype` triggers.
pub fn sound_for(archetype: &str) -> (effect: Option<&'static str>)
    ensures
        effect == instant_effect(archetype@),
{
    if same_text(archetype, "NormalTapNote") {
        Some("#PERFECT")
    } else if same_text(archetype, "CriticalTapNote") {
        Some("Sekai Critical Tap")
    } else if same_text(archetype, "NormalFlickNote") {
        Some("#PERFECT_ALTERNATIVE")
    } else if same_text(archetype, "CriticalFlickNote") {
        Some("Sekai Critical Flick")
    } else if same_text(archetype, "NormalSlideStartNote") {
        Some("#PERFECT")
    } else if same_text(archetype, "CriticalSlideStartNote") {
        Some("#PERFECT")
    } else if same_text(archetype, "NormalSlideEndNote") {
        Some("#PERFECT")
    } else if same_text(archetype, "CriticalSlideEndNote") {
        Some("#PERFECT")
    } else if same_text(archetype, "NormalSlideEndFlickNote") {
        Some("#PERFECT_ALTERNATIVE")
    } else if same_text(archetype, "CriticalSlideEndFlickNote") {
        Some("Sekai Critical Flick")
    } else if same_text(archetype, "NormalSlideTickNote") {
        Some("Sekai Tick")
    } else if same_text(archetype, "CriticalSlideTickNote") {
        Some("Sekai Critical Tick")
    } else if same_text(archetype, "NormalAttachedSlideTickNote") {
        Some("Sekai Tick")
    } else if same_text(archetype, "CriticalAttachedSlideTickNote") {
        Some("Sekai Critical Tick")
    } else if same_text(archetype, "NormalTraceNote") {
        Some("Sekai+ Normal Trace")
    } else if same_text(archetype, "CriticalTraceNote") {
        Some("Sekai+ Critical Trace")
    } else if same_text(archetype, "NormalTraceFlickNote") {
        Some("Sekai+ Normal Trace Flick")
    } else if same_text(archetype, "CriticalTraceFlickNote") {
        Some("Sekai+ Critical Trace Flick")
    } else if same_text(archetype, "NonDirectionalTraceFlickNote") {
        Some("Sekai+ Normal Trace Flick")
    } else if same_text(archetype, "TraceSlideStartNote") {
        Some("Sekai+ Normal Trace")
    } else if same_text(archetype, "TraceSlideEndNote") {
        Some("Sekai+ Normal Trace")
    } else {
        None
    }
}

/// Looks up the effect that a connector of `archetype` sustains.
pub fn loop_sound_for(archetype: &str) -> (effect: Option<&'static str>)
    ensures
        effect == loop_effect(archetype@),
{
    if same_text(archetype, "NormalSlideConnector") {
        Some("#HOLD")
    } else if same_text(archetype, "CriticalSlideConnector") {
        Some("Sekai Critical Hold")
    } else {
        None
    }
}

/// Looks up the name under which `effect` is shown.
pub fn name_for(effect: &str) -> (name: Option<&'static str>)
    ensures
        name == display_name(effect@),
{
    if same_text(effect, "#PERFECT") {
        Some("通常タップ")
    } else if same_text(effect, "#PERFECT_ALTERNATIVE") {
        Some("通常フリック")
    } else if same_text(effect, "#HOLD") {
        Some("通常ホールド")
    } else if same_text(effect, "Sekai Tick") {
        Some("スライド中継点")
    } else if same_text(effect, "Sekai Critical Tap") {
        Some("金タップ")
    } else if same_text(effect, "Sekai Critical Hold") {
        Some("金ホールド")
    } else if same_text(effect, "Sekai Critical Flick") {
        Some("金フリック")
    } else if same_text(effect, "Sekai Critical Tick") {
        Some("金スライド中継点")
    } else if same_text(effect, "Sekai+ Normal Trace") {
        Some("トレース")
    } else if same_text(effect, "Sekai+ Critical Trace") {
        Some("金トレース")
    } else if same_text(effect, "Sekai+ Normal Trace Flick") {
        Some("トレースフリック")
    } else if same_text(effect, "Sekai+ Critical Trace Flick") {
        Some("金トレースフリック")
    } else {
        None
    }
}

/// Looks up the colours in which `effect` is shown. An effect has colours
/// exactly if it has a display name.
pub fn color_for(effect: &str) -> (color: Option<ClipColor>)
    ensures
        color == clip_color(effect@),
        color is Some <==> display_name(effect@) is Some,
{
    if same_text(effect, "#PERFECT") {
        Some(ClipColor { fg: "cyan", bg: "blue" })
    } else if same_text(effect, "#PERFECT_ALTERNATIVE") {
        Some(ClipColor { fg: "red", bg: "yellow" })
    } else if same_text(effect, "#HOLD") {
        Some(ClipColor { fg: "green", bg: "blue" })
    } else if same_text(effect, "Sekai Tick") {
        Some(ClipColor { fg: "green", bg: "blue" })
    } else if same_text(effect, "Sekai Critical Tap") {
        Some(ClipColor { fg: "yellow", bg: "orange" })
    } else if same_text(effect, "Sekai Critical Hold") {
        Some(ClipColor { fg: "yellow", bg: "orange" })
    } else if same_text(effect, "Sekai Critical Flick") {
        Some(ClipColor { fg: "yellow", bg: "orange" })
    } else if same_text(effect, "Sekai Critical Tick") {
        Some(ClipColor { fg: "yellow", bg: "orange" })
    } else if same_text(effect, "Sekai+ Normal Trace") {
        Some(ClipColor { fg: "black", bg: "white" })
    } else if same_text(effect, "Sekai+ Critical Trace") {
        Some(ClipColor { fg: "yellow", bg: "orange" })
    } else if same_text(effect, "Sekai+ Normal Trace Flick") {
        Some(ClipColor { fg: "red", bg: "yellow" })
    } else if same_text(effect, "Sekai+ Critical Trace Flick") {
        Some(ClipColor { fg: "yellow", bg: "orange" })
    } else {
        None
    }
}

/// The effects of [`instant_effects`], as a list.
pub fn instant_effect_list() -> (list: Vec<&'static str>)
    ensures
        list@ == instant_effects(),
{
    let mut list: Vec<&'static str> = Vec::new();
    list.push("#PERFECT");
    list.push("Sekai Critical Tap");
    list.push("#PERFECT_ALTERNATIVE");
    list.push("Sekai Critical Flick");
    list.push("Sekai Tick");
    list.push("Sekai Critical Tick");
    list.push("Sekai+ Normal Trace");
    list.push("Sekai+ Critical Trace");
    list.push("Sekai+ Normal Trace Flick");
    list.push("Sekai+ Critical Trace Flick");
    assert(list@ =~= instant_effects());
    list
}

/// The effects of [`loop_effects`], as a list.
pub fn loop_effect_list() -> (list: Vec<&'static str>)
    ensures
        list@ == loop_effects(),
{
    let mut list: Vec<&'static str> = Vec::new();
    list.push("#HOLD");
    list.push("Sekai Critical Hold");
    assert(list@ =~= loop_effects());
    list
}

/// No effect stands twice in [`instant_effects`].
pub proof fn lemma_instant_effects_distinct()
    ensures
        forall|i: int, j: int|
            0 <= i < j < instant_effects().len() ==> instant_effects()[i]@ != instant_effects()[j]@,
{
    reveal_strlit("#PERFECT");
    reveal_strlit("Sekai Critical Tap");
    reveal_strlit("#PERFECT_ALTERNATIVE");
    reveal_strlit("Sekai Critical Flick");
    reveal_strlit("Sekai Tick");
    reveal_strlit("Sekai Critical Tick");
    reveal_strlit("Sekai+ Normal Trace");
    reveal_strlit("Sekai+ Critical Trace");
    reveal_strlit("Sekai+ Normal Trace Flick");
    reveal_strlit("Sekai+ Critical Trace Flick");
    assert(instant_effects()[0] == "#PERFECT" && "#PERFECT"@.len() == 8);
    assert(instant_effects()[1] == "Sekai Critical Tap" && "Sekai Critical Tap"@.len() == 18);
    assert(instant_effects()[2] == "#PERFECT_ALTERNATIVE" && "#PERFECT_ALTERNATIVE"@.len() == 20);
    assert(instant_effects()[3] == "Sekai Critical Flick" && "Sekai Critical Flick"@.len() == 20);
    assert(instant_effects()[4] == "Sekai Tick" && "Sekai Tick"@.len() == 10);
    assert(instant_effects()[5] == "Sekai Critical Tick" && "Sekai Critical Tick"@.len() == 19);
    assert(instant_effects()[6] == "Sekai+ Normal Trace" && "Sekai+ Normal Trace"@.len() == 19);
    assert(instant_effects()[7] == "Sekai+ Critical Trace" && "Sekai+ Critical Trace"@.len() == 21);
    assert(instant_effects()[8] == "Sekai+ Normal Trace Flick" && "Sekai+ Normal Trace Flick"@.len() == 25);
    assert(instant_effects()[9] == "Sekai+ Critical Trace Flick" && "Sekai+ Critical Trace Flick"@.len() == 27);
    assert("#PERFECT_ALTERNATIVE"@[0] != "Sekai Critical Flick"@[0]);
    assert("Sekai Critical Tick"@[5] != "Sekai+ Normal Trace"@[5]);
}

/// No effect stands twice in [`loop_effects`].
pub proof fn lemma_loop_effects_distinct()
    ensures
        forall|i: int, j: int|
            0 <= i < j < loop_effects().len() ==> loop_effects()[i]@ != loop_effects()[j]@,
{
    reveal_strlit("#HOLD");
    reveal_strlit("Sekai Critical Hold");
    assert(loop_effects()[0] == "#HOLD" && "#HOLD"@.len() == 5);
    assert(loop_effects()[1] == "Sekai Critical Hold" && "Sekai Critical Hold"@.len() == 19);
}

/// Whether `text` holds no space.
pub open spec fn spaceless(text: Seq<char>) -> bool {
    forall|i: int| 0 <= i < text.len() ==> text[i] != ' '
}

/// Different effects are shown under different names, and no such name
/// holds a space.
pub proof fn lemma_display_names(first: Seq<char>, second: Seq<char>)
    ensures
        display_name(first) matches Some(name) ==> spaceless(name@),
        display_name(first) is Some && display_name(second) is Some && first != second
            ==> display_name(first)->Some_0@ != display_name(second)->Some_0@,
{
    reveal_strlit("通常タップ");
    reveal_strlit("通常フリック");
    reveal_strlit("通常ホールド");
    reveal_strlit("スライド中継点");
    reveal_strlit("金タップ");
    reveal_strlit("金ホールド");
    reveal_strlit("金フリック");
    reveal_strlit("金スライド中継点");
    reveal_strlit("トレース");
    reveal_strlit("金トレース");
    reveal_strlit("トレースフリック");
    reveal_strlit("金トレースフリック");
    assert("通常タップ"@.len() == 5);
    assert("通常フリック"@.len() == 6);
    assert("通常ホールド"@.len() == 6);
    assert("スライド中継点"@.len() == 7);
    assert("金タップ"@.len() == 4);
    assert("金ホールド"@.len() == 5);
    assert("金フリック"@.len() == 5);
    assert("金スライド中継点"@.len() == 8);
    assert("トレース"@.len() == 4);
    assert("金トレース"@.len() == 5);
    assert("トレースフリック"@.len() == 8);
    assert("金トレースフリック"@.len() == 9);
    assert("通常タップ"@[0] != "金ホールド"@[0]);
    assert("通常タップ"@[0] != "金フリック"@[0]);
    assert("通常タップ"@[0] != "金トレース"@[0]);
    assert("通常フリック"@[2] != "通常ホールド"@[2]);
    assert("金タップ"@[0] != "トレース"@[0]);
    assert("金ホールド"@[1] != "金フリック"@[1]);
    assert("金ホールド"@[1] != "金トレース"@[1]);
    assert("金フリック"@[1] != "金トレース"@[1]);
    assert("金スライド中継点"@[0] != "トレースフリック"@[0]);
}

} // verus!
