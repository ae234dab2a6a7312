//! Text animation presets: the entrance and exit presets, the character-reveal
//! styles, the ids of the keyframes a preset writes, and where its window sits.
use vstd::prelude::*;

use crate::chars::{decimal, push_decimal, push_str, str_equal, string_of};

verus! {

/// Whether an animation plays as the text enters or as it leaves.
#[derive(Clone, Copy, Debug, PartialEq, Eq, Structural)]
pub enum Direction {
    In,
    Out,
}

impl Direction {
    pub open spec fn spec_key(self) -> Seq<char> {
        match self {
            Direction::In => seq!['i', 'n'],
            Direction::Out => seq!['o', 'u', 't'],
        }
    }

    /// The short name of the direction, used in keyframe ids.
    pub fn key(self) -> (key: &'static str)
        ensures
            key@ == self.spec_key(),
    {
        proof {
            reveal_strlit("in");
            reveal_strlit("out");
        }
        match self {
            Direction::In => "in",
            Direction::Out => "out",
        }
    }

    /// The translation key of the direction's label.
    pub fn label_key(self) -> (key: &'static str)
        ensures
            key@ == (match self {
                Direction::In => "text.animation.in"@,
                Direction::Out => "text.animation.out"@,
            }),
    {
        match self {
            Direction::In => "text.animation.in",
            Direction::Out => "text.animation.out",
        }
    }
}

pub const PATH_POSITION_X: &'static str = "transform.positionX";

pub const PATH_POSITION_Y: &'static str = "transform.positionY";

pub const PATH_SCALE_X: &'static str = "transform.scaleX";

pub const PATH_SCALE_Y: &'static str = "transform.scaleY";

pub const PATH_OPACITY: &'static str = "opacity";

/// An entrance or exit animation: its id, the translation key of its name and when it
/// plays. How it moves the text is drawn by the editor.
#[derive(Clone, Copy, Debug)]
pub struct AnimationPreset {
    pub id: &'static str,
    pub name_key: &'static str,
    pub direction: Direction,
}

/// Each preset's id, name key and direction, in the order the panel offers them.
pub open spec fn preset_table() -> Seq<(Seq<char>, Seq<char>, Direction)> {
    seq![
        ("fade-in"@, "text.animation.fadeIn"@, Direction::In),
        ("slide-in-left"@, "text.animation.slideInLeft"@, Direction::In),
        ("slide-in-right"@, "text.animation.slideInRight"@, Direction::In),
        ("slide-in-up"@, "text.animation.slideInUp"@, Direction::In),
        ("slide-in-down"@, "text.animation.slideInDown"@, Direction::In),
        ("pop-in"@, "text.animation.popIn"@, Direction::In),
        ("bounce-in"@, "text.animation.bounceIn"@, Direction::In),
        ("fade-out"@, "text.animation.fadeOut"@, Direction::Out),
        ("slide-out-left"@, "text.animation.slideOutLeft"@, Direction::Out),
        ("slide-out-right"@, "text.animation.slideOutRight"@, Direction::Out),
        ("slide-out-up"@, "text.animation.slideOutUp"@, Direction::Out),
        ("slide-out-down"@, "text.animation.slideOutDown"@, Direction::Out),
        ("pop-out"@, "text.animation.popOut"@, Direction::Out),
    ]
}

/// The preset `p` is row `row` of the table.
pub open spec fn preset_is(p: AnimationPreset, row: (Seq<char>, Seq<char>, Direction)) -> bool {
    p.id@ == row.0 && p.name_key@ == row.1 && p.direction == row.2
}

/// The entrance and exit presets, in the order the panel offers them.
pub fn animation_presets() -> (presets: Vec<AnimationPreset>)
    ensures
        presets@.len() == preset_table().len(),
        forall|i: int| 0 <= i < presets@.len() ==> preset_is(#[trigger] presets@[i], preset_table()[i]),
{
    let mut presets: Vec<AnimationPreset> = Vec::new();
    presets.push(AnimationPreset { id: "fade-in", name_key: "text.animation.fadeIn", direction: Direction::In });
    presets.push(AnimationPreset { id: "slide-in-left", name_key: "text.animation.slideInLeft", direction: Direction::In });
    presets.push(AnimationPreset { id: "slide-in-right", name_key: "text.animation.slideInRight", direction: Direction::In });
    presets.push(AnimationPreset { id: "slide-in-up", name_key: "text.animation.slideInUp", direction: Direction::In });
    presets.push(AnimationPreset { id: "slide-in-down", name_key: "text.animation.slideInDown", direction: Direction::In });
    presets.push(AnimationPreset { id: "pop-in", name_key: "text.animation.popIn", direction: Direction::In });
    presets.push(AnimationPreset { id: "bounce-in", name_key: "text.animation.bounceIn", direction: Direction::In });
    presets.push(AnimationPreset { id: "fade-out", name_key: "text.animation.fadeOut", direction: Direction::Out });
    presets.push(AnimationPreset { id: "slide-out-left", name_key: "text.animation.slideOutLeft", direction: Direction::Out });
    presets.push(AnimationPreset { id: "slide-out-right", name_key: "text.animation.slideOutRight", direction: Direction::Out });
    presets.push(AnimationPreset { id: "slide-out-up", name_key: "text.animation.slideOutUp", direction: Direction::Out });
    presets.push(AnimationPreset { id: "slide-out-down", name_key: "text.animation.slideOutDown", direction: Direction::Out });
    presets.push(AnimationPreset { id: "pop-out", name_key: "text.animation.popOut", direction: Direction::Out });
    proof {
        assert forall|i: int| 0 <= i < presets@.len() implies preset_is(#[trigger] presets@[i], preset_table()[i]) by {
        }
    }
    presets
}

/// The rows of the table that play in `direction`, in order.
pub open spec fn rows_for(rows: Seq<(Seq<char>, Seq<char>, Direction)>, direction: Direction) -> Seq<(Seq<char>, Seq<char>, Direction)>
    decreases rows.len(),
{
    if rows.len() == 0 {
        Seq::empty()
    } else if rows.last().2 == direction {
        rows_for(rows.drop_last(), direction).push(rows.last())
    } else {
        rows_for(rows.drop_last(), direction)
    }
}

/// The presets that play in `direction`, in the panel's order.
pub fn presets_for(direction: Direction) -> (presets: Vec<AnimationPreset>)
    ensures
        presets@.len() == rows_for(preset_table(), direction).len(),
        forall|i: int| 0 <= i < presets@.len() ==> preset_is(#[trigger] presets@[i], rows_for(preset_table(), direction)[i]),
{
    let all = animation_presets();
    let ghost table = preset_table();
    let mut presets: Vec<AnimationPreset> = Vec::new();
    let mut i: usize = 0;
    while i < all.len()
        invariant
            i <= all@.len(),
            all@.len() == table.len(),
            table == preset_table(),
            forall|j: int| 0 <= j < all@.len() ==> preset_is(#[trigger] all@[j], table[j]),
            presets@.len() == rows_for(table.take(i as int), direction).len(),
            forall|j: int| 0 <= j < presets@.len() ==> preset_is(#[trigger] presets@[j], rows_for(table.take(i as int), direction)[j]),
        decreases all@.len() - i,
    {
        assert(table.take(i + 1).drop_last() =~= table.take(i as int));
        assert(table.take(i + 1).last() == table[i as int]);
        assert(preset_is(all@[i as int], table[i as int]));
        if all[i].direction == direction {
            presets.push(all[i]);
        }
        i = i + 1;
    }
    assert(table.take(all@.len() as int) =~= table);
    presets
}

/// The preset called `id`.
pub fn preset(id: &str) -> (found: Option<AnimationPreset>)
    ensures
        match found {
            Some(p) => exists|i: int| 0 <= i < preset_table().len() && preset_is(p, #[trigger] preset_table()[i]) && p.id@ == id@,
            None => forall|i: int| 0 <= i < preset_table().len() ==> (#[trigger] preset_table()[i]).0 != id@,
        },
{
    let all = animation_presets();
    let mut i: usize = 0;
    while i < all.len()
        invariant
            i <= all@.len(),
            all@.len() == preset_table().len(),
            forall|j: int| 0 <= j < all@.len() ==> preset_is(#[trigger] all@[j], preset_table()[j]),
            forall|j: int| 0 <= j < i ==> (#[trigger] preset_table()[j]).0 != id@,
        decreases all@.len() - i,
    {
        assert(preset_is(all@[i as int], preset_table()[i as int]));
        if str_equal(all[i].id, id) {
            return Some(all[i]);
        }
        i = i + 1;
    }
    None
}

/// A style that reveals text character by character.
#[derive(Clone, Copy, Debug)]
pub struct RevealPreset {
    pub id: &'static str,
    pub name_key: &'static str,
}

/// The reveal styles, in the order the panel offers them.
pub fn reveal_presets() -> (presets: Vec<RevealPreset>)
    ensures
        presets@.len() == 3,
        presets@[0].id@ == "typewriter"@,
        presets@[0].name_key@ == "text.animation.typewriter"@,
        presets@[1].id@ == "char-fade"@,
        presets@[1].name_key@ == "text.animation.charFade"@,
        presets@[2].id@ == "char-pop"@,
        presets@[2].name_key@ == "text.animation.charPop"@,
{
    let mut presets: Vec<RevealPreset> = Vec::new();
    presets.push(RevealPreset { id: "typewriter", name_key: "text.animation.typewriter" });
    presets.push(RevealPreset { id: "char-fade", name_key: "text.animation.charFade" });
    presets.push(RevealPreset { id: "char-pop", name_key: "text.animation.charPop" });
    presets
}

/// Whether `value` names one of the reveal styles.
pub fn is_reveal_style(value: &str) -> (r: bool)
    ensures
        r == (value@ == "typewriter"@ || value@ == "char-fade"@ || value@ == "char-pop"@),
{
    let presets = reveal_presets();
    let mut i: usize = 0;
    while i < presets.len()
        invariant
            i <= 3,
            presets@.len() == 3,
            presets@[0].id@ == "typewriter"@,
            presets@[1].id@ == "char-fade"@,
            presets@[2].id@ == "char-pop"@,
            forall|j: int| 0 <= j < i ==> value@ != presets@[j].id@,
        decreases 3 - i,
    {
        if str_equal(presets[i].id, value) {
            return true;
        }
        i = i + 1;
    }
    false
}

/// The id of the `index`-th keyframe a preset writes for `path`.
pub open spec fn spec_keyframe_id(direction: Direction, path: Seq<char>, index: nat) -> Seq<char> {
    seq!['t', 'e', 'x', 't', '-', 'a', 'n', 'i', 'm', '-'] + direction.spec_key() + seq!['-']
        + path + seq!['-'] + decimal(index)
}

/// `text-anim-<direction>-<path>-<index>`.
pub fn keyframe_id(direction: Direction, path: &str, index: usize) -> (id: String)
    ensures
        id@ == spec_keyframe_id(direction, path@, index as nat),
{
    let mut out: Vec<char> = vec!['t', 'e', 'x', 't', '-', 'a', 'n', 'i', 'm', '-'];
    push_str(&mut out, direction.key());
    out.push('-');
    push_str(&mut out, path);
    out.push('-');
    push_decimal(&mut out, index as u64);
    assert(out@ =~= spec_keyframe_id(direction, path@, index as nat));
    string_of(out.as_slice())
}

// ---------------------------------------------------------------------------------
// Animation windows, in ticks

/// The length of an animation window: `duration`, at least `shortest`, and no longer
/// than the element or `longest` (unless `shortest` is longer still).
pub open spec fn spec_clamp_window(duration: int, element: int, shortest: int, longest: int) -> int {
    let ceiling = if longest < element {
        longest
    } else {
        element
    };
    let ceiling = if ceiling < shortest {
        shortest
    } else {
        ceiling
    };
    let floored = if duration < shortest {
        shortest
    } else {
        duration
    };
    if floored < ceiling {
        floored
    } else {
        ceiling
    }
}

/// Holds an animation's `duration` between `shortest` and the shorter of `longest` and
/// the element's length.
pub fn clamp_window(duration: i64, element: i64, shortest: i64, longest: i64) -> (r: i64)
    ensures
        r == spec_clamp_window(duration as int, element as int, shortest as int, longest as int),
{
    let ceiling = if longest < element {
        longest
    } else {
        element
    };
    let ceiling = if ceiling < shortest {
        shortest
    } else {
        ceiling
    };
    let floored = if duration < shortest {
        shortest
    } else {
        duration
    };
    if floored < ceiling {
        floored
    } else {
        ceiling
    }
}

/// A clamped window is never shorter than `shortest`, never longer than the element or
/// `longest` unless `shortest` forces it, keeps a duration that already fits, and
/// clamping it again changes nothing.
pub proof fn law_clamped_windows_fit(duration: int, element: int, shortest: int, longest: int)
    ensures
        spec_clamp_window(duration, element, shortest, longest) >= shortest,
        spec_clamp_window(duration, element, shortest, longest) <= element
            || spec_clamp_window(duration, element, shortest, longest) == shortest,
        spec_clamp_window(duration, element, shortest, longest) <= longest
            || spec_clamp_window(duration, element, shortest, longest) == shortest,
        shortest <= duration <= element && duration <= longest ==> spec_clamp_window(
            duration,
            element,
            shortest,
            longest,
        ) == duration,
        spec_clamp_window(spec_clamp_window(duration, element, shortest, longest), element, shortest, longest)
            == spec_clamp_window(duration, element, shortest, longest),
{
}

/// The shortest entrance or exit: a tenth of a second, for a clock of
/// `ticks_per_second`.
pub fn min_duration(ticks_per_second: i64) -> (ticks: i64)
    requires
        0 < ticks_per_second,
    ensures
        ticks == ticks_per_second / 10,
{
    ticks_per_second / 10
}

/// The longest entrance or exit: five seconds.
pub fn max_duration(ticks_per_second: i64) -> (ticks: i64)
    requires
        0 < ticks_per_second,
        ticks_per_second * 10 <= i64::MAX,
    ensures
        ticks == ticks_per_second * 5,
{
    ticks_per_second * 5
}

/// An entrance or exit as it is first added: half a second.
pub fn default_duration(ticks_per_second: i64) -> (ticks: i64)
    requires
        0 < ticks_per_second,
    ensures
        ticks == ticks_per_second / 2,
{
    ticks_per_second / 2
}

/// The shortest character reveal: a tenth of a second.
pub fn reveal_min_duration(ticks_per_second: i64) -> (ticks: i64)
    requires
        0 < ticks_per_second,
    ensures
        ticks == ticks_per_second / 10,
{
    ticks_per_second / 10
}

/// The longest character reveal: ten seconds.
pub fn reveal_max_duration(ticks_per_second: i64) -> (ticks: i64)
    requires
        0 < ticks_per_second,
        ticks_per_second * 10 <= i64::MAX,
    ensures
        ticks == ticks_per_second * 10,
{
    ticks_per_second * 10
}

/// A character reveal as it is first added: a second and a half.
pub fn reveal_default_duration(ticks_per_second: i64) -> (ticks: i64)
    requires
        0 < ticks_per_second,
        ticks_per_second * 10 <= i64::MAX,
    ensures
        ticks == ticks_per_second * 3 / 2,
{
    ticks_per_second * 3 / 2
}

/// The length of an entrance or exit of `duration` ticks on an element of `element`
/// ticks: between a tenth of a second and the shorter of five seconds and the element.
pub fn clamp_duration(duration: i64, element: i64, ticks_per_second: i64) -> (ticks: i64)
    requires
        0 < ticks_per_second,
        ticks_per_second * 10 <= i64::MAX,
    ensures
        ticks == spec_clamp_window(
            duration as int,
            element as int,
            ticks_per_second / 10,
            ticks_per_second * 5,
        ),
{
    clamp_window(duration, element, min_duration(ticks_per_second), max_duration(ticks_per_second))
}

/// The length of a character reveal of `duration` ticks on an element of `element`
/// ticks: between a tenth of a second and the shorter of ten seconds and the element.
pub fn clamp_reveal_duration(duration: i64, element: i64, ticks_per_second: i64) -> (ticks: i64)
    requires
        0 < ticks_per_second,
        ticks_per_second * 10 <= i64::MAX,
    ensures
        ticks == spec_clamp_window(
            duration as int,
            element as int,
            ticks_per_second / 10,
            ticks_per_second * 10,
        ),
{
    clamp_window(
        duration,
        element,
        reveal_min_duration(ticks_per_second),
        reveal_max_duration(ticks_per_second),
    )
}

/// Where an animation window of `window` ticks starts in an element of `element`
/// ticks: entrances at the head, exits so that they end with the element (at the head
/// when the element is shorter).
pub open spec fn spec_window_start(direction: Direction, element: int, window: int) -> int {
    match direction {
        Direction::In => 0,
        Direction::Out => if element - window > 0 {
            element - window
        } else {
            0
        },
    }
}

pub fn window_start(direction: Direction, element: i64, window: i64) -> (start: i64)
    requires
        i64::MIN <= element - window <= i64::MAX,
    ensures
        start == spec_window_start(direction, element as int, window as int),
{
    match direction {
        Direction::In => 0,
        Direction::Out => {
            let start = element - window;
            if start > 0 {
                start
            } else {
                0
            }
        },
    }
}

/// An exit window that fits in its element ends exactly where the element ends.
pub proof fn law_exits_end_with_the_element(element: int, window: int)
    requires
        0 <= window <= element,
    ensures
        spec_window_start(Direction::Out, element, window) + window == element,
        spec_window_start(Direction::In, element, window) == 0,
{
}

} // verus!
