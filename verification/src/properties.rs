//! The properties panel's tabs: which tabs each kind of timeline element offers and
//! which one opens.
use vstd::prelude::*;

use crate::chars::{chars_of, str_equal, string_of};

verus! {

/// The kinds of elements on the timeline.
#[derive(Clone, Copy, Debug, PartialEq, Eq, Structural)]
pub enum ElementKind {
    Video,
    Image,
    Audio,
    Text,
    Sticker,
    Graphic,
    Effect,
}

/// The key under which the panel remembers the last tab of an element kind.
pub fn element_type_key(kind: ElementKind) -> (key: &'static str)
    ensures
        key@ == (match kind {
            ElementKind::Video => "video"@,
            ElementKind::Image => "image"@,
            ElementKind::Audio => "audio"@,
            ElementKind::Text => "text"@,
            ElementKind::Sticker => "sticker"@,
            ElementKind::Graphic => "graphic"@,
            ElementKind::Effect => "effect"@,
        }),
{
    match kind {
        ElementKind::Video => "video",
        ElementKind::Image => "image",
        ElementKind::Audio => "audio",
        ElementKind::Text => "text",
        ElementKind::Sticker => "sticker",
        ElementKind::Graphic => "graphic",
        ElementKind::Effect => "effect",
    }
}

/// Each tab a kind of element offers, in order: its id, its icon and the translation
/// key of its label.
pub open spec fn tab_table(kind: ElementKind) -> Seq<(Seq<char>, Seq<char>, Seq<char>)> {
    match kind {
        ElementKind::Video => seq![
            ("transform"@, "arrow-expand"@, "properties.transform"@),
            ("crop"@, "crop"@, "properties.crop"@),
            ("mask"@, "layers01"@, "properties.masks"@),
            ("cutout"@, "checkerboard"@, "cutout.title"@),
            ("tracking"@, "search01"@, "tracking.title"@),
            ("stabilize"@, "magnet"@, "stabilize.title"@),
            ("reframe"@, "full-screen"@, "reframe.title"@),
            ("audio"@, "music-note03"@, "properties.audio"@),
            ("speed"@, "dashboard-speed"@, "properties.speed"@),
            ("blending"@, "rain-drop"@, "properties.blending"@),
            ("transition"@, "arrow-right-double"@, "transitions.title"@),
            ("effects"@, "magic-wand05"@, "properties.effects"@),
        ],
        ElementKind::Image => seq![
            ("transform"@, "arrow-expand"@, "properties.transform"@),
            ("crop"@, "crop"@, "properties.crop"@),
            ("mask"@, "layers01"@, "properties.masks"@),
            ("cutout"@, "checkerboard"@, "cutout.title"@),
            ("blending"@, "rain-drop"@, "properties.blending"@),
            ("transition"@, "arrow-right-double"@, "transitions.title"@),
            ("effects"@, "magic-wand05"@, "properties.effects"@),
        ],
        ElementKind::Audio => seq![
            ("audio"@, "music-note03"@, "properties.audio"@),
            ("speed"@, "dashboard-speed"@, "properties.speed"@),
        ],
        ElementKind::Text => seq![
            ("text"@, "text-font"@, "editor.panel.text"@),
            ("animation"@, "magic-wand05"@, "text.animations"@),
            ("transform"@, "arrow-expand"@, "properties.transform"@),
            ("blending"@, "rain-drop"@, "properties.blending"@),
            ("effects"@, "magic-wand05"@, "properties.effects"@),
        ],
        ElementKind::Sticker => seq![
            ("transform"@, "arrow-expand"@, "properties.transform"@),
            ("crop"@, "crop"@, "properties.crop"@),
            ("blending"@, "rain-drop"@, "properties.blending"@),
            ("effects"@, "magic-wand05"@, "properties.effects"@),
        ],
        ElementKind::Graphic => seq![
            ("graphic"@, "happy01"@, "properties.shape"@),
            ("transform"@, "arrow-expand"@, "properties.transform"@),
            ("crop"@, "crop"@, "properties.crop"@),
            ("mask"@, "layers01"@, "properties.masks"@),
            ("blending"@, "rain-drop"@, "properties.blending"@),
            ("effects"@, "magic-wand05"@, "properties.effects"@),
        ],
        ElementKind::Effect => seq![
            ("effects"@, "magic-wand05"@, "properties.effects"@),
        ],
    }
}

/// The text of each tab's id, icon and label key.
pub open spec fn tabs_view(tabs: Seq<(&'static str, &'static str, &'static str)>) -> Seq<
    (Seq<char>, Seq<char>, Seq<char>),
> {
    tabs.map_values(|t: (&'static str, &'static str, &'static str)| (t.0@, t.1@, t.2@))
}

/// The tabs the panel shows for an element of `kind`.
pub fn tabs_for(kind: ElementKind) -> (tabs: Vec<(&'static str, &'static str, &'static str)>)
    ensures
        tabs_view(tabs@) == tab_table(kind),
{
    let mut tabs: Vec<(&'static str, &'static str, &'static str)> = Vec::new();
    match kind {
        ElementKind::Video => {
            tabs.push(("transform", "arrow-expand", "properties.transform"));
            tabs.push(("crop", "crop", "properties.crop"));
            tabs.push(("mask", "layers01", "properties.masks"));
            tabs.push(("cutout", "checkerboard", "cutout.title"));
            tabs.push(("tracking", "search01", "tracking.title"));
            tabs.push(("stabilize", "magnet", "stabilize.title"));
            tabs.push(("reframe", "full-screen", "reframe.title"));
            tabs.push(("audio", "music-note03", "properties.audio"));
            tabs.push(("speed", "dashboard-speed", "properties.speed"));
            tabs.push(("blending", "rain-drop", "properties.blending"));
            tabs.push(("transition", "arrow-right-double", "transitions.title"));
            tabs.push(("effects", "magic-wand05", "properties.effects"));
        },
        ElementKind::Image => {
            tabs.push(("transform", "arrow-expand", "properties.transform"));
            tabs.push(("crop", "crop", "properties.crop"));
            tabs.push(("mask", "layers01", "properties.masks"));
            tabs.push(("cutout", "checkerboard", "cutout.title"));
            tabs.push(("blending", "rain-drop", "properties.blending"));
            tabs.push(("transition", "arrow-right-double", "transitions.title"));
            tabs.push(("effects", "magic-wand05", "properties.effects"));
        },
        ElementKind::Audio => {
            tabs.push(("audio", "music-note03", "properties.audio"));
            tabs.push(("speed", "dashboard-speed", "properties.speed"));
        },
        ElementKind::Text => {
            tabs.push(("text", "text-font", "editor.panel.text"));
            tabs.push(("animation", "magic-wand05", "text.animations"));
            tabs.push(("transform", "arrow-expand", "properties.transform"));
            tabs.push(("blending", "rain-drop", "properties.blending"));
            tabs.push(("effects", "magic-wand05", "properties.effects"));
        },
        ElementKind::Sticker => {
            tabs.push(("transform", "arrow-expand", "properties.transform"));
            tabs.push(("crop", "crop", "properties.crop"));
            tabs.push(("blending", "rain-drop", "properties.blending"));
            tabs.push(("effects", "magic-wand05", "properties.effects"));
        },
        ElementKind::Graphic => {
            tabs.push(("graphic", "happy01", "properties.shape"));
            tabs.push(("transform", "arrow-expand", "properties.transform"));
            tabs.push(("crop", "crop", "properties.crop"));
            tabs.push(("mask", "layers01", "properties.masks"));
            tabs.push(("blending", "rain-drop", "properties.blending"));
            tabs.push(("effects", "magic-wand05", "properties.effects"));
        },
        ElementKind::Effect => {
            tabs.push(("effects", "magic-wand05", "properties.effects"));
        },
    }
    assert(tabs_view(tabs@) =~= tab_table(kind));
    tabs
}

/// Whether `id` is one of the tabs of `kind`.
pub open spec fn has_tab(kind: ElementKind, id: Seq<char>) -> bool {
    exists|i: int| 0 <= i < tab_table(kind).len() && (#[trigger] tab_table(kind)[i]).0 == id
}

/// The tab that opens for an element of `kind`: the one last used for that kind when
/// the kind offers it, else its first tab.
pub open spec fn spec_active_tab(kind: ElementKind, remembered: Option<Seq<char>>) -> Seq<char> {
    match remembered {
        Some(id) => if has_tab(kind, id) {
            id
        } else {
            tab_table(kind)[0].0
        },
        None => tab_table(kind)[0].0,
    }
}

/// The text of an optional string.
pub open spec fn opt_text(o: Option<&str>) -> Option<Seq<char>> {
    match o {
        Some(s) => Some(s@),
        None => None,
    }
}

pub fn active_tab(kind: ElementKind, remembered: Option<&str>) -> (tab: String)
    ensures
        tab@ == spec_active_tab(kind, opt_text(remembered)),
{
    let tabs = tabs_for(kind);
    proof {
        assert(tabs_view(tabs@).len() == tabs@.len());
        assert(tab_table(kind).len() > 0);
    }
    if let Some(id) = remembered {
        let mut i: usize = 0;
        while i < tabs.len()
            invariant
                i <= tabs@.len(),
                remembered == Some(id),
                tabs@.len() == tab_table(kind).len(),
                tabs_view(tabs@) == tab_table(kind),
                forall|j: int| 0 <= j < i ==> (#[trigger] tab_table(kind)[j]).0 != id@,
            decreases tabs@.len() - i,
        {
            assert(tabs_view(tabs@)[i as int].0 == tabs@[i as int].0@);
            if str_equal(tabs[i].0, id) {
                assert(tab_table(kind)[i as int].0 == id@);
                assert(i < tab_table(kind).len());
                assert(has_tab(kind, id@));
                assert(spec_active_tab(kind, opt_text(remembered)) == id@);
                return string_of(chars_of(id).as_slice());
            }
            i = i + 1;
        }
    }
    assert(tabs_view(tabs@)[0].0 == tabs@[0].0@);
    string_of(chars_of(tabs[0].0).as_slice())
}

/// The tab that opens is always one the element offers.
pub proof fn law_the_open_tab_is_offered(kind: ElementKind, remembered: Option<Seq<char>>)
    ensures
        has_tab(kind, spec_active_tab(kind, remembered)),
{
    assert(tab_table(kind).len() > 0);
    assert(tab_table(kind)[0].0 == tab_table(kind)[0].0);
}

/// Whether a video tab stays when the element is a still image: everything but tracking,
/// stabilising, reframing, audio and speed.
pub open spec fn still_image_tab(t: (Seq<char>, Seq<char>, Seq<char>)) -> bool {
    &&& t.0 != "tracking"@
    &&& t.0 != "stabilize"@
    &&& t.0 != "reframe"@
    &&& t.0 != "audio"@
    &&& t.0 != "speed"@
}

proof fn lemma_filter_step(
    s: Seq<(Seq<char>, Seq<char>, Seq<char>)>,
    pred: spec_fn((Seq<char>, Seq<char>, Seq<char>)) -> bool,
    k: int,
)
    requires
        0 <= k < s.len(),
    ensures
        s.take(k + 1).filter(pred) == if pred(s[k]) {
            s.take(k).filter(pred).push(s[k])
        } else {
            s.take(k).filter(pred)
        },
{
    reveal(Seq::filter);
    assert(s.take(k + 1).drop_last() =~= s.take(k));
    assert(s.take(k + 1).last() == s[k]);
}

/// Every visual kind that can be masked (video, image, graphic) offers the mask tab, and
/// a remembered mask tab opens for it; an image offers the video tabs in the same order,
/// but for tracking, stabilising, reframing, audio and speed.
pub proof fn law_masked_kinds_offer_the_mask_tab()
    ensures
        has_tab(ElementKind::Video, "mask"@),
        has_tab(ElementKind::Image, "mask"@),
        has_tab(ElementKind::Graphic, "mask"@),
        spec_active_tab(ElementKind::Image, Some("mask"@)) == "mask"@,
        tab_table(ElementKind::Image) == tab_table(ElementKind::Video).filter(
            |t: (Seq<char>, Seq<char>, Seq<char>)| still_image_tab(t),
        ),
{
    assert(tab_table(ElementKind::Video)[2].0 == "mask"@);
    assert(tab_table(ElementKind::Image)[2].0 == "mask"@);
    assert(tab_table(ElementKind::Graphic)[3].0 == "mask"@);
    reveal_strlit("transform");
    reveal_strlit("crop");
    reveal_strlit("mask");
    reveal_strlit("cutout");
    reveal_strlit("tracking");
    reveal_strlit("stabilize");
    reveal_strlit("reframe");
    reveal_strlit("audio");
    reveal_strlit("speed");
    reveal_strlit("blending");
    reveal_strlit("transition");
    reveal_strlit("effects");
    let v = tab_table(ElementKind::Video);
    let pred = |t: (Seq<char>, Seq<char>, Seq<char>)| still_image_tab(t);
    let img = tab_table(ElementKind::Image);
    reveal(Seq::filter);
    assert(v.take(0) =~= Seq::<(Seq<char>, Seq<char>, Seq<char>)>::empty());
    assert(v.take(0).filter(pred) =~= img.take(0));
    assert("transform"@.len() == 9);
    assert("crop"@.len() == 4);
    assert("mask"@.len() == 4);
    assert("cutout"@.len() == 6);
    assert("tracking"@.len() == 8);
    assert("stabilize"@.len() == 9);
    assert("reframe"@.len() == 7);
    assert("audio"@.len() == 5);
    assert("speed"@.len() == 5);
    assert("blending"@.len() == 8);
    assert("transition"@.len() == 10);
    assert("effects"@.len() == 7);
    assert("transform"@[0] != "stabilize"@[0]);
    assert("crop"@[0] != "mask"@[0]);
    assert("audio"@[0] != "speed"@[0]);
    assert("blending"@[0] != "tracking"@[0]);
    assert("effects"@[0] != "reframe"@[0]);
    assert(v[0] == img[0]);
    assert(still_image_tab(v[0]));
    assert(pred(v[0]));
    lemma_filter_step(v, pred, 0);
    assert(v.take(1).filter(pred) =~= img.take(1));
    assert(v[1] == img[1]);
    assert(still_image_tab(v[1]));
    assert(pred(v[1]));
    lemma_filter_step(v, pred, 1);
    assert(v.take(2).filter(pred) =~= img.take(2));
    assert(v[2] == img[2]);
    assert(still_image_tab(v[2]));
    assert(pred(v[2]));
    lemma_filter_step(v, pred, 2);
    assert(v.take(3).filter(pred) =~= img.take(3));
    assert(v[3] == img[3]);
    assert(still_image_tab(v[3]));
    assert(pred(v[3]));
    lemma_filter_step(v, pred, 3);
    assert(v.take(4).filter(pred) =~= img.take(4));
    assert(!still_image_tab(v[4]));
    assert(!pred(v[4]));
    lemma_filter_step(v, pred, 4);
    assert(v.take(5).filter(pred) =~= img.take(4));
    assert(!still_image_tab(v[5]));
    assert(!pred(v[5]));
    lemma_filter_step(v, pred, 5);
    assert(v.take(6).filter(pred) =~= img.take(4));
    assert(!still_image_tab(v[6]));
    assert(!pred(v[6]));
    lemma_filter_step(v, pred, 6);
    assert(v.take(7).filter(pred) =~= img.take(4));
    assert(!still_image_tab(v[7]));
    assert(!pred(v[7]));
    lemma_filter_step(v, pred, 7);
    assert(v.take(8).filter(pred) =~= img.take(4));
    assert(!still_image_tab(v[8]));
    assert(!pred(v[8]));
    lemma_filter_step(v, pred, 8);
    assert(v.take(9).filter(pred) =~= img.take(4));
    assert(v[9] == img[4]);
    assert(still_image_tab(v[9]));
    assert(pred(v[9]));
    lemma_filter_step(v, pred, 9);
    assert(v.take(10).filter(pred) =~= img.take(5));
    assert(v[10] == img[5]);
    assert(still_image_tab(v[10]));
    assert(pred(v[10]));
    lemma_filter_step(v, pred, 10);
    assert(v.take(11).filter(pred) =~= img.take(6));
    assert(v[11] == img[6]);
    assert(still_image_tab(v[11]));
    assert(pred(v[11]));
    lemma_filter_step(v, pred, 11);
    assert(v.take(12).filter(pred) =~= img.take(7));
    assert(v.take(12) =~= v);
    assert(img.take(7) =~= img);
}

/// The tabs kinds share: every kind but audio offers effects; every visual kind offers
/// transform and blending; video, images, stickers and graphics can be cropped; video
/// and audio offer audio and speed.
pub proof fn law_kinds_share_their_common_tabs(kind: ElementKind)
    ensures
        kind != ElementKind::Audio ==> has_tab(kind, "effects"@),
        kind != ElementKind::Audio && kind != ElementKind::Effect ==> has_tab(kind, "transform"@)
            && has_tab(kind, "blending"@),
        (kind == ElementKind::Video || kind == ElementKind::Image || kind == ElementKind::Sticker
            || kind == ElementKind::Graphic) ==> has_tab(kind, "crop"@),
        (kind == ElementKind::Video || kind == ElementKind::Audio) ==> has_tab(kind, "audio"@)
            && has_tab(kind, "speed"@),
{
    let t = tab_table(kind);
    match kind {
        ElementKind::Video => {
            assert(t[0].0 == "transform"@ && t[1].0 == "crop"@ && t[7].0 == "audio"@);
            assert(t[8].0 == "speed"@ && t[9].0 == "blending"@ && t[11].0 == "effects"@);
        },
        ElementKind::Image => {
            assert(t[0].0 == "transform"@ && t[1].0 == "crop"@ && t[4].0 == "blending"@);
            assert(t[6].0 == "effects"@);
        },
        ElementKind::Audio => {
            assert(t[0].0 == "audio"@ && t[1].0 == "speed"@);
        },
        ElementKind::Text => {
            assert(t[2].0 == "transform"@ && t[3].0 == "blending"@ && t[4].0 == "effects"@);
        },
        ElementKind::Sticker => {
            assert(t[0].0 == "transform"@ && t[1].0 == "crop"@ && t[2].0 == "blending"@);
            assert(t[3].0 == "effects"@);
        },
        ElementKind::Graphic => {
            assert(t[1].0 == "transform"@ && t[2].0 == "crop"@ && t[4].0 == "blending"@);
            assert(t[5].0 == "effects"@);
        },
        ElementKind::Effect => {
            assert(t[0].0 == "effects"@);
        },
    }
}

} // verus!
