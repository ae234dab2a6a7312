//! The editor's theme: which layer of design tokens gives a colour its value, and the
//! whole-pixel measures of the timeline, shared with the web editor's stylesheet.
use vstd::prelude::*;

use crate::chars::str_equal;

verus! {

/// Width of the column holding the track labels.
pub const TIMELINE_TRACK_LABELS_COLUMN_WIDTH_PX: u32 = 112;

/// Height of the time ruler.
pub const TIMELINE_RULER_HEIGHT_PX: u32 = 22;

/// Height of the bookmark row under the ruler.
pub const TIMELINE_BOOKMARK_ROW_HEIGHT_PX: u32 = 16;

/// Space between the bookmark row and the first track.
pub const TIMELINE_CONTENT_TOP_PADDING_PX: u32 = 2;

/// Space between two tracks.
pub const TIMELINE_TRACK_GAP_PX: u32 = 6;

/// Height of the toolbar above the timeline.
pub const TIMELINE_TOOLBAR_HEIGHT_PX: u32 = 40;

/// Width of the playhead's line.
pub const TIMELINE_INDICATOR_LINE_WIDTH_PX: u32 = 2;

/// Size of the playhead's handle.
pub const TIMELINE_PLAYHEAD_HANDLE_PX: u32 = 12;

/// Distance of the playhead's handle from the top.
pub const TIMELINE_PLAYHEAD_HANDLE_TOP_PX: u32 = 4;

/// Where the first track starts: the ruler, the bookmark row and the padding above
/// the tracks.
pub const TIMELINE_HEADER_HEIGHT_PX: u32 = TIMELINE_RULER_HEIGHT_PX
    + TIMELINE_BOOKMARK_ROW_HEIGHT_PX + TIMELINE_CONTENT_TOP_PADDING_PX;

/// The text of each token and value in a layer.
pub open spec fn pairs_view(layer: Seq<(&'static str, &'static str)>) -> Seq<(Seq<char>, Seq<char>)> {
    layer.map_values(|p: (&'static str, &'static str)| (p.0@, p.1@))
}

/// The light theme's tokens, which every palette starts from.
pub open spec fn root_tokens() -> Seq<(Seq<char>, Seq<char>)> {
    seq![
        ("--background"@, "hsl(0, 0%, 100%)"@),
        ("--foreground"@, "hsl(0 0% 11%)"@),
        ("--card"@, "hsl(0, 0%, 100%)"@),
        ("--card-foreground"@, "hsl(0 0% 11%)"@),
        ("--popover"@, "hsl(0, 0%, 100%)"@),
        ("--popover-hover"@, "hsl(0, 0%, 96%)"@),
        ("--popover-foreground"@, "hsl(0 0% 2%)"@),
        ("--primary"@, "hsl(200, 90%, 52%)"@),
        ("--primary-foreground"@, "hsl(0, 0%, 100%)"@),
        ("--secondary"@, "hsl(204, 100%, 97%)"@),
        ("--secondary-border"@, "hsl(204, 100%, 94%)"@),
        ("--secondary-foreground"@, "hsl(200, 98%, 39%)"@),
        ("--muted"@, "hsl(0 0% 85.1%)"@),
        ("--muted-foreground"@, "hsl(0 0% 50%)"@),
        ("--accent"@, "hsl(0, 0%, 96%)"@),
        ("--accent-foreground"@, "hsl(0 0% 2%)"@),
        ("--destructive"@, "hsl(0, 83%, 50%)"@),
        ("--destructive-foreground"@, "hsl(0, 0%, 100%)"@),
        ("--constructive"@, "hsl(141, 71%, 48%)"@),
        ("--constructive-foreground"@, "hsl(0, 0%, 100%)"@),
        ("--caution"@, "hsl(38, 92%, 50%)"@),
        ("--caution-foreground"@, "hsl(0, 0%, 10%)"@),
        ("--border"@, "hsl(0 0% 91%)"@),
        ("--input"@, "hsl(0, 0%, 100%)"@),
        ("--ring"@, "hsl(0, 0%, 55%)"@),
        ("--sidebar"@, "hsl(0 0% 98%)"@),
        ("--scrollbar-thumb"@, "hsl(0 0% 78%)"@),
        ("--scrollbar-thumb-hover"@, "hsl(0 0% 65%)"@),
        ("--scrollbar-thumb-active"@, "hsl(0 0% 55%)"@),
    ]
}

pub fn tokens_root() -> (layer: Vec<(&'static str, &'static str)>)
    ensures
        pairs_view(layer@) == root_tokens(),
{
    let mut layer: Vec<(&'static str, &'static str)> = Vec::new();
    layer.push(("--background", "hsl(0, 0%, 100%)"));
    layer.push(("--foreground", "hsl(0 0% 11%)"));
    layer.push(("--card", "hsl(0, 0%, 100%)"));
    layer.push(("--card-foreground", "hsl(0 0% 11%)"));
    layer.push(("--popover", "hsl(0, 0%, 100%)"));
    layer.push(("--popover-hover", "hsl(0, 0%, 96%)"));
    layer.push(("--popover-foreground", "hsl(0 0% 2%)"));
    layer.push(("--primary", "hsl(200, 90%, 52%)"));
    layer.push(("--primary-foreground", "hsl(0, 0%, 100%)"));
    layer.push(("--secondary", "hsl(204, 100%, 97%)"));
    layer.push(("--secondary-border", "hsl(204, 100%, 94%)"));
    layer.push(("--secondary-foreground", "hsl(200, 98%, 39%)"));
    layer.push(("--muted", "hsl(0 0% 85.1%)"));
    layer.push(("--muted-foreground", "hsl(0 0% 50%)"));
    layer.push(("--accent", "hsl(0, 0%, 96%)"));
    layer.push(("--accent-foreground", "hsl(0 0% 2%)"));
    layer.push(("--destructive", "hsl(0, 83%, 50%)"));
    layer.push(("--destructive-foreground", "hsl(0, 0%, 100%)"));
    layer.push(("--constructive", "hsl(141, 71%, 48%)"));
    layer.push(("--constructive-foreground", "hsl(0, 0%, 100%)"));
    layer.push(("--caution", "hsl(38, 92%, 50%)"));
    layer.push(("--caution-foreground", "hsl(0, 0%, 10%)"));
    layer.push(("--border", "hsl(0 0% 91%)"));
    layer.push(("--input", "hsl(0, 0%, 100%)"));
    layer.push(("--ring", "hsl(0, 0%, 55%)"));
    layer.push(("--sidebar", "hsl(0 0% 98%)"));
    layer.push(("--scrollbar-thumb", "hsl(0 0% 78%)"));
    layer.push(("--scrollbar-thumb-hover", "hsl(0 0% 65%)"));
    layer.push(("--scrollbar-thumb-active", "hsl(0 0% 55%)"));
    assert(pairs_view(layer@) =~= root_tokens());
    layer
}

/// What the panels change of them.
pub open spec fn panel_tokens() -> Seq<(Seq<char>, Seq<char>)> {
    seq![
        ("--background"@, "hsl(210, 20%, 98%)"@),
        ("--foreground"@, "hsl(0 0% 13%)"@),
        ("--card"@, "hsl(0, 0%, 98%)"@),
        ("--card-foreground"@, "hsl(0 0% 13%)"@),
        ("--primary-foreground"@, "hsl(0, 0%, 98%)"@),
        ("--secondary"@, "hsl(204, 100%, 95%)"@),
        ("--secondary-border"@, "hsl(204, 100%, 92%)"@),
        ("--secondary-foreground"@, "hsl(200, 98%, 37%)"@),
        ("--muted"@, "hsl(0 0% 83.1%)"@),
        ("--muted-foreground"@, "hsl(0 0% 48%)"@),
        ("--accent"@, "hsl(0, 0%, 93%)"@),
        ("--accent-foreground"@, "hsl(0 0% 5%)"@),
        ("--destructive-foreground"@, "hsl(0, 0%, 98%)"@),
        ("--constructive-foreground"@, "hsl(0, 0%, 98%)"@),
        ("--border"@, "hsl(0 0% 87%)"@),
        ("--input"@, "hsl(0 0% 93%)"@),
        ("--ring"@, "hsl(0, 0%, 53%)"@),
    ]
}

pub fn tokens_panel() -> (layer: Vec<(&'static str, &'static str)>)
    ensures
        pairs_view(layer@) == panel_tokens(),
{
    let mut layer: Vec<(&'static str, &'static str)> = Vec::new();
    layer.push(("--background", "hsl(210, 20%, 98%)"));
    layer.push(("--foreground", "hsl(0 0% 13%)"));
    layer.push(("--card", "hsl(0, 0%, 98%)"));
    layer.push(("--card-foreground", "hsl(0 0% 13%)"));
    layer.push(("--primary-foreground", "hsl(0, 0%, 98%)"));
    layer.push(("--secondary", "hsl(204, 100%, 95%)"));
    layer.push(("--secondary-border", "hsl(204, 100%, 92%)"));
    layer.push(("--secondary-foreground", "hsl(200, 98%, 37%)"));
    layer.push(("--muted", "hsl(0 0% 83.1%)"));
    layer.push(("--muted-foreground", "hsl(0 0% 48%)"));
    layer.push(("--accent", "hsl(0, 0%, 93%)"));
    layer.push(("--accent-foreground", "hsl(0 0% 5%)"));
    layer.push(("--destructive-foreground", "hsl(0, 0%, 98%)"));
    layer.push(("--constructive-foreground", "hsl(0, 0%, 98%)"));
    layer.push(("--border", "hsl(0 0% 87%)"));
    layer.push(("--input", "hsl(0 0% 93%)"));
    layer.push(("--ring", "hsl(0, 0%, 53%)"));
    assert(pairs_view(layer@) =~= panel_tokens());
    layer
}

/// What the dark theme changes of them.
pub open spec fn dark_tokens() -> Seq<(Seq<char>, Seq<char>)> {
    seq![
        ("--background"@, "hsl(0, 0%, 5%)"@),
        ("--foreground"@, "hsl(0 0% 87%)"@),
        ("--card"@, "hsl(0, 0%, 5%)"@),
        ("--card-foreground"@, "hsl(0 0% 87%)"@),
        ("--popover"@, "hsl(0, 0%, 5%)"@),
        ("--popover-hover"@, "hsl(0, 0%, 13%)"@),
        ("--popover-foreground"@, "hsl(0 0% 95%)"@),
        ("--secondary"@, "hsl(204, 100%, 12%)"@),
        ("--secondary-border"@, "hsl(204, 100%, 15%)"@),
        ("--secondary-foreground"@, "hsl(200, 98%, 61%)"@),
        ("--muted"@, "hsl(0 0% 20%)"@),
        ("--accent"@, "hsl(0, 0%, 14%)"@),
        ("--accent-foreground"@, "hsl(0 0% 95%)"@),
        ("--border"@, "hsl(0 0% 16%)"@),
        ("--input"@, "hsl(0 0% 5%)"@),
        ("--ring"@, "hsl(0, 0%, 50%)"@),
        ("--caution"@, "hsl(38, 92%, 60%)"@),
        ("--caution-foreground"@, "hsl(0, 0%, 10%)"@),
        ("--sidebar"@, "hsl(0 0% 6%)"@),
        ("--scrollbar-thumb"@, "hsl(0 0% 26%)"@),
        ("--scrollbar-thumb-hover"@, "hsl(0 0% 38%)"@),
        ("--scrollbar-thumb-active"@, "hsl(0 0% 48%)"@),
    ]
}

pub fn tokens_dark() -> (layer: Vec<(&'static str, &'static str)>)
    ensures
        pairs_view(layer@) == dark_tokens(),
{
    let mut layer: Vec<(&'static str, &'static str)> = Vec::new();
    layer.push(("--background", "hsl(0, 0%, 5%)"));
    layer.push(("--foreground", "hsl(0 0% 87%)"));
    layer.push(("--card", "hsl(0, 0%, 5%)"));
    layer.push(("--card-foreground", "hsl(0 0% 87%)"));
    layer.push(("--popover", "hsl(0, 0%, 5%)"));
    layer.push(("--popover-hover", "hsl(0, 0%, 13%)"));
    layer.push(("--popover-foreground", "hsl(0 0% 95%)"));
    layer.push(("--secondary", "hsl(204, 100%, 12%)"));
    layer.push(("--secondary-border", "hsl(204, 100%, 15%)"));
    layer.push(("--secondary-foreground", "hsl(200, 98%, 61%)"));
    layer.push(("--muted", "hsl(0 0% 20%)"));
    layer.push(("--accent", "hsl(0, 0%, 14%)"));
    layer.push(("--accent-foreground", "hsl(0 0% 95%)"));
    layer.push(("--border", "hsl(0 0% 16%)"));
    layer.push(("--input", "hsl(0 0% 5%)"));
    layer.push(("--ring", "hsl(0, 0%, 50%)"));
    layer.push(("--caution", "hsl(38, 92%, 60%)"));
    layer.push(("--caution-foreground", "hsl(0, 0%, 10%)"));
    layer.push(("--sidebar", "hsl(0 0% 6%)"));
    layer.push(("--scrollbar-thumb", "hsl(0 0% 26%)"));
    layer.push(("--scrollbar-thumb-hover", "hsl(0 0% 38%)"));
    layer.push(("--scrollbar-thumb-active", "hsl(0 0% 48%)"));
    assert(pairs_view(layer@) =~= dark_tokens());
    layer
}

/// What the panels change of the dark theme.
pub open spec fn dark_panel_tokens() -> Seq<(Seq<char>, Seq<char>)> {
    seq![
        ("--background"@, "hsl(0 0% 10%)"@),
        ("--foreground"@, "hsl(0 0% 85%)"@),
        ("--card"@, "hsl(0, 0%, 10%)"@),
        ("--card-foreground"@, "hsl(0 0% 85%)"@),
        ("--secondary"@, "hsl(204, 67%, 9%)"@),
        ("--secondary-border"@, "hsl(204, 100%, 14%)"@),
        ("--secondary-foreground"@, "hsl(200, 98%, 63%)"@),
        ("--muted"@, "hsl(0 0% 22%)"@),
        ("--accent"@, "hsl(0, 0%, 15%)"@),
        ("--accent-foreground"@, "hsl(0 0% 93%)"@),
        ("--border"@, "hsl(0 0% 18%)"@),
        ("--input"@, "hsl(0 0% 22%)"@),
        ("--ring"@, "hsl(0, 0%, 52%)"@),
    ]
}

pub fn tokens_dark_panel() -> (layer: Vec<(&'static str, &'static str)>)
    ensures
        pairs_view(layer@) == dark_panel_tokens(),
{
    let mut layer: Vec<(&'static str, &'static str)> = Vec::new();
    layer.push(("--background", "hsl(0 0% 10%)"));
    layer.push(("--foreground", "hsl(0 0% 85%)"));
    layer.push(("--card", "hsl(0, 0%, 10%)"));
    layer.push(("--card-foreground", "hsl(0 0% 85%)"));
    layer.push(("--secondary", "hsl(204, 67%, 9%)"));
    layer.push(("--secondary-border", "hsl(204, 100%, 14%)"));
    layer.push(("--secondary-foreground", "hsl(200, 98%, 63%)"));
    layer.push(("--muted", "hsl(0 0% 22%)"));
    layer.push(("--accent", "hsl(0, 0%, 15%)"));
    layer.push(("--accent-foreground", "hsl(0 0% 93%)"));
    layer.push(("--border", "hsl(0 0% 18%)"));
    layer.push(("--input", "hsl(0 0% 22%)"));
    layer.push(("--ring", "hsl(0, 0%, 52%)"));
    assert(pairs_view(layer@) =~= dark_panel_tokens());
    layer
}

/// The value the first entry named `name` gives it in one layer of tokens.
pub open spec fn layer_value(layer: Seq<(Seq<char>, Seq<char>)>, name: Seq<char>) -> Option<Seq<char>>
    decreases layer.len(),
{
    if layer.len() == 0 {
        None
    } else if layer[0].0 == name {
        Some(layer[0].1)
    } else {
        layer_value(layer.drop_first(), name)
    }
}

/// The value the last layer that names `name` gives it, if any does.
pub open spec fn layered_value(layers: Seq<Seq<(Seq<char>, Seq<char>)>>, name: Seq<char>) -> Option<Seq<char>>
    decreases layers.len(),
{
    if layers.len() == 0 {
        None
    } else {
        match layer_value(layers.last(), name) {
            Some(value) => Some(value),
            None => layered_value(layers.drop_last(), name),
        }
    }
}

/// The colour a token resolves to: later layers override earlier ones, and a token no
/// layer names is mid grey.
pub open spec fn spec_resolve_token(layers: Seq<Seq<(Seq<char>, Seq<char>)>>, name: Seq<char>) -> Seq<char> {
    match layered_value(layers, name) {
        Some(value) => value,
        None => "hsl(0 0% 50%)"@,
    }
}

/// The layers as their text.
pub open spec fn layers_view(layers: Seq<Vec<(&'static str, &'static str)>>) -> Seq<Seq<(Seq<char>, Seq<char>)>> {
    layers.map_values(|layer: Vec<(&'static str, &'static str)>| pairs_view(layer@))
}

fn find_in_layer(layer: &Vec<(&'static str, &'static str)>, name: &str) -> (r: Option<&'static str>)
    ensures
        match r {
            Some(value) => layer_value(pairs_view(layer@), name@) == Some(value@),
            None => layer_value(pairs_view(layer@), name@) is None,
        },
{
    let ghost pv = pairs_view(layer@);
    let mut i: usize = 0;
    assert(pv.skip(0) =~= pv);
    while i < layer.len()
        invariant
            i <= layer@.len(),
            pv == pairs_view(layer@),
            layer_value(pv, name@) == layer_value(pv.skip(i as int), name@),
        decreases layer@.len() - i,
    {
        assert(pv.skip(i as int)[0] == pv[i as int]);
        assert(pv[i as int] == (layer@[i as int].0@, layer@[i as int].1@));
        assert(pv.skip(i as int).drop_first() =~= pv.skip(i + 1));
        if str_equal(layer[i].0, name) {
            return Some(layer[i].1);
        }
        i = i + 1;
    }
    None
}

/// The value of token `name` over `layers`, the last layer first.
pub fn resolve_token(layers: &Vec<Vec<(&'static str, &'static str)>>, name: &str) -> (value: &'static str)
    ensures
        value@ == spec_resolve_token(layers_view(layers@), name@),
{
    let ghost lv = layers_view(layers@);
    let mut found: Option<&'static str> = None;
    let mut i: usize = 0;
    assert(lv.take(0) =~= Seq::<Seq<(Seq<char>, Seq<char>)>>::empty());
    while i < layers.len()
        invariant
            i <= layers@.len(),
            lv == layers_view(layers@),
            match found {
                Some(value) => layered_value(lv.take(i as int), name@) == Some(value@),
                None => layered_value(lv.take(i as int), name@) is None,
            },
        decreases layers@.len() - i,
    {
        assert(lv.take(i + 1).drop_last() =~= lv.take(i as int));
        assert(lv.take(i + 1).last() == pairs_view(layers@[i as int]@));
        if let Some(value) = find_in_layer(&layers[i], name) {
            found = Some(value);
        }
        i = i + 1;
    }
    assert(lv.take(layers@.len() as int) =~= lv);
    match found {
        Some(value) => value,
        None => "hsl(0 0% 50%)",
    }
}

/// The layers a palette is drawn from: the light theme's root tokens, then the dark
/// theme's, then the panels' changes of each.
pub open spec fn theme_layers(dark: bool, panel: bool) -> Seq<Seq<(Seq<char>, Seq<char>)>> {
    if dark {
        if panel {
            seq![root_tokens(), dark_tokens(), panel_tokens(), dark_panel_tokens()]
        } else {
            seq![root_tokens(), dark_tokens()]
        }
    } else {
        if panel {
            seq![root_tokens(), panel_tokens()]
        } else {
            seq![root_tokens()]
        }
    }
}

/// The value of token `name` in the dark or light theme, in the panels or outside them.
pub fn theme_token(dark: bool, panel: bool, name: &str) -> (value: &'static str)
    ensures
        value@ == spec_resolve_token(theme_layers(dark, panel), name@),
{
    let mut layers: Vec<Vec<(&'static str, &'static str)>> = Vec::new();
    layers.push(tokens_root());
    if dark {
        layers.push(tokens_dark());
    }
    if panel {
        layers.push(tokens_panel());
    }
    if dark && panel {
        layers.push(tokens_dark_panel());
    }
    assert(layers_view(layers@) =~= theme_layers(dark, panel));
    resolve_token(&layers, name)
}

/// A token set by a later layer wins over every earlier one.
pub proof fn law_later_layers_win(
    layers: Seq<Seq<(Seq<char>, Seq<char>)>>,
    top: Seq<(Seq<char>, Seq<char>)>,
    name: Seq<char>,
)
    requires
        layer_value(top, name) is Some,
    ensures
        spec_resolve_token(layers.push(top), name) == layer_value(top, name)->Some_0,
{
    assert(layers.push(top).last() == top);
}

/// A layer that does not name a token leaves it as the layers under it set it.
pub proof fn law_other_layers_keep_a_token(
    layers: Seq<Seq<(Seq<char>, Seq<char>)>>,
    top: Seq<(Seq<char>, Seq<char>)>,
    name: Seq<char>,
)
    requires
        layer_value(top, name) is None,
    ensures
        spec_resolve_token(layers.push(top), name) == spec_resolve_token(layers, name),
{
    assert(layers.push(top).last() == top);
    assert(layers.push(top).drop_last() =~= layers);
}

/// In the dark theme a token that neither panel layer names reads the same in the panels
/// as outside them.
pub proof fn law_dark_panels_keep_other_tokens(name: Seq<char>)
    requires
        layer_value(panel_tokens(), name) is None,
        layer_value(dark_panel_tokens(), name) is None,
    ensures
        spec_resolve_token(theme_layers(true, true), name) == spec_resolve_token(
            theme_layers(true, false),
            name,
        ),
{
    let base = seq![root_tokens(), dark_tokens()];
    assert(theme_layers(true, true) =~= base.push(panel_tokens()).push(dark_panel_tokens()));
    assert(theme_layers(true, false) =~= base);
    law_other_layers_keep_a_token(base.push(panel_tokens()), dark_panel_tokens(), name);
    law_other_layers_keep_a_token(base, panel_tokens(), name);
}

/// In the panels a token a panel layer names takes that layer's value: in the dark theme
/// the dark panel layer first, then the panel layer; in the light theme the panel layer.
pub proof fn law_panel_layers_win(name: Seq<char>)
    ensures
        layer_value(dark_panel_tokens(), name) is Some ==> spec_resolve_token(theme_layers(true, true), name)
            == layer_value(dark_panel_tokens(), name)->Some_0,
        layer_value(dark_panel_tokens(), name) is None && layer_value(panel_tokens(), name) is Some
            ==> spec_resolve_token(theme_layers(true, true), name) == layer_value(panel_tokens(), name)->Some_0,
        layer_value(panel_tokens(), name) is Some ==> spec_resolve_token(theme_layers(false, true), name)
            == layer_value(panel_tokens(), name)->Some_0,
{
    let base = seq![root_tokens(), dark_tokens()];
    assert(theme_layers(true, true) =~= base.push(panel_tokens()).push(dark_panel_tokens()));
    assert(theme_layers(false, true) =~= seq![root_tokens()].push(panel_tokens()));
    if layer_value(dark_panel_tokens(), name) is Some {
        law_later_layers_win(base.push(panel_tokens()), dark_panel_tokens(), name);
    } else {
        law_other_layers_keep_a_token(base.push(panel_tokens()), dark_panel_tokens(), name);
        if layer_value(panel_tokens(), name) is Some {
            law_later_layers_win(base, panel_tokens(), name);
        }
    }
    if layer_value(panel_tokens(), name) is Some {
        law_later_layers_win(seq![root_tokens()], panel_tokens(), name);
    }
}

/// In the light theme a token the panel layer does not name reads the same in the panels
/// as outside them.
pub proof fn law_light_panels_keep_other_tokens(name: Seq<char>)
    requires
        layer_value(panel_tokens(), name) is None,
    ensures
        spec_resolve_token(theme_layers(false, true), name) == spec_resolve_token(
            theme_layers(false, false),
            name,
        ),
{
    let base = seq![root_tokens()];
    assert(theme_layers(false, true) =~= base.push(panel_tokens()));
    assert(theme_layers(false, false) =~= base);
    law_other_layers_keep_a_token(base, panel_tokens(), name);
}

/// Outside the panels the dark theme reads a token the dark layer names from that layer,
/// and the light theme reads every token from the root layer.
pub proof fn law_each_theme_reads_its_own_layer(name: Seq<char>)
    ensures
        layer_value(dark_tokens(), name) is Some ==> spec_resolve_token(theme_layers(true, false), name)
            == layer_value(dark_tokens(), name)->Some_0,
        layer_value(root_tokens(), name) is Some ==> spec_resolve_token(theme_layers(false, false), name)
            == layer_value(root_tokens(), name)->Some_0,
{
    assert(theme_layers(true, false) =~= seq![root_tokens()].push(dark_tokens()));
    assert(theme_layers(false, false) =~= Seq::<Seq<(Seq<char>, Seq<char>)>>::empty().push(root_tokens()));
    if layer_value(dark_tokens(), name) is Some {
        law_later_layers_win(seq![root_tokens()], dark_tokens(), name);
    }
    if layer_value(root_tokens(), name) is Some {
        law_later_layers_win(Seq::empty(), root_tokens(), name);
    }
}

/// The colour of a timeline track of `kind`, as hexadecimal text, for the kinds that
/// have one of their own.
pub fn track_color_hex(kind: &str) -> (hex: Option<&'static str>)
    ensures
        match hex {
            Some(h) => (kind@ == "text"@ && h@ == "#5DBAA0"@) || (kind@ == "audio"@ && h@ == "#8F5DBA"@)
                || (kind@ == "graphic"@ && h@ == "#BA5D7A"@) || (kind@ == "effect"@ && h@ == "#5d93ba"@),
            None => kind@ != "text"@ && kind@ != "audio"@ && kind@ != "graphic"@ && kind@ != "effect"@,
        },
{
    if str_equal(kind, "text") {
        Some("#5DBAA0")
    } else if str_equal(kind, "audio") {
        Some("#8F5DBA")
    } else if str_equal(kind, "graphic") {
        Some("#BA5D7A")
    } else if str_equal(kind, "effect") {
        Some("#5d93ba")
    } else {
        None
    }
}

} // verus!
