use cutix_native::properties::{active_tab, element_type_key, tabs_for, ElementKind};
use cutix_native::reframe::{sample_size_for, smoothing_radius_for, MAX_REFRAME_SAMPLES};
use cutix_native::sounds::{
    attribution_credit_line, attribution_for, collect_attributions, credit_line, modes,
    source_glyph, Attribution, SavedSounds, SoundInfo, SoundSource,
};
use cutix_native::state::{format_date, media_glyph, MediaKind, SortKey, UploadSummary};
use cutix_native::stickers::{catalogue, categories, filtered, flag_entry, shape_entry, StickerEntry};
use cutix_native::templates::{builtin_key, slugify};
use cutix_native::chars::nonblank_trimmed;
use cutix_native::state::{extend_selection, file_label, is_selected, PathPart};
use cutix_native::text_anim::{
    animation_presets, clamp_duration, clamp_reveal_duration, clamp_window, default_duration,
    max_duration, min_duration, reveal_default_duration, reveal_max_duration,
    reveal_min_duration, is_reveal_style, keyframe_id, preset, presets_for,
    reveal_presets, window_start, Direction, PATH_OPACITY, PATH_SCALE_X,
};
use cutix_native::theme::{
    resolve_token, theme_token, track_color_hex, TIMELINE_HEADER_HEIGHT_PX,
    TIMELINE_TOOLBAR_HEIGHT_PX,
};

#[test]
fn the_sample_frame_keeps_its_aspect() {
    assert_eq!(sample_size_for(1920, 1080), (320, 180));
    assert_eq!(sample_size_for(1080, 1920), (180, 320));

    assert_eq!(sample_size_for(200, 100), (200, 100));
}

#[test]
fn odd_frames_round_to_the_nearest_pixel() {
    assert_eq!(sample_size_for(1000, 333), (320, 107));
    assert_eq!(sample_size_for(0, 0), (0, 0));
    assert_eq!(sample_size_for(640, 1), (320, 1));
}

fn scaled_in_double(side: usize, longest: usize) -> usize {
    let scale = 320.0 / longest as f64;
    ((side as f64 * scale).round() as usize).max(1)
}

#[test]
fn scaling_rounds_as_double_precision_does() {
    // 117 * 320 / 4992 is exactly 7.5, but the double nearest to 320 / 4992 lies below it.
    assert_eq!(sample_size_for(4992, 117), (320, 7));
    assert_eq!(sample_size_for(117, 4992), (7, 320));
    assert_eq!(sample_size_for(u64::MAX as usize, 3), (320, 1));
    assert_eq!(sample_size_for(usize::MAX, usize::MAX - 1), (320, 320));
    let longs: [usize; 9] = [321, 333, 640, 1000, 1919, 4992, 65_537, 9_007_199_254_740_993, usize::MAX];
    for &longest in longs.iter() {
        let mut side: u128 = 0;
        while side <= longest as u128 {
            let (w, h) = sample_size_for(longest, side as usize);
            assert_eq!(w, scaled_in_double(longest, longest));
            assert_eq!(h, scaled_in_double(side as usize, longest), "{side} of {longest}");
            side = if side < 5000 { side + 1 } else { side / 3 * 4 + 7 };
        }
        for back in 0..2000u128 {
            if back > longest as u128 {
                break;
            }
            let side = longest as u128 - back;
            let (_, h) = sample_size_for(longest, side as usize);
            assert_eq!(h, scaled_in_double(side as usize, longest), "{side} of {longest}");
        }
    }
}

#[test]
fn smoothing_radius_follows_the_sample_count() {
    assert_eq!(smoothing_radius_for(2), 1);
    assert_eq!(smoothing_radius_for(30), 5);
    assert_eq!(smoothing_radius_for(120), 8);
    assert_eq!(smoothing_radius_for(0), 1);
    assert_eq!(MAX_REFRAME_SAMPLES, 120);
}

#[test]
fn the_mode_tabs_match_the_web_views() {
    let keys: Vec<&str> = modes().iter().map(|(key, _)| *key).collect();
    assert_eq!(keys, ["music", "effects", "saved"]);
}

fn stub(id: &str) -> SoundInfo {
    SoundInfo {
        id: id.to_string(),
        name: "Dawn".to_string(),
        username: "Netlabel".to_string(),
        license: "CC BY 4.0".to_string(),
        license_url: Some("https://creativecommons.org/licenses/by/4.0/".to_string()),
        url: "https://archive.org/details/album".to_string(),
        landing_url: Some("https://archive.org/details/album".to_string()),
        provider: Some("Internet Archive".to_string()),
        source_label: "Internet Archive".to_string(),
    }
}

#[test]
fn attribution_carries_the_creator_licence_and_source() {
    let attribution = attribution_for(&stub("archive:album:a.mp3"), "2026-08-14".to_string());
    assert_eq!(attribution.id, "archive:album:a.mp3");
    assert_eq!(attribution.title, "Dawn");
    assert_eq!(attribution.creator, "Netlabel");
    assert_eq!(attribution.license, "CC BY 4.0");
    assert_eq!(
        attribution.license_url.as_deref(),
        Some("https://creativecommons.org/licenses/by/4.0/")
    );
    assert_eq!(
        attribution.source_url.as_deref(),
        Some("https://archive.org/details/album")
    );
    assert_eq!(attribution.provider.as_deref(), Some("Internet Archive"));
    assert_eq!(attribution.added_at, "2026-08-14");
}

#[test]
fn attribution_falls_back_to_the_source_label_without_a_provider() {
    let mut result = stub("x");
    result.provider = None;
    result.landing_url = None;
    let attribution = attribution_for(&result, String::new());
    assert_eq!(attribution.provider.as_deref(), Some("Internet Archive"));
    assert_eq!(
        attribution.source_url.as_deref(),
        Some("https://archive.org/details/album")
    );
}

#[test]
fn an_attribution_without_any_url_points_nowhere() {
    let mut result = stub("x");
    result.landing_url = None;
    result.url = String::new();
    assert_eq!(attribution_for(&result, String::new()).source_url, None);
    let mut empty_landing = stub("x");
    empty_landing.landing_url = Some(String::new());
    assert_eq!(attribution_for(&empty_landing, String::new()).source_url, None);
}

#[test]
fn credit_lines_join_the_licence_and_provider() {
    assert_eq!(credit_line(&stub("a")), "CC BY 4.0 · Internet Archive");
    let mut bare = stub("a");
    bare.license = String::new();
    assert_eq!(credit_line(&bare), "Internet Archive");
}

#[test]
fn saving_toggles_and_survives_a_round_trip() {
    let mut saved = SavedSounds::new();
    let entry = stub("a");
    assert!(saved.toggle(&entry));
    assert!(saved.contains("a"));
    assert_eq!(saved.entries.len(), 1);

    // The library keeps no serialised form of its own: what a round trip must carry is
    // the saved entry itself.
    assert_eq!(saved.entries[0].license, "CC BY 4.0");

    assert!(!saved.toggle(&entry));
    assert!(!saved.contains("a"));
    assert!(saved.entries.is_empty());
}

#[test]
fn saving_toggles_and_restores() {
    let mut saved = SavedSounds::new();
    let entry = stub("a");
    assert!(saved.toggle(&entry));
    assert!(saved.contains("a"));
    assert_eq!(saved.entries.len(), 1);
    assert_eq!(saved.entries[0].license, "CC BY 4.0");

    assert!(saved.toggle(&stub("b")));
    assert!(!saved.toggle(&entry));
    assert!(!saved.contains("a"));
    assert!(saved.contains("b"));
    assert_eq!(saved.entries.len(), 1);
    assert!(!saved.toggle(&stub("b")));
    assert!(saved.entries.is_empty());
}

#[test]
fn every_library_has_a_glyph() {
    assert_eq!(source_glyph(SoundSource::Archive), "folder03");
    assert_eq!(source_glyph(SoundSource::Openverse), "music-note03");
    assert_eq!(source_glyph(SoundSource::Freesound), "headphones");
}

fn sound_attribution(id: &str, title: &str, creator: &str, license: &str) -> Attribution {
    Attribution {
        id: id.to_string(),
        title: title.to_string(),
        creator: creator.to_string(),
        license: license.to_string(),
        license_url: Some(format!(
            "https://creativecommons.org/licenses/{}/4.0/",
            license.to_lowercase().replace("cc ", "").replace(' ', "-")
        )),
        source_url: Some(format!("https://freesound.org/s/{id}/")),
        provider: Some("Freesound".to_string()),
        added_at: format!("2026-01-0{id}T00:00:00Z"),
    }
}

fn copy(entry: &Attribution) -> Attribution {
    entry.duplicate()
}

#[test]
fn lists_exactly_the_two_cc_sounds_with_their_author_and_licence() {
    let one = sound_attribution("1", "Rainfall Loop", "fieldrec", "CC BY 4.0");
    let two = sound_attribution("2", "Analog Pad", "synthwave", "CC BY-SA 4.0");

    let collected = collect_attributions(&Some(vec![copy(&one), copy(&two)]));
    assert_eq!(collected.len(), 2);
    assert_eq!(collected[0].title, "Rainfall Loop");
    assert_eq!(collected[0].creator, "fieldrec");
    assert_eq!(collected[0].license, "CC BY 4.0");
    assert_eq!(collected[1].title, "Analog Pad");
    assert_eq!(collected[1].creator, "synthwave");
    assert_eq!(collected[1].license, "CC BY-SA 4.0");
}

#[test]
fn de_duplicates_the_same_asset_added_twice() {
    let one = sound_attribution("1", "Rainfall Loop", "fieldrec", "CC BY 4.0");
    assert_eq!(collect_attributions(&Some(vec![copy(&one), copy(&one)])).len(), 1);
}

#[test]
fn a_project_without_credited_assets_lists_nothing() {
    assert!(collect_attributions(&None).is_empty());
}

#[test]
fn blank_credits_are_dropped_and_the_first_record_wins() {
    let blank = sound_attribution("3", "  ", "", " ");
    let first = sound_attribution("4", "First", "a", "CC0");
    let later = sound_attribution("4", "Later", "b", "CC0");
    let collected = collect_attributions(&Some(vec![blank, first, later]));
    assert_eq!(collected.len(), 1);
    assert_eq!(collected[0].title, "First");
}

#[test]
fn attribution_credit_lines_fall_back_in_turn() {
    let mut entry = sound_attribution("1", "Rainfall Loop", "fieldrec", "CC BY 4.0");
    assert_eq!(attribution_credit_line(&entry), "CC BY 4.0 · Freesound");
    entry.license = String::new();
    assert_eq!(attribution_credit_line(&entry), "Freesound");
    entry.license = "CC0".to_string();
    entry.provider = Some(String::new());
    assert_eq!(attribution_credit_line(&entry), "CC0");
    entry.provider = None;
    assert_eq!(attribution_credit_line(&entry), "CC0");
}

#[test]
fn iso_dates_render_day_first() {
    assert_eq!(format_date("2026-08-13T09:12:44.123Z"), "13.08.2026");
    assert_eq!(format_date("nonsense"), "nonsense");
}

#[test]
fn dates_need_three_parts_and_a_four_byte_year() {
    assert_eq!(format_date("2026-08-1"), "1.08.2026");
    assert_eq!(format_date("2026-08-13"), "13.08.2026");
    assert_eq!(format_date("ä26-01-02T00:00"), "02.01.ä26");
    assert_eq!(format_date("26-01-02"), "26-01-02");
    assert_eq!(format_date("2026-08"), "2026-08");
}

#[test]
fn the_project_list_labels_and_glyphs() {
    assert_eq!(SortKey::CreatedAt.label_key(), "projects.sort.created");
    assert_eq!(SortKey::UpdatedAt.label_key(), "projects.sort.modified");
    assert_eq!(SortKey::Name.label_key(), "projects.sort.name");
    assert_eq!(SortKey::Duration.label_key(), "projects.sort.duration");
    assert_eq!(media_glyph(MediaKind::Video), "video01");
    assert_eq!(media_glyph(MediaKind::Audio), "music-note03");
    assert_eq!(media_glyph(MediaKind::Image), "happy01");
}

#[test]
fn an_idle_queue_is_not_busy() {
    assert!(!UploadSummary::default().is_busy());
    let summary = UploadSummary { active: 2, percent: 50, title: None, finished: 2 };
    assert!(summary.is_busy());
}

#[test]
fn names_become_translation_keys() {
    assert_eq!(builtin_key("Beat slideshow"), "beatSlideshow");
    assert_eq!(builtin_key("Green screen overlay"), "greenScreenOverlay");
    assert_eq!(builtin_key("Talking head, vertical"), "talkingHeadVertical");
    assert_eq!(builtin_key("Speed ramp intro"), "speedRampIntro");
}

#[test]
fn slugs_are_safe_file_names() {
    assert_eq!(slugify("My Template"), "my-template");
    assert_eq!(slugify("  ***  "), "template");
    assert_eq!(slugify("Проект"), "template");
}

#[test]
fn slugs_trim_dashes_at_the_ends_only() {
    assert_eq!(slugify("--Hello,   World!--"), "hello----world");
    assert_eq!(slugify("a_b.c"), "a-b-c");
    assert_eq!(slugify("Intro 2"), "intro-2");
}

#[test]
fn the_reveal_list_matches_the_web() {
    let ids: Vec<&str> = reveal_presets().iter().map(|preset| preset.id).collect();
    assert_eq!(ids, ["typewriter", "char-fade", "char-pop"]);
    assert!(is_reveal_style("char-pop"));
    assert!(!is_reveal_style("fade-in"));
}

#[test]
fn keyframe_ids_are_scoped_to_the_direction_path_and_index() {
    assert_eq!(
        keyframe_id(Direction::In, PATH_OPACITY, 1),
        "text-anim-in-opacity-1"
    );
    assert_eq!(
        keyframe_id(Direction::Out, PATH_SCALE_X, 0),
        "text-anim-out-transform.scaleX-0"
    );
}

#[test]
fn directions_have_keys_and_labels() {
    assert_eq!(Direction::In.key(), "in");
    assert_eq!(Direction::Out.key(), "out");
    assert_eq!(Direction::In.label_key(), "text.animation.in");
    assert_eq!(Direction::Out.label_key(), "text.animation.out");
    assert_eq!(keyframe_id(Direction::In, "opacity", 12), "text-anim-in-opacity-12");
}

#[test]
fn the_timeline_header_offset_matches_the_web_stack() {
    assert_eq!(TIMELINE_HEADER_HEIGHT_PX, 40);
    assert_eq!(TIMELINE_HEADER_HEIGHT_PX, TIMELINE_TOOLBAR_HEIGHT_PX);
}

fn entry(id: &str, category: &'static str, search: &str) -> StickerEntry {
    StickerEntry {
        sticker_id: id.to_string(),
        name: id.to_string(),
        category,
        search: search.to_string(),
    }
}

#[test]
fn sticker_search_narrows_by_category_and_query() {
    let entries = vec![
        entry("shapes:star", "shapes", "star star shape"),
        entry("flags:de", "flags", "germany de europe german"),
        entry("flags:fr", "flags", "france fr europe french"),
    ];
    assert_eq!(filtered(&entries, "all", "").len(), 3);
    assert_eq!(filtered(&entries, "flags", "").len(), 2);
    let europe = filtered(&entries, "all", "  EUROPE ");
    assert_eq!(europe.len(), 2);
    assert_eq!(europe[0].sticker_id, "flags:de");
    assert!(filtered(&entries, "shapes", "europe").is_empty());
    let categories = categories();
    assert_eq!(categories[0], ("all", "stickers.category.all"));
    assert_eq!(categories.len(), 3);
}

#[test]
fn catalogue_entries_carry_their_search_text() {
    let flag = flag_entry(
        "flags:DE".to_string(),
        "Germany",
        "DE",
        "Europe",
        &["German".to_string(), "Low German".to_string()],
    );
    assert_eq!(flag.category, "flags");
    assert_eq!(flag.name, "Germany");
    assert_eq!(flag.search, "germany de europe german low german");
    let shape = shape_entry(
        "shapes:star".to_string(),
        "Star".to_string(),
        "star",
        &["Point".to_string(), "sky".to_string()],
    );
    assert_eq!(shape.category, "shapes");
    assert_eq!(shape.search, "star star Point sky");
    let all = catalogue(vec![shape.clone()], vec![flag.clone()]);
    assert_eq!(all, vec![shape, flag]);
}

#[test]
fn the_preset_list_matches_the_web_ids_and_order() {
    let ids: Vec<&str> = animation_presets().iter().map(|preset| preset.id).collect();
    assert_eq!(
        ids,
        [
            "fade-in",
            "slide-in-left",
            "slide-in-right",
            "slide-in-up",
            "slide-in-down",
            "pop-in",
            "bounce-in",
            "fade-out",
            "slide-out-left",
            "slide-out-right",
            "slide-out-up",
            "slide-out-down",
            "pop-out",
        ]
    );
    assert_eq!(presets_for(Direction::In).len(), 7);
    assert_eq!(presets_for(Direction::Out).len(), 6);
}

#[test]
fn presets_are_found_by_id() {
    let found = preset("bounce-in").expect("known");
    assert_eq!(found.name_key, "text.animation.bounceIn");
    assert_eq!(found.direction, Direction::In);
    assert_eq!(preset("slide-out-up").map(|p| p.direction), Some(Direction::Out));
    assert!(preset("typewriter").is_none());
}

#[test]
fn animation_windows_clamp_into_the_clip() {
    // A clock of 1000 ticks a second.
    let second = 1000;
    let clip = second * 2;
    assert_eq!(default_duration(second), 500);
    assert_eq!(clamp_duration(default_duration(second), clip, second), default_duration(second));
    assert_eq!(clamp_duration(max_duration(second), clip, second), clip);
    assert_eq!(clamp_duration(0, clip, second), min_duration(second));
    let tiny = second / 100;
    assert_eq!(clamp_duration(default_duration(second), tiny, second), min_duration(second));
    assert_eq!(clamp_window(700, 2000, 100, 5000), 700);
}

#[test]
fn durations_clamp_into_the_clip() {
    // The editor's clock runs at 120 000 ticks a second.
    let second: i64 = 120_000;
    let clip = second * 2;
    assert_eq!(clamp_duration(default_duration(second), clip, second), default_duration(second));
    assert_eq!(clamp_duration(max_duration(second), clip, second), clip);
    assert_eq!(clamp_duration(0, clip, second), min_duration(second));

    let tiny = second / 100;
    assert_eq!(clamp_duration(default_duration(second), tiny, second), min_duration(second));
}

#[test]
fn reveals_clamp_between_a_tenth_and_ten_seconds() {
    let second = 1000;
    assert_eq!(reveal_min_duration(second), 100);
    assert_eq!(reveal_max_duration(second), 10_000);
    assert_eq!(reveal_default_duration(second), 1500);
    assert_eq!(max_duration(second), 5000);
    assert_eq!(clamp_reveal_duration(60_000, 30_000, second), 10_000);
    assert_eq!(clamp_reveal_duration(reveal_default_duration(second), 800, second), 800);
    assert_eq!(clamp_reveal_duration(1, 30_000, second), 100);
}

#[test]
fn a_file_is_labelled_by_its_last_name() {
    let name = |s: &str| PathPart::Normal(s.to_string());
    assert_eq!(file_label(&vec![PathPart::Root, name("home"), name("clip.mp4")]), "clip.mp4");
    assert_eq!(file_label(&vec![name("a"), PathPart::Parent]), "");
    assert_eq!(file_label(&vec![PathPart::Root]), "");
    assert_eq!(file_label(&vec![PathPart::Prefix("C:".to_string())]), "");
    assert_eq!(file_label(&vec![PathPart::Current]), "");
    assert_eq!(file_label(&Vec::new()), "");
}

#[test]
fn entrance_windows_sit_at_the_head_and_exits_at_the_tail() {
    let second = 1000;
    let clip = second * 4;
    let window = second;
    assert_eq!(window_start(Direction::In, clip, window), 0);
    assert_eq!(window_start(Direction::Out, clip, window), second * 3);
    assert_eq!(window_start(Direction::Out, window, second * 9), 0);
}

#[test]
fn shift_clicks_toggle_the_selection() {
    let mut selection = vec!["a".to_string(), "b".to_string()];
    assert!(is_selected(&selection, "b"));
    extend_selection(&mut selection, "c");
    assert_eq!(selection, ["a", "b", "c"]);
    extend_selection(&mut selection, "a");
    assert_eq!(selection, ["b", "c"]);
    assert!(!is_selected(&selection, "a"));
    extend_selection(&mut selection, "a");
    extend_selection(&mut selection, "a");
    assert_eq!(selection, ["b", "c"]);
}

#[test]
fn environment_keys_are_trimmed_and_blank_ones_ignored() {
    assert_eq!(nonblank_trimmed(Some("  abc \n")), Some("abc".to_string()));
    assert_eq!(nonblank_trimmed(Some("   ")), None);
    assert_eq!(nonblank_trimmed(Some("")), None);
    assert_eq!(nonblank_trimmed(None), None);
}

#[test]
fn text_elements_open_on_their_own_tab() {
    assert_eq!(
        tabs_for(ElementKind::Text).first().map(|tab| tab.0),
        Some("text")
    );
}

#[test]
fn the_last_tab_of_a_kind_reopens_when_the_kind_has_it() {
    assert_eq!(active_tab(ElementKind::Video, Some("reframe")), "reframe");
    assert_eq!(active_tab(ElementKind::Audio, Some("reframe")), "audio");
    assert_eq!(active_tab(ElementKind::Graphic, None), "graphic");
    assert_eq!(element_type_key(ElementKind::Sticker), "sticker");
    assert_eq!(tabs_for(ElementKind::Video).len(), 12);
    assert_eq!(tabs_for(ElementKind::Effect), vec![("effects", "magic-wand05", "properties.effects")]);
}

#[test]
fn dark_background_matches_globals_css() {
    assert_eq!(theme_token(true, false, "--background"), "hsl(0, 0%, 5%)");
    assert_eq!(theme_token(true, true, "--background"), "hsl(0 0% 10%)");
}

#[test]
fn panel_muted_foreground_comes_from_the_light_panel_layer() {
    assert_eq!(theme_token(true, true, "--muted-foreground"), "hsl(0 0% 48%)");
}

#[test]
fn light_theme_uses_root_tokens_only() {
    assert_eq!(theme_token(false, false, "--background"), "hsl(0, 0%, 100%)");
}

#[test]
fn unknown_tokens_are_mid_grey_and_track_colours_are_per_kind() {
    assert_eq!(theme_token(true, true, "--nonsense"), "hsl(0 0% 50%)");
    assert_eq!(theme_token(false, true, "--primary"), "hsl(200, 90%, 52%)");
    assert_eq!(
        resolve_token(&vec![vec![("--a", "1")], vec![("--b", "2")], vec![("--a", "3"), ("--a", "4")]], "--a"),
        "3"
    );
    assert_eq!(track_color_hex("text"), Some("#5DBAA0"));
    assert_eq!(track_color_hex("video"), None);
}
