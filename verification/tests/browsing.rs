use pweq::autoeq::{band_filter_type, matching_results, AutoEqBrowser, Entry, Filter, Form, Target};
use pweq::keymap::{Config, KeyMap};
use pweq::module::FilterType;
use pweq::routing::{detect_audio_stream, do_route_stream, is_default_metadata, load_step, LoadStep, Notif, Router};

fn s(t: &str) -> String {
    t.to_string()
}

fn entry(source: &str) -> Entry {
    Entry { form: Form::OverEar, rig: None, source: s(source) }
}

fn target(label: &str) -> Target {
    Target {
        label: s(label),
        compatible: vec![],
        recommended: vec![],
        bass_boost: Filter { fc: s("105"), q: s("0.7"), gain: s("6") },
    }
}

fn catalogue() -> Vec<(String, Vec<Entry>)> {
    vec![
        (s("AKG K701"), vec![entry("oratory1990")]),
        (s("HiFiMAN Sundara"), vec![entry("crinacle"), entry("oratory1990")]),
        (s("Sennheiser HD 600"), vec![entry("Rtings")]),
    ]
}

#[test]
fn keymap_bind_get_merge() {
    let mut km: KeyMap<u8, char, u32> = KeyMap::new();
    assert_eq!(km.bind(0, 'a', 1), None);
    assert_eq!(km.bind(0, 'a', 2), Some(1));
    km.bind(0, 'b', 3);
    km.bind(1, 'a', 4);
    assert_eq!(km.get(&0, &'a'), Some(&2));
    assert_eq!(km.get(&1, &'a'), Some(&4));
    assert_eq!(km.get(&2, &'a'), None);
    let keys: Vec<(char, u32)> = km.iter_mode(&0).into_iter().map(|(k, v)| (*k, *v)).collect();
    assert_eq!(keys, vec![('a', 2), ('b', 3)]);
    assert!(km.iter_mode(&5).is_empty());

    let mut other: KeyMap<u8, char, u32> = KeyMap::default();
    other.bind(0, 'b', 30);
    other.bind(2, 'z', 9);
    km.merge(other);
    assert_eq!(km.get(&0, &'a'), Some(&2));
    assert_eq!(km.get(&0, &'b'), Some(&30));
    assert_eq!(km.get(&2, &'z'), Some(&9));
}

#[test]
fn config_merge_is_right_biased() {
    let mut a: KeyMap<u8, char, u32> = KeyMap::new();
    a.bind(0, 'a', 1);
    a.bind(0, 'b', 2);
    let mut b: KeyMap<u8, char, u32> = KeyMap::new();
    b.bind(0, 'b', 20);
    b.bind(1, 'c', 30);
    let merged = Config { keymap: a, theme: "light" }.merge(Config { keymap: b, theme: "dark" });
    assert_eq!(merged.theme, "dark");
    assert_eq!(merged.keymap.get(&0, &'a'), Some(&1));
    assert_eq!(merged.keymap.get(&0, &'b'), Some(&20));
    assert_eq!(merged.keymap.get(&1, &'c'), Some(&30));
    assert_eq!(merged.keymap.get(&1, &'a'), None);
}

#[test]
fn browser_filters_by_name() {
    let mut b = AutoEqBrowser::default();
    b.on_data_loaded(catalogue(), vec![target("Harman in-ear 2019"), target("Harman Over-Ear 2018")]);
    assert!(!b.loading);
    assert_eq!(b.filtered_results.len(), 4);
    assert_eq!(b.selected_target_index, 1);
    assert_eq!(b.selected_target().unwrap().label, "Harman Over-Ear 2018");

    b.filter_query = s("SUND");
    b.selected_index = 3;
    b.update_filtered_results();
    assert_eq!(b.filtered_results.len(), 2);
    assert_eq!(b.filtered_results[0].0, "HiFiMAN Sundara");
    assert_eq!(b.filtered_results[1].1.source, "oratory1990");
    assert_eq!(b.selected_index, 0);
    b.selected_index = 1;
    assert_eq!(b.selected_entry().unwrap().1.source, "oratory1990");

    b.filter_query = s("nothing matches");
    b.update_filtered_results();
    assert!(b.filtered_results.is_empty());
    assert!(b.selected_entry().is_none());
}

#[test]
fn browser_selection_moves() {
    let mut b = AutoEqBrowser::default();
    b.next_target();
    b.previous_target();
    assert_eq!(b.selected_target_index, 0);
    b.on_data_loaded(catalogue(), vec![target("A"), target("B"), target("C")]);
    assert_eq!(b.filtered_results.len(), 4);
    b.select_previous();
    assert_eq!(b.selected_index, 0);
    b.select_next();
    b.select_next();
    b.select_next();
    assert_eq!(b.selected_index, 3);
    b.select_next();
    assert_eq!(b.selected_index, 3);
    b.select_previous();
    assert_eq!(b.selected_index, 2);
    b.selected_target_index = 2;
    b.next_target();
    assert_eq!(b.selected_target_index, 0);
    b.previous_target();
    assert_eq!(b.selected_target_index, 2);
    b.previous_target();
    assert_eq!(b.selected_target_index, 1);
    b.selected_target_index = 7;
    b.next_target();
    assert_eq!(b.selected_target_index, 2);
}

#[test]
fn browser_without_catalogue() {
    let mut b = AutoEqBrowser::default();
    b.selected_index = 7;
    b.update_filtered_results();
    assert!(b.filtered_results.is_empty());
    assert_eq!(b.selected_index, 7);
    assert!(b.selected_target().is_none());
}

#[test]
fn browser_keeps_target_without_default() {
    let mut b = AutoEqBrowser::default();
    b.selected_target_index = 1;
    b.on_data_loaded(catalogue(), vec![target("A"), target("B")]);
    assert_eq!(b.selected_target_index, 1);
    assert_eq!(b.selected_target().unwrap().label, "B");
}

#[test]
fn autoeq_band_types() {
    assert_eq!(band_filter_type(0, 5, true, false), FilterType::LowShelf);
    assert_eq!(band_filter_type(0, 5, false, false), FilterType::Peaking);
    assert_eq!(band_filter_type(4, 5, false, true), FilterType::HighShelf);
    assert_eq!(band_filter_type(2, 5, true, true), FilterType::Peaking);
    assert_eq!(band_filter_type(0, 1, false, true), FilterType::HighShelf);
}

#[test]
fn streams_are_detected() {
    let st = detect_audio_stream(5, Some("firefox"), Some("Stream/Output/Audio"), Some("77")).unwrap();
    assert_eq!((st.node_id, st.node_name.as_str()), (5, "firefox"));
    assert_eq!(st.original_target_object.as_deref(), Some("77"));
    assert!(detect_audio_stream(6, Some("pw-eq-monitor"), Some("Stream/Output/Audio"), None).is_none());
    assert!(detect_audio_stream(7, Some("mic"), Some("Stream/Input/Audio"), None).is_none());
    assert!(detect_audio_stream(8, None, Some("Stream/Output/Audio"), None).is_none());
    assert!(is_default_metadata(Some("default")));
    assert!(!is_default_metadata(Some("settings")));
    assert!(!is_default_metadata(None));
}

#[test]
fn routing_follows_the_active_node() {
    let mut r = Router::new(Some(40));
    let a = detect_audio_stream(1, Some("a"), Some("Stream/Output/Audio"), None).unwrap();
    let b = detect_audio_stream(2, Some("b"), Some("Stream/Output/Audio"), Some("55")).unwrap();
    assert!(r.on_stream(a).is_empty());
    r.bind_metadata();
    assert_eq!(r.set_active_node(99).len(), 1);
    let routes = r.on_stream(b);
    assert_eq!(routes.len(), 1);
    assert_eq!((routes[0].subject, routes[0].value.as_str()), (2, "99"));
    assert_eq!(routes[0].key, "target.object");
    assert_eq!(routes[0].value_type, "Spa:Id");

    let all = r.set_active_node(100);
    let pairs: Vec<(u32, &str)> = all.iter().map(|c| (c.subject, c.value.as_str())).collect();
    assert_eq!(pairs, vec![(1, "100"), (2, "100")]);

    let again = detect_audio_stream(1, Some("a2"), Some("Stream/Output/Audio"), Some("7")).unwrap();
    r.on_stream(again);
    assert_eq!(r.streams.len(), 2);

    let back = r.cleanup();
    let pairs: Vec<(u32, &str)> = back.iter().map(|c| (c.subject, c.value.as_str())).collect();
    assert_eq!(pairs, vec![(1, "7"), (2, "55")]);
}

#[test]
fn cleanup_uses_the_default_sink() {
    let mut r = Router::new(Some(-3));
    r.bind_metadata();
    r.on_stream(detect_audio_stream(4, Some("x"), Some("Stream/Output/Audio"), None).unwrap());
    let back = r.cleanup();
    assert_eq!(back.len(), 1);
    assert_eq!(back[0].value, "-3");
    let mut none = Router::new(None);
    none.bind_metadata();
    none.on_stream(detect_audio_stream(4, Some("x"), Some("Stream/Output/Audio"), None).unwrap());
    assert!(none.cleanup().is_empty());
    let unbound = Router::new(Some(1));
    assert!(unbound.cleanup().is_empty());
}

#[test]
fn route_command_fields() {
    let st = detect_audio_stream(9, Some("mpv"), Some("Stream/Output/Audio"), None).unwrap();
    let c = do_route_stream(&st, "123");
    assert_eq!((c.subject, c.key.as_str(), c.value_type.as_str(), c.value.as_str()), (9, "target.object", "Spa:Id", "123"));
    let n = Notif::ModuleLoaded { id: 1, name: s("m"), media_name: s("pweq"), reused: true };
    assert!(matches!(n, Notif::ModuleLoaded { reused: true, .. }));
}

#[test]
fn catalogue_cache_freshness() {
    assert!(pweq::autoeq::cache_fresh(1000, 1000));
    assert!(pweq::autoeq::cache_fresh(86400, 0));
    assert!(!pweq::autoeq::cache_fresh(86401, 0));
    assert!(pweq::autoeq::cache_fresh(200000, 200000 - 86400));
    assert!(!pweq::autoeq::cache_fresh(200000, 200000 - 86401));
}

#[test]
fn loading_starts_only_without_a_catalogue() {
    let mut b = AutoEqBrowser::default();
    assert!(b.begin_loading());
    assert!(b.loading);
    b.on_data_loaded(catalogue(), vec![target("Harman Over-Ear 2018")]);
    assert!(!b.loading);
    assert!(!b.begin_loading());
    assert!(!b.loading);
}

#[test]
fn applying_the_selection_builds_a_request() {
    let mut b = AutoEqBrowser::default();
    assert!(b.apply_selected(48000).is_none());
    b.on_data_loaded(catalogue(), vec![target("Harman in-ear 2019"), target("harman over-ear 2018")]);
    b.selected_index = 1;
    let (req, msg) = b.apply_selected(44100).unwrap();
    assert_eq!(req.name, "HiFiMAN Sundara");
    assert_eq!(req.source, "crinacle");
    assert_eq!(req.target, "harman over-ear 2018");
    assert_eq!(req.rig, None);
    assert_eq!(req.sample_rate, 44100);
    assert_eq!(msg, "Fetching EQ for HiFiMAN Sundara from crinacle...");
    b.selected_target_index = 5;
    assert!(b.apply_selected(44100).is_none());
}

#[test]
fn modules_are_reused_per_node_count() {
    let cached = vec![(4usize, 31u32), (6, 40), (4, 52)];
    assert_eq!(load_step(&cached, 4), LoadStep::Reuse { index: 0, id: 31 });
    assert_eq!(load_step(&cached, 6), LoadStep::Reuse { index: 1, id: 40 });
    assert_eq!(load_step(&cached, 5), LoadStep::Load);
    assert_eq!(load_step(&vec![], 1), LoadStep::Load);
}

#[test]
fn keymap_reads_the_last_write() {
    let mut km: KeyMap<u8, char, u32> = KeyMap::new();
    km.bind(0, 'a', 1);
    let mut other: KeyMap<u8, char, u32> = KeyMap::new();
    other.bind(0, 'a', 2);
    other.bind(1, 'b', 5);
    km.merge(other);
    assert_eq!(km.get(&0, &'a'), Some(&2));
    km.bind(0, 'a', 3);
    assert_eq!(km.get(&0, &'a'), Some(&3));
    km.merge(KeyMap::new());
    assert_eq!(km.get(&0, &'a'), Some(&3));
    assert_eq!(km.get(&1, &'b'), Some(&5));
    assert_eq!(km.get(&1, &'a'), None);
}

#[test]
fn browser_header_names_the_target() {
    let mut b = AutoEqBrowser::default();
    assert_eq!(b.header_text(), "AutoEQ Browser - Loading...");
    b.on_data_loaded(catalogue(), vec![target("Harman in-ear 2019"), target("Harman Over-Ear 2018")]);
    assert_eq!(b.header_text(), "AutoEQ Browser - Target: Harman Over-Ear 2018");
    b.selected_target_index = 7;
    assert_eq!(b.header_text(), "AutoEQ Browser - Target: (none)");
}

#[test]
fn matching_uses_the_lowered_names() {
    let groups = catalogue();
    let lowered = vec![s("akg k701"), s("hifiman sundara"), s("sennheiser hd 600")];
    let r = matching_results(&groups, &lowered, "sund");
    assert_eq!(r.len(), 2);
    assert_eq!(r[0].0, "HiFiMAN Sundara");
    assert_eq!(matching_results(&groups, &lowered, "").len(), 4);
    assert!(matching_results(&groups, &lowered, "SUND").is_empty());
}
