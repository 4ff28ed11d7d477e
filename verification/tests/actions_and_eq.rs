use pweq::actions::{
    format_for_extension, key_with_lowered, normalize_key, overwrite_refusal, profile_file_kind, Adjustment, AutoEqAction, EqAction, Format, Preset,
    PresetError, ProfileFile,
};
use pweq::eq::{Band, Rotation};
use pweq::module::{BiquadCoefficients, FilterType, NodeKind};
use pweq::filter_id::FilterId;
use pweq::text::{sort_texts, str_eq};

fn s(t: &str) -> String {
    t.to_string()
}

fn band(freq: &str, gain: &str) -> Band {
    Band { frequency: s(freq), gain: s(gain), q: s("1"), filter_type: FilterType::Peaking, muted: false }
}

fn coeffs(x: &str) -> BiquadCoefficients {
    BiquadCoefficients { b0: s(x), b1: s(x), b2: s(x), a1: s(x), a2: s(x) }
}

#[test]
fn action_descriptions() {
    assert_eq!(EqAction::AddFilter.description().as_deref(), Some("add"));
    assert_eq!(EqAction::AdjustGain(Adjustment::Absolute(s("0.0"))).description().as_deref(), Some("zero gain"));
    assert_eq!(EqAction::AdjustGain(Adjustment::Absolute(s("2"))).description().as_deref(), Some("gain"));
    assert_eq!(EqAction::AdjustGain(Adjustment::Multiplier(s("0"))).description().as_deref(), Some("gain"));
    assert_eq!(EqAction::CycleFilterType(Rotation::Clockwise).description().as_deref(), Some("cycle type"));
    assert_eq!(EqAction::EnterCommandMode.description(), None);
    assert_eq!(AutoEqAction::CycleTarget(Rotation::CounterClockwise).description().as_deref(), Some("cycle target"));
    assert_eq!(AutoEqAction::EnterEqMode.description().as_deref(), Some("close"));
    assert_eq!(AutoEqAction::EnterCommandMode.description(), None);
}

#[test]
fn presets_by_name() {
    assert_eq!(Preset::from_str("flat10"), Ok(Preset::Flat { bands: 10 }));
    assert_eq!(Preset::from_str("Flat-5"), Ok(Preset::Flat { bands: 5 }));
    assert_eq!(Preset::from_str("FLAT31"), Ok(Preset::Flat { bands: 31 }));
    assert_eq!(Preset::from_str("flat0"), Err(PresetError::BandCount(0)));
    assert_eq!(Preset::from_str("flat32"), Err(PresetError::BandCount(32)));
    assert_eq!(Preset::from_str("flatx"), Err(PresetError::InvalidNumber(s("x"))));
    assert_eq!(Preset::from_str("bassy"), Err(PresetError::Unknown(s("bassy"))));
    assert_eq!(Preset::from_str("Loud"), Err(PresetError::Unknown(s("loud"))));
}

#[test]
fn file_kinds() {
    assert_eq!(format_for_extension(Some("apo")), Format::Apo);
    assert_eq!(format_for_extension(Some("APO")), Format::PwParamEq);
    assert_eq!(format_for_extension(None), Format::PwParamEq);
    assert_eq!(profile_file_kind(Some("apo")), Some(ProfileFile::Apo));
    assert_eq!(profile_file_kind(Some("Apo")), Some(ProfileFile::Apo));
    assert_eq!(profile_file_kind(Some("conf")), None);
    assert_eq!(profile_file_kind(Some("txt")), None);
    assert_eq!(profile_file_kind(None), None);
}

#[test]
fn filter_types_cycle() {
    let mut t = FilterType::LowShelf;
    for _ in 0..7 {
        t = t.rotate(Rotation::Clockwise);
    }
    assert_eq!(t, FilterType::LowShelf);
    for start in [FilterType::Peaking, FilterType::Notch, FilterType::HighShelf] {
        assert_eq!(start.rotate(Rotation::Clockwise).rotate(Rotation::CounterClockwise), start);
    }
    assert_eq!(FilterType::HighShelf.rotate(Rotation::Clockwise), FilterType::LowShelf);
    assert!(FilterType::Notch.ignores_gain());
    assert!(!FilterType::Peaking.ignores_gain());
}

#[test]
fn editing_bands() {
    let mut eq = pweq::eq::Eq::new(s("pweq"), vec![band("100", "1"), band("1000", "2")], s("-2"));
    eq.add_filter(s("316"));
    assert_eq!(eq.filters.len(), 3);
    assert_eq!(eq.filters[1].frequency, "316");
    assert_eq!(eq.filters[1].gain, "0");
    assert_eq!(eq.selected_idx, 1);
    eq.delete_selected_filter();
    assert_eq!(eq.filters.len(), 2);
    assert_eq!(eq.filters[1].frequency, "1000");
    eq.select_next_filter();
    eq.select_next_filter();
    assert_eq!(eq.selected_idx, 1);
    eq.select_prev_filter();
    eq.select_prev_filter();
    assert_eq!(eq.selected_idx, 0);
    eq.select_index(1);
    assert_eq!(eq.selected_idx, 1);
    eq.select_index(9);
    assert_eq!(eq.selected_idx, 1);
    eq.cycle_filter_type(Rotation::CounterClockwise);
    assert_eq!(eq.filters[1].filter_type, FilterType::LowPass);
    eq.toggle_mute();
    assert!(eq.band_muted(1));
    assert!(!eq.band_muted(0));
    eq.toggle_bypass();
    assert!(eq.band_muted(0));
    eq.set_frequency(s("2000"));
    eq.set_q(s("0.5"));
    assert_eq!((eq.filters[1].frequency.as_str(), eq.filters[1].q.as_str()), ("2000", "0.5"));
}

#[test]
fn delete_keeps_one_band() {
    let mut eq = pweq::eq::Eq::new(s("x"), vec![band("100", "1")], s("0"));
    eq.delete_selected_filter();
    assert_eq!(eq.filters.len(), 1);
}

#[test]
fn add_at_capacity_does_nothing() {
    let bands: Vec<Band> = (0..31).map(|i| band(&format!("{}", 20 + i), "0")).collect();
    let mut eq = pweq::eq::Eq::new(s("full"), bands, s("0"));
    eq.add_filter(s("5000"));
    assert_eq!(eq.filters.len(), 31);
    assert_eq!(eq.selected_idx, 0);
}

#[test]
fn updates_for_pipewire() {
    let mut eq = pweq::eq::Eq::new(s("pweq"), vec![band("100", "1.5"), band("1000", "2")], s("-2"));
    let p = eq.build_preamp_update();
    assert_eq!(p.gain.as_deref(), Some("-2"));
    assert!(p.frequency.is_none());
    eq.toggle_mute();
    let u = eq.build_filter_update(0, coeffs("0.5"));
    assert_eq!(u.gain.as_deref(), Some("0"));
    assert_eq!(u.frequency.as_deref(), Some("100"));
    let all = eq.build_all_updates(vec![coeffs("1"), coeffs("2")]);
    assert_eq!(all.len(), 3);
    assert_eq!(all[0].0, FilterId::Preamp);
    assert_eq!(all[2].0, FilterId::Index(2));
    assert_eq!(all[2].1.gain.as_deref(), Some("2"));
    assert_eq!(all[2].1.coeffs.as_ref().unwrap().b0, "2");
}

#[test]
fn saved_forms_of_the_equalizer() {
    let mut eq = pweq::eq::Eq::new(s("pweq"), vec![band("100", "1.5"), band("1000", "2")], s("-2"));
    eq.toggle_mute();
    let apo = eq.to_apo_config();
    assert_eq!(apo.preamp, "-2");
    assert_eq!(apo.filters[0].number, 1);
    assert!(!apo.filters[0].enabled);
    assert!(apo.filters[1].enabled);
    let conf = eq.to_param_eq_config();
    assert_eq!(conf.context_modules.len(), 1);
    let nodes = &conf.context_modules[0].args.filter_graph.nodes;
    assert_eq!(nodes.len(), 1);
    match &nodes[0].kind {
        NodeKind::ParamEq { config } => {
            assert_eq!(config.filters.len(), 3);
            assert_eq!(config.filters[0].control.gain, "-2");
            assert_eq!(config.filters[2].control.freq, "1000");
        }
        other => panic!("unexpected {other:?}"),
    }
}

#[test]
fn text_helpers() {
    assert!(str_eq("abc", "abc"));
    assert!(!str_eq("abc", "abd"));
    let sorted = sort_texts(vec![
        "b".chars().collect(),
        "ab".chars().collect(),
        "a".chars().collect(),
        "B".chars().collect(),
    ]);
    let sorted: Vec<String> = sorted.into_iter().map(|v| v.into_iter().collect()).collect();
    assert_eq!(sorted, vec![s("B"), s("a"), s("ab"), s("b")]);
}

#[test]
fn shifted_keys_are_stored_in_lowercase() {
    assert_eq!(normalize_key("<S-R>"), "<S-r>");
    assert_eq!(normalize_key("<S-r>"), "<S-r>");
    assert_eq!(normalize_key("<S-Tab>"), "<S-Tab>");
    assert_eq!(normalize_key("<C-c>"), "<C-c>");
    assert_eq!(normalize_key("R"), "R");
    assert_eq!(normalize_key("<S->"), "<S->");
}

#[test]
fn presets_from_lowercase_text() {
    assert_eq!(Preset::from_lowercase(s("flat-8")), Ok(Preset::Flat { bands: 8 }));
    assert_eq!(Preset::from_lowercase(s("flat0")), Err(PresetError::BandCount(0)));
    assert_eq!(Preset::from_lowercase(s("flatx")), Err(PresetError::InvalidNumber(s("x"))));
    assert_eq!(Preset::from_lowercase(s("bass")), Err(PresetError::Unknown(s("bass"))));
}

#[test]
fn preset_error_messages() {
    assert_eq!(PresetError::InvalidNumber(s("x")).message(), "invalid flat preset number: x");
    assert_eq!(PresetError::BandCount(40).message(), "flat preset bands must be between 1 and 31, got 40");
    assert_eq!(PresetError::Unknown(s("bass")).message(), "unknown preset: bass");
}

#[test]
fn keys_with_a_lowered_character() {
    assert_eq!(key_with_lowered("<S-R>", "r"), "<S-r>");
    assert_eq!(key_with_lowered("<C-c>", "x"), "<C-c>");
    assert_eq!(key_with_lowered("<S-Tab>", "x"), "<S-Tab>");
}

#[test]
fn overwriting_needs_force() {
    assert_eq!(
        overwrite_refusal(true, false, "/tmp/eq.conf"),
        Some(s("file /tmp/eq.conf already exists (use ! to overwrite)"))
    );
    assert_eq!(overwrite_refusal(true, true, "/tmp/eq.conf"), None);
    assert_eq!(overwrite_refusal(false, false, "/tmp/eq.conf"), None);
}
