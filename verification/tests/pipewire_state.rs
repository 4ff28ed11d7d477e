use pweq::describe::{describe_filters, first_missing, int_to_text, DescribeError, FilterInfo, FilterParam};
use pweq::dump::{
    find_eq_node, find_prop, get_default_audio_sink, is_managed_eq, list_eqs, parse_wpctl_node_id,
    PropValue, PwObject, PwObjectType, SinkError, WpctlError,
};
use pweq::filter_id::{pw_cli_args, update_filter_args, FilterId, FilterIdError, UpdateFilter};
use pweq::module::{
    extract_pw_module_filters, BiquadCoefficients, Config, Control, ExtractError, FilterType,
    NodeKind, ParamEqConfig, ParamEqFilter,
};

fn s(t: &str) -> String {
    t.to_string()
}

fn eq_node(id: u32, name: &str, managed: bool) -> PwObject {
    PwObject {
        id,
        object_type: PwObjectType::Node,
        props: vec![
            (s("media.name"), PropValue::Str(s(name))),
            (s("pweq.managed"), PropValue::Bool(managed)),
        ],
    }
}

#[test]
fn filter_id_round_trips() {
    assert_eq!(FilterId::from_str("preamp"), Ok(FilterId::Preamp));
    assert_eq!(FilterId::from_str("PreAmp"), Ok(FilterId::Preamp));
    assert_eq!(FilterId::from_str("12"), Ok(FilterId::Index(12)));
    assert_eq!(FilterId::from_str("0"), Err(FilterIdError::ZeroIndex));
    assert_eq!(FilterId::from_str("x1"), Err(FilterIdError::InvalidIndex));
    for id in [FilterId::Preamp, FilterId::Index(1), FilterId::Index(31)] {
        assert_eq!(FilterId::from_str(&id.to_string()), Ok(id));
    }
    assert_eq!(FilterId::Index(7).to_string(), "7");
    assert_eq!(FilterId::Preamp.to_string(), "preamp");
}

#[test]
fn filter_ids_order_preamp_first() {
    assert!(FilterId::Preamp < FilterId::Index(1));
    assert!(FilterId::Index(2) < FilterId::Index(10));
}

#[test]
fn pw_cli_arguments_for_updates() {
    let updates = vec![
        (
            FilterId::Preamp,
            UpdateFilter { frequency: None, gain: Some(s("-3")), q: None, coeffs: None },
        ),
        (
            FilterId::Index(2),
            UpdateFilter {
                frequency: Some(s("1000")),
                gain: Some(s("1.5")),
                q: Some(s("0.7")),
                coeffs: Some(BiquadCoefficients {
                    b0: s("1"),
                    b1: s("2"),
                    b2: s("3"),
                    a1: s("4"),
                    a2: s("5"),
                }),
            },
        ),
    ];
    let args = pw_cli_args(42, &updates).unwrap();
    assert_eq!(args.len(), 4);
    assert_eq!(args[0], "set-param");
    assert_eq!(args[1], "42");
    assert_eq!(args[2], "Props");
    assert_eq!(
        args[3],
        "{ params = [ \"pweq.filter_preamp:Gain\", -3, \"pweq.filter_2:Freq\", 1000, \
         \"pweq.filter_2:Gain\", 1.5, \"pweq.filter_2:Q\", 0.7, \"pweq.filter_2:b0\", 1, \
         \"pweq.filter_2:b1\", 2, \"pweq.filter_2:b2\", 3, \"pweq.filter_2:a1\", 4, \
         \"pweq.filter_2:a2\", 5 ] }"
    );
}

#[test]
fn pw_cli_arguments_need_an_update() {
    assert_eq!(pw_cli_args(1, &vec![]), None);
}

#[test]
fn one_update_is_a_list_of_one() {
    let u = || UpdateFilter { frequency: None, gain: Some(s("-2.5")), q: None, coeffs: None };
    let one = update_filter_args(7, FilterId::Index(3), u());
    assert_eq!(Some(one.clone()), pw_cli_args(7, &vec![(FilterId::Index(3), u())]));
    assert_eq!(one[3], "{ params = [ \"pweq.filter_3:Gain\", -2.5 ] }");
    let empty = update_filter_args(7, FilterId::Preamp, UpdateFilter { frequency: None, gain: None, q: None, coeffs: None });
    assert_eq!(empty[3], "{ params = [  ] }");
}

#[test]
fn managed_eqs_are_listed() {
    let objects = vec![
        eq_node(10, "pweq-5", true),
        eq_node(11, "other", false),
        PwObject { id: 12, object_type: PwObjectType::Node, props: vec![(s("pweq.managed"), PropValue::Bool(true))] },
        PwObject { id: 13, object_type: PwObjectType::Module, props: vec![(s("pweq.managed"), PropValue::Bool(true))] },
    ];
    assert!(is_managed_eq(&objects[0]));
    assert!(!is_managed_eq(&objects[1]));
    assert!(is_managed_eq(&objects[3]));
    let eqs = list_eqs(&objects);
    assert_eq!(eqs.len(), 2);
    assert_eq!((eqs[0].id, eqs[0].name.as_str()), (10, "pweq-5"));
    assert_eq!((eqs[1].id, eqs[1].name.as_str()), (12, "Unknown"));
}

#[test]
fn eq_found_by_id_or_name() {
    let objects = vec![eq_node(10, "a", true), eq_node(20, "b", true), eq_node(30, "c", false)];
    assert_eq!(find_eq_node(&objects, "20"), Some(1));
    assert_eq!(find_eq_node(&objects, "b"), Some(1));
    assert_eq!(find_eq_node(&objects, "c"), None);
    assert_eq!(find_eq_node(&objects, "99"), None);
    assert_eq!(find_prop(&objects[0].props, "pweq.managed"), Some(1));
    assert_eq!(find_prop(&objects[0].props, "nothing"), None);
}

#[test]
fn wpctl_output_gives_the_node_id() {
    assert_eq!(parse_wpctl_node_id("id 57, type PipeWire:Interface:Node\n  x = y"), Ok(57));
    assert_eq!(parse_wpctl_node_id(""), Err(WpctlError::EmptyOutput));
    assert_eq!(parse_wpctl_node_id("id"), Err(WpctlError::InvalidNodeId));
    assert_eq!(parse_wpctl_node_id("id x, type"), Err(WpctlError::InvalidNodeId));
}

#[test]
fn default_sink_description() {
    let objects = vec![
        PwObject {
            id: 5,
            object_type: PwObjectType::Node,
            props: vec![
                (s("node.name"), PropValue::Str(s("alsa_output"))),
                (s("object.serial"), PropValue::Int(77)),
            ],
        },
        PwObject { id: 6, object_type: PwObjectType::Node, props: vec![(s("node.name"), PropValue::Str(s("x")))] },
        PwObject { id: 7, object_type: PwObjectType::Node, props: vec![] },
    ];
    let info = get_default_audio_sink(5, &objects).unwrap();
    assert_eq!((info.node_id, info.node_name.as_str(), info.object_serial), (5, "alsa_output", 77));
    assert_eq!(get_default_audio_sink(6, &objects).err(), Some(SinkError::MissingObjectSerial));
    assert_eq!(get_default_audio_sink(7, &objects).err(), Some(SinkError::MissingNodeName));
    assert_eq!(get_default_audio_sink(8, &objects).err(), Some(SinkError::NotFound));
}

#[test]
fn props_describe_the_bands() {
    let props = vec![
        vec![(s("volume"), PropValue::Number(s("1.0")))],
        vec![
            (s("pweq.filter_2:Freq"), PropValue::Number(s("1000.0"))),
            (s("pweq.filter_preamp:Gain"), PropValue::Number(s("-3.5"))),
            (s("pweq.filter_2:Gain"), PropValue::Int(-2)),
            (s("pweq.filter_1:b0"), PropValue::Number(s("0.9"))),
            (s("other"), PropValue::Null),
        ],
        vec![(s("pweq.filter_9:Freq"), PropValue::Number(s("5.0")))],
    ];
    let bands = describe_filters(&props).unwrap();
    let ids: Vec<FilterId> = bands.iter().map(|b| b.0).collect();
    assert_eq!(ids, vec![FilterId::Preamp, FilterId::Index(1), FilterId::Index(2)]);
    assert_eq!(bands[0].1.gain.as_deref(), Some("-3.5"));
    assert_eq!(bands[1].1.b0.as_deref(), Some("0.9"));
    assert_eq!(bands[2].1.freq.as_deref(), Some("1000.0"));
    assert_eq!(bands[2].1.gain.as_deref(), Some("-2"));
    assert_eq!(bands[2].1.q, None);
}

#[test]
fn describe_errors() {
    let bad_id = vec![vec![(s("pweq.filter_0:Freq"), PropValue::Number(s("1")))]];
    assert_eq!(
        describe_filters(&bad_id).err(),
        Some(DescribeError::InvalidFilterId(s("pweq.filter_0:Freq"), FilterIdError::ZeroIndex))
    );
    let bad_value = vec![vec![(s("pweq.filter_1:Freq"), PropValue::Str(s("high")))]];
    assert_eq!(describe_filters(&bad_value).err(), Some(DescribeError::InvalidValue(s("pweq.filter_1:Freq"))));
    let bad_name = vec![vec![(s("pweq.filter_1:Color"), PropValue::Int(1))]];
    assert_eq!(describe_filters(&bad_name).err(), Some(DescribeError::UnknownParam(s("Color"))));
    assert!(describe_filters(&vec![]).unwrap().is_empty());
}

#[test]
fn integers_as_text() {
    assert_eq!(int_to_text(0).into_iter().collect::<String>(), "0");
    assert_eq!(int_to_text(-45).into_iter().collect::<String>(), "-45");
    assert_eq!(int_to_text(i64::MIN).into_iter().collect::<String>(), "-9223372036854775808");
}

#[test]
fn saved_param_eq_reads_back() {
    let config = Config::from_kinds(
        "saved",
        s("-2.5"),
        vec![NodeKind::ParamEq {
            config: ParamEqConfig {
                filters: vec![ParamEqFilter {
                    ty: FilterType::Peaking,
                    control: Control { freq: s("100"), q: s("1"), gain: s("3") },
                }],
            },
        }],
    );
    let (preamp, filters) = extract_pw_module_filters(&config).unwrap();
    assert_eq!(preamp, "-2.5");
    assert_eq!(filters.len(), 1);
    assert_eq!(filters[0].ty, FilterType::Peaking);
    assert_eq!(filters[0].control.freq, "100");
}

#[test]
fn extract_errors() {
    let none = Config { context_modules: vec![] };
    assert_eq!(extract_pw_module_filters(&none).err(), Some(ExtractError::NoModule));
    let two = Config {
        context_modules: vec![
            Config::from_kinds(
                "a",
                s("-2"),
                vec![NodeKind::Peaking { control: Control { freq: s("100"), q: s("1"), gain: s("3") } }],
            )
            .context_modules
            .pop()
            .unwrap(),
            Config::from_kinds("b", s("0"), vec![]).context_modules.pop().unwrap(),
        ],
    };
    let (preamp, filters) = extract_pw_module_filters(&two).unwrap();
    assert_eq!(preamp, "-2");
    assert_eq!(filters.len(), 1);
    assert_eq!(filters[0].control.freq, "100");
    let raw = Config::from_kinds(
        "r",
        s("0"),
        vec![NodeKind::Raw { config: pweq::module::RawNodeConfig { coefficients: vec![] } }],
    );
    assert_eq!(extract_pw_module_filters(&raw).err(), Some(ExtractError::RawNode));
}

#[test]
fn first_missing_parameter() {
    let mut info = FilterInfo {
        freq: None,
        gain: None,
        q: None,
        a0: None,
        a1: None,
        a2: None,
        b0: None,
        b1: None,
        b2: None,
    };
    assert_eq!(first_missing(&info), Some(FilterParam::Freq));
    info.freq = Some(s("100"));
    assert_eq!(first_missing(&info), Some(FilterParam::Gain));
    info.gain = Some(s("-2"));
    assert_eq!(first_missing(&info), Some(FilterParam::Q));
    info.q = Some(s("0.7"));
    assert_eq!(first_missing(&info), None);
}

#[test]
fn apo_module_reads_back_as_its_filters() {
    let f = |n: u32, enabled: bool, t: FilterType, fr: &str, g: &str, q: &str| pweq::apo::Filter {
        number: n,
        enabled,
        filter_type: t,
        frequency: s(fr),
        gain: s(g),
        q: s(q),
    };
    let apo_config = pweq::apo::Config {
        preamp: s("-3.1"),
        filters: vec![
            f(1, true, FilterType::LowShelf, "105", "2.5", "0.7"),
            f(2, false, FilterType::Peaking, "1000", "-1", "1.4"),
            f(3, true, FilterType::HighShelf, "8000", "1.5", "0.7"),
        ],
    };
    let config = Config::from_apo("living", &apo_config);
    let (preamp, filters) = extract_pw_module_filters(&config).unwrap();
    assert_eq!(preamp, "-3.1");
    let got: Vec<(FilterType, String, String, String)> = filters
        .iter()
        .map(|p| (p.ty, p.control.freq.clone(), p.control.q.clone(), p.control.gain.clone()))
        .collect();
    assert_eq!(
        got,
        vec![
            (FilterType::LowShelf, s("105"), s("0.7"), s("2.5")),
            (FilterType::Peaking, s("1000"), s("1.4"), s("-1")),
            (FilterType::HighShelf, s("8000"), s("0.7"), s("1.5")),
        ]
    );
}
