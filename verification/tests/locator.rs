use message_localization::document::AssetNode;
use message_localization::fallback::enumerate_fallbacks;
use message_localization::interpolate::{apply_message, find_variable};
use message_localization::json::parse_fragment;
use message_localization::locator::{find_fetched, LoadError, MessageLocator};
use message_localization::options::{
    MessageLocatorAssetOptions, MessageLocatorLoadVia, MessageLocatorOptions,
};
use message_localization::resolve::MessageLocatorFormatArgument;
use message_localization::text::{chars_of, copy_texts, split};

fn s(x: &str) -> String {
    x.to_string()
}

fn strings(xs: &[&str]) -> Vec<String> {
    xs.iter().map(|x| x.to_string()).collect()
}

fn path(xs: &[&str]) -> Vec<String> {
    strings(xs)
}

fn sorted(mut xs: Vec<String>) -> Vec<String> {
    xs.sort();
    xs
}

fn fetched(entries: &[(&str, Option<&str>)]) -> Vec<(String, Option<String>)> {
    entries.iter().map(|(p, t)| (p.to_string(), t.map(|x| x.to_string()))).collect()
}

fn locator(
    supported: &[&str],
    default_locale: &str,
    fallbacks: Vec<(String, Vec<String>)>,
    names: &[&str],
    clean: bool,
) -> MessageLocator {
    MessageLocator::new(
        &MessageLocatorOptions::new()
            .supported_locales(strings(supported))
            .default_locale(default_locale)
            .fallbacks(fallbacks)
            .assets(
                &MessageLocatorAssetOptions::new()
                    .src("lang")
                    .base_file_names(strings(names))
                    .clean_unused(clean)
                    .load_via(MessageLocatorLoadVia::FileSystem),
            ),
    )
}

#[test]
fn msg_locator() {
    let mut msg_locator = MessageLocator::new(
        &MessageLocatorOptions::new()
            .supported_locales(vec![s("en-US")])
            .default_locale("en-US")
            .assets(
                &MessageLocatorAssetOptions::new()
                    .src("./tests/res/lang")
                    .base_file_names(vec![s("_")])
                    .clean_unused(true)
                    .load_via(MessageLocatorLoadVia::FileSystem),
            ),
    );
    let table = fetched(&[(
        "./tests/res/lang/en-US/_.json",
        Some("{\"message_id\": \"Some message\"}"),
    )]);
    assert!(msg_locator.load(None, &table).is_ok());
    assert!(msg_locator.supports_locale(&s("en-US")));
    assert_eq!(msg_locator.get("_.message_id"), "Some message".to_string());
}

#[test]
fn closure_of_locale_without_fallbacks_is_itself() {
    let g = vec![(s("pt-BR"), strings(&["pt", "en"]))];
    assert_eq!(enumerate_fallbacks(&g, &s("en")), strings(&["en"]));
    assert_eq!(enumerate_fallbacks(&Vec::new(), &s("fr")), strings(&["fr"]));
    let empty_list = vec![(s("en"), Vec::new())];
    assert_eq!(enumerate_fallbacks(&empty_list, &s("en")), strings(&["en"]));
}

#[test]
fn closure_of_cycle_ends() {
    let g = vec![(s("A"), strings(&["B"])), (s("B"), strings(&["A"]))];
    assert_eq!(sorted(enumerate_fallbacks(&g, &s("A"))), strings(&["A", "B"]));
    assert_eq!(sorted(enumerate_fallbacks(&g, &s("B"))), strings(&["A", "B"]));
    let own = vec![(s("A"), strings(&["A", "A"]))];
    assert_eq!(enumerate_fallbacks(&own, &s("A")), strings(&["A"]));
}

#[test]
fn closure_follows_chains() {
    let g = vec![
        (s("pt-BR"), strings(&["pt", "es"])),
        (s("pt"), strings(&["en"])),
        (s("es"), strings(&["en", "pt"])),
        (s("de"), strings(&["nl"])),
    ];
    assert_eq!(
        sorted(enumerate_fallbacks(&g, &s("pt-BR"))),
        strings(&["en", "es", "pt", "pt-BR"])
    );
    assert_eq!(enumerate_fallbacks(&g, &s("pt-BR"))[0], "pt-BR");
    assert_eq!(sorted(enumerate_fallbacks(&g, &s("pt"))), strings(&["en", "pt"]));
}

#[test]
fn closure_takes_first_entry_of_a_locale() {
    let g = vec![(s("a"), strings(&["b"])), (s("a"), strings(&["c"]))];
    assert_eq!(enumerate_fallbacks(&g, &s("a")), strings(&["a", "b"]));
}

#[test]
fn split_cuts_at_every_separator() {
    assert_eq!(split("a.b.c", '.'), strings(&["a", "b", "c"]));
    assert_eq!(split("", '.'), strings(&[""]));
    assert_eq!(split("a..b", '.'), strings(&["a", "", "b"]));
    assert_eq!(split(".a.", '.'), strings(&["", "a", ""]));
    assert_eq!(split("no separator", '/'), strings(&["no separator"]));
    assert_eq!(split("ü/é", '/'), strings(&["ü", "é"]));
}

#[test]
fn chars_and_copies() {
    assert_eq!(chars_of("aé$"), vec!['a', 'é', '$']);
    assert_eq!(copy_texts(&strings(&["x", "y"])), strings(&["x", "y"]));
}

#[test]
fn merge_is_idempotent() {
    let mut once = AssetNode::new();
    once.apply_deep("a/b", AssetNode::Text(s("v")));
    let mut twice = AssetNode::new();
    twice.apply_deep("a/b", AssetNode::Text(s("v")));
    twice.apply_deep("a/b", AssetNode::Text(s("v")));
    assert_eq!(once.resolve_id(&path(&["a", "b"])), Some(s("v")));
    assert_eq!(twice.resolve_id(&path(&["a", "b"])), Some(s("v")));
    match (&once, &twice) {
        (AssetNode::Table(x), AssetNode::Table(y)) => {
            assert_eq!(x.len(), 1);
            assert_eq!(y.len(), 1);
            match (&x[0].1, &y[0].1) {
                (AssetNode::Table(p), AssetNode::Table(q)) => {
                    assert_eq!(p.len(), 1);
                    assert_eq!(q.len(), 1);
                },
                _ => panic!("no table under a"),
            }
        },
        _ => panic!("no table at the root"),
    }
}

#[test]
fn later_fragment_overwrites() {
    let mut doc = AssetNode::new();
    doc.apply_deep("x/y", AssetNode::Text(s("1")));
    doc.apply_deep("x/z", AssetNode::Text(s("kept")));
    doc.apply_deep("x/y", AssetNode::Text(s("2")));
    assert_eq!(doc.resolve_id(&path(&["x", "y"])), Some(s("2")));
    assert_eq!(doc.resolve_id(&path(&["x", "z"])), Some(s("kept")));
}

#[test]
fn later_fragment_overwrites_in_a_load() {
    let mut l = locator(&["en"], "en", Vec::new(), &["a", "b", "a"], true);
    let table = fetched(&[
        ("lang/en/a.json", Some("{\"y\": \"1\"}")),
        ("lang/en/b.json", Some("{\"y\": \"2\"}")),
    ]);
    assert_eq!(l.load(None, &table), Ok(()));
    assert_eq!(l.get("a.y"), "1");
    assert_eq!(l.get("b.y"), "2");
}

#[test]
fn merge_makes_tables_on_the_way() {
    let mut doc = AssetNode::new();
    doc.apply_deep("a", AssetNode::Text(s("leaf")));
    doc.apply_deep("a/b/c", AssetNode::Text(s("deep")));
    assert_eq!(doc.resolve_id(&path(&["a"])), None);
    assert_eq!(doc.resolve_id(&path(&["a", "b", "c"])), Some(s("deep")));
    doc.apply_deep("a/b", AssetNode::Other);
    assert_eq!(doc.resolve_id(&path(&["a", "b", "c"])), None);
    assert_eq!(doc.resolve_id(&path(&["a", "b"])), None);
}

#[test]
fn lookup_misses() {
    let mut doc = AssetNode::new();
    doc.apply_deep("a", AssetNode::Text(s("leaf")));
    assert_eq!(doc.resolve_id(&path(&["a"])), Some(s("leaf")));
    assert_eq!(doc.resolve_id(&path(&["b"])), None);
    assert_eq!(doc.resolve_id(&path(&["a", "b"])), None);
    assert_eq!(doc.resolve_id(&path(&[])), None);
    assert!(doc.get(&s("a")).is_some());
    assert!(doc.get(&s("zz")).is_none());
    assert!(AssetNode::Other.get(&s("a")).is_none());
}

#[test]
fn parse_reads_strings_and_objects() {
    let doc = parse_fragment("{\"a\": {\"b\": \"text\", \"n\": 3, \"l\": [\"x\"]}, \"t\": \"top\"}")
        .unwrap();
    assert_eq!(doc.resolve_id(&path(&["a", "b"])), Some(s("text")));
    assert_eq!(doc.resolve_id(&path(&["t"])), Some(s("top")));
    assert_eq!(doc.resolve_id(&path(&["a", "n"])), None);
    assert_eq!(doc.resolve_id(&path(&["a", "l"])), None);
    assert!(parse_fragment("{\"a\": ").is_none());
    assert!(parse_fragment("").is_none());
    match parse_fragment("\"only\"").unwrap() {
        AssetNode::Text(t) => assert_eq!(t, "only"),
        _ => panic!("no text"),
    }
    match parse_fragment("12").unwrap() {
        AssetNode::Other => {},
        _ => panic!("a number is no text and no table"),
    }
}

#[test]
fn failed_load_changes_nothing() {
    let g = vec![(s("L"), strings(&["F1", "F2"]))];
    let mut l = locator(&["L", "F1", "F2", "en"], "en", g, &["m"], true);
    let first = fetched(&[("lang/en/m.json", Some("{\"hello\": \"Hello\"}"))]);
    assert_eq!(l.load(None, &first), Ok(()));
    assert_eq!(l.current_locale(), Some(s("en")));
    assert_eq!(l.get("m.hello"), "Hello");

    let second = fetched(&[
        ("lang/L/m.json", Some("{\"hello\": \"L\"}")),
        ("lang/F1/m.json", Some("{\"hello\": \"F1\"}")),
        ("lang/F2/m.json", None),
    ]);
    assert_eq!(l.load(Some(&s("L")), &second), Err(LoadError::FetchFailed));
    assert_eq!(l.current_locale(), Some(s("en")));
    assert_eq!(l.get("m.hello"), "Hello");
    assert_eq!(l.current_locale_seq(), strings(&["en"]));
}

#[test]
fn failed_first_load_leaves_the_locator_unloaded() {
    let mut l = locator(&["en"], "en", Vec::new(), &["m"], true);
    assert_eq!(l.load(None, &Vec::new()), Err(LoadError::FetchFailed));
    assert_eq!(l.current_locale(), None);
    assert!(l.current_locale_seq().is_empty());
    assert_eq!(l.get("m.hello"), "m.hello");
}

#[test]
fn load_errors() {
    let g = vec![(s("en"), strings(&["xx"]))];
    let mut l = locator(&["en", "de"], "en", g, &["m"], true);
    let good = "{\"k\": \"v\"}";
    assert_eq!(
        l.load(Some(&s("fr")), &fetched(&[("lang/fr/m.json", Some(good))])),
        Err(LoadError::UnsupportedLocale)
    );
    assert_eq!(
        l.update_locale(&s("fr"), &fetched(&[("lang/fr/m.json", Some(good))])),
        Err(LoadError::UnsupportedLocale)
    );
    assert_eq!(
        l.load(
            None,
            &fetched(&[("lang/en/m.json", Some(good)), ("lang/xx/m.json", Some(good))])
        ),
        Err(LoadError::MissingPathComponent)
    );
    assert_eq!(
        l.load(Some(&s("de")), &fetched(&[("lang/de/m.json", Some("{not json"))])),
        Err(LoadError::ParseFailed)
    );
    assert_eq!(
        l.load(Some(&s("de")), &fetched(&[("lang/de/other.json", Some(good))])),
        Err(LoadError::FetchFailed)
    );
    assert_eq!(l.current_locale(), None);
    assert_eq!(l.update_locale(&s("de"), &fetched(&[("lang/de/m.json", Some(good))])), Ok(()));
    assert_eq!(l.current_locale(), Some(s("de")));
    assert_eq!(l.get("m.k"), "v");
}

#[test]
fn load_without_fragments_needs_nothing_fetched() {
    let mut l = locator(&["en"], "en", Vec::new(), &[], true);
    assert_eq!(l.load(None, &Vec::new()), Ok(()));
    assert_eq!(l.current_locale(), Some(s("en")));
    assert_eq!(l.get("a.b"), "a.b");
}

#[test]
fn clean_unused_discards_earlier_documents() {
    let g = vec![(s("b"), strings(&["a"]))];
    let table = fetched(&[
        ("lang/a/m.json", Some("{\"x\": \"from a\"}")),
        ("lang/c/m.json", Some("{\"y\": \"from c\"}")),
        ("lang/b/m.json", Some("{\"z\": \"from b\"}")),
    ]);
    let no_a = fetched(&[
        ("lang/c/m.json", Some("{\"y\": \"from c\"}")),
        ("lang/b/m.json", Some("{\"z\": \"from b\"}")),
    ]);

    let mut cleaning = locator(&["a", "b", "c"], "a", g.clone(), &["m"], true);
    assert_eq!(cleaning.load(Some(&s("a")), &table), Ok(()));
    assert_eq!(cleaning.load(Some(&s("c")), &table), Ok(()));
    assert_eq!(cleaning.get("m.y"), "from c");
    let probe = cleaning.get_formatted_with_locale(&s("a"), &path(&["m", "x"]), &Vec::new());
    assert_eq!(probe, None);

    let mut keeping = locator(&["a", "b", "c"], "a", g, &["m"], false);
    assert_eq!(keeping.load(Some(&s("a")), &table), Ok(()));
    assert_eq!(keeping.load(Some(&s("c")), &no_a), Ok(()));
    assert_eq!(keeping.get("m.y"), "from c");
    let probe = keeping.get_formatted_with_locale(&s("a"), &path(&["m", "x"]), &Vec::new());
    assert_eq!(probe, Some(s("from a")));
    let again = fetched(&[("lang/a/m.json", Some("{\"x\": \"newer a\"}"))]);
    assert_eq!(keeping.load(Some(&s("a")), &again), Ok(()));
    assert_eq!(keeping.get("m.x"), "newer a");
}

#[test]
fn resolution_takes_first_fallback_that_has_the_identifier() {
    let g = vec![(s("L"), strings(&["F1", "F2"]))];
    let mut l = locator(&["L", "F1", "F2"], "L", g, &["x"], true);
    let table = fetched(&[
        ("lang/L/x.json", Some("{\"other\": \"L\"}")),
        ("lang/F1/x.json", Some("{\"other\": \"F1\"}")),
        ("lang/F2/x.json", Some("{\"y\": \"from F2\", \"other\": \"F2\"}")),
    ]);
    assert_eq!(l.load(None, &table), Ok(()));
    assert_eq!(l.get("x.y"), "from F2");
    assert_eq!(l.get("x.other"), "L");
    assert_eq!(sorted(l.current_locale_seq()), strings(&["F1", "F2", "L"]));
}

#[test]
fn resolution_is_depth_first() {
    let g = vec![(s("L"), strings(&["F1", "F2"])), (s("F1"), strings(&["G"]))];
    let mut l = locator(&["L", "F1", "F2", "G"], "L", g, &["x"], true);
    let table = fetched(&[
        ("lang/L/x.json", Some("{}")),
        ("lang/F1/x.json", Some("{}")),
        ("lang/F2/x.json", Some("{\"y\": \"from F2\"}")),
        ("lang/G/x.json", Some("{\"y\": \"from G\"}")),
    ]);
    assert_eq!(l.load(None, &table), Ok(()));
    assert_eq!(l.get("x.y"), "from G");
}

#[test]
fn resolution_ends_on_a_cycle() {
    let g = vec![(s("A"), strings(&["B"])), (s("B"), strings(&["A"]))];
    let mut l = locator(&["A", "B"], "A", g, &["x"], true);
    let table = fetched(&[
        ("lang/A/x.json", Some("{}")),
        ("lang/B/x.json", Some("{\"y\": \"B has it\"}")),
    ]);
    assert_eq!(l.load(None, &table), Ok(()));
    assert_eq!(l.get("x.y"), "B has it");
    assert_eq!(l.get("x.none"), "x.none");
}

#[test]
fn missing_identifier_gives_the_identifier() {
    let mut l = locator(&["en"], "en", Vec::new(), &["m"], true);
    assert_eq!(l.get("no.such.id"), "no.such.id");
    let table = fetched(&[("lang/en/m.json", Some("{\"a\": {\"b\": \"t\"}, \"n\": 1}"))]);
    assert_eq!(l.load(None, &table), Ok(()));
    assert_eq!(l.get("no.such.id"), "no.such.id");
    assert_eq!(l.get("m.a"), "m.a");
    assert_eq!(l.get("m.n"), "m.n");
    assert_eq!(l.get("m.a.b.c"), "m.a.b.c");
    assert_eq!(l.get(""), "");
    assert_eq!(
        l.get_formatted("m.zz", &vec![MessageLocatorFormatArgument::Suffix(s("one"))]),
        "m.zz_one"
    );
}

#[test]
fn interpolation() {
    let vars = vec![(s("name"), s("Ann"))];
    assert_eq!(apply_message("Hello $name, cost is $$5", &vars), "Hello Ann, cost is $5");
}

#[test]
fn interpolation_with_missing_variable() {
    assert_eq!(apply_message("$missing", &Vec::new()), "undefined");
}

#[test]
fn interpolation_edges() {
    let vars = vec![(s("a"), s("$b")), (s("b"), s("no")), (s("a-b_9"), s("long")), (s("a"), s("x"))];
    assert_eq!(apply_message("", &vars), "");
    assert_eq!(apply_message("plain", &vars), "plain");
    assert_eq!(apply_message("$", &vars), "$");
    assert_eq!(apply_message("$ a", &vars), "$ a");
    assert_eq!(apply_message("$$", &vars), "$");
    assert_eq!(apply_message("$$$", &vars), "$$");
    assert_eq!(apply_message("$$a", &vars), "$a");
    assert_eq!(apply_message("$a", &vars), "$b");
    assert_eq!(apply_message("$a-b_9!", &vars), "long!");
    assert_eq!(apply_message("$a.$b", &vars), "$b.no");
    assert_eq!(apply_message("$é", &vars), "$é");
    assert_eq!(apply_message("$aé", &vars), "$bé");
    assert_eq!(apply_message("x$a$b", &vars), "x$bno");
    assert_eq!(find_variable(&vars, &s("a")), Some(&s("$b")));
    assert_eq!(find_variable(&vars, &s("zz")), None);
}

#[test]
fn suffix_composition() {
    let mut l = locator(&["en"], "en", Vec::new(), &["m"], true);
    let table = fetched(&[(
        "lang/en/m.json",
        Some("{\"greeting\": \"Hi\", \"greeting_male\": \"Hi Mr $name\", \"items_3\": \"three\"}"),
    )]);
    assert_eq!(l.load(None, &table), Ok(()));
    assert_eq!(
        l.get_formatted("m.greeting", &vec![MessageLocatorFormatArgument::Suffix(s("male"))]),
        "Hi Mr undefined"
    );
    assert_eq!(
        l.get_formatted(
            "m.greeting",
            &vec![
                MessageLocatorFormatArgument::Variables(vec![(s("name"), s("A"))]),
                MessageLocatorFormatArgument::Suffix(s("male")),
                MessageLocatorFormatArgument::Variables(vec![(s("name"), s("B"))]),
            ]
        ),
        "Hi Mr B"
    );
    assert_eq!(
        l.get_formatted("m.items", &vec![MessageLocatorFormatArgument::Scalar(s("3"))]),
        "three"
    );
    assert_eq!(
        l.get_formatted(
            "m.greeting",
            &vec![
                MessageLocatorFormatArgument::Suffix(s("male")),
                MessageLocatorFormatArgument::Suffix(s("x")),
            ]
        ),
        "m.greeting_male_x"
    );
    assert_eq!(l.get_formatted("m.greeting", &Vec::new()), "Hi");
}

#[test]
fn fragment_names_with_separators_nest() {
    let mut l = locator(&["en"], "en", Vec::new(), &["common", "pages/home"], true);
    let table = fetched(&[
        ("lang/en/common.json", Some("{\"ok\": \"OK\"}")),
        ("lang/en/pages/home.json", Some("{\"title\": \"Home\"}")),
    ]);
    assert_eq!(l.load(None, &table), Ok(()));
    assert_eq!(l.get("common.ok"), "OK");
    assert_eq!(l.get("pages.home.title"), "Home");
    assert_eq!(l.fragment_path(&s("en"), &s("pages/home")), "lang/en/pages/home.json");
}

#[test]
fn fetched_table_takes_first_entry() {
    let table = fetched(&[("p", None), ("p", Some("later")), ("q", Some("text"))]);
    assert_eq!(find_fetched(&table, &s("p")), None);
    assert_eq!(find_fetched(&table, &s("q")), Some(&s("text")));
    assert_eq!(find_fetched(&table, &s("r")), None);
}

#[test]
fn options_defaults_and_builders() {
    let o = MessageLocatorOptions::new();
    assert_eq!(o.default_locale, "en");
    assert_eq!(o.supported_locales, strings(&["en"]));
    assert!(o.fallbacks.is_empty());
    assert_eq!(o.assets.src, "res/lang");
    assert!(o.assets.base_file_names.is_empty());
    assert!(o.assets.clean_unused);
    assert!(o.assets.load_via == MessageLocatorLoadVia::Http);

    let a = MessageLocatorAssetOptions::new()
        .src("x")
        .base_file_names(strings(&["a", "b"]))
        .clean_unused(false)
        .load_via(MessageLocatorLoadVia::FileSystem);
    let b = a.clone();
    assert_eq!(b.src, "x");
    assert_eq!(b.base_file_names, strings(&["a", "b"]));
    assert!(!b.clean_unused);
    assert!(b.load_via == MessageLocatorLoadVia::FileSystem);

    let l = MessageLocator::new(
        &MessageLocatorOptions::new().supported_locales(strings(&["de", "en"])).assets(&a),
    );
    assert_eq!(l.supported_locales(), strings(&["de", "en"]));
    assert!(l.supports_locale(&s("de")));
    assert!(!l.supports_locale(&s("fr")));
    assert!(l.load_via() == MessageLocatorLoadVia::FileSystem);
    assert_eq!(l.current_locale(), None);
}

#[test]
fn copies_hold_the_same() {
    let doc = parse_fragment("{\"a\": {\"b\": \"text\"}, \"n\": 1}").unwrap();
    let copy = doc.clone();
    assert_eq!(copy.resolve_id(&path(&["a", "b"])), Some(s("text")));
    assert_eq!(copy.resolve_id(&path(&["n"])), None);

    let g = vec![(s("en-GB"), strings(&["en"]))];
    let mut l = locator(&["en", "en-GB"], "en-GB", g, &["m"], true);
    let table = fetched(&[
        ("lang/en/m.json", Some("{\"hello\": \"Hello $who\"}")),
        ("lang/en-GB/m.json", Some("{}")),
    ]);
    assert_eq!(l.load(None, &table), Ok(()));
    let other = l.clone();
    assert_eq!(other.current_locale(), Some(s("en-GB")));
    assert_eq!(other.supported_locales(), strings(&["en", "en-GB"]));
    assert_eq!(
        other.get_formatted(
            "m.hello",
            &vec![MessageLocatorFormatArgument::Variables(vec![(s("who"), s("you"))])]
        ),
        "Hello you"
    );
    assert_eq!(sorted(other.fragment_paths(None)), strings(&["lang/en-GB/m.json", "lang/en/m.json"]));
    assert_eq!(other.fragment_paths(Some(&s("en"))), strings(&["lang/en/m.json"]));
}

#[test]
fn trail_stops_a_second_visit() {
    let g = vec![(s("A"), strings(&["B"]))];
    let mut l = locator(&["A", "B"], "A", g, &["x"], true);
    let table = fetched(&[
        ("lang/A/x.json", Some("{\"own\": \"of A\"}")),
        ("lang/B/x.json", Some("{\"y\": \"of B\"}")),
    ]);
    assert_eq!(l.load(None, &table), Ok(()));
    let on_trail = strings(&["A"]);
    assert_eq!(l.get_formatted_with_locale(&s("A"), &path(&["x", "y"]), &Vec::new()), Some(s("of B")));
    assert_eq!(l.get_formatted_with_locale(&s("A"), &path(&["x", "y"]), &on_trail), None);
    assert_eq!(l.get_formatted_with_locale(&s("A"), &path(&["x", "own"]), &on_trail), Some(s("of A")));
}
