//! The module lifecycle end to end: compile, validate, register, route,
//! replace, unload.

use hmny_host::interface::{DataType, InterfaceVersion, Publisher, WrapError, WrapType};
use hmny_host::loader::LoadedWrap;
use hmny_host::loader::WrapLoaderError;
use hmny_host::memory::SignalError;
use hmny_host::registry::{WrapKey, Wraps};
use hmny_host::router::{build_artifact, HomescreenContent, WrapDef};
use hmny_host::signal::{
    CommonQuery, CommonResponse, HomescreenQuery, HomescreenResponse, MimetypeQuery,
    MimetypeResponse, Query, Reply,
};
use hmny_host::dom::Element;

fn plain_def(name: &str, wrap_type: WrapType) -> WrapDef {
    WrapDef {
        name: name.to_string(),
        version: String::from("1.0.0"),
        wrap_type,
        description: String::from("a module for the lifecycle tests"),
        publisher: Publisher::new("Harmony", vec![]),
        interface_version: InterfaceVersion::new(),
        answers_ping: false,
        homescreen: None,
        parses_text: false,
    }
}

fn homescreen_def(name: &str, content: &str) -> WrapDef {
    let mut d = plain_def(name, WrapType::HomeScreen);
    d.homescreen = Some(HomescreenContent {
        mime_type: String::from("markdown"),
        data: DataType::String(content.to_string()),
    });
    d
}

fn artifact(def: &WrapDef) -> Vec<u8> {
    build_artifact(def, &vec![String::from("signal")])
}

#[test]
fn load_rejects_garbage_bytes() {
    match LoadedWrap::from_bytes(&[0u8, 1, 2, 3, 4, 5]) {
        Err(WrapLoaderError::InvalidWasm(_)) => {}
        _ => panic!("bytes without the artifact shape must be InvalidWasm"),
    }
    match LoadedWrap::from_bytes(&[]) {
        Err(WrapLoaderError::InvalidWasm(_)) => {}
        _ => panic!("empty bytes must be InvalidWasm"),
    }
}

#[test]
fn load_requires_the_entry_point() {
    let def = plain_def("no_entry", WrapType::Test);
    let bytes = build_artifact(&def, &vec![String::from("start"), String::from("memory")]);
    match LoadedWrap::from_bytes(&bytes) {
        Err(WrapLoaderError::MissingExport(_)) => {}
        _ => panic!("an artifact without the signal export must be MissingExport"),
    }
}

#[test]
fn version_gate_rejects_any_other_tag() {
    // A module whose reported interface version differs from the host's by
    // even one character is rejected and never inserted into the registry.
    let mut registry = Wraps::new();
    let mut def = homescreen_def("stale", "# Old");
    def.interface_version = InterfaceVersion::from("0.1.0-rc1");
    match registry.load(&artifact(&def), "/wraps/stale.wasm") {
        Err(WrapLoaderError::UnsupportedInterfaceVersion(v)) => {
            assert!(!v.matches_own());
        }
        _ => panic!("a version mismatch must be UnsupportedInterfaceVersion"),
    }
    let query = Query::Homescreen(HomescreenQuery::AskHomeScreen);
    assert!(matches!(
        registry.signal(&WrapKey::HomeScreen, &query),
        Err(SignalError::WrapDoesNotExist)
    ));
    assert!(matches!(
        registry.unload("/wraps/stale.wasm"),
        Err(WrapLoaderError::FileNotFound)
    ));
}

#[test]
fn metadata_handshake_reports_the_definition() {
    let def = homescreen_def("homescreen_default", "# Welcome");
    let wrap = LoadedWrap::from_bytes(&artifact(&def)).unwrap();
    let m = wrap.get_metadata();
    assert_eq!(m.name, "homescreen_default");
    assert_eq!(m.version, "1.0.0");
    assert!(matches!(m.wrap_type, WrapType::HomeScreen));
    assert_eq!(m.publisher.name, "Harmony");
    assert!(m.interface_version.matches_own());
}

#[test]
fn ping_is_answered_or_unsupported() {
    let mut registry = Wraps::new();
    let mut def = plain_def("test_wrap", WrapType::Test);
    def.answers_ping = true;
    registry.load(&artifact(&def), "/wraps/test_wrap.wasm").unwrap();
    let key = WrapKey::Other(WrapType::Test, String::from("test_wrap"));
    let ping = Query::Common(CommonQuery::Ping { message: String::from("Harmony core") });
    match registry.signal(&key, &ping) {
        Ok(Reply::Common(CommonResponse::Pong { response })) => {
            assert_eq!(
                response,
                "Greetings \"Harmony core\"! I am test_wrap, the wrap. Pleasure to meet you :)"
            );
        }
        _ => panic!("a ping-answering module must pong"),
    }

    let silent = plain_def("silent", WrapType::Test);
    registry.load(&artifact(&silent), "/wraps/silent.wasm").unwrap();
    let key = WrapKey::Other(WrapType::Test, String::from("silent"));
    match registry.signal(&key, &ping) {
        Err(SignalError::WrapError(WrapError::UnsupportedSignal)) => {}
        _ => panic!("a module without a ping handler must report UnsupportedSignal"),
    }
}

#[test]
fn homescreen_replacement_routes_to_the_newest() {
    // Load module A declaring HomeScreen: the query returns A's content.
    // Load module B under the same capability: the query now returns B's
    // content, and A is no longer registered.
    let mut registry = Wraps::new();
    let query = Query::Homescreen(HomescreenQuery::AskHomeScreen);

    let a = homescreen_def("screen_a", "# Content of A");
    registry.load(&artifact(&a), "/wraps/a.wasm").unwrap();
    match registry.signal(&WrapKey::HomeScreen, &query) {
        Ok(Reply::Homescreen(HomescreenResponse::HomeScreen { mime_type, data })) => {
            assert_eq!(mime_type, "markdown");
            let DataType::String(text) = data;
            assert_eq!(text, "# Content of A");
        }
        _ => panic!("module A must serve the home screen"),
    }

    let b = homescreen_def("screen_b", "# Content of B");
    registry.load(&artifact(&b), "/wraps/b.wasm").unwrap();
    match registry.signal(&WrapKey::HomeScreen, &query) {
        Ok(Reply::Homescreen(HomescreenResponse::HomeScreen { data, .. })) => {
            let DataType::String(text) = data;
            assert_eq!(text, "# Content of B");
        }
        _ => panic!("module B must have replaced module A"),
    }

    // Unloading by A's source path evicts the home-screen key, so the
    // replacement is gone too, and B's source record no longer finds it.
    registry.unload("/wraps/a.wasm").unwrap();
    assert!(matches!(
        registry.signal(&WrapKey::HomeScreen, &query),
        Err(SignalError::WrapDoesNotExist)
    ));
    assert!(matches!(
        registry.unload("/wraps/b.wasm"),
        Err(WrapLoaderError::FileNotFound)
    ));
}

#[test]
fn unknown_key_yields_wrap_does_not_exist() {
    let mut registry = Wraps::new();
    let queries = [
        (WrapKey::HomeScreen, Query::Homescreen(HomescreenQuery::AskHomeScreen)),
        (
            WrapKey::Mimetype(String::from("markdown")),
            Query::Mimetype(MimetypeQuery::AskParse {
                data: DataType::String(String::from("x")),
            }),
        ),
        (
            WrapKey::Other(WrapType::Test, String::from("nobody")),
            Query::Common(CommonQuery::AskMetadata),
        ),
    ];
    for (key, query) in queries {
        assert!(matches!(
            registry.signal(&key, &query),
            Err(SignalError::WrapDoesNotExist)
        ));
    }
}

#[test]
fn unload_of_unknown_source_changes_nothing() {
    let mut registry = Wraps::new();
    let def = homescreen_def("screen", "# Here");
    registry.load(&artifact(&def), "/wraps/screen.wasm").unwrap();

    match registry.unload("/wraps/never_loaded.wasm") {
        Err(WrapLoaderError::FileNotFound) => {}
        _ => panic!("a source never loaded must be FileNotFound"),
    }

    // The registry is unchanged: the loaded module still answers.
    let query = Query::Homescreen(HomescreenQuery::AskHomeScreen);
    assert!(registry.signal(&WrapKey::HomeScreen, &query).is_ok());

    // And a real unload still works afterwards.
    registry.unload("/wraps/screen.wasm").unwrap();
    assert!(matches!(
        registry.signal(&WrapKey::HomeScreen, &query),
        Err(SignalError::WrapDoesNotExist)
    ));
}

#[test]
fn mimetype_module_serves_a_text_dimension() {
    let mut registry = Wraps::new();
    let mut def = plain_def("mimetype_txt", WrapType::Mimetype(String::from("txt")));
    def.parses_text = true;
    registry.load(&artifact(&def), "/wraps/txt.wasm").unwrap();

    let key = WrapKey::Mimetype(String::from("txt"));
    let query = Query::Mimetype(MimetypeQuery::AskParse {
        data: DataType::String(String::from("hello, dimension")),
    });
    match registry.signal(&key, &query) {
        Ok(Reply::Mimetype(MimetypeResponse::Dimension(d))) => {
            assert_eq!(d.title, "mimetype_txt");
            assert_eq!(d.children.len(), 1);
            let Element::Canvas(canvas) = &d.children[0];
            assert_eq!(canvas.texts.len(), 1);
            assert_eq!(canvas.texts[0].spans.len(), 1);
            assert_eq!(canvas.texts[0].spans[0].text, "hello, dimension");
        }
        _ => panic!("a text-parsing module must return a dimension"),
    }
}

#[test]
fn unregistered_contracts_yield_unsupported_interface() {
    let mut registry = Wraps::new();
    let def = plain_def("bare", WrapType::Test);
    registry.load(&artifact(&def), "/wraps/bare.wasm").unwrap();
    let key = WrapKey::Other(WrapType::Test, String::from("bare"));

    match registry.signal(&key, &Query::Homescreen(HomescreenQuery::AskHomeScreen)) {
        Err(SignalError::WrapError(WrapError::UnsupportedInterface(id))) => assert_eq!(id, 1),
        _ => panic!("a module without home-screen content has no handler for id 1"),
    }
    let parse = Query::Mimetype(MimetypeQuery::AskParse {
        data: DataType::String(String::from("x")),
    });
    match registry.signal(&key, &parse) {
        Err(SignalError::WrapError(WrapError::UnsupportedInterface(id))) => assert_eq!(id, 2),
        _ => panic!("a module that parses nothing has no handler for id 2"),
    }
}

#[test]
fn replacing_under_one_source_keeps_one_record() {
    let mut registry = Wraps::new();
    let first = homescreen_def("first", "# 1");
    let second = homescreen_def("second", "# 2");
    registry.load(&artifact(&first), "/wraps/screen.wasm").unwrap();
    registry.load(&artifact(&second), "/wraps/screen.wasm").unwrap();

    let query = Query::Homescreen(HomescreenQuery::AskHomeScreen);
    match registry.signal(&WrapKey::HomeScreen, &query) {
        Ok(Reply::Homescreen(HomescreenResponse::HomeScreen { data, .. })) => {
            let DataType::String(text) = data;
            assert_eq!(text, "# 2");
        }
        _ => panic!("the second load must win"),
    }

    registry.unload("/wraps/screen.wasm").unwrap();
    assert!(matches!(
        registry.unload("/wraps/screen.wasm"),
        Err(WrapLoaderError::FileNotFound)
    ));
}
