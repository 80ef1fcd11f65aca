//! The hot-reload decision: which registry call a filesystem event asks
//! for.

use hmny_host::watcher::{has_wrap_extension, watch_action, WatchAction, WatchEventKind};

#[test]
fn extension_filter() {
    assert!(has_wrap_extension("module.wasm"));
    assert!(has_wrap_extension("/target/polywrap/homescreen_default.wasm"));
    assert!(has_wrap_extension(".wasm"));
    assert!(!has_wrap_extension("module.wat"));
    assert!(!has_wrap_extension("module.wasm.bak"));
    assert!(!has_wrap_extension("wasm"));
    assert!(!has_wrap_extension(""));
}

#[test]
fn events_become_registry_calls() {
    let path = "/target/polywrap/test_wrap.wasm";
    assert_eq!(watch_action(WatchEventKind::Create, path), WatchAction::Load);
    assert_eq!(watch_action(WatchEventKind::Remove, path), WatchAction::Unload);
    assert_eq!(watch_action(WatchEventKind::Other, path), WatchAction::Ignore);
}

#[test]
fn other_files_are_ignored() {
    for kind in [WatchEventKind::Create, WatchEventKind::Remove, WatchEventKind::Other] {
        assert_eq!(
            watch_action(kind, "/target/polywrap/notes.txt"),
            WatchAction::Ignore
        );
    }
}
