//! The guest entry point over the raw calling convention: a query
//! identifier and an offset/length pair in, a packed result word out, with
//! the encoded result at the base of the module's memory.

use hmny_host::interface::{DataType, InterfaceVersion, Publisher, WrapError, WrapType};
use hmny_host::memory::{read_packed, unpack};
use hmny_host::router::{guest_signal, HomescreenContent, WrapDef, WrapInstance};
use hmny_host::wire::{decode_common_result, decode_homescreen_result, encode_common_query};
use hmny_host::signal::{CommonQuery, CommonResponse, HomescreenResponse};

fn instance() -> WrapInstance {
    WrapInstance {
        def: WrapDef {
            name: String::from("raw"),
            version: String::from("0.0.1"),
            wrap_type: WrapType::HomeScreen,
            description: String::from("exercises the raw calling convention"),
            publisher: Publisher::new("Harmony", vec![]),
            interface_version: InterfaceVersion::new(),
            answers_ping: false,
            homescreen: Some(HomescreenContent {
                mime_type: String::from("markdown"),
                data: DataType::String(String::from("# Raw")),
            }),
            parses_text: false,
        },
        memory: vec![0u8; 65536],
    }
}

#[test]
fn metadata_over_the_raw_convention() {
    let mut inst = instance();
    let mut request: Vec<u8> = Vec::new();
    encode_common_query(&mut request, &CommonQuery::AskMetadata);
    let len = request.len() as u64;
    inst.memory[..request.len()].copy_from_slice(&request);

    let word = guest_signal(&mut inst, 0, 0, len);
    let (offset, out_len) = unpack(word);
    assert_eq!(offset, 0);
    let out = read_packed(&inst.memory, word).unwrap();
    assert_eq!(out.len() as u64, out_len);
    let (result, _) = decode_common_result(&out, 0).unwrap();
    match result.unwrap() {
        CommonResponse::Metadata(m) => assert_eq!(m.name, "raw"),
        _ => panic!("the metadata query must yield metadata"),
    }
}

#[test]
fn garbage_request_yields_decode_failed() {
    let mut inst = instance();
    inst.memory[0] = 0xFF;
    let word = guest_signal(&mut inst, 0, 0, 1);
    let out = read_packed(&inst.memory, word).unwrap();
    let (result, _) = decode_common_result(&out, 0).unwrap();
    assert!(matches!(result, Err(WrapError::DecodeFailed(_))));
}

#[test]
fn unknown_query_id_yields_unsupported_interface() {
    let mut inst = instance();
    let word = guest_signal(&mut inst, 7, 0, 0);
    let out = read_packed(&inst.memory, word).unwrap();
    // Every contract family carries an error the same way, so any family's
    // decoder can read it.
    let (result, _) = decode_homescreen_result(&out, 0).unwrap();
    match result {
        Err(WrapError::UnsupportedInterface(id)) => assert_eq!(id, 7),
        _ => panic!("an unrecognized identifier must be UnsupportedInterface"),
    }
}

#[test]
fn homescreen_over_the_raw_convention() {
    let mut inst = instance();
    // The home-screen request is its single one-byte variant tag.
    inst.memory[0] = 0;
    let word = guest_signal(&mut inst, 1, 0, 1);
    let out = read_packed(&inst.memory, word).unwrap();
    let (result, _) = decode_homescreen_result(&out, 0).unwrap();
    let HomescreenResponse::HomeScreen { mime_type, data } = result.unwrap();
    assert_eq!(mime_type, "markdown");
    let DataType::String(text) = data;
    assert_eq!(text, "# Raw");
}
