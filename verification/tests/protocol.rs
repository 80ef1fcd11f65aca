//! The typed query contracts on the wire: for every supported query
//! identifier, decoding an encoded request or response yields it back.

use hmny_host::dom::{Canvas, Dimension, Element, Style, Text, TextColor, TextSpan};
use hmny_host::interface::{
    DataType, InterfaceVersion, Publisher, RawVectorPtr, SignalPacket, WrapError, WrapMetdata,
    WrapType,
};
use hmny_host::signal::{
    CommonQuery, CommonResponse, HarmonySignal, HomescreenQuery, HomescreenResponse,
    MimetypeQuery, MimetypeResponse,
};
use hmny_host::wire::{
    decode_common_query, decode_common_response, decode_homescreen_query,
    decode_homescreen_response, decode_metadata, decode_mimetype_query,
    decode_mimetype_response, decode_publisher, decode_wrap_error, encode_common_query,
    encode_common_response, encode_homescreen_query, encode_homescreen_response,
    encode_metadata, encode_mimetype_query, encode_mimetype_response, encode_publisher,
    encode_wrap_error,
};

fn sample_metadata() -> WrapMetdata {
    WrapMetdata {
        name: String::from("homescreen"),
        version: String::from("0.3.1"),
        wrap_type: WrapType::HomeScreen,
        description: String::from("the default home screen"),
        publisher: Publisher::new(
            "Harmony",
            vec![Publisher::new("Upstream", vec![Publisher::new("Root", vec![])])],
        ),
        interface_version: InterfaceVersion::new(),
    }
}

#[test]
fn common_query_round_trip() {
    for q in [
        CommonQuery::AskMetadata,
        CommonQuery::Ping { message: String::from("hello there") },
    ] {
        let mut buf: Vec<u8> = Vec::new();
        encode_common_query(&mut buf, &q);
        let (back, end) = decode_common_query(&buf, 0).unwrap();
        assert_eq!(end, buf.len());
        match (q, back) {
            (CommonQuery::AskMetadata, CommonQuery::AskMetadata) => {}
            (CommonQuery::Ping { message: a }, CommonQuery::Ping { message: b }) => {
                assert_eq!(a, b)
            }
            _ => panic!("variant changed in the round trip"),
        }
    }
}

#[test]
fn common_response_round_trip() {
    let mut buf: Vec<u8> = Vec::new();
    encode_common_response(&mut buf, &CommonResponse::Metadata(sample_metadata()));
    let (back, end) = decode_common_response(&buf, 0).unwrap();
    assert_eq!(end, buf.len());
    match back {
        CommonResponse::Metadata(m) => {
            assert_eq!(m.name, "homescreen");
            assert_eq!(m.version, "0.3.1");
            assert!(matches!(m.wrap_type, WrapType::HomeScreen));
            assert_eq!(m.description, "the default home screen");
            assert_eq!(m.publisher.name, "Harmony");
            assert_eq!(m.publisher.signed_by.len(), 1);
            assert_eq!(m.publisher.signed_by[0].name, "Upstream");
            assert_eq!(m.publisher.signed_by[0].signed_by[0].name, "Root");
            assert!(m.interface_version.matches_own());
        }
        _ => panic!("metadata came back as another variant"),
    }

    let mut buf: Vec<u8> = Vec::new();
    encode_common_response(&mut buf, &CommonResponse::Pong { response: String::from("pong") });
    let (back, _) = decode_common_response(&buf, 0).unwrap();
    assert!(matches!(back, CommonResponse::Pong { response } if response == "pong"));
}

#[test]
fn homescreen_round_trip() {
    let mut buf: Vec<u8> = Vec::new();
    encode_homescreen_query(&mut buf, &HomescreenQuery::AskHomeScreen);
    let (back, _) = decode_homescreen_query(&buf, 0).unwrap();
    assert!(matches!(back, HomescreenQuery::AskHomeScreen));

    let mut buf: Vec<u8> = Vec::new();
    encode_homescreen_response(
        &mut buf,
        &HomescreenResponse::HomeScreen {
            mime_type: String::from("markdown"),
            data: DataType::String(String::from("# Welcome")),
        },
    );
    let (back, end) = decode_homescreen_response(&buf, 0).unwrap();
    assert_eq!(end, buf.len());
    match back {
        HomescreenResponse::HomeScreen { mime_type, data } => {
            assert_eq!(mime_type, "markdown");
            let DataType::String(text) = data;
            assert_eq!(text, "# Welcome");
        }
    }
}

#[test]
fn mimetype_round_trip() {
    let mut buf: Vec<u8> = Vec::new();
    encode_mimetype_query(
        &mut buf,
        &MimetypeQuery::AskParse { data: DataType::String(String::from("body")) },
    );
    let (back, _) = decode_mimetype_query(&buf, 0).unwrap();
    let MimetypeQuery::AskParse { data: DataType::String(text) } = back;
    assert_eq!(text, "body");

    let dimension = Dimension {
        title: String::from("A page"),
        children: vec![Element::Canvas(Canvas {
            texts: vec![Text {
                spans: vec![
                    TextSpan {
                        text: String::from("first"),
                        color: None,
                        style: Style::Normal,
                        weight: 400,
                    },
                    TextSpan {
                        text: String::from("second"),
                        color: Some(TextColor { r: 10, g: 20, b: 30 }),
                        style: Style::Italic,
                        weight: 700,
                    },
                ],
                font_size_milli: 16000,
                line_height_milli: 1500,
                color: TextColor::black(),
            }],
        })],
    };
    let mut buf: Vec<u8> = Vec::new();
    encode_mimetype_response(&mut buf, &MimetypeResponse::Dimension(dimension));
    let (back, end) = decode_mimetype_response(&buf, 0).unwrap();
    assert_eq!(end, buf.len());
    let MimetypeResponse::Dimension(d) = back;
    assert_eq!(d.title, "A page");
    assert_eq!(d.children.len(), 1);
    let Element::Canvas(canvas) = &d.children[0];
    assert_eq!(canvas.texts.len(), 1);
    let text = &canvas.texts[0];
    assert_eq!(text.spans.len(), 2);
    assert_eq!(text.spans[0].text, "first");
    assert!(text.spans[0].color.is_none());
    assert!(matches!(text.spans[0].style, Style::Normal));
    assert_eq!(text.spans[0].weight, 400);
    assert_eq!(text.spans[1].text, "second");
    let c = text.spans[1].color.as_ref().unwrap();
    assert_eq!((c.r, c.g, c.b), (10, 20, 30));
    assert!(matches!(text.spans[1].style, Style::Italic));
    assert_eq!(text.spans[1].weight, 700);
    assert_eq!(text.font_size_milli, 16000);
    assert_eq!(text.line_height_milli, 1500);
}

#[test]
fn wrap_error_round_trip() {
    let cases = vec![
        WrapError::UnsupportedSignal,
        WrapError::DecodeFailed(String::from("why")),
        WrapError::EncodeFailed(String::from("how")),
        WrapError::UnsupportedInterface(42),
        WrapError::Other(String::from("anything")),
    ];
    for e in cases {
        let mut buf: Vec<u8> = Vec::new();
        encode_wrap_error(&mut buf, &e);
        let (back, end) = decode_wrap_error(&buf, 0).unwrap();
        assert_eq!(end, buf.len());
        match (e, back) {
            (WrapError::UnsupportedSignal, WrapError::UnsupportedSignal) => {}
            (WrapError::DecodeFailed(a), WrapError::DecodeFailed(b)) => assert_eq!(a, b),
            (WrapError::EncodeFailed(a), WrapError::EncodeFailed(b)) => assert_eq!(a, b),
            (WrapError::UnsupportedInterface(a), WrapError::UnsupportedInterface(b)) => {
                assert_eq!(a, b)
            }
            (WrapError::Other(a), WrapError::Other(b)) => assert_eq!(a, b),
            _ => panic!("variant changed in the round trip"),
        }
    }
}

#[test]
fn metadata_round_trip_and_version_tags() {
    let mut buf: Vec<u8> = Vec::new();
    encode_metadata(&mut buf, &sample_metadata());
    let (m, end) = decode_metadata(&buf, 0).unwrap();
    assert_eq!(end, buf.len());
    assert_eq!(m.name, "homescreen");
    assert!(m.interface_version.matches_own());

    assert!(InterfaceVersion::new().matches_own());
    assert!(InterfaceVersion::from("0.1.0").matches_own());
    assert!(!InterfaceVersion::from("0.1.1").matches_own());
    assert!(!InterfaceVersion::from("").matches_own());
}

#[test]
fn publisher_round_trip_deep_tree() {
    let p = Publisher::new(
        "leafless",
        vec![
            Publisher::new("a", vec![Publisher::new("aa", vec![])]),
            Publisher::new("b", vec![]),
        ],
    );
    let mut buf: Vec<u8> = Vec::new();
    encode_publisher(&mut buf, &p);
    let (back, end) = decode_publisher(&buf, 0).unwrap();
    assert_eq!(end, buf.len());
    assert_eq!(back.name, "leafless");
    assert_eq!(back.signed_by.len(), 2);
    assert_eq!(back.signed_by[0].name, "a");
    assert_eq!(back.signed_by[0].signed_by[0].name, "aa");
    assert_eq!(back.signed_by[1].name, "b");
    assert!(back.signed_by[1].signed_by.is_empty());
}

#[test]
fn query_ids_are_fixed() {
    assert_eq!(<CommonQuery as HarmonySignal>::query_id(), 0);
    assert_eq!(<HomescreenQuery as HarmonySignal>::query_id(), 1);
    assert_eq!(<MimetypeQuery as HarmonySignal>::query_id(), 2);
}

#[test]
fn signal_packet_carries_host_version() {
    let packet = SignalPacket::new(Ok(RawVectorPtr { ptr: 64, len: 16 }));
    assert!(packet.version.matches_own());
    let buffer = packet.payload.unwrap();
    assert_eq!((buffer.ptr, buffer.len), (64, 16));

    let failed = SignalPacket::new(Err(WrapError::UnsupportedSignal));
    assert!(matches!(failed.payload, Err(WrapError::UnsupportedSignal)));
}
