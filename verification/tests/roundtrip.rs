use termimg::apc::{ControlValue, APC};
use termimg::decode::{decode, Decoded};
use termimg::kitty::{direct_query, show_by_direct_data};
use termimg::utils::{ColorModel, PixelBuffer};

fn field(key: &str, value: &str) -> (Vec<u8>, Vec<u8>) {
    (key.as_bytes().to_vec(), value.as_bytes().to_vec())
}

#[test]
fn empty_message_reads_back_empty() {
    let apc = APC::new();
    let frame = apc.get();
    assert_eq!(frame.len(), 6);
    assert_eq!(decode(&frame), Some(Decoded { fields: vec![], payload: vec![] }));
}

#[test]
fn payload_without_fields_reads_back() {
    let mut apc = APC::new();
    apc.set_payload(b"a;b,c=d");
    assert_eq!(
        decode(&apc.get()),
        Some(Decoded { fields: vec![], payload: b"a;b,c=d".to_vec() })
    );
}

#[test]
fn fields_and_payload_read_back() {
    let mut apc = APC::new();
    apc.add_control_field("f", ControlValue::U16(24))
        .add_control_field("a", ControlValue::Str("T".to_string()))
        .add_control_field("s", ControlValue::U16(65535))
        .set_payload(b"AAAA;\x1b\\==");
    assert_eq!(
        decode(&apc.get()),
        Some(Decoded {
            fields: vec![field("f", "24"), field("a", "T"), field("s", "65535")],
            payload: b"AAAA;\x1b\\==".to_vec(),
        })
    );
}

#[test]
fn value_may_hold_an_equals_sign_and_may_be_empty() {
    let mut apc = APC::new();
    apc.add_control_field("k", ControlValue::Str("a=b".to_string()))
        .add_control_field("e", ControlValue::Str("".to_string()));
    assert_eq!(
        decode(&apc.get()),
        Some(Decoded { fields: vec![field("k", "a=b"), field("e", "")], payload: vec![] })
    );
}

#[test]
fn what_is_no_frame_does_not_read_back() {
    assert_eq!(decode(b""), None);
    assert_eq!(decode(b"\x1b_G\x1b\\"), None);
    assert_eq!(decode(b"\x1b_Ga=1\x1b\\"), None);
    assert_eq!(decode(b"\x1b_Xa=1;\x1b\\"), None);
    assert_eq!(decode(b"\x1b_Ga=1;\x1b/"), None);
    assert_eq!(decode(b"\x1b_Ga=1;xx"), None);
    assert_eq!(decode(b"x\x1b_G;\x1b\\"), None);
    // an item without an equals sign is no field
    assert_eq!(decode(b"\x1b_Ga;\x1b\\"), None);
    assert_eq!(decode(b"\x1b_Ga=1,b;\x1b\\"), None);
    assert_eq!(decode(b"\x1b_Ga=1,;\x1b\\"), None);
    assert_eq!(decode(b"\x1b_G,a=1;\x1b\\"), None);
}

#[test]
fn probe_query_reads_back() {
    let query = direct_query();
    assert_eq!(
        decode(&query[0].get()),
        Some(Decoded {
            fields: vec![
                field("t", "d"),
                field("s", "1"),
                field("v", "1"),
                field("a", "q"),
                field("f", "24"),
                field("i", "1"),
            ],
            payload: b"////".to_vec(),
        })
    );
}

#[test]
fn chunked_transfer_reads_back() {
    let img = PixelBuffer { width: 64, height: 64, color: ColorModel::Rgb8, samples: vec![5; 12288] };
    let shown = show_by_direct_data(&img, None).unwrap();
    assert_eq!(shown.messages.len(), 4);
    let mut text = Vec::new();
    for (i, message) in shown.messages.iter().enumerate() {
        let read = decode(&message.get()).unwrap();
        let more = if i + 1 < shown.messages.len() { "1" } else { "0" };
        if i == 0 {
            assert_eq!(
                read.fields,
                vec![
                    field("f", "24"),
                    field("a", "T"),
                    field("t", "d"),
                    field("s", "64"),
                    field("v", "64"),
                    field("m", more),
                    field("i", "1"),
                ]
            );
        } else {
            assert_eq!(read.fields, vec![field("m", more)]);
        }
        text.extend_from_slice(&read.payload);
    }
    assert_eq!(text.len(), 16384);
}
