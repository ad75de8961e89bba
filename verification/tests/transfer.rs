use base64::Engine;
use termimg::apc::{ControlValue, APC};
use termimg::graphic::{Capability, ProbeStep, RenderError, TerminalSize};
use termimg::kitty::{
    direct_messages, direct_query, horizontal_move, regular_file_query, select_format,
    set_showing_position, shared_mem_query, shared_object_name, show_by_direct_data,
    show_by_shared_memory, showing_margin, Attempt, CursorMove, Kitty, MediaSupport, RenderStep,
};
use termimg::term::encode_all;
use termimg::transmission::{
    get_data_format, Action, DataFormat, Key, Transmission, TransmissionType, CHUNK_SIZE,
};
use termimg::utils::{ColorModel, PixelBuffer};

fn direct(data: &[u8]) -> Vec<APC> {
    Transmission::new()
        .data_format(DataFormat::RGB)
        .action(Action::ImmediatelyShow)
        .transmission_type(TransmissionType::Direct(data, (4, 2)))
        .transfer()
}

fn joined_payloads(messages: &Vec<APC>) -> Vec<u8> {
    let mut all = Vec::new();
    for m in messages.iter() {
        all.extend_from_slice(m.payload());
    }
    all
}

fn encoded(data: &[u8]) -> Vec<u8> {
    base64::engine::general_purpose::STANDARD.encode(data).into_bytes()
}

fn size(width: u16, cols: u16) -> TerminalSize {
    TerminalSize { width, height: 600, cols, rows: 24 }
}

#[test]
fn short_payload_goes_in_one_message_without_marker() {
    let data = vec![7u8; 24];
    let messages = direct(&data);
    assert_eq!(messages.len(), 1);
    assert_eq!(messages[0].field("m"), None);
    assert_eq!(messages[0].payload(), &encoded(&data));
    assert_eq!(
        messages[0].get(),
        [&b"\x1b_Gf=24,a=T,t=d,s=4,v=2,i=1;"[..], &encoded(&data)[..], &b"\x1b\\"[..]].concat()
    );
}

#[test]
fn longest_unchunked_payload() {
    // 3069 bytes encode to 4092 characters, the longest text under 4096.
    let data = vec![1u8; 3069];
    assert_eq!(encoded(&data).len(), 4092);
    let messages = direct(&data);
    assert_eq!(messages.len(), 1);
    assert_eq!(messages[0].field("m"), None);
}

#[test]
fn text_of_exactly_one_chunk_is_flagged_final() {
    let data = vec![2u8; 3072];
    assert_eq!(encoded(&data).len(), 4096);
    let messages = direct(&data);
    assert_eq!(messages.len(), 1);
    assert_eq!(messages[0].field("m"), Some(&ControlValue::U16(0)));
    assert_eq!(messages[0].field("i"), Some(&ControlValue::U16(1)));
    assert_eq!(messages[0].payload(), &encoded(&data));
}

#[test]
fn long_payload_is_cut_into_chunks() {
    let data: Vec<u8> = (0..10_000u32).map(|i| (i % 251) as u8).collect();
    let text = encoded(&data);
    assert_eq!(text.len(), 13336);
    let messages = direct(&data);
    // 13336 / 4096 rounded up
    assert_eq!(messages.len(), 4);
    for (i, m) in messages.iter().enumerate() {
        if i + 1 < messages.len() {
            assert_eq!(m.field("m"), Some(&ControlValue::U16(1)));
            assert_eq!(m.payload().len(), CHUNK_SIZE);
        } else {
            assert_eq!(m.field("m"), Some(&ControlValue::U16(0)));
            assert_eq!(m.payload().len(), 13336 - 3 * 4096);
        }
    }
    assert_eq!(joined_payloads(&messages), text);
    // the first message carries the metadata, the others only the marker
    assert_eq!(messages[0].field("f"), Some(&ControlValue::U16(24)));
    assert_eq!(messages[0].field("a"), Some(&ControlValue::Str("T".to_string())));
    assert_eq!(messages[0].field("t"), Some(&ControlValue::Str("d".to_string())));
    assert_eq!(messages[0].field("s"), Some(&ControlValue::U16(4)));
    assert_eq!(messages[0].field("v"), Some(&ControlValue::U16(2)));
    assert_eq!(messages[0].field("i"), Some(&ControlValue::U16(1)));
    assert_eq!(messages[1].field("f"), None);
    assert_eq!(messages[1].field("i"), None);
    assert_eq!(
        messages[3].get(),
        [&b"\x1b_Gm=0;"[..], &text[3 * 4096..], &b"\x1b\\"[..]].concat()
    );
    assert_eq!(
        messages[0].get(),
        [&b"\x1b_Gf=24,a=T,t=d,s=4,v=2,m=1,i=1;"[..], &text[..4096], &b"\x1b\\"[..]].concat()
    );
}

#[test]
fn one_byte_over_a_chunk_makes_two_messages() {
    let data = vec![9u8; 3073];
    let text = encoded(&data);
    assert_eq!(text.len(), 4100);
    let messages = direct(&data);
    assert_eq!(messages.len(), 2);
    assert_eq!(messages[0].field("m"), Some(&ControlValue::U16(1)));
    assert_eq!(messages[1].field("m"), Some(&ControlValue::U16(0)));
    assert_eq!(messages[1].payload().len(), 4);
    assert_eq!(joined_payloads(&messages), text);
}

#[test]
fn wide_rgb_image_end_to_end() {
    let width: u32 = 4096;
    let height: u32 = 1;
    let samples: Vec<u8> = (0..width * height * 3).map(|i| (i % 256) as u8).collect();
    let img = PixelBuffer { width, height, color: ColorModel::Rgb8, samples: samples.clone() };
    let shown = show_by_direct_data(&img, None).unwrap();
    assert_eq!(shown.offset, None);
    let messages = shown.messages;
    assert!(messages.len() >= 2);
    assert_eq!(messages.len(), 4);
    assert_eq!(messages.last().unwrap().field("m"), Some(&ControlValue::U16(0)));
    assert_eq!(messages[0].field("m"), Some(&ControlValue::U16(1)));
    assert_eq!(messages[0].field("f"), Some(&ControlValue::U16(24)));
    assert_eq!(messages[0].field("s"), Some(&ControlValue::U16(4096)));
    assert_eq!(messages[0].field("v"), Some(&ControlValue::U16(1)));
    let text = joined_payloads(&messages);
    assert!(text.len() > 4096);
    let decoded = base64::engine::general_purpose::STANDARD.decode(&text).unwrap();
    assert_eq!(decoded.len(), (width * height * 3) as usize);
    assert_eq!(decoded, samples);
}

#[test]
fn direct_show_centres_when_the_size_is_known() {
    let img = PixelBuffer { width: 200, height: 1, color: ColorModel::Rgba8, samples: vec![0; 800] };
    let shown = show_by_direct_data(&img, Some(size(800, 80))).unwrap();
    assert_eq!(shown.offset, Some(30));
    assert_eq!(shown.messages.len(), 1);
    assert_eq!(shown.messages[0].field("f"), Some(&ControlValue::U16(32)));
    assert_eq!(shown.messages[0].field("a"), Some(&ControlValue::Str("T".to_string())));
}

#[test]
fn dimensions_are_cut_to_sixteen_bits() {
    let img = PixelBuffer { width: 65536 + 5, height: 70000, color: ColorModel::Rgb8, samples: vec![] };
    let shown = show_by_direct_data(&img, None).unwrap();
    assert_eq!(shown.messages[0].field("s"), Some(&ControlValue::U16(5)));
    assert_eq!(shown.messages[0].field("v"), Some(&ControlValue::U16(4464)));
}

#[test]
fn centering_offset() {
    let s = size(800, 80);
    assert_eq!(showing_margin(s, 200), 300);
    assert_eq!(set_showing_position(s, 200), 30);
}

#[test]
fn centering_offset_edges() {
    // image as wide as the terminal, or wider: no move
    assert_eq!(set_showing_position(size(800, 80), 800), 0);
    assert_eq!(set_showing_position(size(800, 80), 900), 0);
    assert_eq!(set_showing_position(size(800, 80), 70000), 0);
    assert_eq!(showing_margin(size(800, 80), 900), 0);
    // no image: half of the columns
    assert_eq!(set_showing_position(size(800, 80), 0), 40);
    // cells that are not a whole number of pixels wide: 805 / 80 = 10.0625,
    // margin 302.5, offset 30.06..
    assert_eq!(set_showing_position(size(805, 80), 200), 30);
    assert_eq!(showing_margin(size(805, 80), 200), 302);
    // a terminal without width
    assert_eq!(set_showing_position(size(0, 80), 0), 0);
    // the largest terminal
    assert_eq!(set_showing_position(size(65535, 65535), 1), 32767);
}

#[test]
fn cursor_move_decision() {
    assert_eq!(
        horizontal_move(30, Some((5, 12))),
        CursorMove::Goto { column: 30, row: 12 }
    );
    assert_eq!(horizontal_move(30, None), CursorMove::NewlineThenRight { columns: 30 });
}

#[test]
fn pixel_format_follows_the_alpha_channel() {
    let with_alpha = [
        ColorModel::La8,
        ColorModel::Rgba8,
        ColorModel::La16,
        ColorModel::Rgba16,
        ColorModel::Bgra8,
    ];
    let without = [
        ColorModel::L8,
        ColorModel::Rgb8,
        ColorModel::L16,
        ColorModel::Rgb16,
        ColorModel::Bgr8,
    ];
    for color in with_alpha {
        let img = PixelBuffer { width: 0, height: 0, color, samples: vec![] };
        assert_eq!(select_format(&img), DataFormat::RGBA);
    }
    for color in without {
        let img = PixelBuffer { width: 0, height: 0, color, samples: vec![] };
        assert_eq!(select_format(&img), DataFormat::RGB);
    }
}

#[test]
fn format_codes() {
    assert_eq!(get_data_format(DataFormat::Png), ControlValue::U16(100));
    assert_eq!(get_data_format(DataFormat::RGB), ControlValue::U16(24));
    assert_eq!(get_data_format(DataFormat::RGBA), ControlValue::U16(32));
    assert_eq!(Action::Query.value(), ControlValue::Str("q".to_string()));
    assert_eq!(Action::ImmediatelyShow.value(), ControlValue::Str("T".to_string()));
    assert_eq!(Action::Placement.value(), ControlValue::Str("p".to_string()));
    let keys = [
        (Key::Action, "a"),
        (Key::Medium, "t"),
        (Key::Format, "f"),
        (Key::Width, "s"),
        (Key::Height, "v"),
        (Key::More, "m"),
        (Key::Id, "i"),
        (Key::Rows, "r"),
        (Key::Columns, "c"),
    ];
    for (key, name) in keys {
        assert_eq!(key.name(), name);
    }
}

#[test]
fn file_media_carry_the_path_as_base64() {
    let temp = Transmission::new()
        .transmission_type(TransmissionType::Temp("/tmp/x.png".to_string()))
        .transfer();
    assert_eq!(temp.len(), 1);
    assert_eq!(temp[0].get(), b"\x1b_Gt=t,i=1;L3RtcC94LnBuZw==\x1b\\".to_vec());
    let file = Transmission::new()
        .transmission_type(TransmissionType::RegularFile("/tmp/x.png".to_string()))
        .transfer();
    assert_eq!(file[0].get(), b"\x1b_Gt=f,i=1;L3RtcC94LnBuZw==\x1b\\".to_vec());
}

#[test]
fn rows_and_columns() {
    let messages = Transmission::new().row(3).col(40).action(Action::Placement).transfer();
    assert_eq!(messages.len(), 1);
    assert_eq!(messages[0].get(), b"\x1b_Gr=3,c=40,a=p,i=1;\x1b\\".to_vec());
}

#[test]
fn shared_memory_show() {
    let img = PixelBuffer { width: 2, height: 1, color: ColorModel::Rgb8, samples: vec![0; 6] };
    let shown = show_by_shared_memory(&img, Some(size(800, 80)));
    assert_eq!(shown.offset, Some(39));
    assert_eq!(shown.messages.len(), 1);
    assert_eq!(shared_object_name(), "__termimg_image_object__");
    assert_eq!(
        shown.messages[0].get(),
        b"\x1b_Gf=24,a=T,s=2,v=1,t=s,i=1;X190ZXJtaW1nX2ltYWdlX29iamVjdF9f\x1b\\".to_vec()
    );
}

#[test]
fn probe_queries() {
    assert_eq!(encode_all(&direct_query()), b"\x1b_Gt=d,s=1,v=1,a=q,f=24,i=1;////\x1b\\".to_vec());
    assert_eq!(
        encode_all(&shared_mem_query()),
        b"\x1b_Gs=1,v=1,t=s,a=q,f=24,i=1;X18=\x1b\\".to_vec()
    );
    assert_eq!(
        encode_all(&regular_file_query()),
        b"\x1b_Gt=f,a=q,f=100,i=1;PHBhdGg+\x1b\\".to_vec()
    );
}

fn ask(step: ProbeStep) -> Vec<u8> {
    match step {
        ProbeStep::Ask(bytes) => bytes,
        ProbeStep::Done(c) => panic!("probe ended early with {:?}", c),
    }
}

fn done(step: ProbeStep) -> Capability {
    match step {
        ProbeStep::Done(c) => c,
        ProbeStep::Ask(_) => panic!("probe asks on"),
    }
}

#[test]
fn kitty_probe_asks_direct_first_then_shared_memory() {
    let kitty = Kitty;
    assert_eq!(kitty.name(), "kitty");
    assert_eq!(ask(kitty.supported(&vec![])), encode_all(&direct_query()));
    assert_eq!(done(kitty.supported(&vec![b"OK".to_vec()])), Capability::Supported);
    assert_eq!(
        ask(kitty.supported(&vec![b"ENOTSUPPORTED".to_vec()])),
        encode_all(&shared_mem_query())
    );
    assert_eq!(ask(kitty.supported(&vec![vec![]])), encode_all(&shared_mem_query()));
    assert_eq!(
        done(kitty.supported(&vec![b"ENOTSUPPORTED".to_vec(), b"OK".to_vec()])),
        Capability::Supported
    );
    assert_eq!(
        done(kitty.supported(&vec![b"ENOTSUPPORTED".to_vec(), vec![]])),
        Capability::Unsupported
    );
    assert_eq!(done(kitty.supported(&vec![vec![], vec![]])), Capability::Inconclusive);
}

#[test]
fn display_tries_shared_memory_then_direct() {
    let kitty = Kitty;
    let both = kitty.media_support(b"OK", b"OK");
    assert_eq!(both, MediaSupport { shared_memory: true, direct: true });
    assert_eq!(kitty.display(both, &vec![]), RenderStep::Try(Attempt::SharedMemory));
    assert_eq!(kitty.display(both, &vec![Ok(())]), RenderStep::Succeeded);
    assert_eq!(
        kitty.display(both, &vec![Err(RenderError::IOFailure)]),
        RenderStep::Try(Attempt::Direct)
    );
    assert_eq!(
        kitty.display(both, &vec![Err(RenderError::IOFailure), Ok(())]),
        RenderStep::Succeeded
    );
    assert_eq!(
        kitty.display(both, &vec![Err(RenderError::IOFailure), Err(RenderError::EncodeFailure)]),
        RenderStep::Failed(RenderError::EncodeFailure)
    );
}

#[test]
fn display_with_one_or_no_medium() {
    let kitty = Kitty;
    let direct_only = kitty.media_support(b"ENOTSUPPORTED", b"OK");
    assert_eq!(direct_only, MediaSupport { shared_memory: false, direct: true });
    assert_eq!(kitty.display(direct_only, &vec![]), RenderStep::Try(Attempt::Direct));
    assert_eq!(
        kitty.display(direct_only, &vec![Err(RenderError::IOFailure)]),
        RenderStep::Failed(RenderError::IOFailure)
    );
    let none = kitty.media_support(b"", b"ENOTSUPPORTED");
    assert_eq!(none, MediaSupport { shared_memory: false, direct: false });
    assert_eq!(kitty.display(none, &vec![]), RenderStep::Failed(RenderError::Unsupported));
}

#[test]
fn render_error_messages() {
    assert_eq!(RenderError::Unsupported.message(), "Unsupported");
    assert_eq!(RenderError::EncodeFailure.message(), "Failed to encode");
    assert_eq!(RenderError::IOFailure.message(), "Failed to write");
    assert_eq!(RenderError::NoViewerAvailable.message(), "No viewer specified");
}

#[test]
fn armoured_text_is_packaged_as_given() {
    let short = direct_messages(DataFormat::RGBA, Action::Placement, 7, 9, b"QUJD");
    assert_eq!(short.len(), 1);
    assert_eq!(short[0].get(), b"\x1b_Gf=32,a=p,t=d,s=7,v=9,i=1;QUJD\x1b\\".to_vec());
    let text = vec![b'A'; 2 * 4096];
    let long = direct_messages(DataFormat::RGB, Action::ImmediatelyShow, 1, 1, &text);
    assert_eq!(long.len(), 2);
    assert_eq!(long[0].field("m"), Some(&ControlValue::U16(1)));
    assert_eq!(long[1].field("m"), Some(&ControlValue::U16(0)));
    assert_eq!(long[0].payload().len(), 4096);
    assert_eq!(long[1].payload().len(), 4096);
    let empty = direct_messages(DataFormat::RGB, Action::Query, 0, 0, b"");
    assert_eq!(empty.len(), 1);
    assert_eq!(empty[0].get(), b"\x1b_Gf=24,a=q,t=d,s=0,v=0,i=1;\x1b\\".to_vec());
}

#[test]
fn direct_text_keeps_what_the_transfer_had() {
    let text = vec![b'B'; 4097];
    let messages = Transmission::new().row(2).direct_text(&text, (3, 4)).transfer();
    assert_eq!(messages.len(), 2);
    assert_eq!(
        messages[0].get(),
        [&b"\x1b_Gr=2,t=d,s=3,v=4,m=1,i=1;"[..], &text[..4096], &b"\x1b\\"[..]].concat()
    );
    assert_eq!(messages[1].get(), b"\x1b_Gm=0;B\x1b\\".to_vec());
}
