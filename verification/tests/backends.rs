use termimg::graphic::{Capability, ProbeStep, RenderError, TerminalSize};
use termimg::iterm::Iterm;
use termimg::mosaic::{fit_to_size, scale_dimension, Mosaic};
use termimg::sixel::{has_bitmap_code, PixelFormat, Sixel};
use termimg::utils::{
    convert_to_rgb_rgba, get_image, get_image_format, has_alpha, kind_of_sniffed, prepare_img,
    read_img_from_stdio, ColorModel, Conversion, ImageKind, PixelBuffer, Source, StreamError,
};
use termimg::viewer::{
    get_viewer, list_protocols, recover, rule_out, viewers, Protocol, Recovery, Selection,
    TerminalContext, Viewer,
};

fn image(color: ColorModel) -> PixelBuffer {
    PixelBuffer { width: 1, height: 1, color, samples: vec![] }
}

fn done(step: ProbeStep) -> Capability {
    match step {
        ProbeStep::Done(c) => c,
        ProbeStep::Ask(_) => panic!("probe asks on"),
    }
}

#[test]
fn terminal_size_needs_every_dimension() {
    assert_eq!(
        TerminalSize::from_probes(Some((800, 600)), Some((80, 24))),
        Some(TerminalSize { width: 800, height: 600, cols: 80, rows: 24 })
    );
    assert_eq!(TerminalSize::from_probes(None, Some((80, 24))), None);
    assert_eq!(TerminalSize::from_probes(Some((800, 600)), None), None);
    assert_eq!(TerminalSize::from_probes(None, None), None);
    assert_eq!(TerminalSize::from_probes(Some((0, 600)), Some((80, 24))), None);
    assert_eq!(TerminalSize::from_probes(Some((800, 0)), Some((80, 24))), None);
    assert_eq!(TerminalSize::from_probes(Some((800, 600)), Some((0, 24))), None);
    assert_eq!(TerminalSize::from_probes(Some((800, 600)), Some((80, 0))), None);
}

#[test]
fn alpha_channel_by_layout() {
    assert!(has_alpha(&image(ColorModel::La8)));
    assert!(has_alpha(&image(ColorModel::Rgba8)));
    assert!(has_alpha(&image(ColorModel::La16)));
    assert!(has_alpha(&image(ColorModel::Rgba16)));
    assert!(has_alpha(&image(ColorModel::Bgra8)));
    assert!(!has_alpha(&image(ColorModel::L8)));
    assert!(!has_alpha(&image(ColorModel::Rgb8)));
    assert!(!has_alpha(&image(ColorModel::L16)));
    assert!(!has_alpha(&image(ColorModel::Rgb16)));
    assert!(!has_alpha(&image(ColorModel::Bgr8)));
}

#[test]
fn bytes_per_pixel_by_layout() {
    assert_eq!(ColorModel::L8.bytes_per_pixel(), 1);
    assert_eq!(ColorModel::La8.bytes_per_pixel(), 2);
    assert_eq!(ColorModel::Rgb8.bytes_per_pixel(), 3);
    assert_eq!(ColorModel::Rgba8.bytes_per_pixel(), 4);
    assert_eq!(ColorModel::L16.bytes_per_pixel(), 2);
    assert_eq!(ColorModel::La16.bytes_per_pixel(), 4);
    assert_eq!(ColorModel::Rgb16.bytes_per_pixel(), 6);
    assert_eq!(ColorModel::Rgba16.bytes_per_pixel(), 8);
    assert_eq!(ColorModel::Bgr8.bytes_per_pixel(), 3);
    assert_eq!(ColorModel::Bgra8.bytes_per_pixel(), 4);
}

#[test]
fn conversion_before_display() {
    assert_eq!(convert_to_rgb_rgba(&image(ColorModel::Rgb8)), Conversion::Keep);
    assert_eq!(convert_to_rgb_rgba(&image(ColorModel::Rgba8)), Conversion::Keep);
    assert_eq!(convert_to_rgb_rgba(&image(ColorModel::La8)), Conversion::ToRgba8);
    assert_eq!(convert_to_rgb_rgba(&image(ColorModel::Bgra8)), Conversion::ToRgba8);
    assert_eq!(convert_to_rgb_rgba(&image(ColorModel::Rgba16)), Conversion::ToRgba8);
    assert_eq!(convert_to_rgb_rgba(&image(ColorModel::L8)), Conversion::ToRgb8);
    assert_eq!(convert_to_rgb_rgba(&image(ColorModel::Bgr8)), Conversion::ToRgb8);
    assert_eq!(convert_to_rgb_rgba(&image(ColorModel::Rgb16)), Conversion::ToRgb8);
}

#[test]
fn resize_only_images_wider_than_the_terminal() {
    let size = Some(TerminalSize { width: 800, height: 600, cols: 80, rows: 24 });
    assert_eq!(prepare_img(1600, &size), Some((800, 1200)));
    assert_eq!(prepare_img(801, &size), Some((800, 600)));
    assert_eq!(prepare_img(1000, &size), Some((800, 750)));
    assert_eq!(prepare_img(800, &size), None);
    assert_eq!(prepare_img(10, &size), None);
    assert_eq!(prepare_img(1600, &None), None);
    let flat = Some(TerminalSize { width: 800, height: 0, cols: 80, rows: 24 });
    assert_eq!(prepare_img(1600, &flat), None);
    let thin = Some(TerminalSize { width: 1, height: 65535, cols: 1, rows: 1 });
    assert_eq!(prepare_img(u32::MAX, &thin), Some((1, u32::MAX)));
}

#[test]
fn mime_types_of_the_six_formats() {
    assert_eq!(get_image_format("image/jpeg"), Some(ImageKind::Jpeg));
    assert_eq!(get_image_format("image/png"), Some(ImageKind::Png));
    assert_eq!(get_image_format("image/gif"), Some(ImageKind::Gif));
    assert_eq!(get_image_format("image/webp"), Some(ImageKind::WebP));
    assert_eq!(get_image_format("image/tiff"), Some(ImageKind::Tiff));
    assert_eq!(get_image_format("image/bmp"), Some(ImageKind::Bmp));
    assert_eq!(get_image_format("image/svg+xml"), None);
    assert_eq!(get_image_format("application/pdf"), None);
    assert_eq!(get_image_format(""), None);
}

#[test]
fn sniffed_type_decides_the_decoder() {
    assert_eq!(kind_of_sniffed(Some("image/png")), Ok(ImageKind::Png));
    assert_eq!(kind_of_sniffed(Some("application/zip")), Err(StreamError::NotAnImage));
    assert_eq!(kind_of_sniffed(None), Err(StreamError::UnknownFormat));
    assert_eq!(StreamError::NotAnImage.message(), "Failed to decode Image");
    assert_eq!(StreamError::UnknownFormat.message(), "Unknow date format from stdin");
}

#[test]
fn stream_content_is_sniffed() {
    let png = [0x89, b'P', b'N', b'G', 0x0d, 0x0a, 0x1a, 0x0a, 0, 0, 0, 13];
    assert_eq!(read_img_from_stdio(&png), Ok(ImageKind::Png));
    let jpeg = [0xff, 0xd8, 0xff, 0xaa];
    assert_eq!(read_img_from_stdio(&jpeg), Ok(ImageKind::Jpeg));
    let gif = b"GIF89a\x01\x00\x01\x00";
    assert_eq!(read_img_from_stdio(gif), Ok(ImageKind::Gif));
    let pdf = b"%PDF-1.4\n";
    assert_eq!(read_img_from_stdio(pdf), Err(StreamError::NotAnImage));
    assert_eq!(read_img_from_stdio(b""), Err(StreamError::UnknownFormat));
    assert_eq!(read_img_from_stdio(b"plain words"), Err(StreamError::UnknownFormat));
}

#[test]
fn paths_ending_in_svg_are_vector_drawings() {
    assert_eq!(get_image("logo.svg"), Source::Vector { width: 1000 });
    assert_eq!(get_image(".svg"), Source::Vector { width: 1000 });
    assert_eq!(get_image("logo.SVG"), Source::Raster);
    assert_eq!(get_image("logo.svg.png"), Source::Raster);
    assert_eq!(get_image("svg"), Source::Raster);
    assert_eq!(get_image(""), Source::Raster);
}

#[test]
fn inline_file_sequence() {
    let iterm = Iterm;
    assert_eq!(iterm.name(), "iterm");
    assert_eq!(
        iterm.display(b"hi", 1, 2),
        Ok(b"\x1b]1337;File=size=4;width=1px;height=2px;inline=1:aGk=\x07".to_vec())
    );
    assert_eq!(
        iterm.display(b"", 640, 480),
        Ok(b"\x1b]1337;File=size=0;width=640px;height=480px;inline=1:\x07".to_vec())
    );
    let long = vec![0u8; 300];
    let bytes = iterm.display(&long, 10, 10).unwrap();
    assert!(bytes.starts_with(b"\x1b]1337;File=size=400;width=10px;height=10px;inline=1:AAAA"));
    assert_eq!(bytes.last(), Some(&0x07));
}

#[test]
fn inline_file_support_is_read_from_the_environment() {
    let iterm = Iterm;
    assert_eq!(iterm.probe_variable(), "TERM_PROGRAM");
    assert_eq!(iterm.supported(Some("iTerm.app")), Capability::Supported);
    assert_eq!(iterm.supported(Some("Apple_Terminal")), Capability::Unsupported);
    assert_eq!(iterm.supported(Some("")), Capability::Unsupported);
    assert_eq!(iterm.supported(None), Capability::Unsupported);
}

#[test]
fn device_attributes_report() {
    assert!(has_bitmap_code(b"\x1b[?62;4;6c"));
    assert!(has_bitmap_code(b"\x1b[?62;1;4c"));
    assert!(has_bitmap_code(b"4"));
    assert!(has_bitmap_code(b"4c"));
    assert!(has_bitmap_code(b"1; 4 ;2"));
    assert!(has_bitmap_code(b"1;\t4c\r\n"));
    assert!(has_bitmap_code(b";4"));
    assert!(has_bitmap_code(b"4;"));
    assert!(!has_bitmap_code(b"\x1b[?62;1;6c"));
    assert!(!has_bitmap_code(b"\x1b[?4;6c"));
    assert!(!has_bitmap_code(b"14;40;44c"));
    assert!(!has_bitmap_code(b"4 c"));
    assert!(!has_bitmap_code(b""));
    assert!(!has_bitmap_code(b";;"));
    assert!(!has_bitmap_code(b"   "));
}

#[test]
fn bitmap_probe() {
    let sixel = Sixel;
    assert_eq!(sixel.name(), "sixel");
    match sixel.supported(&vec![]) {
        ProbeStep::Ask(bytes) => assert_eq!(bytes, vec![0x1b, b'[', b'c']),
        ProbeStep::Done(_) => panic!("the request comes first"),
    }
    assert_eq!(done(sixel.supported(&vec![b"\x1b[?62;4;6c".to_vec()])), Capability::Supported);
    assert_eq!(done(sixel.supported(&vec![b"\x1b[?62;6c".to_vec()])), Capability::Unsupported);
    assert_eq!(done(sixel.supported(&vec![vec![]])), Capability::Inconclusive);
    assert_eq!(done(sixel.supported(&vec![vec![0xff, b';', b'4']])), Capability::Inconclusive);
}

#[test]
fn bitmap_encoder_format() {
    let sixel = Sixel;
    assert_eq!(sixel.display(&image(ColorModel::Rgba8)), PixelFormat::RGBA8888);
    assert_eq!(sixel.display(&image(ColorModel::La16)), PixelFormat::RGBA8888);
    assert_eq!(sixel.display(&image(ColorModel::Rgb8)), PixelFormat::RGB888);
    assert_eq!(sixel.display(&image(ColorModel::L8)), PixelFormat::RGB888);
}

#[test]
fn scaling_rounds_to_nearest() {
    assert_eq!(scale_dimension(48, 100, 100), 48);
    assert_eq!(scale_dimension(48, 200, 100), 96);
    assert_eq!(scale_dimension(80, 100, 200), 40);
    // 1.5 goes up, 1.25 goes down
    assert_eq!(scale_dimension(3, 1, 2), 2);
    assert_eq!(scale_dimension(5, 1, 4), 1);
    assert_eq!(scale_dimension(0, 7, 3), 0);
    // zero divisor
    assert_eq!(scale_dimension(0, 0, 0), 0);
    assert_eq!(scale_dimension(5, 0, 0), 0);
    assert_eq!(scale_dimension(5, 5, 0), u32::MAX);
    // capped
    assert_eq!(scale_dimension(u32::MAX, u32::MAX, 1), u32::MAX);
}

#[test]
fn fitting_keeps_proportions() {
    // square image, terminal 80 x 24: limited by the height of 48 pixel rows
    assert_eq!(fit_to_size(100, 100, 80, 24, None, None), (48, 48));
    // wide image: limited by the width
    assert_eq!(fit_to_size(200, 100, 80, 24, None, None), (80, 40));
    // limits cut the terminal's size
    assert_eq!(fit_to_size(100, 100, 80, 24, Some(20), None), (20, 20));
    assert_eq!(fit_to_size(100, 100, 80, 24, None, Some(10)), (20, 20));
    assert_eq!(fit_to_size(100, 100, 80, 24, Some(200), Some(100)), (48, 48));
    // tall image
    assert_eq!(fit_to_size(10, 1000, 80, 24, None, None), (0, 48));
}

#[test]
fn fallback_draws_at_fitted_size() {
    let mosaic = Mosaic;
    assert_eq!(mosaic.name(), "mosaic");
    assert_eq!(mosaic.supported(), Capability::Supported);
    assert_eq!(mosaic.display(100, 100, Some((80, 24))), (48, 48));
    assert_eq!(mosaic.display(80, 24, Some((80, 24))), (80, 24));
    assert_eq!(mosaic.display(300, 200, None), (300, 200));
}

#[test]
fn registry_order() {
    assert_eq!(viewers(), vec![Viewer::Kitty, Viewer::Iterm, Viewer::Sixel, Viewer::Mosaic]);
    let names: Vec<&str> = viewers().iter().map(|v| v.name()).collect();
    assert_eq!(names, vec!["kitty", "iterm", "sixel", "mosaic"]);
}

#[test]
fn auto_falls_back_to_the_last_backend() {
    let registry = viewers();
    let mut probed: Vec<Capability> = Vec::new();
    let context = TerminalContext { term_program: None };
    let mut asked = Vec::new();
    let chosen = loop {
        match get_viewer(&registry, "auto", &probed) {
            Selection::Probe(i) => {
                asked.push(i);
                // a terminal that never answers
                let mut replies: Vec<Vec<u8>> = Vec::new();
                let capability = loop {
                    match registry[i].supported(&context, &replies) {
                        ProbeStep::Ask(_) => replies.push(Vec::new()),
                        ProbeStep::Done(c) => break c,
                    }
                };
                probed.push(capability);
            }
            Selection::Chosen(i) => break i,
            Selection::NoViewerAvailable => panic!("the fallback is always there"),
        }
    };
    assert_eq!(asked, vec![0, 1, 2, 3]);
    assert_eq!(
        probed,
        vec![
            Capability::Inconclusive,
            Capability::Unsupported,
            Capability::Inconclusive,
            Capability::Supported
        ]
    );
    assert_eq!(registry[chosen], Viewer::Mosaic);
}

#[test]
fn auto_takes_the_first_supported_backend() {
    let registry = viewers();
    assert_eq!(get_viewer(&registry, "auto", &vec![]), Selection::Probe(0));
    assert_eq!(get_viewer(&registry, "auto", &vec![Capability::Supported]), Selection::Chosen(0));
    assert_eq!(
        get_viewer(&registry, "auto", &vec![Capability::Unsupported]),
        Selection::Probe(1)
    );
    assert_eq!(
        get_viewer(&registry, "auto", &vec![Capability::Unsupported, Capability::Inconclusive]),
        Selection::Probe(2)
    );
    assert_eq!(
        get_viewer(
            &registry,
            "auto",
            &vec![Capability::Unsupported, Capability::Inconclusive, Capability::Supported]
        ),
        Selection::Chosen(2)
    );
}

#[test]
fn auto_without_any_support_finds_no_viewer() {
    let registry = vec![Viewer::Kitty, Viewer::Sixel];
    assert_eq!(
        get_viewer(&registry, "auto", &vec![Capability::Unsupported, Capability::Inconclusive]),
        Selection::NoViewerAvailable
    );
    assert_eq!(get_viewer(&Vec::new(), "auto", &vec![]), Selection::NoViewerAvailable);
    assert_eq!(RenderError::NoViewerAvailable.message(), "No viewer specified");
}

#[test]
fn explicit_name_is_chosen_without_a_probe() {
    let registry = viewers();
    assert_eq!(get_viewer(&registry, "kitty", &vec![]), Selection::Chosen(0));
    assert_eq!(get_viewer(&registry, "iterm", &vec![]), Selection::Chosen(1));
    assert_eq!(get_viewer(&registry, "sixel", &vec![]), Selection::Chosen(2));
    assert_eq!(get_viewer(&registry, "mosaic", &vec![]), Selection::Chosen(3));
    assert_eq!(get_viewer(&registry, "Kitty", &vec![]), Selection::NoViewerAvailable);
    assert_eq!(get_viewer(&registry, "", &vec![]), Selection::NoViewerAvailable);
    assert_eq!(get_viewer(&registry, "vt100", &vec![]), Selection::NoViewerAvailable);
}

#[test]
fn probes_by_backend() {
    let context = TerminalContext { term_program: Some("iTerm.app".to_string()) };
    assert_eq!(done(Viewer::Iterm.supported(&context, &vec![])), Capability::Supported);
    assert_eq!(done(Viewer::Mosaic.supported(&context, &vec![])), Capability::Supported);
    assert_eq!(
        done(Viewer::Kitty.supported(&context, &vec![b"OK".to_vec()])),
        Capability::Supported
    );
    assert_eq!(
        done(Viewer::Sixel.supported(&context, &vec![b"\x1b[?1;2c".to_vec()])),
        Capability::Unsupported
    );
}

#[test]
fn listing_follows_the_registry() {
    let registry = viewers();
    let probed = vec![
        Capability::Unsupported,
        Capability::Supported,
        Capability::Inconclusive,
        Capability::Supported,
    ];
    let first = list_protocols(&registry, &probed);
    let second = list_protocols(&registry, &probed);
    let names: Vec<&str> = first.iter().map(|p| p.name).collect();
    assert_eq!(names, vec!["kitty", "iterm", "sixel", "mosaic"]);
    let flags: Vec<bool> = first.iter().map(|p| p.supported).collect();
    assert_eq!(flags, vec![false, true, false, true]);
    assert_eq!(first.len(), second.len());
    for (a, b) in first.iter().zip(second.iter()) {
        assert_eq!(a.name, b.name);
        assert_eq!(a.supported, b.supported);
    }
}

#[test]
fn listing_lines() {
    assert_eq!(Protocol { name: "kitty", supported: false }.line(), "kitty is NOT supported");
    assert_eq!(Protocol { name: "mosaic", supported: true }.line(), "mosaic is  supported");
}

#[test]
fn failures_that_move_on_to_the_next_backend() {
    assert_eq!(recover("auto", RenderError::Unsupported), Recovery::NextBackend);
    assert_eq!(recover("auto", RenderError::EncodeFailure), Recovery::NextBackend);
    assert_eq!(
        recover("auto", RenderError::IOFailure),
        Recovery::GiveUp(RenderError::IOFailure)
    );
    assert_eq!(
        recover("auto", RenderError::NoViewerAvailable),
        Recovery::GiveUp(RenderError::NoViewerAvailable)
    );
    assert_eq!(
        recover("kitty", RenderError::EncodeFailure),
        Recovery::GiveUp(RenderError::EncodeFailure)
    );
    assert_eq!(
        recover("kitty", RenderError::Unsupported),
        Recovery::GiveUp(RenderError::Unsupported)
    );
}

#[test]
fn ruling_out_the_chosen_backend_moves_the_selection_on() {
    let registry = viewers();
    let mut probed = vec![Capability::Supported];
    assert_eq!(get_viewer(&registry, "auto", &probed), Selection::Chosen(0));
    rule_out(&mut probed, 0);
    assert_eq!(probed, vec![Capability::Unsupported]);
    assert_eq!(get_viewer(&registry, "auto", &probed), Selection::Probe(1));
    probed.push(Capability::Unsupported);
    probed.push(Capability::Supported);
    assert_eq!(get_viewer(&registry, "auto", &probed), Selection::Chosen(2));
    rule_out(&mut probed, 2);
    assert_eq!(get_viewer(&registry, "auto", &probed), Selection::Probe(3));
    probed.push(Capability::Supported);
    assert_eq!(get_viewer(&registry, "auto", &probed), Selection::Chosen(3));
    rule_out(&mut probed, 3);
    assert_eq!(get_viewer(&registry, "auto", &probed), Selection::NoViewerAvailable);
    // a place that was never probed
    rule_out(&mut probed, 9);
    assert_eq!(probed, vec![Capability::Unsupported; 4]);
}

#[test]
fn inline_file_sequence_around_a_given_text() {
    assert_eq!(
        Iterm.sequence(b"QUJD", 12, 34),
        b"\x1b]1337;File=size=4;width=12px;height=34px;inline=1:QUJD\x07".to_vec()
    );
    assert_eq!(
        Iterm.sequence(b"", 0, u32::MAX),
        b"\x1b]1337;File=size=0;width=0px;height=4294967295px;inline=1:\x07".to_vec()
    );
}
