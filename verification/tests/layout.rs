use piet_text::error::Error;
use piet_text::layout::{
    CoreGraphicsText, CoreGraphicsTextLayout, LineMetric, TextPosition, WidthUpdate,
};
use piet_text::width::WrapWidth;

/// A font as the shaper double knows it: a name and a size.
struct Font {
    name: String,
    size: f64,
}

fn new_from_name(name: &str, size: f64) -> Result<Font, ()> {
    if name.is_empty() || !(size > 0.0) {
        return Err(());
    }
    Ok(Font { name: name.to_string(), size })
}

/// A shaper double: every glyph is half the font size wide, and lines break
/// after each line feed and wherever the next glyph would not fit. Returns
/// the UTF-16 offset at which each line starts.
fn shape(font: &Font, text: &str, width: f64) -> Vec<usize> {
    let advance = font.size / 2.0;
    let mut starts = Vec::new();
    let mut off16 = 0;
    let mut x = 0.0;
    let mut at_line_start = true;
    for c in text.chars() {
        if !at_line_start && x + advance > width {
            at_line_start = true;
        }
        if at_line_start {
            starts.push(off16);
            x = 0.0;
            at_line_start = false;
        }
        x += advance;
        off16 += c.len_utf16();
        if c == '\n' {
            at_line_start = true;
        }
    }
    starts
}

fn layout_of(font: &Font, text: &str, width: f64) -> CoreGraphicsTextLayout {
    assert!(!font.name.is_empty());
    let bits = Some(width.to_bits());
    let builder = CoreGraphicsText.new_text_layout(text, bits);
    let shaped_at = match builder.width_to_shape().unwrap() {
        WrapWidth::Unconstrained => f64::INFINITY,
        WrapWidth::Constrained(bits) => f64::from_bits(bits),
    };
    let starts = shape(font, builder.text_to_shape(), shaped_at);
    builder.build(&starts).unwrap()
}

#[test]
fn line_offsets() {
    let text = "hi\ni'm\n😀 four\nlines";
    let a_font = new_from_name("Helvetica", 16.0).unwrap();
    let layout = layout_of(&a_font, text, f64::INFINITY);
    assert_eq!(layout.line_text(0), Some("hi\n"));
    assert_eq!(layout.line_text(1), Some("i'm\n"));
    assert_eq!(layout.line_text(2), Some("😀 four\n"));
    assert_eq!(layout.line_text(3), Some("lines"));
}

#[test]
fn metrics() {
    let text = "🤡:\na string\nwith a number \n of lines";
    let a_font = new_from_name("Helvetica", 16.0).unwrap();
    let layout = layout_of(&a_font, text, f64::INFINITY);
    let line1 = layout.line_metric(0).unwrap();
    assert_eq!(line1.start_offset, 0);
    assert_eq!(line1.end_offset, 6);
    assert_eq!(line1.trailing_whitespace, 1);
    layout.line_metric(1);

    let line3 = layout.line_metric(2).unwrap();
    assert_eq!(line3.start_offset, 15);
    assert_eq!(line3.end_offset, 30);
    assert_eq!(line3.trailing_whitespace, 2);

    let line4 = layout.line_metric(3).unwrap();
    assert_eq!(layout.line_text(3), Some(" of lines"));
    assert_eq!(line4.trailing_whitespace, 0);

    assert!(layout.line_metric(4).is_none());
}

#[test]
fn four_lines_unconstrained() {
    let layout =
        CoreGraphicsTextLayout::new("hi\ni'm\n😀 four\nlines", None, &vec![0, 3, 7, 15]).unwrap();
    assert_eq!(layout.line_count(), 4);
    assert_eq!(layout.line_range(0), Some((0, 3)));
    assert_eq!(layout.line_range(1), Some((3, 7)));
    assert_eq!(layout.line_range(2), Some((7, 17)));
    assert_eq!(layout.line_range(3), Some((17, 22)));
    assert_eq!(layout.line_range(4), None);
    assert_eq!(layout.line_text(4), None);
    assert_eq!(layout.width_constraint(), WrapWidth::Unconstrained);
    assert_eq!(layout.text(), "hi\ni'm\n😀 four\nlines");
    assert_eq!(layout.byte_len(), 22);
}

#[test]
fn lines_partition_the_text() {
    let text = "🤡:\na string\nwith a number \n of lines, and a few more words";
    let a_font = new_from_name("Helvetica", 16.0).unwrap();
    for width in [0.0, 8.0, 40.0, 100.0, f64::INFINITY] {
        let layout = layout_of(&a_font, text, width);
        let mut joined = String::new();
        let mut expected_start = 0;
        for i in 0..layout.line_count() {
            let (start, end) = layout.line_range(i).unwrap();
            assert_eq!(start, expected_start);
            assert!(text.is_char_boundary(start));
            assert!(text.is_char_boundary(end));
            joined.push_str(layout.line_text(i).unwrap());
            expected_start = end;
        }
        assert_eq!(expected_start, text.len());
        assert_eq!(joined, text);
    }
}

#[test]
fn first_line_starts_at_zero() {
    let a_font = new_from_name("Helvetica", 16.0).unwrap();
    for text in ["", "a", "😀", "\n", "two\nlines"] {
        for width in [0.0, 10.0, f64::INFINITY] {
            let layout = layout_of(&a_font, text, width);
            assert_eq!(layout.line_metric(0).unwrap().start_offset, 0);
        }
    }
}

#[test]
fn empty_text_is_one_empty_line() {
    let layout = CoreGraphicsTextLayout::new("", Some(0.0f64.to_bits()), &vec![]).unwrap();
    assert_eq!(layout.line_count(), 1);
    assert_eq!(layout.line_text(0), Some(""));
    assert_eq!(
        layout.line_metric(0),
        Some(LineMetric { start_offset: 0, end_offset: 0, trailing_whitespace: 0 })
    );
    assert_eq!(layout.line_metric(1), None);
    assert_eq!(layout.width_constraint(), WrapWidth::Constrained(0));
}

#[test]
fn frame_without_lines_is_one_line() {
    let layout = CoreGraphicsTextLayout::new("abc \t", None, &vec![]).unwrap();
    assert_eq!(layout.line_count(), 1);
    assert_eq!(layout.line_text(0), Some("abc \t"));
    assert_eq!(layout.line_metric(0).unwrap().trailing_whitespace, 2);
}

#[test]
fn wrapped_lines() {
    let a_font = new_from_name("Helvetica", 16.0).unwrap();
    let layout = layout_of(&a_font, "ab😀cd\nef", 24.0);
    assert_eq!(layout.line_count(), 3);
    assert_eq!(layout.line_text(0), Some("ab😀"));
    assert_eq!(layout.line_text(1), Some("cd\n"));
    assert_eq!(layout.line_text(2), Some("ef"));
    assert_eq!(layout.line_range(1), Some((6, 9)));
    assert_eq!(layout.width_constraint(), WrapWidth::Constrained(24.0f64.to_bits()));
}

#[test]
fn rewrap_with_same_width_asks_for_nothing() {
    let text = "some words to wrap\nand some more";
    let a_font = new_from_name("Helvetica", 16.0).unwrap();
    let mut layout = layout_of(&a_font, text, f64::INFINITY);
    let mut shaper_calls = 0;
    let mut snapshots = Vec::new();
    for width in [Some(40.0f64), Some(40.0), None, None, Some(f64::INFINITY), Some(40.0)] {
        let bits = width.map(f64::to_bits);
        match layout.update_width(bits).unwrap() {
            WidthUpdate::Unchanged => {}
            WidthUpdate::Reshape(w) => {
                shaper_calls += 1;
                let starts = shape(&a_font, text, f64::from_bits(w.to_bits()));
                layout.install_frame(bits, &starts).unwrap();
            }
        }
        let ranges: Vec<_> = (0..layout.line_count()).map(|i| layout.line_range(i)).collect();
        snapshots.push((layout.width_constraint(), ranges));
    }
    assert_eq!(shaper_calls, 3);
    assert_eq!(snapshots[0], snapshots[1]);
    assert_eq!(snapshots[2], snapshots[3]);
    assert_eq!(snapshots[3], snapshots[4]);
    assert_eq!(snapshots[5].0, WrapWidth::Constrained(40.0f64.to_bits()));
    assert_eq!(snapshots[5].1.len(), 7);
    assert_eq!(snapshots[5], snapshots[0]);
    assert_eq!(snapshots[2].1, vec![Some((0, 19)), Some((19, 32))]);
}

#[test]
fn update_width_decides() {
    let layout = CoreGraphicsTextLayout::new("abc", Some(50.0f64.to_bits()), &vec![0]).unwrap();
    assert_eq!(layout.update_width(Some(50.0f64.to_bits())), Ok(WidthUpdate::Unchanged));
    assert_eq!(
        layout.update_width(Some(51.0f64.to_bits())),
        Ok(WidthUpdate::Reshape(WrapWidth::Constrained(51.0f64.to_bits())))
    );
    assert_eq!(layout.update_width(None), Ok(WidthUpdate::Reshape(WrapWidth::Unconstrained)));
    assert_eq!(layout.update_width(Some(f64::NAN.to_bits())), Err(Error::InvalidWidth));
    assert_eq!(layout.update_width(Some((-1.0f64).to_bits())), Err(Error::InvalidWidth));
}

#[test]
fn bad_frames_are_refused_and_change_nothing() {
    let text = "a😀b\ncd";
    let mut layout = CoreGraphicsTextLayout::new(text, None, &vec![0, 5]).unwrap();
    assert_eq!(layout.line_range(1), Some((7, 9)));
    // inside the surrogate pair
    assert_eq!(layout.install_frame(Some(10.0f64.to_bits()), &vec![0, 2]), Err(Error::InternalOffsetMismatch));
    // beyond the text
    assert_eq!(layout.install_frame(None, &vec![0, 8]), Err(Error::InternalOffsetMismatch));
    // not ascending
    assert_eq!(layout.install_frame(None, &vec![0, 5, 4]), Err(Error::InternalOffsetMismatch));
    assert_eq!(layout.install_frame(None, &vec![0, 5, 5]), Err(Error::InternalOffsetMismatch));
    assert_eq!(layout.install_frame(None, &vec![0, 0]), Err(Error::InternalOffsetMismatch));
    // first line not at the start
    assert_eq!(layout.install_frame(None, &vec![1, 5]), Err(Error::InternalOffsetMismatch));
    assert_eq!(layout.rebuild_line_offsets(&vec![3]), Err(Error::InternalOffsetMismatch));
    // a bad width comes first
    assert_eq!(layout.install_frame(Some(f64::NAN.to_bits()), &vec![0, 2]), Err(Error::InvalidWidth));
    assert_eq!(layout.install_frame(Some(f64::NEG_INFINITY.to_bits()), &vec![0]), Err(Error::InvalidWidth));
    assert_eq!(layout.line_count(), 2);
    assert_eq!(layout.line_range(0), Some((0, 7)));
    assert_eq!(layout.line_range(1), Some((7, 9)));
    assert_eq!(layout.width_constraint(), WrapWidth::Unconstrained);
    // the end of the text is a line start like any other
    assert_eq!(layout.install_frame(Some(10.0f64.to_bits()), &vec![0, 1, 3, 7]), Ok(()));
    assert_eq!(layout.line_count(), 4);
    assert_eq!(layout.line_text(1), Some("😀"));
    assert_eq!(layout.line_text(3), Some(""));
    assert_eq!(layout.width_constraint(), WrapWidth::Constrained(10.0f64.to_bits()));
}

#[test]
fn new_refuses_bad_input() {
    assert!(matches!(
        CoreGraphicsTextLayout::new("abc", Some((-2.5f64).to_bits()), &vec![0]),
        Err(Error::InvalidWidth)
    ));
    assert!(matches!(
        CoreGraphicsTextLayout::new("abc", None, &vec![0, 4]),
        Err(Error::InternalOffsetMismatch)
    ));
    let builder = CoreGraphicsText.new_text_layout("abc", Some(f64::NAN.to_bits()));
    assert_eq!(builder.width_to_shape(), Err(Error::InvalidWidth));
    assert!(matches!(builder.build(&vec![0]), Err(Error::InvalidWidth)));
}

#[test]
fn rebuild_keeps_the_width() {
    let mut layout = CoreGraphicsTextLayout::new("ab\ncd", Some(7.0f64.to_bits()), &vec![0]).unwrap();
    assert_eq!(layout.rebuild_line_offsets(&vec![0, 3]), Ok(()));
    assert_eq!(layout.line_count(), 2);
    assert_eq!(layout.line_text(1), Some("cd"));
    assert_eq!(layout.width_constraint(), WrapWidth::Constrained(7.0f64.to_bits()));
}

#[test]
fn trailing_whitespace_is_ascii_only() {
    let text = "a \t\r\nb\u{a0}\nc\u{2003}";
    let layout = CoreGraphicsTextLayout::new(text, None, &vec![0, 5, 8]).unwrap();
    assert_eq!(
        layout.line_metric(0),
        Some(LineMetric { start_offset: 0, end_offset: 5, trailing_whitespace: 4 })
    );
    assert_eq!(
        layout.line_metric(1),
        Some(LineMetric { start_offset: 5, end_offset: 9, trailing_whitespace: 1 })
    );
    assert_eq!(
        layout.line_metric(2),
        Some(LineMetric { start_offset: 9, end_offset: 13, trailing_whitespace: 0 })
    );
}

#[test]
fn text_position_finds_its_line() {
    let layout =
        CoreGraphicsTextLayout::new("hi\ni'm\n😀 four\nlines", None, &vec![0, 3, 7, 15]).unwrap();
    assert_eq!(layout.hit_test_text_position(0), TextPosition { line: 0, offset: 0 });
    assert_eq!(layout.hit_test_text_position(2), TextPosition { line: 0, offset: 2 });
    assert_eq!(layout.hit_test_text_position(3), TextPosition { line: 1, offset: 3 });
    assert_eq!(layout.hit_test_text_position(6), TextPosition { line: 1, offset: 6 });
    assert_eq!(layout.hit_test_text_position(7), TextPosition { line: 2, offset: 7 });
    assert_eq!(layout.hit_test_text_position(16), TextPosition { line: 2, offset: 16 });
    assert_eq!(layout.hit_test_text_position(17), TextPosition { line: 3, offset: 17 });
    assert_eq!(layout.hit_test_text_position(22), TextPosition { line: 3, offset: 22 });
    assert_eq!(layout.hit_test_text_position(23), TextPosition { line: 3, offset: 22 });
    assert_eq!(layout.hit_test_text_position(usize::MAX), TextPosition { line: 3, offset: 22 });
    let empty = CoreGraphicsTextLayout::new("", None, &vec![]).unwrap();
    assert_eq!(empty.hit_test_text_position(5), TextPosition { line: 0, offset: 0 });
}

#[test]
fn clone_keeps_text_width_and_lines() {
    let layout =
        CoreGraphicsTextLayout::new("ab\ncd\n", Some(9.5f64.to_bits()), &vec![0, 3, 6]).unwrap();
    let mut copy = layout.clone();
    assert_eq!(copy.text(), "ab\ncd\n");
    assert_eq!(copy.width_constraint(), WrapWidth::Constrained(9.5f64.to_bits()));
    assert_eq!(copy.line_count(), 3);
    assert_eq!(copy.line_range(2), Some((6, 6)));
    copy.install_frame(None, &vec![0]).unwrap();
    assert_eq!(copy.line_count(), 1);
    assert_eq!(layout.line_count(), 3);
    assert_eq!(layout.line_text(1), Some("cd\n"));
}
