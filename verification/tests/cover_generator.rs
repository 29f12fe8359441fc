use biliup_common::cover_generator::{
    choose_font, fit_picture, font_index_for_char, join_runs, render_background, segment_runs,
    split_template_lines, BackgroundSource, Fit, MAX_RESIZE_PIXELS,
};

fn put16(bytes: &mut Vec<u8>, value: u16) {
    bytes.extend_from_slice(&value.to_be_bytes());
}

fn put32(bytes: &mut Vec<u8>, value: u32) {
    bytes.extend_from_slice(&value.to_be_bytes());
}

/// A font that has shapes for the given characters and for nothing else.
fn font(chars: &[char]) -> Vec<u8> {
    let mut sorted: Vec<u32> = chars.iter().map(|c| *c as u32).collect();
    sorted.sort();

    let mut cmap = Vec::new();
    put16(&mut cmap, 0);
    put16(&mut cmap, 1);
    put16(&mut cmap, 3);
    put16(&mut cmap, 10);
    put32(&mut cmap, 12);
    put16(&mut cmap, 12);
    put16(&mut cmap, 0);
    put32(&mut cmap, 16 + 12 * sorted.len() as u32);
    put32(&mut cmap, 0);
    put32(&mut cmap, sorted.len() as u32);
    for (i, code) in sorted.iter().enumerate() {
        put32(&mut cmap, *code);
        put32(&mut cmap, *code);
        put32(&mut cmap, i as u32 + 1);
    }

    let mut head = vec![0u8; 54];
    head[0..4].copy_from_slice(&[0, 1, 0, 0]);
    head[12..16].copy_from_slice(&[0x5f, 0x0f, 0x3c, 0xf5]);
    head[18..20].copy_from_slice(&1000u16.to_be_bytes());

    let mut hhea = vec![0u8; 36];
    hhea[0..4].copy_from_slice(&[0, 1, 0, 0]);
    hhea[34..36].copy_from_slice(&1u16.to_be_bytes());

    let mut maxp = Vec::new();
    put32(&mut maxp, 0x5000);
    put16(&mut maxp, sorted.len() as u16 + 1);

    let tables: [(&[u8; 4], Vec<u8>); 4] =
        [(b"cmap", cmap), (b"head", head), (b"hhea", hhea), (b"maxp", maxp)];
    let mut bytes = Vec::new();
    put32(&mut bytes, 0x0001_0000);
    put16(&mut bytes, tables.len() as u16);
    put16(&mut bytes, 64);
    put16(&mut bytes, 2);
    put16(&mut bytes, 0);
    let mut offset = 12 + 16 * tables.len();
    let mut body = Vec::new();
    for (tag, data) in &tables {
        bytes.extend_from_slice(*tag);
        put32(&mut bytes, 0);
        put32(&mut bytes, offset as u32);
        put32(&mut bytes, data.len() as u32);
        let padded = data.len().div_ceil(4) * 4;
        body.extend_from_slice(data);
        body.resize(body.len() + padded - data.len(), 0);
        offset += padded;
    }
    bytes.extend_from_slice(&body);
    bytes
}

fn fonts() -> Vec<Vec<u8>> {
    vec![font(&['c', 'w', 'd', '测', '前']), font(&['🚥'])]
}

#[test]
fn split_template_lines_splits_literal_backslash_n() {
    let lines = split_template_lines("cwd 🚥\\n2026-06-15");
    assert_eq!(lines, vec!["cwd 🚥".to_string(), "2026-06-15".to_string()]);
}

#[test]
fn split_template_lines_splits_real_newline() {
    let lines = split_template_lines("a\nb");
    assert_eq!(lines, vec!["a".to_string(), "b".to_string()]);
}

#[test]
fn split_template_lines_single_line() {
    assert_eq!(split_template_lines("只有一行"), vec!["只有一行".to_string()]);
}

#[test]
fn emoji_falls_back_to_emoji_font() {
    let fonts = fonts();
    assert_eq!(font_index_for_char(&fonts, '测'), 0);
    assert_eq!(font_index_for_char(&fonts, '🚥'), 1);
    assert_eq!(font_index_for_char(&fonts, '无'), 0);
}

#[test]
fn segment_runs_splits_by_font() {
    let runs = segment_runs(&fonts(), "cwd🚥前");
    assert_eq!(runs.len(), 3);
    assert_eq!(runs[0], (0, "cwd".to_string()));
    assert_eq!(runs[1], (1, "🚥".to_string()));
    assert_eq!(runs[2], (0, "前".to_string()));
    assert!(segment_runs(&fonts(), "").is_empty());
}

#[test]
fn bytes_that_are_no_font_have_no_shapes() {
    assert_eq!(font_index_for_char(&vec![vec![1, 2, 3], font(&['a'])], 'a'), 1);
    assert_eq!(choose_font(&vec![None, Some(0), Some(7)]), 2);
    assert_eq!(choose_font(&vec![Some(0), None]), 0);
}

#[test]
fn the_runs_make_up_the_line_again() {
    let line: Vec<char> = "abcd".chars().collect();
    let runs = join_runs(&line, &vec![0, 0, 1, 0]);
    assert_eq!(
        runs,
        vec![(0, "ab".to_string()), (1, "c".to_string()), (0, "d".to_string())]
    );
    let whole: String = runs.into_iter().map(|(_, text)| text).collect();
    assert_eq!(whole, "abcd");
}

fn scaled(width: u32, height: u32) -> (u32, u32) {
    let scale = f64::max(1146.0 / width as f64, 717.0 / height as f64);
    ((width as f64 * scale).ceil() as u32, (height as f64 * scale).ceil() as u32)
}

#[test]
fn fits_wide_image_to_canvas_without_letterboxing() {
    let (width, height) = scaled(3000, 500);
    let fit = fit_picture(3000, 500, width, height, 1146, 717).unwrap();
    assert_eq!(fit.scaled_height, 717);
    assert!(fit.scaled_width > 1146);
    assert_eq!(fit.x, (fit.scaled_width - 1146) / 2);
    assert_eq!(fit.y, 0);
}

#[test]
fn fits_tall_image_to_canvas_without_letterboxing() {
    let (width, height) = scaled(500, 3000);
    let fit = fit_picture(500, 3000, width, height, 1146, 717).unwrap();
    assert_eq!(fit.scaled_width, 1146);
    assert!(fit.scaled_height > 717);
    assert_eq!(fit.x, 0);
    assert_eq!(fit.y, (fit.scaled_height - 717) / 2);
}

#[test]
fn a_picture_of_the_size_of_the_canvas_stays() {
    assert_eq!(
        fit_picture(1146, 717, 1146, 717, 1146, 717),
        Some(Fit { scaled_width: 1146, scaled_height: 717, x: 0, y: 0 })
    );
}

#[test]
fn falls_back_to_black_for_extreme_aspect_ratio() {
    let (width, height) = scaled(1, 3000);
    assert!(width as u64 * height as u64 > MAX_RESIZE_PIXELS);
    assert!(fit_picture(1, 3000, width, height, 1146, 717).is_none());
    assert!(fit_picture(0, 10, 1146, 717, 1146, 717).is_none());
    assert_eq!(
        render_background(BackgroundSource::Picture, false, (0, 0), (1146, 717)),
        BackgroundSource::Black
    );
}

#[test]
fn falls_back_to_black_when_background_missing() {
    assert_eq!(
        render_background(BackgroundSource::Picture, false, (0, 0), (1146, 717)),
        BackgroundSource::Black
    );
    assert_eq!(
        render_background(BackgroundSource::Picture, true, (0, 0), (1146, 717)),
        BackgroundSource::Picture
    );
}

#[test]
fn a_bitmap_of_another_size_is_not_drawn() {
    assert_eq!(
        render_background(BackgroundSource::Bitmap, true, (1146, 717), (1146, 717)),
        BackgroundSource::Bitmap
    );
    assert_eq!(
        render_background(BackgroundSource::Bitmap, true, (1145, 717), (1146, 717)),
        BackgroundSource::Black
    );
}
