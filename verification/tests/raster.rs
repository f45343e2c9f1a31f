use sshot::png::encode_png;
use sshot::png::EmptyImage;
use sshot::raster::crop;
use sshot::raster::precompute_overlay;
use sshot::raster::region_size;
use sshot::raster::render;
use sshot::raster::Crop;
use sshot::raster::EmptySelection;

const BORDER: [u8; 4] = [11, 22, 33, 255];

fn table(factor: f32) -> [u8; 256] {
    let mut dim = [0u8; 256];
    for (i, d) in dim.iter_mut().enumerate() {
        *d = (i as f32 * factor) as u8;
    }
    dim
}

fn paint(width: u32, height: u32, rect: Option<(i32, i32, u32, u32)>, border: u32) -> Vec<u8> {
    let len = (width * height * 4) as usize;
    let mut canvas = vec![0u8; len];
    let normal = vec![200u8; len];
    let dimmed = vec![100u8; len];
    render(&mut canvas, &normal, &dimmed, width, height, rect, BORDER, border);
    canvas
}

/// One letter for each pixel: the picture itself, the border, dimmed, or something else.
fn letters(canvas: &[u8], width: usize) -> Vec<String> {
    canvas
        .chunks(4 * width)
        .map(|row| {
            row.chunks(4)
                .map(|p| match p {
                    [200, 200, 200, 200] => 'N',
                    [11, 22, 33, 255] => 'B',
                    [100, 100, 100, 100] => '.',
                    _ => '?',
                })
                .collect()
        })
        .collect()
}

#[test]
fn without_a_highlight_everything_is_dimmed() {
    assert_eq!(letters(&paint(3, 2, None, 1), 3), vec!["...", "..."]);
}

#[test]
fn a_highlight_has_a_border() {
    assert_eq!(
        letters(&paint(6, 5, Some((2, 2, 2, 1)), 1), 6),
        vec!["......", ".BBBB.", ".BNNB.", ".BBBB.", "......"]
    );
    assert_eq!(
        letters(&paint(6, 5, Some((2, 2, 2, 1)), 0), 6),
        vec!["......", "......", "..NN..", "......", "......"]
    );
}

#[test]
fn a_highlight_is_clipped() {
    assert_eq!(
        letters(&paint(5, 3, Some((-1, -1, 3, 2)), 1), 5),
        vec!["NNB..", "BBB..", "....."]
    );
    assert_eq!(
        letters(&paint(5, 3, Some((3, 1, 9, 9)), 1), 5),
        vec!["..BBB", "..BNN", "..BNN"]
    );
    assert_eq!(
        letters(&paint(3, 2, Some((i32::MIN, i32::MIN, u32::MAX, u32::MAX)), 9), 3),
        vec!["NNN", "NNN"]
    );
}

#[test]
fn a_highlight_outside_draws_nothing() {
    for rect in [(5, 0, 2, 2), (0, 3, 2, 2), (-4, 0, 4, 3), (1, 1, 0, 2), (1, 1, 2, 0)] {
        let rows = letters(&paint(5, 3, Some(rect), 2), 5);
        assert_eq!(rows, vec![".....", ".....", "....."], "{rect:?}");
    }
}

#[test]
fn short_buffers_are_left_alone() {
    let mut canvas = vec![9u8; 12];
    render(&mut canvas, &[200; 4], &[100; 8], 3, 1, Some((0, 0, 3, 1)), BORDER, 1);
    assert_eq!(canvas, vec![100, 100, 100, 100, 100, 100, 100, 100, 9, 9, 9, 9]);
}

#[test]
fn an_overlay_is_the_shot_and_the_dimmed_shot() {
    let shot: Vec<u8> = (0..24).map(|i| i * 10).collect();
    // Two rows of three pixels.
    let (normal, dimmed) = precompute_overlay(&shot, 12, 3, 0, 0, 3, 2, &table(0.75));
    assert_eq!(normal, shot);
    for (k, d) in dimmed.iter().enumerate() {
        let expected = if k % 4 == 3 { shot[k] } else { (shot[k] as f32 * 0.75) as u8 };
        assert_eq!(*d, expected);
    }
}

#[test]
fn an_overlay_beyond_the_shot_is_empty() {
    let shot: Vec<u8> = (1..=24).collect();
    let (normal, dimmed) = precompute_overlay(&shot, 12, 3, 2, 1, 2, 2, &table(1.0));
    let mut expected = vec![0u8; 16];
    expected[..4].copy_from_slice(&shot[20..24]);
    assert_eq!(normal, expected);
    assert_eq!(dimmed, expected);
}

#[test]
fn a_region_is_cut_out() {
    let shot: Vec<u8> = (0..48).collect();
    let part = crop(&shot, 4, 16, 1, 1, 2, 2).unwrap();
    assert_eq!((part.width, part.height), (2, 2));
    assert_eq!(
        part.rgba,
        vec![22, 21, 20, 23, 26, 25, 24, 27, 38, 37, 36, 39, 42, 41, 40, 43]
    );
}

#[test]
fn a_region_ends_with_the_shot() {
    let shot: Vec<u8> = (0..48).collect();
    let part = crop(&shot, 4, 16, 3, 2, 100, 100).unwrap();
    assert_eq!((part.width, part.height), (1, 1));
    assert_eq!(part.rgba, vec![46, 45, 44, 47]);
    assert_eq!(region_size(&shot, 4, 16, 3, 2, 100, 100), (1, 1));
    assert_eq!(region_size(&shot, 4, 16, 1, 0, 2, 100), (2, 3));
    assert_eq!(region_size(&shot, 0, 16, 1, 0, 2, 100), (0, 3));
    // A corner beyond the shot is moved to its last pixel.
    let last = crop(&shot, 4, 16, 99, 99, 1, 1).unwrap();
    assert_eq!(last.rgba, part.rgba);
}

#[test]
fn an_empty_region_is_refused() {
    let shot: Vec<u8> = (0..48).collect();
    assert!(matches!(crop(&shot, 4, 16, 0, 0, 0, 2), Err(EmptySelection)));
    assert!(matches!(crop(&shot, 4, 16, 0, 0, 2, 0), Err(EmptySelection)));
    assert!(matches!(crop(&[], 4, 16, 0, 0, 2, 2), Err(EmptySelection)));
    assert!(matches!(crop(&shot, 0, 16, 0, 0, 2, 2), Err(EmptySelection)));
}

#[test]
fn png_decodes_to_the_same_pixels() {
    let rgba: Vec<u8> = (0..24).map(|i| i * 7).collect();
    let bytes = encode_png(&Crop { width: 3, height: 2, rgba: rgba.clone() }).unwrap();
    assert_eq!(bytes[..8], [137, 80, 78, 71, 13, 10, 26, 10]);
    let decoded = image::load_from_memory(&bytes).unwrap().into_rgba8();
    assert_eq!(decoded.dimensions(), (3, 2));
    assert_eq!(decoded.into_raw(), rgba);
}

#[test]
fn png_needs_a_pixel() {
    let none = Crop { width: 0, height: 2, rgba: Vec::new() };
    assert_eq!(encode_png(&none), Err(EmptyImage));
    let flat = Crop { width: 2, height: 0, rgba: Vec::new() };
    assert_eq!(encode_png(&flat), Err(EmptyImage));
}
