use sshot::capture::find_byte;
use sshot::capture::parse_ppm;
use sshot::capture::PpmError;
use sshot::raster::crop;

fn image(header: &[u8], rgb: &[u8]) -> Vec<u8> {
    let mut data = header.to_vec();
    data.extend_from_slice(rgb);
    data
}

#[test]
fn ppm_becomes_bgra() {
    let data = image(b"P6\n2 1\n255\n", &[1, 2, 3, 4, 5, 6]);
    let (bgra, width, height, stride) = parse_ppm(&data).unwrap();
    assert_eq!((width, height, stride), (2, 1, 8));
    assert_eq!(bgra, vec![3, 2, 1, 255, 6, 5, 4, 255]);
}

#[test]
fn comments_are_skipped() {
    let data = image(b"P6 by grim\n# one\n#\n  1\t+1  rest\n255\n", &[9, 8, 7]);
    let (bgra, width, height, stride) = parse_ppm(&data).unwrap();
    assert_eq!((width, height, stride), (1, 1, 4));
    assert_eq!(bgra, vec![7, 8, 9, 255]);
}

#[test]
fn missing_pixels_stay_zero() {
    let data = image(b"P6\n2 2\n255\n", &[1, 2, 3, 4, 5]);
    let (bgra, _, _, _) = parse_ppm(&data).unwrap();
    assert_eq!(bgra, vec![3, 2, 1, 255, 0, 0, 0, 0, 0, 0, 0, 0, 0, 0, 0, 0]);
}

#[test]
fn an_empty_image_has_no_pixels() {
    let (bgra, width, height, stride) = parse_ppm(b"P6\n0 7\n255\n").unwrap();
    assert_eq!((bgra.len(), width, height, stride), (0, 0, 7, 0));
}

#[test]
fn each_fault_has_its_error() {
    for (data, error) in [
        (&b"P5\n1 1\n255\n"[..], PpmError::NotP6),
        (&b"P"[..], PpmError::NotP6),
        (&b""[..], PpmError::NotP6),
        (&b"P6"[..], PpmError::UnexpectedEnd),
        (&b"P6\n# open"[..], PpmError::UnexpectedEnd),
        (&b"P6\n1 1"[..], PpmError::UnexpectedEnd),
        (&b"P6\n1 1\n255"[..], PpmError::UnexpectedEnd),
        (&b"P6\n\xff 1\n255\n"[..], PpmError::InvalidDimensions),
        (&b"P6\n  \n255\n"[..], PpmError::NoWidth),
        (&b"P6\nx 1\n255\n"[..], PpmError::BadWidth),
        (&b"P6\n4294967296 1\n255\n"[..], PpmError::BadWidth),
        (&b"P6\n1\n255\n"[..], PpmError::NoHeight),
        (&b"P6\n1 -1\n255\n"[..], PpmError::BadHeight),
        (&b"P6\n4294967295 4294967295\n255\n"[..], PpmError::TooLarge),
    ] {
        match parse_ppm(data) {
            Ok(_) => panic!("{data:?} was read"),
            Err(e) => assert_eq!(e, error, "{data:?}"),
        }
    }
}

#[test]
fn find_byte_starts_where_it_is_told() {
    let data = b"a\nb\n";
    assert_eq!(find_byte(b'\n', data, 0), Ok(1));
    assert_eq!(find_byte(b'\n', data, 1), Ok(1));
    assert_eq!(find_byte(b'\n', data, 2), Ok(3));
    assert_eq!(find_byte(b'\n', data, 4), Err(PpmError::UnexpectedEnd));
    assert_eq!(find_byte(b'z', data, 0), Err(PpmError::UnexpectedEnd));
}

#[test]
fn a_captured_region_has_its_colours() {
    let rgb: Vec<u8> = (0..36).collect();
    let data = image(b"P6\n# from grim\n4 3\n255\n", &rgb);
    let (bgra, width, height, stride) = parse_ppm(&data).unwrap();
    let part = crop(&bgra, width, stride, 1, 1, 2, 2).unwrap();
    assert_eq!((part.width, part.height), (2, 2));
    for row in 0..2 {
        for col in 0..2 {
            let from = ((row + 1) * 4 + col + 1) * 3;
            let to = (row * 2 + col) * 4;
            assert_eq!(part.rgba[to..to + 3], rgb[from..from + 3]);
            assert_eq!(part.rgba[to + 3], 255);
        }
    }
    let whole = crop(&bgra, width, stride, 0, 0, width, height).unwrap();
    assert_eq!(whole.rgba.len(), 48);
    assert_eq!(whole.rgba[44..47], rgb[33..36]);
}
