use raytracer::image::parse_ppm;

#[test]
fn ppm_decodes_header_and_samples() {
    let mut bytes = b"P6\n2 1\n255\n".to_vec();
    bytes.extend_from_slice(&[1, 2, 3, 4, 5, 6, 99]);
    let img = parse_ppm(&bytes).expect("a valid image");
    assert_eq!(img.width, 2);
    assert_eq!(img.height, 1);
    assert_eq!(img.max_value, 255);
    assert_eq!(img.samples, vec![1, 2, 3, 4, 5, 6]);
}

#[test]
fn ppm_accepts_several_spaces_between_numbers() {
    let mut bytes = b"P6 \t 1\r\n\n1  15 ".to_vec();
    bytes.extend_from_slice(&[7, 8, 9]);
    let img = parse_ppm(&bytes).expect("a valid image");
    assert_eq!((img.width, img.height, img.max_value), (1, 1, 15));
    assert_eq!(img.samples, vec![7, 8, 9]);
}

#[test]
fn ppm_empty_image() {
    let img = parse_ppm(b"P6 0 7 255 ").expect("a valid empty image");
    assert_eq!((img.width, img.height), (0, 7));
    assert!(img.samples.is_empty());
}

#[test]
fn ppm_refuses_bad_input() {
    assert!(parse_ppm(b"").is_none());
    assert!(parse_ppm(b"P3 1 1 255 \x01\x02\x03").is_none());
    assert!(parse_ppm(b"P61 1 255 \x01\x02\x03").is_none());
    assert!(parse_ppm(b"P6 1 1 256 \x01\x02\x03").is_none());
    assert!(parse_ppm(b"P6 1 1 0 \x01\x02\x03").is_none());
    assert!(parse_ppm(b"P6 1 1 255\x01\x02\x03").is_none());
    assert!(parse_ppm(b"P6 1 1 255 \x01\x02").is_none());
    assert!(parse_ppm(b"P6 4294967296 1 255 ").is_none());
    assert!(parse_ppm(b"P6 x 1 255 ").is_none());
}

#[test]
fn ppm_largest_dimensions_without_samples_are_refused() {
    assert!(parse_ppm(b"P6 4294967295 4294967295 255 ").is_none());
}
