use jetkvm_cli::screenshot::{png_data_url, screenshot_data_url};

#[test]
fn data_url_of_png_bytes() {
    assert_eq!(screenshot_data_url(b"hello"), "data:image/png;base64,aGVsbG8=");
    assert_eq!(
        screenshot_data_url(&[0x89, b'P', b'N', b'G']),
        "data:image/png;base64,iVBORw=="
    );
    assert_eq!(screenshot_data_url(&[0xfb, 0xff]), "data:image/png;base64,+/8=");
}

#[test]
fn data_url_of_no_bytes() {
    assert_eq!(screenshot_data_url(&[]), "data:image/png;base64,");
}

#[test]
fn data_url_framing() {
    assert_eq!(png_data_url("QUJD"), "data:image/png;base64,QUJD");
    assert_eq!(png_data_url(""), "data:image/png;base64,");
}

#[test]
fn encoded_length_is_four_per_started_triple() {
    let prefix = "data:image/png;base64,".len();
    for n in 0..10usize {
        let bytes = vec![0u8; n];
        assert_eq!(screenshot_data_url(&bytes).len() - prefix, (n + 2) / 3 * 4);
    }
    assert_eq!(screenshot_data_url(&[0, 0, 0]), "data:image/png;base64,AAAA");
    assert_eq!(screenshot_data_url(b"Man"), "data:image/png;base64,TWFu");
}
