use nicaiemu_core::builtin_files::{
    builtin_file, file_name, names_payment_component, PaymentComponent,
};

/// A stand-in of the component's length, filled like the start of its code.
fn component() -> PaymentComponent {
    PaymentComponent::new(vec![0xfe; 75341]).unwrap()
}

#[test]
fn matches_wpay_cbm_by_prefix_under_any_directory() {
    let blob = component();
    assert!(builtin_file("wpayker42v100.cbm", &blob).is_some());
    assert!(builtin_file("wpayker42wqvgav100.cbm", &blob).is_some());
    assert!(builtin_file("mb_w_qvga/wpayker42v100.cbm", &blob).is_some());
    // Upper case and backslashes occur in games too.
    assert!(builtin_file("WpayKer42V100.CBM", &blob).is_some());
    assert!(builtin_file("MB_W_QVGA\\WpayKer42V100.CBM", &blob).is_some());
}

#[test]
fn does_not_match_other_names() {
    let blob = component();
    assert!(builtin_file("upinfo2.dat", &blob).is_none());
    assert!(builtin_file("downinfo.dat", &blob).is_none());
    assert!(builtin_file("n6206v01.xml", &blob).is_none());
    assert!(builtin_file("wpayker42v100.dat", &blob).is_none());
    assert!(builtin_file("wpayinnercbm_wqvga.mid", &blob).is_none());
}

#[test]
fn built_in_blob_is_the_real_component() {
    let blob = component();
    let data = builtin_file("wpayker42v100.cbm", &blob).unwrap();
    assert_eq!(data.len(), 75341);
    assert_eq!(&data[..4], &[0xfe, 0xfe, 0xfe, 0xfe]);
}

#[test]
fn directories_with_either_separator_are_left_out_of_a_name() {
    assert_eq!(file_name("a/b\\c.cbm"), "c.cbm");
    assert_eq!(file_name("a\\b/c.cbm"), "c.cbm");
    assert_eq!(file_name("c.cbm"), "c.cbm");
    assert_eq!(file_name("a/b/"), "");
    assert_eq!(file_name(""), "");
}

#[test]
fn a_matching_directory_does_not_make_a_match() {
    let blob = component();
    assert!(builtin_file("wpayker42v100.cbm/readme.txt", &blob).is_none());
    assert!(builtin_file("wpayker.cbm/", &blob).is_none());
    assert!(builtin_file("", &blob).is_none());
}

#[test]
fn case_is_folded_beyond_ascii() {
    let blob = component();
    // The Kelvin sign is an upper case of k.
    assert!(builtin_file("wpay\u{212a}er.cbm", &blob).is_some());
    assert!(builtin_file("wpay\u{212b}er.cbm", &blob).is_none());
}

#[test]
fn prefix_and_suffix_are_both_needed_in_lower_case() {
    assert!(names_payment_component("wpayker.cbm"));
    assert!(names_payment_component("wpaykerwpayker.cbm.cbm"));
    assert!(!names_payment_component("wpayker"));
    assert!(!names_payment_component(".cbm"));
    assert!(!names_payment_component("WPAYKER.CBM"));
    assert!(!names_payment_component("xwpayker.cbm"));
    assert!(!names_payment_component("wpayker.cbmx"));
}

#[test]
fn ascii_case_does_not_matter_beside_other_characters() {
    let blob = component();
    for path in [
        "\u{c4}/WpayKer\u{3a3}.CBM",
        "wPaYker\u{391}\u{3a3}a.cBm",
        "wpayker\u{130}\u{df}.CBM",
        "Wpay\u{212a}er.cbm",
        "\u{3a3}pay/Other\u{3a3}.CBM",
    ] {
        let file = builtin_file(path, &blob);
        assert_eq!(builtin_file(&path.to_ascii_lowercase(), &blob), file);
        assert_eq!(builtin_file(&path.to_ascii_uppercase(), &blob), file);
        assert_eq!(file.is_some(), !path.contains("Other"));
    }
}

#[test]
fn the_component_is_known_by_its_length_and_its_start() {
    let blob = component();
    for path in ["wpayker.cbm", "a/WPAYKER42wqvgaV100.CBM"] {
        let data = builtin_file(path, &blob).unwrap();
        assert_eq!(data.len(), 75341);
        assert_eq!(Some(data), builtin_file("wpayker42v100.cbm", &blob));
    }
    let mut bytes = vec![0xfe; 75341];
    bytes[3] = 0;
    assert!(PaymentComponent::new(bytes).is_none());
    assert!(PaymentComponent::new(vec![0xfe; 75340]).is_none());
    assert!(PaymentComponent::new(vec![]).is_none());
}
