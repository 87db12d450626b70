use b2_backup::parse::{parse_items, parse_tag_line, parse_tree, parse_u64, ParseError};
use b2_backup::records::{
    get_device_id, get_quota, get_server_ip, operation_from_attrs, transfer_from_attrs,
    DeviceError,
};

#[test]
fn record_line_decodes_attributes() {
    let line = br#"<item per="100%" fname="/a/b" trf_type="FULL" rate_trf="2kb/s" tottrf_sz="5000"/>"#.to_vec();
    let attrs = parse_tag_line(&line).unwrap();
    assert_eq!(attrs.len(), 5);
    assert_eq!(attrs[0].name, b"per".to_vec());
    assert_eq!(attrs[0].value, b"100%".to_vec());
    assert_eq!(attrs[4].name, b"tottrf_sz".to_vec());
    assert_eq!(attrs[4].value, b"5000".to_vec());
}

#[test]
fn record_line_without_close_is_malformed() {
    let line = br#"<item per="100%""#.to_vec();
    assert_eq!(parse_tag_line(&line), Err(ParseError::Malformed));
}

#[test]
fn record_line_with_unquoted_value_is_malformed() {
    let line = b"<item per=100%/>".to_vec();
    assert_eq!(parse_tag_line(&line), Err(ParseError::Malformed));
}

#[test]
fn empty_record_line_decodes() {
    let line = b"<item/>".to_vec();
    let attrs = parse_tag_line(&line).unwrap();
    assert!(attrs.is_empty());
}

#[test]
fn output_scan_skips_free_form_lines() {
    let output = b"connecting...\n<item per=\"50%\" fname=\"/x\"/>\nall done\n".to_vec();
    let items = parse_items(&output).unwrap();
    assert_eq!(items.len(), 1);
    assert_eq!(items[0][0].value, b"50%".to_vec());
}

#[test]
fn output_scan_fails_on_bad_record_line() {
    let output = b"fine text\n<item broken\nmore text\n".to_vec();
    assert_eq!(parse_items(&output), Err(ParseError::Malformed));
}

#[test]
fn output_scan_of_empty_output_is_empty() {
    let output = Vec::new();
    let items = parse_items(&output).unwrap();
    assert!(items.is_empty());
}

#[test]
fn number_parses_and_rejects() {
    assert_eq!(parse_u64(&b"5000".to_vec()), Ok(5000));
    assert_eq!(parse_u64(&b"0".to_vec()), Ok(0));
    assert_eq!(parse_u64(&b"18446744073709551615".to_vec()), Ok(u64::MAX));
    assert_eq!(parse_u64(&b"18446744073709551616".to_vec()), Err(ParseError::BadNumber));
    assert_eq!(parse_u64(&b"".to_vec()), Err(ParseError::BadNumber));
    assert_eq!(parse_u64(&b"12a".to_vec()), Err(ParseError::BadNumber));
    assert_eq!(parse_u64(&b"-1".to_vec()), Err(ParseError::BadNumber));
}

#[test]
fn transfer_record_needs_all_fields() {
    let full = br#"<item per="100%" fname="/a" trf_type="FULL" rate_trf="1" tottrf_sz="9"/>"#.to_vec();
    let attrs = parse_tag_line(&full).unwrap();
    let t = transfer_from_attrs(&attrs).unwrap();
    assert_eq!(t.percentage, b"100%".to_vec());
    assert_eq!(t.file_name, b"/a".to_vec());
    assert_eq!(t.type_, b"FULL".to_vec());
    assert_eq!(t.rate, b"1".to_vec());
    assert_eq!(t.total_size, 9);

    let missing = br#"<item per="100%" fname="/a"/>"#.to_vec();
    let attrs = parse_tag_line(&missing).unwrap();
    assert_eq!(transfer_from_attrs(&attrs), Err(ParseError::MissingField));

    let bad = br#"<item per="100%" fname="/a" trf_type="FULL" rate_trf="1" tottrf_sz="x"/>"#.to_vec();
    let attrs = parse_tag_line(&bad).unwrap();
    assert_eq!(transfer_from_attrs(&attrs), Err(ParseError::BadNumber));
}

#[test]
fn transfer_record_ignores_unknown_fields() {
    let line = br#"<item per="100%" extra="zzz" fname="/a" trf_type="FULL" rate_trf="1" tottrf_sz="9"/>"#.to_vec();
    let attrs = parse_tag_line(&line).unwrap();
    let t = transfer_from_attrs(&attrs).unwrap();
    assert_eq!(t.total_size, 9);
}

#[test]
fn deletion_record_count_is_optional() {
    let with = br#"<item tot_items_deleted="100"/>"#.to_vec();
    let attrs = parse_tag_line(&with).unwrap();
    assert_eq!(operation_from_attrs(&attrs).unwrap().items_deleted, Some(100));

    let without = br#"<item fname="/a"/>"#.to_vec();
    let attrs = parse_tag_line(&without).unwrap();
    assert_eq!(operation_from_attrs(&attrs).unwrap().items_deleted, None);

    let bad = br#"<item tot_items_deleted="many"/>"#.to_vec();
    let attrs = parse_tag_line(&bad).unwrap();
    assert_eq!(operation_from_attrs(&attrs), Err(ParseError::BadNumber));
}

#[test]
fn tree_is_found_after_noise() {
    let output = b"noise line\nstill noise <tree cmdUtilityServerIP=\"1.2.3.4\"/>\n".to_vec();
    let attrs = parse_tree(&output).unwrap();
    assert_eq!(attrs[0].name, b"cmdUtilityServerIP".to_vec());
    assert_eq!(attrs[0].value, b"1.2.3.4".to_vec());
}

#[test]
fn missing_tree_is_its_own_error() {
    let output = b"no records here\n".to_vec();
    assert_eq!(parse_tree(&output), Err(ParseError::TreeMissing));
}

#[test]
fn server_ip_is_read_from_tree() {
    let output = b"<tree cmdUtilityServerIP=\"10.0.0.9\"/>\n".to_vec();
    assert_eq!(get_server_ip(&output).unwrap(), b"10.0.0.9".to_vec());
    let bare = b"<tree other=\"x\"/>\n".to_vec();
    assert_eq!(get_server_ip(&bare), Err(ParseError::MissingField));
}

#[test]
fn quota_is_read_from_tree() {
    let output = b"<tree usedquota=\"1073741824\" totalquota=\"2147483648\"/>\n".to_vec();
    assert_eq!(get_quota(&output).unwrap(), (1073741824, 2147483648));
}

#[test]
fn device_id_is_wrapped_in_affixes() {
    let output = b"<item device_id=\"ABC\" nick_name=\"box\"/>\n<item device_id=\"XYZ\" nick_name=\"other\"/>\n".to_vec();
    let id = get_device_id(&output, &b"box".to_vec()).unwrap();
    assert_eq!(id, b"5c0bABC4b5z".to_vec());
}

#[test]
fn unknown_device_name_is_not_found() {
    let output = b"<item device_id=\"ABC\" nick_name=\"box\"/>\n".to_vec();
    assert_eq!(get_device_id(&output, &b"nope".to_vec()), Err(DeviceError::NotFound));
}
