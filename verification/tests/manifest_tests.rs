use supercontracts::manifest::parse_manifest;
use supercontracts::Fault;

#[test]
fn parses_a_full_manifest() {
    let data = b"Name,Shareholder account address,Amount\nAlice,VDDQ4A,100\nBob,VCX2QW,250\n";
    let v = parse_manifest(data).unwrap();
    assert_eq!(v.len(), 2);
    assert_eq!(v[0].name, "Alice");
    assert_eq!(v[0].address, "VDDQ4A");
    assert_eq!(v[0].amount, 100);
    assert_eq!(v[1].name, "Bob");
    assert_eq!(v[1].address, "VCX2QW");
    assert_eq!(v[1].amount, 250);
}

#[test]
fn columns_may_come_in_any_order() {
    let data = b"Amount,Name,Shareholder account address\n-5,Carol,VABCDE\n";
    let v = parse_manifest(data).unwrap();
    assert_eq!(v.len(), 1);
    assert_eq!(v[0].name, "Carol");
    assert_eq!(v[0].address, "VABCDE");
    assert_eq!(v[0].amount, -5);
}

#[test]
fn extra_columns_are_ignored() {
    let data = b"Name,Note,Shareholder account address,Amount\nDan,x,VFF,7\n";
    let v = parse_manifest(data).unwrap();
    assert_eq!(v[0].address, "VFF");
    assert_eq!(v[0].amount, 7);
}

#[test]
fn empty_file_means_no_shareholders() {
    let v = parse_manifest(b"").unwrap();
    assert!(v.is_empty());
}

#[test]
fn header_only_means_no_shareholders() {
    let v = parse_manifest(b"Name,Shareholder account address,Amount\n").unwrap();
    assert!(v.is_empty());
}

#[test]
fn blank_records_are_skipped() {
    let data = b"Name,Shareholder account address,Amount\n\nAlice,VDDQ4A,100\n\r\n\nBob,VCX2QW,2\n\n";
    let v = parse_manifest(data).unwrap();
    assert_eq!(v.len(), 2);
    assert_eq!(v[0].name, "Alice");
    assert_eq!(v[1].name, "Bob");
}

#[test]
fn a_file_with_no_records_needs_no_columns() {
    let v = parse_manifest(b"Name,Amount\n").unwrap();
    assert!(v.is_empty());
}

#[test]
fn missing_required_column_rejects_the_manifest() {
    let data = b"Name,Amount\nAlice,100\n";
    assert!(matches!(parse_manifest(data), Err(Fault::ManifestParseFailed)));
}

#[test]
fn row_missing_a_field_rejects_the_manifest() {
    let data = b"Name,Shareholder account address,Amount\nAlice,VDDQ4A,100\nBob,250\n";
    assert!(matches!(parse_manifest(data), Err(Fault::ManifestParseFailed)));
}

#[test]
fn bad_amount_rejects_the_manifest() {
    let data = b"Name,Shareholder account address,Amount\nAlice,VDDQ4A,lots\n";
    assert!(matches!(parse_manifest(data), Err(Fault::ManifestParseFailed)));
}

#[test]
fn non_utf8_address_rejects_the_manifest() {
    let mut data = b"Name,Shareholder account address,Amount\nAlice,".to_vec();
    data.extend_from_slice(&[0xFF, 0xFE]);
    data.extend_from_slice(b",100\n");
    assert!(matches!(
        parse_manifest(&data),
        Err(Fault::ManifestParseFailed)
    ));
}
