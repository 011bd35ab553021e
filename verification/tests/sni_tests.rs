//! ClientHello SNI extraction.

use sniproxy_ng::tls::sni::{extract_sni, is_valid_hostname};

fn build_client_hello_with_sni(name: &[u8]) -> Vec<u8> {
    let mut data = Vec::new();

    // TLS record header: type, version, length placeholder.
    data.extend_from_slice(&[0x16, 0x03, 0x01]);
    let record_len_pos = data.len();
    data.push(0);
    data.push(0);

    // Handshake message: ClientHello, length placeholder.
    data.push(0x01);
    let hs_len_pos = data.len();
    data.push(0);
    data.push(0);
    data.push(0);

    // legacy version
    data.extend_from_slice(&[0x03, 0x03]);
    // random
    for i in 0u8..32 {
        data.push(i);
    }
    // session id
    data.push(0x00);
    // cipher suites
    data.extend_from_slice(&[0x00, 0x02]);
    data.extend_from_slice(&[0x00, 0x2F]);
    // compression methods
    data.push(0x01);
    data.push(0x00);

    // extensions
    let ext_start = data.len();
    data.push(0);
    data.push(0);

    // server_name extension
    data.extend_from_slice(&[0x00, 0x00]);
    let sni_ext_start = data.len();
    data.push(0);
    data.push(0);

    let sni_list_start = data.len();
    data.push(0);
    data.push(0);

    data.push(0x00);
    data.push((name.len() >> 8) as u8);
    data.push((name.len() & 0xFF) as u8);
    data.extend_from_slice(name);

    let sni_list_len = data.len() - sni_list_start - 2;
    data[sni_list_start] = (sni_list_len >> 8) as u8;
    data[sni_list_start + 1] = (sni_list_len & 0xFF) as u8;

    let sni_ext_len = data.len() - sni_ext_start - 2;
    data[sni_ext_start] = (sni_ext_len >> 8) as u8;
    data[sni_ext_start + 1] = (sni_ext_len & 0xFF) as u8;

    let ext_len = data.len() - ext_start - 2;
    data[ext_start] = (ext_len >> 8) as u8;
    data[ext_start + 1] = (ext_len & 0xFF) as u8;

    let hs_len = data.len() - hs_len_pos - 3;
    data[hs_len_pos] = (hs_len >> 16) as u8;
    data[hs_len_pos + 1] = ((hs_len >> 8) & 0xFF) as u8;
    data[hs_len_pos + 2] = (hs_len & 0xFF) as u8;

    let record_len = data.len() - record_len_pos - 2;
    data[record_len_pos] = (record_len >> 8) as u8;
    data[record_len_pos + 1] = (record_len & 0xFF) as u8;

    data
}

#[test]
fn test_extract_sni_simple() {
    let data = build_client_hello_with_sni(b"test");

    assert_eq!(data[0], 0x16);
    assert_eq!(data[5], 0x01);

    let result = extract_sni(&data);
    assert!(result.is_ok(), "extract_sni failed: {:?}", result);
    assert_eq!(result.unwrap(), Some(b"test".to_vec()));
}

#[test]
fn test_no_sni() {
    let mut data = Vec::new();

    data.extend_from_slice(&[0x16, 0x03, 0x01]);
    let rec_pos = data.len();
    data.push(0);
    data.push(0);

    data.push(0x01);
    let hs_pos = data.len();
    data.push(0);
    data.push(0);
    data.push(0);

    data.extend_from_slice(&[0x03, 0x03]);
    for i in 0u8..32 {
        data.push(i);
    }
    data.push(0x00);
    data.extend_from_slice(&[0x00, 0x02, 0x00, 0x2F]);
    data.extend_from_slice(&[0x01, 0x00]);
    data.extend_from_slice(&[0x00, 0x00]);

    let hs_len = data.len() - hs_pos - 3;
    data[hs_pos] = (hs_len >> 16) as u8;
    data[hs_pos + 1] = ((hs_len >> 8) & 0xFF) as u8;
    data[hs_pos + 2] = (hs_len & 0xFF) as u8;

    let rec_len = data.len() - rec_pos - 2;
    data[rec_pos] = (rec_len >> 8) as u8;
    data[rec_pos + 1] = (rec_len & 0xFF) as u8;

    let result = extract_sni(&data);
    assert!(result.is_ok());
    assert_eq!(result.unwrap(), None);
}

#[test]
fn test_data_too_short() {
    let data = [0x16, 0x03, 0x01];
    assert!(extract_sni(&data).is_err());
}

#[test]
fn test_hostname_validation() {
    assert!(is_valid_hostname(b"www.google.com"));
    assert!(is_valid_hostname(b"example.com"));
    assert!(is_valid_hostname(b"test"));
    assert!(!is_valid_hostname(b""));
    // Hostnames are ASCII letters, digits, dots and hyphens; other
    // bytes are rejected.
    assert!(!is_valid_hostname("test\u{4e2d}\u{6587}.com".as_bytes()));
}

#[test]
fn test_not_handshake() {
    // Bare bytes that are neither a TLS record nor a ClientHello.
    let data = [0x02, 0x00, 0x00, 0x04, 0x00];
    assert!(matches!(
        extract_sni(&data),
        Err(sniproxy_ng::tls::sni::SniError::NotHandshake)
    ));
}

#[test]
fn test_invalid_extension_overrun() {
    // A well-formed ClientHello prefix whose extensions block claims
    // more bytes than the handshake holds.
    let mut data = build_client_hello_with_sni(b"test");
    // Overstate the extensions length inside the ClientHello body: it
    // sits right after the compression methods.
    let ext_len_pos = 5 + 4 + 2 + 32 + 1 + 2 + 2 + 1 + 1;
    data[ext_len_pos] = 0x7f;
    assert!(matches!(
        extract_sni(&data),
        Err(sniproxy_ng::tls::sni::SniError::InvalidExtension)
    ));
}

#[test]
fn test_invalid_hostname_bytes() {
    // A server name containing a space is not a valid hostname.
    let data = build_client_hello_with_sni(b"bad name");
    assert!(matches!(
        extract_sni(&data),
        Err(sniproxy_ng::tls::sni::SniError::InvalidHostname)
    ));
}
