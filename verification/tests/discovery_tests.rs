use fileporter::discovery::{decode_txt, device_id_from_instance, encode_txt, parse_u16, record_from, select_regtype, split_capabilities, split_fullname};
use fileporter::engine::{IpAddress, SocketAddress};

const REGTYPE: &str = "_fileporter._tcp";

fn pairs(values: &[(&str, &str)]) -> Vec<(String, String)> {
    values.iter().map(|(k, v)| (k.to_string(), v.to_string())).collect()
}

fn endpoint(port: u16) -> SocketAddress {
    SocketAddress { ip: IpAddress::V4([192, 168, 1, 9]), port }
}

#[test]
fn txt_round_trips_the_desktop_record_fields() {
    let txt = encode_txt(&pairs(&[
        ("id", "abc"),
        ("name", "Office Mac"),
        ("pin", "blake3:00ff"),
        ("ver", "1"),
        ("caps", "receive-v1,pairing-v1"),
    ]));
    let record = record_from(&txt, endpoint(48721)).unwrap();
    assert_eq!(record.device_id, "abc");
    assert_eq!(record.device_name, "Office Mac");
    assert_eq!(record.certificate_fingerprint, "blake3:00ff");
    assert_eq!(record.protocol_version, 1);
    assert_eq!(record.capabilities, vec!["receive-v1", "pairing-v1"]);
    assert_eq!(record.endpoint, endpoint(48721));
}

#[test]
fn records_without_identity_or_port_are_ignored() {
    let txt = encode_txt(&pairs(&[("name", "No id"), ("ver", "1")]));
    assert!(record_from(&txt, endpoint(1)).is_none());
    let full = encode_txt(&pairs(&[("id", "a"), ("name", "b"), ("pin", "c"), ("ver", "1")]));
    assert!(record_from(&full, endpoint(0)).is_none());
}

#[test]
fn truncated_txt_does_not_read_past_the_buffer() {
    assert!(decode_txt(&[40, b'i', b'd']).is_empty());
}

#[test]
fn fullnames_unescape_to_the_published_instance() {
    let (name, _) = split_fullname("fileporter-a\\032b._fileporter._tcp.local.", REGTYPE).unwrap();
    assert_eq!(name, "fileporter-a b");
    let (name, domain) = split_fullname("fileporter-abc\\.d._fileporter._tcp.local.", REGTYPE).unwrap();
    assert_eq!(name, "fileporter-abc.d");
    assert_eq!(domain, "local.");
    assert_eq!(device_id_from_instance(&name).as_deref(), Some("abc.d"));
}

#[test]
fn fullnames_without_the_service_type_do_not_split() {
    assert_eq!(split_fullname("fileporter-a._other._tcp.local.", REGTYPE), None);
    assert_eq!(device_id_from_instance("fileporter-"), None);
    assert_eq!(device_id_from_instance("other-abc"), None);
    let (name, _) = split_fullname("x\\\\y\\.z._fileporter._tcp.local.", REGTYPE).unwrap();
    assert_eq!(name, "x\\y.z");
    let (name, _) = split_fullname("trailing\\._fileporter._tcp.local.", REGTYPE).unwrap();
    assert_eq!(name, "trailing");
}

#[test]
fn later_entries_win_and_keys_are_case_insensitive() {
    let txt = encode_txt(&pairs(&[("ID", "first"), ("name", "n"), ("pin", "p"), ("ver", "+0001"), ("id", "second")]));
    let record = record_from(&txt, endpoint(5)).unwrap();
    assert_eq!(record.device_id, "second");
    assert_eq!(record.protocol_version, 1);
    assert!(record.capabilities.is_empty());
    let values = decode_txt(&txt);
    assert_eq!(values[0], ("id".to_string(), "first".to_string()));
}

#[test]
fn versions_parse_as_unsigned_sixteen_bit_numbers() {
    assert_eq!(parse_u16("65535"), Some(65535));
    assert_eq!(parse_u16("65536"), None);
    assert_eq!(parse_u16(""), None);
    assert_eq!(parse_u16("+"), None);
    assert_eq!(parse_u16("-1"), None);
    assert_eq!(parse_u16("1a"), None);
}

#[test]
fn capability_lists_skip_empty_values() {
    assert_eq!(split_capabilities(",a,,b,"), vec!["a".to_string(), "b".to_string()]);
    assert!(split_capabilities("").is_empty());
}

#[test]
fn long_entries_are_cut_to_a_length_byte() {
    let long = "v".repeat(300);
    let txt = encode_txt(&pairs(&[("k", long.as_str())]));
    assert_eq!(txt[0], 255);
    assert_eq!(txt.len(), 256);
}

#[test]
fn service_type_overrides_must_look_like_tcp_services() {
    assert_eq!(select_regtype(None), "_fileporter._tcp");
    assert_eq!(select_regtype(Some("_fileporter-test._tcp")), "_fileporter-test._tcp");
    assert_eq!(select_regtype(Some("fileporter._tcp")), "_fileporter._tcp");
    assert_eq!(select_regtype(Some("_fileporter._udp")), "_fileporter._tcp");
}
