//! Global identifier round trips and rejection of malformed input.

use homeapi::errors::DataError;
use homeapi::ids::NodeId;

#[test]
fn global_id_exact_encoding() {
    let id = NodeId::global_id("Device", "DEVICE", "dev1");
    assert_eq!(id, "RGV2aWNlOkRFVklDRTpkZXYx");
}

#[test]
fn global_id_round_trip() {
    let id = NodeId::global_id("Electricity", "dev1", "TS#2023-01-01T00:00:00Z");
    assert_eq!(id, "RWxlY3RyaWNpdHk6ZGV2MTpUUyMyMDIzLTAxLTAxVDAwOjAwOjAwWg");
    let n = NodeId::from_global_id(&id).unwrap();
    assert_eq!(n.prefix, "Electricity");
    assert_eq!(n.pk, "dev1");
    // the sort key, split off last, keeps its own colons
    assert_eq!(n.sk, "TS#2023-01-01T00:00:00Z");
}

#[test]
fn to_global_id_re_encodes() {
    let id = NodeId::global_id("ApiKey", "hash1", "APIKEY");
    let n = NodeId::from_global_id(&id).unwrap();
    assert_eq!(n.to_global_id(), id);
}

#[test]
fn extra_colons_go_to_the_sort_key() {
    // base64 of "a:b:c:d"
    let n = NodeId::from_global_id("YTpiOmM6ZA").unwrap();
    assert_eq!(n.prefix, "a");
    assert_eq!(n.pk, "b");
    assert_eq!(n.sk, "c:d");
}

#[test]
fn rejects_bad_base64() {
    assert_eq!(NodeId::from_global_id("!!!not-base64!!!").unwrap_err(), DataError::DecodeError);
}

#[test]
fn rejects_padded_base64() {
    // the encoder never emits padding, so padded input is not its output
    assert_eq!(NodeId::from_global_id("QXBpS2V5Omhhc2gxOkFQSUtFWQ==").unwrap_err(),
        DataError::DecodeError);
}

#[test]
fn rejects_too_few_parts() {
    // "anVzdG9uZXBhcnQ" is base64 of "justonepart": valid base64 and
    // valid text, but with no colon it is not an encoded triple
    assert_eq!(NodeId::from_global_id("anVzdG9uZXBhcnQ").unwrap_err(), DataError::DecodeError);
    // while an id the encoder produced always decodes
    let id = NodeId::global_id("justonepart", "", "");
    assert!(NodeId::from_global_id(&id).is_ok());
}

#[test]
fn empty_parts_round_trip() {
    let id = NodeId::global_id("", "", "");
    let n = NodeId::from_global_id(&id).unwrap();
    assert_eq!(n.prefix, "");
    assert_eq!(n.pk, "");
    assert_eq!(n.sk, "");
}
