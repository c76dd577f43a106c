use protocol::dispatch::{decode_request, DispatchError, RequestBody};
use protocol::messages::describe_groups_request::DescribeGroupsRequest;
use protocol::serialization::SerializationError;
use protocol::ApiVersion;

#[test]
fn request_by_api_key() {
    let req = DescribeGroupsRequest { groups: vec![String::from("g")], include_authorized_operations: false };
    let mut buf = Vec::new();
    req.serialize(ApiVersion::new(1), &mut buf).unwrap();
    match decode_request(15, 1, &buf) {
        Ok(RequestBody::DescribeGroups(got)) => assert_eq!(got, req),
        other => panic!("unexpected {other:?}"),
    }
}

#[test]
fn unknown_api_key_is_refused() {
    assert!(matches!(decode_request(999, 0, &[]), Err(DispatchError::UnknownApiKey(999))));
    assert!(matches!(decode_request(-1, 0, &[]), Err(DispatchError::UnknownApiKey(-1))));
}

#[test]
fn bad_body_reports_the_decode_error() {
    assert!(matches!(
        decode_request(15, 1, &[0, 0]),
        Err(DispatchError::Decode(SerializationError::UnexpectedEof))
    ));
}

#[test]
fn api_versions_request_body_at_old_version_is_empty() {
    match decode_request(18, 0, &[]) {
        Ok(RequestBody::ApiVersions(r)) => {
            assert_eq!(r.client_software_name, "");
            assert_eq!(r.client_software_version, "");
        },
        other => panic!("unexpected {other:?}"),
    }
}
