use indexmap::IndexMap;
use protocol::messages::alter_partition_reassignments_request::AlterPartitionReassignmentsRequest;
use protocol::messages::api_versions_request::ApiVersionsRequest;
use protocol::messages::create_topics_request::{CreatableTopic, CreatableTopicConfig, CreateTopicsRequest};
use protocol::messages::describe_client_quotas_response::{
    DescribeClientQuotasResponse, EntityData, EntryData, ValueData,
};
use protocol::messages::describe_groups_request::DescribeGroupsRequest;
use protocol::serialization::{Reader, SerializationError};
use protocol::ApiVersion;

#[test]
fn api_versions_request_layout() {
    let req = ApiVersionsRequest {
        client_software_name: String::from("cli"),
        client_software_version: String::from("1.0"),
    };
    let mut buf = Vec::new();
    req.serialize(ApiVersion::new(3), &mut buf).unwrap();
    assert_eq!(buf, vec![0, 3, b'c', b'l', b'i', 0, 3, b'1', b'.', b'0']);
    let back = ApiVersionsRequest::deserialize(ApiVersion::new(3), &mut Reader::new(buf)).unwrap();
    assert_eq!(back, req);

    let mut old = Vec::new();
    req.serialize(ApiVersion::new(2), &mut old).unwrap();
    assert!(old.is_empty());
    let back = ApiVersionsRequest::deserialize(ApiVersion::new(2), &mut Reader::new(old)).unwrap();
    assert_eq!(back, ApiVersionsRequest::default());
}

#[test]
fn message_getters() {
    assert_eq!(CreateTopicsRequest::get_api_key().0, 19);
    assert_eq!(CreateTopicsRequest::get_min_supported_version().0, 2);
    assert_eq!(CreateTopicsRequest::get_max_supported_version().0, 7);
    assert_eq!(CreateTopicsRequest::get_min_flexible_version().0, 5);
}

#[test]
fn describe_groups_round_trip_each_version() {
    let req = DescribeGroupsRequest {
        groups: vec![String::from("g1"), String::from("g2")],
        include_authorized_operations: true,
    };
    for v in 3..=5 {
        let mut buf = Vec::new();
        req.serialize(ApiVersion::new(v), &mut buf).unwrap();
        let back = DescribeGroupsRequest::deserialize(ApiVersion::new(v), &mut Reader::new(buf)).unwrap();
        assert_eq!(back, req);
    }
}

#[test]
fn field_not_available_in_old_version() {
    let mut req = AlterPartitionReassignmentsRequest::default();
    assert_eq!(req.timeout_ms, 60000);
    assert!(req.allow_replication_factor_change);
    let mut buf = Vec::new();
    assert!(req.serialize(ApiVersion::new(0), &mut buf).is_ok());
    req.allow_replication_factor_change = false;
    let mut buf = Vec::new();
    assert_eq!(
        req.serialize(ApiVersion::new(0), &mut buf),
        Err(SerializationError::FieldNotAvailable {
            field: "AllowReplicationFactorChange",
            version: 0,
            api_name: "AlterPartitionReassignmentsRequest",
        })
    );
    let mut buf = Vec::new();
    assert!(req.serialize(ApiVersion::new(1), &mut buf).is_ok());
}

fn sample_topics() -> CreateTopicsRequest {
    let mut configs = IndexMap::new();
    configs.insert(String::from("retention.ms"), CreatableTopicConfig { value: Some(String::from("1")) });
    let mut topics = IndexMap::new();
    topics.insert(
        String::from("t"),
        CreatableTopic { num_partitions: 3, replication_factor: 1, assignments: IndexMap::new(), configs },
    );
    CreateTopicsRequest { topics, timeout_ms: 1000, validate_only: false }
}

#[test]
fn create_topics_classic_layout() {
    let mut req = sample_topics();
    req.topics.get_mut("t").unwrap().configs = IndexMap::new();
    let mut buf = Vec::new();
    req.serialize(ApiVersion::new(2), &mut buf).unwrap();
    assert_eq!(
        buf,
        vec![
            0, 0, 0, 1, // one topic
            0, 1, b't', // its name
            0, 0, 0, 3, // partitions
            0, 1, // replication factor
            0, 0, 0, 0, // no assignments
            0, 0, 0, 0, // no configs
            0, 0, 0x03, 0xe8, // timeout
            0, // validate only
        ]
    );
}

#[test]
fn create_topics_round_trip_keeps_map_order() {
    let mut req = sample_topics();
    req.topics.insert(String::from("a"), CreatableTopic::default());
    for v in 2..=7 {
        let mut buf = Vec::new();
        req.serialize(ApiVersion::new(v), &mut buf).unwrap();
        let back = CreateTopicsRequest::deserialize(ApiVersion::new(v), &mut Reader::new(buf)).unwrap();
        let keys: Vec<&String> = back.topics.keys().collect();
        assert_eq!(keys, vec!["t", "a"]);
        assert_eq!(back, req);
    }
}

#[test]
fn create_topics_repeated_key_keeps_first_place() {
    // Two entries "x" then "y" then "x" again: the map keeps "x" first with
    // the last value read.
    let mut buf = vec![0, 0, 0, 3];
    for (name, parts) in [("x", 1u8), ("y", 2), ("x", 9)] {
        buf.extend_from_slice(&[0, 1, name.as_bytes()[0]]);
        buf.extend_from_slice(&[0, 0, 0, parts, 0, 1, 0, 0, 0, 0, 0, 0, 0, 0]);
    }
    buf.extend_from_slice(&[0, 0, 0x03, 0xe8, 1]);
    let back = CreateTopicsRequest::deserialize(ApiVersion::new(2), &mut Reader::new(buf)).unwrap();
    let keys: Vec<&String> = back.topics.keys().collect();
    assert_eq!(keys, vec!["x", "y"]);
    assert_eq!(back.topics["x"].num_partitions, 9);
    assert!(back.validate_only);
}

#[test]
fn client_quotas_response_carries_double_bits() {
    let entry = |name: Option<String>| EntryData {
        entity: vec![EntityData { entity_type: String::from("user"), entity_name: name }],
        values: vec![ValueData { key: String::from("rate"), value: 2.5f64.to_bits() }],
    };
    for (v, name) in [(0, Some(String::from("bob"))), (0, None), (1, None)] {
        let resp = DescribeClientQuotasResponse {
            throttle_time_ms: 5,
            error_code: 0,
            error_message: None,
            entries: Some(vec![entry(name)]),
        };
        let mut buf = Vec::new();
        resp.serialize(ApiVersion::new(v), &mut buf).unwrap();
        let back = DescribeClientQuotasResponse::deserialize(ApiVersion::new(v), &mut Reader::new(buf)).unwrap();
        assert_eq!(back, resp);
        let value = back.entries.unwrap()[0].values[0].value;
        assert_eq!(f64::from_bits(value), 2.5);
    }
}

#[test]
fn optional_entity_name_has_a_presence_marker_in_compact_mode() {
    let e = EntityData { entity_type: String::from("user"), entity_name: Some(String::from("bob")) };
    let mut buf = Vec::new();
    e.encode_flexible(&mut buf, true).unwrap();
    assert_eq!(buf, vec![5, b'u', b's', b'e', b'r', 1, 4, b'b', b'o', b'b', 0]);

    let none = EntityData { entity_type: String::from("u"), entity_name: None };
    let mut flexible_off = Vec::new();
    none.encode_flexible(&mut flexible_off, false).unwrap();
    assert_eq!(flexible_off, vec![0, 1, b'u', 0xff, 0xff]);
    let mut classic = Vec::new();
    none.encode(&mut classic).unwrap();
    assert_eq!(classic, flexible_off);
    let back = EntityData::decode_flexible(&mut Reader::new(flexible_off), false).unwrap();
    assert_eq!(back, none);

    let mut compact_null = Vec::new();
    none.encode_flexible(&mut compact_null, true).unwrap();
    assert_eq!(compact_null, vec![2, b'u', 0, 0]);
}

#[test]
fn truncated_body_is_an_error() {
    let req = sample_topics();
    let mut buf = Vec::new();
    req.serialize(ApiVersion::new(5), &mut buf).unwrap();
    buf.truncate(buf.len() - 3);
    assert!(CreateTopicsRequest::deserialize(ApiVersion::new(5), &mut Reader::new(buf)).is_err());
}

#[test]
fn flexible_body_leaves_its_tag_count_unread() {
    let resp = DescribeClientQuotasResponse { throttle_time_ms: 1, error_code: 0, error_message: None, entries: None };
    let mut buf = Vec::new();
    resp.serialize(ApiVersion::new(1), &mut buf).unwrap();
    assert_eq!(*buf.last().unwrap(), 0);
    let mut r = Reader::new(buf);
    let back = DescribeClientQuotasResponse::deserialize(ApiVersion::new(1), &mut r).unwrap();
    assert_eq!(back, resp);
    assert_eq!(r.remaining(), 1);
}

#[test]
fn field_outside_its_versions_is_refused() {
    let req = DescribeGroupsRequest { groups: vec![], include_authorized_operations: true };
    let mut buf = Vec::new();
    assert_eq!(
        req.serialize(ApiVersion::new(2), &mut buf),
        Err(SerializationError::Encode("field 'IncludeAuthorizedOperations' is not available in this version"))
    );
    let req = DescribeGroupsRequest { groups: vec![], include_authorized_operations: false };
    let mut buf = Vec::new();
    req.serialize(ApiVersion::new(2), &mut buf).unwrap();
    assert_eq!(buf, vec![0, 0, 0, 0]);
    let back = DescribeGroupsRequest::deserialize(ApiVersion::new(2), &mut Reader::new(buf)).unwrap();
    assert_eq!(back, req);
}
