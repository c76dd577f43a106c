use indexmap::IndexMap;
use protocol::messages::add_partitions_to_txn_request::{AddPartitionsToTxnRequest, AddPartitionsToTxnTransaction};
use protocol::messages::alter_configs_request::{AlterConfigsRequest, AlterConfigsResource, AlterableConfig};
use protocol::messages::api_versions_response::{
    ApiVersion as ApiRange, ApiVersionsResponse, FinalizedFeatureKey, SupportedFeatureKey,
};
use protocol::messages::broker_heartbeat_request::BrokerHeartbeatRequest;
use protocol::messages::broker_registration_request::{
    feature_map_entry_count, listener_map_entry_count, BrokerRegistrationRequest, Feature, Listener,
};
use protocol::messages::create_topics_request::{CreatableTopic, CreateTopicsRequest};
use protocol::messages::delete_acls_request::{DeleteAclsFilter, DeleteAclsRequest};
use protocol::messages::describe_client_quotas_response::DescribeClientQuotasResponse;
use protocol::serialization::{Reader, SerializationError};
use protocol::ApiVersion;

fn features_response() -> ApiVersionsResponse {
    ApiVersionsResponse {
        error_code: 0,
        api_keys: vec![ApiRange { api_key: 18, min_version: 0, max_version: 4 }],
        throttle_time_ms: 7,
        supported_features: vec![SupportedFeatureKey { name: String::from("kraft.version"), min_version: 0, max_version: 1 }],
        finalized_features_epoch: 3,
        finalized_features: vec![FinalizedFeatureKey {
            name: String::from("metadata.version"),
            max_version_level: 20,
            min_version_level: 20,
        }],
        zk_migration_ready: true,
    }
}

#[test]
fn api_versions_response_features_read_back_from_version_3() {
    let resp = features_response();
    for v in 3..=4 {
        let mut buf = Vec::new();
        resp.serialize(ApiVersion::new(v), &mut buf).unwrap();
        let back = ApiVersionsResponse::deserialize(ApiVersion::new(v), &mut Reader::new(buf)).unwrap();
        assert_eq!(back, resp);
        assert!(back.zk_migration_ready);
        assert_eq!(back.finalized_features_epoch, 3);
    }
}

#[test]
fn api_versions_response_before_version_3_has_no_features() {
    let mut resp = features_response();
    resp.supported_features = vec![];
    resp.finalized_features_epoch = 0;
    resp.finalized_features = vec![];
    resp.zk_migration_ready = false;
    let mut buf = Vec::new();
    resp.serialize(ApiVersion::new(2), &mut buf).unwrap();
    assert_eq!(buf, vec![0, 0, 0, 0, 0, 1, 0, 18, 0, 0, 0, 4, 0, 0, 0, 7]);
    let back = ApiVersionsResponse::deserialize(ApiVersion::new(2), &mut Reader::new(buf)).unwrap();
    assert_eq!(back, resp);
}

#[test]
fn broker_heartbeat_offline_dirs_travel_as_tag_zero() {
    let req = BrokerHeartbeatRequest {
        broker_id: 1,
        broker_epoch: 2,
        current_metadata_offset: 3,
        want_fence: true,
        want_shut_down: false,
        offline_log_dirs: vec![[0xab; 16]],
    };
    let mut buf = Vec::new();
    req.serialize(ApiVersion::new(1), &mut buf).unwrap();
    assert_eq!(buf.len(), 4 + 8 + 8 + 1 + 1 + 3 + 1 + 16);
    assert_eq!(buf[22..26].to_vec(), vec![1, 0, 17, 2]);
    let back = BrokerHeartbeatRequest::deserialize(ApiVersion::new(1), &mut Reader::new(buf)).unwrap();
    assert_eq!(back, req);
}

#[test]
fn broker_heartbeat_offline_dirs_refused_at_version_0() {
    let req = BrokerHeartbeatRequest { offline_log_dirs: vec![[1; 16]], ..Default::default() };
    let mut buf = vec![9, 9];
    assert_eq!(
        req.serialize(ApiVersion::new(0), &mut buf),
        Err(SerializationError::Encode("field 'OfflineLogDirs' is not available in this version"))
    );
    assert_eq!(buf, vec![9, 9]);
}

#[test]
fn delete_acls_null_filters_match_the_classic_layout() {
    let f = DeleteAclsFilter {
        resource_type_filter: 1,
        resource_name_filter: None,
        pattern_type_filter: 3,
        principal_filter: None,
        host_filter: None,
        operation: 4,
        permission_type: 5,
    };
    let mut classic = Vec::new();
    f.encode(&mut classic).unwrap();
    assert_eq!(classic, vec![1, 0xff, 0xff, 3, 0xff, 0xff, 0xff, 0xff, 4, 5]);
    let mut flexible_off = Vec::new();
    f.encode_flexible(&mut flexible_off, false).unwrap();
    assert_eq!(flexible_off, classic);
    let back = DeleteAclsFilter::decode_flexible(&mut Reader::new(flexible_off), false).unwrap();
    assert_eq!(back, f);

    let mut compact = Vec::new();
    f.encode_flexible(&mut compact, true).unwrap();
    assert_eq!(compact, vec![1, 0, 3, 0, 0, 4, 5, 0]);
    let back = DeleteAclsFilter::decode_flexible(&mut Reader::new(compact), true).unwrap();
    assert_eq!(back, f);
}

#[test]
fn delete_acls_request_round_trip_with_some_and_null_filters() {
    let req = DeleteAclsRequest {
        filters: vec![
            DeleteAclsFilter {
                resource_type_filter: 2,
                resource_name_filter: Some(String::from("topic")),
                pattern_type_filter: 3,
                principal_filter: Some(String::from("User:alice")),
                host_filter: None,
                operation: 1,
                permission_type: 3,
            },
            DeleteAclsFilter::default(),
        ],
    };
    let mut buf = Vec::new();
    req.encode_flexible(&mut buf, false).unwrap();
    let back = DeleteAclsRequest::decode_flexible(&mut Reader::new(buf), false).unwrap();
    assert_eq!(back, req);

    let nulls = DeleteAclsRequest { filters: vec![DeleteAclsFilter::default(), DeleteAclsFilter::default()] };
    let mut buf = Vec::new();
    nulls.encode_flexible(&mut buf, true).unwrap();
    let back = DeleteAclsRequest::decode_flexible(&mut Reader::new(buf), true).unwrap();
    assert_eq!(back, nulls);
}

#[test]
fn delete_acls_present_filter_has_a_presence_marker_in_compact_mode() {
    let f = DeleteAclsFilter {
        resource_type_filter: 1,
        resource_name_filter: Some(String::from("t")),
        pattern_type_filter: 3,
        principal_filter: None,
        host_filter: Some(String::from("h")),
        operation: 4,
        permission_type: 5,
    };
    let mut compact = Vec::new();
    f.encode_flexible(&mut compact, true).unwrap();
    assert_eq!(compact, vec![1, 1, 2, b't', 3, 0, 1, 2, b'h', 4, 5, 0]);
}

#[test]
fn failed_serialize_leaves_the_buffer_unchanged() {
    let req = AddPartitionsToTxnRequest {
        transactions: vec![AddPartitionsToTxnTransaction::default()],
        ..Default::default()
    };
    let mut buf = vec![1, 2, 3];
    assert_eq!(
        req.serialize(ApiVersion::new(3), &mut buf),
        Err(SerializationError::Encode("field 'Transactions' is not available in this version"))
    );
    assert_eq!(buf, vec![1, 2, 3]);
    let mut empty = Vec::new();
    assert!(req.serialize(ApiVersion::new(3), &mut empty).is_err());
    assert!(empty.is_empty());
}

#[test]
fn failed_decode_puts_the_reader_back() {
    let mut topics = IndexMap::new();
    topics.insert(String::from("t"), CreatableTopic::default());
    let req = CreateTopicsRequest { topics, ..Default::default() };
    let mut buf = Vec::new();
    req.serialize(ApiVersion::new(5), &mut buf).unwrap();
    buf.truncate(buf.len() - 2);
    let n = buf.len();
    let mut r = Reader::new(buf);
    assert!(CreateTopicsRequest::deserialize(ApiVersion::new(5), &mut r).is_err());
    assert_eq!(r.remaining(), n);
    assert_eq!(r.position(), 0);

    let mut r = Reader::new(vec![0, 0, 0, 1, 0, 0, 2]);
    assert!(DescribeClientQuotasResponse::decode_flexible(&mut r, false).is_err());
    assert_eq!(r.remaining(), 7);
    let mut same = Reader::new(vec![0, 0, 0, 1, 0, 0, 2]);
    assert_eq!(
        DescribeClientQuotasResponse::decode_flexible(&mut same, false),
        DescribeClientQuotasResponse::decode(&mut Reader::new(vec![0, 0, 0, 1, 0, 0, 2]))
    );
}

#[test]
fn broker_registration_round_trip_keeps_both_maps() {
    let mut listeners = IndexMap::new();
    listeners.insert(String::from("PLAINTEXT"), Listener { host: String::from("h1"), port: 9092, security_protocol: 0 });
    listeners.insert(String::from("SSL"), Listener { host: String::from("h2"), port: 9093, security_protocol: 1 });
    let mut features = IndexMap::new();
    features.insert(String::from("metadata.version"), Feature { min_supported_version: 1, max_supported_version: 20 });
    let req = BrokerRegistrationRequest {
        broker_id: 4,
        cluster_id: String::from("c"),
        incarnation_id: [7; 16],
        listeners,
        features,
        rack: Some(String::from("r1")),
        is_migrating_zk_broker: true,
        log_dirs: vec![[2; 16]],
        previous_broker_epoch: 11,
    };
    assert_eq!(listener_map_entry_count(&req.listeners), 2);
    assert_eq!(feature_map_entry_count(&req.features), 1);
    let mut buf = Vec::new();
    req.serialize(ApiVersion::new(4), &mut buf).unwrap();
    let back = BrokerRegistrationRequest::deserialize(ApiVersion::new(4), &mut Reader::new(buf)).unwrap();
    let keys: Vec<&String> = back.listeners.keys().collect();
    assert_eq!(keys, vec!["PLAINTEXT", "SSL"]);
    assert_eq!(back, req);
}

#[test]
fn broker_heartbeat_skips_an_unknown_tag_by_its_length() {
    let plain = BrokerHeartbeatRequest { broker_id: 3, ..Default::default() };
    let mut buf = Vec::new();
    plain.serialize(ApiVersion::new(1), &mut buf).unwrap();
    assert_eq!(buf[22], 0);
    let mut with_unknown = buf[..22].to_vec();
    with_unknown.extend_from_slice(&[1, 5, 2, 0xaa, 0xbb]);
    let back = BrokerHeartbeatRequest::deserialize(ApiVersion::new(1), &mut Reader::new(with_unknown)).unwrap();
    assert_eq!(back, plain);

    let dirs = BrokerHeartbeatRequest { offline_log_dirs: vec![[5; 16]], ..plain };
    let mut buf = Vec::new();
    dirs.serialize(ApiVersion::new(1), &mut buf).unwrap();
    let mut with_unknown = buf[..22].to_vec();
    with_unknown.push(2);
    with_unknown.extend_from_slice(&buf[23..]);
    with_unknown.extend_from_slice(&[7, 1, 0xcc]);
    let mut r = Reader::new(with_unknown);
    let back = BrokerHeartbeatRequest::deserialize(ApiVersion::new(1), &mut r).unwrap();
    assert_eq!(back, dirs);
    assert_eq!(r.remaining(), 0);
}

#[test]
fn alterable_config_null_value_in_both_layouts() {
    let unset = AlterableConfig { name: String::from("k"), value: None };
    let mut classic = Vec::new();
    unset.encode(&mut classic).unwrap();
    assert_eq!(classic, vec![0, 1, b'k', 0xff, 0xff]);
    let mut flexible_off = Vec::new();
    unset.encode_flexible(&mut flexible_off, false).unwrap();
    assert_eq!(flexible_off, classic);
    let back = AlterableConfig::decode_flexible(&mut Reader::new(flexible_off), false).unwrap();
    assert_eq!(back, unset);

    let mut compact = Vec::new();
    unset.encode_flexible(&mut compact, true).unwrap();
    assert_eq!(compact, vec![2, b'k', 0, 0]);
    let set = AlterableConfig { name: String::from("k"), value: Some(String::from("v")) };
    let mut compact = Vec::new();
    set.encode_flexible(&mut compact, true).unwrap();
    assert_eq!(compact, vec![2, b'k', 1, 2, b'v', 0]);
    assert_eq!(AlterableConfig::decode_flexible(&mut Reader::new(compact), true).unwrap(), set);

    let req = AlterConfigsRequest {
        resources: vec![AlterConfigsResource { resource_type: 2, resource_name: String::from("t"), configs: vec![set, unset] }],
        validate_only: true,
    };
    for flexible in [false, true] {
        let mut buf = Vec::new();
        req.encode_flexible(&mut buf, flexible).unwrap();
        assert_eq!(AlterConfigsRequest::decode_flexible(&mut Reader::new(buf), flexible).unwrap(), req);
    }
}

#[test]
fn client_quotas_response_flexible_off_matches_classic() {
    for (entries, tail) in [(None, [0xff, 0xff, 0xff, 0xff]), (Some(vec![]), [0, 0, 0, 0])] {
        let resp = DescribeClientQuotasResponse { throttle_time_ms: 2, error_code: 0, error_message: None, entries };
        let mut classic = Vec::new();
        resp.encode(&mut classic).unwrap();
        let mut flexible_off = Vec::new();
        resp.encode_flexible(&mut flexible_off, false).unwrap();
        assert_eq!(flexible_off, classic);
        let mut expected = vec![0, 0, 0, 2, 0, 0, 0xff, 0xff];
        expected.extend_from_slice(&tail);
        assert_eq!(classic, expected);
        let mut a = Reader::new(classic);
        let mut b = Reader::new(flexible_off);
        assert_eq!(DescribeClientQuotasResponse::decode(&mut a).unwrap(), resp);
        assert_eq!(DescribeClientQuotasResponse::decode_flexible(&mut b, false).unwrap(), resp);
        assert_eq!(a.remaining(), 0);
        assert_eq!(b.remaining(), 0);
    }
}
