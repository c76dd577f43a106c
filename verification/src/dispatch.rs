//! Decoding a request body by its API key.
use crate::messages::describe_groups_request::DescribeGroupsRequest;
use crate::messages::api_versions_request::ApiVersionsRequest;
use crate::messages::create_topics_request::CreateTopicsRequest;
use crate::messages::delete_topics_request::DeleteTopicsRequest;
use crate::messages::add_partitions_to_txn_request::AddPartitionsToTxnRequest;
use crate::messages::add_offsets_to_txn_request::AddOffsetsToTxnRequest;
use crate::messages::describe_acls_request::DescribeAclsRequest;
use crate::messages::create_acls_request::CreateAclsRequest;
use crate::messages::delete_acls_request::DeleteAclsRequest;
use crate::messages::describe_configs_request::DescribeConfigsRequest;
use crate::messages::alter_configs_request::AlterConfigsRequest;
use crate::messages::alter_replica_log_dirs_request::AlterReplicaLogDirsRequest;
use crate::messages::describe_log_dirs_request::DescribeLogDirsRequest;
use crate::messages::create_partitions_request::CreatePartitionsRequest;
use crate::messages::create_delegation_token_request::CreateDelegationTokenRequest;
use crate::messages::describe_delegation_token_request::DescribeDelegationTokenRequest;
use crate::messages::elect_leaders_request::ElectLeadersRequest;
use crate::serialization::{Reader, SerializationError};
use crate::ApiVersion;
use vstd::prelude::*;

verus! {

/// A decoded request body, one variant per request type.
#[derive(Clone, Debug)]
pub enum RequestBody {
    DescribeGroups(DescribeGroupsRequest),
    ApiVersions(ApiVersionsRequest),
    CreateTopics(CreateTopicsRequest),
    DeleteTopics(DeleteTopicsRequest),
    AddPartitionsToTxn(AddPartitionsToTxnRequest),
    AddOffsetsToTxn(AddOffsetsToTxnRequest),
    DescribeAcls(DescribeAclsRequest),
    CreateAcls(CreateAclsRequest),
    DeleteAcls(DeleteAclsRequest),
    DescribeConfigs(DescribeConfigsRequest),
    AlterConfigs(AlterConfigsRequest),
    AlterReplicaLogDirs(AlterReplicaLogDirsRequest),
    DescribeLogDirs(DescribeLogDirsRequest),
    CreatePartitions(CreatePartitionsRequest),
    CreateDelegationToken(CreateDelegationTokenRequest),
    DescribeDelegationToken(DescribeDelegationTokenRequest),
    ElectLeaders(ElectLeadersRequest),
}

/// Why a request body could not be decoded.
#[derive(Clone, Debug, PartialEq, Eq)]
pub enum DispatchError {
    /// No request type has this API key.
    UnknownApiKey(i16),
    /// The body does not decode as a request of its type.
    Decode(SerializationError),
}

/// The outcome of decoding `body` as a request with the given key at
/// `version`: the matching type's message body read from the start of the
/// bytes, or the error it gave; an unknown key is refused.
pub open spec fn request_decoded(r: Result<RequestBody, DispatchError>, api_key: i16, version: i16, body: Seq<u8>) -> bool {
    match api_key {
        15 => match DescribeGroupsRequest::spec_deserialize(body, 0, version) {
            Ok((m, _)) => r matches Ok(RequestBody::DescribeGroups(x)) && x.deep_view() == m,
            Err(e) => r == Err::<RequestBody, DispatchError>(DispatchError::Decode(e)),
        },
        18 => match ApiVersionsRequest::spec_deserialize(body, 0, version) {
            Ok((m, _)) => r matches Ok(RequestBody::ApiVersions(x)) && x.deep_view() == m,
            Err(e) => r == Err::<RequestBody, DispatchError>(DispatchError::Decode(e)),
        },
        19 => match CreateTopicsRequest::spec_deserialize(body, 0, version) {
            Ok((m, _)) => r matches Ok(RequestBody::CreateTopics(x)) && x.deep_view() == m,
            Err(e) => r == Err::<RequestBody, DispatchError>(DispatchError::Decode(e)),
        },
        20 => match DeleteTopicsRequest::spec_deserialize(body, 0, version) {
            Ok((m, _)) => r matches Ok(RequestBody::DeleteTopics(x)) && x.deep_view() == m,
            Err(e) => r == Err::<RequestBody, DispatchError>(DispatchError::Decode(e)),
        },
        24 => match AddPartitionsToTxnRequest::spec_deserialize(body, 0, version) {
            Ok((m, _)) => r matches Ok(RequestBody::AddPartitionsToTxn(x)) && x.deep_view() == m,
            Err(e) => r == Err::<RequestBody, DispatchError>(DispatchError::Decode(e)),
        },
        25 => match AddOffsetsToTxnRequest::spec_deserialize(body, 0, version) {
            Ok((m, _)) => r matches Ok(RequestBody::AddOffsetsToTxn(x)) && x.deep_view() == m,
            Err(e) => r == Err::<RequestBody, DispatchError>(DispatchError::Decode(e)),
        },
        29 => match DescribeAclsRequest::spec_deserialize(body, 0, version) {
            Ok((m, _)) => r matches Ok(RequestBody::DescribeAcls(x)) && x.deep_view() == m,
            Err(e) => r == Err::<RequestBody, DispatchError>(DispatchError::Decode(e)),
        },
        30 => match CreateAclsRequest::spec_deserialize(body, 0, version) {
            Ok((m, _)) => r matches Ok(RequestBody::CreateAcls(x)) && x.deep_view() == m,
            Err(e) => r == Err::<RequestBody, DispatchError>(DispatchError::Decode(e)),
        },
        31 => match DeleteAclsRequest::spec_deserialize(body, 0, version) {
            Ok((m, _)) => r matches Ok(RequestBody::DeleteAcls(x)) && x.deep_view() == m,
            Err(e) => r == Err::<RequestBody, DispatchError>(DispatchError::Decode(e)),
        },
        32 => match DescribeConfigsRequest::spec_deserialize(body, 0, version) {
            Ok((m, _)) => r matches Ok(RequestBody::DescribeConfigs(x)) && x.deep_view() == m,
            Err(e) => r == Err::<RequestBody, DispatchError>(DispatchError::Decode(e)),
        },
        33 => match AlterConfigsRequest::spec_deserialize(body, 0, version) {
            Ok((m, _)) => r matches Ok(RequestBody::AlterConfigs(x)) && x.deep_view() == m,
            Err(e) => r == Err::<RequestBody, DispatchError>(DispatchError::Decode(e)),
        },
        34 => match AlterReplicaLogDirsRequest::spec_deserialize(body, 0, version) {
            Ok((m, _)) => r matches Ok(RequestBody::AlterReplicaLogDirs(x)) && x.deep_view() == m,
            Err(e) => r == Err::<RequestBody, DispatchError>(DispatchError::Decode(e)),
        },
        35 => match DescribeLogDirsRequest::spec_deserialize(body, 0, version) {
            Ok((m, _)) => r matches Ok(RequestBody::DescribeLogDirs(x)) && x.deep_view() == m,
            Err(e) => r == Err::<RequestBody, DispatchError>(DispatchError::Decode(e)),
        },
        37 => match CreatePartitionsRequest::spec_deserialize(body, 0, version) {
            Ok((m, _)) => r matches Ok(RequestBody::CreatePartitions(x)) && x.deep_view() == m,
            Err(e) => r == Err::<RequestBody, DispatchError>(DispatchError::Decode(e)),
        },
        38 => match CreateDelegationTokenRequest::spec_deserialize(body, 0, version) {
            Ok((m, _)) => r matches Ok(RequestBody::CreateDelegationToken(x)) && x.deep_view() == m,
            Err(e) => r == Err::<RequestBody, DispatchError>(DispatchError::Decode(e)),
        },
        41 => match DescribeDelegationTokenRequest::spec_deserialize(body, 0, version) {
            Ok((m, _)) => r matches Ok(RequestBody::DescribeDelegationToken(x)) && x.deep_view() == m,
            Err(e) => r == Err::<RequestBody, DispatchError>(DispatchError::Decode(e)),
        },
        42 => match ElectLeadersRequest::spec_deserialize(body, 0, version) {
            Ok((m, _)) => r matches Ok(RequestBody::ElectLeaders(x)) && x.deep_view() == m,
            Err(e) => r == Err::<RequestBody, DispatchError>(DispatchError::Decode(e)),
        },
        _ => r == Err::<RequestBody, DispatchError>(DispatchError::UnknownApiKey(api_key)),
    }
}

/// Decodes a request body for the given API key and version.
pub fn decode_request(api_key: i16, version: i16, body: &[u8]) -> (r: Result<RequestBody, DispatchError>)
    ensures
        request_decoded(r, api_key, version, body@),
{
    let ver = ApiVersion::new(version);
    let mut buf = Reader::from_slice(body);
    match api_key {
        15 => match DescribeGroupsRequest::deserialize(ver, &mut buf) {
            Ok(x) => Ok(RequestBody::DescribeGroups(x)),
            Err(e) => Err(DispatchError::Decode(e)),
        },
        18 => match ApiVersionsRequest::deserialize(ver, &mut buf) {
            Ok(x) => Ok(RequestBody::ApiVersions(x)),
            Err(e) => Err(DispatchError::Decode(e)),
        },
        19 => match CreateTopicsRequest::deserialize(ver, &mut buf) {
            Ok(x) => Ok(RequestBody::CreateTopics(x)),
            Err(e) => Err(DispatchError::Decode(e)),
        },
        20 => match DeleteTopicsRequest::deserialize(ver, &mut buf) {
            Ok(x) => Ok(RequestBody::DeleteTopics(x)),
            Err(e) => Err(DispatchError::Decode(e)),
        },
        24 => match AddPartitionsToTxnRequest::deserialize(ver, &mut buf) {
            Ok(x) => Ok(RequestBody::AddPartitionsToTxn(x)),
            Err(e) => Err(DispatchError::Decode(e)),
        },
        25 => match AddOffsetsToTxnRequest::deserialize(ver, &mut buf) {
            Ok(x) => Ok(RequestBody::AddOffsetsToTxn(x)),
            Err(e) => Err(DispatchError::Decode(e)),
        },
        29 => match DescribeAclsRequest::deserialize(ver, &mut buf) {
            Ok(x) => Ok(RequestBody::DescribeAcls(x)),
            Err(e) => Err(DispatchError::Decode(e)),
        },
        30 => match CreateAclsRequest::deserialize(ver, &mut buf) {
            Ok(x) => Ok(RequestBody::CreateAcls(x)),
            Err(e) => Err(DispatchError::Decode(e)),
        },
        31 => match DeleteAclsRequest::deserialize(ver, &mut buf) {
            Ok(x) => Ok(RequestBody::DeleteAcls(x)),
            Err(e) => Err(DispatchError::Decode(e)),
        },
        32 => match DescribeConfigsRequest::deserialize(ver, &mut buf) {
            Ok(x) => Ok(RequestBody::DescribeConfigs(x)),
            Err(e) => Err(DispatchError::Decode(e)),
        },
        33 => match AlterConfigsRequest::deserialize(ver, &mut buf) {
            Ok(x) => Ok(RequestBody::AlterConfigs(x)),
            Err(e) => Err(DispatchError::Decode(e)),
        },
        34 => match AlterReplicaLogDirsRequest::deserialize(ver, &mut buf) {
            Ok(x) => Ok(RequestBody::AlterReplicaLogDirs(x)),
            Err(e) => Err(DispatchError::Decode(e)),
        },
        35 => match DescribeLogDirsRequest::deserialize(ver, &mut buf) {
            Ok(x) => Ok(RequestBody::DescribeLogDirs(x)),
            Err(e) => Err(DispatchError::Decode(e)),
        },
        37 => match CreatePartitionsRequest::deserialize(ver, &mut buf) {
            Ok(x) => Ok(RequestBody::CreatePartitions(x)),
            Err(e) => Err(DispatchError::Decode(e)),
        },
        38 => match CreateDelegationTokenRequest::deserialize(ver, &mut buf) {
            Ok(x) => Ok(RequestBody::CreateDelegationToken(x)),
            Err(e) => Err(DispatchError::Decode(e)),
        },
        41 => match DescribeDelegationTokenRequest::deserialize(ver, &mut buf) {
            Ok(x) => Ok(RequestBody::DescribeDelegationToken(x)),
            Err(e) => Err(DispatchError::Decode(e)),
        },
        42 => match ElectLeadersRequest::deserialize(ver, &mut buf) {
            Ok(x) => Ok(RequestBody::ElectLeaders(x)),
            Err(e) => Err(DispatchError::Decode(e)),
        },
        _ => Err(DispatchError::UnknownApiKey(api_key)),
    }
}

/// A body decodes only under the API key of its request type: the kind of
/// request returned is the one that the key names in the protocol.
pub proof fn lemma_decoded_kind(r: Result<RequestBody, DispatchError>, api_key: i16, version: i16, body: Seq<u8>)
    requires
        request_decoded(r, api_key, version, body),
        r is Ok,
    ensures
        r->Ok_0 is DescribeGroups <==> api_key == 15,
        r->Ok_0 is ApiVersions <==> api_key == 18,
        r->Ok_0 is CreateTopics <==> api_key == 19,
        r->Ok_0 is DeleteTopics <==> api_key == 20,
        r->Ok_0 is AddPartitionsToTxn <==> api_key == 24,
        r->Ok_0 is AddOffsetsToTxn <==> api_key == 25,
        r->Ok_0 is DescribeAcls <==> api_key == 29,
        r->Ok_0 is CreateAcls <==> api_key == 30,
        r->Ok_0 is DeleteAcls <==> api_key == 31,
        r->Ok_0 is DescribeConfigs <==> api_key == 32,
        r->Ok_0 is AlterConfigs <==> api_key == 33,
        r->Ok_0 is AlterReplicaLogDirs <==> api_key == 34,
        r->Ok_0 is DescribeLogDirs <==> api_key == 35,
        r->Ok_0 is CreatePartitions <==> api_key == 37,
        r->Ok_0 is CreateDelegationToken <==> api_key == 38,
        r->Ok_0 is DescribeDelegationToken <==> api_key == 41,
        r->Ok_0 is ElectLeaders <==> api_key == 42,
{
}

/// A key that names none of these request types is refused as unknown.
pub proof fn lemma_unknown_key_refused(r: Result<RequestBody, DispatchError>, api_key: i16, version: i16, body: Seq<u8>)
    requires
        request_decoded(r, api_key, version, body),
        api_key != 15 && api_key != 18 && api_key != 19 && api_key != 20 && api_key != 24 && api_key != 25 && api_key != 29 && api_key != 30 && api_key != 31 && api_key != 32 && api_key != 33 && api_key != 34 && api_key != 35 && api_key != 37 && api_key != 38 && api_key != 41 && api_key != 42,
    ensures
        r == Err::<RequestBody, DispatchError>(DispatchError::UnknownApiKey(api_key)),
{
}

} // verus!
