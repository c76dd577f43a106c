//! Kafka protocol error codes.
//!
//! Each error has a numeric code, a canonical name, and a retriable flag.
use vstd::prelude::*;

verus! {

/// Kafka protocol error code.
///
/// Each error has a numeric code, a canonical name, and a retriable flag.
#[derive(Debug, Clone, Copy, PartialEq, Eq, Structural)]
pub enum ApiError {
    UnknownServerError,
    OffsetOutOfRange,
    CorruptMessage,
    UnknownTopicOrPartition,
    InvalidFetchSize,
    LeaderNotAvailable,
    NotLeaderOrFollower,
    RequestTimedOut,
    BrokerNotAvailable,
    ReplicaNotAvailable,
    MessageTooLarge,
    StaleControllerEpoch,
    OffsetMetadataTooLarge,
    NetworkException,
    CoordinatorLoadInProgress,
    CoordinatorNotAvailable,
    NotCoordinator,
    InvalidTopicException,
    RecordListTooLarge,
    NotEnoughReplicas,
    NotEnoughReplicasAfterAppend,
    InvalidRequiredAcks,
    IllegalGeneration,
    InconsistentGroupProtocol,
    InvalidGroupId,
    UnknownMemberId,
    InvalidSessionTimeout,
    RebalanceInProgress,
    InvalidCommitOffsetSize,
    TopicAuthorizationFailed,
    GroupAuthorizationFailed,
    ClusterAuthorizationFailed,
    InvalidTimestamp,
    UnsupportedSaslMechanism,
    IllegalSaslState,
    UnsupportedVersion,
    TopicAlreadyExists,
    InvalidPartitions,
    InvalidReplicationFactor,
    InvalidReplicaAssignment,
    InvalidConfig,
    NotController,
    InvalidRequest,
    UnsupportedForMessageFormat,
    PolicyViolation,
    OutOfOrderSequenceNumber,
    DuplicateSequenceNumber,
    InvalidProducerEpoch,
    InvalidTxnState,
    InvalidProducerIdMapping,
    InvalidTransactionTimeout,
    ConcurrentTransactions,
    TransactionCoordinatorFenced,
    TransactionalIdAuthorizationFailed,
    SecurityDisabled,
    OperationNotAttempted,
    KafkaStorageError,
    LogDirNotFound,
    SaslAuthenticationFailed,
    UnknownProducerId,
    ReassignmentInProgress,
    DelegationTokenAuthDisabled,
    DelegationTokenNotFound,
    DelegationTokenOwnerMismatch,
    DelegationTokenRequestNotAllowed,
    DelegationTokenAuthorizationFailed,
    DelegationTokenExpired,
    InvalidPrincipalType,
    NonEmptyGroup,
    GroupIdNotFound,
    FetchSessionIdNotFound,
    InvalidFetchSessionEpoch,
    ListenerNotFound,
    TopicDeletionDisabled,
    FencedLeaderEpoch,
    UnknownLeaderEpoch,
    UnsupportedCompressionType,
    StaleBrokerEpoch,
    OffsetNotAvailable,
    MemberIdRequired,
    PreferredLeaderNotAvailable,
    GroupMaxSizeReached,
    FencedInstanceId,
    EligibleLeadersNotAvailable,
    ElectionNotNeeded,
    NoReassignmentInProgress,
    GroupSubscribedToTopic,
    InvalidRecord,
    UnstableOffsetCommit,
    ThrottlingQuotaExceeded,
    ProducerFenced,
    ResourceNotFound,
    DuplicateResource,
    UnacceptableCredential,
    InconsistentVoterSet,
    InvalidUpdateVersion,
    FeatureUpdateFailed,
    PrincipalDeserializationFailure,
    SnapshotNotFound,
    PositionOutOfRange,
    UnknownTopicId,
    DuplicateBrokerRegistration,
    BrokerIdNotRegistered,
    InconsistentTopicId,
    InconsistentClusterId,
    TransactionalIdNotFound,
    FetchSessionTopicIdError,
    IneligibleReplica,
    NewLeaderElected,
    OffsetMovedToTieredStorage,
    FencedMemberEpoch,
    UnreleasedInstanceId,
    UnsupportedAssignor,
    StaleMemberEpoch,
    MismatchedEndpointType,
    UnsupportedEndpointType,
    UnknownControllerId,
    UnknownSubscriptionId,
    TelemetryTooLarge,
    InvalidRegistration,
    TransactionAbortable,
    InvalidRecordState,
    ShareSessionNotFound,
    InvalidShareSessionEpoch,
    FencedStateEpoch,
    InvalidVoterKey,
    DuplicateVoter,
    VoterNotFound,
    InvalidRegularExpression,
    RebootstrapRequired,
    StreamsInvalidTopology,
    StreamsInvalidTopologyEpoch,
    StreamsTopologyFenced,
    ShareSessionLimitReached,
}

/// The numeric code of an error, as sent on the wire.
pub open spec fn spec_code(e: ApiError) -> i16 {
    match e {
        ApiError::UnknownServerError => -1i16,
        ApiError::OffsetOutOfRange => 1,
        ApiError::CorruptMessage => 2,
        ApiError::UnknownTopicOrPartition => 3,
        ApiError::InvalidFetchSize => 4,
        ApiError::LeaderNotAvailable => 5,
        ApiError::NotLeaderOrFollower => 6,
        ApiError::RequestTimedOut => 7,
        ApiError::BrokerNotAvailable => 8,
        ApiError::ReplicaNotAvailable => 9,
        ApiError::MessageTooLarge => 10,
        ApiError::StaleControllerEpoch => 11,
        ApiError::OffsetMetadataTooLarge => 12,
        ApiError::NetworkException => 13,
        ApiError::CoordinatorLoadInProgress => 14,
        ApiError::CoordinatorNotAvailable => 15,
        ApiError::NotCoordinator => 16,
        ApiError::InvalidTopicException => 17,
        ApiError::RecordListTooLarge => 18,
        ApiError::NotEnoughReplicas => 19,
        ApiError::NotEnoughReplicasAfterAppend => 20,
        ApiError::InvalidRequiredAcks => 21,
        ApiError::IllegalGeneration => 22,
        ApiError::InconsistentGroupProtocol => 23,
        ApiError::InvalidGroupId => 24,
        ApiError::UnknownMemberId => 25,
        ApiError::InvalidSessionTimeout => 26,
        ApiError::RebalanceInProgress => 27,
        ApiError::InvalidCommitOffsetSize => 28,
        ApiError::TopicAuthorizationFailed => 29,
        ApiError::GroupAuthorizationFailed => 30,
        ApiError::ClusterAuthorizationFailed => 31,
        ApiError::InvalidTimestamp => 32,
        ApiError::UnsupportedSaslMechanism => 33,
        ApiError::IllegalSaslState => 34,
        ApiError::UnsupportedVersion => 35,
        ApiError::TopicAlreadyExists => 36,
        ApiError::InvalidPartitions => 37,
        ApiError::InvalidReplicationFactor => 38,
        ApiError::InvalidReplicaAssignment => 39,
        ApiError::InvalidConfig => 40,
        ApiError::NotController => 41,
        ApiError::InvalidRequest => 42,
        ApiError::UnsupportedForMessageFormat => 43,
        ApiError::PolicyViolation => 44,
        ApiError::OutOfOrderSequenceNumber => 45,
        ApiError::DuplicateSequenceNumber => 46,
        ApiError::InvalidProducerEpoch => 47,
        ApiError::InvalidTxnState => 48,
        ApiError::InvalidProducerIdMapping => 49,
        ApiError::InvalidTransactionTimeout => 50,
        ApiError::ConcurrentTransactions => 51,
        ApiError::TransactionCoordinatorFenced => 52,
        ApiError::TransactionalIdAuthorizationFailed => 53,
        ApiError::SecurityDisabled => 54,
        ApiError::OperationNotAttempted => 55,
        ApiError::KafkaStorageError => 56,
        ApiError::LogDirNotFound => 57,
        ApiError::SaslAuthenticationFailed => 58,
        ApiError::UnknownProducerId => 59,
        ApiError::ReassignmentInProgress => 60,
        ApiError::DelegationTokenAuthDisabled => 61,
        ApiError::DelegationTokenNotFound => 62,
        ApiError::DelegationTokenOwnerMismatch => 63,
        ApiError::DelegationTokenRequestNotAllowed => 64,
        ApiError::DelegationTokenAuthorizationFailed => 65,
        ApiError::DelegationTokenExpired => 66,
        ApiError::InvalidPrincipalType => 67,
        ApiError::NonEmptyGroup => 68,
        ApiError::GroupIdNotFound => 69,
        ApiError::FetchSessionIdNotFound => 70,
        ApiError::InvalidFetchSessionEpoch => 71,
        ApiError::ListenerNotFound => 72,
        ApiError::TopicDeletionDisabled => 73,
        ApiError::FencedLeaderEpoch => 74,
        ApiError::UnknownLeaderEpoch => 75,
        ApiError::UnsupportedCompressionType => 76,
        ApiError::StaleBrokerEpoch => 77,
        ApiError::OffsetNotAvailable => 78,
        ApiError::MemberIdRequired => 79,
        ApiError::PreferredLeaderNotAvailable => 80,
        ApiError::GroupMaxSizeReached => 81,
        ApiError::FencedInstanceId => 82,
        ApiError::EligibleLeadersNotAvailable => 83,
        ApiError::ElectionNotNeeded => 84,
        ApiError::NoReassignmentInProgress => 85,
        ApiError::GroupSubscribedToTopic => 86,
        ApiError::InvalidRecord => 87,
        ApiError::UnstableOffsetCommit => 88,
        ApiError::ThrottlingQuotaExceeded => 89,
        ApiError::ProducerFenced => 90,
        ApiError::ResourceNotFound => 91,
        ApiError::DuplicateResource => 92,
        ApiError::UnacceptableCredential => 93,
        ApiError::InconsistentVoterSet => 94,
        ApiError::InvalidUpdateVersion => 95,
        ApiError::FeatureUpdateFailed => 96,
        ApiError::PrincipalDeserializationFailure => 97,
        ApiError::SnapshotNotFound => 98,
        ApiError::PositionOutOfRange => 99,
        ApiError::UnknownTopicId => 100,
        ApiError::DuplicateBrokerRegistration => 101,
        ApiError::BrokerIdNotRegistered => 102,
        ApiError::InconsistentTopicId => 103,
        ApiError::InconsistentClusterId => 104,
        ApiError::TransactionalIdNotFound => 105,
        ApiError::FetchSessionTopicIdError => 106,
        ApiError::IneligibleReplica => 107,
        ApiError::NewLeaderElected => 108,
        ApiError::OffsetMovedToTieredStorage => 109,
        ApiError::FencedMemberEpoch => 110,
        ApiError::UnreleasedInstanceId => 111,
        ApiError::UnsupportedAssignor => 112,
        ApiError::StaleMemberEpoch => 113,
        ApiError::MismatchedEndpointType => 114,
        ApiError::UnsupportedEndpointType => 115,
        ApiError::UnknownControllerId => 116,
        ApiError::UnknownSubscriptionId => 117,
        ApiError::TelemetryTooLarge => 118,
        ApiError::InvalidRegistration => 119,
        ApiError::TransactionAbortable => 120,
        ApiError::InvalidRecordState => 121,
        ApiError::ShareSessionNotFound => 122,
        ApiError::InvalidShareSessionEpoch => 123,
        ApiError::FencedStateEpoch => 124,
        ApiError::InvalidVoterKey => 125,
        ApiError::DuplicateVoter => 126,
        ApiError::VoterNotFound => 127,
        ApiError::InvalidRegularExpression => 128,
        ApiError::RebootstrapRequired => 129,
        ApiError::StreamsInvalidTopology => 130,
        ApiError::StreamsInvalidTopologyEpoch => 131,
        ApiError::StreamsTopologyFenced => 132,
        ApiError::ShareSessionLimitReached => 133,
    }
}

/// Whether a client may retry after receiving the error.
pub open spec fn spec_is_retriable(e: ApiError) -> bool {
    match e {
        ApiError::CorruptMessage
        | ApiError::UnknownTopicOrPartition
        | ApiError::LeaderNotAvailable
        | ApiError::NotLeaderOrFollower
        | ApiError::RequestTimedOut
        | ApiError::ReplicaNotAvailable
        | ApiError::NetworkException
        | ApiError::CoordinatorLoadInProgress
        | ApiError::CoordinatorNotAvailable
        | ApiError::NotCoordinator
        | ApiError::NotEnoughReplicas
        | ApiError::NotEnoughReplicasAfterAppend
        | ApiError::NotController
        | ApiError::KafkaStorageError
        | ApiError::FetchSessionIdNotFound
        | ApiError::InvalidFetchSessionEpoch
        | ApiError::ListenerNotFound
        | ApiError::FencedLeaderEpoch
        | ApiError::UnknownLeaderEpoch
        | ApiError::OffsetNotAvailable
        | ApiError::PreferredLeaderNotAvailable
        | ApiError::EligibleLeadersNotAvailable
        | ApiError::ElectionNotNeeded
        | ApiError::UnstableOffsetCommit
        | ApiError::ThrottlingQuotaExceeded
        | ApiError::UnknownTopicId
        | ApiError::InconsistentTopicId
        | ApiError::FetchSessionTopicIdError
        | ApiError::ShareSessionNotFound
        | ApiError::InvalidShareSessionEpoch
        | ApiError::ShareSessionLimitReached => true,
        _ => false,
    }
}

/// The error that a wire code stands for: `None` for 0 (no error), the
/// matching error for a known code, and `UnknownServerError` otherwise.
pub open spec fn spec_from_code(code: i16) -> Option<ApiError> {
    match code {
        0 => None,
        -1 => Some(ApiError::UnknownServerError),
        1 => Some(ApiError::OffsetOutOfRange),
        2 => Some(ApiError::CorruptMessage),
        3 => Some(ApiError::UnknownTopicOrPartition),
        4 => Some(ApiError::InvalidFetchSize),
        5 => Some(ApiError::LeaderNotAvailable),
        6 => Some(ApiError::NotLeaderOrFollower),
        7 => Some(ApiError::RequestTimedOut),
        8 => Some(ApiError::BrokerNotAvailable),
        9 => Some(ApiError::ReplicaNotAvailable),
        10 => Some(ApiError::MessageTooLarge),
        11 => Some(ApiError::StaleControllerEpoch),
        12 => Some(ApiError::OffsetMetadataTooLarge),
        13 => Some(ApiError::NetworkException),
        14 => Some(ApiError::CoordinatorLoadInProgress),
        15 => Some(ApiError::CoordinatorNotAvailable),
        16 => Some(ApiError::NotCoordinator),
        17 => Some(ApiError::InvalidTopicException),
        18 => Some(ApiError::RecordListTooLarge),
        19 => Some(ApiError::NotEnoughReplicas),
        20 => Some(ApiError::NotEnoughReplicasAfterAppend),
        21 => Some(ApiError::InvalidRequiredAcks),
        22 => Some(ApiError::IllegalGeneration),
        23 => Some(ApiError::InconsistentGroupProtocol),
        24 => Some(ApiError::InvalidGroupId),
        25 => Some(ApiError::UnknownMemberId),
        26 => Some(ApiError::InvalidSessionTimeout),
        27 => Some(ApiError::RebalanceInProgress),
        28 => Some(ApiError::InvalidCommitOffsetSize),
        29 => Some(ApiError::TopicAuthorizationFailed),
        30 => Some(ApiError::GroupAuthorizationFailed),
        31 => Some(ApiError::ClusterAuthorizationFailed),
        32 => Some(ApiError::InvalidTimestamp),
        33 => Some(ApiError::UnsupportedSaslMechanism),
        34 => Some(ApiError::IllegalSaslState),
        35 => Some(ApiError::UnsupportedVersion),
        36 => Some(ApiError::TopicAlreadyExists),
        37 => Some(ApiError::InvalidPartitions),
        38 => Some(ApiError::InvalidReplicationFactor),
        39 => Some(ApiError::InvalidReplicaAssignment),
        40 => Some(ApiError::InvalidConfig),
        41 => Some(ApiError::NotController),
        42 => Some(ApiError::InvalidRequest),
        43 => Some(ApiError::UnsupportedForMessageFormat),
        44 => Some(ApiError::PolicyViolation),
        45 => Some(ApiError::OutOfOrderSequenceNumber),
        46 => Some(ApiError::DuplicateSequenceNumber),
        47 => Some(ApiError::InvalidProducerEpoch),
        48 => Some(ApiError::InvalidTxnState),
        49 => Some(ApiError::InvalidProducerIdMapping),
        50 => Some(ApiError::InvalidTransactionTimeout),
        51 => Some(ApiError::ConcurrentTransactions),
        52 => Some(ApiError::TransactionCoordinatorFenced),
        53 => Some(ApiError::TransactionalIdAuthorizationFailed),
        54 => Some(ApiError::SecurityDisabled),
        55 => Some(ApiError::OperationNotAttempted),
        56 => Some(ApiError::KafkaStorageError),
        57 => Some(ApiError::LogDirNotFound),
        58 => Some(ApiError::SaslAuthenticationFailed),
        59 => Some(ApiError::UnknownProducerId),
        60 => Some(ApiError::ReassignmentInProgress),
        61 => Some(ApiError::DelegationTokenAuthDisabled),
        62 => Some(ApiError::DelegationTokenNotFound),
        63 => Some(ApiError::DelegationTokenOwnerMismatch),
        64 => Some(ApiError::DelegationTokenRequestNotAllowed),
        65 => Some(ApiError::DelegationTokenAuthorizationFailed),
        66 => Some(ApiError::DelegationTokenExpired),
        67 => Some(ApiError::InvalidPrincipalType),
        68 => Some(ApiError::NonEmptyGroup),
        69 => Some(ApiError::GroupIdNotFound),
        70 => Some(ApiError::FetchSessionIdNotFound),
        71 => Some(ApiError::InvalidFetchSessionEpoch),
        72 => Some(ApiError::ListenerNotFound),
        73 => Some(ApiError::TopicDeletionDisabled),
        74 => Some(ApiError::FencedLeaderEpoch),
        75 => Some(ApiError::UnknownLeaderEpoch),
        76 => Some(ApiError::UnsupportedCompressionType),
        77 => Some(ApiError::StaleBrokerEpoch),
        78 => Some(ApiError::OffsetNotAvailable),
        79 => Some(ApiError::MemberIdRequired),
        80 => Some(ApiError::PreferredLeaderNotAvailable),
        81 => Some(ApiError::GroupMaxSizeReached),
        82 => Some(ApiError::FencedInstanceId),
        83 => Some(ApiError::EligibleLeadersNotAvailable),
        84 => Some(ApiError::ElectionNotNeeded),
        85 => Some(ApiError::NoReassignmentInProgress),
        86 => Some(ApiError::GroupSubscribedToTopic),
        87 => Some(ApiError::InvalidRecord),
        88 => Some(ApiError::UnstableOffsetCommit),
        89 => Some(ApiError::ThrottlingQuotaExceeded),
        90 => Some(ApiError::ProducerFenced),
        91 => Some(ApiError::ResourceNotFound),
        92 => Some(ApiError::DuplicateResource),
        93 => Some(ApiError::UnacceptableCredential),
        94 => Some(ApiError::InconsistentVoterSet),
        95 => Some(ApiError::InvalidUpdateVersion),
        96 => Some(ApiError::FeatureUpdateFailed),
        97 => Some(ApiError::PrincipalDeserializationFailure),
        98 => Some(ApiError::SnapshotNotFound),
        99 => Some(ApiError::PositionOutOfRange),
        100 => Some(ApiError::UnknownTopicId),
        101 => Some(ApiError::DuplicateBrokerRegistration),
        102 => Some(ApiError::BrokerIdNotRegistered),
        103 => Some(ApiError::InconsistentTopicId),
        104 => Some(ApiError::InconsistentClusterId),
        105 => Some(ApiError::TransactionalIdNotFound),
        106 => Some(ApiError::FetchSessionTopicIdError),
        107 => Some(ApiError::IneligibleReplica),
        108 => Some(ApiError::NewLeaderElected),
        109 => Some(ApiError::OffsetMovedToTieredStorage),
        110 => Some(ApiError::FencedMemberEpoch),
        111 => Some(ApiError::UnreleasedInstanceId),
        112 => Some(ApiError::UnsupportedAssignor),
        113 => Some(ApiError::StaleMemberEpoch),
        114 => Some(ApiError::MismatchedEndpointType),
        115 => Some(ApiError::UnsupportedEndpointType),
        116 => Some(ApiError::UnknownControllerId),
        117 => Some(ApiError::UnknownSubscriptionId),
        118 => Some(ApiError::TelemetryTooLarge),
        119 => Some(ApiError::InvalidRegistration),
        120 => Some(ApiError::TransactionAbortable),
        121 => Some(ApiError::InvalidRecordState),
        122 => Some(ApiError::ShareSessionNotFound),
        123 => Some(ApiError::InvalidShareSessionEpoch),
        124 => Some(ApiError::FencedStateEpoch),
        125 => Some(ApiError::InvalidVoterKey),
        126 => Some(ApiError::DuplicateVoter),
        127 => Some(ApiError::VoterNotFound),
        128 => Some(ApiError::InvalidRegularExpression),
        129 => Some(ApiError::RebootstrapRequired),
        130 => Some(ApiError::StreamsInvalidTopology),
        131 => Some(ApiError::StreamsInvalidTopologyEpoch),
        132 => Some(ApiError::StreamsTopologyFenced),
        133 => Some(ApiError::ShareSessionLimitReached),
        _ => Some(ApiError::UnknownServerError),
    }
}

/// The canonical upper-case name of an error.
pub open spec fn spec_name(e: ApiError) -> &'static str {
    match e {
        ApiError::UnknownServerError => "UNKNOWN_SERVER_ERROR",
        ApiError::OffsetOutOfRange => "OFFSET_OUT_OF_RANGE",
        ApiError::CorruptMessage => "CORRUPT_MESSAGE",
        ApiError::UnknownTopicOrPartition => "UNKNOWN_TOPIC_OR_PARTITION",
        ApiError::InvalidFetchSize => "INVALID_FETCH_SIZE",
        ApiError::LeaderNotAvailable => "LEADER_NOT_AVAILABLE",
        ApiError::NotLeaderOrFollower => "NOT_LEADER_OR_FOLLOWER",
        ApiError::RequestTimedOut => "REQUEST_TIMED_OUT",
        ApiError::BrokerNotAvailable => "BROKER_NOT_AVAILABLE",
        ApiError::ReplicaNotAvailable => "REPLICA_NOT_AVAILABLE",
        ApiError::MessageTooLarge => "MESSAGE_TOO_LARGE",
        ApiError::StaleControllerEpoch => "STALE_CONTROLLER_EPOCH",
        ApiError::OffsetMetadataTooLarge => "OFFSET_METADATA_TOO_LARGE",
        ApiError::NetworkException => "NETWORK_EXCEPTION",
        ApiError::CoordinatorLoadInProgress => "COORDINATOR_LOAD_IN_PROGRESS",
        ApiError::CoordinatorNotAvailable => "COORDINATOR_NOT_AVAILABLE",
        ApiError::NotCoordinator => "NOT_COORDINATOR",
        ApiError::InvalidTopicException => "INVALID_TOPIC_EXCEPTION",
        ApiError::RecordListTooLarge => "RECORD_LIST_TOO_LARGE",
        ApiError::NotEnoughReplicas => "NOT_ENOUGH_REPLICAS",
        ApiError::NotEnoughReplicasAfterAppend => "NOT_ENOUGH_REPLICAS_AFTER_APPEND",
        ApiError::InvalidRequiredAcks => "INVALID_REQUIRED_ACKS",
        ApiError::IllegalGeneration => "ILLEGAL_GENERATION",
        ApiError::InconsistentGroupProtocol => "INCONSISTENT_GROUP_PROTOCOL",
        ApiError::InvalidGroupId => "INVALID_GROUP_ID",
        ApiError::UnknownMemberId => "UNKNOWN_MEMBER_ID",
        ApiError::InvalidSessionTimeout => "INVALID_SESSION_TIMEOUT",
        ApiError::RebalanceInProgress => "REBALANCE_IN_PROGRESS",
        ApiError::InvalidCommitOffsetSize => "INVALID_COMMIT_OFFSET_SIZE",
        ApiError::TopicAuthorizationFailed => "TOPIC_AUTHORIZATION_FAILED",
        ApiError::GroupAuthorizationFailed => "GROUP_AUTHORIZATION_FAILED",
        ApiError::ClusterAuthorizationFailed => "CLUSTER_AUTHORIZATION_FAILED",
        ApiError::InvalidTimestamp => "INVALID_TIMESTAMP",
        ApiError::UnsupportedSaslMechanism => "UNSUPPORTED_SASL_MECHANISM",
        ApiError::IllegalSaslState => "ILLEGAL_SASL_STATE",
        ApiError::UnsupportedVersion => "UNSUPPORTED_VERSION",
        ApiError::TopicAlreadyExists => "TOPIC_ALREADY_EXISTS",
        ApiError::InvalidPartitions => "INVALID_PARTITIONS",
        ApiError::InvalidReplicationFactor => "INVALID_REPLICATION_FACTOR",
        ApiError::InvalidReplicaAssignment => "INVALID_REPLICA_ASSIGNMENT",
        ApiError::InvalidConfig => "INVALID_CONFIG",
        ApiError::NotController => "NOT_CONTROLLER",
        ApiError::InvalidRequest => "INVALID_REQUEST",
        ApiError::UnsupportedForMessageFormat => "UNSUPPORTED_FOR_MESSAGE_FORMAT",
        ApiError::PolicyViolation => "POLICY_VIOLATION",
        ApiError::OutOfOrderSequenceNumber => "OUT_OF_ORDER_SEQUENCE_NUMBER",
        ApiError::DuplicateSequenceNumber => "DUPLICATE_SEQUENCE_NUMBER",
        ApiError::InvalidProducerEpoch => "INVALID_PRODUCER_EPOCH",
        ApiError::InvalidTxnState => "INVALID_TXN_STATE",
        ApiError::InvalidProducerIdMapping => "INVALID_PRODUCER_ID_MAPPING",
        ApiError::InvalidTransactionTimeout => "INVALID_TRANSACTION_TIMEOUT",
        ApiError::ConcurrentTransactions => "CONCURRENT_TRANSACTIONS",
        ApiError::TransactionCoordinatorFenced => "TRANSACTION_COORDINATOR_FENCED",
        ApiError::TransactionalIdAuthorizationFailed => "TRANSACTIONAL_ID_AUTHORIZATION_FAILED",
        ApiError::SecurityDisabled => "SECURITY_DISABLED",
        ApiError::OperationNotAttempted => "OPERATION_NOT_ATTEMPTED",
        ApiError::KafkaStorageError => "KAFKA_STORAGE_ERROR",
        ApiError::LogDirNotFound => "LOG_DIR_NOT_FOUND",
        ApiError::SaslAuthenticationFailed => "SASL_AUTHENTICATION_FAILED",
        ApiError::UnknownProducerId => "UNKNOWN_PRODUCER_ID",
        ApiError::ReassignmentInProgress => "REASSIGNMENT_IN_PROGRESS",
        ApiError::DelegationTokenAuthDisabled => "DELEGATION_TOKEN_AUTH_DISABLED",
        ApiError::DelegationTokenNotFound => "DELEGATION_TOKEN_NOT_FOUND",
        ApiError::DelegationTokenOwnerMismatch => "DELEGATION_TOKEN_OWNER_MISMATCH",
        ApiError::DelegationTokenRequestNotAllowed => "DELEGATION_TOKEN_REQUEST_NOT_ALLOWED",
        ApiError::DelegationTokenAuthorizationFailed => "DELEGATION_TOKEN_AUTHORIZATION_FAILED",
        ApiError::DelegationTokenExpired => "DELEGATION_TOKEN_EXPIRED",
        ApiError::InvalidPrincipalType => "INVALID_PRINCIPAL_TYPE",
        ApiError::NonEmptyGroup => "NON_EMPTY_GROUP",
        ApiError::GroupIdNotFound => "GROUP_ID_NOT_FOUND",
        ApiError::FetchSessionIdNotFound => "FETCH_SESSION_ID_NOT_FOUND",
        ApiError::InvalidFetchSessionEpoch => "INVALID_FETCH_SESSION_EPOCH",
        ApiError::ListenerNotFound => "LISTENER_NOT_FOUND",
        ApiError::TopicDeletionDisabled => "TOPIC_DELETION_DISABLED",
        ApiError::FencedLeaderEpoch => "FENCED_LEADER_EPOCH",
        ApiError::UnknownLeaderEpoch => "UNKNOWN_LEADER_EPOCH",
        ApiError::UnsupportedCompressionType => "UNSUPPORTED_COMPRESSION_TYPE",
        ApiError::StaleBrokerEpoch => "STALE_BROKER_EPOCH",
        ApiError::OffsetNotAvailable => "OFFSET_NOT_AVAILABLE",
        ApiError::MemberIdRequired => "MEMBER_ID_REQUIRED",
        ApiError::PreferredLeaderNotAvailable => "PREFERRED_LEADER_NOT_AVAILABLE",
        ApiError::GroupMaxSizeReached => "GROUP_MAX_SIZE_REACHED",
        ApiError::FencedInstanceId => "FENCED_INSTANCE_ID",
        ApiError::EligibleLeadersNotAvailable => "ELIGIBLE_LEADERS_NOT_AVAILABLE",
        ApiError::ElectionNotNeeded => "ELECTION_NOT_NEEDED",
        ApiError::NoReassignmentInProgress => "NO_REASSIGNMENT_IN_PROGRESS",
        ApiError::GroupSubscribedToTopic => "GROUP_SUBSCRIBED_TO_TOPIC",
        ApiError::InvalidRecord => "INVALID_RECORD",
        ApiError::UnstableOffsetCommit => "UNSTABLE_OFFSET_COMMIT",
        ApiError::ThrottlingQuotaExceeded => "THROTTLING_QUOTA_EXCEEDED",
        ApiError::ProducerFenced => "PRODUCER_FENCED",
        ApiError::ResourceNotFound => "RESOURCE_NOT_FOUND",
        ApiError::DuplicateResource => "DUPLICATE_RESOURCE",
        ApiError::UnacceptableCredential => "UNACCEPTABLE_CREDENTIAL",
        ApiError::InconsistentVoterSet => "INCONSISTENT_VOTER_SET",
        ApiError::InvalidUpdateVersion => "INVALID_UPDATE_VERSION",
        ApiError::FeatureUpdateFailed => "FEATURE_UPDATE_FAILED",
        ApiError::PrincipalDeserializationFailure => "PRINCIPAL_DESERIALIZATION_FAILURE",
        ApiError::SnapshotNotFound => "SNAPSHOT_NOT_FOUND",
        ApiError::PositionOutOfRange => "POSITION_OUT_OF_RANGE",
        ApiError::UnknownTopicId => "UNKNOWN_TOPIC_ID",
        ApiError::DuplicateBrokerRegistration => "DUPLICATE_BROKER_REGISTRATION",
        ApiError::BrokerIdNotRegistered => "BROKER_ID_NOT_REGISTERED",
        ApiError::InconsistentTopicId => "INCONSISTENT_TOPIC_ID",
        ApiError::InconsistentClusterId => "INCONSISTENT_CLUSTER_ID",
        ApiError::TransactionalIdNotFound => "TRANSACTIONAL_ID_NOT_FOUND",
        ApiError::FetchSessionTopicIdError => "FETCH_SESSION_TOPIC_ID_ERROR",
        ApiError::IneligibleReplica => "INELIGIBLE_REPLICA",
        ApiError::NewLeaderElected => "NEW_LEADER_ELECTED",
        ApiError::OffsetMovedToTieredStorage => "OFFSET_MOVED_TO_TIERED_STORAGE",
        ApiError::FencedMemberEpoch => "FENCED_MEMBER_EPOCH",
        ApiError::UnreleasedInstanceId => "UNRELEASED_INSTANCE_ID",
        ApiError::UnsupportedAssignor => "UNSUPPORTED_ASSIGNOR",
        ApiError::StaleMemberEpoch => "STALE_MEMBER_EPOCH",
        ApiError::MismatchedEndpointType => "MISMATCHED_ENDPOINT_TYPE",
        ApiError::UnsupportedEndpointType => "UNSUPPORTED_ENDPOINT_TYPE",
        ApiError::UnknownControllerId => "UNKNOWN_CONTROLLER_ID",
        ApiError::UnknownSubscriptionId => "UNKNOWN_SUBSCRIPTION_ID",
        ApiError::TelemetryTooLarge => "TELEMETRY_TOO_LARGE",
        ApiError::InvalidRegistration => "INVALID_REGISTRATION",
        ApiError::TransactionAbortable => "TRANSACTION_ABORTABLE",
        ApiError::InvalidRecordState => "INVALID_RECORD_STATE",
        ApiError::ShareSessionNotFound => "SHARE_SESSION_NOT_FOUND",
        ApiError::InvalidShareSessionEpoch => "INVALID_SHARE_SESSION_EPOCH",
        ApiError::FencedStateEpoch => "FENCED_STATE_EPOCH",
        ApiError::InvalidVoterKey => "INVALID_VOTER_KEY",
        ApiError::DuplicateVoter => "DUPLICATE_VOTER",
        ApiError::VoterNotFound => "VOTER_NOT_FOUND",
        ApiError::InvalidRegularExpression => "INVALID_REGULAR_EXPRESSION",
        ApiError::RebootstrapRequired => "REBOOTSTRAP_REQUIRED",
        ApiError::StreamsInvalidTopology => "STREAMS_INVALID_TOPOLOGY",
        ApiError::StreamsInvalidTopologyEpoch => "STREAMS_INVALID_TOPOLOGY_EPOCH",
        ApiError::StreamsTopologyFenced => "STREAMS_TOPOLOGY_FENCED",
        ApiError::ShareSessionLimitReached => "SHARE_SESSION_LIMIT_REACHED",
    }
}

impl ApiError {
    /// Returns the numeric error code as sent on the wire.
    pub fn code(self) -> (r: i16)
        ensures
            r == spec_code(self),
    {
        match self {
            ApiError::UnknownServerError => -1i16,
            ApiError::OffsetOutOfRange => 1,
            ApiError::CorruptMessage => 2,
            ApiError::UnknownTopicOrPartition => 3,
            ApiError::InvalidFetchSize => 4,
            ApiError::LeaderNotAvailable => 5,
            ApiError::NotLeaderOrFollower => 6,
            ApiError::RequestTimedOut => 7,
            ApiError::BrokerNotAvailable => 8,
            ApiError::ReplicaNotAvailable => 9,
            ApiError::MessageTooLarge => 10,
            ApiError::StaleControllerEpoch => 11,
            ApiError::OffsetMetadataTooLarge => 12,
            ApiError::NetworkException => 13,
            ApiError::CoordinatorLoadInProgress => 14,
            ApiError::CoordinatorNotAvailable => 15,
            ApiError::NotCoordinator => 16,
            ApiError::InvalidTopicException => 17,
            ApiError::RecordListTooLarge => 18,
            ApiError::NotEnoughReplicas => 19,
            ApiError::NotEnoughReplicasAfterAppend => 20,
            ApiError::InvalidRequiredAcks => 21,
            ApiError::IllegalGeneration => 22,
            ApiError::InconsistentGroupProtocol => 23,
            ApiError::InvalidGroupId => 24,
            ApiError::UnknownMemberId => 25,
            ApiError::InvalidSessionTimeout => 26,
            ApiError::RebalanceInProgress => 27,
            ApiError::InvalidCommitOffsetSize => 28,
            ApiError::TopicAuthorizationFailed => 29,
            ApiError::GroupAuthorizationFailed => 30,
            ApiError::ClusterAuthorizationFailed => 31,
            ApiError::InvalidTimestamp => 32,
            ApiError::UnsupportedSaslMechanism => 33,
            ApiError::IllegalSaslState => 34,
            ApiError::UnsupportedVersion => 35,
            ApiError::TopicAlreadyExists => 36,
            ApiError::InvalidPartitions => 37,
            ApiError::InvalidReplicationFactor => 38,
            ApiError::InvalidReplicaAssignment => 39,
            ApiError::InvalidConfig => 40,
            ApiError::NotController => 41,
            ApiError::InvalidRequest => 42,
            ApiError::UnsupportedForMessageFormat => 43,
            ApiError::PolicyViolation => 44,
            ApiError::OutOfOrderSequenceNumber => 45,
            ApiError::DuplicateSequenceNumber => 46,
            ApiError::InvalidProducerEpoch => 47,
            ApiError::InvalidTxnState => 48,
            ApiError::InvalidProducerIdMapping => 49,
            ApiError::InvalidTransactionTimeout => 50,
            ApiError::ConcurrentTransactions => 51,
            ApiError::TransactionCoordinatorFenced => 52,
            ApiError::TransactionalIdAuthorizationFailed => 53,
            ApiError::SecurityDisabled => 54,
            ApiError::OperationNotAttempted => 55,
            ApiError::KafkaStorageError => 56,
            ApiError::LogDirNotFound => 57,
            ApiError::SaslAuthenticationFailed => 58,
            ApiError::UnknownProducerId => 59,
            ApiError::ReassignmentInProgress => 60,
            ApiError::DelegationTokenAuthDisabled => 61,
            ApiError::DelegationTokenNotFound => 62,
            ApiError::DelegationTokenOwnerMismatch => 63,
            ApiError::DelegationTokenRequestNotAllowed => 64,
            ApiError::DelegationTokenAuthorizationFailed => 65,
            ApiError::DelegationTokenExpired => 66,
            ApiError::InvalidPrincipalType => 67,
            ApiError::NonEmptyGroup => 68,
            ApiError::GroupIdNotFound => 69,
            ApiError::FetchSessionIdNotFound => 70,
            ApiError::InvalidFetchSessionEpoch => 71,
            ApiError::ListenerNotFound => 72,
            ApiError::TopicDeletionDisabled => 73,
            ApiError::FencedLeaderEpoch => 74,
            ApiError::UnknownLeaderEpoch => 75,
            ApiError::UnsupportedCompressionType => 76,
            ApiError::StaleBrokerEpoch => 77,
            ApiError::OffsetNotAvailable => 78,
            ApiError::MemberIdRequired => 79,
            ApiError::PreferredLeaderNotAvailable => 80,
            ApiError::GroupMaxSizeReached => 81,
            ApiError::FencedInstanceId => 82,
            ApiError::EligibleLeadersNotAvailable => 83,
            ApiError::ElectionNotNeeded => 84,
            ApiError::NoReassignmentInProgress => 85,
            ApiError::GroupSubscribedToTopic => 86,
            ApiError::InvalidRecord => 87,
            ApiError::UnstableOffsetCommit => 88,
            ApiError::ThrottlingQuotaExceeded => 89,
            ApiError::ProducerFenced => 90,
            ApiError::ResourceNotFound => 91,
            ApiError::DuplicateResource => 92,
            ApiError::UnacceptableCredential => 93,
            ApiError::InconsistentVoterSet => 94,
            ApiError::InvalidUpdateVersion => 95,
            ApiError::FeatureUpdateFailed => 96,
            ApiError::PrincipalDeserializationFailure => 97,
            ApiError::SnapshotNotFound => 98,
            ApiError::PositionOutOfRange => 99,
            ApiError::UnknownTopicId => 100,
            ApiError::DuplicateBrokerRegistration => 101,
            ApiError::BrokerIdNotRegistered => 102,
            ApiError::InconsistentTopicId => 103,
            ApiError::InconsistentClusterId => 104,
            ApiError::TransactionalIdNotFound => 105,
            ApiError::FetchSessionTopicIdError => 106,
            ApiError::IneligibleReplica => 107,
            ApiError::NewLeaderElected => 108,
            ApiError::OffsetMovedToTieredStorage => 109,
            ApiError::FencedMemberEpoch => 110,
            ApiError::UnreleasedInstanceId => 111,
            ApiError::UnsupportedAssignor => 112,
            ApiError::StaleMemberEpoch => 113,
            ApiError::MismatchedEndpointType => 114,
            ApiError::UnsupportedEndpointType => 115,
            ApiError::UnknownControllerId => 116,
            ApiError::UnknownSubscriptionId => 117,
            ApiError::TelemetryTooLarge => 118,
            ApiError::InvalidRegistration => 119,
            ApiError::TransactionAbortable => 120,
            ApiError::InvalidRecordState => 121,
            ApiError::ShareSessionNotFound => 122,
            ApiError::InvalidShareSessionEpoch => 123,
            ApiError::FencedStateEpoch => 124,
            ApiError::InvalidVoterKey => 125,
            ApiError::DuplicateVoter => 126,
            ApiError::VoterNotFound => 127,
            ApiError::InvalidRegularExpression => 128,
            ApiError::RebootstrapRequired => 129,
            ApiError::StreamsInvalidTopology => 130,
            ApiError::StreamsInvalidTopologyEpoch => 131,
            ApiError::StreamsTopologyFenced => 132,
            ApiError::ShareSessionLimitReached => 133,
        }
    }

    /// Returns `true` if the error is retriable.
    pub fn is_retriable(self) -> (r: bool)
        ensures
            r == spec_is_retriable(self),
    {
        match self {
            ApiError::CorruptMessage
            | ApiError::UnknownTopicOrPartition
            | ApiError::LeaderNotAvailable
            | ApiError::NotLeaderOrFollower
            | ApiError::RequestTimedOut
            | ApiError::ReplicaNotAvailable
            | ApiError::NetworkException
            | ApiError::CoordinatorLoadInProgress
            | ApiError::CoordinatorNotAvailable
            | ApiError::NotCoordinator
            | ApiError::NotEnoughReplicas
            | ApiError::NotEnoughReplicasAfterAppend
            | ApiError::NotController
            | ApiError::KafkaStorageError
            | ApiError::FetchSessionIdNotFound
            | ApiError::InvalidFetchSessionEpoch
            | ApiError::ListenerNotFound
            | ApiError::FencedLeaderEpoch
            | ApiError::UnknownLeaderEpoch
            | ApiError::OffsetNotAvailable
            | ApiError::PreferredLeaderNotAvailable
            | ApiError::EligibleLeadersNotAvailable
            | ApiError::ElectionNotNeeded
            | ApiError::UnstableOffsetCommit
            | ApiError::ThrottlingQuotaExceeded
            | ApiError::UnknownTopicId
            | ApiError::InconsistentTopicId
            | ApiError::FetchSessionTopicIdError
            | ApiError::ShareSessionNotFound
            | ApiError::InvalidShareSessionEpoch
            | ApiError::ShareSessionLimitReached => true,
            _ => false,
        }
    }

    /// Resolve an `i16` wire code into an `ApiError`, or `None` for code 0.
    pub fn from_code(code: i16) -> (r: Option<ApiError>)
        ensures
            r == spec_from_code(code),
    {
        match code {
            0 => None,
            -1 => Some(ApiError::UnknownServerError),
            1 => Some(ApiError::OffsetOutOfRange),
            2 => Some(ApiError::CorruptMessage),
            3 => Some(ApiError::UnknownTopicOrPartition),
            4 => Some(ApiError::InvalidFetchSize),
            5 => Some(ApiError::LeaderNotAvailable),
            6 => Some(ApiError::NotLeaderOrFollower),
            7 => Some(ApiError::RequestTimedOut),
            8 => Some(ApiError::BrokerNotAvailable),
            9 => Some(ApiError::ReplicaNotAvailable),
            10 => Some(ApiError::MessageTooLarge),
            11 => Some(ApiError::StaleControllerEpoch),
            12 => Some(ApiError::OffsetMetadataTooLarge),
            13 => Some(ApiError::NetworkException),
            14 => Some(ApiError::CoordinatorLoadInProgress),
            15 => Some(ApiError::CoordinatorNotAvailable),
            16 => Some(ApiError::NotCoordinator),
            17 => Some(ApiError::InvalidTopicException),
            18 => Some(ApiError::RecordListTooLarge),
            19 => Some(ApiError::NotEnoughReplicas),
            20 => Some(ApiError::NotEnoughReplicasAfterAppend),
            21 => Some(ApiError::InvalidRequiredAcks),
            22 => Some(ApiError::IllegalGeneration),
            23 => Some(ApiError::InconsistentGroupProtocol),
            24 => Some(ApiError::InvalidGroupId),
            25 => Some(ApiError::UnknownMemberId),
            26 => Some(ApiError::InvalidSessionTimeout),
            27 => Some(ApiError::RebalanceInProgress),
            28 => Some(ApiError::InvalidCommitOffsetSize),
            29 => Some(ApiError::TopicAuthorizationFailed),
            30 => Some(ApiError::GroupAuthorizationFailed),
            31 => Some(ApiError::ClusterAuthorizationFailed),
            32 => Some(ApiError::InvalidTimestamp),
            33 => Some(ApiError::UnsupportedSaslMechanism),
            34 => Some(ApiError::IllegalSaslState),
            35 => Some(ApiError::UnsupportedVersion),
            36 => Some(ApiError::TopicAlreadyExists),
            37 => Some(ApiError::InvalidPartitions),
            38 => Some(ApiError::InvalidReplicationFactor),
            39 => Some(ApiError::InvalidReplicaAssignment),
            40 => Some(ApiError::InvalidConfig),
            41 => Some(ApiError::NotController),
            42 => Some(ApiError::InvalidRequest),
            43 => Some(ApiError::UnsupportedForMessageFormat),
            44 => Some(ApiError::PolicyViolation),
            45 => Some(ApiError::OutOfOrderSequenceNumber),
            46 => Some(ApiError::DuplicateSequenceNumber),
            47 => Some(ApiError::InvalidProducerEpoch),
            48 => Some(ApiError::InvalidTxnState),
            49 => Some(ApiError::InvalidProducerIdMapping),
            50 => Some(ApiError::InvalidTransactionTimeout),
            51 => Some(ApiError::ConcurrentTransactions),
            52 => Some(ApiError::TransactionCoordinatorFenced),
            53 => Some(ApiError::TransactionalIdAuthorizationFailed),
            54 => Some(ApiError::SecurityDisabled),
            55 => Some(ApiError::OperationNotAttempted),
            56 => Some(ApiError::KafkaStorageError),
            57 => Some(ApiError::LogDirNotFound),
            58 => Some(ApiError::SaslAuthenticationFailed),
            59 => Some(ApiError::UnknownProducerId),
            60 => Some(ApiError::ReassignmentInProgress),
            61 => Some(ApiError::DelegationTokenAuthDisabled),
            62 => Some(ApiError::DelegationTokenNotFound),
            63 => Some(ApiError::DelegationTokenOwnerMismatch),
            64 => Some(ApiError::DelegationTokenRequestNotAllowed),
            65 => Some(ApiError::DelegationTokenAuthorizationFailed),
            66 => Some(ApiError::DelegationTokenExpired),
            67 => Some(ApiError::InvalidPrincipalType),
            68 => Some(ApiError::NonEmptyGroup),
            69 => Some(ApiError::GroupIdNotFound),
            70 => Some(ApiError::FetchSessionIdNotFound),
            71 => Some(ApiError::InvalidFetchSessionEpoch),
            72 => Some(ApiError::ListenerNotFound),
            73 => Some(ApiError::TopicDeletionDisabled),
            74 => Some(ApiError::FencedLeaderEpoch),
            75 => Some(ApiError::UnknownLeaderEpoch),
            76 => Some(ApiError::UnsupportedCompressionType),
            77 => Some(ApiError::StaleBrokerEpoch),
            78 => Some(ApiError::OffsetNotAvailable),
            79 => Some(ApiError::MemberIdRequired),
            80 => Some(ApiError::PreferredLeaderNotAvailable),
            81 => Some(ApiError::GroupMaxSizeReached),
            82 => Some(ApiError::FencedInstanceId),
            83 => Some(ApiError::EligibleLeadersNotAvailable),
            84 => Some(ApiError::ElectionNotNeeded),
            85 => Some(ApiError::NoReassignmentInProgress),
            86 => Some(ApiError::GroupSubscribedToTopic),
            87 => Some(ApiError::InvalidRecord),
            88 => Some(ApiError::UnstableOffsetCommit),
            89 => Some(ApiError::ThrottlingQuotaExceeded),
            90 => Some(ApiError::ProducerFenced),
            91 => Some(ApiError::ResourceNotFound),
            92 => Some(ApiError::DuplicateResource),
            93 => Some(ApiError::UnacceptableCredential),
            94 => Some(ApiError::InconsistentVoterSet),
            95 => Some(ApiError::InvalidUpdateVersion),
            96 => Some(ApiError::FeatureUpdateFailed),
            97 => Some(ApiError::PrincipalDeserializationFailure),
            98 => Some(ApiError::SnapshotNotFound),
            99 => Some(ApiError::PositionOutOfRange),
            100 => Some(ApiError::UnknownTopicId),
            101 => Some(ApiError::DuplicateBrokerRegistration),
            102 => Some(ApiError::BrokerIdNotRegistered),
            103 => Some(ApiError::InconsistentTopicId),
            104 => Some(ApiError::InconsistentClusterId),
            105 => Some(ApiError::TransactionalIdNotFound),
            106 => Some(ApiError::FetchSessionTopicIdError),
            107 => Some(ApiError::IneligibleReplica),
            108 => Some(ApiError::NewLeaderElected),
            109 => Some(ApiError::OffsetMovedToTieredStorage),
            110 => Some(ApiError::FencedMemberEpoch),
            111 => Some(ApiError::UnreleasedInstanceId),
            112 => Some(ApiError::UnsupportedAssignor),
            113 => Some(ApiError::StaleMemberEpoch),
            114 => Some(ApiError::MismatchedEndpointType),
            115 => Some(ApiError::UnsupportedEndpointType),
            116 => Some(ApiError::UnknownControllerId),
            117 => Some(ApiError::UnknownSubscriptionId),
            118 => Some(ApiError::TelemetryTooLarge),
            119 => Some(ApiError::InvalidRegistration),
            120 => Some(ApiError::TransactionAbortable),
            121 => Some(ApiError::InvalidRecordState),
            122 => Some(ApiError::ShareSessionNotFound),
            123 => Some(ApiError::InvalidShareSessionEpoch),
            124 => Some(ApiError::FencedStateEpoch),
            125 => Some(ApiError::InvalidVoterKey),
            126 => Some(ApiError::DuplicateVoter),
            127 => Some(ApiError::VoterNotFound),
            128 => Some(ApiError::InvalidRegularExpression),
            129 => Some(ApiError::RebootstrapRequired),
            130 => Some(ApiError::StreamsInvalidTopology),
            131 => Some(ApiError::StreamsInvalidTopologyEpoch),
            132 => Some(ApiError::StreamsTopologyFenced),
            133 => Some(ApiError::ShareSessionLimitReached),
            _ => Some(ApiError::UnknownServerError),
        }
    }

    /// Returns the canonical upper-case name of the error.
    pub fn name(self) -> (r: &'static str)
        ensures
            r == spec_name(self),
    {
        match self {
            ApiError::UnknownServerError => "UNKNOWN_SERVER_ERROR",
            ApiError::OffsetOutOfRange => "OFFSET_OUT_OF_RANGE",
            ApiError::CorruptMessage => "CORRUPT_MESSAGE",
            ApiError::UnknownTopicOrPartition => "UNKNOWN_TOPIC_OR_PARTITION",
            ApiError::InvalidFetchSize => "INVALID_FETCH_SIZE",
            ApiError::LeaderNotAvailable => "LEADER_NOT_AVAILABLE",
            ApiError::NotLeaderOrFollower => "NOT_LEADER_OR_FOLLOWER",
            ApiError::RequestTimedOut => "REQUEST_TIMED_OUT",
            ApiError::BrokerNotAvailable => "BROKER_NOT_AVAILABLE",
            ApiError::ReplicaNotAvailable => "REPLICA_NOT_AVAILABLE",
            ApiError::MessageTooLarge => "MESSAGE_TOO_LARGE",
            ApiError::StaleControllerEpoch => "STALE_CONTROLLER_EPOCH",
            ApiError::OffsetMetadataTooLarge => "OFFSET_METADATA_TOO_LARGE",
            ApiError::NetworkException => "NETWORK_EXCEPTION",
            ApiError::CoordinatorLoadInProgress => "COORDINATOR_LOAD_IN_PROGRESS",
            ApiError::CoordinatorNotAvailable => "COORDINATOR_NOT_AVAILABLE",
            ApiError::NotCoordinator => "NOT_COORDINATOR",
            ApiError::InvalidTopicException => "INVALID_TOPIC_EXCEPTION",
            ApiError::RecordListTooLarge => "RECORD_LIST_TOO_LARGE",
            ApiError::NotEnoughReplicas => "NOT_ENOUGH_REPLICAS",
            ApiError::NotEnoughReplicasAfterAppend => "NOT_ENOUGH_REPLICAS_AFTER_APPEND",
            ApiError::InvalidRequiredAcks => "INVALID_REQUIRED_ACKS",
            ApiError::IllegalGeneration => "ILLEGAL_GENERATION",
            ApiError::InconsistentGroupProtocol => "INCONSISTENT_GROUP_PROTOCOL",
            ApiError::InvalidGroupId => "INVALID_GROUP_ID",
            ApiError::UnknownMemberId => "UNKNOWN_MEMBER_ID",
            ApiError::InvalidSessionTimeout => "INVALID_SESSION_TIMEOUT",
            ApiError::RebalanceInProgress => "REBALANCE_IN_PROGRESS",
            ApiError::InvalidCommitOffsetSize => "INVALID_COMMIT_OFFSET_SIZE",
            ApiError::TopicAuthorizationFailed => "TOPIC_AUTHORIZATION_FAILED",
            ApiError::GroupAuthorizationFailed => "GROUP_AUTHORIZATION_FAILED",
            ApiError::ClusterAuthorizationFailed => "CLUSTER_AUTHORIZATION_FAILED",
            ApiError::InvalidTimestamp => "INVALID_TIMESTAMP",
            ApiError::UnsupportedSaslMechanism => "UNSUPPORTED_SASL_MECHANISM",
            ApiError::IllegalSaslState => "ILLEGAL_SASL_STATE",
            ApiError::UnsupportedVersion => "UNSUPPORTED_VERSION",
            ApiError::TopicAlreadyExists => "TOPIC_ALREADY_EXISTS",
            ApiError::InvalidPartitions => "INVALID_PARTITIONS",
            ApiError::InvalidReplicationFactor => "INVALID_REPLICATION_FACTOR",
            ApiError::InvalidReplicaAssignment => "INVALID_REPLICA_ASSIGNMENT",
            ApiError::InvalidConfig => "INVALID_CONFIG",
            ApiError::NotController => "NOT_CONTROLLER",
            ApiError::InvalidRequest => "INVALID_REQUEST",
            ApiError::UnsupportedForMessageFormat => "UNSUPPORTED_FOR_MESSAGE_FORMAT",
            ApiError::PolicyViolation => "POLICY_VIOLATION",
            ApiError::OutOfOrderSequenceNumber => "OUT_OF_ORDER_SEQUENCE_NUMBER",
            ApiError::DuplicateSequenceNumber => "DUPLICATE_SEQUENCE_NUMBER",
            ApiError::InvalidProducerEpoch => "INVALID_PRODUCER_EPOCH",
            ApiError::InvalidTxnState => "INVALID_TXN_STATE",
            ApiError::InvalidProducerIdMapping => "INVALID_PRODUCER_ID_MAPPING",
            ApiError::InvalidTransactionTimeout => "INVALID_TRANSACTION_TIMEOUT",
            ApiError::ConcurrentTransactions => "CONCURRENT_TRANSACTIONS",
            ApiError::TransactionCoordinatorFenced => "TRANSACTION_COORDINATOR_FENCED",
            ApiError::TransactionalIdAuthorizationFailed => "TRANSACTIONAL_ID_AUTHORIZATION_FAILED",
            ApiError::SecurityDisabled => "SECURITY_DISABLED",
            ApiError::OperationNotAttempted => "OPERATION_NOT_ATTEMPTED",
            ApiError::KafkaStorageError => "KAFKA_STORAGE_ERROR",
            ApiError::LogDirNotFound => "LOG_DIR_NOT_FOUND",
            ApiError::SaslAuthenticationFailed => "SASL_AUTHENTICATION_FAILED",
            ApiError::UnknownProducerId => "UNKNOWN_PRODUCER_ID",
            ApiError::ReassignmentInProgress => "REASSIGNMENT_IN_PROGRESS",
            ApiError::DelegationTokenAuthDisabled => "DELEGATION_TOKEN_AUTH_DISABLED",
            ApiError::DelegationTokenNotFound => "DELEGATION_TOKEN_NOT_FOUND",
            ApiError::DelegationTokenOwnerMismatch => "DELEGATION_TOKEN_OWNER_MISMATCH",
            ApiError::DelegationTokenRequestNotAllowed => "DELEGATION_TOKEN_REQUEST_NOT_ALLOWED",
            ApiError::DelegationTokenAuthorizationFailed => "DELEGATION_TOKEN_AUTHORIZATION_FAILED",
            ApiError::DelegationTokenExpired => "DELEGATION_TOKEN_EXPIRED",
            ApiError::InvalidPrincipalType => "INVALID_PRINCIPAL_TYPE",
            ApiError::NonEmptyGroup => "NON_EMPTY_GROUP",
            ApiError::GroupIdNotFound => "GROUP_ID_NOT_FOUND",
            ApiError::FetchSessionIdNotFound => "FETCH_SESSION_ID_NOT_FOUND",
            ApiError::InvalidFetchSessionEpoch => "INVALID_FETCH_SESSION_EPOCH",
            ApiError::ListenerNotFound => "LISTENER_NOT_FOUND",
            ApiError::TopicDeletionDisabled => "TOPIC_DELETION_DISABLED",
            ApiError::FencedLeaderEpoch => "FENCED_LEADER_EPOCH",
            ApiError::UnknownLeaderEpoch => "UNKNOWN_LEADER_EPOCH",
            ApiError::UnsupportedCompressionType => "UNSUPPORTED_COMPRESSION_TYPE",
            ApiError::StaleBrokerEpoch => "STALE_BROKER_EPOCH",
            ApiError::OffsetNotAvailable => "OFFSET_NOT_AVAILABLE",
            ApiError::MemberIdRequired => "MEMBER_ID_REQUIRED",
            ApiError::PreferredLeaderNotAvailable => "PREFERRED_LEADER_NOT_AVAILABLE",
            ApiError::GroupMaxSizeReached => "GROUP_MAX_SIZE_REACHED",
            ApiError::FencedInstanceId => "FENCED_INSTANCE_ID",
            ApiError::EligibleLeadersNotAvailable => "ELIGIBLE_LEADERS_NOT_AVAILABLE",
            ApiError::ElectionNotNeeded => "ELECTION_NOT_NEEDED",
            ApiError::NoReassignmentInProgress => "NO_REASSIGNMENT_IN_PROGRESS",
            ApiError::GroupSubscribedToTopic => "GROUP_SUBSCRIBED_TO_TOPIC",
            ApiError::InvalidRecord => "INVALID_RECORD",
            ApiError::UnstableOffsetCommit => "UNSTABLE_OFFSET_COMMIT",
            ApiError::ThrottlingQuotaExceeded => "THROTTLING_QUOTA_EXCEEDED",
            ApiError::ProducerFenced => "PRODUCER_FENCED",
            ApiError::ResourceNotFound => "RESOURCE_NOT_FOUND",
            ApiError::DuplicateResource => "DUPLICATE_RESOURCE",
            ApiError::UnacceptableCredential => "UNACCEPTABLE_CREDENTIAL",
            ApiError::InconsistentVoterSet => "INCONSISTENT_VOTER_SET",
            ApiError::InvalidUpdateVersion => "INVALID_UPDATE_VERSION",
            ApiError::FeatureUpdateFailed => "FEATURE_UPDATE_FAILED",
            ApiError::PrincipalDeserializationFailure => "PRINCIPAL_DESERIALIZATION_FAILURE",
            ApiError::SnapshotNotFound => "SNAPSHOT_NOT_FOUND",
            ApiError::PositionOutOfRange => "POSITION_OUT_OF_RANGE",
            ApiError::UnknownTopicId => "UNKNOWN_TOPIC_ID",
            ApiError::DuplicateBrokerRegistration => "DUPLICATE_BROKER_REGISTRATION",
            ApiError::BrokerIdNotRegistered => "BROKER_ID_NOT_REGISTERED",
            ApiError::InconsistentTopicId => "INCONSISTENT_TOPIC_ID",
            ApiError::InconsistentClusterId => "INCONSISTENT_CLUSTER_ID",
            ApiError::TransactionalIdNotFound => "TRANSACTIONAL_ID_NOT_FOUND",
            ApiError::FetchSessionTopicIdError => "FETCH_SESSION_TOPIC_ID_ERROR",
            ApiError::IneligibleReplica => "INELIGIBLE_REPLICA",
            ApiError::NewLeaderElected => "NEW_LEADER_ELECTED",
            ApiError::OffsetMovedToTieredStorage => "OFFSET_MOVED_TO_TIERED_STORAGE",
            ApiError::FencedMemberEpoch => "FENCED_MEMBER_EPOCH",
            ApiError::UnreleasedInstanceId => "UNRELEASED_INSTANCE_ID",
            ApiError::UnsupportedAssignor => "UNSUPPORTED_ASSIGNOR",
            ApiError::StaleMemberEpoch => "STALE_MEMBER_EPOCH",
            ApiError::MismatchedEndpointType => "MISMATCHED_ENDPOINT_TYPE",
            ApiError::UnsupportedEndpointType => "UNSUPPORTED_ENDPOINT_TYPE",
            ApiError::UnknownControllerId => "UNKNOWN_CONTROLLER_ID",
            ApiError::UnknownSubscriptionId => "UNKNOWN_SUBSCRIPTION_ID",
            ApiError::TelemetryTooLarge => "TELEMETRY_TOO_LARGE",
            ApiError::InvalidRegistration => "INVALID_REGISTRATION",
            ApiError::TransactionAbortable => "TRANSACTION_ABORTABLE",
            ApiError::InvalidRecordState => "INVALID_RECORD_STATE",
            ApiError::ShareSessionNotFound => "SHARE_SESSION_NOT_FOUND",
            ApiError::InvalidShareSessionEpoch => "INVALID_SHARE_SESSION_EPOCH",
            ApiError::FencedStateEpoch => "FENCED_STATE_EPOCH",
            ApiError::InvalidVoterKey => "INVALID_VOTER_KEY",
            ApiError::DuplicateVoter => "DUPLICATE_VOTER",
            ApiError::VoterNotFound => "VOTER_NOT_FOUND",
            ApiError::InvalidRegularExpression => "INVALID_REGULAR_EXPRESSION",
            ApiError::RebootstrapRequired => "REBOOTSTRAP_REQUIRED",
            ApiError::StreamsInvalidTopology => "STREAMS_INVALID_TOPOLOGY",
            ApiError::StreamsInvalidTopologyEpoch => "STREAMS_INVALID_TOPOLOGY_EPOCH",
            ApiError::StreamsTopologyFenced => "STREAMS_TOPOLOGY_FENCED",
            ApiError::ShareSessionLimitReached => "SHARE_SESSION_LIMIT_REACHED",
        }
    }
}

/// The character of a decimal digit.
pub open spec fn digit_char(d: int) -> char {
    if d == 0 {
        '0'
    } else if d == 1 {
        '1'
    } else if d == 2 {
        '2'
    } else if d == 3 {
        '3'
    } else if d == 4 {
        '4'
    } else if d == 5 {
        '5'
    } else if d == 6 {
        '6'
    } else if d == 7 {
        '7'
    } else if d == 8 {
        '8'
    } else {
        '9'
    }
}

/// Decimal digits of a natural number, most significant first.
pub open spec fn decimal_digits(n: nat) -> Seq<char>
    decreases n,
{
    if n < 10 {
        seq![digit_char(n as int)]
    } else {
        decimal_digits(n / 10).push(digit_char((n % 10) as int))
    }
}

/// Decimal notation of an integer, with a leading `-` when negative.
pub open spec fn decimal(v: int) -> Seq<char> {
    if v < 0 {
        seq!['-'] + decimal_digits((-v) as nat)
    } else {
        decimal_digits(v as nat)
    }
}

/// The display form of an error: its name, then its code in parentheses.
pub open spec fn spec_display(e: ApiError) -> Seq<char> {
    spec_name(e)@ + seq!['('] + decimal(spec_code(e) as int) + seq![')']
}

fn digit_str(d: u32) -> (r: &'static str)
    requires
        d < 10,
    ensures
        r@ == seq![digit_char(d as int)],
{
    match d {
        0 => {
            proof {
                reveal_strlit("0");
            }
            "0"
        },
        1 => {
            proof {
                reveal_strlit("1");
            }
            "1"
        },
        2 => {
            proof {
                reveal_strlit("2");
            }
            "2"
        },
        3 => {
            proof {
                reveal_strlit("3");
            }
            "3"
        },
        4 => {
            proof {
                reveal_strlit("4");
            }
            "4"
        },
        5 => {
            proof {
                reveal_strlit("5");
            }
            "5"
        },
        6 => {
            proof {
                reveal_strlit("6");
            }
            "6"
        },
        7 => {
            proof {
                reveal_strlit("7");
            }
            "7"
        },
        8 => {
            proof {
                reveal_strlit("8");
            }
            "8"
        },
        _ => {
            proof {
                reveal_strlit("9");
            }
            "9"
        },
    }
}

/// Appends the decimal digits of `n`.
fn push_digits(out: &mut String, n: u32)
    ensures
        final(out)@ == old(out)@ + decimal_digits(n as nat),
    decreases n,
{
    if n >= 10 {
        push_digits(out, n / 10);
    }
    out.append(digit_str(n % 10));
    assert(final(out)@ =~= old(out)@ + decimal_digits(n as nat)) by {
        if n >= 10 {
            assert(decimal_digits(n as nat) == decimal_digits((n / 10) as nat).push(digit_char((n % 10) as int)));
        }
    };
}

/// Appends the decimal notation of `v`.
fn push_decimal(out: &mut String, v: i16)
    ensures
        final(out)@ == old(out)@ + decimal(v as int),
{
    if v < 0 {
        proof {
            reveal_strlit("-");
        }
        out.append("-");
        let m: u32 = (-(v as i32)) as u32;
        push_digits(out, m);
        assert(final(out)@ =~= old(out)@ + decimal(v as int));
    } else {
        push_digits(out, v as u32);
    }
}

impl ApiError {
    /// Renders the error as its name followed by its code in parentheses,
    /// for example `CORRUPT_MESSAGE(2)`.
    pub fn to_display_string(self) -> (r: String)
        ensures
            r@ == spec_display(self),
    {
        let mut s = String::from_str(self.name());
        proof {
            reveal_strlit("(");
            reveal_strlit(")");
        }
        s.append("(");
        push_decimal(&mut s, self.code());
        s.append(")");
        assert(s@ =~= spec_display(self));
        s
    }
}

/// Every error's code is a known non-zero code between -1 and 133.
pub proof fn lemma_code_range(e: ApiError)
    ensures
        -1 <= spec_code(e) <= 133,
        spec_code(e) != 0,
{
}

/// Resolving the code of an error gives back that error.
pub proof fn lemma_from_code_of_code(e: ApiError)
    ensures
        spec_from_code(spec_code(e)) == Some(e),
{
}

/// Every known non-zero code resolves to an error that carries that code.
pub proof fn lemma_code_of_from_code(code: i16)
    requires
        -1 <= code <= 133,
        code != 0,
    ensures
        spec_from_code(code) is Some,
        spec_code(spec_from_code(code)->Some_0) == code,
{
}

/// No two errors share a code.
pub proof fn lemma_code_injective(a: ApiError, b: ApiError)
    requires
        spec_code(a) == spec_code(b),
    ensures
        a == b,
{
    lemma_from_code_of_code(a);
    lemma_from_code_of_code(b);
}

/// Codes outside the known range resolve to `UnknownServerError`, whose code is -1.
pub proof fn lemma_unknown_code_falls_back(code: i16)
    requires
        code < -1 || code > 133,
    ensures
        spec_from_code(code) == Some(ApiError::UnknownServerError),
        spec_code(ApiError::UnknownServerError) == -1,
{
}

/// The protocol's error table: every error with its wire code and its
/// canonical name.
pub proof fn lemma_error_table()
    ensures
        spec_code(ApiError::UnknownServerError) == -1i16 && spec_name(ApiError::UnknownServerError) == "UNKNOWN_SERVER_ERROR",
        spec_code(ApiError::OffsetOutOfRange) == 1 && spec_name(ApiError::OffsetOutOfRange) == "OFFSET_OUT_OF_RANGE",
        spec_code(ApiError::CorruptMessage) == 2 && spec_name(ApiError::CorruptMessage) == "CORRUPT_MESSAGE",
        spec_code(ApiError::UnknownTopicOrPartition) == 3 && spec_name(ApiError::UnknownTopicOrPartition) == "UNKNOWN_TOPIC_OR_PARTITION",
        spec_code(ApiError::InvalidFetchSize) == 4 && spec_name(ApiError::InvalidFetchSize) == "INVALID_FETCH_SIZE",
        spec_code(ApiError::LeaderNotAvailable) == 5 && spec_name(ApiError::LeaderNotAvailable) == "LEADER_NOT_AVAILABLE",
        spec_code(ApiError::NotLeaderOrFollower) == 6 && spec_name(ApiError::NotLeaderOrFollower) == "NOT_LEADER_OR_FOLLOWER",
        spec_code(ApiError::RequestTimedOut) == 7 && spec_name(ApiError::RequestTimedOut) == "REQUEST_TIMED_OUT",
        spec_code(ApiError::BrokerNotAvailable) == 8 && spec_name(ApiError::BrokerNotAvailable) == "BROKER_NOT_AVAILABLE",
        spec_code(ApiError::ReplicaNotAvailable) == 9 && spec_name(ApiError::ReplicaNotAvailable) == "REPLICA_NOT_AVAILABLE",
        spec_code(ApiError::MessageTooLarge) == 10 && spec_name(ApiError::MessageTooLarge) == "MESSAGE_TOO_LARGE",
        spec_code(ApiError::StaleControllerEpoch) == 11 && spec_name(ApiError::StaleControllerEpoch) == "STALE_CONTROLLER_EPOCH",
        spec_code(ApiError::OffsetMetadataTooLarge) == 12 && spec_name(ApiError::OffsetMetadataTooLarge) == "OFFSET_METADATA_TOO_LARGE",
        spec_code(ApiError::NetworkException) == 13 && spec_name(ApiError::NetworkException) == "NETWORK_EXCEPTION",
        spec_code(ApiError::CoordinatorLoadInProgress) == 14 && spec_name(ApiError::CoordinatorLoadInProgress) == "COORDINATOR_LOAD_IN_PROGRESS",
        spec_code(ApiError::CoordinatorNotAvailable) == 15 && spec_name(ApiError::CoordinatorNotAvailable) == "COORDINATOR_NOT_AVAILABLE",
        spec_code(ApiError::NotCoordinator) == 16 && spec_name(ApiError::NotCoordinator) == "NOT_COORDINATOR",
        spec_code(ApiError::InvalidTopicException) == 17 && spec_name(ApiError::InvalidTopicException) == "INVALID_TOPIC_EXCEPTION",
        spec_code(ApiError::RecordListTooLarge) == 18 && spec_name(ApiError::RecordListTooLarge) == "RECORD_LIST_TOO_LARGE",
        spec_code(ApiError::NotEnoughReplicas) == 19 && spec_name(ApiError::NotEnoughReplicas) == "NOT_ENOUGH_REPLICAS",
        spec_code(ApiError::NotEnoughReplicasAfterAppend) == 20 && spec_name(ApiError::NotEnoughReplicasAfterAppend) == "NOT_ENOUGH_REPLICAS_AFTER_APPEND",
        spec_code(ApiError::InvalidRequiredAcks) == 21 && spec_name(ApiError::InvalidRequiredAcks) == "INVALID_REQUIRED_ACKS",
        spec_code(ApiError::IllegalGeneration) == 22 && spec_name(ApiError::IllegalGeneration) == "ILLEGAL_GENERATION",
        spec_code(ApiError::InconsistentGroupProtocol) == 23 && spec_name(ApiError::InconsistentGroupProtocol) == "INCONSISTENT_GROUP_PROTOCOL",
        spec_code(ApiError::InvalidGroupId) == 24 && spec_name(ApiError::InvalidGroupId) == "INVALID_GROUP_ID",
        spec_code(ApiError::UnknownMemberId) == 25 && spec_name(ApiError::UnknownMemberId) == "UNKNOWN_MEMBER_ID",
        spec_code(ApiError::InvalidSessionTimeout) == 26 && spec_name(ApiError::InvalidSessionTimeout) == "INVALID_SESSION_TIMEOUT",
        spec_code(ApiError::RebalanceInProgress) == 27 && spec_name(ApiError::RebalanceInProgress) == "REBALANCE_IN_PROGRESS",
        spec_code(ApiError::InvalidCommitOffsetSize) == 28 && spec_name(ApiError::InvalidCommitOffsetSize) == "INVALID_COMMIT_OFFSET_SIZE",
        spec_code(ApiError::TopicAuthorizationFailed) == 29 && spec_name(ApiError::TopicAuthorizationFailed) == "TOPIC_AUTHORIZATION_FAILED",
        spec_code(ApiError::GroupAuthorizationFailed) == 30 && spec_name(ApiError::GroupAuthorizationFailed) == "GROUP_AUTHORIZATION_FAILED",
        spec_code(ApiError::ClusterAuthorizationFailed) == 31 && spec_name(ApiError::ClusterAuthorizationFailed) == "CLUSTER_AUTHORIZATION_FAILED",
        spec_code(ApiError::InvalidTimestamp) == 32 && spec_name(ApiError::InvalidTimestamp) == "INVALID_TIMESTAMP",
        spec_code(ApiError::UnsupportedSaslMechanism) == 33 && spec_name(ApiError::UnsupportedSaslMechanism) == "UNSUPPORTED_SASL_MECHANISM",
        spec_code(ApiError::IllegalSaslState) == 34 && spec_name(ApiError::IllegalSaslState) == "ILLEGAL_SASL_STATE",
        spec_code(ApiError::UnsupportedVersion) == 35 && spec_name(ApiError::UnsupportedVersion) == "UNSUPPORTED_VERSION",
        spec_code(ApiError::TopicAlreadyExists) == 36 && spec_name(ApiError::TopicAlreadyExists) == "TOPIC_ALREADY_EXISTS",
        spec_code(ApiError::InvalidPartitions) == 37 && spec_name(ApiError::InvalidPartitions) == "INVALID_PARTITIONS",
        spec_code(ApiError::InvalidReplicationFactor) == 38 && spec_name(ApiError::InvalidReplicationFactor) == "INVALID_REPLICATION_FACTOR",
        spec_code(ApiError::InvalidReplicaAssignment) == 39 && spec_name(ApiError::InvalidReplicaAssignment) == "INVALID_REPLICA_ASSIGNMENT",
        spec_code(ApiError::InvalidConfig) == 40 && spec_name(ApiError::InvalidConfig) == "INVALID_CONFIG",
        spec_code(ApiError::NotController) == 41 && spec_name(ApiError::NotController) == "NOT_CONTROLLER",
        spec_code(ApiError::InvalidRequest) == 42 && spec_name(ApiError::InvalidRequest) == "INVALID_REQUEST",
        spec_code(ApiError::UnsupportedForMessageFormat) == 43 && spec_name(ApiError::UnsupportedForMessageFormat) == "UNSUPPORTED_FOR_MESSAGE_FORMAT",
        spec_code(ApiError::PolicyViolation) == 44 && spec_name(ApiError::PolicyViolation) == "POLICY_VIOLATION",
        spec_code(ApiError::OutOfOrderSequenceNumber) == 45 && spec_name(ApiError::OutOfOrderSequenceNumber) == "OUT_OF_ORDER_SEQUENCE_NUMBER",
        spec_code(ApiError::DuplicateSequenceNumber) == 46 && spec_name(ApiError::DuplicateSequenceNumber) == "DUPLICATE_SEQUENCE_NUMBER",
        spec_code(ApiError::InvalidProducerEpoch) == 47 && spec_name(ApiError::InvalidProducerEpoch) == "INVALID_PRODUCER_EPOCH",
        spec_code(ApiError::InvalidTxnState) == 48 && spec_name(ApiError::InvalidTxnState) == "INVALID_TXN_STATE",
        spec_code(ApiError::InvalidProducerIdMapping) == 49 && spec_name(ApiError::InvalidProducerIdMapping) == "INVALID_PRODUCER_ID_MAPPING",
        spec_code(ApiError::InvalidTransactionTimeout) == 50 && spec_name(ApiError::InvalidTransactionTimeout) == "INVALID_TRANSACTION_TIMEOUT",
        spec_code(ApiError::ConcurrentTransactions) == 51 && spec_name(ApiError::ConcurrentTransactions) == "CONCURRENT_TRANSACTIONS",
        spec_code(ApiError::TransactionCoordinatorFenced) == 52 && spec_name(ApiError::TransactionCoordinatorFenced) == "TRANSACTION_COORDINATOR_FENCED",
        spec_code(ApiError::TransactionalIdAuthorizationFailed) == 53 && spec_name(ApiError::TransactionalIdAuthorizationFailed) == "TRANSACTIONAL_ID_AUTHORIZATION_FAILED",
        spec_code(ApiError::SecurityDisabled) == 54 && spec_name(ApiError::SecurityDisabled) == "SECURITY_DISABLED",
        spec_code(ApiError::OperationNotAttempted) == 55 && spec_name(ApiError::OperationNotAttempted) == "OPERATION_NOT_ATTEMPTED",
        spec_code(ApiError::KafkaStorageError) == 56 && spec_name(ApiError::KafkaStorageError) == "KAFKA_STORAGE_ERROR",
        spec_code(ApiError::LogDirNotFound) == 57 && spec_name(ApiError::LogDirNotFound) == "LOG_DIR_NOT_FOUND",
        spec_code(ApiError::SaslAuthenticationFailed) == 58 && spec_name(ApiError::SaslAuthenticationFailed) == "SASL_AUTHENTICATION_FAILED",
        spec_code(ApiError::UnknownProducerId) == 59 && spec_name(ApiError::UnknownProducerId) == "UNKNOWN_PRODUCER_ID",
        spec_code(ApiError::ReassignmentInProgress) == 60 && spec_name(ApiError::ReassignmentInProgress) == "REASSIGNMENT_IN_PROGRESS",
        spec_code(ApiError::DelegationTokenAuthDisabled) == 61 && spec_name(ApiError::DelegationTokenAuthDisabled) == "DELEGATION_TOKEN_AUTH_DISABLED",
        spec_code(ApiError::DelegationTokenNotFound) == 62 && spec_name(ApiError::DelegationTokenNotFound) == "DELEGATION_TOKEN_NOT_FOUND",
        spec_code(ApiError::DelegationTokenOwnerMismatch) == 63 && spec_name(ApiError::DelegationTokenOwnerMismatch) == "DELEGATION_TOKEN_OWNER_MISMATCH",
        spec_code(ApiError::DelegationTokenRequestNotAllowed) == 64 && spec_name(ApiError::DelegationTokenRequestNotAllowed) == "DELEGATION_TOKEN_REQUEST_NOT_ALLOWED",
        spec_code(ApiError::DelegationTokenAuthorizationFailed) == 65 && spec_name(ApiError::DelegationTokenAuthorizationFailed) == "DELEGATION_TOKEN_AUTHORIZATION_FAILED",
        spec_code(ApiError::DelegationTokenExpired) == 66 && spec_name(ApiError::DelegationTokenExpired) == "DELEGATION_TOKEN_EXPIRED",
        spec_code(ApiError::InvalidPrincipalType) == 67 && spec_name(ApiError::InvalidPrincipalType) == "INVALID_PRINCIPAL_TYPE",
        spec_code(ApiError::NonEmptyGroup) == 68 && spec_name(ApiError::NonEmptyGroup) == "NON_EMPTY_GROUP",
        spec_code(ApiError::GroupIdNotFound) == 69 && spec_name(ApiError::GroupIdNotFound) == "GROUP_ID_NOT_FOUND",
        spec_code(ApiError::FetchSessionIdNotFound) == 70 && spec_name(ApiError::FetchSessionIdNotFound) == "FETCH_SESSION_ID_NOT_FOUND",
        spec_code(ApiError::InvalidFetchSessionEpoch) == 71 && spec_name(ApiError::InvalidFetchSessionEpoch) == "INVALID_FETCH_SESSION_EPOCH",
        spec_code(ApiError::ListenerNotFound) == 72 && spec_name(ApiError::ListenerNotFound) == "LISTENER_NOT_FOUND",
        spec_code(ApiError::TopicDeletionDisabled) == 73 && spec_name(ApiError::TopicDeletionDisabled) == "TOPIC_DELETION_DISABLED",
        spec_code(ApiError::FencedLeaderEpoch) == 74 && spec_name(ApiError::FencedLeaderEpoch) == "FENCED_LEADER_EPOCH",
        spec_code(ApiError::UnknownLeaderEpoch) == 75 && spec_name(ApiError::UnknownLeaderEpoch) == "UNKNOWN_LEADER_EPOCH",
        spec_code(ApiError::UnsupportedCompressionType) == 76 && spec_name(ApiError::UnsupportedCompressionType) == "UNSUPPORTED_COMPRESSION_TYPE",
        spec_code(ApiError::StaleBrokerEpoch) == 77 && spec_name(ApiError::StaleBrokerEpoch) == "STALE_BROKER_EPOCH",
        spec_code(ApiError::OffsetNotAvailable) == 78 && spec_name(ApiError::OffsetNotAvailable) == "OFFSET_NOT_AVAILABLE",
        spec_code(ApiError::MemberIdRequired) == 79 && spec_name(ApiError::MemberIdRequired) == "MEMBER_ID_REQUIRED",
        spec_code(ApiError::PreferredLeaderNotAvailable) == 80 && spec_name(ApiError::PreferredLeaderNotAvailable) == "PREFERRED_LEADER_NOT_AVAILABLE",
        spec_code(ApiError::GroupMaxSizeReached) == 81 && spec_name(ApiError::GroupMaxSizeReached) == "GROUP_MAX_SIZE_REACHED",
        spec_code(ApiError::FencedInstanceId) == 82 && spec_name(ApiError::FencedInstanceId) == "FENCED_INSTANCE_ID",
        spec_code(ApiError::EligibleLeadersNotAvailable) == 83 && spec_name(ApiError::EligibleLeadersNotAvailable) == "ELIGIBLE_LEADERS_NOT_AVAILABLE",
        spec_code(ApiError::ElectionNotNeeded) == 84 && spec_name(ApiError::ElectionNotNeeded) == "ELECTION_NOT_NEEDED",
        spec_code(ApiError::NoReassignmentInProgress) == 85 && spec_name(ApiError::NoReassignmentInProgress) == "NO_REASSIGNMENT_IN_PROGRESS",
        spec_code(ApiError::GroupSubscribedToTopic) == 86 && spec_name(ApiError::GroupSubscribedToTopic) == "GROUP_SUBSCRIBED_TO_TOPIC",
        spec_code(ApiError::InvalidRecord) == 87 && spec_name(ApiError::InvalidRecord) == "INVALID_RECORD",
        spec_code(ApiError::UnstableOffsetCommit) == 88 && spec_name(ApiError::UnstableOffsetCommit) == "UNSTABLE_OFFSET_COMMIT",
        spec_code(ApiError::ThrottlingQuotaExceeded) == 89 && spec_name(ApiError::ThrottlingQuotaExceeded) == "THROTTLING_QUOTA_EXCEEDED",
        spec_code(ApiError::ProducerFenced) == 90 && spec_name(ApiError::ProducerFenced) == "PRODUCER_FENCED",
        spec_code(ApiError::ResourceNotFound) == 91 && spec_name(ApiError::ResourceNotFound) == "RESOURCE_NOT_FOUND",
        spec_code(ApiError::DuplicateResource) == 92 && spec_name(ApiError::DuplicateResource) == "DUPLICATE_RESOURCE",
        spec_code(ApiError::UnacceptableCredential) == 93 && spec_name(ApiError::UnacceptableCredential) == "UNACCEPTABLE_CREDENTIAL",
        spec_code(ApiError::InconsistentVoterSet) == 94 && spec_name(ApiError::InconsistentVoterSet) == "INCONSISTENT_VOTER_SET",
        spec_code(ApiError::InvalidUpdateVersion) == 95 && spec_name(ApiError::InvalidUpdateVersion) == "INVALID_UPDATE_VERSION",
        spec_code(ApiError::FeatureUpdateFailed) == 96 && spec_name(ApiError::FeatureUpdateFailed) == "FEATURE_UPDATE_FAILED",
        spec_code(ApiError::PrincipalDeserializationFailure) == 97 && spec_name(ApiError::PrincipalDeserializationFailure) == "PRINCIPAL_DESERIALIZATION_FAILURE",
        spec_code(ApiError::SnapshotNotFound) == 98 && spec_name(ApiError::SnapshotNotFound) == "SNAPSHOT_NOT_FOUND",
        spec_code(ApiError::PositionOutOfRange) == 99 && spec_name(ApiError::PositionOutOfRange) == "POSITION_OUT_OF_RANGE",
        spec_code(ApiError::UnknownTopicId) == 100 && spec_name(ApiError::UnknownTopicId) == "UNKNOWN_TOPIC_ID",
        spec_code(ApiError::DuplicateBrokerRegistration) == 101 && spec_name(ApiError::DuplicateBrokerRegistration) == "DUPLICATE_BROKER_REGISTRATION",
        spec_code(ApiError::BrokerIdNotRegistered) == 102 && spec_name(ApiError::BrokerIdNotRegistered) == "BROKER_ID_NOT_REGISTERED",
        spec_code(ApiError::InconsistentTopicId) == 103 && spec_name(ApiError::InconsistentTopicId) == "INCONSISTENT_TOPIC_ID",
        spec_code(ApiError::InconsistentClusterId) == 104 && spec_name(ApiError::InconsistentClusterId) == "INCONSISTENT_CLUSTER_ID",
        spec_code(ApiError::TransactionalIdNotFound) == 105 && spec_name(ApiError::TransactionalIdNotFound) == "TRANSACTIONAL_ID_NOT_FOUND",
        spec_code(ApiError::FetchSessionTopicIdError) == 106 && spec_name(ApiError::FetchSessionTopicIdError) == "FETCH_SESSION_TOPIC_ID_ERROR",
        spec_code(ApiError::IneligibleReplica) == 107 && spec_name(ApiError::IneligibleReplica) == "INELIGIBLE_REPLICA",
        spec_code(ApiError::NewLeaderElected) == 108 && spec_name(ApiError::NewLeaderElected) == "NEW_LEADER_ELECTED",
        spec_code(ApiError::OffsetMovedToTieredStorage) == 109 && spec_name(ApiError::OffsetMovedToTieredStorage) == "OFFSET_MOVED_TO_TIERED_STORAGE",
        spec_code(ApiError::FencedMemberEpoch) == 110 && spec_name(ApiError::FencedMemberEpoch) == "FENCED_MEMBER_EPOCH",
        spec_code(ApiError::UnreleasedInstanceId) == 111 && spec_name(ApiError::UnreleasedInstanceId) == "UNRELEASED_INSTANCE_ID",
        spec_code(ApiError::UnsupportedAssignor) == 112 && spec_name(ApiError::UnsupportedAssignor) == "UNSUPPORTED_ASSIGNOR",
        spec_code(ApiError::StaleMemberEpoch) == 113 && spec_name(ApiError::StaleMemberEpoch) == "STALE_MEMBER_EPOCH",
        spec_code(ApiError::MismatchedEndpointType) == 114 && spec_name(ApiError::MismatchedEndpointType) == "MISMATCHED_ENDPOINT_TYPE",
        spec_code(ApiError::UnsupportedEndpointType) == 115 && spec_name(ApiError::UnsupportedEndpointType) == "UNSUPPORTED_ENDPOINT_TYPE",
        spec_code(ApiError::UnknownControllerId) == 116 && spec_name(ApiError::UnknownControllerId) == "UNKNOWN_CONTROLLER_ID",
        spec_code(ApiError::UnknownSubscriptionId) == 117 && spec_name(ApiError::UnknownSubscriptionId) == "UNKNOWN_SUBSCRIPTION_ID",
        spec_code(ApiError::TelemetryTooLarge) == 118 && spec_name(ApiError::TelemetryTooLarge) == "TELEMETRY_TOO_LARGE",
        spec_code(ApiError::InvalidRegistration) == 119 && spec_name(ApiError::InvalidRegistration) == "INVALID_REGISTRATION",
        spec_code(ApiError::TransactionAbortable) == 120 && spec_name(ApiError::TransactionAbortable) == "TRANSACTION_ABORTABLE",
        spec_code(ApiError::InvalidRecordState) == 121 && spec_name(ApiError::InvalidRecordState) == "INVALID_RECORD_STATE",
        spec_code(ApiError::ShareSessionNotFound) == 122 && spec_name(ApiError::ShareSessionNotFound) == "SHARE_SESSION_NOT_FOUND",
        spec_code(ApiError::InvalidShareSessionEpoch) == 123 && spec_name(ApiError::InvalidShareSessionEpoch) == "INVALID_SHARE_SESSION_EPOCH",
        spec_code(ApiError::FencedStateEpoch) == 124 && spec_name(ApiError::FencedStateEpoch) == "FENCED_STATE_EPOCH",
        spec_code(ApiError::InvalidVoterKey) == 125 && spec_name(ApiError::InvalidVoterKey) == "INVALID_VOTER_KEY",
        spec_code(ApiError::DuplicateVoter) == 126 && spec_name(ApiError::DuplicateVoter) == "DUPLICATE_VOTER",
        spec_code(ApiError::VoterNotFound) == 127 && spec_name(ApiError::VoterNotFound) == "VOTER_NOT_FOUND",
        spec_code(ApiError::InvalidRegularExpression) == 128 && spec_name(ApiError::InvalidRegularExpression) == "INVALID_REGULAR_EXPRESSION",
        spec_code(ApiError::RebootstrapRequired) == 129 && spec_name(ApiError::RebootstrapRequired) == "REBOOTSTRAP_REQUIRED",
        spec_code(ApiError::StreamsInvalidTopology) == 130 && spec_name(ApiError::StreamsInvalidTopology) == "STREAMS_INVALID_TOPOLOGY",
        spec_code(ApiError::StreamsInvalidTopologyEpoch) == 131 && spec_name(ApiError::StreamsInvalidTopologyEpoch) == "STREAMS_INVALID_TOPOLOGY_EPOCH",
        spec_code(ApiError::StreamsTopologyFenced) == 132 && spec_name(ApiError::StreamsTopologyFenced) == "STREAMS_TOPOLOGY_FENCED",
        spec_code(ApiError::ShareSessionLimitReached) == 133 && spec_name(ApiError::ShareSessionLimitReached) == "SHARE_SESSION_LIMIT_REACHED",
{
}

/// The retriable errors are exactly those whose codes are listed here.
pub proof fn lemma_retriable_codes(e: ApiError)
    ensures
        spec_is_retriable(e) <==> (spec_code(e) == 2 || spec_code(e) == 3 || spec_code(e) == 5 || spec_code(e) == 6 || spec_code(e) == 7 || spec_code(e) == 9 || spec_code(e) == 13 || spec_code(e) == 14 || spec_code(e) == 15 || spec_code(e) == 16 || spec_code(e) == 19 || spec_code(e) == 20 || spec_code(e) == 41 || spec_code(e) == 56 || spec_code(e) == 70 || spec_code(e) == 71 || spec_code(e) == 72 || spec_code(e) == 74 || spec_code(e) == 75 || spec_code(e) == 78 || spec_code(e) == 80 || spec_code(e) == 83 || spec_code(e) == 84 || spec_code(e) == 88 || spec_code(e) == 89 || spec_code(e) == 100 || spec_code(e) == 103 || spec_code(e) == 106 || spec_code(e) == 122 || spec_code(e) == 123 || spec_code(e) == 133),
{
}

/// The number that a run of decimal digit characters stands for, the most
/// significant digit first.
pub open spec fn digits_value(s: Seq<char>) -> int
    decreases s.len(),
{
    if s.len() == 0 {
        0
    } else {
        digits_value(s.drop_last()) * 10 + (s.last() as int - '0' as int)
    }
}

proof fn lemma_digit_char_value(d: int)
    requires
        0 <= d <= 9,
    ensures
        digit_char(d) as int - '0' as int == d,
        '0' <= digit_char(d) <= '9',
{
    assert('0' as int == 48 && '1' as int == 49 && '2' as int == 50 && '3' as int == 51 && '4' as int == 52);
    assert('5' as int == 53 && '6' as int == 54 && '7' as int == 55 && '8' as int == 56 && '9' as int == 57);
}

/// The decimal notation of a number is made of the characters '0' to '9'
/// and stands for that number.
pub proof fn lemma_decimal_digits_value(n: nat)
    ensures
        decimal_digits(n).len() >= 1,
        forall|i: int| 0 <= i < decimal_digits(n).len() ==> '0' <= #[trigger] decimal_digits(n)[i] <= '9',
        digits_value(decimal_digits(n)) == n,
    decreases n,
{
    let d = decimal_digits(n);
    if n < 10 {
        assert(d.drop_last() =~= Seq::<char>::empty());
        assert(d.last() == digit_char(n as int));
        lemma_digit_char_value(n as int);
        assert(digits_value(d.drop_last()) == 0);
        assert(digits_value(d) == digits_value(d.drop_last()) * 10 + (d.last() as int - '0' as int));
    } else {
        let q = n / 10;
        let r = n % 10;
        lemma_decimal_digits_value(q);
        assert(d.drop_last() =~= decimal_digits(q));
        assert(d.last() == digit_char(r as int));
        lemma_digit_char_value(r as int);
        assert(n == q * 10 + r);
        assert(digits_value(d) == digits_value(d.drop_last()) * 10 + (d.last() as int - '0' as int));
        assert forall|i: int| 0 <= i < d.len() implies '0' <= #[trigger] d[i] <= '9' by {
            if i < d.len() - 1 {
                assert(d[i] == decimal_digits(q)[i]);
            }
        }
    }
}

} // verus!
