pub mod add_offsets_to_txn_request;
pub mod add_partitions_to_txn_request;
pub mod add_partitions_to_txn_response;
pub mod add_raft_voter_request;
pub mod allocate_producer_ids_request;
pub mod alter_client_quotas_request;
pub mod alter_client_quotas_response;
pub mod alter_configs_request;
pub mod alter_configs_response;
pub mod alter_partition_reassignments_request;
pub mod alter_partition_request;
pub mod alter_replica_log_dirs_request;
pub mod api_versions_request;
pub mod api_versions_response;
pub mod begin_quorum_epoch_request;
pub mod begin_quorum_epoch_response;
pub mod broker_heartbeat_request;
pub mod broker_registration_request;
pub mod consumer_group_describe_response;
pub mod consumer_protocol_assignment;
pub mod consumer_protocol_subscription;
pub mod controlled_shutdown_request;
pub mod controlled_shutdown_response;
pub mod controller_registration_request;
pub mod create_acls_request;
pub mod create_delegation_token_request;
pub mod create_delegation_token_response;
pub mod create_partitions_request;
pub mod create_topics_request;
pub mod create_topics_response;
pub mod default_principal_data;
pub mod delete_acls_request;
pub mod delete_topics_request;
pub mod delete_topics_response;
pub mod describe_acls_request;
pub mod describe_acls_response;
pub mod describe_client_quotas_request;
pub mod describe_client_quotas_response;
pub mod describe_cluster_request;
pub mod describe_cluster_response;
pub mod describe_configs_request;
pub mod describe_configs_response;
pub mod describe_delegation_token_request;
pub mod describe_delegation_token_response;
pub mod describe_groups_request;
pub mod describe_groups_response;
pub mod describe_log_dirs_request;
pub mod describe_log_dirs_response;
pub mod describe_producers_response;
pub mod describe_quorum_request;
pub mod describe_quorum_response;
pub mod describe_share_group_offsets_request;
pub mod describe_topic_partitions_request;
pub mod describe_topic_partitions_response;
pub mod describe_transactions_response;
pub mod describe_user_scram_credentials_request;
pub mod elect_leaders_request;
pub mod elect_leaders_response;
