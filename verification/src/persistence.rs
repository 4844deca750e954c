//! The store: tables of rows, one repository for each kind of entity and of
//! association, and the manager that resolves what a principal may do.

pub mod audit_record_repository;
pub mod claim_claimable_repository;
pub mod claim_repository;
pub mod group_principal_repository;
pub mod group_repository;
pub mod inheritance;
pub mod license_policy_repository;
pub mod manager;
pub mod models;
pub mod org_repository;
pub mod principal_repository;
pub mod realm_repository;
pub mod resolution;
pub mod resource_instance_repository;
pub mod resource_quota_repository;
pub mod resource_repository;
pub mod role_repository;
pub mod role_roleable_repository;
pub mod table;
