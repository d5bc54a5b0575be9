//! Policy-related extensions: `PolicyConstraints` (id 28),
//! `CertificatePolicies` (id 6), and `PolicyMappings` (id 27).
pub mod certificate_policies;
pub mod policy_constraints;
pub mod policy_mappings;
