//! The bus daemon's decisions: match rules, policy, activation, the
//! launch helper, name ownership and statistics.

pub mod activation;
pub mod apparmor;
pub mod bus;
pub mod connection;
pub mod dispatch;
pub mod driver;
pub mod identity;
pub mod launch_helper;
pub mod match_rules;
pub mod policy;
pub mod registry;
pub mod startup;
pub mod stats;
