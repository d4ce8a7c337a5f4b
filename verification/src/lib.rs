//! PoAW-X consensus rules, wire codecs and helpers of the Irium node, with
//! their behaviour stated as Verus contracts.
pub mod text;
pub mod wire;
pub mod digest;
pub mod activation;
pub mod poawx_activation_schedule;
pub mod poawx_proposer;
pub mod proposer_registry;
pub mod poawx_reward;
pub mod poawx_adaptive;
pub mod codec;
pub mod stratum_block;
pub mod byte_order;
pub mod stratum_receipts;
pub mod nat_pmp;
pub mod poawx_admission;
pub mod poawx_doublesign;
pub mod splitmix;
pub mod poawx_fairness;
pub mod poawx_miner_client;
pub mod role_worker;
pub mod explorer_indexer;
pub mod proposer_pool;
pub mod poawx_sim;
pub mod poawx_scenarios;
pub mod pool_upstream;
pub mod log_text;
pub mod committee_miner;
pub mod candidacy;
