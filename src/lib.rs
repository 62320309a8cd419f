//! Reading load balancer access logs: each line is split into its fields, the fields become
//! a record, and the records for which the target sent back no status code are kept. Files
//! are shared out among workers in contiguous batches, and the results of the batches are
//! put together.

pub mod partition;
pub mod pipeline;
pub mod record;
pub mod tokenizer;
