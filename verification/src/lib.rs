//! Execution and checkpoint substrate of a change-data-capture dataflow
//! engine: a per-node transactional state writer, the channel forwarding
//! protocol between nodes, and the epoch-based barrier synchronization that
//! gives a DAG of independent sources crash-resumable, exactly-once
//! checkpoints.

pub mod bytes;
pub mod channel;
pub mod codec;
pub mod ddl;
pub mod epoch;
pub mod manager;
pub mod state_writer;
pub mod storage;
pub mod types;

pub use bytes::u64_to_be_bytes;
pub use bytes::u64_from_be_bytes;
pub use types::Database;
pub use types::Epoch;
pub use types::ExecutionError;
pub use types::ExecutorOperation;
pub use types::Field;
pub use types::FieldDefinition;
pub use types::FieldType;
pub use types::NodeHandle;
pub use types::Operation;
pub use types::PortHandle;
pub use types::PrimaryKeyAction;
pub use types::Record;
pub use types::Schema;
pub use types::StateOptions;
pub use storage::Table;
pub use storage::Transaction;
pub use state_writer::StateWriter;
pub use epoch::ClosedEpoch;
pub use epoch::EpochManager;
pub use epoch::SharedEpochManager;
pub use channel::OpSender;
pub use manager::ChannelManager;
pub use manager::ProcessorChannelManager;
pub use manager::SourceChannelManager;
pub use ddl::ClickhouseTableOptions;
pub use ddl::get_create_table_query;
pub use ddl::map_field_to_type;
pub use state_writer::SOURCE_ID_IDENTIFIER;
pub use state_writer::decode_checkpoint_value;
