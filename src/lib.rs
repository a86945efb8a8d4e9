//! Supervision of per-workspace worker processes: port leases, the session
//! registry, command correlation and event routing.

pub mod dependencies;
pub mod error;
pub mod events;
pub mod gateway;
pub mod launch;
pub mod ports;
pub mod sessions;
pub mod table;
pub mod windows;

pub use dependencies::{DependencyChecker, InstallPlan};
pub use error::OrchestratorError;
pub use events::{EventBus, EventScope};
pub use gateway::{reply_outcome, CommandGateway, Reply};
pub use launch::{find_executable, runtime_candidates, worker_args};
pub use ports::{PortAllocator, PortStep, PORT_BASE, PORT_LIMIT};
pub use sessions::{SidecarManager, SidecarRecord, VaultInfo};
pub use table::LabelTable;
pub use windows::WindowManager;
