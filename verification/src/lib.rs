//! A pinentry for DankMaterialShell: the Assuan protocol side (command
//! reading, dialog state, replies), the decisions of the bridge to the DMS
//! plugin, and the pinentry's command loop, each with its contract.
pub mod assuan;
pub mod ipc;
pub mod percent;
pub mod session;
pub mod text;
