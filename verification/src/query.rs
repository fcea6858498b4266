//! Requests that the user interface sends to the backend.

use vstd::prelude::*;

verus! {

/// A request to the backend.
///
/// The replies to `GetDataBase`, `GetSerialPort` and `GetAppState` go back
/// over channels that the application owns; here they carry no handle.
pub enum Query {
    /// Open the serial port of the given name.
    OpenPort(String),
    /// Close the open serial port.
    ClosePort,
    /// Frame the given packet and write it to the serial port.
    SendData(Vec<u8>),
    /// Hand out the shared sensor database.
    GetDataBase,
    /// List the names of the serial ports available.
    GetSerialPort,
    /// Report the backend's state.
    GetAppState,
    /// Stop the backend.
    Quit,
}

} // verus!
