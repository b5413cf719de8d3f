//! The parameter records of the schematic queries: what a caller must
//! supply to each lookup. The `app` field names the application manifest
//! to resolve (a path, resolved by the host); the remaining fields name
//! the entity the query is about.

use vstd::prelude::*;

verus! {

/// Parameters of "list devices with status".
#[derive(Debug, PartialEq, Eq)]
pub struct ListDevicesRequest {
    /// Path to the app to list devices for.
    pub app: String,
}

/// Parameters of "list pins used by a device".
#[derive(Debug, PartialEq, Eq)]
pub struct ListPinsUsedByDeviceRequest {
    /// Path to the app to list pins for.
    pub app: String,
    /// Name of the device to list pins for.
    pub device: String,
}

/// Parameters of "find device using pin".
#[derive(Debug, PartialEq, Eq)]
pub struct FindDeviceUsingPinRequest {
    /// Path to the app.
    pub app: String,
    /// Name of the pin to find devices for.
    pub pin: String,
}

/// Parameters of "list peripherals".
#[derive(Debug, PartialEq, Eq)]
pub struct ListPeripheralsRequest {
    /// Path to the app to list peripherals for.
    pub app: String,
}

/// Parameters of "list pins for a peripheral".
#[derive(Debug, PartialEq, Eq)]
pub struct ListPeripheralPinsRequest {
    /// Path to the app to list peripherals for.
    pub app: String,
    /// Name of the peripheral to list pins for.
    pub peripheral: String,
}

/// Parameters of "find peripheral using pin".
#[derive(Debug, PartialEq, Eq)]
pub struct FindPeripheralUsingPinRequest {
    /// Path to the app to find peripherals for.
    pub app: String,
    /// Name of the pin to find peripherals for.
    pub pin: String,
}

/// Parameters of "list exposed pins".
#[derive(Debug, PartialEq, Eq)]
pub struct ListExposesRequest {
    /// Path to the app to list exposes for.
    pub app: String,
}

} // verus!
