//! Tracks fatal GPU faults so the renderer can report and shut down cleanly.
use std::sync::Arc;
use vstd::prelude::*;
use vstd::rwlock::{RwLock, RwLockPredicate};
use vstd::string::*;

verus! {

/// What kind of fault took the device down.
#[derive(Clone, Copy, Debug, Eq, PartialEq, Structural)]
pub enum DeviceFaultKind {
    /// The device was lost: driver reset, TDR, or GPU removal.
    Lost,
    /// An uncaptured validation error.
    Validation,
    /// The device ran out of memory.
    OutOfMemory,
    /// An internal error in the graphics driver or library.
    Internal,
}

impl DeviceFaultKind {
    /// A short, user-facing description of what went wrong.
    pub fn summary(self) -> (r: &'static str)
        ensures
            r@ == self.summary_spec(),
    {
        match self {
            DeviceFaultKind::Lost => "The graphics device was lost",
            DeviceFaultKind::Validation => "The graphics device reported a validation error",
            DeviceFaultKind::OutOfMemory => "The graphics device ran out of memory",
            DeviceFaultKind::Internal => "The graphics driver reported an internal error",
        }
    }

    pub open spec fn summary_spec(self) -> Seq<char> {
        match self {
            DeviceFaultKind::Lost => "The graphics device was lost"@,
            DeviceFaultKind::Validation => "The graphics device reported a validation error"@,
            DeviceFaultKind::OutOfMemory => "The graphics device ran out of memory"@,
            DeviceFaultKind::Internal => "The graphics driver reported an internal error"@,
        }
    }
}

/// The first fatal fault observed on a device, with whatever detail was given.
#[derive(Clone, Debug, Eq, PartialEq)]
pub struct DeviceFault {
    pub kind: DeviceFaultKind,
    pub detail: String,
}

impl DeviceFault {
    pub fn new(kind: DeviceFaultKind, detail: String) -> (r: DeviceFault)
        ensures
            r.kind == kind,
            r.detail@ == detail@,
    {
        DeviceFault { kind, detail }
    }
}

/// Why a device reported itself lost.
#[derive(Clone, Copy, Debug, Eq, PartialEq, Structural)]
pub enum DeviceLostReason {
    /// The device was lost for a reason the driver did not name.
    Unknown,
    /// The device was destroyed on purpose, as at shutdown.
    Destroyed,
}

/// An error nothing captured, as the graphics library classifies it.
#[derive(Clone, Debug, Eq, PartialEq)]
pub enum UncapturedError {
    /// Out of memory, with the error's full message.
    OutOfMemory { message: String },
    /// A validation error and its description.
    Validation { description: String },
    /// An internal error and its description.
    Internal { description: String },
}

/// Classify an uncaptured error into the fault to record: out of memory keeps the error's
/// message, validation and internal errors keep their description.
pub fn fault_from_uncaptured_error(error: &UncapturedError) -> (r: DeviceFault)
    ensures
        match error {
            UncapturedError::OutOfMemory { message } => r.kind == DeviceFaultKind::OutOfMemory
                && r.detail@ == message@,
            UncapturedError::Validation { description } => r.kind == DeviceFaultKind::Validation
                && r.detail@ == description@,
            UncapturedError::Internal { description } => r.kind == DeviceFaultKind::Internal
                && r.detail@ == description@,
        },
{
    match error {
        UncapturedError::OutOfMemory { message } => DeviceFault::new(
            DeviceFaultKind::OutOfMemory,
            message.clone(),
        ),
        UncapturedError::Validation { description } => DeviceFault::new(
            DeviceFaultKind::Validation,
            description.clone(),
        ),
        UncapturedError::Internal { description } => DeviceFault::new(
            DeviceFaultKind::Internal,
            description.clone(),
        ),
    }
}

/// Classify a device-lost notification: a deliberate destroy is not a fault, anything else is
/// a lost device carrying the given detail.
pub fn fault_from_device_lost(reason: DeviceLostReason, detail: &str) -> (r: Option<DeviceFault>)
    ensures
        reason == DeviceLostReason::Destroyed ==> r is None,
        reason == DeviceLostReason::Unknown ==> r is Some && r->0.kind == DeviceFaultKind::Lost
            && r->0.detail@ == detail@,
{
    match reason {
        DeviceLostReason::Destroyed => None,
        DeviceLostReason::Unknown => Some(DeviceFault::new(DeviceFaultKind::Lost, detail.to_owned())),
    }
}

/// Record `fault` into `slot` unless a fault is already there. Returns the new slot and whether
/// this fault was the one recorded.
pub fn record_first(slot: Option<DeviceFault>, fault: DeviceFault) -> (r: (
    Option<DeviceFault>,
    bool,
))
    ensures
        r.1 == (slot is None),
        slot is None ==> r.0 == Some(fault),
        slot is Some ==> r.0 == slot,
{
    match slot {
        Some(existing) => (Some(existing), false),
        None => (Some(fault), true),
    }
}

/// Every value may sit in the fault slot.
pub struct AnyFault;

impl RwLockPredicate<Option<DeviceFault>> for AnyFault {
    open spec fn inv(self, v: Option<DeviceFault>) -> bool {
        true
    }
}

/// Shared, cheaply-cloneable record of whether the GPU device is still usable. Clones share one
/// fault slot.
#[derive(Clone)]
pub struct DeviceStatus {
    inner: Arc<RwLock<Option<DeviceFault>, AnyFault>>,
}

impl DeviceStatus {
    pub fn new() -> (r: DeviceStatus) {
        DeviceStatus { inner: Arc::new(RwLock::new(None, Ghost(AnyFault))) }
    }

    /// Whether the device has suffered a fault and must no longer be used.
    pub fn is_faulted(&self) -> (r: bool) {
        let handle = self.inner.acquire_read();
        let faulted = handle.borrow().is_some();
        handle.release_read();
        faulted
    }

    /// Record a fault. Only the first one sticks; returns `true` if this call recorded it.
    pub fn record(&self, fault: DeviceFault) -> (r: bool) {
        let (slot, handle) = self.inner.acquire_write();
        let (slot, recorded) = record_first(slot, fault);
        handle.release_write(slot);
        recorded
    }

    /// The first fault recorded, if any.
    pub fn fault(&self) -> (r: Option<DeviceFault>) {
        let handle = self.inner.acquire_read();
        let fault = handle.borrow().clone();
        handle.release_read();
        fault
    }
}

} // verus!
