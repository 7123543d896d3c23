use aether_render::device_status::{
    fault_from_device_lost, fault_from_uncaptured_error, record_first, DeviceFault,
    DeviceFaultKind, DeviceLostReason, DeviceStatus, UncapturedError,
};

fn fault(kind: DeviceFaultKind, detail: &str) -> DeviceFault {
    DeviceFault::new(kind, detail.to_string())
}

#[test]
fn starts_unfaulted() {
    let status = DeviceStatus::new();
    assert!(!status.is_faulted());
    assert_eq!(status.fault(), None);
}

#[test]
fn records_a_fault() {
    let status = DeviceStatus::new();
    assert!(status.record(fault(DeviceFaultKind::Lost, "gone")));
    assert!(status.is_faulted());
    assert_eq!(status.fault(), Some(fault(DeviceFaultKind::Lost, "gone")));
}

#[test]
fn keeps_the_first_fault_and_rejects_later_ones() {
    let status = DeviceStatus::new();
    assert!(status.record(fault(DeviceFaultKind::Lost, "first")));
    assert!(!status.record(fault(DeviceFaultKind::Validation, "second")));
    assert_eq!(status.fault(), Some(fault(DeviceFaultKind::Lost, "first")));
}

#[test]
fn clones_share_state() {
    let status = DeviceStatus::new();
    let clone = status.clone();
    clone.record(fault(DeviceFaultKind::Internal, "boom"));
    assert!(status.is_faulted());
}

#[test]
fn classifies_validation_errors() {
    let error = UncapturedError::Validation {
        description: "Texture with '' label is invalid".to_owned(),
    };
    assert_eq!(
        fault_from_uncaptured_error(&error),
        fault(DeviceFaultKind::Validation, "Texture with '' label is invalid")
    );
}

#[test]
fn classifies_out_of_memory_errors() {
    let error = UncapturedError::OutOfMemory {
        message: "Out of Memory".to_owned(),
    };
    assert_eq!(
        fault_from_uncaptured_error(&error).kind,
        DeviceFaultKind::OutOfMemory
    );
}

#[test]
fn classifies_internal_errors() {
    let error = UncapturedError::Internal {
        description: "driver said no".to_owned(),
    };
    assert_eq!(
        fault_from_uncaptured_error(&error),
        fault(DeviceFaultKind::Internal, "driver said no")
    );
}

#[test]
fn device_destroyed_is_not_a_fault() {
    assert_eq!(
        fault_from_device_lost(DeviceLostReason::Destroyed, "shutting down"),
        None
    );
}

#[test]
fn unknown_device_loss_is_a_fault() {
    assert_eq!(
        fault_from_device_lost(DeviceLostReason::Unknown, "driver reset"),
        Some(fault(DeviceFaultKind::Lost, "driver reset"))
    );
}

#[test]
fn an_empty_slot_takes_the_fault_and_a_full_one_keeps_its_own() {
    let (slot, recorded) = record_first(None, fault(DeviceFaultKind::Lost, "a"));
    assert!(recorded);
    let (slot, recorded) = record_first(slot, fault(DeviceFaultKind::Internal, "b"));
    assert!(!recorded);
    assert_eq!(slot, Some(fault(DeviceFaultKind::Lost, "a")));
}

#[test]
fn every_fault_kind_has_a_summary() {
    assert_eq!(
        DeviceFaultKind::Lost.summary(),
        "The graphics device was lost"
    );
    assert_eq!(
        DeviceFaultKind::OutOfMemory.summary(),
        "The graphics device ran out of memory"
    );
    assert_eq!(
        DeviceFaultKind::Validation.summary(),
        "The graphics device reported a validation error"
    );
    assert_eq!(
        DeviceFaultKind::Internal.summary(),
        "The graphics driver reported an internal error"
    );
}
