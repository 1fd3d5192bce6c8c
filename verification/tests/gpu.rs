use duckle::gpu::{
    driver_text, hash_records_cpu, plan_dispatch, workgroups, Dispatch, GpuInfo, WORKGROUP,
};

fn info(device_type: &str, max_buffer_bytes: u64, max_workgroups_per_dim: u32) -> GpuInfo {
    GpuInfo {
        name: "card".to_string(),
        backend: "Vulkan".to_string(),
        device_type: device_type.to_string(),
        driver: "d 1".to_string(),
        max_buffer_bytes,
        max_workgroups_per_dim,
    }
}

#[test]
fn the_cpu_reference_is_stable_and_per_record() {
    // Two identical records must hash identically, and a one-bit change must
    // not.
    let a = hash_records_cpu(&[1, 2, 3, 4, 1, 2, 3, 4], 4);
    assert_eq!(a.len(), 2);
    assert_eq!(a[0], a[1]);
    let b = hash_records_cpu(&[1, 2, 3, 5], 4);
    assert_ne!(a[0], b[0]);
}

#[test]
fn a_zero_width_record_yields_nothing_rather_than_dividing_by_zero() {
    assert!(hash_records_cpu(&[1, 2, 3], 0).is_empty());
}

#[test]
fn a_hash_is_fnv_over_the_bytes() {
    let words: [u32; 3] = [7, 0xdead_beef, 42];
    let mut h: u32 = 2166136261;
    for w in words {
        for b in w.to_le_bytes() {
            h = (h ^ b as u32).wrapping_mul(16777619);
        }
    }
    assert_eq!(hash_records_cpu(&words, 3), vec![h]);
    // What does not fill a record is left out.
    assert_eq!(hash_records_cpu(&[7, 0xdead_beef, 42, 9], 3), vec![h]);
}

#[test]
fn a_dispatch_fits_the_device() {
    let card = info("DiscreteGpu", 1 << 20, 65_535);
    assert!(card.is_discrete());
    assert!(!info("IntegratedGpu", 1, 1).is_discrete());
    assert!(matches!(plan_dispatch(&card, 0, 4), Ok(Dispatch::Nothing)));
    assert!(matches!(plan_dispatch(&card, 64, 4), Ok(Dispatch::Records(16))));
    assert!(plan_dispatch(&card, 5, 4).is_err());
    assert!(plan_dispatch(&info("Cpu", 16, 1), 1024, 4).is_err());
    assert_eq!(workgroups(0), 0);
    assert_eq!(workgroups(WORKGROUP), 1);
    assert_eq!(workgroups(WORKGROUP + 1), 2);
}

#[test]
fn the_driver_is_named_with_its_version() {
    assert_eq!(driver_text("NVIDIA", "550.1"), "NVIDIA 550.1");
}

#[test]
fn buffers_put_together_hash_as_they_do_apart() {
    let a = [1, 2, 3, 4];
    let b = [5, 6, 7, 8, 9];
    let mut all = hash_records_cpu(&a, 2);
    all.extend(hash_records_cpu(&b, 2));
    assert_eq!(hash_records_cpu(&[1, 2, 3, 4, 5, 6, 7, 8, 9], 2), all);
    assert_eq!(all.len(), 4);
}
