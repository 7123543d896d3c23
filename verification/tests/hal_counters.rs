use aether_render::hal_counters::{format_hal_counters, HalCounters};

#[test]
fn the_report_names_every_resource_class_and_its_memory() {
    let mut hal = HalCounters::default();
    hal.textures += 28_504;
    hal.bind_groups += 29_240;
    hal.buffers += 21_410;
    hal.memory_allocations += 4_096;
    hal.texture_memory += 7 * 1_048_576;

    let report = format_hal_counters(&hal);

    assert!(report.contains("textures             28504"), "{report}");
    assert!(report.contains("bind groups          29240"), "{report}");
    assert!(report.contains("buffers              21410"), "{report}");
    assert!(
        report.contains("memory allocations   4096"),
        "driver allocation count is the suspected cap: {report}"
    );
    assert!(report.contains("7.0 MB"), "{report}");
}

#[test]
fn a_healthy_device_reports_zeros_rather_than_nothing() {
    let report = format_hal_counters(&HalCounters::default());

    assert!(report.contains("textures             0"), "{report}");
    assert!(report.contains("memory allocations   0"), "{report}");
}

#[test]
fn the_counter_report_is_laid_out_exactly() {
    let hal = HalCounters {
        textures: 1,
        texture_views: 2,
        buffers: 3,
        bind_groups: 4,
        bind_group_layouts: 5,
        samplers: 6,
        render_pipelines: 7,
        compute_pipelines: 8,
        pipeline_layouts: 9,
        shader_modules: 10,
        command_encoders: 11,
        query_sets: 12,
        fences: 13,
        memory_allocations: 14,
        texture_memory: 1_572_864,
        buffer_memory: -1_048_576,
    };

    assert_eq!(
        format_hal_counters(&hal),
        "live GPU objects:\n\
         \x20 textures             1\n\
         \x20 texture views        2\n\
         \x20 buffers              3\n\
         \x20 bind groups          4\n\
         \x20 bind group layouts   5\n\
         \x20 samplers             6\n\
         \x20 render pipelines     7\n\
         \x20 compute pipelines    8\n\
         \x20 pipeline layouts     9\n\
         \x20 shader modules       10\n\
         \x20 command encoders     11\n\
         \x20 query sets           12\n\
         \x20 fences               13\n\
         \x20 memory allocations   14\n\
         \n\
         GPU memory attributed by wgpu-hal:\n\
         \x20 textures             1.5 MB\n\
         \x20 buffers              -1.0 MB\n"
    );
}

#[test]
fn a_negative_count_keeps_its_sign() {
    let hal = HalCounters {
        fences: -3,
        ..Default::default()
    };
    assert!(format_hal_counters(&hal).contains("  fences               -3\n"));
}
