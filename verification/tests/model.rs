use machine_info::model::{
    list_cameras, Camera, Disk, DiskUsage, GraphicCard, GraphicsBrand, GraphicsProcessUtilization,
    GraphicsUsage, NvidiaInfo, Processor, StorageKind, SystemInfo, SystemStatus,
};

#[test]
fn storage_kinds_have_their_labels() {
    assert_eq!(StorageKind::Hdd.label(), "HDD");
    assert_eq!(StorageKind::Ssd.label(), "SSD");
    assert_eq!(StorageKind::Unknown.label(), "Unknown");
}

#[test]
fn graphics_brands_have_their_labels() {
    assert_eq!(GraphicsBrand::GeForce.label(), "GeForce");
    assert_eq!(GraphicsBrand::Quadro.label(), "Quadro");
    assert_eq!(GraphicsBrand::Tesla.label(), "Tesla");
    assert_eq!(GraphicsBrand::Titan.label(), "Titan");
    assert_eq!(GraphicsBrand::Nvs.label(), "NVS");
    assert_eq!(GraphicsBrand::Grid.label(), "GRID");
    assert_eq!(GraphicsBrand::Unknown.label(), "Unknown");
}

#[test]
fn system_status_holds_figures_that_fit() {
    assert_eq!(SystemStatus::new(60, 630000), Some(SystemStatus { memory: 630000, cpu: 60 }));
    assert_eq!(
        SystemStatus::new(-2147483648, 2147483647),
        Some(SystemStatus { memory: i32::MAX, cpu: i32::MIN })
    );
    assert_eq!(SystemStatus::new(2147483648, 0), None);
    assert_eq!(SystemStatus::new(0, 2147483648), None);
    assert_eq!(SystemStatus::new(-2147483649, 0), None);
    assert_eq!(SystemStatus::new(0, -2147483649), None);
}

#[test]
fn system_info_holds_the_parts_of_a_machine() {
    let info = SystemInfo {
        os_name: "Linux".to_string(),
        kernel_version: "6.1".to_string(),
        os_version: "12".to_string(),
        distribution: "debian".to_string(),
        hostname: "box".to_string(),
        memory: 16,
        processor: Processor { frequency: 3000, vendor: "v".to_string(), brand: "b".to_string() },
        total_processors: 8,
        graphics: vec![GraphicCard {
            id: "GPU-0".to_string(),
            name: "card".to_string(),
            brand: GraphicsBrand::Tesla.label(),
            memory: 1,
            temperature: 40,
        }],
        disks: vec![Disk {
            name: "sda".to_string(),
            fs: "ext4".to_string(),
            storage_type: StorageKind::Ssd.label(),
            mount_point: "/".to_string(),
            available: 1,
            size: 2,
        }],
        cameras: vec![Camera { name: "cam".to_string(), path: "/dev/video0".to_string() }],
        nvidia: Some(NvidiaInfo {
            driver_version: "1".to_string(),
            nvml_version: "2".to_string(),
            cuda_version: 3,
        }),
        vaapi: false,
        model: None,
    };
    assert_eq!(info.clone(), info);
    assert_eq!(info.disks[0].storage_type, "SSD");
    assert_eq!(info.graphics[0].brand, "Tesla");
}

#[test]
fn graphics_usage_lists_its_processes() {
    let usage = GraphicsUsage {
        id: "GPU-0".to_string(),
        memory_usage: 1,
        memory_used: 2,
        encoder: 3,
        decoder: 4,
        gpu: 5,
        temperature: 6,
        processes: vec![GraphicsProcessUtilization { pid: 1, gpu: 2, memory: 3, encoder: 4, decoder: 5 }],
    };
    assert_eq!(usage.processes.len(), 1);
    assert_eq!(usage.processes[0].pid, 1);
    let disk = DiskUsage { name: "sda".to_string(), used: 1, total: 2 };
    assert_eq!(disk.clone(), disk);
}

#[test]
fn no_camera_is_listed_without_a_device_library() {
    assert_eq!(list_cameras(), Vec::<Camera>::new());
}
