//! What is reported of a machine: its parts, and how busy they are.

use vstd::prelude::*;

verus! {

/// How full a disk is.
#[derive(Clone, Debug, PartialEq, Eq)]
pub struct DiskUsage {
    /// Name of the disk
    pub name: String,
    /// Total bytes used
    pub used: u64,
    /// Total disk capacity
    pub total: u64,
}

/// Graphic card usage by process
#[derive(Clone, Copy, Debug, PartialEq, Eq, Structural)]
pub struct GraphicsProcessUtilization {
    /// Process identificator
    pub pid: u32,
    /// Gpu identificator
    pub gpu: u32,
    /// Memory usage
    pub memory: u32,
    /// Gpu encoder utilization as percentage
    pub encoder: u32,
    /// Gpu decoder utilization as percentage
    pub decoder: u32,
}

/// Graphic card usage summary
#[derive(Clone, Debug, PartialEq, Eq)]
pub struct GraphicsUsage {
    /// Graphic card id
    pub id: String,
    /// Memory utilization as percentage
    pub memory_usage: u32,
    /// Memory usage as bytes
    pub memory_used: u64,
    /// Gpu encoder utilization as percentage
    pub encoder: u32,
    /// Gpu decoder utilization as percentage
    pub decoder: u32,
    /// Gpu utilization as percentage
    pub gpu: u32,
    /// Gpu temperature
    pub temperature: u32,
    /// Processes using this GPU
    pub processes: Vec<GraphicsProcessUtilization>,
}

/// System global utilization
#[derive(Clone, Copy, Debug, PartialEq, Eq, Structural)]
pub struct SystemStatus {
    /// Total memory used
    pub memory: i32,
    /// Total CPU used as percentage
    pub cpu: i32,
}

/// Summary of the system
#[derive(Clone, Debug, PartialEq, Eq)]
pub struct SystemInfo {
    /// Operating system name
    pub os_name: String,
    /// Running kernel version
    pub kernel_version: String,
    /// Operating system version
    pub os_version: String,
    /// Operating system distribution
    pub distribution: String,
    /// System hostname
    pub hostname: String,
    /// Total memory of the machine
    pub memory: u64,
    /// Microprocessor description
    pub processor: Processor,
    /// Total amount of processors
    pub total_processors: usize,
    /// List of graphic cards
    pub graphics: Vec<GraphicCard>,
    /// List of available disks
    pub disks: Vec<Disk>,
    /// List of available cameras
    pub cameras: Vec<Camera>,
    /// Nvidia driver info
    pub nvidia: Option<NvidiaInfo>,
    /// Whether a render node for video acceleration is present
    pub vaapi: bool,
    /// The model of the board, where the firmware names it
    pub model: Option<String>,
}

/// Information about microprocessor
#[derive(Clone, Debug, PartialEq, Eq)]
pub struct Processor {
    /// Processor clock speed
    pub frequency: u64,
    /// Processor vendor
    pub vendor: String,
    /// Processor brand
    pub brand: String,
}

/// Information about a graphic card
#[derive(Clone, Debug, PartialEq, Eq)]
pub struct GraphicCard {
    /// Device id
    pub id: String,
    /// Device name
    pub name: String,
    /// Device brand
    pub brand: String,
    /// Total memory
    pub memory: u64,
    /// Device temperature
    pub temperature: u32,
}

/// Information about a hard disk
#[derive(Clone, Debug, PartialEq, Eq)]
pub struct Disk {
    /// Disk name
    pub name: String,
    /// Filesystem
    pub fs: String,
    /// Storage type (ssd, hd...)
    pub storage_type: String,
    /// Where it is mounted
    pub mount_point: String,
    /// Available space
    pub available: u64,
    /// Total size
    pub size: u64,
}

/// Connected camera information
#[derive(Clone, Debug, PartialEq, Eq)]
pub struct Camera {
    /// The camera name
    pub name: String,
    /// Camera path like /dev/video0
    pub path: String,
}

/// Nvidia drivers configuration
#[derive(Clone, Debug, PartialEq, Eq)]
pub struct NvidiaInfo {
    /// Nvidia drivers
    pub driver_version: String,
    /// NVML version
    pub nvml_version: String,
    /// Cuda version
    pub cuda_version: i32,
}

/// The kinds of storage that a disk is reported as.
#[derive(Clone, Copy, Debug, PartialEq, Eq, Structural)]
pub enum StorageKind {
    /// A disk with spinning platters.
    Hdd,
    /// A solid-state disk.
    Ssd,
    /// Any other kind, or none that could be told.
    Unknown,
}

/// The brands that a graphics card is reported as.
#[derive(Clone, Copy, Debug, PartialEq, Eq, Structural)]
pub enum GraphicsBrand {
    /// GeForce
    GeForce,
    /// Quadro
    Quadro,
    /// Tesla
    Tesla,
    /// Titan
    Titan,
    /// NVS
    Nvs,
    /// GRID
    Grid,
    /// A brand that the driver does not name.
    Unknown,
}

/// The cameras that are known where nothing can list the video devices of
/// the machine: none.
pub fn list_cameras() -> (cameras: Vec<Camera>)
    ensures
        cameras@ == Seq::<Camera>::empty(),
{
    Vec::new()
}

impl SystemStatus {
    /// The status that reports a CPU usage and a memory usage, where both
    /// are figures that its fields can hold.
    pub fn new(cpu: i64, memory: i64) -> (status: Option<SystemStatus>)
        ensures
            match status {
                Some(s) => s.cpu == cpu && s.memory == memory,
                None => !(i32::MIN <= cpu <= i32::MAX && i32::MIN <= memory <= i32::MAX),
            },
    {
        if cpu < -0x8000_0000 || cpu > 0x7fff_ffff || memory < -0x8000_0000 || memory
            > 0x7fff_ffff {
            None
        } else {
            Some(SystemStatus { memory: memory as i32, cpu: cpu as i32 })
        }
    }
}

impl StorageKind {
    /// The text under which the kind is reported.
    pub open spec fn spec_label(&self) -> Seq<char> {
        match self {
            StorageKind::Hdd => "HDD"@,
            StorageKind::Ssd => "SSD"@,
            StorageKind::Unknown => "Unknown"@,
        }
    }

    /// The text under which the kind is reported, in `Disk::storage_type`.
    pub fn label(&self) -> (text: String)
        ensures
            text@ == self.spec_label(),
    {
        match self {
            StorageKind::Hdd => "HDD".to_owned(),
            StorageKind::Ssd => "SSD".to_owned(),
            StorageKind::Unknown => "Unknown".to_owned(),
        }
    }
}

impl GraphicsBrand {
    /// The text under which the brand is reported.
    pub open spec fn spec_label(&self) -> Seq<char> {
        match self {
            GraphicsBrand::GeForce => "GeForce"@,
            GraphicsBrand::Quadro => "Quadro"@,
            GraphicsBrand::Tesla => "Tesla"@,
            GraphicsBrand::Titan => "Titan"@,
            GraphicsBrand::Nvs => "NVS"@,
            GraphicsBrand::Grid => "GRID"@,
            GraphicsBrand::Unknown => "Unknown"@,
        }
    }

    /// The text under which the brand is reported, in `GraphicCard::brand`.
    pub fn label(&self) -> (text: String)
        ensures
            text@ == self.spec_label(),
    {
        match self {
            GraphicsBrand::GeForce => "GeForce".to_owned(),
            GraphicsBrand::Quadro => "Quadro".to_owned(),
            GraphicsBrand::Tesla => "Tesla".to_owned(),
            GraphicsBrand::Titan => "Titan".to_owned(),
            GraphicsBrand::Nvs => "NVS".to_owned(),
            GraphicsBrand::Grid => "GRID".to_owned(),
            GraphicsBrand::Unknown => "Unknown".to_owned(),
        }
    }
}

} // verus!
