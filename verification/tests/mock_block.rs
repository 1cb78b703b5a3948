use wishy::drivers::block::{BlockDevice, BlockRegistry, Disk, InitrdDevice, RamDisk, read_sectors, register, write_sectors};

#[test]
fn test_read_write() {
    let mut device = RamDisk::new();
    let data = [0x42u8; 512];

    device.write(0, 1, &data).unwrap();

    let mut buffer = [0u8; 512];
    device.read(0, 1, &mut buffer).unwrap();

    assert_eq!(buffer, data);
}

#[test]
fn unwritten_sectors_read_as_zeros() {
    let mut device = RamDisk::new();
    let data = [7u8; 1024];
    device.write(3, 2, &data).unwrap();
    let mut buffer = [0xffu8; 1536];
    device.read(2, 3, &mut buffer).unwrap();
    assert!(buffer[..512].iter().all(|&b| b == 0));
    assert!(buffer[512..].iter().all(|&b| b == 7));
}

#[test]
fn read_leaves_the_rest_of_the_buffer() {
    let device = RamDisk::new();
    let mut buffer = [9u8; 700];
    device.read(0, 1, &mut buffer).unwrap();
    assert!(buffer[..512].iter().all(|&b| b == 0));
    assert!(buffer[512..].iter().all(|&b| b == 9));
}

#[test]
fn initrd_reads_its_image_and_refuses_writes() {
    let mut image = vec![0u8; 1024];
    image[512] = 5;
    let mut dev = InitrdDevice { data: image };
    let mut buffer = [0u8; 512];
    dev.read(1, 1, &mut buffer).unwrap();
    assert_eq!(buffer[0], 5);
    assert!(dev.read(2, 1, &mut buffer).is_err());
    assert!(dev.write(0, 1, &buffer).is_err());
    assert_eq!(dev.sector_size(), 512);
}

#[test]
fn registry_routes_to_devices() {
    let mut reg = BlockRegistry::new();
    register(&mut reg, Disk::Ram(RamDisk::new()));
    let data = [1u8; 512];
    assert!(write_sectors(&mut reg, 0, 4, 1, &data).is_ok());
    let mut buffer = [0u8; 512];
    assert!(read_sectors(&reg, 0, 4, 1, &mut buffer).is_ok());
    assert_eq!(buffer, data);
    assert!(read_sectors(&reg, 1, 0, 1, &mut buffer).is_err());
    assert!(write_sectors(&mut reg, 3, 0, 1, &data).is_err());
}
