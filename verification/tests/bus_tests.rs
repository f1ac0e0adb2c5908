use kompusim_gui::bus::{Bus, BusError};

#[test]
fn attach_ram_ok() {
    let mut bus = Bus::new();
    assert_eq!(bus.attach_ram(0x8000_0000, 4096), Ok(()));
    assert_eq!(bus.rams.len(), 1);
    assert_eq!(bus.rams[0].base, 0x8000_0000);
    assert_eq!(bus.rams[0].data.len(), 4096);
}

#[test]
fn attach_zero_size_rejected() {
    let mut bus = Bus::new();
    assert_eq!(bus.attach_ram(0x1000, 0), Err(BusError::Size));
    assert_eq!(bus.attach_device(String::from("dev0"), 0x1000, 0), Err(BusError::Size));
    assert_eq!(bus.rams.len(), 0);
    assert_eq!(bus.devices.len(), 0);
}

#[test]
fn attach_past_address_space_rejected() {
    let mut bus = Bus::new();
    assert_eq!(bus.attach_ram(u64::MAX, 2), Err(BusError::Size));
}

#[test]
fn attach_overlapping_ram_rejected() {
    let mut bus = Bus::new();
    assert_eq!(bus.attach_ram(0x1000, 0x100), Ok(()));
    // Overlaps the tail of the existing region.
    assert_eq!(bus.attach_ram(0x10FF, 0x10), Err(BusError::Overlap));
    // Encloses the existing region.
    assert_eq!(bus.attach_ram(0x0800, 0x1000), Err(BusError::Overlap));
    // A device overlapping RAM is rejected too.
    assert_eq!(bus.attach_device(String::from("dev0"), 0x1080, 0x20), Err(BusError::Overlap));
    // The address map is unchanged.
    assert_eq!(bus.rams.len(), 1);
    assert_eq!(bus.devices.len(), 0);
    assert_eq!(bus.rams[0].base, 0x1000);
    // Adjacent, non-overlapping ranges are fine.
    assert_eq!(bus.attach_ram(0x1100, 0x100), Ok(()));
    assert_eq!(bus.attach_device(String::from("dev0"), 0x0F00, 0x100), Ok(()));
}

#[test]
fn attach_overlapping_device_rejected() {
    let mut bus = Bus::new();
    assert_eq!(bus.attach_device(String::from("uart0"), 0x1001_0000, 0x20), Ok(()));
    assert_eq!(bus.attach_device(String::from("uart1"), 0x1001_0010, 0x20), Err(BusError::Overlap));
    assert_eq!(bus.attach_ram(0x1001_001F, 0x1000), Err(BusError::Overlap));
    assert_eq!(bus.devices.len(), 1);
    assert_eq!(bus.rams.len(), 0);
    // The surviving mapping is the named unit attached first.
    assert_eq!(bus.devices[0].name, "uart0");
    assert_eq!(bus.devices[0].base, 0x1001_0000);
}

#[test]
fn load_image_round_trip() {
    let mut bus = Bus::new();
    assert_eq!(bus.attach_ram(0x8000_0000, 4096), Ok(()));
    let image = [0x13u8, 0x00, 0x00, 0x00];
    assert_eq!(bus.load_image(0x8000_0000, &image), Ok(()));
    assert_eq!(bus.read(0x8000_0000), Ok(0x13));
    assert_eq!(bus.read(0x8000_0001), Ok(0x00));
    assert_eq!(bus.read(0x8000_0002), Ok(0x00));
    assert_eq!(bus.read(0x8000_0003), Ok(0x00));
    // Beyond the image the RAM is still zero-filled.
    assert_eq!(bus.read(0x8000_0004), Ok(0x00));
}

#[test]
fn load_image_mid_region() {
    let mut bus = Bus::new();
    assert_eq!(bus.attach_ram(0x2000, 0x100), Ok(()));
    let image = [0xAAu8, 0xBB, 0xCC];
    assert_eq!(bus.load_image(0x2010, &image), Ok(()));
    assert_eq!(bus.read(0x200F), Ok(0x00));
    assert_eq!(bus.read(0x2010), Ok(0xAA));
    assert_eq!(bus.read(0x2011), Ok(0xBB));
    assert_eq!(bus.read(0x2012), Ok(0xCC));
    assert_eq!(bus.read(0x2013), Ok(0x00));
}

#[test]
fn load_image_out_of_bounds_rejected() {
    let mut bus = Bus::new();
    assert_eq!(bus.attach_ram(0x1000, 0x10), Ok(()));
    assert_eq!(bus.load_image(0x1000, &[0x11u8]), Ok(()));
    // Straddles the end of the only region.
    let image = [0u8; 0x20];
    assert_eq!(bus.load_image(0x1008, &image), Err(BusError::OutOfBounds));
    // Entirely unmapped.
    assert_eq!(bus.load_image(0x9000, &[1u8, 2]), Err(BusError::OutOfBounds));
    // Existing memory content is unchanged.
    assert_eq!(bus.read(0x1000), Ok(0x11));
    for a in 0x1001..0x1010u64 {
        assert_eq!(bus.read(a), Ok(0));
    }
}

#[test]
fn load_image_into_device_rejected() {
    let mut bus = Bus::new();
    assert_eq!(bus.attach_device(String::from("uart0"), 0x1001_0000, 0x20), Ok(()));
    assert_eq!(
        bus.load_image(0x1001_0000, &[0x41u8]),
        Err(BusError::OutOfBounds)
    );
}

#[test]
fn read_unmapped_faults() {
    let mut bus = Bus::new();
    assert_eq!(bus.read(0x4000), Err(BusError::BusFault));
    assert_eq!(bus.attach_ram(0x1000, 0x10), Ok(()));
    assert_eq!(bus.read(0x0FFF), Err(BusError::BusFault));
    assert_eq!(bus.read(0x1010), Err(BusError::BusFault));
}

#[test]
fn write_ram_then_read() {
    let mut bus = Bus::new();
    assert_eq!(bus.attach_ram(0x1000, 0x10), Ok(()));
    assert_eq!(bus.write(0x1005, 0x7F), Ok(None));
    assert_eq!(bus.read(0x1005), Ok(0x7F));
    assert_eq!(bus.read(0x1004), Ok(0x00));
    assert_eq!(bus.write(0x2000, 0x01), Err(BusError::BusFault));
}

#[test]
fn device_registers_read_zero_and_transmit() {
    let mut bus = Bus::new();
    assert_eq!(bus.attach_device(String::from("uart0"), 0x1001_0000, 0x20), Ok(()));
    assert_eq!(bus.read(0x1001_0000), Ok(0));
    assert_eq!(bus.read(0x1001_0005), Ok(0));
    // A write to the transmit register hands the byte back.
    assert_eq!(bus.write(0x1001_0000, 0x41), Ok(Some(0x41)));
    // A write to another register is accepted and ignored.
    assert_eq!(bus.write(0x1001_0004, 0x41), Ok(None));
}
