use led_badge::usb::{
    parse_bus_address, select_device, DeviceTarget, UsbConnection, UsbDeviceEntry, UsbError,
    PRODUCT_ID, VENDOR_ID,
};

fn badge(bus: u8, address: u8, path: Option<&str>) -> UsbDeviceEntry {
    UsbDeviceEntry {
        ids: Some((VENDOR_ID, PRODUCT_ID)),
        path: path.map(|p| p.to_string()),
        bus,
        address,
    }
}

fn other(bus: u8, address: u8) -> UsbDeviceEntry {
    UsbDeviceEntry { ids: Some((0x1234, 0x5678)), path: Some("/dev/other".to_string()), bus, address }
}

#[test]
fn backend_selection() {
    assert!(matches!(UsbConnection::new(), Ok(UsbConnection::Hidapi(_))));
    assert!(matches!(UsbConnection::with_backend("auto"), Ok(UsbConnection::Hidapi(_))));
    assert!(matches!(UsbConnection::with_backend("hidapi"), Ok(UsbConnection::Hidapi(_))));
    assert!(matches!(UsbConnection::with_backend("libusb"), Ok(UsbConnection::Libusb(_))));
    assert!(matches!(UsbConnection::with_backend("rusb"), Ok(UsbConnection::Libusb(_))));
    match UsbConnection::with_backend("serial") {
        Err(UsbError::UnknownBackend(name)) => assert_eq!(name, "serial"),
        _ => panic!("expected an unknown backend"),
    }
}

#[test]
fn backend_names() {
    assert_eq!(UsbConnection::with_backend("auto").unwrap().backend_name(), "hidapi");
    assert_eq!(UsbConnection::with_backend("rusb").unwrap().backend_name(), "libusb");
}

#[test]
fn hid_devices_are_listed_by_path() {
    let conn = UsbConnection::with_backend("hidapi").unwrap();
    let entries = vec![badge(1, 2, Some("/dev/hidraw3")), other(1, 3), badge(1, 4, None), badge(2, 9, Some("/dev/hidraw7"))];
    let ids = conn.find_devices(&entries).unwrap();
    assert_eq!(ids, vec!["/dev/hidraw3".to_string(), "/dev/hidraw7".to_string()]);
}

#[test]
fn usb_devices_are_listed_by_bus_address() {
    let conn = UsbConnection::with_backend("libusb").unwrap();
    let entries = vec![badge(1, 2, None), other(1, 3), badge(255, 10, None)];
    let ids = conn.find_devices(&entries).unwrap();
    assert_eq!(ids, vec!["1:2".to_string(), "255:10".to_string()]);
}

#[test]
fn unreadable_descriptor_fails_usb_listing() {
    let conn = UsbConnection::with_backend("libusb").unwrap();
    let broken = UsbDeviceEntry { ids: None, path: None, bus: 1, address: 1 };
    let entries = vec![badge(1, 2, None), broken];
    assert!(matches!(conn.find_devices(&entries), Err(UsbError::DescriptorUnavailable)));
}

#[test]
fn device_ids_parse() {
    assert!(matches!(parse_bus_address("3:17"), Ok((3, 17))));
    assert!(matches!(parse_bus_address("+3:007"), Ok((3, 7))));
    assert!(matches!(parse_bus_address("317"), Err(UsbError::InvalidDeviceId)));
    assert!(matches!(parse_bus_address("1:2:3"), Err(UsbError::InvalidDeviceId)));
    assert!(matches!(parse_bus_address("x:2"), Err(UsbError::InvalidBus)));
    assert!(matches!(parse_bus_address(":2"), Err(UsbError::InvalidBus)));
    assert!(matches!(parse_bus_address("256:2"), Err(UsbError::InvalidBus)));
    assert!(matches!(parse_bus_address("-1:2"), Err(UsbError::InvalidBus)));
    assert!(matches!(parse_bus_address("1:"), Err(UsbError::InvalidAddress)));
    assert!(matches!(parse_bus_address("1:+"), Err(UsbError::InvalidAddress)));
    assert!(matches!(parse_bus_address("1:300"), Err(UsbError::InvalidAddress)));
}

#[test]
fn listed_id_reads_back() {
    let conn = UsbConnection::with_backend("libusb").unwrap();
    let ids = conn.find_devices(&vec![badge(42, 199, None)]).unwrap();
    assert!(matches!(parse_bus_address(&ids[0]), Ok((42, 199))));
}

#[test]
fn too_large_payload_is_refused() {
    let conn = UsbConnection::new().unwrap();
    let data = vec![1u8; 8193];
    assert!(matches!(conn.prepare_write(None, &data), Err(UsbError::DataTooLarge(8193))));
    assert!(conn.prepare_write(None, &vec![1u8; 8192]).is_ok());
}

#[test]
fn hidapi_reports_have_report_id_and_padding() {
    let conn = UsbConnection::new().unwrap();
    let data: Vec<u8> = (0..100u8).collect();
    let request = conn.prepare_write(Some("ignored"), &data).unwrap();
    assert!(request.target.is_none());
    assert_eq!(request.reports.len(), 2);
    for report in &request.reports {
        assert_eq!(report.len(), 65);
        assert_eq!(report[0], 0);
    }
    assert_eq!(&request.reports[0][1..], &data[0..64]);
    assert_eq!(&request.reports[1][1..37], &data[64..100]);
    assert!(request.reports[1][37..].iter().all(|b| *b == 0));
}

#[test]
fn libusb_reports_reassemble() {
    let conn = UsbConnection::with_backend("libusb").unwrap();
    let data: Vec<u8> = (0..130u8).collect();
    let request = conn.prepare_write(None, &data).unwrap();
    assert_eq!(request.reports.len(), 3);
    let joined: Vec<u8> = request.reports.concat();
    assert_eq!(joined.len(), 192);
    assert_eq!(&joined[..130], &data[..]);
    assert!(joined[130..].iter().all(|b| *b == 0));
}

#[test]
fn empty_payload_sends_nothing() {
    let conn = UsbConnection::new().unwrap();
    let request = conn.prepare_write(None, &[]).unwrap();
    assert!(request.reports.is_empty());
}

#[test]
fn libusb_device_id_errors_come_after_size_check() {
    let conn = UsbConnection::with_backend("libusb").unwrap();
    assert!(matches!(conn.prepare_write(Some("nope"), &[1, 2]), Err(UsbError::InvalidDeviceId)));
    assert!(matches!(conn.prepare_write(Some("nope"), &vec![0; 9000]), Err(UsbError::DataTooLarge(9000))));
    let request = conn.prepare_write(Some("2:5"), &[1, 2]).unwrap();
    let target = request.target.unwrap();
    assert_eq!((target.bus, target.address), (2, 5));
    assert_eq!(target.id, "2:5");
}

#[test]
fn device_selection() {
    let entries = vec![other(1, 1), badge(1, 2, None), badge(3, 4, None)];
    assert_eq!(select_device(&entries, &None).unwrap(), 1);
    let target = Some(DeviceTarget { bus: 3, address: 4, id: "3:4".to_string() });
    assert_eq!(select_device(&entries, &target).unwrap(), 2);
    let missing = Some(DeviceTarget { bus: 1, address: 1, id: "1:1".to_string() });
    match select_device(&entries, &missing) {
        Err(UsbError::DeviceNotFound(id)) => assert_eq!(id, "1:1"),
        _ => panic!("expected device not found"),
    }
    assert!(matches!(select_device(&vec![other(1, 1)], &None), Err(UsbError::NoBadge)));
}
