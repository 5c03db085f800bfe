use serial_tool::config::PortSettings;
use serial_tool::i18n::Language;
use serial_tool::ports::{
    open_request, parse_baud, port_display, port_label, port_list_failed, refresh_port_list, PortInfo, UsbNames,
};
use serial_tool::session::Command;

fn usb(name: &str, product: Option<&str>, manufacturer: Option<&str>) -> PortInfo {
    PortInfo {
        port_name: name.to_string(),
        usb: Some(UsbNames { product: product.map(str::to_string), manufacturer: manufacturer.map(str::to_string) }),
    }
}

fn plain(name: &str) -> PortInfo {
    PortInfo { port_name: name.to_string(), usb: None }
}

#[test]
fn port_names_prefer_the_usb_product() {
    assert_eq!(port_display(&usb("COM3", Some(" USB-SERIAL CH340 "), Some("wch"))), "USB-SERIAL CH340");
    assert_eq!(port_display(&usb("COM4", None, Some("FTDI"))), "FTDI");
    assert_eq!(port_display(&usb("COM5", Some("   "), Some("FTDI"))), "COM5");
    assert_eq!(port_display(&usb("COM6", None, None)), "COM6");
    assert_eq!(port_display(&plain("/dev/ttyS0")), "/dev/ttyS0");
}

#[test]
fn port_list_is_sorted_and_keeps_a_listed_choice() {
    let ports = vec![plain("COM9"), usb("COM10", Some("CH340"), None), plain("COM1")];
    let mut chosen = "COM9".to_string();
    let list = refresh_port_list(&ports, &mut chosen);
    let names: Vec<&str> = list.iter().map(|(_, n)| n.as_str()).collect();
    assert_eq!(names, vec!["COM1", "COM10", "COM9"]);
    assert_eq!(list[1].0, "CH340");
    assert_eq!(chosen, "COM9");

    let mut gone = "COM7".to_string();
    refresh_port_list(&ports, &mut gone);
    assert_eq!(gone, "COM1");

    let mut any = "COM1".to_string();
    assert!(refresh_port_list(&Vec::new(), &mut any).is_empty());
    assert!(any.is_empty());
}

#[test]
fn port_label_falls_back_to_the_name() {
    let list = vec![("CH340".to_string(), "COM3".to_string())];
    assert_eq!(port_label(&list, &"COM3".to_string()), Some("CH340".to_string()));
    assert_eq!(port_label(&list, &"COM8".to_string()), Some("COM8".to_string()));
    assert_eq!(port_label(&list, &String::new()), None);
}

#[test]
fn open_request_checks_name_and_baud() {
    let mut p = PortSettings { port_name: "  COM3 ".to_string(), ..PortSettings::default() };
    let (cmd, status) = open_request(&mut p, " 9600 ", Language::English);
    match cmd {
        Some(Command::Open(s)) => {
            assert_eq!(s.port_name, "COM3");
            assert_eq!(s.baud_rate, 9600);
        }
        _ => panic!("the port opens"),
    }
    assert_eq!(status.text, "Opening port…");
    assert_eq!(p.port_name, "COM3");

    let (cmd, status) = open_request(&mut p, "0", Language::English);
    assert!(cmd.is_none() && status.is_error);
    assert_eq!(status.text, "Invalid baud rate");
    assert_eq!(p.baud_rate, 9600);

    let mut blank = PortSettings::default();
    let (cmd, status) = open_request(&mut blank, "9600", Language::Chinese);
    assert!(cmd.is_none());
    assert_eq!(status.text, "请先选择串口");
}

#[test]
fn typed_baud_rates_read_like_parse() {
    assert_eq!(parse_baud(" 115200 "), Some(115200));
    assert_eq!(parse_baud("+300"), Some(300));
    assert_eq!(parse_baud("0"), Some(0));
    assert_eq!(parse_baud("4294967295"), Some(u32::MAX));
    assert_eq!(parse_baud("4294967296"), None);
    assert_eq!(parse_baud("12a"), None);
    assert_eq!(parse_baud(""), None);
}

#[test]
fn port_listing_failure_is_reported() {
    let s = port_list_failed(Language::English, "no udev");
    assert!(s.is_error);
    assert_eq!(s.text, "Failed to list ports: no udev");
}
